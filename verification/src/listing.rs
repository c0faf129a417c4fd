//! The list of the stored keys: what each file of the store contributes, and the order.

use vstd::prelude::*;
use vstd::string::*;

use crate::error;
use crate::error::{crypto_error, Error, ErrorView};
use crate::record;
use crate::record::{key_file_name, validate_record};
use crate::record::{KeyInfo, KeyInfoView, KeyRecord, KeyRecordView};
use crate::text;
use crate::text::{comes_before, same_text};

verus! {

/// The meaning of a file of the store: its name and its record, or why it could not be read.
pub open spec fn entry_view(entry: Result<(String, KeyRecord), Error>) -> Result<
    (Seq<char>, KeyRecordView),
    ErrorView,
> {
    match entry {
        Err(error) => Err(error@),
        Ok((name, record)) => Ok((name@, record@)),
    }
}

/// The meaning of the files of the store, in the order in which they were found.
pub open spec fn entries_view(entries: Seq<Result<(String, KeyRecord), Error>>) -> Seq<
    Result<(Seq<char>, KeyRecordView), ErrorView>,
> {
    Seq::new(entries.len(), |i: int| entry_view(entries[i]))
}

/// The key that a file of the store adds to the list. Its record has to be usable, and to stand
/// under the name that its ID gives.
pub open spec fn entry_info(entry: Result<(Seq<char>, KeyRecordView), ErrorView>) -> Result<
    KeyInfoView,
    ErrorView,
> {
    match entry {
        Err(error) => Err(error),
        Ok((name, record)) => match record::record_check(record, None) {
            Err(error) => Err(error),
            Ok(()) => if record::record_file_name(record.id) != name {
                Err(ErrorView::Crypto("wallet record filename does not match its key ID"@))
            } else {
                Ok(record::record_info(record))
            },
        },
    }
}

/// The keys that the first `n` files add to the list, or the first thing that is wrong with them.
pub open spec fn entry_infos(
    entries: Seq<Result<(Seq<char>, KeyRecordView), ErrorView>>,
    n: int,
) -> Result<Seq<KeyInfoView>, ErrorView>
    decreases n,
{
    if n <= 0 {
        Ok(Seq::empty())
    } else {
        match entry_infos(entries, n - 1) {
            Err(error) => Err(error),
            Ok(infos) => match entry_info(entries[n - 1]) {
                Err(error) => Err(error),
                Ok(info) => Ok(infos.push(info)),
            },
        }
    }
}

/// The meaning of a list of keys.
pub open spec fn keys_view(keys: Seq<KeyInfo>) -> Seq<KeyInfoView> {
    Seq::new(keys.len(), |i: int| keys[i]@)
}

/// Whether keys stand in ascending order of their IDs.
pub open spec fn in_id_order(keys: Seq<KeyInfoView>) -> bool {
    forall|i: int, j: int|
        0 <= i < j < keys.len() ==> !text::text_before(
            (#[trigger] keys[j]).id,
            (#[trigger] keys[i]).id,
        )
}

/// The keys of a list that have an ID.
pub open spec fn keys_with_id(keys: Seq<KeyInfoView>, id: Seq<char>) -> Seq<KeyInfoView> {
    keys.filter(|key: KeyInfoView| key.id == id)
}

/// Whether `sorted` holds the same keys as `keys` in ascending order of their IDs. Keys with the
/// same ID keep their order.
pub open spec fn is_sorting(keys: Seq<KeyInfoView>, sorted: Seq<KeyInfoView>) -> bool {
    &&& in_id_order(sorted)
    &&& sorted.len() == keys.len()
    &&& forall|id: Seq<char>| #[trigger] keys_with_id(sorted, id) == keys_with_id(keys, id)
}

proof fn lemma_inserted_in_order(sorted: Seq<KeyInfoView>, at: int, key: KeyInfoView)
    requires
        in_id_order(sorted),
        0 <= at <= sorted.len(),
        forall|i: int| 0 <= i < at ==> !text::text_before(key.id, (#[trigger] sorted[i]).id),
        at < sorted.len() ==> text::text_before(key.id, sorted[at].id),
    ensures
        in_id_order(sorted.insert(at, key)),
        forall|i: int| at <= i < sorted.len() ==> text::text_before(key.id, (#[trigger] sorted[i]).id),
{
    assert forall|i: int| at <= i < sorted.len() implies text::text_before(
        key.id,
        (#[trigger] sorted[i]).id,
    ) by {
        if at < i {
            text::lemma_text_before_total(sorted[i].id, sorted[at].id);
            assert(!text::text_before(sorted[i].id, sorted[at].id));
            if text::text_before(sorted[at].id, sorted[i].id) {
                text::lemma_text_before_transitive(key.id, sorted[at].id, sorted[i].id);
            }
        }
    }
    let after = sorted.insert(at, key);
    sorted.insert_ensures(at, key);
    assert forall|i: int, j: int| 0 <= i < j < after.len() implies !text::text_before(
        (#[trigger] after[j]).id,
        (#[trigger] after[i]).id,
    ) by {
        if j < at {
            assert(after[i] == sorted[i] && after[j] == sorted[j]);
        } else if j == at {
            assert(after[i] == sorted[i] && after[j] == key);
        } else if i < at {
            assert(after[i] == sorted[i] && after[j] == sorted[j - 1]);
        } else if i == at {
            assert(after[i] == key && after[j] == sorted[j - 1]);
            text::lemma_text_before_total(key.id, sorted[j - 1].id);
        } else {
            assert(after[i] == sorted[i - 1] && after[j] == sorted[j - 1]);
        }
    }
}

proof fn lemma_inserted_keys(
    keys: Seq<KeyInfoView>,
    sorted: Seq<KeyInfoView>,
    at: int,
    key: KeyInfoView,
)
    requires
        is_sorting(keys, sorted),
        0 <= at <= sorted.len(),
        forall|i: int| 0 <= i < at ==> !text::text_before(key.id, (#[trigger] sorted[i]).id),
        at < sorted.len() ==> text::text_before(key.id, sorted[at].id),
    ensures
        is_sorting(keys.push(key), sorted.insert(at, key)),
{
    lemma_inserted_in_order(sorted, at, key);
    let low = sorted.take(at);
    let high = sorted.skip(at);
    assert(sorted =~= low + high);
    assert(sorted.insert(at, key) =~= low + seq![key] + high);
    assert(keys.push(key) =~= keys + seq![key]);
    assert forall|id: Seq<char>| #[trigger] keys_with_id(sorted.insert(at, key), id)
        == keys_with_id(keys.push(key), id) by {
        let has_id = |k: KeyInfoView| k.id == id;
        assert(keys_with_id(sorted, id) == keys_with_id(keys, id));
        Seq::filter_distributes_over_add(low, high, has_id);
        Seq::filter_distributes_over_add(low + seq![key], high, has_id);
        Seq::filter_distributes_over_add(low, seq![key], has_id);
        Seq::filter_distributes_over_add(keys, seq![key], has_id);
        if key.id == id {
            assert forall|i: int| 0 <= i < high.len() implies !has_id(#[trigger] high[i]) by {
                assert(high[i] == sorted[at + i]);
                text::lemma_text_before_total(key.id, sorted[at + i].id);
            }
            high.lemma_all_neg_filter_empty(has_id);
            assert(high.filter(has_id) =~= Seq::empty());
            assert(low.filter(has_id) + seq![key].filter(has_id) + high.filter(has_id)
                =~= low.filter(has_id) + high.filter(has_id) + seq![key].filter(has_id));
        } else {
            seq![key].lemma_all_neg_filter_empty(has_id);
            assert(seq![key].filter(has_id) =~= Seq::empty());
            assert(low.filter(has_id) + seq![key].filter(has_id) + high.filter(has_id)
                =~= low.filter(has_id) + high.filter(has_id));
            assert(keys.filter(has_id) + seq![key].filter(has_id) =~= keys.filter(has_id));
        }
    }
}

/// Sorts keys by their IDs. Keys with the same ID keep their order.
pub fn sort_by_id(keys: &Vec<KeyInfo>) -> (r: Vec<KeyInfo>)
    ensures
        is_sorting(keys_view(keys@), keys_view(r@)),
{
    let mut sorted: Vec<KeyInfo> = Vec::new();
    let ghost view = keys_view(keys@);
    let mut i: usize = 0;
    proof {
        assert(keys_view(sorted@) =~= view.take(0));
    }
    while i < keys.len()
        invariant
            i <= keys@.len(),
            view == keys_view(keys@),
            is_sorting(view.take(i as int), keys_view(sorted@)),
        decreases keys@.len() - i,
    {
        let key = keys[i].clone();
        let ghost before = keys_view(sorted@);
        let mut at: usize = 0;
        while at < sorted.len() && !comes_before(key.id.as_str(), sorted[at].id.as_str())
            invariant
                at <= sorted@.len(),
                before == keys_view(sorted@),
                forall|j: int|
                    0 <= j < at ==> !text::text_before(key@.id, (#[trigger] before[j]).id),
            ensures
                at < sorted@.len() ==> text::text_before(key@.id, before[at as int].id),
            decreases sorted@.len() - at,
        {
            assert(before[at as int] == sorted@[at as int]@);
            at = at + 1;
        }
        proof {
            lemma_inserted_keys(view.take(i as int), before, at as int, key@);
            assert(view.take(i + 1) =~= view.take(i as int).push(key@));
            assert(keys_view(sorted@.insert(at as int, key)) =~= before.insert(at as int, key@));
        }
        sorted.insert(at, key);
        i = i + 1;
    }
    assert(view.take(i as int) =~= view);
    sorted
}

fn list_entry(entry: &Result<(String, KeyRecord), Error>) -> (r: Result<KeyInfo, Error>)
    ensures
        error::result_view(r) == entry_info(entry_view(*entry)),
{
    match entry {
        Err(error) => Err(error.clone()),
        Ok((name, record)) => match validate_record(record, None) {
            Err(error) => Err(error),
            Ok(()) => {
                if !same_text(key_file_name(record.id.as_str()).as_str(), name.as_str()) {
                    Err(crypto_error("wallet record filename does not match its key ID"))
                } else {
                    Ok(record.info())
                }
            },
        },
    }
}

pub(crate) proof fn lemma_first_entry_error(
    entries: Seq<Result<(Seq<char>, KeyRecordView), ErrorView>>,
    m: int,
    n: int,
)
    requires
        m <= n,
        entry_infos(entries, m) is Err,
    ensures
        entry_infos(entries, n) == entry_infos(entries, m),
    decreases n - m,
{
    if m < n {
        lemma_first_entry_error(entries, m, n - 1);
    }
}

/// The keys of the files of the store, in the order of the files.
pub(crate) fn collect_keys(entries: &Vec<Result<(String, KeyRecord), Error>>) -> (r: Result<
    Vec<KeyInfo>,
    Error,
>)
    ensures
        match r {
            Ok(keys) => entry_infos(entries_view(entries@), entries@.len() as int) == Ok::<
                Seq<KeyInfoView>,
                ErrorView,
            >(keys_view(keys@)),
            Err(error) => entry_infos(entries_view(entries@), entries@.len() as int) == Err::<
                Seq<KeyInfoView>,
                ErrorView,
            >(error@),
        },
{
    let mut keys: Vec<KeyInfo> = Vec::new();
    let ghost view = entries_view(entries@);
    let mut i: usize = 0;
    assert(keys_view(keys@) =~= Seq::empty());
    while i < entries.len()
        invariant
            i <= entries@.len(),
            view == entries_view(entries@),
            entry_infos(view, i as int) == Ok::<Seq<KeyInfoView>, ErrorView>(keys_view(keys@)),
        decreases entries@.len() - i,
    {
        let ghost before = keys_view(keys@);
        assert(view[i as int] == entry_view(entries@[i as int]));
        match list_entry(&entries[i]) {
            Err(error) => {
                assert(entry_infos(view, i + 1) == Err::<Seq<KeyInfoView>, ErrorView>(error@));
                proof {
                    lemma_first_entry_error(view, i + 1, entries@.len() as int);
                }
                return Err(error);
            },
            Ok(info) => {
                proof {
                    assert(keys_view(keys@.push(info)) =~= before.push(info@));
                }
                keys.push(info);
            },
        }
        i = i + 1;
    }
    Ok(keys)
}

} // verus!
