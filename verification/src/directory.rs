//! The record files of a store as a whole, and what deleting a key does to them.

use vstd::prelude::*;

use crate::crypto;
use crate::error::ErrorView;
use crate::listing;
use crate::protocol;
use crate::record;
use crate::record::{KeyInfoView, KeyRecordView};
use crate::store;
use crate::text;

verus! {

/// Whether an ID has a record file.
pub open spec fn is_present(files: Map<Seq<char>, KeyRecordView>, id: Seq<char>) -> bool {
    files.contains_key(record::record_file_name(id))
}

/// What looking up the record of an ID among the files comes to.
pub open spec fn found(files: Map<Seq<char>, KeyRecordView>, id: Seq<char>) -> Result<
    Option<KeyRecordView>,
    ErrorView,
> {
    if is_present(files, id) {
        Ok(Some(files[record::record_file_name(id)]))
    } else {
        Ok(None)
    }
}

/// Whether an ID has a record file, and the record in it is the ID's own.
pub open spec fn holds_key(files: Map<Seq<char>, KeyRecordView>, id: Seq<char>) -> bool {
    is_present(files, id) && files[record::record_file_name(id)].id == id
}

/// The files without that of an ID.
pub open spec fn without_key(files: Map<Seq<char>, KeyRecordView>, id: Seq<char>) -> Map<
    Seq<char>,
    KeyRecordView,
> {
    files.remove(record::record_file_name(id))
}

/// Whether entries are all the files, each once, in any order.
pub open spec fn enumerates(
    entries: Seq<Result<(Seq<char>, KeyRecordView), ErrorView>>,
    files: Map<Seq<char>, KeyRecordView>,
) -> bool {
    &&& forall|i: int|
        0 <= i < entries.len() ==> match #[trigger] entries[i] {
            Ok((name, record)) => files.contains_key(name) && files[name] == record,
            Err(_) => false,
        }
    &&& forall|i: int, j: int|
        0 <= i < j < entries.len() ==> (#[trigger] entries[i])->Ok_0.0 != (
        #[trigger] entries[j])->Ok_0.0
    &&& forall|name: Seq<char>| #[trigger]
        files.contains_key(name) ==> exists|i: int|
            0 <= i < entries.len() && (#[trigger] entries[i])->Ok_0.0 == name
}

/// Whether listing the files, as they were found in some order, gives keys.
pub open spec fn listed(
    files: Map<Seq<char>, KeyRecordView>,
    entries: Seq<Result<(Seq<char>, KeyRecordView), ErrorView>>,
    keys: Seq<KeyInfoView>,
) -> bool {
    &&& enumerates(entries, files)
    &&& match listing::entry_infos(entries, entries.len() as int) {
        Ok(infos) => listing::is_sorting(infos, keys),
        Err(_) => false,
    }
}

pub(crate) proof fn lemma_infos_of_entries(
    entries: Seq<Result<(Seq<char>, KeyRecordView), ErrorView>>,
    n: int,
)
    requires
        0 <= n <= entries.len(),
    ensures
        listing::entry_infos(entries, n) matches Ok(infos) ==> {
            &&& infos.len() == n
            &&& forall|i: int|
                0 <= i < n ==> listing::entry_info(#[trigger] entries[i]) == Ok::<
                    KeyInfoView,
                    ErrorView,
                >(infos[i])
        },
        (forall|i: int| 0 <= i < n ==> listing::entry_info(#[trigger] entries[i]) is Ok)
            ==> listing::entry_infos(entries, n) is Ok,
    decreases n,
{
    if n > 0 {
        lemma_infos_of_entries(entries, n - 1);
    }
}

proof fn lemma_one_with_id(keys: Seq<KeyInfoView>, at: int)
    requires
        0 <= at < keys.len(),
        forall|i: int| 0 <= i < keys.len() && i != at ==> (#[trigger] keys[i]).id != keys[at].id,
    ensures
        listing::keys_with_id(keys, keys[at].id) == seq![keys[at]],
{
    let id = keys[at].id;
    let has_id = |key: KeyInfoView| key.id == id;
    let low = keys.take(at);
    let high = keys.skip(at + 1);
    assert(keys =~= low + seq![keys[at]] + high);
    Seq::filter_distributes_over_add(low + seq![keys[at]], high, has_id);
    Seq::filter_distributes_over_add(low, seq![keys[at]], has_id);
    assert forall|i: int| 0 <= i < low.len() implies !has_id(#[trigger] low[i]) by {
        assert(low[i] == keys[i]);
    }
    assert forall|i: int| 0 <= i < high.len() implies !has_id(#[trigger] high[i]) by {
        assert(high[i] == keys[at + 1 + i]);
    }
    low.lemma_all_neg_filter_empty(has_id);
    high.lemma_all_neg_filter_empty(has_id);
    reveal(Seq::filter);
    assert(seq![keys[at]].drop_last() =~= Seq::empty());
    assert(seq![keys[at]].drop_last().filter(has_id) =~= Seq::empty());
    assert(seq![keys[at]].filter(has_id) =~= seq![keys[at]]);
    assert(low.filter(has_id) =~= Seq::empty());
    assert(high.filter(has_id) =~= Seq::empty());
    assert(keys.filter(has_id) =~= seq![keys[at]]);
}

proof fn lemma_none_with_id(keys: Seq<KeyInfoView>, id: Seq<char>)
    requires
        forall|i: int| 0 <= i < keys.len() ==> (#[trigger] keys[i]).id != id,
    ensures
        listing::keys_with_id(keys, id) == Seq::<KeyInfoView>::empty(),
{
    let has_id = |key: KeyInfoView| key.id == id;
    keys.lemma_all_neg_filter_empty(has_id);
    assert(keys.filter(has_id) =~= Seq::empty());
}

/// What a list of the files holds under an ID: the ID's key, if there is one, and no other.
pub proof fn lemma_listed_under_id(
    files: Map<Seq<char>, KeyRecordView>,
    entries: Seq<Result<(Seq<char>, KeyRecordView), ErrorView>>,
    keys: Seq<KeyInfoView>,
    id: Seq<char>,
)
    requires
        listed(files, entries, keys),
    ensures
        listing::keys_with_id(keys, id) == if holds_key(files, id) {
            seq![record::record_info(files[record::record_file_name(id)])]
        } else {
            Seq::empty()
        },
        holds_key(files, id) ==> record::record_check(
            files[record::record_file_name(id)],
            Some(id),
        ) is Ok,
{
    let infos = listing::entry_infos(entries, entries.len() as int)->Ok_0;
    let name = record::record_file_name(id);
    lemma_infos_of_entries(entries, entries.len() as int);
    assert(listing::keys_with_id(keys, id) == listing::keys_with_id(infos, id));
    assert forall|i: int| 0 <= i < infos.len() && (#[trigger] infos[i]).id == id implies
        entries[i]->Ok_0.0 == name by {
        assert(listing::entry_info(entries[i]) == Ok::<KeyInfoView, ErrorView>(infos[i]));
    }
    if holds_key(files, id) {
        let at = choose|i: int| 0 <= i < entries.len() && (#[trigger] entries[i])->Ok_0.0 == name;
        assert(listing::entry_info(entries[at]) == Ok::<KeyInfoView, ErrorView>(infos[at]));
        assert(infos[at] == record::record_info(files[name]));
        assert forall|i: int| 0 <= i < infos.len() && i != at implies (#[trigger] infos[i]).id
            != infos[at].id by {
            if infos[i].id == id {
                assert(entries[i]->Ok_0.0 == entries[at]->Ok_0.0);
            }
        }
        lemma_one_with_id(infos, at);
    } else {
        assert forall|i: int| 0 <= i < infos.len() implies (#[trigger] infos[i]).id != id by {
            assert(listing::entry_info(entries[i]) == Ok::<KeyInfoView, ErrorView>(infos[i]));
        }
        lemma_none_with_id(infos, id);
    }
}

proof fn lemma_last_with_id(keys: Seq<KeyInfoView>, id: Seq<char>)
    requires
        keys.len() > 0,
    ensures
        listing::keys_with_id(keys, id) == if keys.last().id == id {
            listing::keys_with_id(keys.drop_last(), id).push(keys.last())
        } else {
            listing::keys_with_id(keys.drop_last(), id)
        },
{
    reveal(Seq::filter);
}

/// Two lists that are in the order of their IDs and hold the same under each ID are the same.
pub proof fn lemma_order_determines_list(a: Seq<KeyInfoView>, b: Seq<KeyInfoView>)
    requires
        listing::in_id_order(a),
        listing::in_id_order(b),
        forall|id: Seq<char>| #[trigger]
            listing::keys_with_id(a, id) == listing::keys_with_id(b, id),
    ensures
        a == b,
    decreases a.len(),
{
    if a.len() == 0 {
        if b.len() > 0 {
            lemma_last_with_id(b, b.last().id);
            lemma_none_with_id(a, b.last().id);
            assert(listing::keys_with_id(a, b.last().id) == listing::keys_with_id(b, b.last().id));
        }
        assert(a =~= b);
    } else {
        let x = a.last();
        lemma_last_with_id(a, x.id);
        assert(listing::keys_with_id(a, x.id) == listing::keys_with_id(b, x.id));
        if b.len() == 0 {
            lemma_none_with_id(b, x.id);
        }
        let y = b.last();
        lemma_last_with_id(b, y.id);
        assert(listing::keys_with_id(a, y.id) == listing::keys_with_id(b, y.id));
        if forall|i: int| 0 <= i < b.len() ==> (#[trigger] b[i]).id != x.id {
            lemma_none_with_id(b, x.id);
        }
        if forall|i: int| 0 <= i < a.len() ==> (#[trigger] a[i]).id != y.id {
            lemma_none_with_id(a, y.id);
        }
        let in_b = choose|i: int| 0 <= i < b.len() && (#[trigger] b[i]).id == x.id;
        let in_a = choose|i: int| 0 <= i < a.len() && (#[trigger] a[i]).id == y.id;
        text::lemma_text_before_total(x.id, y.id);
        if in_b < b.len() - 1 {
            assert(!text::text_before(b[b.len() - 1].id, b[in_b].id));
        }
        if in_a < a.len() - 1 {
            assert(!text::text_before(a[a.len() - 1].id, a[in_a].id));
        }
        assert(x.id == y.id);
        assert(listing::keys_with_id(a, x.id).last() == x);
        assert(listing::keys_with_id(b, x.id).last() == y);
        assert forall|id: Seq<char>| #[trigger]
            listing::keys_with_id(a.drop_last(), id) == listing::keys_with_id(b.drop_last(), id) by {
            lemma_last_with_id(a, id);
            lemma_last_with_id(b, id);
            assert(listing::keys_with_id(a, id) == listing::keys_with_id(b, id));
            if id == x.id {
                assert(listing::keys_with_id(a, id).drop_last() =~= listing::keys_with_id(
                    a.drop_last(),
                    id,
                ));
                assert(listing::keys_with_id(b, id).drop_last() =~= listing::keys_with_id(
                    b.drop_last(),
                    id,
                ));
            }
        }
        lemma_order_determines_list(a.drop_last(), b.drop_last());
        assert(a =~= a.drop_last().push(x));
        assert(b =~= b.drop_last().push(y));
    }
}

proof fn lemma_removed_under_id(keys: Seq<KeyInfoView>, at: int, id: Seq<char>)
    requires
        0 <= at < keys.len(),
        listing::keys_with_id(keys, keys[at].id) == seq![keys[at]],
    ensures
        listing::keys_with_id(keys.remove(at), id) == if id == keys[at].id {
            Seq::empty()
        } else {
            listing::keys_with_id(keys, id)
        },
{
    let key = keys[at];
    let low = keys.take(at);
    let high = keys.skip(at + 1);
    let has_id = |k: KeyInfoView| k.id == id;
    assert(keys =~= low + seq![key] + high);
    assert(keys.remove(at) =~= low + high);
    Seq::filter_distributes_over_add(low + seq![key], high, has_id);
    Seq::filter_distributes_over_add(low, seq![key], has_id);
    Seq::filter_distributes_over_add(low, high, has_id);
    if id == key.id {
        lemma_one_with_id(seq![key], 0);
        assert(seq![key].filter(has_id).len() == 1);
        assert(keys.filter(has_id).len() == 1);
        assert(low.filter(has_id) + high.filter(has_id) =~= Seq::empty());
    } else {
        lemma_none_with_id(seq![key], id);
        assert(low.filter(has_id) + seq![key].filter(has_id) + high.filter(has_id)
            =~= low.filter(has_id) + high.filter(has_id));
    }
}

proof fn lemma_removed_in_order(keys: Seq<KeyInfoView>, at: int)
    requires
        listing::in_id_order(keys),
        0 <= at < keys.len(),
    ensures
        listing::in_id_order(keys.remove(at)),
{
    let rest = keys.remove(at);
    assert forall|i: int, j: int| 0 <= i < j < rest.len() implies !text::text_before(
        (#[trigger] rest[j]).id,
        (#[trigger] rest[i]).id,
    ) by {
        let before_i = if i < at { i } else { i + 1 };
        let before_j = if j < at { j } else { j + 1 };
        assert(rest[i] == keys[before_i]);
        assert(rest[j] == keys[before_j]);
    }
}

proof fn lemma_position_of_id(keys: Seq<KeyInfoView>, id: Seq<char>) -> (at: int)
    requires
        listing::keys_with_id(keys, id).len() > 0,
    ensures
        0 <= at < keys.len(),
        keys[at].id == id,
{
    if forall|i: int| 0 <= i < keys.len() ==> (#[trigger] keys[i]).id != id {
        lemma_none_with_id(keys, id);
    }
    choose|i: int| 0 <= i < keys.len() && (#[trigger] keys[i]).id == id
}

proof fn lemma_remaining_files_are_listed(
    files: Map<Seq<char>, KeyRecordView>,
    id: Seq<char>,
    before: Seq<Result<(Seq<char>, KeyRecordView), ErrorView>>,
    keys: Seq<KeyInfoView>,
    after: Seq<Result<(Seq<char>, KeyRecordView), ErrorView>>,
)
    requires
        listed(files, before, keys),
        enumerates(after, without_key(files, id)),
    ensures
        listing::entry_infos(after, after.len() as int) is Ok,
{
    lemma_infos_of_entries(before, before.len() as int);
    assert forall|i: int| 0 <= i < after.len() implies listing::entry_info(
        #[trigger] after[i],
    ) is Ok by {
        let name = after[i]->Ok_0.0;
        assert(files.contains_key(name));
        let j = choose|j: int| 0 <= j < before.len() && (#[trigger] before[j])->Ok_0.0 == name;
        assert(before[j] == after[i]);
        assert(listing::entry_info(before[j]) is Ok);
    }
    lemma_infos_of_entries(after, after.len() as int);
}

/// Deleting a key takes it, and no other, from the list: however the remaining files are found,
/// listing them succeeds, and gives the list from before with the one entry of that ID taken out.
pub proof fn lemma_deleted_key_leaves_the_list(
    files: Map<Seq<char>, KeyRecordView>,
    id: Seq<char>,
    entries: Seq<Result<(Seq<char>, KeyRecordView), ErrorView>>,
    keys: Seq<KeyInfoView>,
    remaining: Seq<Result<(Seq<char>, KeyRecordView), ErrorView>>,
    rest: Seq<KeyInfoView>,
)
    requires
        listed(files, entries, keys),
        holds_key(files, id),
        enumerates(remaining, without_key(files, id)),
        listing::entry_infos(remaining, remaining.len() as int) matches Ok(infos)
            ==> listing::is_sorting(infos, rest),
    ensures
        listed(without_key(files, id), remaining, rest),
        exists|at: int|
            0 <= at < keys.len() && (#[trigger] keys[at]).id == id && rest == keys.remove(at),
        forall|i: int| 0 <= i < rest.len() ==> (#[trigger] rest[i]).id != id,
{
    let fewer = without_key(files, id);
    lemma_remaining_files_are_listed(files, id, entries, keys, remaining);
    lemma_listed_under_id(files, entries, keys, id);
    let at = lemma_position_of_id(keys, id);
    lemma_only_with_id(keys, at);
    lemma_removed_in_order(keys, at);
    assert forall|other: Seq<char>| #[trigger]
        listing::keys_with_id(rest, other) == listing::keys_with_id(keys.remove(at), other) by {
        lemma_listed_under_id(files, entries, keys, other);
        lemma_listed_under_id(fewer, remaining, rest, other);
        lemma_removed_under_id(keys, at, other);
    }
    lemma_order_determines_list(rest, keys.remove(at));
    lemma_listed_under_id(fewer, remaining, rest, id);
    assert forall|i: int| 0 <= i < rest.len() implies (#[trigger] rest[i]).id != id by {
        if rest[i].id == id {
            let has_id = |key: KeyInfoView| key.id == id;
            rest.lemma_filter_contains(has_id, i);
            assert(rest.filter(has_id).contains(rest[i]));
        }
    }
}

proof fn lemma_only_with_id(keys: Seq<KeyInfoView>, at: int)
    requires
        0 <= at < keys.len(),
        listing::keys_with_id(keys, keys[at].id).len() == 1,
    ensures
        listing::keys_with_id(keys, keys[at].id) == seq![keys[at]],
{
    let id = keys[at].id;
    let has_id = |key: KeyInfoView| key.id == id;
    keys.lemma_filter_contains(has_id, at);
    assert(keys.filter(has_id).contains(keys[at]));
    assert(keys.filter(has_id) =~= seq![keys[at]]);
}

/// A key that was deleted is not found any more: looking it up, signing with it and deleting it
/// again tell that there is no such key, and its ID can be used for another key.
pub proof fn lemma_deleted_key_is_gone(
    files: Map<Seq<char>, KeyRecordView>,
    id: Seq<char>,
    data_key: Seq<u8>,
    digest: Seq<u8>,
    private_key: Seq<u8>,
)
    requires
        store::deletion(id, is_present(files, id)) is Ok,
        crypto::private_key_check(private_key) is Ok,
    ensures
        store::deletion(id, is_present(files, id)) == Ok::<Seq<char>, ErrorView>(
            record::record_file_name(id),
        ),
        store::key_lookup(id, found(without_key(files, id), id)) == Err::<
            KeyRecordView,
            ErrorView,
        >(ErrorView::KeyNotFound(id)),
        store::stored_signature(data_key, id, found(without_key(files, id), id), digest) == Err::<
            (KeyInfoView, Seq<u8>),
            ErrorView,
        >(ErrorView::KeyNotFound(id)),
        store::deletion(id, is_present(without_key(files, id), id)) == Err::<
            Seq<char>,
            ErrorView,
        >(ErrorView::KeyNotFound(id)),
        store::insertion_check(id, private_key, is_present(without_key(files, id), id)) is Ok,
        store::import_check(id, private_key, is_present(without_key(files, id), id)) is Ok,
{
}

/// Deleting a key leaves every other key as it is: it is found and signs as before.
pub proof fn lemma_other_keys_outlive_deletion(
    files: Map<Seq<char>, KeyRecordView>,
    id: Seq<char>,
    other: Seq<char>,
    data_key: Seq<u8>,
    digest: Seq<u8>,
)
    requires
        holds_key(files, id),
        holds_key(files, other),
        other != id,
    ensures
        holds_key(without_key(files, id), other),
        found(without_key(files, id), other) == found(files, other),
        store::key_lookup(other, found(without_key(files, id), other)) == store::key_lookup(
            other,
            found(files, other),
        ),
        store::stored_signature(data_key, other, found(without_key(files, id), other), digest)
            == store::stored_signature(data_key, other, found(files, other), digest),
{
}

/// A deletion that is refused names no file to remove: that of what is no identifier is told as an
/// invalid request, that of an ID without a file as a key that is not found, and no list has a key
/// of such an ID. An ID that the list does not have is refused, unless the file of its name holds
/// the record of another ID.
pub proof fn lemma_refused_deletion(
    files: Map<Seq<char>, KeyRecordView>,
    id: Seq<char>,
    entries: Seq<Result<(Seq<char>, KeyRecordView), ErrorView>>,
    keys: Seq<KeyInfoView>,
)
    requires
        listed(files, entries, keys),
    ensures
        !protocol::is_identifier(id) ==> store::deletion(id, is_present(files, id)) == Err::<
            Seq<char>,
            ErrorView,
        >(ErrorView::InvalidRequest("wallet_id"@ + " is invalid"@)),
        protocol::is_identifier(id) && !is_present(files, id) ==> store::deletion(
            id,
            is_present(files, id),
        ) == Err::<Seq<char>, ErrorView>(ErrorView::KeyNotFound(id)),
        store::deletion(id, is_present(files, id)) is Err ==> listing::keys_with_id(keys, id)
            == Seq::<KeyInfoView>::empty(),
        listing::keys_with_id(keys, id) == Seq::<KeyInfoView>::empty() && (is_present(files, id)
            ==> holds_key(files, id)) ==> store::deletion(id, is_present(files, id)) is Err,
{
    lemma_listed_under_id(files, entries, keys, id);
    if holds_key(files, id) {
        assert(listing::keys_with_id(keys, id).len() == 1);
    }
}

} // verus!
