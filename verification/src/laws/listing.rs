//! Laws on the list of the stored keys.

use vstd::prelude::*;
use vstd::string::*;
use vstd::utf8;

use crate::directory;
use crate::encoding;
use crate::error;
use crate::error::{Error, ErrorView};
use crate::laws::request;
use crate::laws::store as store_laws;
use crate::laws::text as text_laws;
use crate::listing;
use crate::listing::sort_by_id;
use crate::primitives;
use crate::record;
use crate::record::{KeyInfo, KeyInfoView, KeyRecord};
use crate::store::EncryptedFileStore;
use crate::text;

verus! {

/// Whether keys stand in the order of their IDs' bytes.
pub open spec fn ordered(keys: Seq<KeyInfo>) -> bool {
    forall|i: int, j: int|
        0 <= i < j < keys.len() ==> !text_laws::before(
            utf8::encode_utf8((#[trigger] keys[j]).id@),
            utf8::encode_utf8((#[trigger] keys[i]).id@),
        )
}

/// Whether a key is shown in a list, in every field.
pub open spec fn shown(keys: Seq<KeyInfo>, key: KeyInfo) -> bool {
    exists|i: int|
        {
            &&& 0 <= i < keys.len()
            &&& (#[trigger] keys[i]).id@ == key.id@
            &&& keys[i].algorithm@ == key.algorithm@
            &&& keys[i].address@ == key.address@
            &&& keys[i].public_key@ == key.public_key@
            &&& keys[i].created_at == key.created_at
        }
}

/// The keys of a list that have an ID.
pub open spec fn with_id(keys: Seq<KeyInfo>, id: Seq<char>) -> Seq<KeyInfoView> {
    Seq::new(keys.len(), |i: int| keys[i]@).filter(|key: KeyInfoView| key.id == id)
}

/// Whether a file of the store adds a key to the list: it could be read, its record can be used, and
/// its name is the one that the ID gives.
pub open spec fn good_entry(entry: Result<(String, KeyRecord), Error>) -> bool {
    entry matches Ok((name, kept)) && {
        &&& store_laws::well_kept(kept)
        &&& name@ == encoding::hex_text(primitives::sha256_digest(utf8::encode_utf8(kept.id@)))
            + ".json"@
    }
}

/// The public sides of the records in files that could be read, in the order of the files.
pub open spec fn sides(entries: Seq<Result<(String, KeyRecord), Error>>) -> Seq<KeyInfoView> {
    Seq::new(
        entries.len(),
        |i: int|
            KeyInfoView {
                id: entries[i]->Ok_0.1.id@,
                algorithm: entries[i]->Ok_0.1.algorithm@,
                address: entries[i]->Ok_0.1.address@,
                public_key: entries[i]->Ok_0.1.public_key@,
                created_at: entries[i]->Ok_0.1.created_at,
            },
    )
}

/// Whether a failure is what is told of a file that adds no key to the list.
pub open spec fn tells_entry(error: Error, entry: Result<(String, KeyRecord), Error>) -> bool {
    match entry {
        Err(reason) => error@ == reason@,
        Ok((_, kept)) => error matches Error::Crypto(message) && message@
            == if store_laws::well_kept(kept) {
            "wallet record filename does not match its key ID"@
        } else {
            "wallet record metadata is invalid"@
        },
    }
}

proof fn lemma_same_members(a: Seq<KeyInfoView>, b: Seq<KeyInfoView>, at: int) -> (to: int)
    requires
        0 <= at < a.len(),
        forall|id: Seq<char>| #[trigger] listing::keys_with_id(a, id) == listing::keys_with_id(
            b,
            id,
        ),
    ensures
        0 <= to < b.len(),
        b[to] == a[at],
{
    let id = a[at].id;
    let has_id = |key: KeyInfoView| key.id == id;
    assert(listing::keys_with_id(a, id) == listing::keys_with_id(b, id));
    a.lemma_filter_contains(has_id, at);
    assert(a.filter(has_id).contains(a[at]));
    assert(b.filter(has_id).contains(a[at]));
    b.lemma_filter_contains_rev(has_id, a[at]);
    choose|to: int| 0 <= to < b.len() && b[to] == a[at]
}

proof fn lemma_ordered(keys: Seq<KeyInfo>)
    requires
        listing::in_id_order(listing::keys_view(keys)),
    ensures
        ordered(keys),
{
    let view = listing::keys_view(keys);
    assert forall|i: int, j: int| 0 <= i < j < keys.len() implies !text_laws::before(
        utf8::encode_utf8((#[trigger] keys[j]).id@),
        utf8::encode_utf8((#[trigger] keys[i]).id@),
    ) by {
        assert(view[i] == keys[i]@ && view[j] == keys[j]@);
        assert(!text::text_before(view[j].id, view[i].id));
        text_laws::lemma_before(
            utf8::encode_utf8(keys[j].id@),
            utf8::encode_utf8(keys[i].id@),
        );
    }
}

/// Sorting gives the same keys in the order of their IDs, and leaves those with the same ID in the
/// order that they had.
pub proof fn law_sort_by_id(keys: &Vec<KeyInfo>, r: Vec<KeyInfo>)
    requires
        call_ensures(sort_by_id, (keys,), r),
    ensures
        ordered(r@),
        r@.len() == keys@.len(),
        forall|i: int| 0 <= i < keys@.len() ==> shown(r@, #[trigger] keys@[i]),
        forall|i: int| 0 <= i < r@.len() ==> shown(keys@, #[trigger] r@[i]),
        forall|id: Seq<char>| #[trigger] with_id(r@, id) == with_id(keys@, id),
{
    let a = listing::keys_view(keys@);
    let b = listing::keys_view(r@);
    lemma_ordered(r@);
    assert forall|i: int| 0 <= i < keys@.len() implies shown(r@, #[trigger] keys@[i]) by {
        let to = lemma_same_members(a, b, i);
        assert(r@[to]@ == keys@[i]@);
    }
    assert forall|i: int| 0 <= i < r@.len() implies shown(keys@, #[trigger] r@[i]) by {
        let to = lemma_same_members(b, a, i);
        assert(keys@[to]@ == r@[i]@);
    }
    assert forall|id: Seq<char>| #[trigger] with_id(r@, id) == with_id(keys@, id) by {
        assert(listing::keys_with_id(b, id) == listing::keys_with_id(a, id));
        assert(Seq::new(r@.len(), |i: int| r@[i]@) =~= b);
        assert(Seq::new(keys@.len(), |i: int| keys@[i]@) =~= a);
    }
}

proof fn lemma_entry(entry: Result<(String, KeyRecord), Error>)
    ensures
        (listing::entry_info(listing::entry_view(entry)) is Ok) == good_entry(entry),
        listing::entry_info(listing::entry_view(entry)) matches Err(told) ==> forall|error: Error|
            #[trigger] error@ == told ==> tells_entry(error, entry),
{
    if let Ok((name, kept)) = entry {
        request::lemma_identifier(kept.id@);
    }
}

/// The list is given exactly where every file of the store adds a key. It has the key of each file
/// and no other, as often as the files do, in the order of their IDs. Otherwise the first file that
/// is wrong is told.
pub proof fn law_list(
    s: &EncryptedFileStore,
    entries: &Vec<Result<(String, KeyRecord), Error>>,
    first: int,
    r: Result<Vec<KeyInfo>, Error>,
)
    requires
        call_ensures(EncryptedFileStore::list, (s, entries), r),
    ensures
        r is Ok == (forall|i: int| 0 <= i < entries@.len() ==> good_entry(#[trigger] entries@[i])),
        r matches Ok(keys) ==> {
            &&& keys@.len() == entries@.len()
            &&& ordered(keys@)
            &&& forall|id: Seq<char>| #[trigger]
                with_id(keys@, id) == sides(entries@).filter(|key: KeyInfoView| key.id == id)
            &&& forall|i: int|
                0 <= i < entries@.len() ==> exists|j: int|
                    0 <= j < keys@.len() && store_laws::same_key(
                        #[trigger] keys@[j],
                        (#[trigger] entries@[i])->Ok_0.1,
                    )
            &&& forall|j: int|
                0 <= j < keys@.len() ==> exists|i: int|
                    0 <= i < entries@.len() && store_laws::same_key(
                        #[trigger] keys@[j],
                        (#[trigger] entries@[i])->Ok_0.1,
                    )
        },
        0 <= first < entries@.len() && !good_entry(entries@[first]) && (forall|i: int|
            0 <= i < first ==> good_entry(#[trigger] entries@[i])) ==> r is Err && tells_entry(
            r->Err_0,
            entries@[first],
        ),
{
    let view = listing::entries_view(entries@);
    let n = entries@.len() as int;
    assert forall|i: int| 0 <= i < n implies (listing::entry_info(#[trigger] view[i]) is Ok)
        == good_entry(entries@[i]) by {
        lemma_entry(entries@[i]);
    }
    directory::lemma_infos_of_entries(view, n);
    if r is Ok {
        let keys = r->Ok_0;
        let infos = listing::entry_infos(view, n)->Ok_0;
        let b = listing::keys_view(keys@);
        lemma_ordered(keys@);
        assert forall|i: int| 0 <= i < n implies good_entry(#[trigger] entries@[i]) by {
            assert(listing::entry_info(view[i]) is Ok);
        }
        assert forall|i: int| 0 <= i < n implies infos[i] == record::record_info(
            (#[trigger] entries@[i])->Ok_0.1@,
        ) by {
            assert(view[i] == listing::entry_view(entries@[i]));
            assert(good_entry(entries@[i]));
            assert(listing::entry_info(view[i]) == Ok::<KeyInfoView, ErrorView>(infos[i]));
        }
        assert(infos =~= sides(entries@));
        assert(Seq::new(keys@.len(), |i: int| keys@[i]@) =~= b);
        assert forall|id: Seq<char>| #[trigger]
            with_id(keys@, id) == sides(entries@).filter(|key: KeyInfoView| key.id == id) by {
            assert(listing::keys_with_id(b, id) == listing::keys_with_id(infos, id));
        }
        assert forall|i: int| 0 <= i < n implies exists|j: int|
            0 <= j < keys@.len() && store_laws::same_key(
                #[trigger] keys@[j],
                (#[trigger] entries@[i])->Ok_0.1,
            ) by {
            let j = lemma_same_members(infos, b, i);
            assert(keys@[j]@ == infos[i]);
            assert(store_laws::same_key(keys@[j], entries@[i]->Ok_0.1));
        }
        assert forall|j: int| 0 <= j < keys@.len() implies exists|i: int|
            0 <= i < n && store_laws::same_key(
                #[trigger] keys@[j],
                (#[trigger] entries@[i])->Ok_0.1,
            ) by {
            let i = lemma_same_members(b, infos, j);
            assert(b[j] == keys@[j]@);
            assert(store_laws::same_key(keys@[j], entries@[i]->Ok_0.1));
        }
    } else if forall|i: int| 0 <= i < n ==> good_entry(#[trigger] entries@[i]) {
        assert forall|i: int| 0 <= i < n implies listing::entry_info(#[trigger] view[i]) is Ok by {
            assert(good_entry(entries@[i]));
        }
    }
    if 0 <= first < n && !good_entry(entries@[first]) && (forall|i: int|
        0 <= i < first ==> good_entry(#[trigger] entries@[i])) {
        lemma_entry(entries@[first]);
        directory::lemma_infos_of_entries(view, first);
        assert forall|i: int| 0 <= i < first implies listing::entry_info(
            #[trigger] view[i],
        ) is Ok by {
            assert(good_entry(entries@[i]));
        }
        assert(view[first] == listing::entry_view(entries@[first]));
        assert(listing::entry_infos(view, first + 1) is Err);
        listing::lemma_first_entry_error(view, first + 1, n);
        assert(r is Err);
        assert(r->Err_0@ == listing::entry_infos(view, n)->Err_0);
    }
}

} // verus!
