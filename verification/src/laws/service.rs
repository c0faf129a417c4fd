//! Laws on the signing service: each request ID is answered once, and the answer is kept.

use std::sync::Arc;

use vstd::prelude::*;
use vstd::string::*;

use crate::cache;
use crate::cache::{CachedResponse, CachedView, ResponseCache};
use crate::config::SecurityConfig;
use crate::encoding;
use crate::error;
use crate::error::{Error, ErrorView};
use crate::laws::crypto as crypto_laws;
use crate::laws::request;
use crate::laws::response;
use crate::laws::store as store_laws;
use crate::primitives;
use crate::protocol;
use crate::protocol::{ClientPolicy, SignRequest, SignResponse};
use crate::record;
use crate::record::{KeyInfo, KeyRecord};
use crate::service;
use crate::service::{ServiceView, WalletService};
use crate::store;
use crate::store::EncryptedFileStore;

verus! {

/// Whether an answer is kept under an ID and its time is not over.
pub open spec fn current(kept: Map<u128, CachedView>, now: i64, id: u128) -> bool {
    kept.contains_key(id) && now <= kept[id].retain_until
}

/// The IDs under which answers are kept whose time is not over.
pub open spec fn current_ids(kept: Map<u128, CachedView>, now: i64) -> Set<u128> {
    kept.dom().filter(|id: u128| now <= kept[id].retain_until)
}

/// Whether the answers whose time is not over are left as they were, and no others.
pub open spec fn leaves_current(
    before: Map<u128, CachedView>,
    now: i64,
    after: Map<u128, CachedView>,
) -> bool {
    forall|id: u128| #[trigger]
        after.contains_key(id) == current(before, now, id) && (after.contains_key(id) ==> after[id]
            == before[id])
}

/// Whether the answer under an ID is one of those whose time is over first.
pub open spec fn ends_first(kept: Map<u128, CachedView>, now: i64, id: u128) -> bool {
    current(kept, now, id) && forall|other: u128| #[trigger]
        current(kept, now, other) ==> kept[id].retain_until <= kept[other].retain_until
}

/// Whether an answer was kept under a new ID beside those whose time is not over: all of them where
/// there is room, and all but one whose time is over first where there is not.
pub open spec fn keeps_beside(
    before: Map<u128, CachedView>,
    now: i64,
    limit: usize,
    id: u128,
    after: Map<u128, CachedView>,
) -> bool {
    &&& after.contains_key(id)
    &&& forall|other: u128|
        other != id && #[trigger] after.contains_key(other) ==> current(before, now, other)
            && after[other] == before[other]
    &&& current_ids(before, now).len() < limit || current_ids(before, now).len() == 0
        ==> forall|other: u128| #[trigger]
        current(before, now, other) ==> after.contains_key(other)
    &&& current_ids(before, now).len() >= limit && current_ids(before, now).len() > 0
        ==> exists|dropped: u128|
        {
            &&& #[trigger] ends_first(before, now, dropped)
            &&& !after.contains_key(dropped)
            &&& forall|other: u128|
                other != dropped && #[trigger] current(before, now, other)
                    ==> after.contains_key(other)
        }
}

/// Whether a number is a sum, as far as 64 signed bits hold it.
pub open spec fn is_bounded_sum(value: i64, a: i64, b: i64) -> bool {
    if a + b > i64::MAX {
        value == i64::MAX
    } else if a + b < i64::MIN {
        value == i64::MIN
    } else {
        value == a + b
    }
}

proof fn lemma_live(kept: Map<u128, CachedView>, now: i64)
    ensures
        cache::live(kept, now).dom() == current_ids(kept, now),
        leaves_current(kept, now, cache::live(kept, now)),
{
    let live = cache::live(kept, now);
    assert forall|id: u128| #[trigger]
        live.contains_key(id) == current(kept, now, id) && (live.contains_key(id) ==> live[id]
            == kept[id]) by {}
    assert forall|id: u128| live.dom().contains(id) == current_ids(kept, now).contains(id) by {
        assert(live.contains_key(id) == current(kept, now, id));
    }
    assert(live.dom() =~= current_ids(kept, now));
}

proof fn lemma_room(
    before: Map<u128, CachedView>,
    now: i64,
    limit: usize,
    id: u128,
    room: Map<u128, CachedView>,
    cached: CachedView,
)
    requires
        !current(before, now, id),
        cache::room_made(cache::live(before, now), limit, room),
    ensures
        keeps_beside(before, now, limit, id, room.insert(id, cached)),
{
    lemma_live(before, now);
    let live = cache::live(before, now);
    let after = room.insert(id, cached);
    assert(live.len() == current_ids(before, now).len());
    if live.len() >= limit && live.len() > 0 {
        let dropped = choose|dropped: u128| #[trigger]
            cache::is_oldest(live, dropped) && room == live.remove(dropped);
        assert(live.contains_key(dropped));
        assert(current(before, now, dropped));
        assert forall|other: u128| #[trigger]
            current(before, now, other) implies before[dropped].retain_until
            <= before[other].retain_until by {
            assert(live.contains_key(other));
        }
        assert(ends_first(before, now, dropped));
        assert forall|other: u128|
            other != id && #[trigger] after.contains_key(other) implies current(before, now, other)
            && after[other] == before[other] by {
            assert(live.contains_key(other));
        }
        assert forall|other: u128|
            other != dropped && #[trigger] current(before, now, other) implies after.contains_key(
            other,
        ) by {
            assert(live.contains_key(other));
        }
    } else {
        assert forall|other: u128|
            other != id && #[trigger] after.contains_key(other) implies current(before, now, other)
            && after[other] == before[other] by {
            assert(live.contains_key(other));
        }
        assert forall|other: u128| #[trigger] current(before, now, other) implies after.contains_key(
            other,
        ) by {
            assert(live.contains_key(other));
        }
    }
}

/// What a request whose ID is new is answered: the failure of its validation, the failure to sign, or
/// the signature of the key that is stored for the wallet, with that key's address and the time.
pub open spec fn answers_new(
    r: SignResponse,
    request: SignRequest,
    now: i64,
    validated: Result<Vec<u8>, Error>,
    signed: Result<(KeyInfo, [u8; 65]), Error>,
) -> bool {
    &&& response::answers(r, request)
    &&& match validated {
        Err(error) => response::tells(r, error),
        Ok(_) => match signed {
            Err(error) => response::tells(r, error),
            Ok((key, signature)) => response::gives(
                r,
                key.address@,
                "0x"@ + encoding::hex_text(signature@),
                now,
            ),
        },
    }
}

proof fn lemma_new_answer(
    before: ServiceView,
    security: SecurityConfig,
    asked: SignRequest,
    now: i64,
    stored: Result<Option<KeyRecord>, Error>,
    after: ServiceView,
    r: SignResponse,
    policies: &[ClientPolicy],
    validated: Result<Vec<u8>, Error>,
    s: &EncryptedFileStore,
    wallet_id: &str,
    digest: &[u8],
    signed: Result<(KeyInfo, [u8; 65]), Error>,
)
    requires
        service::handled(before, asked@, now, record::stored_view(stored), after, r@),
        before.security == security@,
        !current(before.responses, now, asked.request_id),
        policies@ == security.client_policies@,
        call_ensures(
            SignRequest::validate,
            (
                &asked,
                now,
                security.max_request_ttl_seconds,
                security.clock_skew_seconds,
                policies,
            ),
            validated,
        ),
        validated is Ok ==> {
            &&& s.data_key() == before.data_key
            &&& wallet_id@ == asked.wallet_id@
            &&& digest@ == validated->Ok_0@
            &&& call_ensures(EncryptedFileStore::sign_digest, (s, wallet_id, stored, digest), signed)
        },
    ensures
        answers_new(r, asked, now, validated, signed),
{
    lemma_live(before.responses, now);
    assert(!cache::live(before.responses, now).contains_key(asked.request_id));
    let checked = protocol::request_check(
        asked@,
        now,
        security.max_request_ttl_seconds,
        security.clock_skew_seconds,
        protocol::policies_view(policies@),
    );
    assert(error::result_view(validated) == checked);
    match validated {
        Err(error) => {
            response::lemma_failure(r, asked, error);
        },
        Ok(bytes) => {
            assert(checked == Ok::<Seq<u8>, ErrorView>(bytes@));
            match signed {
                Err(error) => {
                    response::lemma_failure(r, asked, error);
                },
                Ok((key, signature)) => {
                    assert(error::result_view(signed) == Ok::<
                        (record::KeyInfoView, Seq<u8>),
                        ErrorView,
                    >((key@, signature@)));
                    response::lemma_success(
                        r,
                        asked,
                        key.address@,
                        "0x"@ + encoding::hex_text(signature@),
                        now,
                    );
                },
            }
        },
    }
}

/// A request whose ID is new, or is kept no longer, is validated and signed: its answer is the failure
/// of either, or the signature by the key that is stored for its wallet.
pub proof fn law_new_request(
    s: &mut WalletService,
    security: SecurityConfig,
    asked: &SignRequest,
    now: i64,
    stored: Result<Option<KeyRecord>, Error>,
    r: SignResponse,
    policies: &[ClientPolicy],
    validated: Result<Vec<u8>, Error>,
    keys: &EncryptedFileStore,
    wallet_id: &str,
    digest: &[u8],
    signed: Result<(KeyInfo, [u8; 65]), Error>,
)
    requires
        call_ensures(WalletService::handle, (s, asked, now, stored), r),
        old(s)@.security == security@,
        !current(old(s)@.responses, now, asked.request_id),
        policies@ == security.client_policies@,
        call_ensures(
            SignRequest::validate,
            (
                asked,
                now,
                security.max_request_ttl_seconds,
                security.clock_skew_seconds,
                policies,
            ),
            validated,
        ),
        validated is Ok ==> {
            &&& keys.data_key() == old(s)@.data_key
            &&& wallet_id@ == asked.wallet_id@
            &&& digest@ == validated->Ok_0@
            &&& call_ensures(
                EncryptedFileStore::sign_digest,
                (keys, wallet_id, stored, digest),
                signed,
            )
        },
    ensures
        answers_new(r, *asked, now, validated, signed),
{
    lemma_new_answer(
        old(s)@,
        security,
        *asked,
        now,
        stored,
        final(s)@,
        r,
        policies,
        validated,
        keys,
        wallet_id,
        digest,
        signed,
    );
}

/// What is left behind a new answer: it is kept under its ID with the request's fingerprint, for the
/// time that is set, beside the answers whose time is not over.
pub open spec fn keeps_answer(
    before: ServiceView,
    request_id: u128,
    print: Seq<u8>,
    now: i64,
    after: ServiceView,
    r: SignResponse,
) -> bool {
    &&& after.data_key == before.data_key
    &&& after.security == before.security
    &&& keeps_beside(
        before.responses,
        now,
        before.security.max_dedup_entries,
        request_id,
        after.responses,
    )
    &&& after.responses[request_id].fingerprint == print
    &&& after.responses[request_id].response == r@
    &&& is_bounded_sum(
        after.responses[request_id].retain_until,
        now,
        before.security.dedup_ttl_seconds,
    )
}

proof fn lemma_kept(
    before: ServiceView,
    asked: SignRequest,
    print: [u8; 32],
    now: i64,
    stored: Result<Option<KeyRecord>, Error>,
    after: ServiceView,
    r: SignResponse,
)
    requires
        service::handled(before, asked@, now, record::stored_view(stored), after, r@),
        call_ensures(SignRequest::fingerprint, (&asked,), print),
        !current(before.responses, now, asked.request_id),
    ensures
        keeps_answer(before, asked.request_id, print@, now, after, r),
{
    lemma_live(before.responses, now);
    assert(!cache::live(before.responses, now).contains_key(asked.request_id));
    let kept = service::kept_answer(before.security, asked@, now, r@);
    let room = choose|room: Map<u128, CachedView>| #[trigger]
        cache::room_made(
            cache::live(before.responses, now),
            before.security.max_dedup_entries,
            room,
        ) && after.responses == room.insert(asked.request_id, kept);
    lemma_room(
        before.responses,
        now,
        before.security.max_dedup_entries,
        asked.request_id,
        room,
        kept,
    );
}

/// A new answer is kept under its ID with the request's fingerprint for the time that is set. The
/// answers whose time is over are gone, and where the limit is reached so is one whose time would be
/// over first. All others stay.
pub proof fn law_new_answer_is_kept(
    s: &mut WalletService,
    asked: &SignRequest,
    print: [u8; 32],
    now: i64,
    stored: Result<Option<KeyRecord>, Error>,
    r: SignResponse,
)
    requires
        call_ensures(WalletService::handle, (s, asked, now, stored), r),
        call_ensures(SignRequest::fingerprint, (asked,), print),
        !current(old(s)@.responses, now, asked.request_id),
    ensures
        keeps_answer(old(s)@, asked.request_id, print@, now, final(s)@, r),
{
    lemma_kept(old(s)@, *asked, print, now, stored, final(s)@, r);
}

/// What a request whose ID is kept is answered, and what is left: the kept answer where it has the
/// fingerprint that is kept, and a conflict where it has another.
pub open spec fn repeats(
    before: ServiceView,
    asked: SignRequest,
    print: Seq<u8>,
    now: i64,
    after: ServiceView,
    r: SignResponse,
) -> bool {
    &&& after.data_key == before.data_key
    &&& after.security == before.security
    &&& leaves_current(before.responses, now, after.responses)
    &&& before.responses[asked.request_id].fingerprint == print ==> r@
        == before.responses[asked.request_id].response
    &&& before.responses[asked.request_id].fingerprint != print ==> {
        &&& response::answers(r, asked)
        &&& response::fails(
            r,
            "REQUEST_ID_CONFLICT"@,
            "request ID was reused for different signing data"@,
        )
    }
}

proof fn lemma_repeats(
    before: ServiceView,
    asked: SignRequest,
    print: [u8; 32],
    now: i64,
    stored: Result<Option<KeyRecord>, Error>,
    after: ServiceView,
    r: SignResponse,
)
    requires
        service::handled(before, asked@, now, record::stored_view(stored), after, r@),
        call_ensures(SignRequest::fingerprint, (&asked,), print),
        current(before.responses, now, asked.request_id),
    ensures
        repeats(before, asked, print@, now, after, r),
{
    lemma_live(before.responses, now);
    assert(cache::live(before.responses, now).contains_key(asked.request_id));
    if before.responses[asked.request_id].fingerprint != print@ {
        response::lemma_failure(r, asked, Error::RequestConflict);
    }
}

/// A request ID whose answer is kept is not answered anew: the same fingerprint gets the kept answer,
/// and another gets a conflict and no signature. Nothing is added to what is kept.
pub proof fn law_repeated_request(
    s: &mut WalletService,
    asked: &SignRequest,
    print: [u8; 32],
    now: i64,
    stored: Result<Option<KeyRecord>, Error>,
    r: SignResponse,
)
    requires
        call_ensures(WalletService::handle, (s, asked, now, stored), r),
        call_ensures(SignRequest::fingerprint, (asked,), print),
        current(old(s)@.responses, now, asked.request_id),
    ensures
        repeats(old(s)@, *asked, print@, now, final(s)@, r),
{
    lemma_repeats(old(s)@, *asked, print, now, stored, final(s)@, r);
}

/// A payload is looked at exactly where it is short enough. One that is too long or no request is not
/// answered and changes nothing. Any other is answered as its request is: from what is kept under
/// its ID, or anew.
pub proof fn law_handle_json(
    s: &mut WalletService,
    security: SecurityConfig,
    payload: &[u8],
    parsed: Option<SignRequest>,
    now: i64,
    stored: Result<Option<KeyRecord>, Error>,
    r: Option<SignResponse>,
    print: [u8; 32],
    policies: &[ClientPolicy],
    validated: Result<Vec<u8>, Error>,
    keys: &EncryptedFileStore,
    wallet_id: &str,
    digest: &[u8],
    signed: Result<(KeyInfo, [u8; 65]), Error>,
)
    requires
        call_ensures(WalletService::handle_json, (s, payload, parsed, now, stored), r),
        old(s)@.security == security@,
        policies@ == security.client_policies@,
        parsed matches Some(asked) ==> {
            &&& call_ensures(SignRequest::fingerprint, (&asked,), print)
            &&& call_ensures(
                SignRequest::validate,
                (
                    &asked,
                    now,
                    security.max_request_ttl_seconds,
                    security.clock_skew_seconds,
                    policies,
                ),
                validated,
            )
            &&& validated is Ok ==> {
                &&& keys.data_key() == old(s)@.data_key
                &&& wallet_id@ == asked.wallet_id@
                &&& digest@ == validated->Ok_0@
                &&& call_ensures(
                    EncryptedFileStore::sign_digest,
                    (keys, wallet_id, stored, digest),
                    signed,
                )
            }
        },
    ensures
        r is Some == (payload@.len() <= security.max_request_bytes && parsed is Some),
        r is None ==> final(s)@ == old(s)@,
        r matches Some(answer) ==> (parsed matches Some(asked) ==> if current(
            old(s)@.responses,
            now,
            asked.request_id,
        ) {
            repeats(old(s)@, asked, print@, now, final(s)@, answer)
        } else {
            &&& answers_new(answer, asked, now, validated, signed)
            &&& keeps_answer(old(s)@, asked.request_id, print@, now, final(s)@, answer)
        }),
{
    assert(old(s)@.security.max_request_bytes == security.max_request_bytes);
    if let Some(answer) = r {
        let asked = parsed->0;
        if current(old(s)@.responses, now, asked.request_id) {
            lemma_repeats(old(s)@, asked, print, now, stored, final(s)@, answer);
        } else {
            lemma_kept(old(s)@, asked, print, now, stored, final(s)@, answer);
            lemma_new_answer(
                old(s)@,
                security,
                asked,
                now,
                stored,
                final(s)@,
                answer,
                policies,
                validated,
                keys,
                wallet_id,
                digest,
                signed,
            );
        }
    }
}

/// A wallet's key is needed exactly for a request whose ID is not kept and that passes validation.
pub proof fn law_needs_key(
    s: &WalletService,
    security: SecurityConfig,
    asked: &SignRequest,
    now: i64,
    policies: &[ClientPolicy],
    validated: Result<Vec<u8>, Error>,
    r: bool,
)
    requires
        call_ensures(WalletService::needs_key, (s, asked, now), r),
        s@.security == security@,
        policies@ == security.client_policies@,
        call_ensures(
            SignRequest::validate,
            (
                asked,
                now,
                security.max_request_ttl_seconds,
                security.clock_skew_seconds,
                policies,
            ),
            validated,
        ),
    ensures
        r == (!current(s@.responses, now, asked.request_id) && validated is Ok),
{
    lemma_live(s@.responses, now);
    assert(cache::live(s@.responses, now).contains_key(asked.request_id) == current(
        s@.responses,
        now,
        asked.request_id,
    ));
    assert(error::result_view(validated) == protocol::request_check(
        asked@,
        now,
        security.max_request_ttl_seconds,
        security.clock_skew_seconds,
        protocol::policies_view(policies@),
    ));
}

/// A new service has its store's data key and the settings given, and has answered nothing. It admits
/// payloads up to the limit that is set.
pub proof fn law_service(
    keys: Arc<EncryptedFileStore>,
    security: SecurityConfig,
    s: WalletService,
    limit: usize,
    payload: &[u8],
    admitted: bool,
)
    requires
        call_ensures(WalletService::new, (keys, security), s),
        call_ensures(WalletService::max_request_bytes, (&s,), limit),
        call_ensures(WalletService::admits, (&s, payload), admitted),
    ensures
        s@.data_key == keys.data_key(),
        s@.security == security@,
        forall|id: u128| !#[trigger] s@.responses.contains_key(id),
        limit == security.max_request_bytes,
        admitted == (payload@.len() <= security.max_request_bytes),
{
    assert(s@.security.max_request_bytes == security@.max_request_bytes);
}

/// After every answer no more are kept than the limit, and one at least, and each has the ID that it
/// is kept under.
pub proof fn law_capacity(
    s: &mut WalletService,
    asked: &SignRequest,
    now: i64,
    stored: Result<Option<KeyRecord>, Error>,
    r: SignResponse,
)
    requires
        call_ensures(WalletService::handle, (s, asked, now, stored), r),
    ensures
        final(s)@.responses.dom().finite(),
        final(s)@.responses.len() <= final(s)@.security.max_dedup_entries
            || final(s)@.responses.len() <= 1,
        forall|id: u128| #[trigger]
            final(s)@.responses.contains_key(id) ==> final(s)@.responses[id].response.request_id
                == id,
        r.request_id == asked.request_id,
{
    assert forall|id: u128| #[trigger]
        final(s)@.responses.contains_key(id) implies final(s)@.responses[id].response.request_id
        == id by {
        assert(service::kept_valid(id, final(s)@.responses[id]));
    }
}

/// What is kept is what was put there: each operation on the kept answers changes no other.
pub proof fn law_cache(
    empty: ResponseCache,
    c: &ResponseCache,
    n: usize,
    id: u128,
    found: Option<&CachedResponse>,
)
    requires
        call_ensures(ResponseCache::new, (), empty),
        call_ensures(ResponseCache::len, (c,), n),
        call_ensures(ResponseCache::get, (c, id), found),
    ensures
        forall|any: u128| !#[trigger] empty@.contains_key(any),
        n == c@.dom().len(),
        found is Some == c@.contains_key(id),
        found matches Some(kept) ==> {
            &&& kept.fingerprint@ == c@[id].fingerprint
            &&& kept.response@ == c@[id].response
            &&& kept.retain_until == c@[id].retain_until
        },
{
}

/// An answer that is put under an ID is there, and every other is as it was.
pub proof fn law_cache_insert(c: &mut ResponseCache, id: u128, cached: CachedResponse, any: u128)
    requires
        call_ensures(ResponseCache::insert, (c, id, cached), ()),
    ensures
        final(c)@.contains_key(any) == (any == id || old(c)@.contains_key(any)),
        any != id && old(c)@.contains_key(any) ==> final(c)@[any] == old(c)@[any],
        final(c)@[id].fingerprint == cached.fingerprint@,
        final(c)@[id].response == cached.response@,
        final(c)@[id].retain_until == cached.retain_until,
{
}

/// The answers whose time is over are dropped, and no others.
pub proof fn law_cache_retain(c: &mut ResponseCache, now: i64)
    requires
        call_ensures(ResponseCache::retain, (c, now), ()),
    ensures
        leaves_current(old(c)@, now, final(c)@),
{
    lemma_live(old(c)@, now);
}

/// Room is made by dropping nothing below the limit, and one answer whose time is over first where
/// the limit is reached.
pub proof fn law_cache_make_room(c: &mut ResponseCache, limit: usize)
    requires
        call_ensures(ResponseCache::make_room, (c, limit), ()),
    ensures
        old(c)@.dom().len() < limit || old(c)@.dom().len() == 0 ==> final(c)@ == old(c)@,
        old(c)@.dom().len() >= limit && old(c)@.dom().len() > 0 ==> exists|dropped: u128|
            {
                &&& old(c)@.contains_key(dropped)
                &&& final(c)@ == #[trigger] old(c)@.remove(dropped)
                &&& forall|other: u128| #[trigger]
                    old(c)@.contains_key(other) ==> old(c)@[dropped].retain_until
                        <= old(c)@[other].retain_until
            },
{
    let before = old(c)@;
    if before.dom().len() >= limit && before.dom().len() > 0 {
        let dropped = choose|dropped: u128| #[trigger]
            cache::is_oldest(before, dropped) && final(c)@ == before.remove(dropped);
        assert(final(c)@ == before.remove(dropped));
    }
}

/// The same request gets the same answer again for as long as the answer is kept, whatever is found
/// of the wallet's key by then, and a different request under the ID gets none of it.
pub proof fn law_replay(
    first: &mut WalletService,
    asked: &SignRequest,
    print: [u8; 32],
    now: i64,
    stored: Result<Option<KeyRecord>, Error>,
    r: SignResponse,
    second: &mut WalletService,
    again: &SignRequest,
    again_print: [u8; 32],
    later: i64,
    stored_later: Result<Option<KeyRecord>, Error>,
    replay: SignResponse,
)
    requires
        call_ensures(WalletService::handle, (first, asked, now, stored), r),
        call_ensures(SignRequest::fingerprint, (asked,), print),
        !current(old(first)@.responses, now, asked.request_id),
        old(second)@ == final(first)@,
        again.request_id == asked.request_id,
        call_ensures(WalletService::handle, (second, again, later, stored_later), replay),
        call_ensures(SignRequest::fingerprint, (again,), again_print),
        later <= now + old(first)@.security.dedup_ttl_seconds,
    ensures
        request::same_request(*asked, *again) ==> response::same_answer(replay, r),
        again_print@ != print@ ==> response::fails(
            replay,
            "REQUEST_ID_CONFLICT"@,
            "request ID was reused for different signing data"@,
        ),
{
    lemma_kept(old(first)@, *asked, print, now, stored, final(first)@, r);
    assert(current(old(second)@.responses, later, again.request_id));
    lemma_repeats(old(second)@, *again, again_print, later, stored_later, final(second)@, replay);
    if request::same_request(*asked, *again) {
        assert(asked@ == again@);
        assert(print@ == again_print@);
        response::lemma_same_answer(replay, r);
    }
}

/// A good request for a wallet whose key the store keeps is signed by that very key: its answer has
/// the key's address and the key's signature of the request's digest.
pub proof fn law_good_request_is_signed(
    s: &mut WalletService,
    security: SecurityConfig,
    asked: &SignRequest,
    now: i64,
    kept: KeyRecord,
    key: Seq<u8>,
    digest: Seq<u8>,
    signature: Seq<u8>,
    r: SignResponse,
)
    requires
        call_ensures(WalletService::handle, (s, asked, now, Ok(Some(kept))), r),
        old(s)@.security == security@,
        !current(old(s)@.responses, now, asked.request_id),
        asked.version@ == "wallet.sign.v1"@,
        request::identifier(asked.client_id@),
        request::identifier(asked.wallet_id@),
        request::allowed(
            security.client_policies@,
            asked.client_id@,
            asked.wallet_id@,
            asked.purpose@,
        ),
        asked.scheme@ == "eip712-secp256k1"@,
        asked.issued_at <= now + security.clock_skew_seconds,
        asked.expires_at >= now - security.clock_skew_seconds,
        0 < asked.expires_at - asked.issued_at <= security.max_request_ttl_seconds,
        request::small(asked.metadata@),
        asked.digest_b64@ == encoding::base64_text(digest),
        digest.len() == 32,
        store_laws::well_kept(kept),
        kept.id@ == asked.wallet_id@,
        store_laws::comes_out(kept, old(s)@.data_key, key),
        signature.len() == 65,
        crypto_laws::signs(key, digest, signature),
    ensures
        response::answers(r, *asked),
        response::gives(
            r,
            crypto_laws::address_of(key),
            "0x"@ + encoding::hex_text(signature),
            now,
        ),
{
    let before = old(s)@;
    lemma_live(before.responses, now);
    assert(!cache::live(before.responses, now).contains_key(asked.request_id));
    request::lemma_identifier(asked.client_id@);
    request::lemma_identifier(asked.wallet_id@);
    request::lemma_allowed(
        security.client_policies@,
        asked.client_id@,
        asked.wallet_id@,
        asked.purpose@,
    );
    encoding::lemma_base64_round_trip(digest);
    assert(protocol::request_check(
        asked@,
        now,
        before.security.max_request_ttl_seconds,
        before.security.clock_skew_seconds,
        before.security.client_policies,
    ) == Ok::<Seq<u8>, ErrorView>(digest));
    let stored = Ok::<Option<KeyRecord>, Error>(Some(kept));
    store_laws::lemma_lookup(asked.wallet_id@, stored);
    assert(!store_laws::not_found(asked.wallet_id@, stored));
    store_laws::lemma_comes_out(kept, before.data_key, key);
    let made = store::stored_signature(
        before.data_key,
        asked.wallet_id@,
        record::stored_view(stored),
        digest,
    );
    let (compact, recovery) = primitives::secp256k1_signature(key, digest)->0;
    assert(signature =~= compact.push((recovery + 27) as u8));
    assert(made == Ok::<(record::KeyInfoView, Seq<u8>), ErrorView>(
        (record::record_info(kept@), signature),
    ));
    response::lemma_success(
        r,
        *asked,
        kept.address@,
        "0x"@ + encoding::hex_text(signature),
        now,
    );
}

} // verus!
