//! The signing service: requests in, responses out, each request ID answered once.

use std::sync::Arc;

use vstd::prelude::*;
use vstd::string::*;

use crate::cache;
use crate::cache::{CachedResponse, CachedView, ResponseCache};
use crate::config;
use crate::config::{SecurityConfig, SecurityView};
use crate::crypto;
use crate::encoding;
use crate::error::{Error, ErrorView};
use crate::protocol;
use crate::protocol::{RequestView, ResponseView, SignRequest, SignResponse};
use crate::record;
use crate::record::{KeyInfoView, KeyRecord, KeyRecordView};
use crate::store;
use crate::store::EncryptedFileStore;
use crate::text;
use crate::text::join2;
use crate::time;

verus! {

/// A store, who may sign with it, and the responses that are kept.
pub struct WalletService {
    store: Arc<EncryptedFileStore>,
    security: SecurityConfig,
    responses: ResponseCache,
}

/// The meaning of a [`WalletService`].
pub struct ServiceView {
    pub data_key: Seq<u8>,
    pub security: SecurityView,
    pub responses: Map<u128, CachedView>,
}

impl View for WalletService {
    type V = ServiceView;

    closed spec fn view(&self) -> ServiceView {
        ServiceView {
            data_key: self.store.data_key(),
            security: self.security@,
            responses: self.responses@,
        }
    }
}

/// A signature as responses write it.
pub open spec fn signature_text(signature: Seq<u8>) -> Seq<char> {
    "0x"@ + encoding::hex_text(signature)
}

/// The answer to a request, from what was found of its wallet key.
pub open spec fn answer(
    data_key: Seq<u8>,
    security: SecurityView,
    request: RequestView,
    now: i64,
    stored: Result<Option<KeyRecordView>, ErrorView>,
) -> ResponseView {
    match protocol::request_check(
        request,
        now,
        security.max_request_ttl_seconds,
        security.clock_skew_seconds,
        security.client_policies,
    ) {
        Err(error) => protocol::failure_response(request, error),
        Ok(digest) => match store::stored_signature(data_key, request.wallet_id, stored, digest) {
            Err(error) => protocol::failure_response(request, error),
            Ok((key, signature)) => protocol::success_response(
                request,
                key.address,
                signature_text(signature),
                now,
            ),
        },
    }
}

/// What is kept of an answer.
pub open spec fn kept_answer(
    security: SecurityView,
    request: RequestView,
    now: i64,
    response: ResponseView,
) -> CachedView {
    CachedView {
        fingerprint: protocol::request_fingerprint(request),
        response,
        retain_until: time::clamped(now + security.dedup_ttl_seconds) as i64,
    }
}

/// What a request whose ID was answered before is answered: the same again where it is the same
/// request, and a refusal where it is another.
pub open spec fn repeated_answer(kept: CachedView, request: RequestView) -> ResponseView {
    if kept.fingerprint == protocol::request_fingerprint(request) {
        kept.response
    } else {
        protocol::failure_response(request, ErrorView::RequestConflict)
    }
}

/// Whether handling a request leaves the service in a state and gives a response. Responses whose
/// time is over are dropped first. A request ID that is kept is answered from what is kept;
/// another gets its answer, which is kept in turn, in place of one that is to be dropped earliest
/// where the limit is reached. Whatever signature a new answer carries is one of the request's
/// digest and leads back to the answer's address.
pub open spec fn handled(
    before: ServiceView,
    request: RequestView,
    now: i64,
    stored: Result<Option<KeyRecordView>, ErrorView>,
    after: ServiceView,
    response: ResponseView,
) -> bool {
    let kept = cache::live(before.responses, now);
    &&& after.data_key == before.data_key
    &&& after.security == before.security
    &&& if kept.contains_key(request.request_id) {
        &&& response == repeated_answer(kept[request.request_id], request)
        &&& after.responses == kept
    } else {
        &&& response == answer(before.data_key, before.security, request, now, stored)
        &&& answers(request, response)
        &&& exists|room: Map<u128, CachedView>| #[trigger]
            cache::room_made(kept, before.security.max_dedup_entries, room) && after.responses
                == room.insert(
                request.request_id,
                kept_answer(before.security, request, now, response),
            )
    }
}

/// Whether handling a request comes to look at its wallet key: it is new, and it passes.
pub open spec fn signs(service: ServiceView, request: RequestView, now: i64) -> bool {
    &&& !cache::live(service.responses, now).contains_key(request.request_id)
    &&& protocol::request_check(
        request,
        now,
        service.security.max_request_ttl_seconds,
        service.security.clock_skew_seconds,
        service.security.client_policies,
    ) is Ok
}

/// Whether a response either carries a signature with its address and time and no error, or an
/// error and none of these. A signature is `0x` and 65 bytes in lower-case hexadecimal.
pub open spec fn well_shaped(response: ResponseView) -> bool {
    &&& response.version == protocol::PROTOCOL_VERSION@
    &&& response.address is Some == response.signature is Some
    &&& response.signed_at is Some == response.signature is Some
    &&& response.error is None == response.signature is Some
    &&& response.signature matches Some(signature) ==> crypto::is_prefixed_hex(signature, 65)
}

/// Whether a response's signature, if it has one, is a signature of the request's digest that leads
/// back to the response's address.
pub open spec fn signature_recovers(request: RequestView, response: ResponseView) -> bool {
    response.signature is Some ==> exists|signature: Seq<u8>|
        response.signature == Some(#[trigger] signature_text(signature)) && match (
            encoding::base64_bytes(request.digest_b64),
            response.address,
        ) {
            (Some(digest), Some(address)) => crypto::recovered_address(digest, signature) == Some(
                address,
            ),
            _ => false,
        }
}

/// Whether a response answers a request: it has the request's IDs, the shape of a success or of a
/// failure, and no signature but one of the request's digest that leads back to its address. The
/// length of each text of the request fits on eight bytes, as that of every text in memory does.
pub open spec fn answers(request: RequestView, response: ResponseView) -> bool {
    &&& protocol::fields_fit(request)
    &&& response.request_id == request.request_id
    &&& response.client_id == request.client_id
    &&& response.wallet_id == request.wallet_id
    &&& well_shaped(response)
    &&& signature_recovers(request, response)
}

/// Whether a response answers a request that has a fingerprint.
pub open spec fn answers_fingerprint(fingerprint: Seq<u8>, response: ResponseView) -> bool {
    exists|request: RequestView|
        protocol::request_fingerprint(request) == fingerprint && #[trigger] answers(
            request,
            response,
        )
}

/// The most responses that are kept: as many as the limit says, and one at least.
pub open spec fn capacity(security: SecurityView) -> nat {
    if security.max_dedup_entries == 0 {
        1
    } else {
        security.max_dedup_entries as nat
    }
}

/// What holds of every response that is kept under an ID.
pub open spec fn kept_valid(id: u128, kept: CachedView) -> bool {
    &&& kept.response.request_id == id
    &&& well_shaped(kept.response)
    &&& answers_fingerprint(kept.fingerprint, kept.response)
}

/// What holds of every service: no more responses are kept than it has room for, and each has the
/// ID that it is kept under and answers a request with the fingerprint that it is kept with.
pub open spec fn service_valid(service: ServiceView) -> bool {
    &&& service.responses.dom().finite()
    &&& service.responses.len() <= capacity(service.security)
    &&& forall|id: u128| #[trigger]
        service.responses.contains_key(id) ==> kept_valid(id, service.responses[id])
}

/// Handling a request keeps what holds of every service. The response has the request's ID and the
/// shape of a success or of a failure, and answers a request with this request's fingerprint.
pub proof fn lemma_handling_keeps_service_valid(
    before: ServiceView,
    request: RequestView,
    now: i64,
    stored: Result<Option<KeyRecordView>, ErrorView>,
    after: ServiceView,
    response: ResponseView,
)
    requires
        service_valid(before),
        protocol::fields_fit(request),
        handled(before, request, now, stored, after, response),
    ensures
        service_valid(after),
        response.request_id == request.request_id,
        well_shaped(response),
        answers_fingerprint(protocol::request_fingerprint(request), response),
{
    let kept = cache::live(before.responses, now);
    assert(kept.dom() =~= before.responses.dom().intersect(kept.dom()));
    vstd::set_lib::lemma_len_intersect(before.responses.dom(), kept.dom());
    if kept.contains_key(request.request_id) {
        assert(before.responses.contains_key(request.request_id));
        if kept[request.request_id].fingerprint != protocol::request_fingerprint(request) {
            assert(answers(request, response));
        }
    } else {
        let room = choose|room: Map<u128, CachedView>| #[trigger]
            cache::room_made(kept, before.security.max_dedup_entries, room) && after.responses
                == room.insert(
                request.request_id,
                kept_answer(before.security, request, now, response),
            );
        assert forall|id: u128| #[trigger] after.responses.contains_key(id) implies kept_valid(
            id,
            after.responses[id],
        ) by {
            if id != request.request_id {
                assert(room.contains_key(id));
                assert(kept.contains_key(id));
                assert(before.responses.contains_key(id));
            }
        }
    }
}

impl WalletService {
    #[verifier::type_invariant]
    spec fn valid(&self) -> bool {
        service_valid(self@)
    }

    /// A service that has answered nothing.
    pub fn new(store: Arc<EncryptedFileStore>, security: SecurityConfig) -> (r: WalletService)
        ensures
            r@ == (ServiceView {
                data_key: store.data_key(),
                security: security@,
                responses: Map::empty(),
            }),
            service_valid(r@),
    {
        WalletService { store, security, responses: ResponseCache::new() }
    }

    /// The most bytes of a request.
    pub fn max_request_bytes(&self) -> (r: usize)
        ensures
            r == self@.security.max_request_bytes,
    {
        self.security.max_request_bytes
    }

    /// Whether handling a request comes to look at its wallet key.
    pub fn needs_key(&self, request: &SignRequest, now: i64) -> (r: bool)
        ensures
            r == signs(self@, request@, now),
    {
        let kept = match self.responses.get(request.request_id) {
            Some(cached) => cached.retain_until >= now,
            None => false,
        };
        !kept && request.validate(
            now,
            self.security.max_request_ttl_seconds,
            self.security.clock_skew_seconds,
            self.security.client_policies.as_slice(),
        ).is_ok()
    }

    fn answer(
        &self,
        request: &SignRequest,
        now: i64,
        stored: Result<Option<KeyRecord>, Error>,
    ) -> (r: SignResponse)
        ensures
            r@ == answer(
                self@.data_key,
                self@.security,
                request@,
                now,
                record::stored_view(stored),
            ),
            well_shaped(r@),
            signature_recovers(request@, r@),
    {
        match request.validate(
            now,
            self.security.max_request_ttl_seconds,
            self.security.clock_skew_seconds,
            self.security.client_policies.as_slice(),
        ) {
            Err(error) => SignResponse::failure(request, &error),
            Ok(digest) => match self.store.sign_digest(
                request.wallet_id.as_str(),
                stored,
                digest.as_slice(),
            ) {
                Err(error) => SignResponse::failure(request, &error),
                Ok((key, signature)) => {
                    let encoded = join2("0x", encoding::hex_encode(signature.as_slice()).as_str());
                    assert(encoded@ == signature_text(signature@));
                    proof {
                        crypto::lemma_prefixed_hex(signature@);
                    }
                    SignResponse::success(request, key.address, encoded, now)
                },
            },
        }
    }

    /// Answers a request at a time, from what looking up its wallet key gave.
    pub fn handle(
        &mut self,
        request: &SignRequest,
        now: i64,
        stored: Result<Option<KeyRecord>, Error>,
    ) -> (r: SignResponse)
        ensures
            handled(
                old(self)@,
                request@,
                now,
                record::stored_view(stored),
                final(self)@,
                r@,
            ),
            service_valid(final(self)@),
            r@.request_id == request@.request_id,
            well_shaped(r@),
            answers_fingerprint(protocol::request_fingerprint(request@), r@),
            signs(old(self)@, request@, now) ==> signature_recovers(request@, r@),
    {
        proof {
            use_type_invariant(&*self);
        }
        let ghost before = self@;
        let fingerprint = request.fingerprint();
        let mut responses = ResponseCache::new();
        std::mem::swap(&mut responses, &mut self.responses);
        responses.retain(now);
        let response = match responses.get(request.request_id) {
            Some(cached) => {
                if text::same_bytes(cached.fingerprint.as_slice(), fingerprint.as_slice()) {
                    cached.response.clone()
                } else {
                    SignResponse::failure(request, &Error::RequestConflict)
                }
            },
            None => {
                let response = self.answer(request, now, stored);
                responses.make_room(self.security.max_dedup_entries);
                let ghost room = responses@;
                let cached = CachedResponse {
                    fingerprint,
                    response: response.clone(),
                    retain_until: time::saturating_sum(now, self.security.dedup_ttl_seconds),
                };
                assert(cached@ == kept_answer(before.security, request@, now, response@));
                responses.insert(request.request_id, cached);
                assert(cache::room_made(
                    cache::live(before.responses, now),
                    before.security.max_dedup_entries,
                    room,
                ));
                response
            },
        };
        let ghost after = ServiceView {
            data_key: before.data_key,
            security: before.security,
            responses: responses@,
        };
        proof {
            assert(handled(
                before,
                request@,
                now,
                record::stored_view(stored),
                after,
                response@,
            ));
            lemma_handling_keeps_service_valid(
                before,
                request@,
                now,
                record::stored_view(stored),
                after,
                response@,
            );
        }
        self.responses = responses;
        response
    }

    /// Whether a payload is short enough to be looked at.
    pub fn admits(&self, payload: &[u8]) -> (r: bool)
        ensures
            r == (payload@.len() <= self@.security.max_request_bytes),
    {
        payload.len() <= self.security.max_request_bytes
    }

    /// Answers a payload at a time, from what parsing it as a request and looking up the request's
    /// wallet key gave. A payload that is too long or no request is discarded.
    pub fn handle_json(
        &mut self,
        payload: &[u8],
        parsed: Option<SignRequest>,
        now: i64,
        stored: Result<Option<KeyRecord>, Error>,
    ) -> (r: Option<SignResponse>)
        ensures
            match parsed {
                Some(request) if payload@.len() <= old(self)@.security.max_request_bytes => match r {
                    Some(response) => {
                        &&& handled(
                            old(self)@,
                            request@,
                            now,
                            record::stored_view(stored),
                            final(self)@,
                            response@,
                        )
                        &&& service_valid(final(self)@)
                        &&& response@.request_id == request@.request_id
                        &&& well_shaped(response@)
                        &&& answers_fingerprint(
                            protocol::request_fingerprint(request@),
                            response@,
                        )
                        &&& signs(old(self)@, request@, now) ==> signature_recovers(
                            request@,
                            response@,
                        )
                    },
                    None => false,
                },
                _ => r is None && final(self)@ == old(self)@,
            },
    {
        if !self.admits(payload) {
            return None;
        }
        match parsed {
            Some(request) => Some(self.handle(&request, now, stored)),
            None => None,
        }
    }
}

/// Every answer, new or repeated, is the request's own: it has the request's ID, client and wallet,
/// and whatever signature it carries is one of the request's digest and leads back to the answer's
/// address. The one exception is a request with the fingerprint of the other request that the kept
/// response answered, though the bytes that the two fingerprints are made from differ.
pub proof fn lemma_every_answer_is_for_its_request(
    before: ServiceView,
    request: RequestView,
    now: i64,
    stored: Result<Option<KeyRecordView>, ErrorView>,
    after: ServiceView,
    response: ResponseView,
    answered: RequestView,
)
    requires
        service_valid(before),
        protocol::fields_fit(request),
        handled(before, request, now, stored, after, response),
        before.responses.contains_key(request.request_id) ==> {
            &&& answers(answered, before.responses[request.request_id].response)
            &&& protocol::request_fingerprint(answered)
                == before.responses[request.request_id].fingerprint
            &&& protocol::request_fingerprint(answered) == protocol::request_fingerprint(request)
                ==> protocol::field_frames(protocol::fingerprint_fields(answered))
                == protocol::field_frames(protocol::fingerprint_fields(request))
        },
    ensures
        answers(request, response),
{
    let kept = cache::live(before.responses, now);
    if kept.contains_key(request.request_id) && kept[request.request_id].fingerprint
        == protocol::request_fingerprint(request) {
        assert(before.responses.contains_key(request.request_id));
        protocol::lemma_fingerprint_covers_request(answered, request);
    }
}

/// The same request gets the same response for as long as the response is kept, whatever is found
/// of the wallet key by then, and is not signed again.
pub proof fn lemma_replay_gets_same_response(
    before: ServiceView,
    request: RequestView,
    now: i64,
    stored: Result<Option<KeyRecordView>, ErrorView>,
    between: ServiceView,
    response: ResponseView,
    later: i64,
    stored_later: Result<Option<KeyRecordView>, ErrorView>,
    after: ServiceView,
    replay: ResponseView,
)
    requires
        handled(before, request, now, stored, between, response),
        handled(between, request, later, stored_later, after, replay),
        later <= between.responses[request.request_id].retain_until,
    ensures
        between.responses.contains_key(request.request_id),
        replay == response,
        !signs(between, request, later),
        after.responses == cache::live(between.responses, later),
{
}

/// A kept response answers the request with its fingerprint, whoever else was answered meanwhile.
pub proof fn lemma_kept_response_is_repeated(
    before: ServiceView,
    request: RequestView,
    now: i64,
    stored: Result<Option<KeyRecordView>, ErrorView>,
    after: ServiceView,
    response: ResponseView,
)
    requires
        before.responses.contains_key(request.request_id),
        now <= before.responses[request.request_id].retain_until,
        before.responses[request.request_id].fingerprint == protocol::request_fingerprint(request),
        handled(before, request, now, stored, after, response),
    ensures
        response == before.responses[request.request_id].response,
        !signs(before, request, now),
{
    assert(cache::live(before.responses, now).contains_key(request.request_id));
}

/// Handling a request leaves what is kept for another ID as it is while its time lasts, unless the
/// limit is reached.
pub proof fn lemma_other_responses_stay(
    before: ServiceView,
    request: RequestView,
    now: i64,
    stored: Result<Option<KeyRecordView>, ErrorView>,
    after: ServiceView,
    response: ResponseView,
    id: u128,
)
    requires
        handled(before, request, now, stored, after, response),
        id != request.request_id,
        before.responses.contains_key(id),
        now <= before.responses[id].retain_until,
        cache::live(before.responses, now).len() < before.security.max_dedup_entries,
    ensures
        after.responses.contains_key(id),
        after.responses[id] == before.responses[id],
{
    assert(cache::live(before.responses, now).contains_key(id));
}

/// A new answer is kept for the time that is set.
pub proof fn lemma_new_answer_is_kept(
    before: ServiceView,
    request: RequestView,
    now: i64,
    stored: Result<Option<KeyRecordView>, ErrorView>,
    after: ServiceView,
    response: ResponseView,
)
    requires
        !cache::live(before.responses, now).contains_key(request.request_id),
        handled(before, request, now, stored, after, response),
    ensures
        after.responses.contains_key(request.request_id),
        after.responses[request.request_id].response == response,
        after.responses[request.request_id].retain_until == time::clamped(
            now + before.security.dedup_ttl_seconds,
        ),
{
}

/// A request ID that is kept for one request is refused to any other whose fingerprint differs:
/// the answer carries no signature, what is kept stays, and the wallet key is not looked at.
pub proof fn lemma_reused_id_is_refused(
    before: ServiceView,
    request: RequestView,
    now: i64,
    stored: Result<Option<KeyRecordView>, ErrorView>,
    after: ServiceView,
    response: ResponseView,
)
    requires
        before.responses.contains_key(request.request_id),
        now <= before.responses[request.request_id].retain_until,
        before.responses[request.request_id].fingerprint != protocol::request_fingerprint(request),
        handled(before, request, now, stored, after, response),
    ensures
        response == protocol::failure_response(request, ErrorView::RequestConflict),
        response.signature is None,
        response.error matches Some(error) && error.code == "REQUEST_ID_CONFLICT"@,
        after.responses == cache::live(before.responses, now),
        !signs(before, request, now),
{
    assert(cache::live(before.responses, now).contains_key(request.request_id));
}

/// The wallet key is looked at only to sign: where handling a request does not come to that, what
/// was found of the key makes no difference.
pub proof fn lemma_key_is_read_only_to_sign(
    before: ServiceView,
    request: RequestView,
    now: i64,
    stored: Result<Option<KeyRecordView>, ErrorView>,
    other: Result<Option<KeyRecordView>, ErrorView>,
    after: ServiceView,
    response: ResponseView,
)
    requires
        !signs(before, request, now),
        handled(before, request, now, stored, after, response),
    ensures
        handled(before, request, now, other, after, response),
{
}

/// A signature is given only for a request that passes every check at that time, made by the key
/// that is stored for the wallet, or is the one that was given for the same fingerprint before.
pub proof fn lemma_signed_request_was_accepted(
    before: ServiceView,
    request: RequestView,
    now: i64,
    stored: Result<Option<KeyRecordView>, ErrorView>,
    after: ServiceView,
    response: ResponseView,
)
    requires
        handled(before, request, now, stored, after, response),
        response.signature is Some,
    ensures
        signs(before, request, now) || {
            &&& before.responses.contains_key(request.request_id)
            &&& before.responses[request.request_id].response == response
            &&& before.responses[request.request_id].fingerprint == protocol::request_fingerprint(
                request,
            )
        },
        signs(before, request, now) ==> {
            let digest = protocol::request_check(
                request,
                now,
                before.security.max_request_ttl_seconds,
                before.security.clock_skew_seconds,
                before.security.client_policies,
            )->Ok_0;
            match store::stored_signature(before.data_key, request.wallet_id, stored, digest) {
                Ok((key, signature)) => response == protocol::success_response(
                    request,
                    key.address,
                    signature_text(signature),
                    now,
                ),
                Err(_) => false,
            }
        },
{
}

/// A key that was added answers: a new request that passes, for a wallet whose key was added under
/// the service's data key, is answered with a signature of its digest by that private key.
pub proof fn lemma_added_key_signs(
    before: ServiceView,
    request: RequestView,
    now: i64,
    private_key: Seq<u8>,
    created_at: i64,
    info: KeyInfoView,
    record: KeyRecordView,
    after: ServiceView,
    response: ResponseView,
    digest: Seq<u8>,
    signature: Seq<u8>,
)
    requires
        store::insertion_check(request.wallet_id, private_key, false) is Ok,
        store::key_inserted(
            store::insertion_check(request.wallet_id, private_key, false),
            before.data_key,
            request.wallet_id,
            private_key,
            created_at,
            Ok((info, record)),
        ),
        signs(before, request, now),
        encoding::base64_bytes(request.digest_b64) == Some(digest),
        crypto::digest_signature(private_key, digest) == Ok::<Seq<u8>, ErrorView>(signature),
        handled(before, request, now, Ok(Some(record)), after, response),
    ensures
        response == protocol::success_response(
            request,
            crypto::account_address(private_key),
            signature_text(signature),
            now,
        ),
{
    store::lemma_inserted_key_is_found(
        before.data_key,
        request.wallet_id,
        private_key,
        created_at,
        info,
        record,
        digest,
    );
}

/// A request that was answered is not accepted again once its answer is no longer kept, as long as
/// it expires, clock skew included, while the answer is kept.
pub proof fn lemma_dropped_answer_was_for_expired_request(
    security: SecurityView,
    request: RequestView,
    now: i64,
    later: i64,
)
    requires
        0 <= security.clock_skew_seconds,
        request.expires_at + security.clock_skew_seconds <= now + security.dedup_ttl_seconds,
        later > time::clamped(now + security.dedup_ttl_seconds),
    ensures
        protocol::request_check(
            request,
            later,
            security.max_request_ttl_seconds,
            security.clock_skew_seconds,
            security.client_policies,
        ) is Err,
{
}

/// With settings that can be served, every accepted request that is not dated ahead of the clock
/// expires while its answer is kept, so that it is never signed twice because its answer's time
/// was over.
pub proof fn lemma_retention_covers_accepted_lifetime(
    security: SecurityView,
    request: RequestView,
    now: i64,
    later: i64,
)
    requires
        config::security_check(security) is Ok,
        protocol::request_check(
            request,
            now,
            security.max_request_ttl_seconds,
            security.clock_skew_seconds,
            security.client_policies,
        ) is Ok,
        request.issued_at <= now,
        later > time::clamped(now + security.dedup_ttl_seconds),
    ensures
        protocol::request_check(
            request,
            later,
            security.max_request_ttl_seconds,
            security.clock_skew_seconds,
            security.client_policies,
        ) is Err,
{
    lemma_dropped_answer_was_for_expired_request(security, request, now, later);
}

} // verus!
