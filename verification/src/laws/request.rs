//! Laws on signing requests: who may ask, what is accepted, what is told.

use vstd::prelude::*;
use vstd::string::*;
use vstd::utf8;

use crate::encoding;
use crate::error::Error;
use crate::protocol;
use crate::protocol::{
    check_identifier, is_authorized, validate_identifier, ClientPolicy, SignRequest,
};
use crate::text;

verus! {

/// Whether a text has one to 128 characters, all of them ASCII letters, digits, dots, underscores,
/// hyphens or colons.
pub open spec fn identifier(value: Seq<char>) -> bool {
    &&& 1 <= value.len() <= 128
    &&& forall|i: int|
        0 <= i < value.len() ==> {
            ||| 'a' <= #[trigger] value[i] <= 'z'
            ||| 'A' <= value[i] <= 'Z'
            ||| '0' <= value[i] <= '9'
            ||| value[i] == '.'
            ||| value[i] == '_'
            ||| value[i] == '-'
            ||| value[i] == ':'
        }
}

/// Whether two requests ask for the same, in every field.
pub open spec fn same_request(a: SignRequest, b: SignRequest) -> bool {
    &&& a.version@ == b.version@
    &&& a.request_id == b.request_id
    &&& a.client_id@ == b.client_id@
    &&& a.wallet_id@ == b.wallet_id@
    &&& a.purpose@ == b.purpose@
    &&& a.scheme@ == b.scheme@
    &&& a.digest_b64@ == b.digest_b64@
    &&& a.issued_at == b.issued_at
    &&& a.expires_at == b.expires_at
    &&& a.metadata@ == b.metadata@
}

/// Whether a list holds a text.
pub open spec fn has_text(list: Seq<String>, wanted: Seq<char>) -> bool {
    exists|i: int| 0 <= i < list.len() && (#[trigger] list[i])@ == wanted
}

/// Whether a policy's prefix starts a client's ID, and no policy's longer prefix does.
pub open spec fn decides(policies: Seq<ClientPolicy>, p: int, client_id: Seq<char>) -> bool {
    &&& 0 <= p < policies.len()
    &&& policies[p].client_id_prefix@.is_prefix_of(client_id)
    &&& forall|q: int|
        0 <= q < policies.len() && (#[trigger] policies[q]).client_id_prefix@.is_prefix_of(
            client_id,
        ) ==> policies[q].client_id_prefix@.len() <= policies[p].client_id_prefix@.len()
}

/// Whether a deciding policy lists the wallet and the purpose.
pub open spec fn allowed(
    policies: Seq<ClientPolicy>,
    client_id: Seq<char>,
    wallet_id: Seq<char>,
    purpose: Seq<char>,
) -> bool {
    exists|p: int|
        decides(policies, p, client_id) && has_text(
            (#[trigger] policies[p]).wallet_ids@,
            wallet_id,
        ) && has_text(policies[p].purposes@, purpose)
}

/// Identifiers are validated: exactly the texts of one to 128 safe characters pass, and any other is
/// refused by the name of its field.
pub proof fn law_validate_identifier(
    field: &str,
    value: &str,
    passes: bool,
    r: Result<(), Error>,
)
    requires
        call_ensures(check_identifier, (value,), passes),
        call_ensures(validate_identifier, (field, value), r),
    ensures
        passes == identifier(value@),
        r is Ok == identifier(value@),
        r matches Err(error) ==> error matches Error::InvalidRequest(message) && message@ == field@
            + " is invalid"@,
{
    lemma_identifier(value@);
}

pub(crate) proof fn lemma_identifier(value: Seq<char>)
    ensures
        protocol::is_identifier(value) == identifier(value),
{
    if protocol::is_identifier(value) {
        assert forall|i: int| 0 <= i < value.len() implies {
            ||| 'a' <= #[trigger] value[i] <= 'z'
            ||| 'A' <= value[i] <= 'Z'
            ||| '0' <= value[i] <= '9'
            ||| value[i] == '.'
            ||| value[i] == '_'
            ||| value[i] == '-'
            ||| value[i] == ':'
        } by {
            assert(protocol::identifier_char(value[i]));
        }
    }
}

pub(crate) proof fn lemma_has_text(list: Seq<String>, wanted: Seq<char>)
    ensures
        text::texts(list).contains(wanted) == has_text(list, wanted),
{
    let view = text::texts(list);
    if view.contains(wanted) {
        let i = choose|i: int| 0 <= i < view.len() && view[i] == wanted;
        assert(list[i]@ == wanted);
    }
    if has_text(list, wanted) {
        let i = choose|i: int| 0 <= i < list.len() && (#[trigger] list[i])@ == wanted;
        assert(view[i] == wanted);
    }
}

proof fn lemma_decides(policies: Seq<ClientPolicy>, p: int, client_id: Seq<char>)
    ensures
        protocol::most_specific(protocol::policies_view(policies), p, client_id) == decides(
            policies,
            p,
            client_id,
        ),
{
    let view = protocol::policies_view(policies);
    assert forall|q: int| 0 <= q < policies.len() implies (#[trigger] view[q])
        == policies[q]@ by {}
    if protocol::most_specific(view, p, client_id) {
        assert forall|q: int|
            0 <= q < policies.len() && (#[trigger] policies[q]).client_id_prefix@.is_prefix_of(
                client_id,
            ) implies policies[q].client_id_prefix@.len()
            <= policies[p].client_id_prefix@.len() by {
            assert(protocol::policy_matches(view[q], client_id));
        }
    }
    if decides(policies, p, client_id) {
        assert forall|q: int|
            0 <= q < view.len() && protocol::policy_matches(
                #[trigger] view[q],
                client_id,
            ) implies view[q].client_id_prefix.len() <= view[p].client_id_prefix.len() by {
            assert(policies[q].client_id_prefix@.is_prefix_of(client_id));
        }
    }
}

pub(crate) proof fn lemma_allowed(
    policies: Seq<ClientPolicy>,
    client_id: Seq<char>,
    wallet_id: Seq<char>,
    purpose: Seq<char>,
)
    ensures
        protocol::authorized(protocol::policies_view(policies), client_id, wallet_id, purpose)
            == allowed(policies, client_id, wallet_id, purpose),
{
    let view = protocol::policies_view(policies);
    if protocol::authorized(view, client_id, wallet_id, purpose) {
        let p = choose|p: int|
            protocol::most_specific(view, p, client_id) && protocol::policy_allows(
                #[trigger] view[p],
                wallet_id,
                purpose,
            );
        lemma_decides(policies, p, client_id);
        lemma_has_text(policies[p].wallet_ids@, wallet_id);
        lemma_has_text(policies[p].purposes@, purpose);
        assert(view[p] == policies[p]@);
    }
    if allowed(policies, client_id, wallet_id, purpose) {
        let p = choose|p: int|
            decides(policies, p, client_id) && has_text(
                (#[trigger] policies[p]).wallet_ids@,
                wallet_id,
            ) && has_text(policies[p].purposes@, purpose);
        lemma_decides(policies, p, client_id);
        lemma_has_text(policies[p].wallet_ids@, wallet_id);
        lemma_has_text(policies[p].purposes@, purpose);
        assert(view[p] == policies[p]@);
        assert(protocol::policy_allows(view[p], wallet_id, purpose));
    }
}

/// A client is authorized exactly where a policy whose prefix starts its ID, and is not shorter than
/// any other such prefix, lists the wallet and the purpose. Any place in the lists will do.
pub proof fn law_is_authorized(
    policies: &[ClientPolicy],
    client_id: &str,
    wallet_id: &str,
    purpose: &str,
    r: bool,
)
    requires
        call_ensures(is_authorized, (policies, client_id, wallet_id, purpose), r),
    ensures
        r == allowed(policies@, client_id@, wallet_id@, purpose@),
        forall|p: int, i: int, j: int|
            #![trigger policies@[p].wallet_ids@[i], policies@[p].purposes@[j]]
            decides(policies@, p, client_id@) && 0 <= i < policies@[p].wallet_ids@.len()
                && policies@[p].wallet_ids@[i]@ == wallet_id@ && 0 <= j
                < policies@[p].purposes@.len() && policies@[p].purposes@[j]@ == purpose@ ==> r,
{
    lemma_allowed(policies@, client_id@, wallet_id@, purpose@);
    assert forall|p: int, i: int, j: int|
        #![trigger policies@[p].wallet_ids@[i], policies@[p].purposes@[j]]
        decides(policies@, p, client_id@) && 0 <= i < policies@[p].wallet_ids@.len()
            && policies@[p].wallet_ids@[i]@ == wallet_id@ && 0 <= j < policies@[p].purposes@.len()
            && policies@[p].purposes@[j]@ == purpose@ implies r by {
        assert(has_text(policies@[p].wallet_ids@, wallet_id@));
        assert(has_text(policies@[p].purposes@, purpose@));
    }
}

/// Where no two policies have the same prefix, the one that decides alone says what its clients may
/// do: they are authorized exactly for the wallets and the purposes of its lists.
pub proof fn law_deciding_policy(
    policies: &[ClientPolicy],
    client_id: &str,
    wallet_id: &str,
    purpose: &str,
    r: bool,
    p: int,
)
    requires
        call_ensures(is_authorized, (policies, client_id, wallet_id, purpose), r),
        forall|a: int, b: int|
            0 <= a < b < policies@.len() ==> (#[trigger] policies@[a]).client_id_prefix@ != (
            #[trigger] policies@[b]).client_id_prefix@,
        decides(policies@, p, client_id@),
    ensures
        r == ((exists|i: int|
            0 <= i < policies@[p].wallet_ids@.len() && (
            #[trigger] policies@[p].wallet_ids@[i])@ == wallet_id@) && (exists|j: int|
            0 <= j < policies@[p].purposes@.len() && (#[trigger] policies@[p].purposes@[j])@
                == purpose@)),
{
    lemma_allowed(policies@, client_id@, wallet_id@, purpose@);
    if r {
        let q = choose|q: int|
            decides(policies@, q, client_id@) && has_text(
                (#[trigger] policies@[q]).wallet_ids@,
                wallet_id@,
            ) && has_text(policies@[q].purposes@, purpose@);
        assert(policies@[q].client_id_prefix@ =~= policies@[p].client_id_prefix@);
        assert(q == p);
        let i = choose|i: int|
            0 <= i < policies@[p].wallet_ids@.len() && (#[trigger] policies@[p].wallet_ids@[i])@
                == wallet_id@;
        let j = choose|j: int|
            0 <= j < policies@[p].purposes@.len() && (#[trigger] policies@[p].purposes@[j])@
                == purpose@;
        assert(policies@[p].wallet_ids@[i]@ == wallet_id@);
        assert(policies@[p].purposes@[j]@ == purpose@);
    } else {
        assert(!has_text(policies@[p].wallet_ids@, wallet_id@) || !has_text(
            policies@[p].purposes@,
            purpose@,
        ));
    }
}

/// Whether metadata has at most 16 entries, with keys of at most 64 and values of at most 256 bytes.
pub open spec fn small(metadata: Seq<(Seq<char>, Seq<char>)>) -> bool {
    &&& metadata.len() <= 16
    &&& forall|i: int|
        0 <= i < metadata.len() ==> utf8::encode_utf8((#[trigger] metadata[i]).0).len() <= 64
            && utf8::encode_utf8(metadata[i].1).len() <= 256
}

/// Validation is complete: a request of the supported version and scheme, whose IDs are identifiers,
/// whose wallet and purpose the deciding policy lists, that is not dated ahead of the clock by more
/// than the skew nor expired by more than it, that is valid for a positive time of at most the
/// limit, whose metadata is small and whose digest field is the base64 of 32 bytes, is accepted, and
/// those bytes are what is to be signed.
pub proof fn law_good_request_is_accepted(
    request: &SignRequest,
    now: i64,
    max_ttl: i64,
    clock_skew: i64,
    policies: &[ClientPolicy],
    r: Result<Vec<u8>, Error>,
    digest: Seq<u8>,
)
    requires
        call_ensures(SignRequest::validate, (request, now, max_ttl, clock_skew, policies), r),
        request.version@ == "wallet.sign.v1"@,
        identifier(request.client_id@),
        identifier(request.wallet_id@),
        allowed(policies@, request.client_id@, request.wallet_id@, request.purpose@),
        request.scheme@ == "eip712-secp256k1"@,
        request.issued_at <= now + clock_skew,
        request.expires_at >= now - clock_skew,
        0 < request.expires_at - request.issued_at <= max_ttl,
        small(request.metadata@),
        request.digest_b64@ == encoding::base64_text(digest),
        digest.len() == 32,
    ensures
        r matches Ok(bytes) && bytes@ == digest,
{
    lemma_identifier(request.client_id@);
    lemma_identifier(request.wallet_id@);
    lemma_allowed(policies@, request.client_id@, request.wallet_id@, request.purpose@);
    encoding::lemma_base64_round_trip(digest);
}

/// Validation is sound: of a request that is accepted all of this holds, and what is to be signed
/// are the 32 bytes whose base64 is in its digest field.
pub proof fn law_accepted_request_is_good(
    request: &SignRequest,
    now: i64,
    max_ttl: i64,
    clock_skew: i64,
    policies: &[ClientPolicy],
    r: Result<Vec<u8>, Error>,
)
    requires
        call_ensures(SignRequest::validate, (request, now, max_ttl, clock_skew, policies), r),
        r is Ok,
    ensures
        request.version@ == "wallet.sign.v1"@,
        identifier(request.client_id@),
        identifier(request.wallet_id@),
        allowed(policies@, request.client_id@, request.wallet_id@, request.purpose@),
        request.scheme@ == "eip712-secp256k1"@,
        request.issued_at <= now + clock_skew || request.issued_at == i64::MIN,
        request.expires_at >= now - clock_skew || request.expires_at == i64::MAX,
        0 < request.expires_at - request.issued_at <= max_ttl,
        small(request.metadata@),
        r matches Ok(bytes) && bytes@.len() == 32 && request.digest_b64@ == encoding::base64_text(
            bytes@,
        ),
{
    lemma_identifier(request.client_id@);
    lemma_identifier(request.wallet_id@);
    lemma_allowed(policies@, request.client_id@, request.wallet_id@, request.purpose@);
    encoding::lemma_base64_bytes(request.digest_b64@);
}

/// A request that is refused is told the first thing that is wrong with it: its version, its client
/// ID, its wallet ID, its authorization, its scheme, a date ahead of the clock, its expiry, its
/// validity, its metadata, the base64 of its digest, or the digest's length.
pub proof fn law_refused_request_is_told_why(
    request: &SignRequest,
    now: i64,
    max_ttl: i64,
    clock_skew: i64,
    policies: &[ClientPolicy],
    r: Result<Vec<u8>, Error>,
)
    requires
        call_ensures(SignRequest::validate, (request, now, max_ttl, clock_skew, policies), r),
    ensures
        request.version@ != "wallet.sign.v1"@ ==> is_invalid(
            r,
            "unsupported protocol version: "@ + request.version@,
        ),
        request.version@ == "wallet.sign.v1"@ ==> {
            if !identifier(request.client_id@) {
                is_invalid(r, "client_id"@ + " is invalid"@)
            } else if !identifier(request.wallet_id@) {
                is_invalid(r, "wallet_id"@ + " is invalid"@)
            } else if !allowed(
                policies@,
                request.client_id@,
                request.wallet_id@,
                request.purpose@,
            ) {
                is_invalid(
                    r,
                    "client is not authorized for the requested wallet and purpose"@,
                )
            } else if request.scheme@ != "eip712-secp256k1"@ {
                r matches Err(Error::UnsupportedScheme(scheme)) && scheme@ == request.scheme@
            } else if request.issued_at > now + clock_skew && request.issued_at > i64::MIN {
                is_invalid(r, "issued_at is in the future"@)
            } else if request.expires_at < now - clock_skew && request.expires_at < i64::MAX {
                r matches Err(Error::RequestExpired)
            } else if !(0 < request.expires_at - request.issued_at <= max_ttl) {
                is_invalid(r, "request validity window is invalid"@)
            } else if !small(request.metadata@) {
                is_invalid(r, "metadata exceeds protocol limits"@)
            } else if forall|digest: Seq<u8>|
                request.digest_b64@ != #[trigger] encoding::base64_text(digest) {
                is_invalid(r, "digest_b64 is not valid base64"@)
            } else if forall|digest: Seq<u8>|
                request.digest_b64@ == #[trigger] encoding::base64_text(digest) ==> digest.len()
                    != 32 {
                is_invalid(r, "digest must be 32 bytes"@)
            } else {
                r is Ok
            }
        },
{
    lemma_identifier(request.client_id@);
    lemma_identifier(request.wallet_id@);
    lemma_allowed(policies@, request.client_id@, request.wallet_id@, request.purpose@);
    encoding::lemma_base64_bytes(request.digest_b64@);
}

/// Whether a result is the refusal of a request with a message.
pub open spec fn is_invalid<T>(r: Result<T, Error>, message: Seq<char>) -> bool {
    r matches Err(Error::InvalidRequest(told)) && told@ == message
}

} // verus!
