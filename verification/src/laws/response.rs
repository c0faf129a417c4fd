//! Laws on answers, on fingerprints and on the metadata of requests.

use vstd::prelude::*;
use vstd::string::*;
use vstd::utf8;

use crate::error::Error;
use crate::laws::request;
use crate::laws::text as text_laws;
use crate::metadata;
use crate::metadata::Metadata;
use crate::primitives;
use crate::protocol;
use crate::protocol::{fingerprint_input, ClientPolicy, ProtocolError, SignRequest, SignResponse};
use crate::text;

verus! {

/// Whether an answer is to a request: it is of the protocol's version and has the request's IDs.
pub open spec fn answers(r: SignResponse, request: SignRequest) -> bool {
    &&& r.version@ == "wallet.sign.v1"@
    &&& r.request_id == request.request_id
    &&& r.client_id@ == request.client_id@
    &&& r.wallet_id@ == request.wallet_id@
}

/// Whether an answer gives an address, a signature and a time, and no failure.
pub open spec fn gives(
    r: SignResponse,
    address: Seq<char>,
    signature: Seq<char>,
    signed_at: i64,
) -> bool {
    &&& r.address is Some && r.address->0@ == address
    &&& r.signature is Some && r.signature->0@ == signature
    &&& r.signed_at == Some(signed_at)
    &&& r.error is None
}

/// Whether an answer gives a failure with a code and a message, and nothing else.
pub open spec fn fails(r: SignResponse, code: Seq<char>, message: Seq<char>) -> bool {
    &&& r.address is None
    &&& r.signature is None
    &&& r.signed_at is None
    &&& r.error is Some && r.error->0.code@ == code && r.error->0.message@ == message
}

/// Whether an answer tells a failure as a client may know it: what is wrong with the request, or only
/// that the wallet could not sign.
pub open spec fn tells(r: SignResponse, error: Error) -> bool {
    match error {
        Error::InvalidRequest(message) => fails(r, "INVALID_REQUEST"@, message@),
        Error::RequestExpired => fails(r, "REQUEST_EXPIRED"@, "signing request expired"@),
        Error::RequestConflict => fails(
            r,
            "REQUEST_ID_CONFLICT"@,
            "request ID was reused for different signing data"@,
        ),
        Error::UnsupportedScheme(scheme) => fails(
            r,
            "UNSUPPORTED_SCHEME"@,
            "unsupported signing scheme: "@ + scheme@,
        ),
        Error::KeyNotFound(_) => fails(r, "WALLET_NOT_FOUND"@, "wallet key not found"@),
        _ => fails(r, "SIGNING_FAILED"@, "wallet could not sign the request"@),
    }
}

/// Whether two optional texts are the same.
pub open spec fn same_option(a: Option<String>, b: Option<String>) -> bool {
    match (a, b) {
        (Some(x), Some(y)) => x@ == y@,
        (None, None) => true,
        _ => false,
    }
}

/// Whether two answers are the same, in every field.
pub open spec fn same_answer(a: SignResponse, b: SignResponse) -> bool {
    &&& a.version@ == b.version@
    &&& a.request_id == b.request_id
    &&& a.client_id@ == b.client_id@
    &&& a.wallet_id@ == b.wallet_id@
    &&& same_option(a.address, b.address)
    &&& same_option(a.signature, b.signature)
    &&& a.signed_at == b.signed_at
    &&& match (a.error, b.error) {
        (Some(x), Some(y)) => x.code@ == y.code@ && x.message@ == y.message@,
        (None, None) => true,
        _ => false,
    }
}

pub(crate) proof fn lemma_same_answer(a: SignResponse, b: SignResponse)
    requires
        a@ == b@,
    ensures
        same_answer(a, b),
{
    lemma_same_option(a.address, b.address);
    lemma_same_option(a.signature, b.signature);
    assert(a@.error == b@.error);
    match (a.error, b.error) {
        (Some(x), Some(y)) => {
            assert(a@.error == Some(x@));
            assert(b@.error == Some(y@));
        },
        (Some(x), None) => {
            assert(a@.error == Some(x@));
            assert(b@.error is None);
        },
        (None, Some(y)) => {
            assert(b@.error == Some(y@));
            assert(a@.error is None);
        },
        (None, None) => {},
    }
}

proof fn lemma_same_option(a: Option<String>, b: Option<String>)
    requires
        text::option_view(a) == text::option_view(b),
    ensures
        same_option(a, b),
{
    match (a, b) {
        (Some(x), Some(y)) => {
            assert(text::option_view(a) == Some(x@));
            assert(text::option_view(b) == Some(y@));
        },
        (Some(x), None) => {
            assert(text::option_view(a) == Some(x@));
            assert(text::option_view(b) is None);
        },
        (None, Some(y)) => {
            assert(text::option_view(b) == Some(y@));
            assert(text::option_view(a) is None);
        },
        (None, None) => {},
    }
}

pub(crate) proof fn lemma_success(
    r: SignResponse,
    request: SignRequest,
    address: Seq<char>,
    signature: Seq<char>,
    signed_at: i64,
)
    requires
        r@ == protocol::success_response(request@, address, signature, signed_at),
    ensures
        answers(r, request),
        gives(r, address, signature, signed_at),
{
    lemma_some(r.address, address);
    lemma_some(r.signature, signature);
    assert(text::option_view(r.error) is None);
    if r.error is Some {
        assert(text::option_view(r.error) == Some(r.error->0@));
    }
}

proof fn lemma_some(a: Option<String>, b: Seq<char>)
    requires
        text::option_view(a) == Some(b),
    ensures
        a is Some,
        a->0@ == b,
{
    match a {
        Some(x) => {
            assert(text::option_view(a) == Some(x@));
        },
        None => {
            assert(text::option_view(a) is None);
        },
    }
}

proof fn lemma_none(a: Option<String>)
    requires
        text::option_view(a) is None,
    ensures
        a is None,
{
    if let Some(x) = a {
        assert(text::option_view(a) == Some(x@));
    }
}

pub(crate) proof fn lemma_failure(r: SignResponse, request: SignRequest, error: Error)
    requires
        r@ == protocol::failure_response(request@, error@),
    ensures
        answers(r, request),
        tells(r, error),
{
    lemma_none(r.address);
    lemma_none(r.signature);
    match r.error {
        Some(told) => {
            assert(text::option_view(r.error) == Some(told@));
        },
        None => {
            assert(text::option_view(r.error) is None);
        },
    }
}

/// The answer to a request that was signed has its IDs, the address, the signature and the time.
pub proof fn law_success(
    request: &SignRequest,
    address: String,
    signature: String,
    signed_at: i64,
    r: SignResponse,
)
    requires
        call_ensures(SignResponse::success, (request, address, signature, signed_at), r),
    ensures
        answers(r, *request),
        gives(r, address@, signature@, signed_at),
{
    lemma_success(r, *request, address@, signature@, signed_at);
}

/// The answer to a request that was not signed has its IDs and tells the failure as a client may know
/// it.
pub proof fn law_failure(request: &SignRequest, error: &Error, r: SignResponse)
    requires
        call_ensures(SignResponse::failure, (request, error), r),
    ensures
        answers(r, *request),
        tells(r, *error),
{
    lemma_failure(r, *request, *error);
}

/// A fingerprint is the SHA-256 hash of bytes from which the request can be told: the same bytes come
/// only from requests that are the same in every field, and those give the same bytes.
pub proof fn law_fingerprints(
    a: &SignRequest,
    b: &SignRequest,
    a_bytes: Vec<u8>,
    b_bytes: Vec<u8>,
    a_print: [u8; 32],
)
    requires
        call_ensures(fingerprint_input, (a,), a_bytes),
        call_ensures(fingerprint_input, (b,), b_bytes),
        call_ensures(SignRequest::fingerprint, (a,), a_print),
    ensures
        a_print@ == primitives::sha256_digest(a_bytes@),
        (a_bytes@ == b_bytes@) == request::same_request(*a, *b),
{
    if a_bytes@ == b_bytes@ {
        protocol::lemma_fingerprint_covers_request(a@, b@);
    }
    if request::same_request(*a, *b) {
        assert(a@ == b@);
    }
}

/// A copy of a request, of an answer, of a failure or of a policy has every field of it.
pub proof fn law_copies(
    asked: &SignRequest,
    asked_copy: SignRequest,
    answer: &SignResponse,
    answer_copy: SignResponse,
    failure: &ProtocolError,
    failure_copy: ProtocolError,
    policy: &ClientPolicy,
    policy_copy: ClientPolicy,
    error: &Error,
    error_copy: Error,
)
    requires
        call_ensures(SignRequest::clone, (asked,), asked_copy),
        call_ensures(SignResponse::clone, (answer,), answer_copy),
        call_ensures(ProtocolError::clone, (failure,), failure_copy),
        call_ensures(ClientPolicy::clone, (policy,), policy_copy),
        call_ensures(Error::clone, (error,), error_copy),
    ensures
        request::same_request(asked_copy, *asked),
        same_answer(answer_copy, *answer),
        failure_copy.code@ == failure.code@,
        failure_copy.message@ == failure.message@,
        policy_copy.client_id_prefix@ == policy.client_id_prefix@,
        policy_copy.wallet_ids@.len() == policy.wallet_ids@.len(),
        policy_copy.purposes@.len() == policy.purposes@.len(),
        forall|i: int|
            0 <= i < policy.wallet_ids@.len() ==> (#[trigger] policy_copy.wallet_ids@[i])@
                == policy.wallet_ids@[i]@,
        forall|i: int|
            0 <= i < policy.purposes@.len() ==> (#[trigger] policy_copy.purposes@[i])@
                == policy.purposes@[i]@,
        error_copy@ == error@,
{
    assert(asked_copy@ == asked@);
    lemma_same_answer(answer_copy, *answer);
    assert(failure_copy@ == failure@);
    assert(policy_copy@ == policy@);
    let wallets = text::texts(policy.wallet_ids@);
    let copied = text::texts(policy_copy.wallet_ids@);
    assert(wallets == copied);
    assert(wallets.len() == copied.len());
    assert forall|i: int| 0 <= i < policy.wallet_ids@.len() implies (
    #[trigger] policy_copy.wallet_ids@[i])@ == policy.wallet_ids@[i]@ by {
        assert(copied[i] == wallets[i]);
    }
    let purposes = text::texts(policy.purposes@);
    let copies = text::texts(policy_copy.purposes@);
    assert(purposes == copies);
    assert(purposes.len() == copies.len());
    assert forall|i: int| 0 <= i < policy.purposes@.len() implies (
    #[trigger] policy_copy.purposes@[i])@ == policy.purposes@[i]@ by {
        assert(copies[i] == purposes[i]);
    }
}

/// Whether entries stand in the order of their keys' bytes, at most one to a key.
pub open spec fn sorted(entries: Seq<(Seq<char>, Seq<char>)>) -> bool {
    forall|i: int, j: int|
        0 <= i < j < entries.len() ==> text_laws::before(
            utf8::encode_utf8((#[trigger] entries[i]).0),
            utf8::encode_utf8((#[trigger] entries[j]).0),
        )
}

/// Whether entries hold a value under a key.
pub open spec fn holds(
    entries: Seq<(Seq<char>, Seq<char>)>,
    key: Seq<char>,
    value: Seq<char>,
) -> bool {
    exists|i: int| 0 <= i < entries.len() && #[trigger] entries[i] == (key, value)
}

proof fn lemma_sorted(entries: Seq<(Seq<char>, Seq<char>)>)
    ensures
        metadata::in_key_order(entries) == sorted(entries),
{
    assert forall|a: Seq<char>, b: Seq<char>| #[trigger]
        text::text_before(a, b) == text_laws::before(
            utf8::encode_utf8(a),
            utf8::encode_utf8(b),
        ) by {
        text_laws::lemma_before(utf8::encode_utf8(a), utf8::encode_utf8(b));
    }
    if sorted(entries) {
        assert forall|i: int, j: int| 0 <= i < j < entries.len() implies text::text_before(
            #[trigger] entries[i].0,
            #[trigger] entries[j].0,
        ) by {
            assert(text_laws::before(
                utf8::encode_utf8(entries[i].0),
                utf8::encode_utf8(entries[j].0),
            ));
        }
    }
    if metadata::in_key_order(entries) {
        assert forall|i: int, j: int| 0 <= i < j < entries.len() implies text_laws::before(
            utf8::encode_utf8((#[trigger] entries[i]).0),
            utf8::encode_utf8((#[trigger] entries[j]).0),
        ) by {
            assert(text::text_before(entries[i].0, entries[j].0));
        }
    }
}

proof fn lemma_holds(entries: Seq<(Seq<char>, Seq<char>)>, key: Seq<char>, value: Seq<char>)
    requires
        metadata::in_key_order(entries),
    ensures
        (metadata::entry_value(entries, key) == Some(value)) == holds(entries, key, value),
{
    if metadata::entry_value(entries, key) == Some(value) {
        let i = choose|i: int| 0 <= i < entries.len() && #[trigger] entries[i].0 == key;
        metadata::lemma_entry_value(entries, i);
        assert(entries[i].1 == value);
        assert(entries[i] == (key, value));
    }
    if holds(entries, key, value) {
        let i = choose|i: int| 0 <= i < entries.len() && #[trigger] entries[i] == (key, value);
        metadata::lemma_entry_value(entries, i);
    }
}

/// An entry that is set is there, in place of any other under its key, every entry under another key
/// is as it was, and the order of the keys is kept.
pub proof fn law_metadata_insert(
    m: &mut Metadata,
    key: String,
    value: String,
    other: Seq<char>,
    held: Seq<char>,
)
    requires
        call_ensures(Metadata::insert, (m, key, value), ()),
        sorted(old(m)@),
    ensures
        sorted(final(m)@),
        holds(final(m)@, key@, held) == (held == value@),
        other != key@ ==> holds(final(m)@, other, held) == holds(old(m)@, other, held),
{
    lemma_sorted(old(m)@);
    lemma_sorted(final(m)@);
    lemma_holds(final(m)@, key@, held);
    lemma_holds(final(m)@, other, held);
    lemma_holds(old(m)@, other, held);
    assert(metadata::entry_value(final(m)@, key@) == Some(value@));
    assert(metadata::entry_value(final(m)@, other) == if other == key@ {
        Some(value@)
    } else {
        metadata::entry_value(old(m)@, other)
    });
}

/// Metadata starts empty, is counted, kept in the order of its keys, read by place and copied.
pub proof fn law_metadata(
    empty: Metadata,
    m: &Metadata,
    n: usize,
    index: usize,
    entry: (&str, &str),
    copy: Metadata,
)
    requires
        call_ensures(Metadata::new, (), empty),
        call_ensures(Metadata::len, (m,), n),
        index < n,
        call_ensures(Metadata::entry, (m, index), entry),
        call_ensures(Metadata::clone, (m,), copy),
    ensures
        empty@.len() == 0,
        n == m@.len(),
        sorted(m@),
        entry.0@ == m@[index as int].0,
        entry.1@ == m@[index as int].1,
        copy@ == m@,
{
    lemma_sorted(m@);
    assert((entry.0@, entry.1@) == m@[index as int]);
}

} // verus!
