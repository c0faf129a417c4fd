//! The signing protocol: requests, who may make them, and responses.

use vstd::prelude::*;
use vstd::string::*;
use vstd::utf8;

use crate::encoding;
use crate::error;
use crate::error::{invalid_request, Error, ErrorView};
use crate::metadata::Metadata;
use crate::primitives;
use crate::text;
use crate::text::{join2, same_text, starts_with};
use crate::time;

verus! {

/// The version of the protocol.
pub const PROTOCOL_VERSION: &'static str = "wallet.sign.v1";

/// The one signing scheme.
pub const EIP712_SECP256K1: &'static str = "eip712-secp256k1";

/// What the clients whose ID starts with a prefix may ask for.
#[derive(Debug)]
pub struct ClientPolicy {
    pub client_id_prefix: String,
    pub wallet_ids: Vec<String>,
    pub purposes: Vec<String>,
}

/// The meaning of a [`ClientPolicy`].
pub struct PolicyView {
    pub client_id_prefix: Seq<char>,
    pub wallet_ids: Seq<Seq<char>>,
    pub purposes: Seq<Seq<char>>,
}

impl View for ClientPolicy {
    type V = PolicyView;

    open spec fn view(&self) -> PolicyView {
        PolicyView {
            client_id_prefix: self.client_id_prefix@,
            wallet_ids: text::texts(self.wallet_ids@),
            purposes: text::texts(self.purposes@),
        }
    }
}

impl Clone for ClientPolicy {
    fn clone(&self) -> (r: ClientPolicy)
        ensures
            r@ == self@,
    {
        ClientPolicy {
            client_id_prefix: self.client_id_prefix.clone(),
            wallet_ids: text::copy_texts(&self.wallet_ids),
            purposes: text::copy_texts(&self.purposes),
        }
    }
}

/// The meaning of a list of policies.
pub open spec fn policies_view(policies: Seq<ClientPolicy>) -> Seq<PolicyView> {
    Seq::new(policies.len(), |i: int| policies[i]@)
}

/// A request to sign a digest.
#[derive(Debug)]
pub struct SignRequest {
    pub version: String,
    /// The 128 bits of the request's UUID.
    pub request_id: u128,
    pub client_id: String,
    pub wallet_id: String,
    pub purpose: String,
    pub scheme: String,
    pub digest_b64: String,
    pub issued_at: i64,
    pub expires_at: i64,
    pub metadata: Metadata,
}

/// The meaning of a [`SignRequest`].
pub struct RequestView {
    pub version: Seq<char>,
    pub request_id: u128,
    pub client_id: Seq<char>,
    pub wallet_id: Seq<char>,
    pub purpose: Seq<char>,
    pub scheme: Seq<char>,
    pub digest_b64: Seq<char>,
    pub issued_at: i64,
    pub expires_at: i64,
    pub metadata: Seq<(Seq<char>, Seq<char>)>,
}

impl View for SignRequest {
    type V = RequestView;

    open spec fn view(&self) -> RequestView {
        RequestView {
            version: self.version@,
            request_id: self.request_id,
            client_id: self.client_id@,
            wallet_id: self.wallet_id@,
            purpose: self.purpose@,
            scheme: self.scheme@,
            digest_b64: self.digest_b64@,
            issued_at: self.issued_at,
            expires_at: self.expires_at,
            metadata: self.metadata@,
        }
    }
}

impl Clone for SignRequest {
    fn clone(&self) -> (r: SignRequest)
        ensures
            r@ == self@,
    {
        SignRequest {
            version: self.version.clone(),
            request_id: self.request_id,
            client_id: self.client_id.clone(),
            wallet_id: self.wallet_id.clone(),
            purpose: self.purpose.clone(),
            scheme: self.scheme.clone(),
            digest_b64: self.digest_b64.clone(),
            issued_at: self.issued_at,
            expires_at: self.expires_at,
            metadata: self.metadata.clone(),
        }
    }
}

/// The characters of identifiers.
pub open spec fn identifier_char(c: char) -> bool {
    ||| 'a' <= c <= 'z'
    ||| 'A' <= c <= 'Z'
    ||| '0' <= c <= '9'
    ||| c == '.'
    ||| c == '_'
    ||| c == '-'
    ||| c == ':'
}

/// Whether a text is an identifier: one to 128 of the characters that identifiers have.
pub open spec fn is_identifier(value: Seq<char>) -> bool {
    1 <= value.len() <= 128 && forall|i: int|
        0 <= i < value.len() ==> identifier_char(#[trigger] value[i])
}

/// What is told of a text in a field that asks for an identifier.
pub open spec fn identifier_check(field: Seq<char>, value: Seq<char>) -> Result<(), ErrorView> {
    if is_identifier(value) {
        Ok(())
    } else {
        Err(ErrorView::InvalidRequest(field + " is invalid"@))
    }
}

fn is_identifier_char(c: char) -> (r: bool)
    ensures
        r == identifier_char(c),
{
    ('a' <= c && c <= 'z') || ('A' <= c && c <= 'Z') || ('0' <= c && c <= '9') || c == '.' || c
        == '_' || c == '-' || c == ':'
}

/// Whether a text is an identifier.
pub fn check_identifier(value: &str) -> (r: bool)
    ensures
        r == is_identifier(value@),
{
    if !value.is_ascii() {
        proof {
            if is_identifier(value@) {
                assert forall|i: int| 0 <= i < value@.len() implies 0 <= (
                #[trigger] value@[i]) as nat <= 0x7f by {
                    assert(identifier_char(value@[i]));
                }
                assert(utf8::is_ascii_chars(value@));
            }
        }
        return false;
    }
    let bytes = value.as_bytes();
    proof {
        is_ascii_spec_bytes(value);
        assert(bytes@.len() == value@.len());
    }
    if bytes.len() == 0 || bytes.len() > 128 {
        return false;
    }
    let mut i: usize = 0;
    while i < bytes.len()
        invariant
            i <= bytes@.len(),
            bytes@.len() == value@.len(),
            utf8::is_ascii_chars(value@),
            bytes@ == Seq::new(value@.len(), |i: int| value@[i] as u8),
            forall|j: int| 0 <= j < i ==> identifier_char(#[trigger] value@[j]),
        decreases bytes@.len() - i,
    {
        assert(0 <= value@[i as int] as nat <= 0x7f);
        assert(bytes@[i as int] as char == value@[i as int]);
        if !is_identifier_char(bytes[i] as char) {
            return false;
        }
        i = i + 1;
    }
    true
}

/// Validates an identifier used in the protocol or routing configuration: empty, oversized and
/// unsafe ones are refused.
pub fn validate_identifier(field: &str, value: &str) -> (r: Result<(), Error>)
    ensures
        error::result_view(r) == identifier_check(field@, value@),
{
    if check_identifier(value) {
        Ok(())
    } else {
        Err(Error::InvalidRequest(join2(field, " is invalid")))
    }
}

/// Whether a policy speaks of a client.
pub open spec fn policy_matches(policy: PolicyView, client_id: Seq<char>) -> bool {
    policy.client_id_prefix.is_prefix_of(client_id)
}

/// Whether a policy speaks of a client and none with a longer prefix does.
pub open spec fn most_specific(policies: Seq<PolicyView>, i: int, client_id: Seq<char>) -> bool {
    &&& 0 <= i < policies.len()
    &&& policy_matches(policies[i], client_id)
    &&& forall|j: int|
        0 <= j < policies.len() && policy_matches(#[trigger] policies[j], client_id)
            ==> policies[j].client_id_prefix.len() <= policies[i].client_id_prefix.len()
}

/// Whether a policy allows a wallet and a purpose.
pub open spec fn policy_allows(
    policy: PolicyView,
    wallet_id: Seq<char>,
    purpose: Seq<char>,
) -> bool {
    policy.wallet_ids.contains(wallet_id) && policy.purposes.contains(purpose)
}

/// Whether a client may use a wallet for a purpose: a policy with the longest prefix of the
/// client's ID that any policy has allows it.
pub open spec fn authorized(
    policies: Seq<PolicyView>,
    client_id: Seq<char>,
    wallet_id: Seq<char>,
    purpose: Seq<char>,
) -> bool {
    exists|i: int|
        most_specific(policies, i, client_id) && policy_allows(
            #[trigger] policies[i],
            wallet_id,
            purpose,
        )
}

/// Whether metadata keeps the limits of the protocol: 16 entries, with keys of 64 and values of
/// 256 bytes.
pub open spec fn metadata_fits(metadata: Seq<(Seq<char>, Seq<char>)>) -> bool {
    metadata.len() <= 16 && forall|i: int|
        0 <= i < metadata.len() ==> utf8::encode_utf8((#[trigger] metadata[i]).0).len() <= 64
            && utf8::encode_utf8(metadata[i].1).len() <= 256
}

/// What validating a request gives: the digest to sign, or the first rule that it breaks.
pub open spec fn request_check(
    request: RequestView,
    now: i64,
    max_ttl: i64,
    clock_skew: i64,
    policies: Seq<PolicyView>,
) -> Result<Seq<u8>, ErrorView> {
    if request.version != PROTOCOL_VERSION@ {
        Err(ErrorView::InvalidRequest("unsupported protocol version: "@ + request.version))
    } else if !is_identifier(request.client_id) {
        Err(ErrorView::InvalidRequest("client_id"@ + " is invalid"@))
    } else if !is_identifier(request.wallet_id) {
        Err(ErrorView::InvalidRequest("wallet_id"@ + " is invalid"@))
    } else if !authorized(policies, request.client_id, request.wallet_id, request.purpose) {
        Err(
            ErrorView::InvalidRequest(
                "client is not authorized for the requested wallet and purpose"@,
            ),
        )
    } else if request.scheme != EIP712_SECP256K1@ {
        Err(ErrorView::UnsupportedScheme(request.scheme))
    } else if request.issued_at > time::clamped(now + clock_skew) {
        Err(ErrorView::InvalidRequest("issued_at is in the future"@))
    } else if request.expires_at < time::clamped(now - clock_skew) {
        Err(ErrorView::RequestExpired)
    } else if !(0 < request.expires_at - request.issued_at <= max_ttl) {
        Err(ErrorView::InvalidRequest("request validity window is invalid"@))
    } else if !metadata_fits(request.metadata) {
        Err(ErrorView::InvalidRequest("metadata exceeds protocol limits"@))
    } else {
        match encoding::base64_bytes(request.digest_b64) {
            None => Err(ErrorView::InvalidRequest("digest_b64 is not valid base64"@)),
            Some(digest) => if digest.len() != 32 {
                Err(ErrorView::InvalidRequest("digest must be 32 bytes"@))
            } else {
                Ok(digest)
            },
        }
    }
}

/// The length of the longest prefix of a client's ID that any policy has.
fn longest_prefix(policies: &[ClientPolicy], client_id: &str) -> (r: Option<usize>)
    ensures
        match r {
            Some(length) => exists|i: int|
                #![trigger policies@[i]]
                most_specific(policies_view(policies@), i, client_id@) && length
                    == policies@[i]@.client_id_prefix.len(),
            None => forall|i: int|
                0 <= i < policies@.len() ==> !policy_matches(#[trigger] policies@[i]@, client_id@),
        },
{
    let mut longest: Option<usize> = None;
    let mut i: usize = 0;
    let ghost view = policies_view(policies@);
    let ghost mut best: int = 0;
    while i < policies.len()
        invariant
            i <= policies@.len(),
            view == policies_view(policies@),
            match longest {
                Some(length) => {
                    &&& 0 <= best < i
                    &&& policy_matches(view[best], client_id@)
                    &&& length == view[best].client_id_prefix.len()
                    &&& forall|j: int|
                        0 <= j < i && policy_matches(#[trigger] view[j], client_id@)
                            ==> view[j].client_id_prefix.len() <= length
                },
                None => forall|j: int|
                    0 <= j < i ==> !policy_matches(#[trigger] view[j], client_id@),
            },
        decreases policies@.len() - i,
    {
        let prefix = policies[i].client_id_prefix.as_str();
        assert(view[i as int] == policies@[i as int]@);
        if starts_with(client_id, prefix) {
            let length: usize = prefix.unicode_len();
            let longer = match longest {
                Some(known) => length > known,
                None => true,
            };
            if longer {
                longest = Some(length);
                proof {
                    best = i as int;
                }
            }
        }
        i = i + 1;
    }
    proof {
        if longest is Some {
            assert(most_specific(view, best, client_id@));
            assert(policies@[best]@ == view[best]);
        } else {
            assert forall|j: int| 0 <= j < policies@.len() implies !policy_matches(
                #[trigger] policies@[j]@,
                client_id@,
            ) by {
                assert(view[j] == policies@[j]@);
            }
        }
    }
    longest
}

/// Whether a client may use a wallet for a purpose.
pub fn is_authorized(
    policies: &[ClientPolicy],
    client_id: &str,
    wallet_id: &str,
    purpose: &str,
) -> (r: bool)
    ensures
        r == authorized(policies_view(policies@), client_id@, wallet_id@, purpose@),
{
    let ghost view = policies_view(policies@);
    match longest_prefix(policies, client_id) {
        None => {
            assert forall|i: int| !most_specific(view, i, client_id@) by {
                if 0 <= i < policies@.len() {
                    assert(!policy_matches(policies@[i]@, client_id@));
                }
            }
            false
        },
        Some(length) => {
            let ghost best = choose|i: int|
                #![trigger policies@[i]]
                most_specific(view, i, client_id@) && length
                    == policies@[i]@.client_id_prefix.len();
            let mut i: usize = 0;
            while i < policies.len()
                invariant
                    i <= policies@.len(),
                    view == policies_view(policies@),
                    most_specific(view, best, client_id@),
                    length == view[best].client_id_prefix.len(),
                    forall|j: int|
                        0 <= j < i ==> !(most_specific(view, j, client_id@) && policy_allows(
                            #[trigger] view[j],
                            wallet_id@,
                            purpose@,
                        )),
                decreases policies@.len() - i,
            {
                let policy = &policies[i];
                assert(view[i as int] == policy@);
                if policy.client_id_prefix.as_str().unicode_len() == length && starts_with(
                    client_id,
                    policy.client_id_prefix.as_str(),
                ) && text::list_contains(&policy.wallet_ids, wallet_id) && text::list_contains(
                    &policy.purposes,
                    purpose,
                ) {
                    assert(most_specific(view, i as int, client_id@));
                    assert(policy_allows(view[i as int], wallet_id@, purpose@));
                    return true;
                }
                i = i + 1;
            }
            false
        },
    }
}

/// Whether metadata keeps the limits of the protocol.
fn metadata_within_limits(metadata: &Metadata) -> (r: bool)
    ensures
        r == metadata_fits(metadata@),
{
    let length: usize = metadata.len();
    if length > 16 {
        return false;
    }
    let mut i: usize = 0;
    while i < length
        invariant
            i <= length,
            length == metadata@.len(),
            length <= 16,
            forall|j: int|
                0 <= j < i ==> utf8::encode_utf8((#[trigger] metadata@[j]).0).len() <= 64
                    && utf8::encode_utf8(metadata@[j].1).len() <= 256,
        decreases length - i,
    {
        let (key, value) = metadata.entry(i);
        if key.as_bytes().len() > 64 || value.as_bytes().len() > 256 {
            assert(!metadata_fits(metadata@)) by {
                assert(metadata@[i as int] == (key@, value@));
            }
            return false;
        }
        i = i + 1;
    }
    true
}

impl SignRequest {
    /// Validates authorization, time bounds, scheme, metadata, and digest size, and gives the
    /// digest to sign.
    pub fn validate(
        &self,
        now: i64,
        max_ttl: i64,
        clock_skew: i64,
        client_policies: &[ClientPolicy],
    ) -> (r: Result<Vec<u8>, Error>)
        ensures
            error::result_view(r) == request_check(
                self@,
                now,
                max_ttl,
                clock_skew,
                policies_view(client_policies@),
            ),
    {
        if !same_text(self.version.as_str(), PROTOCOL_VERSION) {
            return Err(
                Error::InvalidRequest(
                    join2("unsupported protocol version: ", self.version.as_str()),
                ),
            );
        }
        if let Err(error) = validate_identifier("client_id", self.client_id.as_str()) {
            return Err(error);
        }
        if let Err(error) = validate_identifier("wallet_id", self.wallet_id.as_str()) {
            return Err(error);
        }
        if !is_authorized(
            client_policies,
            self.client_id.as_str(),
            self.wallet_id.as_str(),
            self.purpose.as_str(),
        ) {
            return Err(
                invalid_request("client is not authorized for the requested wallet and purpose"),
            );
        }
        if !same_text(self.scheme.as_str(), EIP712_SECP256K1) {
            return Err(Error::UnsupportedScheme(self.scheme.clone()));
        }
        if self.issued_at > time::saturating_sum(now, clock_skew) {
            return Err(invalid_request("issued_at is in the future"));
        }
        if self.expires_at < time::saturating_difference(now, clock_skew) {
            return Err(Error::RequestExpired);
        }
        let in_window = match self.expires_at.checked_sub(self.issued_at) {
            Some(validity) => validity > 0 && validity <= max_ttl,
            None => false,
        };
        if !in_window {
            return Err(invalid_request("request validity window is invalid"));
        }
        if !metadata_within_limits(&self.metadata) {
            return Err(invalid_request("metadata exceeds protocol limits"));
        }
        match encoding::decode_text(self.digest_b64.as_str()) {
            None => Err(invalid_request("digest_b64 is not valid base64")),
            Some(digest) => {
                if digest.len() != 32 {
                    Err(invalid_request("digest must be 32 bytes"))
                } else {
                    Ok(digest)
                }
            },
        }
    }
}

/// A field of a fingerprint: its length on eight bytes, then its bytes.
pub open spec fn field_frame(value: Seq<u8>) -> Seq<u8> {
    encoding::big_endian(value.len(), 8) + value
}

/// The fields of a fingerprint, one after the other.
pub open spec fn field_frames(fields: Seq<Seq<u8>>) -> Seq<u8>
    decreases fields.len(),
{
    if fields.len() == 0 {
        Seq::empty()
    } else {
        field_frame(fields[0]) + field_frames(fields.skip(1))
    }
}

/// The keys and values of metadata in turn, in the order of the keys.
pub open spec fn metadata_fields(metadata: Seq<(Seq<char>, Seq<char>)>) -> Seq<Seq<u8>> {
    Seq::new(
        2 * metadata.len(),
        |i: int|
            if i % 2 == 0 {
                utf8::encode_utf8(metadata[i / 2].0)
            } else {
                utf8::encode_utf8(metadata[i / 2].1)
            },
    )
}

/// The fields that a request's fingerprint covers: all of them.
pub open spec fn fingerprint_fields(request: RequestView) -> Seq<Seq<u8>> {
    seq![
        utf8::encode_utf8(request.version),
        encoding::big_endian(request.request_id as nat, 16),
        utf8::encode_utf8(request.client_id),
        utf8::encode_utf8(request.wallet_id),
        utf8::encode_utf8(request.purpose),
        utf8::encode_utf8(request.scheme),
        utf8::encode_utf8(request.digest_b64),
        encoding::big_endian(encoding::twos_complement(request.issued_at), 8),
        encoding::big_endian(encoding::twos_complement(request.expires_at), 8),
    ] + metadata_fields(request.metadata)
}

/// The fingerprint of a request.
pub open spec fn request_fingerprint(request: RequestView) -> Seq<u8> {
    primitives::sha256_digest(field_frames(fingerprint_fields(request)))
}

proof fn lemma_field_frames_push(fields: Seq<Seq<u8>>, value: Seq<u8>)
    ensures
        field_frames(fields.push(value)) == field_frames(fields) + field_frame(value),
    decreases fields.len(),
{
    if fields.len() == 0 {
        assert(fields.push(value).skip(1) =~= Seq::empty());
        assert(field_frames(fields.push(value).skip(1)) =~= Seq::empty());
    } else {
        assert(fields.push(value).skip(1) =~= fields.skip(1).push(value));
        lemma_field_frames_push(fields.skip(1), value);
    }
}

/// Adds a field to the input of a fingerprint.
fn hash_field(output: &mut Vec<u8>, value: &[u8])
    ensures
        final(output)@ == old(output)@ + field_frame(value@),
{
    encoding::push_big_endian(output, value.len() as u128, 8);
    output.extend_from_slice(value);
}

/// The bytes that a request's fingerprint hashes.
pub fn fingerprint_input(request: &SignRequest) -> (r: Vec<u8>)
    ensures
        r@ == field_frames(fingerprint_fields(request@)),
        fields_fit(request@),
{
    proof {
        encoding::lemma_byte_ranges();
    }
    let mut output: Vec<u8> = Vec::new();
    let ghost mut fields: Seq<Seq<u8>> = Seq::empty();
    let mut request_id: Vec<u8> = Vec::new();
    encoding::push_big_endian(&mut request_id, request.request_id, 16);
    let mut issued_at: Vec<u8> = Vec::new();
    encoding::push_big_endian(
        &mut issued_at,
        encoding::unsigned_bits(request.issued_at) as u128,
        8,
    );
    let mut expires_at: Vec<u8> = Vec::new();
    encoding::push_big_endian(
        &mut expires_at,
        encoding::unsigned_bits(request.expires_at) as u128,
        8,
    );
    let first: [&[u8]; 9] = [
        request.version.as_str().as_bytes(),
        request_id.as_slice(),
        request.client_id.as_str().as_bytes(),
        request.wallet_id.as_str().as_bytes(),
        request.purpose.as_str().as_bytes(),
        request.scheme.as_str().as_bytes(),
        request.digest_b64.as_str().as_bytes(),
        issued_at.as_slice(),
        expires_at.as_slice(),
    ];
    let mut i: usize = 0;
    while i < 9
        invariant
            i <= 9,
            fields.len() == i,
            forall|j: int| 0 <= j < i ==> fields[j] == (#[trigger] first@[j])@,
            forall|j: int| 0 <= j < i ==> (#[trigger] fields[j]).len() <= usize::MAX,
            output@ == field_frames(fields),
        decreases 9 - i,
    {
        proof {
            lemma_field_frames_push(fields, first@[i as int]@);
            fields = fields.push(first@[i as int]@);
        }
        let field = first[i];
        assert(field.len() <= usize::MAX);
        hash_field(&mut output, field);
        i = i + 1;
    }
    let ghost all = fingerprint_fields(request@);
    assert(request_id@ =~= encoding::big_endian(request.request_id as nat, 16));
    assert(issued_at@ =~= encoding::big_endian(encoding::twos_complement(request.issued_at), 8));
    assert(expires_at@ =~= encoding::big_endian(encoding::twos_complement(request.expires_at), 8));
    assert(fields =~= all.take(9));
    let length: usize = request.metadata.len();
    let mut k: usize = 0;
    while k < length
        invariant
            k <= length,
            length == request.metadata@.len(),
            all == fingerprint_fields(request@),
            fields == all.take(9 + 2 * k),
            forall|j: int| 0 <= j < fields.len() ==> (#[trigger] fields[j]).len() <= usize::MAX,
            output@ == field_frames(fields),
        decreases length - k,
    {
        let (key, value) = request.metadata.entry(k);
        let key_bytes = key.as_bytes();
        let value_bytes = value.as_bytes();
        assert(key_bytes.len() <= usize::MAX && value_bytes.len() <= usize::MAX);
        hash_field(&mut output, key_bytes);
        hash_field(&mut output, value_bytes);
        proof {
            let pair = metadata_fields(request.metadata@);
            assert(all[9 + 2 * k] == pair[2 * k as int]);
            assert(all[9 + 2 * k + 1] == pair[2 * k + 1]);
            assert(all[9 + 2 * k] == utf8::encode_utf8(key@));
            assert(all[9 + 2 * k + 1] == utf8::encode_utf8(value@));
            lemma_field_frames_push(fields, utf8::encode_utf8(key@));
            fields = fields.push(utf8::encode_utf8(key@));
            lemma_field_frames_push(fields, utf8::encode_utf8(value@));
            fields = fields.push(utf8::encode_utf8(value@));
            assert(fields =~= all.take(9 + 2 * (k + 1)));
        }
        k = k + 1;
    }
    assert(fields =~= all);
    output
}

impl SignRequest {
    /// A digest of all that the request says. Requests that differ in any field are hashed from
    /// different bytes.
    pub fn fingerprint(&self) -> (r: [u8; 32])
        ensures
            r@ == request_fingerprint(self@),
            fields_fit(self@),
    {
        primitives::sha256(fingerprint_input(self).as_slice())
    }
}

proof fn lemma_field_frame_parts(value: Seq<u8>, rest: Seq<u8>)
    requires
        value.len() < encoding::byte_range(8),
    ensures
        (field_frame(value) + rest).len() == 8 + value.len() + rest.len(),
        encoding::big_endian_value((field_frame(value) + rest).take(8)) == value.len(),
        (field_frame(value) + rest).subrange(8, 8 + value.len() as int) == value,
        (field_frame(value) + rest).skip(8 + value.len() as int) == rest,
{
    let length = encoding::big_endian(value.len(), 8);
    encoding::lemma_big_endian_length(value.len(), 8);
    encoding::lemma_big_endian_round_trip(value.len(), 8);
    assert((field_frame(value) + rest).take(8) =~= length);
    assert((field_frame(value) + rest).subrange(8, 8 + value.len() as int) =~= value);
    assert((field_frame(value) + rest).skip(8 + value.len() as int) =~= rest);
}

/// Framed fields are told apart: the bytes determine how many fields there are and what each
/// holds, as long as the length of each fits on eight bytes.
pub proof fn lemma_field_frames_injective(a: Seq<Seq<u8>>, b: Seq<Seq<u8>>)
    requires
        forall|i: int| 0 <= i < a.len() ==> (#[trigger] a[i]).len() < encoding::byte_range(8),
        forall|i: int| 0 <= i < b.len() ==> (#[trigger] b[i]).len() < encoding::byte_range(8),
        field_frames(a) == field_frames(b),
    ensures
        a == b,
    decreases a.len(),
{
    if a.len() > 0 {
        lemma_field_frame_parts(a[0], field_frames(a.skip(1)));
    }
    if b.len() > 0 {
        lemma_field_frame_parts(b[0], field_frames(b.skip(1)));
    }
    if a.len() > 0 && b.len() > 0 {
        assert(a[0] == b[0]);
        lemma_field_frames_injective(a.skip(1), b.skip(1));
        assert(a =~= seq![a[0]] + a.skip(1));
        assert(b =~= seq![b[0]] + b.skip(1));
    } else {
        assert(a =~= b);
    }
}

/// Whether the length of each text of a request fits on eight bytes, as that of every text in
/// memory does.
pub open spec fn fields_fit(request: RequestView) -> bool {
    forall|i: int|
        0 <= i < fingerprint_fields(request).len() ==> (
        #[trigger] fingerprint_fields(request)[i]).len() < encoding::byte_range(8)
}

/// Fingerprints cover the whole request: two requests whose fingerprints are made from the same
/// bytes are the same in every field, metadata included.
pub proof fn lemma_fingerprint_covers_request(a: RequestView, b: RequestView)
    requires
        fields_fit(a),
        fields_fit(b),
        field_frames(fingerprint_fields(a)) == field_frames(fingerprint_fields(b)),
    ensures
        a == b,
{
    let x = fingerprint_fields(a);
    let y = fingerprint_fields(b);
    lemma_field_frames_injective(x, y);
    assert(x[0] == y[0] && x[1] == y[1] && x[2] == y[2] && x[3] == y[3] && x[4] == y[4]);
    assert(x[5] == y[5] && x[6] == y[6] && x[7] == y[7] && x[8] == y[8]);
    text::lemma_bytes_determine_text(a.version, b.version);
    text::lemma_bytes_determine_text(a.client_id, b.client_id);
    text::lemma_bytes_determine_text(a.wallet_id, b.wallet_id);
    text::lemma_bytes_determine_text(a.purpose, b.purpose);
    text::lemma_bytes_determine_text(a.scheme, b.scheme);
    text::lemma_bytes_determine_text(a.digest_b64, b.digest_b64);
    encoding::lemma_byte_ranges();
    encoding::lemma_big_endian_round_trip(a.request_id as nat, 16);
    encoding::lemma_big_endian_round_trip(b.request_id as nat, 16);
    encoding::lemma_big_endian_round_trip(encoding::twos_complement(a.issued_at), 8);
    encoding::lemma_big_endian_round_trip(encoding::twos_complement(b.issued_at), 8);
    encoding::lemma_big_endian_round_trip(encoding::twos_complement(a.expires_at), 8);
    encoding::lemma_big_endian_round_trip(encoding::twos_complement(b.expires_at), 8);
    assert(x.len() == 9 + 2 * a.metadata.len());
    assert(y.len() == 9 + 2 * b.metadata.len());
    assert forall|i: int| 0 <= i < a.metadata.len() implies a.metadata[i] == b.metadata[i] by {
        assert(x[9 + 2 * i] == metadata_fields(a.metadata)[2 * i]);
        assert(y[9 + 2 * i] == metadata_fields(b.metadata)[2 * i]);
        assert(x[9 + 2 * i + 1] == metadata_fields(a.metadata)[2 * i + 1]);
        assert(y[9 + 2 * i + 1] == metadata_fields(b.metadata)[2 * i + 1]);
        text::lemma_bytes_determine_text(a.metadata[i].0, b.metadata[i].0);
        text::lemma_bytes_determine_text(a.metadata[i].1, b.metadata[i].1);
    }
    assert(a.metadata =~= b.metadata);
}

/// Whether no two policies have the same prefix.
pub open spec fn unique_prefixes(policies: Seq<PolicyView>) -> bool {
    forall|i: int, j: int|
        0 <= i < j < policies.len() ==> (#[trigger] policies[i]).client_id_prefix != (
        #[trigger] policies[j]).client_id_prefix
}

/// Where no two policies share a prefix, the one with the longest prefix of the client's ID
/// decides alone: what broader policies allow does not count.
pub proof fn lemma_most_specific_policy_decides(
    policies: Seq<PolicyView>,
    i: int,
    client_id: Seq<char>,
    wallet_id: Seq<char>,
    purpose: Seq<char>,
)
    requires
        unique_prefixes(policies),
        most_specific(policies, i, client_id),
    ensures
        authorized(policies, client_id, wallet_id, purpose) == policy_allows(
            policies[i],
            wallet_id,
            purpose,
        ),
{
    if authorized(policies, client_id, wallet_id, purpose) {
        let j = choose|j: int|
            most_specific(policies, j, client_id) && policy_allows(
                #[trigger] policies[j],
                wallet_id,
                purpose,
            );
        assert(policies[i].client_id_prefix =~= policies[j].client_id_prefix);
        assert(i == j);
    }
}

/// A policy that a longer one overrides gives no access: a request that only such policies allow
/// is refused.
pub proof fn lemma_no_fall_back_to_broader_policy(
    request: RequestView,
    now: i64,
    max_ttl: i64,
    clock_skew: i64,
    policies: Seq<PolicyView>,
)
    requires
        forall|i: int|
            0 <= i < policies.len() && policy_allows(
                #[trigger] policies[i],
                request.wallet_id,
                request.purpose,
            ) ==> !most_specific(policies, i, request.client_id),
    ensures
        request_check(request, now, max_ttl, clock_skew, policies) is Err,
{
}

/// What holds of every request that passes: the client is authorized, the request is for the
/// supported version and scheme, it is not from the future and not expired within the clock skew,
/// it is valid for a positive time within the limit, and the digest has 32 bytes.
pub proof fn lemma_accepted_request(
    request: RequestView,
    now: i64,
    max_ttl: i64,
    clock_skew: i64,
    policies: Seq<PolicyView>,
)
    requires
        request_check(request, now, max_ttl, clock_skew, policies) is Ok,
    ensures
        request.version == PROTOCOL_VERSION@,
        request.scheme == EIP712_SECP256K1@,
        is_identifier(request.client_id),
        is_identifier(request.wallet_id),
        authorized(policies, request.client_id, request.wallet_id, request.purpose),
        request.issued_at <= now + clock_skew || request.issued_at <= i64::MIN,
        now - clock_skew <= request.expires_at || request.expires_at >= i64::MAX,
        0 < request.expires_at - request.issued_at <= max_ttl,
        metadata_fits(request.metadata),
        encoding::base64_bytes(request.digest_b64) == Some(
            request_check(request, now, max_ttl, clock_skew, policies)->Ok_0,
        ),
        request_check(request, now, max_ttl, clock_skew, policies)->Ok_0.len() == 32,
{
}

/// What a client is told of a failure.
#[derive(Debug, PartialEq, Eq)]
pub struct ProtocolError {
    pub code: String,
    pub message: String,
}

/// The meaning of a [`ProtocolError`].
pub struct ProtocolErrorView {
    pub code: Seq<char>,
    pub message: Seq<char>,
}

impl View for ProtocolError {
    type V = ProtocolErrorView;

    open spec fn view(&self) -> ProtocolErrorView {
        ProtocolErrorView { code: self.code@, message: self.message@ }
    }
}

impl Clone for ProtocolError {
    fn clone(&self) -> (r: ProtocolError)
        ensures
            r@ == self@,
    {
        ProtocolError { code: self.code.clone(), message: self.message.clone() }
    }
}

/// The answer to a request.
#[derive(Debug)]
pub struct SignResponse {
    pub version: String,
    /// The 128 bits of the request's UUID.
    pub request_id: u128,
    pub client_id: String,
    pub wallet_id: String,
    pub address: Option<String>,
    pub signature: Option<String>,
    pub signed_at: Option<i64>,
    pub error: Option<ProtocolError>,
}

/// The meaning of a [`SignResponse`].
pub struct ResponseView {
    pub version: Seq<char>,
    pub request_id: u128,
    pub client_id: Seq<char>,
    pub wallet_id: Seq<char>,
    pub address: Option<Seq<char>>,
    pub signature: Option<Seq<char>>,
    pub signed_at: Option<i64>,
    pub error: Option<ProtocolErrorView>,
}

impl View for SignResponse {
    type V = ResponseView;

    open spec fn view(&self) -> ResponseView {
        ResponseView {
            version: self.version@,
            request_id: self.request_id,
            client_id: self.client_id@,
            wallet_id: self.wallet_id@,
            address: text::option_view(self.address),
            signature: text::option_view(self.signature),
            signed_at: self.signed_at,
            error: text::option_view(self.error),
        }
    }
}

fn copy_text(value: &Option<String>) -> (r: Option<String>)
    ensures
        text::option_view(r) == text::option_view(*value),
{
    match value {
        Some(value) => Some(value.clone()),
        None => None,
    }
}

impl Clone for SignResponse {
    fn clone(&self) -> (r: SignResponse)
        ensures
            r@ == self@,
    {
        SignResponse {
            version: self.version.clone(),
            request_id: self.request_id,
            client_id: self.client_id.clone(),
            wallet_id: self.wallet_id.clone(),
            address: copy_text(&self.address),
            signature: copy_text(&self.signature),
            signed_at: self.signed_at,
            error: match &self.error {
                Some(error) => Some(error.clone()),
                None => None,
            },
        }
    }
}

/// What a client is told of a failure: the reason where the request is at fault, and no more than
/// that the wallet could not sign where the wallet is.
pub open spec fn told_error(error: ErrorView) -> ProtocolErrorView {
    match error {
        ErrorView::InvalidRequest(message) => ProtocolErrorView {
            code: "INVALID_REQUEST"@,
            message,
        },
        ErrorView::RequestExpired => ProtocolErrorView {
            code: "REQUEST_EXPIRED"@,
            message: "signing request expired"@,
        },
        ErrorView::RequestConflict => ProtocolErrorView {
            code: "REQUEST_ID_CONFLICT"@,
            message: "request ID was reused for different signing data"@,
        },
        ErrorView::UnsupportedScheme(scheme) => ProtocolErrorView {
            code: "UNSUPPORTED_SCHEME"@,
            message: "unsupported signing scheme: "@ + scheme,
        },
        ErrorView::KeyNotFound(_) => ProtocolErrorView {
            code: "WALLET_NOT_FOUND"@,
            message: "wallet key not found"@,
        },
        _ => ProtocolErrorView {
            code: "SIGNING_FAILED"@,
            message: "wallet could not sign the request"@,
        },
    }
}

/// The answer to a request whose digest was signed.
pub open spec fn success_response(
    request: RequestView,
    address: Seq<char>,
    signature: Seq<char>,
    signed_at: i64,
) -> ResponseView {
    ResponseView {
        version: PROTOCOL_VERSION@,
        request_id: request.request_id,
        client_id: request.client_id,
        wallet_id: request.wallet_id,
        address: Some(address),
        signature: Some(signature),
        signed_at: Some(signed_at),
        error: None,
    }
}

/// The answer to a request that was not signed.
pub open spec fn failure_response(request: RequestView, error: ErrorView) -> ResponseView {
    ResponseView {
        version: PROTOCOL_VERSION@,
        request_id: request.request_id,
        client_id: request.client_id,
        wallet_id: request.wallet_id,
        address: None,
        signature: None,
        signed_at: None,
        error: Some(told_error(error)),
    }
}

fn protocol_error(error: &Error) -> (r: ProtocolError)
    ensures
        r@ == told_error(error@),
{
    let (code, message) = match error {
        Error::InvalidRequest(message) => ("INVALID_REQUEST", message.clone()),
        Error::RequestExpired => ("REQUEST_EXPIRED", "signing request expired".to_owned()),
        Error::RequestConflict => (
            "REQUEST_ID_CONFLICT",
            "request ID was reused for different signing data".to_owned(),
        ),
        Error::UnsupportedScheme(scheme) => (
            "UNSUPPORTED_SCHEME",
            join2("unsupported signing scheme: ", scheme.as_str()),
        ),
        Error::KeyNotFound(_) => ("WALLET_NOT_FOUND", "wallet key not found".to_owned()),
        _ => ("SIGNING_FAILED", "wallet could not sign the request".to_owned()),
    };
    ProtocolError { code: code.to_owned(), message }
}

impl SignResponse {
    /// The answer to a request whose digest was signed.
    pub fn success(
        request: &SignRequest,
        address: String,
        signature: String,
        signed_at: i64,
    ) -> (r: SignResponse)
        ensures
            r@ == success_response(request@, address@, signature@, signed_at),
    {
        SignResponse {
            version: PROTOCOL_VERSION.to_owned(),
            request_id: request.request_id,
            client_id: request.client_id.clone(),
            wallet_id: request.wallet_id.clone(),
            address: Some(address),
            signature: Some(signature),
            signed_at: Some(signed_at),
            error: None,
        }
    }

    /// The answer to a request that was not signed.
    pub fn failure(request: &SignRequest, error: &Error) -> (r: SignResponse)
        ensures
            r@ == failure_response(request@, error@),
    {
        SignResponse {
            version: PROTOCOL_VERSION.to_owned(),
            request_id: request.request_id,
            client_id: request.client_id.clone(),
            wallet_id: request.wallet_id.clone(),
            address: None,
            signature: None,
            signed_at: None,
            error: Some(protocol_error(error)),
        }
    }
}

} // verus!
