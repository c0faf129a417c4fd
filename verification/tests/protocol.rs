use agent_wallet::metadata::Metadata;
use agent_wallet::protocol::{
    fingerprint_input, is_authorized, validate_identifier, ClientPolicy, SignRequest, SignResponse, EIP712_SECP256K1,
    PROTOCOL_VERSION,
};
use agent_wallet::Error;
use base64::{engine::general_purpose::STANDARD as BASE64, Engine};
use sha2::{Digest, Sha256};
use uuid::Uuid;

fn request(now: i64) -> SignRequest {
    SignRequest {
        version: PROTOCOL_VERSION.to_owned(),
        request_id: Uuid::new_v4().as_u128(),
        client_id: "flowgent.tm-1".to_owned(),
        wallet_id: "payer".to_owned(),
        purpose: "x402.payment".to_owned(),
        scheme: EIP712_SECP256K1.to_owned(),
        digest_b64: BASE64.encode([7_u8; 32]),
        issued_at: now,
        expires_at: now + 30,
        metadata: Metadata::new(),
    }
}

fn client_policy() -> ClientPolicy {
    ClientPolicy {
        client_id_prefix: "flowgent".to_owned(),
        wallet_ids: vec!["payer".to_owned()],
        purposes: vec!["x402.payment".to_owned()],
    }
}

const NOW: i64 = 1_700_000_000;

fn refusal(request: &SignRequest) -> String {
    match request.validate(NOW, 30, 5, &[client_policy()]) {
        Err(Error::InvalidRequest(message)) => message,
        Err(error) => panic!("another error: {}", error.message()),
        Ok(_) => panic!("accepted"),
    }
}

#[test]
fn validates_bounded_request() {
    let now = 1_700_000_000;
    let digest = request(now).validate(now, 30, 5, &[client_policy()]).unwrap();
    assert_eq!(digest, vec![7_u8; 32]);
}

#[test]
fn rejects_expired_request() {
    let now = 1_700_000_100;
    assert!(matches!(
        request(now - 100).validate(now, 30, 0, &[client_policy()]),
        Err(Error::RequestExpired)
    ));
}

#[test]
fn rejects_cross_client_wallet_access() {
    let now = 1_700_000_000;
    let mut request = request(now);
    request.wallet_id = "another-wallet".to_owned();
    assert!(request.validate(now, 30, 5, &[client_policy()]).is_err());
}

#[test]
fn most_specific_client_policy_cannot_fall_back_to_broader_prefix() {
    let now = 1_700_000_000;
    let mut request = request(now);
    request.client_id = "flowgent-admin-1".to_owned();
    let policies = vec![
        ClientPolicy {
            client_id_prefix: "flowgent-".to_owned(),
            wallet_ids: vec!["payer".to_owned()],
            purposes: vec!["x402.payment".to_owned()],
        },
        ClientPolicy {
            client_id_prefix: "flowgent-admin-".to_owned(),
            wallet_ids: vec!["treasury".to_owned()],
            purposes: vec!["x402.payment".to_owned()],
        },
    ];
    assert!(request.validate(now, 30, 5, &policies).is_err());
    request.wallet_id = "treasury".to_owned();
    assert!(request.validate(now, 30, 5, &policies).is_ok());
}

#[test]
fn rejects_overflowing_validity_window() {
    let mut request = request(0);
    request.issued_at = i64::MIN;
    request.expires_at = i64::MAX;
    assert!(request.validate(0, 30, 5, &[client_policy()]).is_err());
}

#[test]
fn each_rule_has_its_message() {
    let mut broken = request(NOW);
    broken.version = "wallet.sign.v2".to_owned();
    assert_eq!(refusal(&broken), "unsupported protocol version: wallet.sign.v2");
    let mut broken = request(NOW);
    broken.client_id = String::new();
    assert_eq!(refusal(&broken), "client_id is invalid");
    let mut broken = request(NOW);
    broken.wallet_id = "pay er".to_owned();
    assert_eq!(refusal(&broken), "wallet_id is invalid");
    let mut broken = request(NOW);
    broken.purpose = "other".to_owned();
    assert_eq!(
        refusal(&broken),
        "client is not authorized for the requested wallet and purpose"
    );
    let mut broken = request(NOW);
    broken.issued_at = NOW + 6;
    broken.expires_at = NOW + 30;
    assert_eq!(refusal(&broken), "issued_at is in the future");
    let mut broken = request(NOW);
    broken.expires_at = NOW + 31;
    assert_eq!(refusal(&broken), "request validity window is invalid");
    let mut broken = request(NOW);
    broken.expires_at = NOW;
    assert_eq!(refusal(&broken), "request validity window is invalid");
    let mut broken = request(NOW);
    broken.metadata.insert("k".repeat(65), String::new());
    assert_eq!(refusal(&broken), "metadata exceeds protocol limits");
    let mut broken = request(NOW);
    broken.digest_b64 = "@".to_owned();
    assert_eq!(refusal(&broken), "digest_b64 is not valid base64");
    let mut broken = request(NOW);
    broken.digest_b64 = BASE64.encode([7_u8; 31]);
    assert_eq!(refusal(&broken), "digest must be 32 bytes");
}

#[test]
fn scheme_is_refused_by_name() {
    let mut broken = request(NOW);
    broken.scheme = "raw".to_owned();
    assert!(
        matches!(broken.validate(NOW, 30, 5, &[client_policy()]), Err(Error::UnsupportedScheme(scheme)) if scheme == "raw")
    );
}

#[test]
fn earlier_rules_come_first() {
    let mut broken = request(NOW);
    broken.version = "x".to_owned();
    broken.client_id = String::new();
    assert_eq!(refusal(&broken), "unsupported protocol version: x");
    broken.version = PROTOCOL_VERSION.to_owned();
    broken.wallet_id = String::new();
    assert_eq!(refusal(&broken), "client_id is invalid");
}

#[test]
fn window_edges_are_accepted() {
    let mut edge = request(NOW);
    edge.issued_at = NOW + 5;
    edge.expires_at = NOW + 35;
    assert!(edge.validate(NOW, 30, 5, &[client_policy()]).is_ok());
    edge.issued_at = NOW - 35;
    edge.expires_at = NOW - 5;
    assert!(edge.validate(NOW, 30, 5, &[client_policy()]).is_ok());
    edge.issued_at -= 1;
    edge.expires_at -= 1;
    assert!(matches!(
        edge.validate(NOW, 30, 5, &[client_policy()]),
        Err(Error::RequestExpired)
    ));
}

#[test]
fn metadata_limits_count_bytes_and_entries() {
    let mut full = request(NOW);
    for i in 0..16 {
        full.metadata.insert(format!("key-{i}"), "v".repeat(256));
    }
    full.metadata.insert("key-0".to_owned(), "é".repeat(128));
    assert!(full.validate(NOW, 30, 5, &[client_policy()]).is_ok());
    full.metadata.insert("key-0".to_owned(), "é".repeat(129));
    assert_eq!(refusal(&full), "metadata exceeds protocol limits");
    let mut many = request(NOW);
    for i in 0..17 {
        many.metadata.insert(format!("key-{i}"), String::new());
    }
    assert_eq!(refusal(&many), "metadata exceeds protocol limits");
}

#[test]
fn policies_with_equal_prefixes_add_up() {
    let other = ClientPolicy {
        client_id_prefix: "flowgent".to_owned(),
        wallet_ids: vec!["treasury".to_owned()],
        purposes: vec!["audit".to_owned()],
    };
    let policies = [client_policy(), other];
    assert!(is_authorized(&policies, "flowgent-1", "payer", "x402.payment"));
    assert!(is_authorized(&policies, "flowgent-1", "treasury", "audit"));
    assert!(!is_authorized(&policies, "flowgent-1", "payer", "audit"));
    assert!(!is_authorized(&policies, "gent-1", "payer", "x402.payment"));
    assert!(!is_authorized(&[], "flowgent-1", "payer", "x402.payment"));
}

#[test]
fn identifiers_are_short_and_safe() {
    assert!(validate_identifier("field", "aZ0._-:").is_ok());
    assert!(validate_identifier("field", &"a".repeat(128)).is_ok());
    for value in [String::new(), "a".repeat(129), "a/b".to_owned(), "é".to_owned(), "a b".to_owned(), "a\n".to_owned()] {
        assert!(
            matches!(validate_identifier("field", &value), Err(Error::InvalidRequest(message)) if message == "field is invalid")
        );
    }
}

fn fixed_request() -> SignRequest {
    let mut fixed = request(NOW);
    fixed.request_id = 0x0011_2233_4455_6677_8899_aabb_ccdd_eeff;
    fixed
}

#[test]
fn fingerprints_have_exact_values() {
    let mut fixed = fixed_request();
    assert_eq!(
        hex::encode(fixed.fingerprint()),
        "f639e91e2959c0df7253deca904ff0c38c393f61016f60f2367c99059cbf52fb"
    );
    fixed.metadata.insert("b".to_owned(), "2".to_owned());
    fixed.metadata.insert("a".to_owned(), "1".to_owned());
    assert_eq!(
        hex::encode(fixed.fingerprint()),
        "c8f1518ac7a5c5e4ddf9ef2c81e9ad0766d447557bbaa0ff101951d032e71482"
    );
    assert_eq!(
        fixed.fingerprint().as_slice(),
        Sha256::digest(fingerprint_input(&fixed)).as_slice()
    );
}

#[test]
fn request_ids_are_the_bits_of_a_uuid() {
    let uuid = Uuid::new_v4();
    let mut identified = request(NOW);
    identified.request_id = uuid.as_u128();
    let input = fingerprint_input(&identified);
    let from = 8 + PROTOCOL_VERSION.len() + 8;
    assert_eq!(&input[from..from + 16], uuid.as_bytes());
}

#[test]
fn fingerprints_cover_every_field() {
    let mut variants: Vec<SignRequest> = Vec::new();
    for _ in 0..11 {
        variants.push(fixed_request());
    }
    variants[1].version.push('x');
    variants[2].request_id += 1;
    variants[3].client_id.push('x');
    variants[4].wallet_id.push('x');
    variants[5].purpose.push('x');
    variants[6].scheme.push('x');
    variants[7].digest_b64.push('x');
    variants[8].issued_at = -1;
    variants[9].expires_at += 1;
    variants[10].metadata.insert(String::new(), String::new());
    for (i, left) in variants.iter().enumerate() {
        for (j, right) in variants.iter().enumerate() {
            assert_eq!(left.fingerprint() == right.fingerprint(), i == j);
        }
    }
    let mut moved = fixed_request();
    moved.client_id = "flowgent.tm-1p".to_owned();
    moved.wallet_id = "ayer".to_owned();
    assert_ne!(moved.fingerprint(), fixed_request().fingerprint());
}

#[test]
fn order_of_metadata_leaves_no_trace() {
    let mut left = fixed_request();
    let mut right = fixed_request();
    for key in ["b", "a", "é", "c"] {
        left.metadata.insert(key.to_owned(), key.to_owned());
    }
    for key in ["é", "c", "b", "a"] {
        right.metadata.insert(key.to_owned(), "other".to_owned());
        right.metadata.insert(key.to_owned(), key.to_owned());
    }
    assert_eq!(left.fingerprint(), right.fingerprint());
    assert_eq!(left.metadata.len(), 4);
    let keys: Vec<&str> = (0..4).map(|i| left.metadata.entry(i).0).collect();
    assert_eq!(keys, ["a", "b", "c", "é"]);
}

#[test]
fn success_repeats_the_request() {
    let fixed = fixed_request();
    let response = SignResponse::success(&fixed, "0xabc".to_owned(), "0xdef".to_owned(), NOW);
    assert_eq!(response.version, PROTOCOL_VERSION);
    assert_eq!(response.request_id, fixed.request_id);
    assert_eq!(response.client_id, fixed.client_id);
    assert_eq!(response.wallet_id, fixed.wallet_id);
    assert_eq!(response.address.as_deref(), Some("0xabc"));
    assert_eq!(response.signature.as_deref(), Some("0xdef"));
    assert_eq!(response.signed_at, Some(NOW));
    assert!(response.error.is_none());
}

#[test]
fn failures_tell_no_more_than_they_should() {
    let fixed = fixed_request();
    for (error, code, message) in [
        (Error::InvalidRequest("why".to_owned()), "INVALID_REQUEST", "why"),
        (Error::RequestExpired, "REQUEST_EXPIRED", "signing request expired"),
        (
            Error::RequestConflict,
            "REQUEST_ID_CONFLICT",
            "request ID was reused for different signing data",
        ),
        (
            Error::UnsupportedScheme("raw".to_owned()),
            "UNSUPPORTED_SCHEME",
            "unsupported signing scheme: raw",
        ),
        (
            Error::KeyNotFound("secret-name".to_owned()),
            "WALLET_NOT_FOUND",
            "wallet key not found",
        ),
        (
            Error::Crypto("detail".to_owned()),
            "SIGNING_FAILED",
            "wallet could not sign the request",
        ),
        (
            Error::Io("detail".to_owned()),
            "SIGNING_FAILED",
            "wallet could not sign the request",
        ),
    ] {
        let response = SignResponse::failure(&fixed, &error);
        assert_eq!(response.request_id, fixed.request_id);
        assert!(response.address.is_none());
        assert!(response.signature.is_none());
        assert!(response.signed_at.is_none());
        let told = response.error.unwrap();
        assert_eq!(told.code, code);
        assert_eq!(told.message, message);
    }
}

#[test]
fn errors_have_messages() {
    let path = "/a".to_owned();
    for (error, message) in [
        (Error::Config("m".to_owned()), "configuration error: m"),
        (Error::InvalidMasterKey("m".to_owned()), "invalid master key: m"),
        (Error::KeyExists("m".to_owned()), "wallet key already exists: m"),
        (Error::KeyNotFound("m".to_owned()), "wallet key not found: m"),
        (Error::InvalidKey("m".to_owned()), "invalid wallet key: m"),
        (Error::InvalidRequest("m".to_owned()), "invalid signing request: m"),
        (Error::RequestExpired, "signing request expired"),
        (
            Error::RequestConflict,
            "request ID was reused for different signing data",
        ),
        (
            Error::UnsupportedScheme("m".to_owned()),
            "unsupported signing scheme: m",
        ),
        (Error::Crypto("m".to_owned()), "cryptographic operation failed: m"),
        (
            Error::ReadFile {
                path: path.clone(),
                source: "s".to_owned(),
            },
            "failed to read /a: s",
        ),
        (
            Error::WriteFile {
                path,
                source: "s".to_owned(),
            },
            "failed to write /a: s",
        ),
        (Error::Io("m".to_owned()), "m"),
        (Error::Json("m".to_owned()), "m"),
        (Error::Mqtt("m".to_owned()), "MQTT error: m"),
    ] {
        assert_eq!(error.message(), message);
        assert_eq!(error.clone().message(), message);
    }
}
