use std::sync::Arc;

use agent_wallet::cache::{CachedResponse, ResponseCache};
use agent_wallet::config::SecurityConfig;
use agent_wallet::crypto::recover_address;
use agent_wallet::metadata::Metadata;
use agent_wallet::protocol::{ClientPolicy, SignRequest, SignResponse, EIP712_SECP256K1, PROTOCOL_VERSION};
use agent_wallet::store::{generate_master_key_file, KeyRecord};
use agent_wallet::{EncryptedFileStore, Error, WalletService};
use base64::{engine::general_purpose::STANDARD as BASE64, Engine};
use sha2::{Digest, Sha256};
use uuid::Uuid;

const NOW: i64 = 1_700_000_000;

fn service_keeping(limit: usize, seconds: i64) -> (KeyRecord, WalletService) {
    let master = generate_master_key_file();
    let (store, _) = EncryptedFileStore::open(Ok(&master), Ok(None)).unwrap();
    let (_, record) = store.generate("payer", false, NOW).unwrap();
    let security = SecurityConfig {
        client_policies: vec![ClientPolicy {
            client_id_prefix: "test-".to_owned(),
            wallet_ids: vec!["payer".to_owned()],
            purposes: vec!["x402.payment".to_owned()],
        }],
        dedup_ttl_seconds: seconds,
        max_dedup_entries: limit,
        ..SecurityConfig::default()
    };
    (record, WalletService::new(Arc::new(store), security))
}

fn service() -> (KeyRecord, WalletService) {
    service_keeping(10_000, 300)
}

fn request(now: i64) -> SignRequest {
    SignRequest {
        version: PROTOCOL_VERSION.to_owned(),
        request_id: Uuid::new_v4().as_u128(),
        client_id: "test-client".to_owned(),
        wallet_id: "payer".to_owned(),
        purpose: "x402.payment".to_owned(),
        scheme: EIP712_SECP256K1.to_owned(),
        digest_b64: BASE64.encode(Sha256::digest(b"payment")),
        issued_at: now,
        expires_at: now + 30,
        metadata: Metadata::new(),
    }
}

fn code(response: &SignResponse) -> &str {
    response.error.as_ref().map_or("", |error| error.code.as_str())
}

#[test]
fn signs_and_replays_identical_request() {
    let (record, mut service) = service();
    let request = request(NOW);
    let first = service.handle(&request, NOW, Ok(Some(record)));
    let replay = service.handle(&request, NOW, Ok(None));
    assert!(first.error.is_none());
    assert!(first.signature.is_some());
    assert_eq!(first.signature, replay.signature);
}

#[test]
fn rejects_request_id_reuse() {
    let (record, mut service) = service();
    let first = request(NOW);
    let mut conflicting = first.clone();
    conflicting.digest_b64 = BASE64.encode([9_u8; 32]);
    let _ = service.handle(&first, NOW, Ok(Some(record.clone())));
    let response = service.handle(&conflicting, NOW, Ok(Some(record)));
    assert!(response.signature.is_none());
    assert_eq!(response.error.unwrap().code, "REQUEST_ID_CONFLICT");
}

#[test]
fn signatures_lead_back_to_the_address() {
    let (record, mut service) = service();
    let response = service.handle(&request(NOW), NOW, Ok(Some(record.clone())));
    assert_eq!(response.address.as_deref(), Some(record.address.as_str()));
    assert_eq!(response.signed_at, Some(NOW));
    let text = response.signature.unwrap();
    let signature = hex::decode(text.strip_prefix("0x").unwrap()).unwrap();
    assert_eq!(
        recover_address(&Sha256::digest(b"payment"), &signature),
        Some(record.address)
    );
}

#[test]
fn every_answer_is_for_its_request() {
    let (record, mut service) = service();
    let request = request(NOW);
    let mut conflicting = request.clone();
    conflicting.client_id = "test-other".to_owned();
    let answers = [
        service.handle(&request, NOW, Ok(Some(record.clone()))),
        service.handle(&request, NOW + 1, Ok(None)),
        service.handle_json(b"{}", Some(request.clone()), NOW + 2, Ok(Some(record))).unwrap(),
    ];
    for answer in &answers {
        assert_eq!(answer.version, PROTOCOL_VERSION);
        assert_eq!(answer.request_id, request.request_id);
        assert_eq!(answer.client_id, request.client_id);
        assert_eq!(answer.wallet_id, request.wallet_id);
        let digits = answer.signature.as_deref().unwrap().strip_prefix("0x").unwrap();
        assert_eq!(digits.len(), 130);
        assert!(digits.chars().all(|c| matches!(c, '0'..='9' | 'a'..='f')));
    }
    let refused = service.handle(&conflicting, NOW + 3, Ok(None));
    assert_eq!(refused.request_id, request.request_id);
    assert_eq!(refused.client_id, "test-other");
    assert!(refused.signature.is_none() && refused.address.is_none() && refused.signed_at.is_none());
}

#[test]
fn failures_are_answered_and_repeated() {
    let (record, mut service) = service();
    let request = request(NOW);
    assert_eq!(code(&service.handle(&request, NOW, Ok(None))), "WALLET_NOT_FOUND");
    assert_eq!(
        code(&service.handle(&request, NOW, Ok(Some(record)))),
        "WALLET_NOT_FOUND"
    );
}

#[test]
fn unreadable_keys_are_not_explained() {
    let (record, mut service) = service();
    let lost = Err(Error::ReadFile {
        path: "/store/keys".to_owned(),
        source: "denied".to_owned(),
    });
    assert_eq!(code(&service.handle(&request(NOW), NOW, lost)), "SIGNING_FAILED");
    let mut foreign = record;
    foreign.ciphertext_b64 = BASE64.encode([0_u8; 48]);
    assert_eq!(
        code(&service.handle(&request(NOW), NOW, Ok(Some(foreign)))),
        "SIGNING_FAILED"
    );
}

#[test]
fn refused_requests_do_not_need_the_key() {
    let (record, mut service) = service();
    let mut foreign = request(NOW);
    foreign.client_id = "other-client".to_owned();
    assert!(!service.needs_key(&foreign, NOW));
    assert_eq!(
        code(&service.handle(&foreign, NOW, Ok(Some(record.clone())))),
        "INVALID_REQUEST"
    );
    let request = request(NOW);
    assert!(service.needs_key(&request, NOW));
    assert!(!service.needs_key(&request, NOW + 1_000));
    let _ = service.handle(&request, NOW, Ok(Some(record)));
    assert!(!service.needs_key(&request, NOW));
}

#[test]
fn responses_are_dropped_when_their_time_is_over() {
    let (record, mut service) = service();
    let request = request(NOW);
    let first = service.handle(&request, NOW, Ok(Some(record.clone())));
    let kept = service.handle(&request, NOW + 300, Ok(Some(record.clone())));
    assert_eq!(first.signature, kept.signature);
    let dropped = service.handle(&request, NOW + 301, Ok(Some(record)));
    assert_eq!(code(&dropped), "REQUEST_EXPIRED");
}

#[test]
fn retention_covers_requests_that_are_not_dated_ahead() {
    let (record, mut service) = service_keeping(10_000, 35);
    let present = request(NOW);
    let _ = service.handle(&present, NOW, Ok(Some(record.clone())));
    assert!(!service.needs_key(&present, NOW + 35));
    assert!(!service.needs_key(&present, NOW + 36));
    let ahead = request(NOW + 5);
    let _ = service.handle(&ahead, NOW, Ok(Some(record)));
    assert!(!service.needs_key(&ahead, NOW + 35));
    assert!(service.needs_key(&ahead, NOW + 36));
}

#[test]
fn oldest_response_makes_room() {
    let (record, mut service) = service_keeping(2, 300);
    let first = request(NOW);
    let second = request(NOW);
    let third = request(NOW);
    let _ = service.handle(&first, NOW, Ok(Some(record.clone())));
    let kept = service.handle(&second, NOW + 1, Ok(Some(record.clone())));
    let _ = service.handle(&third, NOW + 2, Ok(Some(record)));
    assert_eq!(service.handle(&second, NOW + 3, Ok(None)).signature, kept.signature);
    assert!(service.needs_key(&first, NOW + 3));
    assert!(!service.needs_key(&third, NOW + 3));
}

#[test]
fn payloads_are_discarded_or_answered() {
    let (record, mut service) = service();
    assert_eq!(service.max_request_bytes(), 16 * 1024);
    let long = vec![b' '; 16 * 1024 + 1];
    assert!(!service.admits(&long));
    assert!(service.admits(&long[1..]));
    assert!(service.handle_json(&long, Some(request(NOW)), NOW, Ok(Some(record.clone()))).is_none());
    assert!(service.handle_json(b"{", None, NOW, Ok(None)).is_none());
    let answered = service.handle_json(b"{}", Some(request(NOW)), NOW, Ok(Some(record)));
    assert!(answered.unwrap().error.is_none());
}

#[test]
fn cache_keeps_drops_and_makes_room() {
    let cached = |id: u128, retain_until| {
        let mut request = request(NOW);
        request.request_id = id;
        CachedResponse {
            fingerprint: request.fingerprint(),
            response: SignResponse::failure(&request, &Error::RequestExpired),
            retain_until,
        }
    };
    let mut cache = ResponseCache::new();
    cache.make_room(0);
    assert_eq!(cache.len(), 0);
    for (id, retain_until) in [(1, 30), (2, 10), (3, 20)] {
        cache.insert(id, cached(id, retain_until));
    }
    assert_eq!(cache.len(), 3);
    cache.make_room(4);
    assert_eq!(cache.len(), 3);
    cache.make_room(3);
    assert_eq!(cache.len(), 2);
    assert!(cache.get(2).is_none());
    cache.retain(20);
    assert_eq!(cache.len(), 2);
    cache.retain(21);
    assert!(cache.get(3).is_none());
    assert_eq!(cache.get(1).unwrap().response.request_id, 1);
}
