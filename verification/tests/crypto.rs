use agent_wallet::crypto::{
    address, address_from_hash, address_from_point, eoa_signature, generate_private_key, point_to_text, public_key,
    recover_address, sign_digest, validate_private_key,
};
use agent_wallet::Error;
use k256::ecdsa::{RecoveryId, Signature, VerifyingKey};
use sha3::{Digest, Keccak256};

const GENERATOR: &str = "0x0479be667ef9dcbbac55a06295ce870b07029bfcdb2dce28d959f2815b16f81798483ada7726a3c4655da4fbfc0e1108a8fd17b448a68554199c47d08ffb10d4b8";

fn key_one() -> Vec<u8> {
    let mut key = vec![0_u8; 32];
    key[31] = 1;
    key
}

#[test]
fn generated_key_signs_recoverable_digest() {
    let private_key = generate_private_key();
    let digest = Keccak256::digest(b"wallet-test");
    let signature = sign_digest(private_key.as_slice(), &digest).unwrap();
    assert!(matches!(signature[64], 27 | 28));

    let compact = Signature::try_from(&signature[..64]).unwrap();
    let recovery_id = RecoveryId::try_from(signature[64] - 27).unwrap();
    let recovered = VerifyingKey::recover_from_prehash(&digest, &compact, recovery_id).unwrap();
    assert_eq!(
        address(private_key.as_slice()).unwrap(),
        address_from_point(recovered.to_encoded_point(false).as_bytes())
    );
}

#[test]
fn rejects_non_32_byte_digest() {
    let private_key = generate_private_key();
    assert!(sign_digest(private_key.as_slice(), b"not-a-digest").is_err());
}

#[test]
fn digest_is_checked_before_the_key() {
    assert!(
        matches!(sign_digest(&[0; 32], b"short"), Err(Error::InvalidRequest(message)) if message == "EIP-712 digest must be 32 bytes")
    );
    assert!(matches!(sign_digest(&[0; 32], &[1; 32]), Err(Error::InvalidKey(_))));
}

#[test]
fn generated_keys_are_valid_and_differ() {
    let first = generate_private_key();
    let second = generate_private_key();
    assert!(validate_private_key(first.as_slice()).is_ok());
    assert_ne!(first.as_slice(), second.as_slice());
}

#[test]
fn private_keys_are_below_the_group_order() {
    assert!(
        matches!(validate_private_key(&[1; 31]), Err(Error::InvalidKey(message)) if message == "secp256k1 private key must be 32 bytes")
    );
    assert!(matches!(validate_private_key(&[0; 32]), Err(Error::InvalidKey(message)) if message == "signature error"));
    let order = hex::decode("fffffffffffffffffffffffffffffffebaaedce6af48a03bbfd25e8cd0364141").unwrap();
    assert!(matches!(validate_private_key(&order), Err(Error::InvalidKey(_))));
    let mut below = order;
    below[31] -= 1;
    assert!(validate_private_key(&below).is_ok());
    assert!(matches!(address(&[0xff; 32]), Err(Error::InvalidKey(_))));
    assert!(matches!(public_key(&[0xff; 33]), Err(Error::InvalidKey(_))));
}

#[test]
fn identity_of_the_first_key() {
    assert_eq!(public_key(&key_one()).unwrap(), GENERATOR);
    assert_eq!(
        address(&key_one()).unwrap(),
        "0x7e5f4552091a69125d5dfcb7b8c2659029395bdf"
    );
}

#[test]
fn known_account_and_signature() {
    let key = hex::decode("4c0883a69102937d6231471b5dbb6204fe5129617082792ae468d01a3f362318").unwrap();
    assert_eq!(
        address(&key).unwrap(),
        "0x2c7536e3605d9c16a7a3d7b1898e529396a65c23"
    );
    let message = hex::decode(
        "e9808504e3b29200831e848094f0109fc8df283027b6285cc889f5aa624eac1f55843b9aca0080018080",
    )
    .unwrap();
    let digest = Keccak256::digest(message);
    let signature = sign_digest(&key, &digest).unwrap();
    assert_eq!(
        hex::encode(signature),
        "c9cf86333bcb065d140032ecaab5d9281bde80f21b9687b3e94161de42d51895727a108a0b8d101465414033c3f705a9c7b826e596766046ee1183dbc8aeaa681b"
    );
    assert_eq!(
        recover_address(&digest, &signature).as_deref(),
        Some("0x2c7536e3605d9c16a7a3d7b1898e529396a65c23")
    );
}

#[test]
fn recovery_refuses_what_is_no_signature() {
    let digest = [5_u8; 32];
    let signature = sign_digest(&key_one(), &digest).unwrap();
    assert!(recover_address(&digest, &signature).is_some());
    assert!(recover_address(&digest, &signature[..64]).is_none());
    let mut zero = signature;
    zero[..64].fill(0);
    assert!(recover_address(&digest, &zero).is_none());
    let mut unknown = signature;
    unknown[64] = 31;
    assert!(recover_address(&digest, &unknown).is_none());
    unknown[64] = 26;
    assert!(recover_address(&digest, &unknown).is_none());
    assert_ne!(
        recover_address(&[6; 32], &signature),
        recover_address(&digest, &signature)
    );
}

#[test]
fn texts_of_given_bytes() {
    let mut hash = [0_u8; 32];
    for (i, byte) in hash.iter_mut().enumerate() {
        *byte = u8::try_from(i).unwrap();
    }
    assert_eq!(address_from_hash(&hash), "0x0c0d0e0f101112131415161718191a1b1c1d1e1f");
    assert_eq!(point_to_text(&[4, 0xab, 0]), "0x04ab00");
    let signature = eoa_signature(&[9; 64], 1);
    assert_eq!(signature[..64], [9; 64]);
    assert_eq!(signature[64], 28);
}
