//! The storage key from the guest agent, and field elements.

use guardian::dstack::{
    derive_key, key_request, load_dstack_provider, KEY_PURPOSE, SOCKET_PATH,
};
use guardian::felt::{felt_from_u64_reduced, FIELD_ORDER};
use guardian::key_provider::{InMemoryKeyProvider, KeyProviderError};
use guardian::secret::{FixedKey, SecretBytes};
use vstd::hash_map::StringHashMap;
use miden_protocol::Felt;

fn derived(bytes: Option<Vec<u8>>) -> Result<SecretBytes, KeyProviderError> {
    match bytes {
        Some(bytes) => Ok(SecretBytes::new(bytes)),
        None => Err(KeyProviderError::DstackUnavailable("stub".to_string())),
    }
}

fn loaded(bytes: Vec<u8>) -> InMemoryKeyProvider {
    match load_dstack_provider("guardian/storage", derived(Some(bytes))) {
        Ok(provider) => provider,
        Err(_) => panic!("the key is valid"),
    }
}

#[test]
fn derives_provider_keyed_by_path() {
    let provider = loaded(vec![7u8; 32]);
    assert_eq!(provider.active_key_id(), "dstack:guardian/storage");
    match provider.key("dstack:guardian/storage") {
        Ok(key) => assert_eq!(key.expose_secret(), &[7u8; 32]),
        Err(_) => panic!("the key is there"),
    }
}

#[test]
fn rejects_wrong_key_length() {
    for length in [0usize, 16, 31, 33, 64] {
        let result = load_dstack_provider("guardian/storage", derived(Some(vec![7u8; length])));
        assert!(matches!(result, Err(KeyProviderError::InvalidKeyLength)));
    }
}

#[test]
fn propagates_agent_failure() {
    let result = load_dstack_provider("guardian/storage", derived(None));
    assert!(matches!(result, Err(KeyProviderError::DstackUnavailable(text)) if text == "stub"));
}

#[test]
fn unknown_kid_is_error() {
    let provider = loaded(vec![7u8; 32]);
    assert!(provider.key("dstack:other").is_err());
    assert!(matches!(
        provider.key("dstack:other"),
        Err(KeyProviderError::UnknownKey(kid)) if kid == "dstack:other"
    ));
}

#[test]
fn the_bytes_of_the_key_keep_their_order() {
    let bytes: Vec<u8> = (0u8..32).collect();
    let provider = loaded(bytes.clone());
    match provider.key("dstack:guardian/storage") {
        Ok(key) => assert_eq!(key.expose_secret().as_slice(), bytes.as_slice()),
        Err(_) => panic!("the key is there"),
    }
}

#[test]
fn an_active_key_has_to_be_among_the_keys() {
    let result = InMemoryKeyProvider::new("kid".to_string(), StringHashMap::new());
    assert!(matches!(result, Err(KeyProviderError::UnknownKey(kid)) if kid == "kid"));

    let mut keys = StringHashMap::new();
    keys.insert("kid".to_string(), FixedKey::new([1; 32]));
    keys.insert("old".to_string(), FixedKey::new([2; 32]));
    match InMemoryKeyProvider::new("kid".to_string(), keys) {
        Ok(provider) => {
            assert_eq!(provider.active_key_id(), "kid");
            assert!(matches!(provider.key("old"), Ok(key) if key.expose_secret() == &[2; 32]));
        }
        Err(_) => panic!("the active key is there"),
    }
}

#[test]
fn the_guest_agent_is_asked_for_the_storage_key() {
    let request = key_request("guardian/storage");
    assert_eq!(request.path, "guardian/storage");
    assert_eq!(request.purpose, "storage-encryption");
    assert_eq!(KEY_PURPOSE, "storage-encryption");
    assert_eq!(SOCKET_PATH, "/var/run/dstack.sock");
}

#[test]
fn the_answer_of_the_guest_agent_is_hexadecimal() {
    match derive_key(Ok("00fFAb".to_string())) {
        Ok(secret) => assert_eq!(secret.expose_secret(), [0x00u8, 0xff, 0xab].as_slice()),
        Err(_) => panic!("this is valid"),
    }
    let unavailable = |answer: Result<String, String>| match derive_key(answer) {
        Err(KeyProviderError::DstackUnavailable(text)) => text,
        _ => panic!("this has to fail"),
    };
    assert_eq!(unavailable(Err("no socket".to_string())), "no socket");
    assert_eq!(
        unavailable(Ok("abc".to_string())),
        "malformed key hex: Odd number of digits"
    );
    assert_eq!(
        unavailable(Ok(" 0a0b0".to_string())),
        "malformed key hex: Invalid character ' ' at position 0"
    );
    assert_eq!(
        unavailable(Ok("0a0b\n0".to_string())),
        "malformed key hex: Invalid character '\\n' at position 4"
    );
}

#[test]
fn different_paths_give_different_key_ids() {
    let id = |path: &str| match load_dstack_provider(path, derived(Some(vec![1u8; 32]))) {
        Ok(provider) => provider.active_key_id().to_string(),
        Err(_) => panic!("the key is valid"),
    };
    assert_eq!(id(""), "dstack:");
    assert_ne!(id("a"), id("b"));
}

#[test]
fn words_are_reduced_modulo_the_field_order() {
    assert_eq!(FIELD_ORDER, Felt::ORDER);
    assert_eq!(FIELD_ORDER, 18446744069414584321);
    let canonical = |value: u64| felt_from_u64_reduced(value).as_canonical_u64();
    assert_eq!(canonical(0), 0);
    assert_eq!(canonical(FIELD_ORDER - 1), FIELD_ORDER - 1);
    assert_eq!(canonical(FIELD_ORDER), 0);
    assert_eq!(canonical(FIELD_ORDER + 5), 5);
    assert_eq!(canonical(u64::MAX), 4294967294);
    assert_eq!(felt_from_u64_reduced(u64::MAX), Felt::new(4294967294));
    assert_eq!(felt_from_u64_reduced(FIELD_ORDER + 7), felt_from_u64_reduced(7));
    assert_ne!(felt_from_u64_reduced(FIELD_ORDER + 7), felt_from_u64_reduced(8));
}
