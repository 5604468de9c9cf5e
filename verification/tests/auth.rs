use all_llama_proxy::auth::{UserEntry, UserRegistry};
use sha2::{Digest, Sha256};

fn make_registry(users: Vec<(&str, &str, bool)>) -> UserRegistry {
    UserRegistry::load(Some(
        users
            .into_iter()
            .map(|(h, u, v)| UserEntry {
                token_hash: h.to_string(),
                user_id: u.to_string(),
                vip: v,
            })
            .collect(),
    ))
}

fn sha256_hex(s: &str) -> String {
    let digest = Sha256::digest(s.as_bytes());
    digest.iter().map(|b| format!("{:02x}", b)).collect()
}

#[test]
fn known_token_matches() {
    let registry = make_registry(vec![(sha256_hex("").as_str(), "alice", false)]);
    let result = registry.authenticate("");
    assert_eq!(result, Some("alice"));
}

#[test]
fn unknown_token_rejected() {
    let registry = make_registry(vec![(sha256_hex("").as_str(), "alice", false)]);
    let result = registry.authenticate("wrong-token");
    assert!(result.is_none());
}

#[test]
fn case_insensitive_hash() {
    let registry = make_registry(vec![(
        sha256_hex("").to_uppercase().as_str(),
        "alice",
        false,
    )]);
    let result = registry.authenticate("");
    assert_eq!(result, Some("alice"));
}

#[test]
fn empty_registry_rejects_all() {
    let registry = UserRegistry::empty();
    let result = registry.authenticate("any-token");
    assert!(result.is_none());
}

#[test]
fn empty_list_rejects_all() {
    let registry = make_registry(vec![]);
    let result = registry.authenticate("any-token");
    assert!(result.is_none());
}

#[test]
fn multiple_users_only_one_match() {
    let registry = make_registry(vec![
        (sha256_hex("alice-token").as_str(), "alice", false),
        (sha256_hex("bob-token").as_str(), "bob", false),
        (sha256_hex("charlie-token").as_str(), "charlie", true),
    ]);
    let result = registry.authenticate("bob-token");
    assert_eq!(result, Some("bob"));
}

#[test]
fn vip_users_returned() {
    let registry = make_registry(vec![
        (sha256_hex("alice-token").as_str(), "alice", false),
        (sha256_hex("bob-token").as_str(), "bob", true),
        (sha256_hex("charlie-token").as_str(), "charlie", true),
    ]);
    let vip = registry.get_vip_users();
    assert_eq!(vip.len(), 2);
    assert!(vip.contains(&"bob".to_string()));
    assert!(vip.contains(&"charlie".to_string()));
}

#[test]
fn no_users_vip_returns_empty() {
    let registry = make_registry(vec![]);
    let vip = registry.get_vip_users();
    assert!(vip.is_empty());
}

#[test]
fn missing_file_rejects_all() {
    let registry = UserRegistry::load(None);
    assert!(registry.authenticate("").is_none());
    assert!(registry.get_vip_users().is_empty());
}

#[test]
fn shared_hash_is_rejected() {
    let hash = sha256_hex("token");
    let registry = make_registry(vec![(&hash, "alice", false), (&hash, "bob", false)]);
    assert!(registry.authenticate("token").is_none());
}

#[test]
fn known_digest_of_a_known_text() {
    assert_eq!(
        all_llama_proxy::digest::digest_of("abc"),
        "ba7816bf8f01cfea414140de5dae2223b00361a396177a9cb410ff61f20015ad"
    );
    assert_eq!(
        all_llama_proxy::digest::digest_of(""),
        "e3b0c44298fc1c149afbf4c8996fb92427ae41e4649b934ca495991b7852b855"
    );
}

#[test]
fn hash_of_other_length_is_rejected() {
    let hash = sha256_hex("token");
    let registry = make_registry(vec![(&hash[..63], "alice", false)]);
    assert!(registry.authenticate("token").is_none());
    assert_eq!(registry.user_of_hash(&hash[..63]), Some("alice"));
}

#[test]
fn hex_has_two_digits_per_byte() {
    assert_eq!(all_llama_proxy::digest::hex_text(&[0, 15, 16, 255]), "000f10ff");
}
