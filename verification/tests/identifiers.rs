use sha2::{Digest, Sha256};
use voting_ledger::ident::new_id;
use voting_ledger::state::State;

fn expected_id(caller: &str, now: u64, nonce: u64) -> String {
    let input = format!("{}-{}-{}", caller, now, nonce);
    let mut hasher = Sha256::new();
    hasher.update(input.as_bytes());
    let digest = hasher.finalize();
    hex::encode(&digest[..16])
}

#[test]
fn id_matches_truncated_sha256_hex() {
    assert_eq!(new_id("alice", 42, 0), expected_id("alice", 42, 0));
    assert_eq!(
        new_id("w3gef-owner", 1_700_000_000, 17),
        expected_id("w3gef-owner", 1_700_000_000, 17)
    );
    assert_eq!(new_id("", 0, 0), expected_id("", 0, 0));
}

#[test]
fn id_handles_non_ascii_callers() {
    assert_eq!(new_id("zoë-🗳", 9, 2), expected_id("zoë-🗳", 9, 2));
}

#[test]
fn id_is_32_lowercase_hex_characters() {
    let id = new_id("caller", 123_456_789, 7);
    assert_eq!(id.len(), 32);
    assert!(id.chars().all(|c| c.is_ascii_hexdigit() && !c.is_ascii_uppercase()));
}

#[test]
fn id_is_deterministic_and_input_sensitive() {
    assert_eq!(new_id("a", 1, 2), new_id("a", 1, 2));
    assert_ne!(new_id("a", 1, 2), new_id("a", 1, 3));
    assert_ne!(new_id("a", 1, 2), new_id("b", 1, 2));
    assert_ne!(new_id("a", 1, 2), new_id("a", 2, 2));
}

#[test]
fn created_proposal_uses_the_derived_id() {
    let mut state = State::new();
    let id = state.add_proposal(
        "alice",
        42,
        "t".to_string(),
        "d".to_string(),
        None,
        1,
        None,
        None,
        None,
        None,
    );
    // the store's counter starts at zero and feeds the derivation
    assert_eq!(id, expected_id("alice", 42, 0));
    let id2 = state.create_profile(
        "alice",
        42,
        "Alice".to_string(),
        "alice@example.com".to_string(),
        None,
        None,
        None,
        None,
    );
    assert_eq!(id2, expected_id("alice", 42, 1));
}
