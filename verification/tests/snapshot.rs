use voting_ledger::codec::{deserialize, restore, serialize};
use voting_ledger::state::State;
use voting_ledger::types::{Proposal, VoteChoice, Votes};

fn populated_state() -> State {
    let mut state = State::new();
    let id1 = state.add_proposal(
        "alice",
        1_700_000_000,
        "Budget 2025".to_string(),
        "next year's budget".to_string(),
        Some("https://example.com/budget.png".to_string()),
        30,
        Some("a much longer text".to_string()),
        Some("finance".to_string()),
        Some("Alice".to_string()),
        Some("user-1".to_string()),
    );
    let _id2 = state.add_proposal(
        "bob",
        1_700_000_001,
        "Naming".to_string(),
        "rename the office plant".to_string(),
        None,
        7,
        None,
        None,
        None,
        None,
    );
    assert!(state
        .vote_proposal(&id1, "voter-a".to_string(), VoteChoice::Yes)
        .is_ok());
    assert!(state
        .vote_proposal(&id1, "voter-b".to_string(), VoteChoice::No)
        .is_ok());
    let _ = state.create_profile(
        "carol",
        1_700_000_002,
        "Carol".to_string(),
        "carol@example.com".to_string(),
        None,
        Some("Berlin".to_string()),
        Some("https://carol.example".to_string()),
        None,
    );
    state
}

fn assert_states_equal(a: &State, b: &State) {
    assert_eq!(a.next_seq, b.next_seq);
    assert_eq!(a.proposals.len(), b.proposals.len());
    for (p, q) in a.proposals.iter().zip(b.proposals.iter()) {
        assert_eq!(p.id, q.id);
        assert_eq!(p.title, q.title);
        assert_eq!(p.description, q.description);
        assert_eq!(p.image_url, q.image_url);
        assert_eq!(p.full_description, q.full_description);
        assert_eq!(p.category, q.category);
        assert_eq!(p.author, q.author);
        assert_eq!(p.status, q.status);
        assert_eq!(p.user_id, q.user_id);
        assert_eq!(p.created_at, q.created_at);
        assert_eq!(p.duration_days, q.duration_days);
        assert_eq!(p.tally, q.tally);
        assert_eq!(p.voters, q.voters);
    }
    assert_eq!(a.users.len(), b.users.len());
    for (u, v) in a.users.iter().zip(b.users.iter()) {
        assert_eq!(u.id, v.id);
        assert_eq!(u.fullname, v.fullname);
        assert_eq!(u.email, v.email);
        assert_eq!(u.image_url, v.image_url);
        assert_eq!(u.location, v.location);
        assert_eq!(u.website, v.website);
        assert_eq!(u.bio, v.bio);
    }
}

#[test]
fn round_trip_of_populated_state() {
    let state = populated_state();
    let bytes = serialize(&state);
    let back = deserialize(&bytes).unwrap();
    assert_states_equal(&state, &back);
}

#[test]
fn round_trip_of_empty_state() {
    let state = State::new();
    let bytes = serialize(&state);
    let back = deserialize(&bytes).unwrap();
    assert_states_equal(&state, &back);
}

#[test]
fn round_trip_keeps_non_ascii_text() {
    let mut state = State::new();
    let _ = state.add_proposal(
        "zoë",
        1,
        "Grüße 🗳".to_string(),
        "überraschend präzise".to_string(),
        None,
        7,
        None,
        None,
        Some("ßœ∂".to_string()),
        None,
    );
    let bytes = serialize(&state);
    let back = deserialize(&bytes).unwrap();
    assert_states_equal(&state, &back);
}

#[test]
fn truncated_snapshot_is_rejected() {
    let state = populated_state();
    let mut bytes = serialize(&state);
    bytes.truncate(bytes.len() - 1);
    assert!(deserialize(&bytes).is_err());
}

#[test]
fn trailing_garbage_is_rejected() {
    let state = populated_state();
    let mut bytes = serialize(&state);
    bytes.push(0);
    assert!(deserialize(&bytes).is_err());
}

#[test]
fn empty_bytes_are_rejected() {
    let bytes: Vec<u8> = Vec::new();
    assert!(deserialize(&bytes).is_err());
}

#[test]
fn restore_falls_back_to_empty_state() {
    // no snapshot at all
    let s0 = restore(None);
    assert_eq!(s0.proposals.len(), 0);
    assert_eq!(s0.users.len(), 0);
    assert_eq!(s0.next_seq, 0);
    // corrupt snapshot
    let garbage: Vec<u8> = vec![1, 2, 3, 4, 5];
    let s1 = restore(Some(&garbage));
    assert_eq!(s1.proposals.len(), 0);
    assert_eq!(s1.users.len(), 0);
}

#[test]
fn restore_of_valid_snapshot_brings_the_state_back() {
    let state = populated_state();
    let bytes = serialize(&state);
    let back = restore(Some(&bytes));
    assert_states_equal(&state, &back);
}

#[test]
fn restore_rejects_a_snapshot_that_breaks_the_invariant() {
    // a tally that does not match the voter set: decodes, but is not accepted
    let broken = State {
        next_seq: 3,
        proposals: vec![Proposal {
            id: "x".to_string(),
            title: "t".to_string(),
            description: "d".to_string(),
            image_url: None,
            full_description: None,
            category: None,
            author: None,
            status: None,
            user_id: None,
            created_at: 0,
            duration_days: 1,
            tally: Votes { yes: 5, no: 0 },
            voters: Vec::new(),
        }],
        users: Vec::new(),
    };
    let bytes = serialize(&broken);
    assert!(deserialize(&bytes).is_ok());
    let restored = restore(Some(&bytes));
    assert_eq!(restored.proposals.len(), 0);
    assert_eq!(restored.next_seq, 0);
}
