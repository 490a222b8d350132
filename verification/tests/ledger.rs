use voting_ledger::api::cast_vote;
use voting_ledger::state::State;
use voting_ledger::types::{VoteChoice, VoteError};

fn add_simple(state: &mut State, caller: &str, now: u64, title: &str) -> String {
    state.add_proposal(
        caller,
        now,
        title.to_string(),
        format!("{} description", title),
        None,
        30,
        None,
        None,
        None,
        None,
    )
}

#[test]
fn budget_scenario_two_voters_then_repeat() {
    let mut state = State::new();
    let id = add_simple(&mut state, "creator", 1_700_000_000, "Budget 2025");

    let r1 = cast_vote(&mut state, &id, &"A".to_string(), VoteChoice::Yes);
    assert_eq!(r1, Ok(()));
    let r2 = cast_vote(&mut state, &id, &"B".to_string(), VoteChoice::No);
    assert_eq!(r2, Ok(()));

    let p = state.get_proposal_by_id(&id).unwrap();
    assert_eq!(p.tally.yes, 1);
    assert_eq!(p.tally.no, 1);

    let r3 = cast_vote(&mut state, &id, &"A".to_string(), VoteChoice::Yes);
    assert_eq!(r3, Err(VoteError::AlreadyVoted));

    let p = state.get_proposal_by_id(&id).unwrap();
    assert_eq!(p.tally.yes, 1);
    assert_eq!(p.tally.no, 1);
    assert_eq!(p.voters.len(), 2);
}

#[test]
fn double_vote_counts_once() {
    let mut state = State::new();
    let id = add_simple(&mut state, "creator", 7, "One");
    assert_eq!(
        state.vote_proposal(&id, "v".to_string(), VoteChoice::No),
        Ok(())
    );
    assert_eq!(
        state.vote_proposal(&id, "v".to_string(), VoteChoice::No),
        Err(VoteError::AlreadyVoted)
    );
    assert_eq!(
        state.vote_proposal(&id, "v".to_string(), VoteChoice::Yes),
        Err(VoteError::AlreadyVoted)
    );
    let p = state.get_proposal_by_id(&id).unwrap();
    assert_eq!(p.tally.yes, 0);
    assert_eq!(p.tally.no, 1);
    assert_eq!(p.voters, vec!["v".to_string()]);
}

#[test]
fn vote_on_missing_proposal_is_rejected() {
    let mut state = State::new();
    let id = add_simple(&mut state, "creator", 7, "Only");
    let r = state.vote_proposal(&"nope".to_string(), "v".to_string(), VoteChoice::Yes);
    assert_eq!(r, Err(VoteError::ProposalNotFound));
    // nothing changed
    let all = state.get_proposals();
    assert_eq!(all.len(), 1);
    assert_eq!(all[0].id, id);
    assert_eq!(all[0].tally.yes, 0);
    assert_eq!(all[0].tally.no, 0);
    assert_eq!(all[0].voters.len(), 0);
}

#[test]
fn empty_voter_identity_is_rejected() {
    let mut state = State::new();
    let id = add_simple(&mut state, "creator", 7, "Only");
    let r = cast_vote(&mut state, &id, &String::new(), VoteChoice::Yes);
    assert_eq!(r, Err(VoteError::InvalidIdentity));
    let p = state.get_proposal_by_id(&id).unwrap();
    assert_eq!(p.tally.yes, 0);
    assert_eq!(p.voters.len(), 0);
}

#[test]
fn delete_removes_and_second_delete_fails() {
    let mut state = State::new();
    let id1 = add_simple(&mut state, "creator", 1, "First");
    let id2 = add_simple(&mut state, "creator", 2, "Second");
    assert!(state.delete_proposal(&id1).is_ok());
    assert!(state.get_proposal_by_id(&id1).is_none());
    assert!(state.delete_proposal(&id1).is_err());
    // the other proposal is untouched
    let p2 = state.get_proposal_by_id(&id2).unwrap();
    assert_eq!(p2.title, "Second");
    assert_eq!(state.get_proposals().len(), 1);
}

#[test]
fn stats_over_two_proposals() {
    let mut state = State::new();
    let id1 = add_simple(&mut state, "creator", 1, "First");
    let id2 = add_simple(&mut state, "creator", 2, "Second");
    assert!(state
        .vote_proposal(&id1, "a".to_string(), VoteChoice::Yes)
        .is_ok());
    assert!(state
        .vote_proposal(&id1, "b".to_string(), VoteChoice::Yes)
        .is_ok());
    assert!(state
        .vote_proposal(&id1, "c".to_string(), VoteChoice::No)
        .is_ok());
    assert!(state
        .vote_proposal(&id2, "a".to_string(), VoteChoice::No)
        .is_ok());
    assert!(state
        .vote_proposal(&id2, "b".to_string(), VoteChoice::No)
        .is_ok());
    assert!(state
        .vote_proposal(&id2, "c".to_string(), VoteChoice::No)
        .is_ok());
    let stats = state.get_proposal_stats();
    assert_eq!(stats.total_proposals, 2);
    assert_eq!(stats.total_yes_votes, 2);
    assert_eq!(stats.total_no_votes, 4);
    assert_eq!(stats.total_votes, 6);
}

#[test]
fn stats_of_empty_state_are_zero() {
    let state = State::new();
    let stats = state.get_proposal_stats();
    assert_eq!(stats.total_proposals, 0);
    assert_eq!(stats.total_yes_votes, 0);
    assert_eq!(stats.total_no_votes, 0);
    assert_eq!(stats.total_votes, 0);
}

#[test]
fn proposals_filtered_by_user_id() {
    let mut state = State::new();
    let _ = state.add_proposal(
        "creator",
        1,
        "Mine".to_string(),
        "d".to_string(),
        None,
        7,
        None,
        None,
        None,
        Some("user-1".to_string()),
    );
    let _ = state.add_proposal(
        "creator",
        2,
        "Theirs".to_string(),
        "d".to_string(),
        None,
        7,
        None,
        None,
        None,
        Some("user-2".to_string()),
    );
    let _ = add_simple(&mut state, "creator", 3, "Nobody's");
    let mine = state.get_proposal_by_user_id(&"user-1".to_string());
    assert_eq!(mine.len(), 1);
    assert_eq!(mine[0].title, "Mine");
    let none = state.get_proposal_by_user_id(&"user-3".to_string());
    assert_eq!(none.len(), 0);
}

#[test]
fn profiles_are_stored_and_listed() {
    let mut state = State::new();
    let id = state.create_profile(
        "caller",
        5,
        "Ada Lovelace".to_string(),
        "ada@example.com".to_string(),
        None,
        Some("London".to_string()),
        None,
        Some("mathematician".to_string()),
    );
    let users = state.get_users();
    assert_eq!(users.len(), 1);
    assert_eq!(users[0].id, id);
    assert_eq!(users[0].fullname, "Ada Lovelace");
    assert_eq!(users[0].email, "ada@example.com");
    assert_eq!(users[0].location, Some("London".to_string()));
    assert_eq!(users[0].website, None);
}

#[test]
fn creation_metadata_is_kept() {
    let mut state = State::new();
    let id = state.add_proposal(
        "creator",
        1_700_000_123,
        "Full".to_string(),
        "short".to_string(),
        Some("https://example.com/x.png".to_string()),
        90,
        Some("long text".to_string()),
        Some("finance".to_string()),
        Some("Ada".to_string()),
        Some("user-9".to_string()),
    );
    let p = state.get_proposal_by_id(&id).unwrap();
    assert_eq!(p.id, id);
    assert_eq!(p.title, "Full");
    assert_eq!(p.description, "short");
    assert_eq!(p.image_url, Some("https://example.com/x.png".to_string()));
    assert_eq!(p.full_description, Some("long text".to_string()));
    assert_eq!(p.category, Some("finance".to_string()));
    assert_eq!(p.author, Some("Ada".to_string()));
    assert_eq!(p.user_id, Some("user-9".to_string()));
    assert_eq!(p.status, None);
    assert_eq!(p.created_at, 1_700_000_123);
    assert_eq!(p.duration_days, 90);
}

#[test]
fn created_ids_are_distinct_across_calls() {
    let mut state = State::new();
    // identical caller and time: the tie-breaking counter still separates them
    let id1 = add_simple(&mut state, "creator", 7, "First");
    let id2 = add_simple(&mut state, "creator", 7, "Second");
    assert_ne!(id1, id2);
    assert_eq!(state.get_proposals().len(), 2);
}
