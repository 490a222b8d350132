//! The thin translation layer: checks argument shapes before handing plain
//! values to the store, and adds nothing else.

use vstd::prelude::*;
use vstd::string::StrSliceExecFns;
use crate::state::{spec_vote, State};
use crate::types::{clone_string, VoteChoice, VoteError};

verus! {

/// An identity string is acceptable when it is non-empty; beyond that it is
/// opaque to the core.
pub open spec fn identity_valid(s: Seq<char>) -> bool {
    s.len() > 0
}

/// Checks the shape of an identity string.
pub fn check_identity(s: &String) -> (b: bool)
    ensures
        b == identity_valid(s@),
{
    s.as_str().unicode_len() > 0
}

/// Casts a vote: rejects a malformed voter identity before touching the
/// store; otherwise behaves exactly as the store's vote transition.
pub fn cast_vote(state: &mut State, id: &String, voter: &String, choice: VoteChoice) -> (r: Result<
    (),
    VoteError,
>)
    requires
        old(state).wf(),
    ensures
        final(state).wf(),
        !identity_valid(voter@) ==> r == Err::<(), VoteError>(VoteError::InvalidIdentity)
            && final(state)@ == old(state)@,
        identity_valid(voter@) ==> (final(state)@, r) == spec_vote(
            old(state)@,
            id@,
            voter@,
            choice,
        ),
{
    if !check_identity(voter) {
        return Err(VoteError::InvalidIdentity);
    }
    state.vote_proposal(id, clone_string(voter), choice)
}

} // verus!
