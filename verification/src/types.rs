//! Data model: proposals, user profiles, vote choices, errors, and the
//! mathematical views that contracts are stated over.

use vstd::prelude::*;

verus! {

/// A yes/no tally.
#[derive(Clone, Copy, PartialEq, Eq, Structural, Debug)]
pub struct Votes {
    pub yes: u64,
    pub no: u64,
}

/// The two ways to vote on a proposal.
#[derive(Clone, Copy, PartialEq, Eq, Structural, Debug)]
pub enum VoteChoice {
    Yes,
    No,
}

/// Why a vote was rejected.
#[derive(Clone, Copy, PartialEq, Eq, Structural, Debug)]
pub enum VoteError {
    /// The voter identity is malformed (empty).
    InvalidIdentity,
    /// No proposal with the given id exists.
    ProposalNotFound,
    /// The voter has already voted on this proposal.
    AlreadyVoted,
}

/// Failure of an operation that names a proposal that does not exist.
#[derive(Clone, Copy, PartialEq, Eq, Structural, Debug)]
pub struct NotFoundError;

/// Failure to decode a snapshot: corrupt or incompatible bytes.
#[derive(Clone, Copy, PartialEq, Eq, Structural, Debug)]
pub struct CodecError;

/// Aggregate counts over all proposals.
#[derive(Clone, Copy, PartialEq, Eq, Structural, Debug)]
pub struct ProposalStats {
    pub total_proposals: u64,
    pub total_yes_votes: u64,
    pub total_no_votes: u64,
    pub total_votes: u64,
}

/// A votable item: immutable descriptive fields, a tally, and the set of
/// voters who have already cast a vote (kept as a duplicate-free vector).
pub struct Proposal {
    pub id: String,
    pub title: String,
    pub description: String,
    pub image_url: Option<String>,
    pub full_description: Option<String>,
    pub category: Option<String>,
    pub author: Option<String>,
    pub status: Option<String>,
    pub user_id: Option<String>,
    pub created_at: u64,
    pub duration_days: u64,
    pub tally: Votes,
    pub voters: Vec<String>,
}

/// A registered user profile.
pub struct User {
    pub id: String,
    pub fullname: String,
    pub email: String,
    pub image_url: Option<String>,
    pub location: Option<String>,
    pub website: Option<String>,
    pub bio: Option<String>,
}

/// Mathematical model of a proposal.
#[verifier::ext_equal]
pub ghost struct ProposalView {
    pub id: Seq<char>,
    pub title: Seq<char>,
    pub description: Seq<char>,
    pub image_url: Option<Seq<char>>,
    pub full_description: Option<Seq<char>>,
    pub category: Option<Seq<char>>,
    pub author: Option<Seq<char>>,
    pub status: Option<Seq<char>>,
    pub user_id: Option<Seq<char>>,
    pub created_at: u64,
    pub duration_days: u64,
    pub yes: nat,
    pub no: nat,
    pub voters: Seq<Seq<char>>,
}

/// Mathematical model of a user profile.
#[verifier::ext_equal]
pub ghost struct UserView {
    pub id: Seq<char>,
    pub fullname: Seq<char>,
    pub email: Seq<char>,
    pub image_url: Option<Seq<char>>,
    pub location: Option<Seq<char>>,
    pub website: Option<Seq<char>>,
    pub bio: Option<Seq<char>>,
}

pub open spec fn opt_view(o: Option<String>) -> Option<Seq<char>> {
    match o {
        Some(s) => Some(s@),
        None => None,
    }
}

impl View for Proposal {
    type V = ProposalView;

    open spec fn view(&self) -> ProposalView {
        ProposalView {
            id: self.id@,
            title: self.title@,
            description: self.description@,
            image_url: opt_view(self.image_url),
            full_description: opt_view(self.full_description),
            category: opt_view(self.category),
            author: opt_view(self.author),
            status: opt_view(self.status),
            user_id: opt_view(self.user_id),
            created_at: self.created_at,
            duration_days: self.duration_days,
            yes: self.tally.yes as nat,
            no: self.tally.no as nat,
            voters: self.voters.deep_view(),
        }
    }
}

impl View for User {
    type V = UserView;

    open spec fn view(&self) -> UserView {
        UserView {
            id: self.id@,
            fullname: self.fullname@,
            email: self.email@,
            image_url: opt_view(self.image_url),
            location: opt_view(self.location),
            website: opt_view(self.website),
            bio: opt_view(self.bio),
        }
    }
}

/// No two elements are equal: the vector represents a set.
pub open spec fn seq_unique(vs: Seq<Seq<char>>) -> bool {
    forall|i: int, j: int| 0 <= i < j < vs.len() ==> vs[i] != vs[j]
}

impl ProposalView {
    /// The proposal invariant: the tally counts exactly the recorded voters,
    /// and no voter is recorded twice.
    pub open spec fn wf(self) -> bool {
        &&& self.yes + self.no == self.voters.len()
        &&& seq_unique(self.voters)
    }

    /// The proposal after one vote by `voter` with choice `c`.
    pub open spec fn voted(self, voter: Seq<char>, c: VoteChoice) -> ProposalView {
        ProposalView {
            yes: if c is Yes { self.yes + 1 } else { self.yes },
            no: if c is No { self.no + 1 } else { self.no },
            voters: self.voters.push(voter),
            ..self
        }
    }
}

pub fn clone_string(s: &String) -> (r: String)
    ensures
        r@ == s@,
{
    s.clone()
}

fn clone_opt_string(o: &Option<String>) -> (r: Option<String>)
    ensures
        opt_view(r) == opt_view(*o),
{
    match o {
        Some(s) => Some(clone_string(s)),
        None => None,
    }
}

fn clone_string_vec(v: &Vec<String>) -> (r: Vec<String>)
    ensures
        r.deep_view() == v.deep_view(),
{
    let mut out: Vec<String> = Vec::new();
    let mut i: usize = 0;
    while i < v.len()
        invariant
            i <= v@.len(),
            out@.len() == i,
            forall|k: int| 0 <= k < i ==> out@[k]@ == v@[k]@,
        decreases v@.len() - i,
    {
        out.push(clone_string(&v[i]));
        i = i + 1;
    }
    proof {
        assert forall|k: int| 0 <= k < v@.len() implies out.deep_view()[k] == v.deep_view()[k] by {
            assert(out@[k]@ == v@[k]@);
        }
        assert(out.deep_view() =~= v.deep_view());
    }
    out
}

impl Clone for Proposal {
    /// A structural copy: the model of the copy equals the model of the
    /// original.
    fn clone(&self) -> (r: Self)
        ensures
            r@ == self@,
    {
        let r = Proposal {
            id: clone_string(&self.id),
            title: clone_string(&self.title),
            description: clone_string(&self.description),
            image_url: clone_opt_string(&self.image_url),
            full_description: clone_opt_string(&self.full_description),
            category: clone_opt_string(&self.category),
            author: clone_opt_string(&self.author),
            status: clone_opt_string(&self.status),
            user_id: clone_opt_string(&self.user_id),
            created_at: self.created_at,
            duration_days: self.duration_days,
            tally: self.tally,
            voters: clone_string_vec(&self.voters),
        };
        assert(r@ =~= self@);
        r
    }
}

impl Clone for User {
    /// A structural copy: the model of the copy equals the model of the
    /// original.
    fn clone(&self) -> (r: Self)
        ensures
            r@ == self@,
    {
        let r = User {
            id: clone_string(&self.id),
            fullname: clone_string(&self.fullname),
            email: clone_string(&self.email),
            image_url: clone_opt_string(&self.image_url),
            location: clone_opt_string(&self.location),
            website: clone_opt_string(&self.website),
            bio: clone_opt_string(&self.bio),
        };
        assert(r@ =~= self@);
        r
    }
}

} // verus!
