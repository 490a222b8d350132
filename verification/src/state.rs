//! The state store: owns all proposals and user profiles, enforces the
//! duplicate-vote and unique-key invariants on every mutation, and states
//! each operation as a pure transition on the mathematical model.

use vstd::prelude::*;
use crate::ident::{new_id, spec_new_id};
use crate::types::{
    NotFoundError, Proposal, ProposalStats, ProposalView, User, UserView, seq_unique, VoteChoice,
    VoteError, Votes,
};

verus! {

/// Some proposal in `ps` carries the id `id`.
pub open spec fn contains_id(ps: Seq<ProposalView>, id: Seq<char>) -> bool {
    exists|i: int| 0 <= i < ps.len() && ps[i].id == id
}

/// The index of the proposal with id `id`; meaningful only when
/// [`contains_id`] holds and ids are unique.
pub open spec fn idx_of(ps: Seq<ProposalView>, id: Seq<char>) -> int {
    choose|i: int| 0 <= i < ps.len() && ps[i].id == id
}

/// No two proposals carry the same id.
pub open spec fn ids_unique(ps: Seq<ProposalView>) -> bool {
    forall|i: int, j: int| 0 <= i < j < ps.len() ==> ps[i].id != ps[j].id
}

/// Some profile in `us` carries the id `id`.
pub open spec fn contains_uid(us: Seq<UserView>, id: Seq<char>) -> bool {
    exists|i: int| 0 <= i < us.len() && us[i].id == id
}

/// The index of the profile with id `id`.
pub open spec fn uidx_of(us: Seq<UserView>, id: Seq<char>) -> int {
    choose|i: int| 0 <= i < us.len() && us[i].id == id
}

/// No two profiles carry the same id.
pub open spec fn uids_unique(us: Seq<UserView>) -> bool {
    forall|i: int, j: int| 0 <= i < j < us.len() ==> us[i].id != us[j].id
}

/// Mathematical model of the whole store.
#[verifier::ext_equal]
pub ghost struct StateView {
    /// Tie-breaking counter folded into every derived identifier.
    pub next_seq: u64,
    pub proposals: Seq<ProposalView>,
    pub users: Seq<UserView>,
}

impl StateView {
    /// The store invariant: unique keys, and every proposal well formed.
    pub open spec fn wf(self) -> bool {
        &&& ids_unique(self.proposals)
        &&& forall|i: int| 0 <= i < self.proposals.len() ==> (#[trigger] self.proposals[i]).wf()
        &&& uids_unique(self.users)
    }

    /// The empty store.
    pub open spec fn empty() -> StateView {
        StateView { next_seq: 0, proposals: Seq::empty(), users: Seq::empty() }
    }
}

/// The saturating increment of the tie-breaking counter.
pub open spec fn bump(n: u64) -> u64 {
    if n < u64::MAX {
        (n + 1) as u64
    } else {
        n
    }
}

/// Inserts `p` under its id: replaces the proposal that already carries the
/// id, appends otherwise.
pub open spec fn upsert_proposal(ps: Seq<ProposalView>, p: ProposalView) -> Seq<ProposalView> {
    if contains_id(ps, p.id) {
        ps.update(idx_of(ps, p.id), p)
    } else {
        ps.push(p)
    }
}

/// Inserts `u` under its id: replaces the profile that already carries the
/// id, appends otherwise.
pub open spec fn upsert_user(us: Seq<UserView>, u: UserView) -> Seq<UserView> {
    if contains_uid(us, u.id) {
        us.update(uidx_of(us, u.id), u)
    } else {
        us.push(u)
    }
}

/// A freshly created proposal: zero tally, no voters, no status.
pub open spec fn fresh_proposal(
    id: Seq<char>,
    title: Seq<char>,
    description: Seq<char>,
    image_url: Option<Seq<char>>,
    full_description: Option<Seq<char>>,
    category: Option<Seq<char>>,
    author: Option<Seq<char>>,
    user_id: Option<Seq<char>>,
    created_at: u64,
    duration_days: u64,
) -> ProposalView {
    ProposalView {
        id,
        title,
        description,
        image_url,
        full_description,
        category,
        author,
        status: None,
        user_id,
        created_at,
        duration_days,
        yes: 0,
        no: 0,
        voters: Seq::empty(),
    }
}

/// The vote transition: the new store and the result that the call returns.
pub open spec fn spec_vote(
    s: StateView,
    id: Seq<char>,
    voter: Seq<char>,
    c: VoteChoice,
) -> (StateView, Result<(), VoteError>) {
    if !contains_id(s.proposals, id) {
        (s, Err(VoteError::ProposalNotFound))
    } else {
        let i = idx_of(s.proposals, id);
        let p = s.proposals[i];
        if p.voters.contains(voter) {
            (s, Err(VoteError::AlreadyVoted))
        } else {
            (StateView { proposals: s.proposals.update(i, p.voted(voter, c)), ..s }, Ok(()))
        }
    }
}

/// The delete transition.
pub open spec fn spec_delete(s: StateView, id: Seq<char>) -> (StateView, Result<
    (),
    NotFoundError,
>) {
    if contains_id(s.proposals, id) {
        (
            StateView { proposals: s.proposals.remove(idx_of(s.proposals, id)), ..s },
            Ok(()),
        )
    } else {
        (s, Err(NotFoundError))
    }
}

/// The proposal stored under `id`, if any.
pub open spec fn spec_get(s: StateView, id: Seq<char>) -> Option<ProposalView> {
    if contains_id(s.proposals, id) {
        Some(s.proposals[idx_of(s.proposals, id)])
    } else {
        None
    }
}

/// Total yes votes over a sequence of proposals.
pub open spec fn sum_yes(ps: Seq<ProposalView>) -> nat
    decreases ps.len(),
{
    if ps.len() == 0 {
        0
    } else {
        sum_yes(ps.drop_last()) + ps.last().yes
    }
}

/// Total no votes over a sequence of proposals.
pub open spec fn sum_no(ps: Seq<ProposalView>) -> nat
    decreases ps.len(),
{
    if ps.len() == 0 {
        0
    } else {
        sum_no(ps.drop_last()) + ps.last().no
    }
}

/// The value clamped to the largest `u64`.
pub open spec fn sat64(n: nat) -> u64 {
    if n > u64::MAX {
        u64::MAX
    } else {
        n as u64
    }
}

/// An index that matches the id is the unique such index.
pub proof fn lemma_idx_at(ps: Seq<ProposalView>, id: Seq<char>, i: int)
    requires
        ids_unique(ps),
        0 <= i < ps.len(),
        ps[i].id == id,
    ensures
        contains_id(ps, id),
        idx_of(ps, id) == i,
{
    assert(contains_id(ps, id));
    let j = idx_of(ps, id);
    assert(0 <= j < ps.len() && ps[j].id == id);
    if i < j {
        assert(ps[i].id != ps[j].id);
    } else if j < i {
        assert(ps[j].id != ps[i].id);
    }
}

/// An index that matches the profile id is the unique such index.
pub proof fn lemma_uidx_at(us: Seq<UserView>, id: Seq<char>, i: int)
    requires
        uids_unique(us),
        0 <= i < us.len(),
        us[i].id == id,
    ensures
        contains_uid(us, id),
        uidx_of(us, id) == i,
{
    assert(contains_uid(us, id));
    let j = uidx_of(us, id);
    if i < j {
        assert(us[i].id != us[j].id);
    } else if j < i {
        assert(us[j].id != us[i].id);
    }
}

/// The store: all proposals and user profiles, plus the tie-breaking
/// counter for identifier derivation.
pub struct State {
    pub next_seq: u64,
    pub proposals: Vec<Proposal>,
    pub users: Vec<User>,
}

impl View for State {
    type V = StateView;

    open spec fn view(&self) -> StateView {
        StateView {
            next_seq: self.next_seq,
            proposals: self.proposals@.map_values(|p: Proposal| p@),
            users: self.users@.map_values(|u: User| u@),
        }
    }
}

/// Whether `x` occurs in `v`.
fn vec_contains_string(v: &Vec<String>, x: &String) -> (b: bool)
    ensures
        b == v.deep_view().contains(x@),
{
    let mut i: usize = 0;
    while i < v.len()
        invariant
            i <= v@.len(),
            forall|k: int| 0 <= k < i ==> v@[k]@ != x@,
        decreases v@.len() - i,
    {
        if v[i] == *x {
            proof {
                assert(v.deep_view()[i as int] == x@);
            }
            return true;
        }
        i = i + 1;
    }
    proof {
        assert forall|k: int| 0 <= k < v.deep_view().len() implies v.deep_view()[k] != x@ by {
            assert(v@[k]@ != x@);
        }
    }
    false
}

impl State {
    /// The store invariant on the model.
    pub open spec fn wf(&self) -> bool {
        self@.wf()
    }

    /// Creates an empty store.
    pub fn new() -> (s: State)
        ensures
            s@ == StateView::empty(),
            s.wf(),
    {
        let s = State { next_seq: 0, proposals: Vec::new(), users: Vec::new() };
        proof {
            assert(s@ =~= StateView::empty());
        }
        s
    }

    /// The index of the proposal carrying `id`, if any.
    fn find_proposal(&self, id: &String) -> (r: Option<usize>)
        ensures
            match r {
                Some(i) => i < self@.proposals.len() && self@.proposals[i as int].id == id@,
                None => !contains_id(self@.proposals, id@),
            },
    {
        let mut i: usize = 0;
        while i < self.proposals.len()
            invariant
                i <= self@.proposals.len(),
                self@.proposals.len() == self.proposals@.len(),
                forall|k: int| 0 <= k < i ==> (#[trigger] self@.proposals[k]).id != id@,
            decreases self.proposals@.len() - i,
        {
            proof {
                assert(self@.proposals[i as int] == self.proposals@[i as int]@);
            }
            if self.proposals[i].id == *id {
                assert(self@.proposals[i as int].id == id@);
                return Some(i);
            }
            i = i + 1;
        }
        None
    }

    /// The index of the profile carrying `id`, if any.
    fn find_user(&self, id: &String) -> (r: Option<usize>)
        ensures
            match r {
                Some(i) => i < self@.users.len() && self@.users[i as int].id == id@,
                None => !contains_uid(self@.users, id@),
            },
    {
        let mut i: usize = 0;
        while i < self.users.len()
            invariant
                i <= self@.users.len(),
                self@.users.len() == self.users@.len(),
                forall|k: int| 0 <= k < i ==> (#[trigger] self@.users[k]).id != id@,
            decreases self.users@.len() - i,
        {
            proof {
                assert(self@.users[i as int] == self.users@[i as int]@);
            }
            if self.users[i].id == *id {
                assert(self@.users[i as int].id == id@);
                return Some(i);
            }
            i = i + 1;
        }
        None
    }

    /// Creates a proposal with a freshly derived id and inserts it; the id
    /// is returned. An id collision replaces the older proposal, as an
    /// insertion into a map does.
    pub fn add_proposal(
        &mut self,
        caller: &str,
        now: u64,
        title: String,
        description: String,
        image_url: Option<String>,
        duration_days: u64,
        full_description: Option<String>,
        category: Option<String>,
        author: Option<String>,
        user_id: Option<String>,
    ) -> (id: String)
        requires
            old(self).wf(),
        ensures
            final(self).wf(),
            id@ == spec_new_id(caller@, now, old(self)@.next_seq),
            final(self)@ == (StateView {
                next_seq: bump(old(self)@.next_seq),
                proposals: upsert_proposal(
                    old(self)@.proposals,
                    fresh_proposal(
                        id@,
                        title@,
                        description@,
                        crate::types::opt_view(image_url),
                        crate::types::opt_view(full_description),
                        crate::types::opt_view(category),
                        crate::types::opt_view(author),
                        crate::types::opt_view(user_id),
                        now,
                        duration_days,
                    ),
                ),
                users: old(self)@.users,
            }),
    {
        let id = new_id(caller, now, self.next_seq);
        let ghost pv = fresh_proposal(
            id@,
            title@,
            description@,
            crate::types::opt_view(image_url),
            crate::types::opt_view(full_description),
            crate::types::opt_view(category),
            crate::types::opt_view(author),
            crate::types::opt_view(user_id),
            now,
            duration_days,
        );
        let proposal = Proposal {
            id: crate::types::clone_string(&id),
            title,
            description,
            image_url,
            full_description,
            category,
            author,
            status: None,
            user_id,
            created_at: now,
            duration_days,
            tally: Votes { yes: 0, no: 0 },
            voters: Vec::new(),
        };
        assert(proposal@ =~= pv);
        if self.next_seq < u64::MAX {
            self.next_seq = self.next_seq + 1;
        }
        match self.find_proposal(&proposal.id) {
            Some(i) => {
                proof {
                    lemma_idx_at(self@.proposals, pv.id, i as int);
                }
                self.proposals.remove(i);
                self.proposals.insert(i, proposal);
                proof {
                    assert(self@.proposals =~= upsert_proposal(old(self)@.proposals, pv));
                    assert(self@ =~= (StateView {
                        next_seq: bump(old(self)@.next_seq),
                        proposals: upsert_proposal(old(self)@.proposals, pv),
                        users: old(self)@.users,
                    }));
                }
            },
            None => {
                self.proposals.push(proposal);
                proof {
                    assert(self@.proposals =~= upsert_proposal(old(self)@.proposals, pv));
                    assert(self@ =~= (StateView {
                        next_seq: bump(old(self)@.next_seq),
                        proposals: upsert_proposal(old(self)@.proposals, pv),
                        users: old(self)@.users,
                    }));
                }
            },
        }
        proof {
            lemma_upsert_wf(old(self)@.proposals, pv);
        }
        id
    }

    /// Records one vote. Fails with `ProposalNotFound` when no proposal
    /// carries `id`, with `AlreadyVoted` when `voter` has voted on it
    /// before; otherwise increments the chosen counter and records the
    /// voter, atomically.
    pub fn vote_proposal(&mut self, id: &String, voter: String, choice: VoteChoice) -> (r: Result<
        (),
        VoteError,
    >)
        requires
            old(self).wf(),
        ensures
            final(self).wf(),
            (final(self)@, r) == spec_vote(old(self)@, id@, voter@, choice),
    {
        match self.find_proposal(id) {
            None => Err(VoteError::ProposalNotFound),
            Some(i) => {
                proof {
                    lemma_idx_at(self@.proposals, id@, i as int);
                }
                if vec_contains_string(&self.proposals[i].voters, &voter) {
                    assert(self@.proposals[i as int].voters.contains(voter@));
                    Err(VoteError::AlreadyVoted)
                } else {
                    assert(!self@.proposals[i as int].voters.contains(voter@));
                    let ghost oldp = self@.proposals[i as int];
                    let mut p = self.proposals.remove(i);
                    assert(p@ == oldp);
                    let ghost voterv = voter@;
                    p.voters.push(voter);
                    let n = p.voters.len();
    proof {
                        let dv = p.voters.deep_view();
                        let pushed = oldp.voters.push(voterv);
                        assert forall|k: int| 0 <= k < dv.len() implies dv[k] == pushed[k] by {
                            assert(dv[k] == p.voters@[k]@);
                        }
                        assert(p.voters.deep_view() =~= oldp.voters.push(voterv));
                    }
                    proof {
                        assert(oldp.wf());
                        assert(oldp.yes + oldp.no == oldp.voters.len());
                        assert(n == oldp.voters.len() + 1);
                    }
                    match choice {
                        VoteChoice::Yes => {
                            p.tally.yes = p.tally.yes + 1;
                        },
                        VoteChoice::No => {
                            p.tally.no = p.tally.no + 1;
                        },
                    }
                    assert(p@ =~= oldp.voted(voterv, choice));
                    self.proposals.insert(i, p);
                    proof {
                        assert(self@.proposals =~= old(self)@.proposals.update(
                            i as int,
                            oldp.voted(voterv, choice),
                        ));
                        assert(self@ =~= spec_vote(old(self)@, id@, voterv, choice).0);
                        lemma_voted_wf(oldp, voterv, choice);
                        assert(self.wf());
                    }
                    Ok(())
                }
            },
        }
    }

    /// Removes the proposal carrying `id`; fails when none does.
    pub fn delete_proposal(&mut self, id: &String) -> (r: Result<(), NotFoundError>)
        requires
            old(self).wf(),
        ensures
            final(self).wf(),
            (final(self)@, r) == spec_delete(old(self)@, id@),
    {
        match self.find_proposal(id) {
            None => Err(NotFoundError),
            Some(i) => {
                proof {
                    lemma_idx_at(self@.proposals, id@, i as int);
                }
                self.proposals.remove(i);
                proof {
                    assert(self@.proposals =~= old(self)@.proposals.remove(i as int));
                    assert(self@ =~= spec_delete(old(self)@, id@).0);
                }
                Ok(())
            },
        }
    }

    /// All proposals, in insertion order.
    pub fn get_proposals(&self) -> (r: Vec<Proposal>)
        ensures
            r@.len() == self@.proposals.len(),
            forall|i: int| 0 <= i < r@.len() ==> (#[trigger] r@[i])@ == self@.proposals[i],
    {
        let mut out: Vec<Proposal> = Vec::new();
        let mut i: usize = 0;
        while i < self.proposals.len()
            invariant
                i <= self.proposals@.len(),
                self@.proposals.len() == self.proposals@.len(),
                out@.len() == i,
                forall|k: int| 0 <= k < i ==> (#[trigger] out@[k])@ == self@.proposals[k],
            decreases self.proposals@.len() - i,
        {
            out.push(self.proposals[i].clone());
            i = i + 1;
        }
        out
    }

    /// The proposal carrying `id`, if any.
    pub fn get_proposal_by_id(&self, id: &String) -> (r: Option<Proposal>)
        requires
            self.wf(),
        ensures
            match r {
                Some(p) => spec_get(self@, id@) == Some(p@),
                None => spec_get(self@, id@) is None,
            },
    {
        match self.find_proposal(id) {
            None => None,
            Some(i) => {
                proof {
                    lemma_idx_at(self@.proposals, id@, i as int);
                }
                Some(self.proposals[i].clone())
            },
        }
    }

    /// All proposals tagged with the given author id, in insertion order.
    pub fn get_proposal_by_user_id(&self, user_id: &String) -> (r: Vec<Proposal>)
        ensures
            r@.map_values(|p: Proposal| p@) == self@.proposals.filter(
                |p: ProposalView| p.user_id == Some(user_id@),
            ),
    {
        let ghost pred = |p: ProposalView| p.user_id == Some(user_id@);
        let mut out: Vec<Proposal> = Vec::new();
        let mut i: usize = 0;
        while i < self.proposals.len()
            invariant
                i <= self.proposals@.len(),
                self@.proposals.len() == self.proposals@.len(),
                pred == (|p: ProposalView| p.user_id == Some(user_id@)),
                out@.map_values(|p: Proposal| p@) =~= self@.proposals.take(i as int).filter(pred),
            decreases self.proposals@.len() - i,
        {
            let ghost prefix = self@.proposals.take(i as int);
            let ghost prefix1 = self@.proposals.take(i as int + 1);
            proof {
                assert(self@.proposals[i as int] == self.proposals@[i as int]@);
                assert(prefix1.drop_last() =~= prefix);
                assert(prefix1.last() == self@.proposals[i as int]);
                reveal(Seq::filter);
            }
            let mut matches_user: bool = false;
            match &self.proposals[i].user_id {
                Some(u) => {
                    proof {
                        assert(crate::types::opt_view(self.proposals@[i as int].user_id) == Some(
                            u@,
                        ));
                    }
                    if *u == *user_id {
                        matches_user = true;
                    }
                },
                None => {},
            }
            assert(matches_user == pred(self@.proposals[i as int]));
            if matches_user {
                out.push(self.proposals[i].clone());
            }
            proof {
                assert(out@.map_values(|p: Proposal| p@) =~= self@.proposals.take(
                    i as int + 1,
                ).filter(pred));
            }
            i = i + 1;
        }
        proof {
            assert(self@.proposals.take(self@.proposals.len() as int) =~= self@.proposals);
        }
        out
    }

    /// Aggregate counts over the current proposals; each total saturates at
    /// the largest `u64`.
    pub fn get_proposal_stats(&self) -> (r: ProposalStats)
        ensures
            r.total_proposals == self@.proposals.len(),
            r.total_yes_votes == sat64(sum_yes(self@.proposals)),
            r.total_no_votes == sat64(sum_no(self@.proposals)),
            r.total_votes == sat64(sum_yes(self@.proposals) + sum_no(self@.proposals)),
    {
        let mut yes: u64 = 0;
        let mut no: u64 = 0;
        let mut i: usize = 0;
        while i < self.proposals.len()
            invariant
                i <= self.proposals@.len(),
                self@.proposals.len() == self.proposals@.len(),
                yes == sat64(sum_yes(self@.proposals.take(i as int))),
                no == sat64(sum_no(self@.proposals.take(i as int))),
            decreases self.proposals@.len() - i,
        {
            let ghost prefix = self@.proposals.take(i as int);
            let ghost prefix1 = self@.proposals.take(i as int + 1);
            proof {
                assert(prefix1.drop_last() =~= prefix);
                assert(prefix1.last() == self@.proposals[i as int]);
            }
            yes = yes.saturating_add(self.proposals[i].tally.yes);
            no = no.saturating_add(self.proposals[i].tally.no);
            i = i + 1;
        }
        proof {
            assert(self@.proposals.take(self@.proposals.len() as int) =~= self@.proposals);
        }
        let total = yes.saturating_add(no);
        ProposalStats {
            total_proposals: self.proposals.len() as u64,
            total_yes_votes: yes,
            total_no_votes: no,
            total_votes: total,
        }
    }

    /// Creates a user profile with a freshly derived id and inserts it; the
    /// id is returned.
    pub fn create_profile(
        &mut self,
        caller: &str,
        now: u64,
        fullname: String,
        email: String,
        image_url: Option<String>,
        location: Option<String>,
        website: Option<String>,
        bio: Option<String>,
    ) -> (id: String)
        requires
            old(self).wf(),
        ensures
            final(self).wf(),
            id@ == spec_new_id(caller@, now, old(self)@.next_seq),
            final(self)@ == (StateView {
                next_seq: bump(old(self)@.next_seq),
                proposals: old(self)@.proposals,
                users: upsert_user(
                    old(self)@.users,
                    UserView {
                        id: id@,
                        fullname: fullname@,
                        email: email@,
                        image_url: crate::types::opt_view(image_url),
                        location: crate::types::opt_view(location),
                        website: crate::types::opt_view(website),
                        bio: crate::types::opt_view(bio),
                    },
                ),
            }),
    {
        let id = new_id(caller, now, self.next_seq);
        let ghost uv = UserView {
            id: id@,
            fullname: fullname@,
            email: email@,
            image_url: crate::types::opt_view(image_url),
            location: crate::types::opt_view(location),
            website: crate::types::opt_view(website),
            bio: crate::types::opt_view(bio),
        };
        let user = User {
            id: crate::types::clone_string(&id),
            fullname,
            email,
            image_url,
            location,
            website,
            bio,
        };
        assert(user@ =~= uv);
        if self.next_seq < u64::MAX {
            self.next_seq = self.next_seq + 1;
        }
        match self.find_user(&user.id) {
            Some(i) => {
                proof {
                    lemma_uidx_at(self@.users, uv.id, i as int);
                }
                self.users.remove(i);
                self.users.insert(i, user);
                proof {
                    assert(self@.users =~= upsert_user(old(self)@.users, uv));
                    assert(self@ =~= (StateView {
                        next_seq: bump(old(self)@.next_seq),
                        proposals: old(self)@.proposals,
                        users: upsert_user(old(self)@.users, uv),
                    }));
                }
            },
            None => {
                self.users.push(user);
                proof {
                    assert(self@.users =~= upsert_user(old(self)@.users, uv));
                    assert(self@ =~= (StateView {
                        next_seq: bump(old(self)@.next_seq),
                        proposals: old(self)@.proposals,
                        users: upsert_user(old(self)@.users, uv),
                    }));
                }
            },
        }
        proof {
            lemma_upsert_user_wf(old(self)@.users, uv);
        }
        id
    }

    /// All user profiles, in insertion order.
    pub fn get_users(&self) -> (r: Vec<User>)
        ensures
            r@.len() == self@.users.len(),
            forall|i: int| 0 <= i < r@.len() ==> (#[trigger] r@[i])@ == self@.users[i],
    {
        let mut out: Vec<User> = Vec::new();
        let mut i: usize = 0;
        while i < self.users.len()
            invariant
                i <= self.users@.len(),
                self@.users.len() == self.users@.len(),
                out@.len() == i,
                forall|k: int| 0 <= k < i ==> (#[trigger] out@[k])@ == self@.users[k],
            decreases self.users@.len() - i,
        {
            out.push(self.users[i].clone());
            i = i + 1;
        }
        out
    }
}

/// A well-formed proposal stays well formed after a first vote by `voter`.
pub proof fn lemma_voted_wf(p: ProposalView, voter: Seq<char>, c: VoteChoice)
    requires
        p.wf(),
        !p.voters.contains(voter),
    ensures
        p.voted(voter, c).wf(),
{
    let q = p.voted(voter, c);
    assert forall|i: int, j: int| 0 <= i < j < q.voters.len() implies q.voters[i] != q.voters[j]
        by {
        if j == q.voters.len() - 1 {
            assert(q.voters[i] == p.voters[i]);
            if q.voters[i] == voter {
                assert(p.voters.contains(voter));
            }
        }
    }
}

/// Upserting a well-formed fresh proposal preserves the store invariant on
/// the proposal table.
pub proof fn lemma_upsert_wf(ps: Seq<ProposalView>, p: ProposalView)
    requires
        ids_unique(ps),
        forall|i: int| 0 <= i < ps.len() ==> (#[trigger] ps[i]).wf(),
        p.wf(),
    ensures
        ids_unique(upsert_proposal(ps, p)),
        forall|i: int|
            0 <= i < upsert_proposal(ps, p).len() ==> (#[trigger] upsert_proposal(ps, p)[i]).wf(),
{
    let out = upsert_proposal(ps, p);
    if contains_id(ps, p.id) {
        let k = idx_of(ps, p.id);
        assert(0 <= k < ps.len() && ps[k].id == p.id);
        assert forall|i: int, j: int| 0 <= i < j < out.len() implies out[i].id != out[j].id by {
            assert(ps[i].id != ps[j].id);
        }
    } else {
        assert forall|i: int, j: int| 0 <= i < j < out.len() implies out[i].id != out[j].id by {
            if j < ps.len() {
                assert(ps[i].id != ps[j].id);
            } else {
                if out[i].id == p.id {
                    assert(contains_id(ps, p.id));
                }
            }
        }
    }
}

/// Upserting a profile preserves the unique-key invariant on the profile
/// table.
pub proof fn lemma_upsert_user_wf(us: Seq<UserView>, u: UserView)
    requires
        uids_unique(us),
    ensures
        uids_unique(upsert_user(us, u)),
{
    let out = upsert_user(us, u);
    if contains_uid(us, u.id) {
        let k = uidx_of(us, u.id);
        assert(0 <= k < us.len() && us[k].id == u.id);
        assert forall|i: int, j: int| 0 <= i < j < out.len() implies out[i].id != out[j].id by {
            assert(us[i].id != us[j].id);
        }
    } else {
        assert forall|i: int, j: int| 0 <= i < j < out.len() implies out[i].id != out[j].id by {
            if j < us.len() {
                assert(us[i].id != us[j].id);
            } else {
                if out[i].id == u.id {
                    assert(contains_uid(us, u.id));
                }
            }
        }
    }
}

/// The tally of every well-formed proposal counts exactly its voters, after
/// any sequence of transitions that preserve well-formedness; in
/// particular, a vote preserves it.
pub proof fn lemma_vote_preserves_wf(s: StateView, id: Seq<char>, voter: Seq<char>, c: VoteChoice)
    requires
        s.wf(),
    ensures
        spec_vote(s, id, voter, c).0.wf(),
        forall|i: int|
            0 <= i < spec_vote(s, id, voter, c).0.proposals.len() ==> {
                let p = #[trigger] spec_vote(s, id, voter, c).0.proposals[i];
                p.yes + p.no == p.voters.len()
            },
{
    let s1 = spec_vote(s, id, voter, c).0;
    if contains_id(s.proposals, id) {
        let i = idx_of(s.proposals, id);
        let p = s.proposals[i];
        if !p.voters.contains(voter) {
            lemma_voted_wf(p, voter, c);
            assert forall|a: int, b: int|
                0 <= a < b < s1.proposals.len() implies s1.proposals[a].id != s1.proposals[b].id
                by {
                assert(s.proposals[a].id != s.proposals[b].id);
            }
        }
    }
    assert forall|i: int| 0 <= i < s1.proposals.len() implies (#[trigger] s1.proposals[i]).wf()
        by {}
}

/// A second vote by the same voter on the same proposal is rejected with
/// `AlreadyVoted` and leaves the store unchanged, and the first vote added
/// exactly one vote by that voter to that proposal's tally.
pub proof fn lemma_vote_once(
    s: StateView,
    id: Seq<char>,
    voter: Seq<char>,
    c1: VoteChoice,
    c2: VoteChoice,
)
    requires
        s.wf(),
        spec_vote(s, id, voter, c1).1 is Ok,
    ensures
        ({
            let s1 = spec_vote(s, id, voter, c1).0;
            &&& spec_vote(s1, id, voter, c2) == (s1, Err::<(), VoteError>(VoteError::AlreadyVoted))
            &&& spec_get(s1, id) == Some(spec_get(s, id).unwrap().voted(voter, c1))
        }),
{
    let s1 = spec_vote(s, id, voter, c1).0;
    assert(contains_id(s.proposals, id));
    let i = idx_of(s.proposals, id);
    let p = s.proposals[i];
    assert(!p.voters.contains(voter));
    let q = p.voted(voter, c1);
    assert(s1.proposals == s.proposals.update(i, q));
    assert(s1.proposals[i] == q);
    assert(q.id == p.id);
    assert forall|a: int, b: int|
        0 <= a < b < s1.proposals.len() implies s1.proposals[a].id != s1.proposals[b].id by {
        assert(s.proposals[a].id != s.proposals[b].id);
    }
    lemma_idx_at(s1.proposals, id, i);
    assert(q.voters[q.voters.len() - 1] == voter);
    assert(q.voters.contains(voter));
    assert(spec_vote(s1, id, voter, c2) == (s1, Err::<(), VoteError>(VoteError::AlreadyVoted)));
    lemma_idx_at(s.proposals, id, i);
    assert(spec_get(s1, id) == Some(q));
}

/// A vote on an id that no proposal carries is rejected with
/// `ProposalNotFound` and leaves the store unchanged.
pub proof fn lemma_vote_missing(s: StateView, id: Seq<char>, voter: Seq<char>, c: VoteChoice)
    requires
        !contains_id(s.proposals, id),
    ensures
        spec_vote(s, id, voter, c) == (s, Err::<(), VoteError>(VoteError::ProposalNotFound)),
{
}

/// Deleting a proposal removes it — a later lookup finds nothing — and a
/// second delete of the same id fails with `NotFoundError` and leaves the
/// store unchanged.
pub proof fn lemma_delete_then_gone(s: StateView, id: Seq<char>)
    requires
        s.wf(),
        contains_id(s.proposals, id),
    ensures
        ({
            let s1 = spec_delete(s, id).0;
            &&& spec_delete(s, id).1 is Ok
            &&& spec_get(s1, id) is None
            &&& spec_delete(s1, id) == (s1, Err::<(), NotFoundError>(NotFoundError))
            &&& s1.wf()
        }),
{
    let i = idx_of(s.proposals, id);
    let s1 = spec_delete(s, id).0;
    assert(s1.proposals == s.proposals.remove(i));
    assert(s1.proposals.len() == s.proposals.len() - 1);
    assert forall|j: int| 0 <= j < s1.proposals.len() implies s1.proposals[j].id != id by {
        if j < i {
            assert(s1.proposals[j] == s.proposals[j]);
            if s.proposals[j].id == id {
                lemma_idx_at(s.proposals, id, j);
            }
        } else {
            assert(s1.proposals[j] == s.proposals[j + 1]);
            if s.proposals[j + 1].id == id {
                lemma_idx_at(s.proposals, id, j + 1);
            }
        }
    }
    assert(!contains_id(s1.proposals, id));
    assert forall|a: int, b: int|
        0 <= a < b < s1.proposals.len() implies s1.proposals[a].id != s1.proposals[b].id by {
        let a0 = if a < i {
            a
        } else {
            a + 1
        };
        let b0 = if b < i {
            b
        } else {
            b + 1
        };
        assert(s1.proposals[a] == s.proposals[a0]);
        assert(s1.proposals[b] == s.proposals[b0]);
        assert(s.proposals[a0].id != s.proposals[b0].id);
    }
    assert forall|j: int| 0 <= j < s1.proposals.len() implies (#[trigger] s1.proposals[j]).wf()
        by {
        if j < i {
            assert(s1.proposals[j] == s.proposals[j]);
        } else {
            assert(s1.proposals[j] == s.proposals[j + 1]);
        }
    }
}


/// Whether the proposal satisfies its invariant: the tally counts exactly
/// the recorded voters and no voter is recorded twice.
fn check_proposal_wf(p: &Proposal) -> (b: bool)
    ensures
        b == p@.wf(),
{
    let n = p.voters.len();
    let sum: u128 = p.tally.yes as u128 + p.tally.no as u128;
    if sum != n as u128 {
        return false;
    }
    let mut i: usize = 0;
    while i < n
        invariant
            n == p.voters@.len(),
            p@.voters.len() == n,
            i <= n,
            p@.yes + p@.no == n,
            forall|a: int, b2: int| 0 <= a < b2 < i ==> p@.voters[a] != p@.voters[b2],
        decreases n - i,
    {
        let mut j: usize = 0;
        while j < i
            invariant
                n == p.voters@.len(),
                p@.voters.len() == n,
                j <= i < n,
                forall|a: int| 0 <= a < j ==> p@.voters[a] != p@.voters[i as int],
            decreases i - j,
        {
            proof {
                assert(p@.voters[j as int] == p.voters@[j as int]@);
                assert(p@.voters[i as int] == p.voters@[i as int]@);
            }
            if p.voters[j] == p.voters[i] {
                assert(!crate::types::seq_unique(p@.voters));
                return false;
            }
            j = j + 1;
        }
        i = i + 1;
    }
    proof {
        assert(crate::types::seq_unique(p@.voters));
    }
    true
}

impl State {
    /// Whether the whole store satisfies its invariant; a decoded snapshot
    /// is accepted only when this holds.
    pub fn check_wf(&self) -> (b: bool)
        ensures
            b == self@.wf(),
    {
        let np = self.proposals.len();
        let mut i: usize = 0;
        while i < np
            invariant
                np == self.proposals@.len(),
                self@.proposals.len() == np,
                i <= np,
                forall|a: int, b2: int|
                    0 <= a < b2 < i ==> (#[trigger] self@.proposals[a]).id != (
                    #[trigger] self@.proposals[b2]).id,
                forall|a: int| 0 <= a < i ==> (#[trigger] self@.proposals[a]).wf(),
            decreases np - i,
        {
            proof {
                assert(self@.proposals[i as int] == self.proposals@[i as int]@);
            }
            let mut j: usize = 0;
            while j < i
                invariant
                    np == self.proposals@.len(),
                    self@.proposals.len() == np,
                    j <= i < np,
                    forall|a: int|
                        0 <= a < j ==> (#[trigger] self@.proposals[a]).id
                            != self@.proposals[i as int].id,
                decreases i - j,
            {
                proof {
                    assert(self@.proposals[j as int] == self.proposals@[j as int]@);
                    assert(self@.proposals[i as int] == self.proposals@[i as int]@);
                }
                if self.proposals[j].id == self.proposals[i].id {
                    assert(self@.proposals[j as int].id == self@.proposals[i as int].id);
                    assert(!ids_unique(self@.proposals));
                    return false;
                }
                j = j + 1;
            }
            if !check_proposal_wf(&self.proposals[i]) {
                assert(!(#[trigger] self@.proposals[i as int]).wf());
                return false;
            }
            i = i + 1;
        }
        let nu = self.users.len();
        let mut k: usize = 0;
        while k < nu
            invariant
                nu == self.users@.len(),
                self@.users.len() == nu,
                k <= nu,
                np == self.proposals@.len(),
                self@.proposals.len() == np,
                ids_unique(self@.proposals),
                forall|a: int| 0 <= a < np ==> (#[trigger] self@.proposals[a]).wf(),
                forall|a: int, b2: int|
                    0 <= a < b2 < k ==> (#[trigger] self@.users[a]).id != (
                    #[trigger] self@.users[b2]).id,
            decreases nu - k,
        {
            let mut j: usize = 0;
            while j < k
                invariant
                    nu == self.users@.len(),
                    self@.users.len() == nu,
                    j <= k < nu,
                    forall|a: int|
                        0 <= a < j ==> (#[trigger] self@.users[a]).id != self@.users[k as int].id,
                decreases k - j,
            {
                proof {
                    assert(self@.users[j as int] == self.users@[j as int]@);
                    assert(self@.users[k as int] == self.users@[k as int]@);
                }
                if self.users[j].id == self.users[k].id {
                    assert(self@.users[j as int].id == self@.users[k as int].id);
                    assert(!uids_unique(self@.users));
                    return false;
                }
                j = j + 1;
            }
            k = k + 1;
        }
        proof {
            assert(ids_unique(self@.proposals));
            assert(uids_unique(self@.users));
        }
        true
    }
}



} // verus!
