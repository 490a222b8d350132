//! The snapshot codec: a lossless byte representation of the whole store.
//!
//! Every integer is eight little-endian bytes; every string is its byte
//! length followed by its UTF-8 bytes; every optional string is a one-byte
//! tag followed by the string when present; every table is its length
//! followed by its rows. Decoding checks every length and the UTF-8
//! validity of every string, and a decoded store is checked against the
//! store invariant before it is accepted.

use vstd::prelude::*;
use vstd::bytes::{
    lemma_auto_spec_u64_to_from_le_bytes, spec_u64_from_le_bytes, spec_u64_to_le_bytes,
    u64_from_le_bytes, u64_to_le_bytes,
};
use vstd::slice::{slice_subrange, slice_to_vec};
use vstd::string::StrSliceExecFns;
use vstd::string::StringSliceAdditionalSpecFns;
use vstd::utf8::{
    decode_utf8, encode_utf8, encode_utf8_decode_utf8, encode_utf8_valid_utf8, valid_utf8,
};
use crate::state::{State, StateView};
use crate::types::{CodecError, Proposal, ProposalView, User, UserView, Votes};

verus! {

/// Eight little-endian bytes.
pub open spec fn enc_u64(x: u64) -> Seq<u8> {
    spec_u64_to_le_bytes(x)
}

/// Byte length, then the UTF-8 bytes.
pub open spec fn enc_str(s: Seq<char>) -> Seq<u8> {
    enc_u64(encode_utf8(s).len() as u64) + encode_utf8(s)
}

/// A presence tag, then the string when present.
pub open spec fn enc_opt_str(o: Option<Seq<char>>) -> Seq<u8> {
    match o {
        None => seq![0u8],
        Some(s) => seq![1u8] + enc_str(s),
    }
}

/// The strings, one after the other.
pub open spec fn enc_strs(vs: Seq<Seq<char>>) -> Seq<u8>
    decreases vs.len(),
{
    if vs.len() == 0 {
        Seq::empty()
    } else {
        enc_str(vs[0]) + enc_strs(vs.drop_first())
    }
}

/// All fields of a proposal, in a fixed order; the voter table last, with
/// its length in front.
pub open spec fn enc_proposal(p: ProposalView) -> Seq<u8> {
    enc_str(p.id) + enc_str(p.title) + enc_str(p.description) + enc_opt_str(p.image_url)
        + enc_opt_str(p.full_description) + enc_opt_str(p.category) + enc_opt_str(p.author)
        + enc_opt_str(p.status) + enc_opt_str(p.user_id) + enc_u64(p.created_at) + enc_u64(
        p.duration_days,
    ) + enc_u64(p.yes as u64) + enc_u64(p.no as u64) + enc_u64(p.voters.len() as u64) + enc_strs(
        p.voters,
    )
}

/// The proposals, one after the other.
pub open spec fn enc_proposals(ps: Seq<ProposalView>) -> Seq<u8>
    decreases ps.len(),
{
    if ps.len() == 0 {
        Seq::empty()
    } else {
        enc_proposal(ps[0]) + enc_proposals(ps.drop_first())
    }
}

/// All fields of a profile, in a fixed order.
pub open spec fn enc_user(u: UserView) -> Seq<u8> {
    enc_str(u.id) + enc_str(u.fullname) + enc_str(u.email) + enc_opt_str(u.image_url)
        + enc_opt_str(u.location) + enc_opt_str(u.website) + enc_opt_str(u.bio)
}

/// The profiles, one after the other.
pub open spec fn enc_users(us: Seq<UserView>) -> Seq<u8>
    decreases us.len(),
{
    if us.len() == 0 {
        Seq::empty()
    } else {
        enc_user(us[0]) + enc_users(us.drop_first())
    }
}

/// The whole store: the counter, then each table with its length in front.
pub open spec fn spec_serialize(s: StateView) -> Seq<u8> {
    enc_u64(s.next_seq) + enc_u64(s.proposals.len() as u64) + enc_proposals(s.proposals)
        + enc_u64(s.users.len() as u64) + enc_users(s.users)
}

/// Consumes eight bytes as a little-endian integer.
pub open spec fn dec_u64(b: Seq<u8>) -> Option<(u64, Seq<u8>)> {
    if b.len() >= 8 {
        Some((spec_u64_from_le_bytes(b.take(8)), b.skip(8)))
    } else {
        None
    }
}

/// Consumes a length-prefixed UTF-8 string.
pub open spec fn dec_str(b: Seq<u8>) -> Option<(Seq<char>, Seq<u8>)> {
    match dec_u64(b) {
        None => None,
        Some((n, r)) => if r.len() >= n && valid_utf8(r.take(n as int)) {
            Some((decode_utf8(r.take(n as int)), r.skip(n as int)))
        } else {
            None
        },
    }
}

/// Consumes a tagged optional string.
pub open spec fn dec_opt_str(b: Seq<u8>) -> Option<(Option<Seq<char>>, Seq<u8>)> {
    if b.len() == 0 {
        None
    } else if b[0] == 0 {
        Some((None, b.drop_first()))
    } else if b[0] == 1 {
        match dec_str(b.drop_first()) {
            None => None,
            Some((s, r)) => Some((Some(s), r)),
        }
    } else {
        None
    }
}

/// Consumes `n` strings.
pub open spec fn dec_strs(n: nat, b: Seq<u8>) -> Option<(Seq<Seq<char>>, Seq<u8>)>
    decreases n,
{
    if n == 0 {
        Some((Seq::empty(), b))
    } else {
        match dec_str(b) {
            None => None,
            Some((s, r)) => match dec_strs((n - 1) as nat, r) {
                None => None,
                Some((ss, r2)) => Some((seq![s] + ss, r2)),
            },
        }
    }
}

/// Consumes one proposal.
#[verifier::opaque]
pub open spec fn dec_proposal(b: Seq<u8>) -> Option<(ProposalView, Seq<u8>)> {
    match dec_str(b) {
        None => None,
        Some((id, b)) => match dec_str(b) {
            None => None,
            Some((title, b)) => match dec_str(b) {
                None => None,
                Some((description, b)) => match dec_opt_str(b) {
                    None => None,
                    Some((image_url, b)) => match dec_opt_str(b) {
                        None => None,
                        Some((full_description, b)) => match dec_opt_str(b) {
                            None => None,
                            Some((category, b)) => match dec_opt_str(b) {
                                None => None,
                                Some((author, b)) => match dec_opt_str(b) {
                                    None => None,
                                    Some((status, b)) => match dec_opt_str(b) {
                                        None => None,
                                        Some((user_id, b)) => match dec_u64(b) {
                                            None => None,
                                            Some((created_at, b)) => match dec_u64(b) {
                                                None => None,
                                                Some((duration_days, b)) => match dec_u64(b) {
                                                    None => None,
                                                    Some((yes, b)) => match dec_u64(b) {
                                                        None => None,
                                                        Some((no, b)) => match dec_u64(b) {
                                                            None => None,
                                                            Some((nv, b)) => match dec_strs(
                                                                nv as nat,
                                                                b,
                                                            ) {
                                                                None => None,
                                                                Some((voters, b)) => Some(
                                                                    (
                                                                        ProposalView {
                                                                            id,
                                                                            title,
                                                                            description,
                                                                            image_url,
                                                                            full_description,
                                                                            category,
                                                                            author,
                                                                            status,
                                                                            user_id,
                                                                            created_at,
                                                                            duration_days,
                                                                            yes: yes as nat,
                                                                            no: no as nat,
                                                                            voters,
                                                                        },
                                                                        b,
                                                                    ),
                                                                ),
                                                            },
                                                        },
                                                    },
                                                },
                                            },
                                        },
                                    },
                                },
                            },
                        },
                    },
                },
            },
        },
    }
}

/// Consumes `n` proposals.
pub open spec fn dec_proposals(n: nat, b: Seq<u8>) -> Option<(Seq<ProposalView>, Seq<u8>)>
    decreases n,
{
    if n == 0 {
        Some((Seq::empty(), b))
    } else {
        match dec_proposal(b) {
            None => None,
            Some((p, r)) => match dec_proposals((n - 1) as nat, r) {
                None => None,
                Some((ps, r2)) => Some((seq![p] + ps, r2)),
            },
        }
    }
}

/// Consumes one profile.
#[verifier::opaque]
pub open spec fn dec_user(b: Seq<u8>) -> Option<(UserView, Seq<u8>)> {
    match dec_str(b) {
        None => None,
        Some((id, b)) => match dec_str(b) {
            None => None,
            Some((fullname, b)) => match dec_str(b) {
                None => None,
                Some((email, b)) => match dec_opt_str(b) {
                    None => None,
                    Some((image_url, b)) => match dec_opt_str(b) {
                        None => None,
                        Some((location, b)) => match dec_opt_str(b) {
                            None => None,
                            Some((website, b)) => match dec_opt_str(b) {
                                None => None,
                                Some((bio, b)) => Some(
                                    (
                                        UserView {
                                            id,
                                            fullname,
                                            email,
                                            image_url,
                                            location,
                                            website,
                                            bio,
                                        },
                                        b,
                                    ),
                                ),
                            },
                        },
                    },
                },
            },
        },
    }
}

/// Consumes `n` profiles.
pub open spec fn dec_users(n: nat, b: Seq<u8>) -> Option<(Seq<UserView>, Seq<u8>)>
    decreases n,
{
    if n == 0 {
        Some((Seq::empty(), b))
    } else {
        match dec_user(b) {
            None => None,
            Some((u, r)) => match dec_users((n - 1) as nat, r) {
                None => None,
                Some((us, r2)) => Some((seq![u] + us, r2)),
            },
        }
    }
}

/// Consumes a whole store.
pub open spec fn dec_state(b: Seq<u8>) -> Option<(StateView, Seq<u8>)> {
    match dec_u64(b) {
        None => None,
        Some((next_seq, b)) => match dec_u64(b) {
            None => None,
            Some((np, b)) => match dec_proposals(np as nat, b) {
                None => None,
                Some((proposals, b)) => match dec_u64(b) {
                    None => None,
                    Some((nu, b)) => match dec_users(nu as nat, b) {
                        None => None,
                        Some((users, b)) => Some((StateView { next_seq, proposals, users }, b)),
                    },
                },
            },
        },
    }
}

/// The store a byte string decodes to, when it is a complete encoding and
/// nothing follows it.
pub open spec fn spec_deserialize(b: Seq<u8>) -> Option<StateView> {
    match dec_state(b) {
        None => None,
        Some((s, r)) => if r.len() == 0 {
            Some(s)
        } else {
            None
        },
    }
}

/// The string's byte length fits the length prefix.
pub open spec fn str_fits(s: Seq<char>) -> bool {
    encode_utf8(s).len() <= u64::MAX
}

pub open spec fn opt_fits(o: Option<Seq<char>>) -> bool {
    match o {
        None => true,
        Some(s) => str_fits(s),
    }
}

/// Every count and length of the proposal fits its encoded field.
pub open spec fn proposal_fits(p: ProposalView) -> bool {
    &&& str_fits(p.id)
    &&& str_fits(p.title)
    &&& str_fits(p.description)
    &&& opt_fits(p.image_url)
    &&& opt_fits(p.full_description)
    &&& opt_fits(p.category)
    &&& opt_fits(p.author)
    &&& opt_fits(p.status)
    &&& opt_fits(p.user_id)
    &&& p.yes <= u64::MAX
    &&& p.no <= u64::MAX
    &&& p.voters.len() <= u64::MAX
    &&& forall|i: int| 0 <= i < p.voters.len() ==> str_fits(#[trigger] p.voters[i])
}

/// Every count and length of the profile fits its encoded field.
pub open spec fn user_fits(u: UserView) -> bool {
    &&& str_fits(u.id)
    &&& str_fits(u.fullname)
    &&& str_fits(u.email)
    &&& opt_fits(u.image_url)
    &&& opt_fits(u.location)
    &&& opt_fits(u.website)
    &&& opt_fits(u.bio)
}

/// Every count and length of the store fits its encoded field. Every store
/// held in memory fits.
pub open spec fn state_fits(s: StateView) -> bool {
    &&& s.proposals.len() <= u64::MAX
    &&& forall|i: int| 0 <= i < s.proposals.len() ==> proposal_fits(#[trigger] s.proposals[i])
    &&& s.users.len() <= u64::MAX
    &&& forall|i: int| 0 <= i < s.users.len() ==> user_fits(#[trigger] s.users[i])
}

/// Concatenation of byte strings is associative.
proof fn seq_assoc(a: Seq<u8>, b: Seq<u8>, c: Seq<u8>)
    ensures
        (a + b) + c == a + (b + c),
{
    assert((a + b) + c =~= a + (b + c));
}

pub proof fn lemma_dec_enc_u64(x: u64, rest: Seq<u8>)
    ensures
        dec_u64(enc_u64(x) + rest) == Some((x, rest)),
{
    lemma_auto_spec_u64_to_from_le_bytes();
    let b = enc_u64(x) + rest;
    assert(b.take(8) =~= enc_u64(x));
    assert(b.skip(8) =~= rest);
}

pub proof fn lemma_dec_enc_str(s: Seq<char>, rest: Seq<u8>)
    requires
        str_fits(s),
    ensures
        dec_str(enc_str(s) + rest) == Some((s, rest)),
{
    let bytes = encode_utf8(s);
    let n = bytes.len() as u64;
    let tail = bytes + rest;
    assert(enc_str(s) + rest =~= enc_u64(n) + tail);
    lemma_dec_enc_u64(n, tail);
    assert(tail.take(n as int) =~= bytes);
    assert(tail.skip(n as int) =~= rest);
    encode_utf8_valid_utf8(s);
    encode_utf8_decode_utf8(s);
}

pub proof fn lemma_dec_enc_opt_str(o: Option<Seq<char>>, rest: Seq<u8>)
    requires
        opt_fits(o),
    ensures
        dec_opt_str(enc_opt_str(o) + rest) == Some((o, rest)),
{
    match o {
        None => {
            let b = enc_opt_str(o) + rest;
            assert(b[0] == 0);
            assert(b.drop_first() =~= rest);
        },
        Some(s) => {
            let b = enc_opt_str(o) + rest;
            assert(b[0] == 1);
            assert(b.drop_first() =~= enc_str(s) + rest);
            lemma_dec_enc_str(s, rest);
        },
    }
}

pub proof fn lemma_dec_enc_strs(vs: Seq<Seq<char>>, rest: Seq<u8>)
    requires
        forall|i: int| 0 <= i < vs.len() ==> str_fits(#[trigger] vs[i]),
    ensures
        dec_strs(vs.len(), enc_strs(vs) + rest) == Some((vs, rest)),
    decreases vs.len(),
{
    if vs.len() == 0 {
        assert(enc_strs(vs) + rest =~= rest);
        assert(vs =~= Seq::<Seq<char>>::empty());
    } else {
        let tail = enc_strs(vs.drop_first()) + rest;
        assert(enc_strs(vs) + rest =~= enc_str(vs[0]) + tail);
        lemma_dec_enc_str(vs[0], tail);
        lemma_dec_enc_strs(vs.drop_first(), rest);
        assert(seq![vs[0]] + vs.drop_first() =~= vs);
    }
}

#[verifier::rlimit(50)]
pub proof fn lemma_dec_enc_proposal(p: ProposalView, rest: Seq<u8>)
    requires
        proposal_fits(p),
    ensures
        dec_proposal(enc_proposal(p) + rest) == Some((p, rest)),
{
    reveal(dec_proposal);
    let e1 = enc_str(p.id);
    let e2 = enc_str(p.title);
    let e3 = enc_str(p.description);
    let e4 = enc_opt_str(p.image_url);
    let e5 = enc_opt_str(p.full_description);
    let e6 = enc_opt_str(p.category);
    let e7 = enc_opt_str(p.author);
    let e8 = enc_opt_str(p.status);
    let e9 = enc_opt_str(p.user_id);
    let e10 = enc_u64(p.created_at);
    let e11 = enc_u64(p.duration_days);
    let e12 = enc_u64(p.yes as u64);
    let e13 = enc_u64(p.no as u64);
    let e14 = enc_u64(p.voters.len() as u64);
    let e15 = enc_strs(p.voters);
    let l2 = e1 + e2;
    let l3 = l2 + e3;
    let l4 = l3 + e4;
    let l5 = l4 + e5;
    let l6 = l5 + e6;
    let l7 = l6 + e7;
    let l8 = l7 + e8;
    let l9 = l8 + e9;
    let l10 = l9 + e10;
    let l11 = l10 + e11;
    let l12 = l11 + e12;
    let l13 = l12 + e13;
    let l14 = l13 + e14;
    let l15 = l14 + e15;
    assert(enc_proposal(p) == l15);
    let t15 = rest;
    let t14 = e15 + t15;
    let t13 = e14 + t14;
    let t12 = e13 + t13;
    let t11 = e12 + t12;
    let t10 = e11 + t11;
    let t9 = e10 + t10;
    let t8 = e9 + t9;
    let t7 = e8 + t8;
    let t6 = e7 + t7;
    let t5 = e6 + t6;
    let t4 = e5 + t5;
    let t3 = e4 + t4;
    let t2 = e3 + t3;
    let t1 = e2 + t2;
    let t0 = e1 + t1;
    seq_assoc(l14, e15, t15);
    seq_assoc(l13, e14, t14);
    seq_assoc(l12, e13, t13);
    seq_assoc(l11, e12, t12);
    seq_assoc(l10, e11, t11);
    seq_assoc(l9, e10, t10);
    seq_assoc(l8, e9, t9);
    seq_assoc(l7, e8, t8);
    seq_assoc(l6, e7, t7);
    seq_assoc(l5, e6, t6);
    seq_assoc(l4, e5, t5);
    seq_assoc(l3, e4, t4);
    seq_assoc(l2, e3, t3);
    seq_assoc(e1, e2, t2);
    assert(enc_proposal(p) + rest == t0);
    lemma_dec_enc_str(p.id, t1);
    lemma_dec_enc_str(p.title, t2);
    lemma_dec_enc_str(p.description, t3);
    lemma_dec_enc_opt_str(p.image_url, t4);
    lemma_dec_enc_opt_str(p.full_description, t5);
    lemma_dec_enc_opt_str(p.category, t6);
    lemma_dec_enc_opt_str(p.author, t7);
    lemma_dec_enc_opt_str(p.status, t8);
    lemma_dec_enc_opt_str(p.user_id, t9);
    lemma_dec_enc_u64(p.created_at, t10);
    lemma_dec_enc_u64(p.duration_days, t11);
    lemma_dec_enc_u64(p.yes as u64, t12);
    lemma_dec_enc_u64(p.no as u64, t13);
    lemma_dec_enc_u64(p.voters.len() as u64, t14);
    lemma_dec_enc_strs(p.voters, t15);
    assert(((p.voters.len() as u64) as nat) == p.voters.len());
    let q = dec_proposal(t0).unwrap().0;
    assert(q =~= p);
}

pub proof fn lemma_dec_enc_proposals(ps: Seq<ProposalView>, rest: Seq<u8>)
    requires
        forall|i: int| 0 <= i < ps.len() ==> proposal_fits(#[trigger] ps[i]),
    ensures
        dec_proposals(ps.len(), enc_proposals(ps) + rest) == Some((ps, rest)),
    decreases ps.len(),
{
    if ps.len() == 0 {
        assert(enc_proposals(ps) + rest =~= rest);
        assert(ps =~= Seq::<ProposalView>::empty());
    } else {
        let tail = enc_proposals(ps.drop_first()) + rest;
        assert(enc_proposals(ps) + rest =~= enc_proposal(ps[0]) + tail);
        lemma_dec_enc_proposal(ps[0], tail);
        lemma_dec_enc_proposals(ps.drop_first(), rest);
        assert(seq![ps[0]] + ps.drop_first() =~= ps);
    }
}

#[verifier::rlimit(50)]
pub proof fn lemma_dec_enc_user(u: UserView, rest: Seq<u8>)
    requires
        user_fits(u),
    ensures
        dec_user(enc_user(u) + rest) == Some((u, rest)),
{
    reveal(dec_user);
    let e1 = enc_str(u.id);
    let e2 = enc_str(u.fullname);
    let e3 = enc_str(u.email);
    let e4 = enc_opt_str(u.image_url);
    let e5 = enc_opt_str(u.location);
    let e6 = enc_opt_str(u.website);
    let e7 = enc_opt_str(u.bio);
    let l2 = e1 + e2;
    let l3 = l2 + e3;
    let l4 = l3 + e4;
    let l5 = l4 + e5;
    let l6 = l5 + e6;
    let l7 = l6 + e7;
    assert(enc_user(u) == l7);
    let t7 = rest;
    let t6 = e7 + t7;
    let t5 = e6 + t6;
    let t4 = e5 + t5;
    let t3 = e4 + t4;
    let t2 = e3 + t3;
    let t1 = e2 + t2;
    let t0 = e1 + t1;
    seq_assoc(l6, e7, t7);
    seq_assoc(l5, e6, t6);
    seq_assoc(l4, e5, t5);
    seq_assoc(l3, e4, t4);
    seq_assoc(l2, e3, t3);
    seq_assoc(e1, e2, t2);
    assert(enc_user(u) + rest == t0);
    lemma_dec_enc_str(u.id, t1);
    lemma_dec_enc_str(u.fullname, t2);
    lemma_dec_enc_str(u.email, t3);
    lemma_dec_enc_opt_str(u.image_url, t4);
    lemma_dec_enc_opt_str(u.location, t5);
    lemma_dec_enc_opt_str(u.website, t6);
    lemma_dec_enc_opt_str(u.bio, t7);
    let q = dec_user(t0).unwrap().0;
    assert(q =~= u);
}

pub proof fn lemma_dec_enc_users(us: Seq<UserView>, rest: Seq<u8>)
    requires
        forall|i: int| 0 <= i < us.len() ==> user_fits(#[trigger] us[i]),
    ensures
        dec_users(us.len(), enc_users(us) + rest) == Some((us, rest)),
    decreases us.len(),
{
    if us.len() == 0 {
        assert(enc_users(us) + rest =~= rest);
        assert(us =~= Seq::<UserView>::empty());
    } else {
        let tail = enc_users(us.drop_first()) + rest;
        assert(enc_users(us) + rest =~= enc_user(us[0]) + tail);
        lemma_dec_enc_user(us[0], tail);
        lemma_dec_enc_users(us.drop_first(), rest);
        assert(seq![us[0]] + us.drop_first() =~= us);
    }
}

/// The round-trip law: decoding an encoded store yields exactly that store,
/// for every store whose counts and lengths fit the format — as those of
/// every store held in memory do.
pub proof fn lemma_snapshot_round_trip(s: StateView)
    requires
        state_fits(s),
    ensures
        spec_deserialize(spec_serialize(s)) == Some(s),
{
    let e1 = enc_u64(s.next_seq);
    let e2 = enc_u64(s.proposals.len() as u64);
    let e3 = enc_proposals(s.proposals);
    let e4 = enc_u64(s.users.len() as u64);
    let e5 = enc_users(s.users);
    let l2 = e1 + e2;
    let l3 = l2 + e3;
    let l4 = l3 + e4;
    let l5 = l4 + e5;
    assert(spec_serialize(s) == l5);
    let t5 = Seq::<u8>::empty();
    let t4 = e5 + t5;
    let t3 = e4 + t4;
    let t2 = e3 + t3;
    let t1 = e2 + t2;
    let t0 = e1 + t1;
    assert(e5 + t5 =~= e5);
    seq_assoc(l4, e5, t5);
    assert(l5 + t5 =~= l5);
    seq_assoc(l3, e4, t4);
    seq_assoc(l2, e3, t3);
    seq_assoc(e1, e2, t2);
    assert(spec_serialize(s) == t0);
    lemma_dec_enc_u64(s.next_seq, t1);
    lemma_dec_enc_u64(s.proposals.len() as u64, t2);
    lemma_dec_enc_proposals(s.proposals, t3);
    lemma_dec_enc_u64(s.users.len() as u64, t4);
    lemma_dec_enc_users(s.users, t5);
    assert(((s.proposals.len() as u64) as nat) == s.proposals.len());
    assert(((s.users.len() as u64) as nat) == s.users.len());
    let q = dec_state(t0).unwrap().0;
    assert(q =~= s);
}


/// Relies on String::from_utf8 of std: succeeds exactly on valid UTF-8 and
/// returns the string those bytes encode.
#[verifier::external_body]
fn string_from_utf8(bytes: Vec<u8>) -> (r: Option<String>)
    ensures
        match r {
            Some(s) => valid_utf8(bytes@) && s@ == decode_utf8(bytes@),
            None => !valid_utf8(bytes@),
        },
{
    String::from_utf8(bytes).ok()
}

/// Appends the eight little-endian bytes of `x`.
fn write_u64(out: &mut Vec<u8>, x: u64)
    ensures
        final(out)@ == old(out)@ + enc_u64(x),
{
    let mut b = u64_to_le_bytes(x);
    out.append(&mut b);
}

/// Appends the length-prefixed UTF-8 bytes of `s`.
fn write_str(out: &mut Vec<u8>, s: &str)
    ensures
        final(out)@ == old(out)@ + enc_str(s@),
{
    let mut bv = s.as_bytes_vec();
    let n = bv.len();
    write_u64(out, n as u64);
    out.append(&mut bv);
    proof {
        assert(out@ =~= old(out)@ + enc_str(s@));
    }
}

/// Appends the tag and, when present, the string.
fn write_opt_str(out: &mut Vec<u8>, o: &Option<String>)
    ensures
        final(out)@ == old(out)@ + enc_opt_str(crate::types::opt_view(*o)),
{
    match o {
        None => {
            out.push(0);
            proof {
                assert(out@ =~= old(out)@ + enc_opt_str(crate::types::opt_view(*o)));
            }
        },
        Some(s) => {
            out.push(1);
            write_str(out, s.as_str());
            proof {
                assert(out@ =~= old(out)@ + enc_opt_str(crate::types::opt_view(*o)));
            }
        },
    }
}

/// Appends every field of the proposal.
#[verifier::rlimit(60)]
fn write_proposal(out: &mut Vec<u8>, p: &Proposal)
    ensures
        final(out)@ == old(out)@ + enc_proposal(p@),
{
    write_str(out, p.id.as_str());
    write_str(out, p.title.as_str());
    write_str(out, p.description.as_str());
    write_opt_str(out, &p.image_url);
    write_opt_str(out, &p.full_description);
    write_opt_str(out, &p.category);
    write_opt_str(out, &p.author);
    write_opt_str(out, &p.status);
    write_opt_str(out, &p.user_id);
    write_u64(out, p.created_at);
    write_u64(out, p.duration_days);
    write_u64(out, p.tally.yes);
    write_u64(out, p.tally.no);
    write_u64(out, p.voters.len() as u64);
    let ghost base = out@;
    let mut i: usize = 0;
    while i < p.voters.len()
        invariant
            i <= p.voters@.len(),
            p@.voters.len() == p.voters@.len(),
            forall|k: int| 0 <= k < p.voters@.len() ==> p@.voters[k] == p.voters@[k]@,
            out@ == base + enc_strs(p@.voters.take(i as int)),
        decreases p.voters@.len() - i,
    {
        let ghost pre = p@.voters.take(i as int);
        let ghost pre1 = p@.voters.take(i as int + 1);
        write_str(out, p.voters[i].as_str());
        proof {
            lemma_enc_strs_snoc(pre, p@.voters[i as int]);
            assert(pre.push(p@.voters[i as int]) =~= pre1);
            assert(out@ =~= base + enc_strs(pre1));
        }
        i = i + 1;
    }
    proof {
        assert(p@.voters.take(p@.voters.len() as int) =~= p@.voters);
        let o = old(out)@;
        let e1 = enc_str(p@.id);
        let e2 = enc_str(p@.title);
        let e3 = enc_str(p@.description);
        let e4 = enc_opt_str(p@.image_url);
        let e5 = enc_opt_str(p@.full_description);
        let e6 = enc_opt_str(p@.category);
        let e7 = enc_opt_str(p@.author);
        let e8 = enc_opt_str(p@.status);
        let e9 = enc_opt_str(p@.user_id);
        let e10 = enc_u64(p@.created_at);
        let e11 = enc_u64(p@.duration_days);
        let e12 = enc_u64(p@.yes as u64);
        let e13 = enc_u64(p@.no as u64);
        let e14 = enc_u64(p@.voters.len() as u64);
        let e15 = enc_strs(p@.voters);
        let l2 = e1 + e2;
        let l3 = l2 + e3;
        let l4 = l3 + e4;
        let l5 = l4 + e5;
        let l6 = l5 + e6;
        let l7 = l6 + e7;
        let l8 = l7 + e8;
        let l9 = l8 + e9;
        let l10 = l9 + e10;
        let l11 = l10 + e11;
        let l12 = l11 + e12;
        let l13 = l12 + e13;
        let l14 = l13 + e14;
        let l15 = l14 + e15;
        seq_assoc(o, e1, e2);
        seq_assoc(o, l2, e3);
        seq_assoc(o, l3, e4);
        seq_assoc(o, l4, e5);
        seq_assoc(o, l5, e6);
        seq_assoc(o, l6, e7);
        seq_assoc(o, l7, e8);
        seq_assoc(o, l8, e9);
        seq_assoc(o, l9, e10);
        seq_assoc(o, l10, e11);
        seq_assoc(o, l11, e12);
        seq_assoc(o, l12, e13);
        seq_assoc(o, l13, e14);
        seq_assoc(o, l14, e15);
        assert(enc_proposal(p@) == l15);
        assert(out@ == o + l15);
    }
}

/// Appends every field of the profile.
fn write_user(out: &mut Vec<u8>, u: &User)
    ensures
        final(out)@ == old(out)@ + enc_user(u@),
{
    write_str(out, u.id.as_str());
    write_str(out, u.fullname.as_str());
    write_str(out, u.email.as_str());
    write_opt_str(out, &u.image_url);
    write_opt_str(out, &u.location);
    write_opt_str(out, &u.website);
    write_opt_str(out, &u.bio);
    proof {
        assert(out@ =~= old(out)@ + enc_user(u@));
    }
}

/// Appending one string to the table appends its encoding to the table's.
proof fn lemma_enc_strs_snoc(vs: Seq<Seq<char>>, x: Seq<char>)
    ensures
        enc_strs(vs.push(x)) == enc_strs(vs) + enc_str(x),
    decreases vs.len(),
{
    if vs.len() == 0 {
        assert(vs.push(x).drop_first() =~= vs);
        assert(enc_strs(vs.push(x)) =~= enc_strs(vs) + enc_str(x));
    } else {
        assert(vs.push(x).drop_first() =~= vs.drop_first().push(x));
        lemma_enc_strs_snoc(vs.drop_first(), x);
        assert(enc_strs(vs.push(x)) =~= enc_strs(vs) + enc_str(x));
    }
}

/// Appending one proposal to the table appends its encoding to the table's.
proof fn lemma_enc_proposals_snoc(ps: Seq<ProposalView>, x: ProposalView)
    ensures
        enc_proposals(ps.push(x)) == enc_proposals(ps) + enc_proposal(x),
    decreases ps.len(),
{
    if ps.len() == 0 {
        assert(ps.push(x).drop_first() =~= ps);
        assert(enc_proposals(ps.push(x)) =~= enc_proposals(ps) + enc_proposal(x));
    } else {
        assert(ps.push(x).drop_first() =~= ps.drop_first().push(x));
        lemma_enc_proposals_snoc(ps.drop_first(), x);
        assert(enc_proposals(ps.push(x)) =~= enc_proposals(ps) + enc_proposal(x));
    }
}

/// Appending one profile to the table appends its encoding to the table's.
proof fn lemma_enc_users_snoc(us: Seq<UserView>, x: UserView)
    ensures
        enc_users(us.push(x)) == enc_users(us) + enc_user(x),
    decreases us.len(),
{
    if us.len() == 0 {
        assert(us.push(x).drop_first() =~= us);
        assert(enc_users(us.push(x)) =~= enc_users(us) + enc_user(x));
    } else {
        assert(us.push(x).drop_first() =~= us.drop_first().push(x));
        lemma_enc_users_snoc(us.drop_first(), x);
        assert(enc_users(us.push(x)) =~= enc_users(us) + enc_user(x));
    }
}

/// Encodes the whole store as the snapshot byte string.
pub fn serialize(s: &State) -> (out: Vec<u8>)
    ensures
        out@ == spec_serialize(s@),
{
    let mut out: Vec<u8> = Vec::new();
    write_u64(&mut out, s.next_seq);
    write_u64(&mut out, s.proposals.len() as u64);
    let ghost base_p = out@;
    let mut i: usize = 0;
    while i < s.proposals.len()
        invariant
            i <= s.proposals@.len(),
            s@.proposals.len() == s.proposals@.len(),
            forall|k: int| 0 <= k < s.proposals@.len() ==> s@.proposals[k] == s.proposals@[k]@,
            out@ == base_p + enc_proposals(s@.proposals.take(i as int)),
        decreases s.proposals@.len() - i,
    {
        let ghost pre = s@.proposals.take(i as int);
        write_proposal(&mut out, &s.proposals[i]);
        proof {
            lemma_enc_proposals_snoc(pre, s@.proposals[i as int]);
            assert(pre.push(s@.proposals[i as int]) =~= s@.proposals.take(i as int + 1));
            assert(out@ =~= base_p + enc_proposals(s@.proposals.take(i as int + 1)));
        }
        i = i + 1;
    }
    proof {
        assert(s@.proposals.take(s@.proposals.len() as int) =~= s@.proposals);
    }
    write_u64(&mut out, s.users.len() as u64);
    let ghost base_u = out@;
    let mut j: usize = 0;
    while j < s.users.len()
        invariant
            j <= s.users@.len(),
            s@.users.len() == s.users@.len(),
            forall|k: int| 0 <= k < s.users@.len() ==> s@.users[k] == s.users@[k]@,
            out@ == base_u + enc_users(s@.users.take(j as int)),
        decreases s.users@.len() - j,
    {
        let ghost pre = s@.users.take(j as int);
        write_user(&mut out, &s.users[j]);
        proof {
            lemma_enc_users_snoc(pre, s@.users[j as int]);
            assert(pre.push(s@.users[j as int]) =~= s@.users.take(j as int + 1));
            assert(out@ =~= base_u + enc_users(s@.users.take(j as int + 1)));
        }
        j = j + 1;
    }
    proof {
        assert(s@.users.take(s@.users.len() as int) =~= s@.users);
        assert(out@ =~= spec_serialize(s@));
    }
    out
}

/// Reads one little-endian integer at `pos`.
fn read_u64(bytes: &Vec<u8>, pos: usize) -> (r: Option<(u64, usize)>)
    requires
        pos <= bytes@.len(),
    ensures
        match r {
            Some(v) => pos <= v.1 <= bytes@.len() && dec_u64(bytes@.skip(pos as int)) == Some(
                (v.0, bytes@.skip(v.1 as int)),
            ),
            None => dec_u64(bytes@.skip(pos as int)) is None,
        },
{
    if bytes.len() - pos >= 8 {
        let sl = slice_subrange(bytes.as_slice(), pos, pos + 8);
        let x = u64_from_le_bytes(sl);
        proof {
            assert(bytes@.skip(pos as int).take(8) =~= bytes@.subrange(pos as int, pos as int + 8));
            assert(bytes@.skip(pos as int).skip(8) =~= bytes@.skip(pos as int + 8));
        }
        Some((x, pos + 8))
    } else {
        None
    }
}

/// Reads one length-prefixed UTF-8 string at `pos`.
fn read_str(bytes: &Vec<u8>, pos: usize) -> (r: Option<(String, usize)>)
    requires
        pos <= bytes@.len(),
    ensures
        match r {
            Some(v) => pos <= v.1 <= bytes@.len() && dec_str(bytes@.skip(pos as int)) == Some(
                (v.0@, bytes@.skip(v.1 as int)),
            ),
            None => dec_str(bytes@.skip(pos as int)) is None,
        },
{
    let (n, p1) = match read_u64(bytes, pos) {
        None => {
            return None;
        },
        Some(v) => v,
    };
    let remaining = bytes.len() - p1;
    if n <= remaining as u64 {
        let m = n as usize;
        let sl = slice_subrange(bytes.as_slice(), p1, p1 + m);
        let bv = slice_to_vec(sl);
        proof {
            assert(bv@ =~= bytes@.skip(p1 as int).take(n as int));
            assert(bytes@.skip(p1 as int).skip(n as int) =~= bytes@.skip(p1 as int + n as int));
        }
        match string_from_utf8(bv) {
            None => None,
            Some(s) => Some((s, p1 + m)),
        }
    } else {
        None
    }
}

/// Reads one tagged optional string at `pos`.
fn read_opt_str(bytes: &Vec<u8>, pos: usize) -> (r: Option<(Option<String>, usize)>)
    requires
        pos <= bytes@.len(),
    ensures
        match r {
            Some(v) => pos <= v.1 <= bytes@.len() && dec_opt_str(bytes@.skip(pos as int)) == Some(
                (crate::types::opt_view(v.0), bytes@.skip(v.1 as int)),
            ),
            None => dec_opt_str(bytes@.skip(pos as int)) is None,
        },
{
    if pos < bytes.len() {
        let tag = bytes[pos];
        proof {
            assert(bytes@.skip(pos as int)[0] == bytes@[pos as int]);
            assert(bytes@.skip(pos as int).drop_first() =~= bytes@.skip(pos as int + 1));
        }
        if tag == 0 {
            Some((None, pos + 1))
        } else if tag == 1 {
            match read_str(bytes, pos + 1) {
                None => None,
                Some((s, p2)) => Some((Some(s), p2)),
            }
        } else {
            None
        }
    } else {
        proof {
            assert(bytes@.skip(pos as int).len() == 0);
        }
        None
    }
}

/// Reads `n` strings at `pos`.
fn read_strs(bytes: &Vec<u8>, pos: usize, n: u64) -> (r: Option<(Vec<String>, usize)>)
    requires
        pos <= bytes@.len(),
    ensures
        match r {
            Some(v) => pos <= v.1 <= bytes@.len() && dec_strs(n as nat, bytes@.skip(pos as int))
                == Some((v.0.deep_view(), bytes@.skip(v.1 as int))),
            None => dec_strs(n as nat, bytes@.skip(pos as int)) is None,
        },
    decreases n,
{
    if n == 0 {
        let vs: Vec<String> = Vec::new();
        proof {
            assert(vs.deep_view() =~= Seq::<Seq<char>>::empty());
        }
        Some((vs, pos))
    } else {
        let (s, p1) = match read_str(bytes, pos) {
            None => {
                return None;
            },
            Some(v) => v,
        };
        let (mut vs, p2) = match read_strs(bytes, p1, n - 1) {
            None => {
                return None;
            },
            Some(v) => v,
        };
        let ghost tail_view = vs.deep_view();
        vs.insert(0, s);
        proof {
            assert forall|k: int| 0 <= k < vs.deep_view().len() implies vs.deep_view()[k] == (
            seq![s@] + tail_view)[k] by {
                assert(vs.deep_view()[k] == vs@[k]@);
                if k > 0 {
                    assert(vs@[k]@ == tail_view[k - 1]);
                }
            }
            assert(vs.deep_view() =~= seq![s@] + tail_view);
        }
        Some((vs, p2))
    }
}

/// Reads one proposal at `pos`.
#[verifier::rlimit(60)]
fn read_proposal(bytes: &Vec<u8>, pos: usize) -> (r: Option<(Proposal, usize)>)
    requires
        pos <= bytes@.len(),
    ensures
        match r {
            Some(v) => pos <= v.1 <= bytes@.len() && dec_proposal(bytes@.skip(pos as int)) == Some(
                (v.0@, bytes@.skip(v.1 as int)),
            ),
            None => dec_proposal(bytes@.skip(pos as int)) is None,
        },
{
    proof {
        reveal(dec_proposal);
    }
    let (id, p1) = match read_str(bytes, pos) {
        None => {
            return None;
        },
        Some(v) => v,
    };
    let (title, p2) = match read_str(bytes, p1) {
        None => {
            return None;
        },
        Some(v) => v,
    };
    let (description, p3) = match read_str(bytes, p2) {
        None => {
            return None;
        },
        Some(v) => v,
    };
    let (image_url, p4) = match read_opt_str(bytes, p3) {
        None => {
            return None;
        },
        Some(v) => v,
    };
    let (full_description, p5) = match read_opt_str(bytes, p4) {
        None => {
            return None;
        },
        Some(v) => v,
    };
    let (category, p6) = match read_opt_str(bytes, p5) {
        None => {
            return None;
        },
        Some(v) => v,
    };
    let (author, p7) = match read_opt_str(bytes, p6) {
        None => {
            return None;
        },
        Some(v) => v,
    };
    let (status, p8) = match read_opt_str(bytes, p7) {
        None => {
            return None;
        },
        Some(v) => v,
    };
    let (user_id, p9) = match read_opt_str(bytes, p8) {
        None => {
            return None;
        },
        Some(v) => v,
    };
    let (created_at, p10) = match read_u64(bytes, p9) {
        None => {
            return None;
        },
        Some(v) => v,
    };
    let (duration_days, p11) = match read_u64(bytes, p10) {
        None => {
            return None;
        },
        Some(v) => v,
    };
    let (yes, p12) = match read_u64(bytes, p11) {
        None => {
            return None;
        },
        Some(v) => v,
    };
    let (no, p13) = match read_u64(bytes, p12) {
        None => {
            return None;
        },
        Some(v) => v,
    };
    let (nv, p14) = match read_u64(bytes, p13) {
        None => {
            return None;
        },
        Some(v) => v,
    };
    let (voters, p15) = match read_strs(bytes, p14, nv) {
        None => {
            return None;
        },
        Some(v) => v,
    };
    let p = Proposal {
        id,
        title,
        description,
        image_url,
        full_description,
        category,
        author,
        status,
        user_id,
        created_at,
        duration_days,
        tally: Votes { yes, no },
        voters,
    };
    proof {
        let decoded = dec_proposal(bytes@.skip(pos as int)).unwrap().0;
        assert(p@ =~= decoded);
    }
    Some((p, p15))
}

/// Reads `n` proposals at `pos`.
fn read_proposals(bytes: &Vec<u8>, pos: usize, n: u64) -> (r: Option<(Vec<Proposal>, usize)>)
    requires
        pos <= bytes@.len(),
    ensures
        match r {
            Some(v) => pos <= v.1 <= bytes@.len() && dec_proposals(
                n as nat,
                bytes@.skip(pos as int),
            ) == Some((v.0@.map_values(|p: Proposal| p@), bytes@.skip(v.1 as int))),
            None => dec_proposals(n as nat, bytes@.skip(pos as int)) is None,
        },
    decreases n,
{
    if n == 0 {
        let vs: Vec<Proposal> = Vec::new();
        proof {
            assert(vs@.map_values(|p: Proposal| p@) =~= Seq::<ProposalView>::empty());
        }
        Some((vs, pos))
    } else {
        let (p, p1) = match read_proposal(bytes, pos) {
            None => {
                return None;
            },
            Some(v) => v,
        };
        let (mut vs, p2) = match read_proposals(bytes, p1, n - 1) {
            None => {
                return None;
            },
            Some(v) => v,
        };
        let ghost tail_view = vs@.map_values(|q: Proposal| q@);
        let ghost pv = p@;
        vs.insert(0, p);
        proof {
            assert(vs@.map_values(|q: Proposal| q@) =~= seq![pv] + tail_view);
        }
        Some((vs, p2))
    }
}

/// Reads one profile at `pos`.
fn read_user(bytes: &Vec<u8>, pos: usize) -> (r: Option<(User, usize)>)
    requires
        pos <= bytes@.len(),
    ensures
        match r {
            Some(v) => pos <= v.1 <= bytes@.len() && dec_user(bytes@.skip(pos as int)) == Some(
                (v.0@, bytes@.skip(v.1 as int)),
            ),
            None => dec_user(bytes@.skip(pos as int)) is None,
        },
{
    proof {
        reveal(dec_user);
    }
    let (id, p1) = match read_str(bytes, pos) {
        None => {
            return None;
        },
        Some(v) => v,
    };
    let (fullname, p2) = match read_str(bytes, p1) {
        None => {
            return None;
        },
        Some(v) => v,
    };
    let (email, p3) = match read_str(bytes, p2) {
        None => {
            return None;
        },
        Some(v) => v,
    };
    let (image_url, p4) = match read_opt_str(bytes, p3) {
        None => {
            return None;
        },
        Some(v) => v,
    };
    let (location, p5) = match read_opt_str(bytes, p4) {
        None => {
            return None;
        },
        Some(v) => v,
    };
    let (website, p6) = match read_opt_str(bytes, p5) {
        None => {
            return None;
        },
        Some(v) => v,
    };
    let (bio, p7) = match read_opt_str(bytes, p6) {
        None => {
            return None;
        },
        Some(v) => v,
    };
    let u = User { id, fullname, email, image_url, location, website, bio };
    proof {
        let decoded = dec_user(bytes@.skip(pos as int)).unwrap().0;
        assert(u@ =~= decoded);
    }
    Some((u, p7))
}

/// Reads `n` profiles at `pos`.
fn read_users(bytes: &Vec<u8>, pos: usize, n: u64) -> (r: Option<(Vec<User>, usize)>)
    requires
        pos <= bytes@.len(),
    ensures
        match r {
            Some(v) => pos <= v.1 <= bytes@.len() && dec_users(n as nat, bytes@.skip(pos as int))
                == Some((v.0@.map_values(|u: User| u@), bytes@.skip(v.1 as int))),
            None => dec_users(n as nat, bytes@.skip(pos as int)) is None,
        },
    decreases n,
{
    if n == 0 {
        let vs: Vec<User> = Vec::new();
        proof {
            assert(vs@.map_values(|u: User| u@) =~= Seq::<UserView>::empty());
        }
        Some((vs, pos))
    } else {
        let (u, p1) = match read_user(bytes, pos) {
            None => {
                return None;
            },
            Some(v) => v,
        };
        let (mut vs, p2) = match read_users(bytes, p1, n - 1) {
            None => {
                return None;
            },
            Some(v) => v,
        };
        let ghost tail_view = vs@.map_values(|w: User| w@);
        let ghost uv = u@;
        vs.insert(0, u);
        proof {
            assert(vs@.map_values(|w: User| w@) =~= seq![uv] + tail_view);
        }
        Some((vs, p2))
    }
}

/// Decodes a snapshot byte string into a store. Fails — with `CodecError` —
/// exactly when the bytes are not a complete encoding with nothing after it.
pub fn deserialize(bytes: &Vec<u8>) -> (r: Result<State, CodecError>)
    ensures
        match r {
            Ok(st) => spec_deserialize(bytes@) == Some(st@),
            Err(e) => spec_deserialize(bytes@) is None && e == CodecError,
        },
{
    proof {
        assert(bytes@.skip(0) =~= bytes@);
    }
    let (next_seq, p1) = match read_u64(bytes, 0) {
        None => {
            return Err(CodecError);
        },
        Some(v) => v,
    };
    let (np, p2) = match read_u64(bytes, p1) {
        None => {
            return Err(CodecError);
        },
        Some(v) => v,
    };
    let (proposals, p3) = match read_proposals(bytes, p2, np) {
        None => {
            return Err(CodecError);
        },
        Some(v) => v,
    };
    let (nu, p4) = match read_u64(bytes, p3) {
        None => {
            return Err(CodecError);
        },
        Some(v) => v,
    };
    let (users, p5) = match read_users(bytes, p4, nu) {
        None => {
            return Err(CodecError);
        },
        Some(v) => v,
    };
    if p5 != bytes.len() {
        proof {
            assert(bytes@.skip(p5 as int).len() != 0);
        }
        return Err(CodecError);
    }
    let st = State { next_seq, proposals, users };
    proof {
        let decoded = dec_state(bytes@).unwrap().0;
        assert(st@ =~= decoded);
        assert(bytes@.skip(p5 as int).len() == 0);
    }
    Ok(st)
}


/// The startup entry point: decodes the snapshot when one is given and it
/// is a complete, well-formed encoding; falls back to the empty store in
/// every other case, and never fails.
pub fn restore(snapshot: Option<&Vec<u8>>) -> (s: State)
    ensures
        s.wf(),
        match snapshot {
            Some(b) => match spec_deserialize(b@) {
                Some(sv) => if sv.wf() {
                    s@ == sv
                } else {
                    s@ == StateView::empty()
                },
                None => s@ == StateView::empty(),
            },
            None => s@ == StateView::empty(),
        },
{
    match snapshot {
        None => State::new(),
        Some(b) => match deserialize(b) {
            Err(_) => State::new(),
            Ok(st) => if st.check_wf() {
                st
            } else {
                State::new()
            },
        },
    }
}

} // verus!
