use vstd::prelude::*;

verus! {

/// One invitation decision: the invited user, the game team they join, and the
/// group through which they were reached (`None` for a direct invitation).
pub type Assign = (Seq<char>, Seq<char>, Option<Seq<char>>);

/// `k` is a position of user `u` in `s`.
pub open spec fn user_at(s: Seq<Assign>, u: Seq<char>, k: int) -> bool {
    0 <= k < s.len() && s[k].0 == u
}

/// No user appears twice.
pub open spec fn distinct_users(s: Seq<Assign>) -> bool {
    forall|j: int, k: int| 0 <= j < k < s.len() ==> s[j].0 != s[k].0
}

/// Insert-or-overwrite: an entry for the same user is replaced in place,
/// otherwise the decision is appended.
pub open spec fn upsert(s: Seq<Assign>, a: Assign) -> Seq<Assign> {
    if exists|k: int| user_at(s, a.0, k) {
        s.update(choose|k: int| user_at(s, a.0, k), a)
    } else {
        s.push(a)
    }
}

/// The invitations that result from applying the decisions `asg`, in order,
/// to the invitations `base`.
pub open spec fn apply_all(base: Seq<Assign>, asg: Seq<Assign>) -> Seq<Assign>
    decreases asg.len(),
{
    if asg.len() == 0 {
        base
    } else {
        upsert(apply_all(base, asg.drop_last()), asg.last())
    }
}

/// The invitation held for user `u`, if any.
pub open spec fn lookup(s: Seq<Assign>, u: Seq<char>) -> Option<Assign> {
    if exists|k: int| user_at(s, u, k) {
        Some(s[choose|k: int| user_at(s, u, k)])
    } else {
        None
    }
}

/// The last decision about user `u` in `asg`, if any.
pub open spec fn last_for(asg: Seq<Assign>, u: Seq<char>) -> Option<Assign>
    decreases asg.len(),
{
    if asg.len() == 0 {
        None
    } else if asg.last().0 == u {
        Some(asg.last())
    } else {
        last_for(asg.drop_last(), u)
    }
}

/// In a sequence without repeated users, a position of a user is the one
/// that `choose` picks.
pub proof fn lemma_position_unique(s: Seq<Assign>, u: Seq<char>, k: int)
    requires
        distinct_users(s),
        user_at(s, u, k),
    ensures
        (choose|j: int| user_at(s, u, j)) == k,
{
    let j = choose|j: int| user_at(s, u, j);
    assert(user_at(s, u, j));
    if j < k {
        assert(s[j].0 != s[k].0);
    } else if j > k {
        assert(s[k].0 != s[j].0);
    }
}

/// Upserting keeps users distinct, and changes only the entry of the
/// decision's user.
pub proof fn lemma_upsert(s: Seq<Assign>, a: Assign, u: Seq<char>)
    requires
        distinct_users(s),
    ensures
        distinct_users(upsert(s, a)),
        lookup(upsert(s, a), u) == if u == a.0 {
            Some(a)
        } else {
            lookup(s, u)
        },
{
    let r = upsert(s, a);
    if exists|k: int| user_at(s, a.0, k) {
        let k = choose|k: int| user_at(s, a.0, k);
        assert(user_at(s, a.0, k));
        assert(r.len() == s.len());
        assert forall|i: int, j: int| 0 <= i < j < r.len() implies r[i].0 != r[j].0 by {
            assert(s[i].0 != s[j].0);
        }
        assert(user_at(r, a.0, k));
        lemma_position_unique(r, a.0, k);
        if u != a.0 {
            if exists|m: int| user_at(s, u, m) {
                let m = choose|m: int| user_at(s, u, m);
                assert(user_at(s, u, m));
                assert(m != k);
                assert(user_at(r, u, m));
                lemma_position_unique(r, u, m);
                lemma_position_unique(s, u, m);
            } else {
                assert forall|m: int| !user_at(r, u, m) by {
                    if user_at(r, u, m) {
                        assert(m != k);
                        assert(user_at(s, u, m));
                    }
                }
            }
        }
    } else {
        assert(r == s.push(a));
        assert forall|i: int, j: int| 0 <= i < j < r.len() implies r[i].0 != r[j].0 by {
            if j == s.len() {
                assert(!user_at(s, a.0, i));
            } else {
                assert(s[i].0 != s[j].0);
            }
        }
        let n = s.len() as int;
        assert(user_at(r, a.0, n));
        lemma_position_unique(r, a.0, n);
        if u != a.0 {
            if exists|m: int| user_at(s, u, m) {
                let m = choose|m: int| user_at(s, u, m);
                assert(user_at(s, u, m));
                assert(user_at(r, u, m));
                lemma_position_unique(r, u, m);
                lemma_position_unique(s, u, m);
            } else {
                assert forall|m: int| !user_at(r, u, m) by {
                    if user_at(r, u, m) {
                        assert(m != n);
                        assert(user_at(s, u, m));
                    }
                }
            }
        }
    }
}

/// Last write wins: after applying a sequence of invitation decisions to no
/// invitations, every user holds exactly one invitation, and it is the last
/// decision made about that user; a user about whom nothing was decided holds
/// none.
pub proof fn lemma_last_write_wins(asg: Seq<Assign>, u: Seq<char>)
    ensures
        distinct_users(apply_all(seq![], asg)),
        lookup(apply_all(seq![], asg), u) == last_for(asg, u),
    decreases asg.len(),
{
    if asg.len() == 0 {
        assert(!(exists|k: int| user_at(seq![], u, k)));
    } else {
        lemma_last_write_wins(asg.drop_last(), u);
        lemma_upsert(apply_all(seq![], asg.drop_last()), asg.last(), u);
    }
}

} // verus!
