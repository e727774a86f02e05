use crate::calendar::{date_of, day_start, lemma_date_bounds, lemma_date_monotone};
use crate::recurrence::{
    cron_next, has_date, plan_spec, walk, window_end, window_start, MAX_BATCH_SIZE,
};
use crate::builder::{
    assigns_upto, built_as, inv_view, BuiltInstance, GroupMembers, InstanceRequest,
    InvitationTemplate, TeamTemplate,
};
use crate::roster::{distinct_users, last_for, lemma_last_write_wins, lookup};
use vstd::prelude::*;

verus! {

/// Instant `n` is one that the schedule of `expr` yields.
pub open spec fn is_occurrence(expr: Seq<char>, n: int) -> bool {
    exists|t: int| cron_next(expr, t) == Some(n)
}

/// What the walk has planned is sound: occurrences of the schedule on dates
/// in `(lo, cursor]` with no stored instance, in strictly increasing date
/// order, at most a batch of them.
pub open spec fn sound_plan(
    expr: Seq<char>,
    lo: int,
    hi: int,
    existing: Set<int>,
    planned: Seq<int>,
    cursor: int,
) -> bool {
    &&& forall|i: int|
        0 <= i < planned.len() ==> {
            &&& is_occurrence(expr, #[trigger] planned[i])
            &&& lo < date_of(planned[i]) <= cursor
            &&& !existing.contains(date_of(planned[i]))
        }
    &&& forall|i: int, j: int|
        0 <= i < j < planned.len() ==> date_of(#[trigger] planned[i]) < date_of(#[trigger] planned[j])
    &&& planned.len() <= MAX_BATCH_SIZE
    &&& planned.len() > 0 ==> cursor <= hi
}

/// A sound plan, none of it after instant `t`.
pub open spec fn sound(
    expr: Seq<char>,
    t: int,
    lo: int,
    hi: int,
    existing: Set<int>,
    planned: Seq<int>,
    cursor: int,
) -> bool {
    &&& forall|i: int|
        0 <= i < planned.len() ==> {
            &&& is_occurrence(expr, #[trigger] planned[i])
            &&& lo < date_of(planned[i]) <= cursor
            &&& date_of(planned[i]) <= date_of(t)
            &&& !existing.contains(date_of(planned[i]))
        }
    &&& forall|i: int, j: int|
        0 <= i < j < planned.len() ==> date_of(#[trigger] planned[i]) < date_of(#[trigger] planned[j])
    &&& planned.len() <= MAX_BATCH_SIZE
    &&& planned.len() > 0 ==> cursor <= hi
}

proof fn lemma_walk_sound(
    expr: Seq<char>,
    t: int,
    lo: int,
    hi: int,
    existing: Set<int>,
    planned: Seq<int>,
    cursor: int,
)
    requires
        sound(expr, t, lo, hi, existing, planned, cursor),
    ensures
        ({
            let (p, c) = walk(expr, t, lo, hi, existing, planned, cursor);
            sound_plan(expr, lo, hi, existing, p, c)
        }),
    decreases day_start(hi + 1) - t,
{
    if planned.len() >= MAX_BATCH_SIZE || t >= day_start(hi + 1) {
        assert(sound(expr, t, lo, hi, existing, planned, cursor));
    } else {
        match cron_next(expr, t) {
            None => {
                assert(sound(expr, t, lo, hi, existing, planned, cursor));
            },
            Some(n) => {
                let d = date_of(n);
                if n <= t || d > hi {
                    assert(sound(expr, t, lo, hi, existing, planned, cursor));
                } else {
                    lemma_date_monotone(t, n);
                    lemma_date_bounds(n, hi);
                    assert(is_occurrence(expr, n));
                    if d <= lo {
                        lemma_walk_sound(expr, n, lo, hi, existing, planned, cursor);
                    } else if existing.contains(d) || has_date(planned, d) {
                        assert forall|i: int| 0 <= i < planned.len() implies date_of(planned[i])
                            <= d by {}
                        lemma_walk_sound(expr, n, lo, hi, existing, planned, d);
                    } else {
                        let grown = planned.push(n);
                        assert forall|i: int| 0 <= i < planned.len() implies date_of(planned[i])
                            < d by {
                            assert(date_of(planned[i]) <= date_of(t));
                            assert(date_of(planned[i]) != d);
                        }
                        assert(sound(expr, n, lo, hi, existing, grown, d)) by {
                            assert forall|i: int| 0 <= i < grown.len() implies {
                                &&& is_occurrence(expr, #[trigger] grown[i])
                                &&& lo < date_of(grown[i]) <= d
                                &&& date_of(grown[i]) <= date_of(n)
                                &&& !existing.contains(date_of(grown[i]))
                            } by {
                                if i < planned.len() {
                                    assert(grown[i] == planned[i]);
                                }
                            }
                            assert forall|i: int, j: int|
                                0 <= i < j < grown.len() implies date_of(#[trigger] grown[i]) < date_of(
                                #[trigger] grown[j],
                            ) by {
                                if j < planned.len() {
                                    assert(grown[i] == planned[i] && grown[j] == planned[j]);
                                } else {
                                    assert(grown[i] == planned[i]);
                                }
                            }
                        }
                        lemma_walk_sound(expr, n, lo, hi, existing, grown, d);
                    }
                }
            },
        }
    }
}

/// Materialization never plans anything but occurrences of the schedule that
/// fall after the window start and no later than the persisted cursor, on
/// dates without a stored instance, each date at most once (in strictly
/// increasing order), at most a batch of them; and the cursor stays within
/// the window.
pub proof fn lemma_plan_sound(
    expr: Seq<char>,
    start: int,
    end: Option<int>,
    last: Option<int>,
    today: int,
    existing: Set<int>,
)
    ensures
        ({
            let (p, c) = plan_spec(expr, start, end, last, today, existing);
            let lo = window_start(last, start);
            &&& p.len() <= MAX_BATCH_SIZE
            &&& (p.len() > 0 <==> c is Some)
            &&& forall|i: int|
                0 <= i < p.len() ==> {
                    &&& is_occurrence(expr, #[trigger] p[i])
                    &&& lo < date_of(p[i])
                    &&& date_of(p[i]) <= c->0
                    &&& !existing.contains(date_of(p[i]))
                }
            &&& forall|i: int, j: int|
                0 <= i < j < p.len() ==> date_of(#[trigger] p[i]) < date_of(#[trigger] p[j])
            &&& c matches Some(cd) ==> lo < cd <= window_end(end, today)
            &&& (last matches Some(l) ==> l >= start) ==> forall|i: int|
                0 <= i < p.len() ==> start < date_of(#[trigger] p[i])
        }),
{
    let lo = window_start(last, start);
    let hi = window_end(end, today);
    lemma_fundamental_start(lo);
    lemma_walk_sound(expr, day_start(lo), lo, hi, existing, seq![], lo);
    let (p, c) = walk(expr, day_start(lo), lo, hi, existing, seq![], lo);
    assert(sound_plan(expr, lo, hi, existing, p, c));
    if p.len() > 0 {
        assert(lo < date_of(p[0]) <= c);
    }
}

proof fn lemma_fundamental_start(lo: int)
    ensures
        date_of(day_start(lo)) == lo,
{
    lemma_date_bounds(day_start(lo), lo);
    lemma_date_bounds(day_start(lo), lo - 1);
    assert(day_start(lo - 1 + 1) == day_start(lo));
}

/// The schedule of `expr` yields, after any instant, the next matching
/// instant: strictly later, the same from every instant up to it, and once it
/// yields nothing it yields nothing later either.
pub open spec fn lawful(expr: Seq<char>) -> bool {
    &&& forall|t: int| #[trigger] cron_next(expr, t) matches Some(n) ==> n > t
    &&& forall|t: int, c: int|
        #![trigger cron_next(expr, t), cron_next(expr, c)]
        t <= c && (cron_next(expr, t) matches Some(n) && c < n) ==> cron_next(expr, c) == cron_next(
            expr,
            t,
        )
    &&& forall|t: int, c: int|
        #![trigger cron_next(expr, t), cron_next(expr, c)]
        t <= c && cron_next(expr, t) is None ==> cron_next(expr, c) is None
}

/// The dates of a list of planned instants.
pub open spec fn planned_dates(p: Seq<int>) -> Set<int> {
    Set::new(|d: int| has_date(p, d))
}

proof fn lemma_cursor_grows(
    expr: Seq<char>,
    t: int,
    lo: int,
    hi: int,
    existing: Set<int>,
    planned: Seq<int>,
    cursor: int,
)
    requires
        cursor <= lo || cursor <= date_of(t),
    ensures
        walk(expr, t, lo, hi, existing, planned, cursor).1 >= cursor,
    decreases day_start(hi + 1) - t,
{
    if planned.len() >= MAX_BATCH_SIZE || t >= day_start(hi + 1) {
    } else {
        match cron_next(expr, t) {
            None => {},
            Some(n) => {
                let d = date_of(n);
                if n <= t || d > hi {
                } else {
                    lemma_date_monotone(t, n);
                    if d <= lo {
                        lemma_cursor_grows(expr, n, lo, hi, existing, planned, cursor);
                    } else if existing.contains(d) || has_date(planned, d) {
                        lemma_cursor_grows(expr, n, lo, hi, existing, planned, d);
                    } else {
                        lemma_cursor_grows(expr, n, lo, hi, existing, planned.push(n), d);
                    }
                }
            },
        }
    }
}

/// One step of the walk from `t` that reaches instant `n` within the window:
/// the state it moves to, and the fact that the final cursor is no earlier
/// than `n`'s date when that date is past `lo`.
proof fn lemma_step(
    expr: Seq<char>,
    t: int,
    lo: int,
    hi: int,
    existing: Set<int>,
    planned: Seq<int>,
    cursor: int,
    n: int,
) -> (r: (Seq<int>, int))
    requires
        planned.len() < MAX_BATCH_SIZE,
        t < day_start(hi + 1),
        cron_next(expr, t) == Some(n),
        n > t,
        date_of(n) <= hi,
        cursor <= lo || cursor <= date_of(t),
    ensures
        walk(expr, t, lo, hi, existing, planned, cursor) == walk(expr, n, lo, hi, existing, r.0, r.1),
        r.1 <= lo || r.1 <= date_of(n),
        date_of(n) <= lo || walk(expr, t, lo, hi, existing, planned, cursor).1 >= date_of(n),
{
    let d = date_of(n);
    lemma_date_monotone(t, n);
    if d <= lo {
        (planned, cursor)
    } else if existing.contains(d) || has_date(planned, d) {
        lemma_cursor_grows(expr, n, lo, hi, existing, planned, d);
        (planned, d)
    } else {
        lemma_cursor_grows(expr, n, lo, hi, existing, planned.push(n), d);
        (planned.push(n), d)
    }
}

/// Once a second walk, with its window starting at the first walk's final
/// cursor, stands at the same instant as the first, it plans nothing.
proof fn lemma_in_step(
    expr: Seq<char>,
    t: int,
    lo: int,
    hi: int,
    existing: Set<int>,
    planned: Seq<int>,
    cursor: int,
    final_cursor: int,
    existing2: Set<int>,
)
    requires
        lawful(expr),
        walk(expr, t, lo, hi, existing, planned, cursor).0.len() < MAX_BATCH_SIZE,
        walk(expr, t, lo, hi, existing, planned, cursor).1 == final_cursor,
        cursor <= lo || cursor <= date_of(t),
        lo <= final_cursor,
    ensures
        walk(expr, t, final_cursor, hi, existing2, seq![], final_cursor) == (
            Seq::<int>::empty(),
            final_cursor,
        ),
    decreases day_start(hi + 1) - t,
{
    if planned.len() >= MAX_BATCH_SIZE || t >= day_start(hi + 1) {
    } else {
        match cron_next(expr, t) {
            None => {},
            Some(n) => {
                assert(n > t);
                if date_of(n) > hi {
                } else {
                    let (grown, moved) = lemma_step(expr, t, lo, hi, existing, planned, cursor, n);
                    lemma_in_step(expr, n, lo, hi, existing, grown, moved, final_cursor, existing2);
                }
            },
        }
    }
}

/// A second walk that starts at an instant `c` no earlier than the first
/// walk's current instant, and on a date no later than the first walk's final
/// cursor, plans nothing.
proof fn lemma_catch_up(
    expr: Seq<char>,
    t: int,
    lo: int,
    hi: int,
    existing: Set<int>,
    planned: Seq<int>,
    cursor: int,
    final_cursor: int,
    existing2: Set<int>,
    c: int,
)
    requires
        lawful(expr),
        walk(expr, t, lo, hi, existing, planned, cursor).0.len() < MAX_BATCH_SIZE,
        walk(expr, t, lo, hi, existing, planned, cursor).1 == final_cursor,
        cursor <= lo || cursor <= date_of(t),
        lo <= final_cursor,
        final_cursor <= hi,
        t <= c,
        date_of(c) <= final_cursor,
    ensures
        walk(expr, c, final_cursor, hi, existing2, seq![], final_cursor) == (
            Seq::<int>::empty(),
            final_cursor,
        ),
    decreases day_start(hi + 1) - t,
{
    if planned.len() >= MAX_BATCH_SIZE || t >= day_start(hi + 1) {
    } else {
        match cron_next(expr, t) {
            None => {
                assert(cron_next(expr, c) is None);
            },
            Some(n) => {
                assert(n > t);
                if n <= c {
                    lemma_date_monotone(n, c);
                    let (grown, moved) = lemma_step(expr, t, lo, hi, existing, planned, cursor, n);
                    lemma_catch_up(expr, n, lo, hi, existing, grown, moved, final_cursor, existing2, c);
                } else {
                    assert(cron_next(expr, c) == Some(n));
                    if c >= day_start(hi + 1) || date_of(n) > hi {
                    } else {
                        let (grown, moved) = lemma_step(expr, t, lo, hi, existing, planned, cursor, n);
                        assert(walk(expr, c, final_cursor, hi, existing2, seq![], final_cursor)
                            == walk(expr, n, final_cursor, hi, existing2, seq![], final_cursor));
                        lemma_in_step(expr, n, lo, hi, existing, grown, moved, final_cursor, existing2);
                    }
                }
            },
        }
    }
}

/// Materializing twice in a row creates nothing the second time: after one
/// call has planned its occurrences (fewer than a full batch), stored them and
/// persisted its cursor, a second call on the same day plans none. A full
/// batch is left out: the next call then goes on where the batch stopped.
pub proof fn lemma_materialize_idempotent(
    expr: Seq<char>,
    start: int,
    end: Option<int>,
    last: Option<int>,
    today: int,
    existing: Set<int>,
)
    requires
        lawful(expr),
        plan_spec(expr, start, end, last, today, existing).0.len() < MAX_BATCH_SIZE,
    ensures
        ({
            let (p, c) = plan_spec(expr, start, end, last, today, existing);
            let last2 = if p.len() > 0 {
                c
            } else {
                last
            };
            plan_spec(
                expr,
                start,
                end,
                last2,
                today,
                existing.union(planned_dates(p)),
            ).0.len() == 0
        }),
{
    let (p, c) = plan_spec(expr, start, end, last, today, existing);
    let lo = window_start(last, start);
    let hi = window_end(end, today);
    lemma_plan_sound(expr, start, end, last, today, existing);
    if p.len() == 0 {
        assert(existing.union(planned_dates(p)) =~= existing);
    } else {
        let cd = c->0;
        lemma_fundamental_start(cd);
        assert(day_start(lo) <= day_start(cd)) by (nonlinear_arith)
            requires
                lo < cd,
        ;
        lemma_catch_up(
            expr,
            day_start(lo),
            lo,
            hi,
            existing,
            seq![],
            lo,
            cd,
            existing.union(planned_dates(p)),
            day_start(cd),
        );
    }
}

/// In an instance built from a template, each user holds at most one
/// invitation, and a user reached through several invitation templates (say
/// directly from one team and through a group of a later team) holds the
/// invitation of the one processed last: its team and its group.
pub proof fn lemma_build_last_write_wins(
    b: BuiltInstance,
    req: InstanceRequest,
    teams: Seq<TeamTemplate>,
    invs: Seq<InvitationTemplate>,
    ms: Seq<GroupMembers>,
    team_ids: Seq<String>,
    u: Seq<char>,
)
    requires
        built_as(b, req, teams, invs, ms, team_ids),
    ensures
        distinct_users(inv_view(b.invitations@)),
        lookup(inv_view(b.invitations@), u) == last_for(
            assigns_upto(invs, teams, team_ids, ms, teams.len() as int),
            u,
        ),
{
    lemma_last_write_wins(assigns_upto(invs, teams, team_ids, ms, teams.len() as int), u);
}

} // verus!
