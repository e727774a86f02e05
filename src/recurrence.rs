use crate::calendar::{
    date_of, date_of_instant, day_start, lemma_date_bounds, start_of_day, valid_day, DAY_LIMIT,
    INSTANT_LIMIT,
};
use crate::ids::generate_id;
use crate::model::DaoError;
use vstd::prelude::*;

verus! {

/// How many days past today a materialization call looks ahead.
pub const LOOK_AHEAD_DAYS: i64 = 30;

/// How many instances one materialization call creates at most.
pub const MAX_BATCH_SIZE: usize = 10;

/// An optional day or instant, as a mathematical integer.
pub open spec fn widen(o: Option<i64>) -> Option<int> {
    match o {
        Some(v) => Some(v as int),
        None => None,
    }
}

/// Whether the schedule library accepts a recurrence expression.
pub uninterp spec fn cron_accepts(expr: Seq<char>) -> bool;

/// The first instant strictly after `after` that a recurrence expression
/// matches, if there is one the library can represent.
pub uninterp spec fn cron_next(expr: Seq<char>, after: int) -> Option<int>;

/// Relies on cron's `Schedule::from_str` (whether the expression parses) and on
/// `Schedule::after(..).next()`: the first instant after `after` that the
/// expression matches (the search starts one second after `after`), in whole
/// seconds of UTC. `after` stays clear of the end of chrono's range, where
/// adding that second would overflow.
#[verifier::external_body]
fn next_occurrence(expr: &str, after: i64) -> (r: Option<Option<i64>>)
    requires
        -INSTANT_LIMIT <= after <= INSTANT_LIMIT,
    ensures
        r is Some <==> cron_accepts(expr@),
        r matches Some(o) ==> widen(o) == cron_next(expr@, after as int),
        r matches Some(Some(n)) ==> n > after,
{
    let schedule = <cron::Schedule as std::str::FromStr>::from_str(expr).ok()?;
    match chrono::DateTime::<chrono::Utc>::from_timestamp(after, 0) {
        Some(start) => match schedule.after(&start).next() {
            Some(d) => Some(Some(d.timestamp())),
            None => Some(None),
        },
        None => Some(None),
    }
}

/// Blanks separate the fields of a recurrence expression.
pub open spec fn is_blank(c: char) -> bool {
    c == ' ' || c == '\t'
}

/// How many fields start among the first `n` characters of `s`.
pub open spec fn field_starts(s: Seq<char>, n: int) -> int
    decreases n,
{
    if n <= 0 {
        0
    } else {
        field_starts(s, n - 1) + if !is_blank(s[n - 1]) && (n == 1 || is_blank(s[n - 2])) {
            1int
        } else {
            0int
        }
    }
}

/// The number of blank-separated fields of `s`.
pub open spec fn field_count(s: Seq<char>) -> int {
    field_starts(s, s.len() as int)
}

/// The expression handed to the schedule library: the five-field form
/// (minute, hour, day of month, month, day of week) gets a leading seconds
/// field of zero; other forms are passed on as written.
pub open spec fn schedule_text(s: Seq<char>) -> Seq<char> {
    if field_count(s) == 5 {
        seq!['0', ' '] + s
    } else {
        s
    }
}

/// The expression to hand to the schedule library for `expr`.
pub fn schedule_text_of(expr: &str) -> (r: String)
    ensures
        r@ == schedule_text(expr@),
{
    let n = expr.unicode_len();
    let mut count: usize = 0;
    let mut prev_blank = true;
    let mut i: usize = 0;
    while i < n
        invariant
            0 <= i <= n,
            n == expr@.len(),
            count == field_starts(expr@, i as int),
            count <= i,
            prev_blank == (i == 0 || is_blank(expr@[i - 1])),
        decreases n - i,
    {
        let c = expr.get_char(i);
        let blank = c == ' ' || c == '\t';
        if !blank && prev_blank {
            count = count + 1;
        }
        prev_blank = blank;
        i = i + 1;
    }
    if count == 5 {
        let mut r = String::from_str("0 ");
        r.append(expr);
        proof {
            reveal_strlit("0 ");
        }
        r
    } else {
        expr.to_owned()
    }
}

/// A recurring series: a template, a recurrence expression, a date range and a
/// cursor. Dates are day numbers counted from 1970-01-01, instants are seconds
/// since the epoch, both in UTC.
#[derive(Debug, Clone)]
pub struct RecurringGame {
    pub id: String,
    pub template_id: String,
    pub cron_schedule: String,
    pub start_date: i64,
    pub end_date: Option<i64>,
    /// The last date for which an instance was generated; `None` until then.
    pub last_generated_date: Option<i64>,
    pub is_active: bool,
    pub created_at: i64,
}

impl RecurringGame {
    /// Every date of the series lies within the calendar's range.
    pub open spec fn wf(&self) -> bool {
        &&& valid_day(self.start_date as int)
        &&& (self.end_date matches Some(e) ==> valid_day(e as int))
        &&& (self.last_generated_date matches Some(d) ==> valid_day(d as int))
    }
}

/// One occurrence to materialize: its instant and its date.
#[derive(Debug, Clone, Copy, PartialEq, Eq)]
pub struct Occurrence {
    pub scheduled_time: i64,
    pub occurrence_date: i64,
}

/// What one materialization call decides: the occurrences to build, in
/// increasing order, and the cursor to persist (none when nothing is built).
#[derive(Debug, Clone)]
pub struct MaterializationPlan {
    pub occurrences: Vec<Occurrence>,
    pub last_generated_date: Option<i64>,
}

/// First date of the window: the cursor if set, else the series' start date.
pub open spec fn window_start(last: Option<int>, start: int) -> int {
    match last {
        Some(d) => d,
        None => start,
    }
}

/// Last date of the window: the end date or today plus the look-ahead,
/// whichever comes first.
pub open spec fn window_end(end: Option<int>, today: int) -> int {
    let ahead = today + LOOK_AHEAD_DAYS;
    match end {
        Some(e) => if e < ahead {
            e
        } else {
            ahead
        },
        None => ahead,
    }
}

/// The set of day numbers held in a sequence.
pub open spec fn day_set(v: Seq<i64>) -> Set<int> {
    Set::new(|d: int| exists|i: int| 0 <= i < v.len() && v[i] as int == d)
}

/// Whether one of the planned instants falls on day `d`.
pub open spec fn has_date(planned: Seq<int>, d: int) -> bool {
    exists|i: int| 0 <= i < planned.len() && date_of(planned[i]) == d
}

/// The walk over the schedule's occurrences after instant `t`, for a window of
/// dates `(lo, hi]`: occurrences on or before `lo` are skipped, those on a date
/// that already has an instance (stored or planned) only move the cursor, the
/// others are planned; the walk stops past `hi`, when the schedule ends, or
/// when the batch is full. Returns the planned instants and the cursor.
pub open spec fn walk(
    expr: Seq<char>,
    t: int,
    lo: int,
    hi: int,
    existing: Set<int>,
    planned: Seq<int>,
    cursor: int,
) -> (Seq<int>, int)
    decreases day_start(hi + 1) - t,
{
    if planned.len() >= MAX_BATCH_SIZE || t >= day_start(hi + 1) {
        (planned, cursor)
    } else {
        match cron_next(expr, t) {
            None => (planned, cursor),
            Some(n) => {
                let d = date_of(n);
                if n <= t || d > hi {
                    (planned, cursor)
                } else if d <= lo {
                    walk(expr, n, lo, hi, existing, planned, cursor)
                } else if existing.contains(d) || has_date(planned, d) {
                    walk(expr, n, lo, hi, existing, planned, d)
                } else {
                    walk(expr, n, lo, hi, existing, planned.push(n), d)
                }
            },
        }
    }
}

/// The outcome of materializing a series whose existing instances fall on the
/// dates `existing`: the instants to build and the cursor to persist.
pub open spec fn plan_spec(
    expr: Seq<char>,
    start: int,
    end: Option<int>,
    last: Option<int>,
    today: int,
    existing: Set<int>,
) -> (Seq<int>, Option<int>) {
    let lo = window_start(last, start);
    let hi = window_end(end, today);
    let (p, c) = walk(expr, day_start(lo), lo, hi, existing, seq![], lo);
    (
        p,
        if p.len() > 0 {
            Some(c)
        } else {
            None
        },
    )
}

/// The plan of a series on a given day.
pub open spec fn series_plan(series: RecurringGame, today: int, existing: Set<int>) -> (
    Seq<int>,
    Option<int>,
) {
    plan_spec(
        schedule_text(series.cron_schedule@),
        series.start_date as int,
        widen(series.end_date),
        widen(series.last_generated_date),
        today,
        existing,
    )
}

/// The instants of a list of occurrences.
pub open spec fn instants(v: Seq<Occurrence>) -> Seq<int> {
    v.map_values(|o: Occurrence| o.scheduled_time as int)
}

/// Each occurrence carries the date of its instant.
pub open spec fn dated(v: Seq<Occurrence>) -> bool {
    forall|i: int| 0 <= i < v.len() ==> (#[trigger] v[i]).occurrence_date == date_of(v[i].scheduled_time as int)
}

fn contains_day(v: &Vec<i64>, d: i64) -> (r: bool)
    ensures
        r == day_set(v@).contains(d as int),
{
    let mut i: usize = 0;
    while i < v.len()
        invariant
            0 <= i <= v.len(),
            forall|j: int| 0 <= j < i ==> v@[j] != d,
        decreases v.len() - i,
    {
        if v[i] == d {
            return true;
        }
        i = i + 1;
    }
    false
}

fn planned_on(v: &Vec<Occurrence>, d: i64) -> (r: bool)
    requires
        dated(v@),
    ensures
        r == has_date(instants(v@), d as int),
{
    let mut i: usize = 0;
    while i < v.len()
        invariant
            0 <= i <= v.len(),
            dated(v@),
            forall|j: int| 0 <= j < i ==> v@[j].occurrence_date != d,
        decreases v.len() - i,
    {
        if v[i].occurrence_date == d {
            assert(date_of(instants(v@)[i as int]) == d);
            return true;
        }
        i = i + 1;
    }
    assert forall|j: int| 0 <= j < instants(v@).len() implies date_of(instants(v@)[j]) != d by {
        assert(v@[j].occurrence_date != d);
    }
    false
}

/// Decides one materialization call of `series` on day `today`, given the
/// dates on which the series already has instances.
pub fn plan_materialization(series: &RecurringGame, today: i64, existing_dates: &Vec<i64>) -> (r:
    Result<MaterializationPlan, DaoError>)
    requires
        series.wf(),
        valid_day(today as int),
    ensures
        r is Err <==> !cron_accepts(schedule_text(series.cron_schedule@)),
        r matches Err(e) ==> e == DaoError::InvalidExpression,
        r matches Ok(p) ==> {
            &&& instants(p.occurrences@) == series_plan(*series, today as int, day_set(existing_dates@)).0
            &&& dated(p.occurrences@)
            &&& widen(p.last_generated_date) == series_plan(*series, today as int, day_set(existing_dates@)).1
        },
{
    let text = schedule_text_of(series.cron_schedule.as_str());
    let expr = text.as_str();
    let lo: i64 = match series.last_generated_date {
        Some(d) => d,
        None => series.start_date,
    };
    let ahead: i64 = today + LOOK_AHEAD_DAYS;
    let hi: i64 = match series.end_date {
        Some(e) => if e < ahead {
            e
        } else {
            ahead
        },
        None => ahead,
    };
    let ghost existing = day_set(existing_dates@);
    let ghost result = walk(expr@, day_start(lo as int), lo as int, hi as int, existing, seq![], lo as int);
    let limit: i64 = start_of_day(hi + 1);
    let mut t: i64 = start_of_day(lo);
    assert(limit <= INSTANT_LIMIT && -INSTANT_LIMIT <= t) by (nonlinear_arith)
        requires
            limit == (hi + 1) * 86400,
            t == lo * 86400,
            hi <= DAY_LIMIT + 30,
            lo >= -DAY_LIMIT,
            DAY_LIMIT == 90_000_000,
            INSTANT_LIMIT == 8_000_000_000_000,
    ;
    let mut next: Option<i64> = match next_occurrence(expr, t) {
        None => return Err(DaoError::InvalidExpression),
        Some(o) => o,
    };
    let mut planned: Vec<Occurrence> = Vec::new();
    let mut cursor: i64 = lo;
    assert(instants(planned@) =~= seq![]);
    loop
        invariant
            cron_accepts(expr@),
            limit == day_start(hi as int + 1),
            widen(next) == cron_next(expr@, t as int),
            next matches Some(n) ==> n > t,
            -INSTANT_LIMIT <= day_start(lo as int) <= t <= INSTANT_LIMIT,
            limit <= INSTANT_LIMIT,
            dated(planned@),
            walk(expr@, t as int, lo as int, hi as int, existing, instants(planned@), cursor as int) == result,
            existing == day_set(existing_dates@),
            result == walk(expr@, day_start(lo as int), lo as int, hi as int, existing, seq![], lo as int),
            lo as int == window_start(widen(series.last_generated_date), series.start_date as int),
            hi as int == window_end(widen(series.end_date), today as int),
            instants(planned@).len() == planned.len(),
            planned.len() > 0 ==> cursor > lo,
        ensures
            walk(expr@, t as int, lo as int, hi as int, existing, instants(planned@), cursor as int) == (instants(planned@), cursor as int),
        decreases limit - t,
    {
        if planned.len() >= MAX_BATCH_SIZE || t >= limit {
            break;
        }
        let n = match next {
            None => break,
            Some(n) => n,
        };
        let d = date_of_instant(n);
        if d > hi {
            break;
        }
        proof {
            lemma_date_bounds(n as int, hi as int);
        }
        let ghost before = instants(planned@);
        let ghost t0 = t as int;
        let ghost c0 = cursor as int;
        assert(before.len() == planned.len());
        t = n;
        if d > lo {
            let stored = contains_day(existing_dates, d);
            let seen = planned_on(&planned, d);
            assert(stored == existing.contains(date_of(n as int)));
            assert(seen == has_date(before, date_of(n as int)));
            if stored || seen {
                assert(walk(expr@, t0, lo as int, hi as int, existing, before, c0) == walk(
                    expr@, n as int, lo as int, hi as int, existing, before, d as int));
                cursor = d;
            } else {
                planned.push(Occurrence { scheduled_time: n, occurrence_date: d });
                assert(instants(planned@) =~= before.push(n as int));
                assert(walk(expr@, t0, lo as int, hi as int, existing, before, c0) == walk(
                    expr@, n as int, lo as int, hi as int, existing, before.push(n as int), d as int));
                cursor = d;
            }
        } else {
            assert(walk(expr@, t0, lo as int, hi as int, existing, before, c0) == walk(
                expr@, n as int, lo as int, hi as int, existing, before, c0));
        }
        next = match next_occurrence(expr, t) {
            Some(o) => o,
            None => None,
        };
    }
    let last = if planned.len() > 0 {
        Some(cursor)
    } else {
        None
    };
    Ok(MaterializationPlan { occurrences: planned, last_generated_date: last })
}

/// Creates the series of a template: a new id, the cursor unset, active. The
/// recurrence expression is checked here, so that a series never starts with
/// one the schedule library refuses.
pub fn create_recurring_game(
    template_id: &String,
    cron_schedule: &String,
    start_date: i64,
    end_date: Option<i64>,
    now: i64,
) -> (r: Result<RecurringGame, DaoError>)
    requires
        valid_day(start_date as int),
        end_date matches Some(e) ==> valid_day(e as int),
    ensures
        r is Err <==> !cron_accepts(schedule_text(cron_schedule@)),
        r matches Err(e) ==> e == DaoError::InvalidExpression,
        r matches Ok(s) ==> {
            &&& s.wf()
            &&& s.template_id@ == template_id@
            &&& s.cron_schedule@ == cron_schedule@
            &&& s.start_date == start_date
            &&& s.end_date == end_date
            &&& s.last_generated_date is None
            &&& s.is_active
            &&& s.created_at == now
        },
{
    let text = schedule_text_of(cron_schedule.as_str());
    match next_occurrence(text.as_str(), start_of_day(start_date)) {
        None => Err(DaoError::InvalidExpression),
        Some(_) => Ok(
            RecurringGame {
                id: generate_id(),
                template_id: template_id.clone(),
                cron_schedule: cron_schedule.clone(),
                start_date,
                end_date,
                last_generated_date: None,
                is_active: true,
                created_at: now,
            },
        ),
    }
}

} // verus!
