use agon::model::DaoError;
use agon::recurrence::{
    create_recurring_game, plan_materialization, schedule_text_of, Occurrence, RecurringGame,
    LOOK_AHEAD_DAYS, MAX_BATCH_SIZE,
};

// 2024-01-01, a Monday, as a day number since 1970-01-01.
const MONDAY: i64 = 19723;

fn series(expr: &str, start: i64, end: Option<i64>, last: Option<i64>) -> RecurringGame {
    RecurringGame {
        id: "series-1".to_string(),
        template_id: "template-1".to_string(),
        cron_schedule: expr.to_string(),
        start_date: start,
        end_date: end,
        last_generated_date: last,
        is_active: true,
        created_at: 0,
    }
}

fn monday_evenings() -> Vec<Occurrence> {
    vec![
        Occurrence { scheduled_time: 1704736800, occurrence_date: 19730 },
        Occurrence { scheduled_time: 1705341600, occurrence_date: 19737 },
        Occurrence { scheduled_time: 1705946400, occurrence_date: 19744 },
        Occurrence { scheduled_time: 1706551200, occurrence_date: 19751 },
    ]
}

#[test]
fn weekly_series_fills_the_look_ahead_window() {
    // Every Monday at 18:00, starting on a Monday, called that Monday morning.
    let s = series("0 18 * * Mon", MONDAY, None, None);
    let plan = plan_materialization(&s, MONDAY, &vec![]).unwrap();
    assert_eq!(plan.occurrences, monday_evenings());
    assert_eq!(plan.last_generated_date, Some(19751));
}

#[test]
fn six_field_expression_is_accepted_as_written() {
    let s = series("0 0 18 * * Mon", MONDAY, None, None);
    let plan = plan_materialization(&s, MONDAY, &vec![]).unwrap();
    assert_eq!(plan.occurrences, monday_evenings());
}

#[test]
fn second_call_generates_nothing() {
    let s = series("0 18 * * Mon", MONDAY, None, None);
    let first = plan_materialization(&s, MONDAY, &vec![]).unwrap();
    let stored: Vec<i64> = first.occurrences.iter().map(|o| o.occurrence_date).collect();
    let s2 = series("0 18 * * Mon", MONDAY, None, first.last_generated_date);
    let second = plan_materialization(&s2, MONDAY, &stored).unwrap();
    assert_eq!(second.occurrences.len(), 0);
    assert_eq!(second.last_generated_date, None);
}

#[test]
fn existing_instances_are_not_rebuilt_and_cursor_stays() {
    let s = series("0 18 * * Mon", MONDAY, None, None);
    let existing = vec![19730, 19737, 19744, 19751];
    let plan = plan_materialization(&s, MONDAY, &existing).unwrap();
    assert!(plan.occurrences.is_empty());
    assert_eq!(plan.last_generated_date, None);
}

#[test]
fn cursor_moves_past_existing_instances_after_a_build() {
    let s = series("0 18 * * Mon", MONDAY, None, None);
    let existing = vec![19737, 19751];
    let plan = plan_materialization(&s, MONDAY, &existing).unwrap();
    assert_eq!(
        plan.occurrences,
        vec![
            Occurrence { scheduled_time: 1704736800, occurrence_date: 19730 },
            Occurrence { scheduled_time: 1705946400, occurrence_date: 19744 },
        ]
    );
    assert_eq!(plan.last_generated_date, Some(19751));
}

#[test]
fn batch_is_capped() {
    // Daily at noon, started forty days ago: far more than a batch is due.
    let s = series("0 0 12 * * *", MONDAY - 40, None, None);
    let plan = plan_materialization(&s, MONDAY, &vec![]).unwrap();
    assert_eq!(plan.occurrences.len(), MAX_BATCH_SIZE);
    let first = MONDAY - 39;
    for (k, o) in plan.occurrences.iter().enumerate() {
        assert_eq!(o.occurrence_date, first + k as i64);
        assert_eq!(o.scheduled_time, (first + k as i64) * 86400 + 12 * 3600);
    }
    assert_eq!(plan.last_generated_date, Some(first + 9));
}

#[test]
fn end_date_bounds_the_window() {
    let s = series("0 18 * * Mon", MONDAY, Some(19740), None);
    let plan = plan_materialization(&s, MONDAY, &vec![]).unwrap();
    assert_eq!(plan.occurrences, monday_evenings()[..2].to_vec());
    assert_eq!(plan.last_generated_date, Some(19737));
}

#[test]
fn window_starts_after_the_cursor() {
    let s = series("0 18 * * Mon", MONDAY, None, Some(19737));
    let plan = plan_materialization(&s, MONDAY, &vec![]).unwrap();
    assert_eq!(plan.occurrences, monday_evenings()[2..].to_vec());
    assert_eq!(plan.last_generated_date, Some(19751));
}

#[test]
fn look_ahead_is_thirty_days() {
    assert_eq!(LOOK_AHEAD_DAYS, 30);
    assert_eq!(MAX_BATCH_SIZE, 10);
    // Daily at noon from today: days 1 to 10 ahead, the batch binds first.
    let s = series("0 0 12 * * *", MONDAY, None, Some(MONDAY + 25));
    let plan = plan_materialization(&s, MONDAY, &vec![]).unwrap();
    let dates: Vec<i64> = plan.occurrences.iter().map(|o| o.occurrence_date).collect();
    assert_eq!(dates, vec![MONDAY + 26, MONDAY + 27, MONDAY + 28, MONDAY + 29, MONDAY + 30]);
}

#[test]
fn invalid_expression_is_rejected() {
    let s = series("every monday", MONDAY, None, None);
    assert_eq!(plan_materialization(&s, MONDAY, &vec![]).unwrap_err(), DaoError::InvalidExpression);
}

#[test]
fn create_recurring_game_checks_the_expression() {
    let err = create_recurring_game(&"t".to_string(), &"61 * * * *".to_string(), MONDAY, None, 5);
    assert_eq!(err.unwrap_err(), DaoError::InvalidExpression);
    let s = create_recurring_game(&"t".to_string(), &"0 18 * * Mon".to_string(), MONDAY, Some(MONDAY + 70), 5)
        .unwrap();
    assert_eq!(s.template_id, "t");
    assert_eq!(s.cron_schedule, "0 18 * * Mon");
    assert_eq!(s.start_date, MONDAY);
    assert_eq!(s.end_date, Some(MONDAY + 70));
    assert_eq!(s.last_generated_date, None);
    assert!(s.is_active);
    assert_eq!(s.created_at, 5);
    assert!(!s.id.is_empty());
}

#[test]
fn five_field_expressions_get_a_seconds_field() {
    assert_eq!(schedule_text_of("0 18 * * Mon"), "0 0 18 * * Mon");
    assert_eq!(schedule_text_of("  0 18\t* * 1 "), "0   0 18\t* * 1 ");
    assert_eq!(schedule_text_of("0 0 18 * * Mon"), "0 0 18 * * Mon");
    assert_eq!(schedule_text_of(""), "");
}

#[test]
fn planned_dates_are_distinct_and_within_the_window() {
    // Every six hours: four occurrences a day, one instance per date.
    let s = series("0 0 */6 * * *", MONDAY, None, Some(MONDAY + 2));
    let existing = vec![MONDAY + 4];
    let plan = plan_materialization(&s, MONDAY, &existing).unwrap();
    let dates: Vec<i64> = plan.occurrences.iter().map(|o| o.occurrence_date).collect();
    assert_eq!(dates, (MONDAY + 3..=MONDAY + 13).filter(|d| *d != MONDAY + 4).collect::<Vec<i64>>());
    for o in &plan.occurrences {
        // The first occurrence of each date, at midnight.
        assert_eq!(o.scheduled_time, o.occurrence_date * 86400);
    }
    assert_eq!(plan.last_generated_date, Some(MONDAY + 13));
}
