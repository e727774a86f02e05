use agon::calendar::{date_of_instant, start_of_day};

#[test]
fn dates_of_instants_round_down() {
    assert_eq!(date_of_instant(0), 0);
    assert_eq!(date_of_instant(86399), 0);
    assert_eq!(date_of_instant(86400), 1);
    assert_eq!(date_of_instant(-1), -1);
    assert_eq!(date_of_instant(-86400), -1);
    assert_eq!(date_of_instant(-86401), -2);
    assert_eq!(date_of_instant(1704736800), 19730);
}

#[test]
fn start_of_day_is_midnight() {
    assert_eq!(start_of_day(19730), 1704672000);
    assert_eq!(start_of_day(-1), -86400);
    assert_eq!(date_of_instant(start_of_day(19730)), 19730);
}
