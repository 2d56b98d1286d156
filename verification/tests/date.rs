use todo_txt::Date;

#[test]
fn parse_plain_date() {
    assert_eq!(Date::from_str("2016-03-24"), Ok(Date::from_ymd(2016, 3, 24)));
}

#[test]
fn parse_rejects_bad_month() {
    assert_eq!(Date::from_str("2016-13-01"), Err(()));
    assert_eq!(Date::from_str("2016-00-01"), Err(()));
}

#[test]
fn parse_rejects_bad_day() {
    assert_eq!(Date::from_str("2016-01-32"), Err(()));
    assert_eq!(Date::from_str("2016-01-00"), Err(()));
}

#[test]
fn parse_does_not_check_month_length() {
    // Field extraction is best-effort: the day is bounded by 31 alone,
    // never checked against the month.
    assert_eq!(Date::from_str("2016-02-31"), Ok(Date::from_ymd(2016, 2, 31)));
}

#[test]
fn parse_rejects_wrong_shape() {
    assert_eq!(Date::from_str(""), Err(()));
    assert_eq!(Date::from_str("16-3-4"), Err(()));
    assert_eq!(Date::from_str("2016-03-241"), Err(()));
    assert_eq!(Date::from_str("2016/03/24"), Err(()));
    assert_eq!(Date::from_str("20a6-03-24"), Err(()));
}

#[test]
fn date_render_exact() {
    assert_eq!(Date::from_ymd(2016, 3, 24).render(), "2016-03-24");
    assert_eq!(Date::from_ymd(7, 1, 2).render(), "0007-01-02");
    assert_eq!(Date::from_ymd(9999, 12, 31).render(), "9999-12-31");
}

#[test]
fn render_reparses() {
    let d = Date::from_ymd(2020, 8, 14);
    assert_eq!(Date::from_str(&d.render()), Ok(d));
}
