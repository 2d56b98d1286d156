use todo_txt::Recurrence;

#[test]
fn parse_hard_weekly() {
    assert_eq!(Recurrence::from_str("+1w"), Ok(Recurrence::Weekly(true, 1)));
}

#[test]
fn parse_soft_daily() {
    assert_eq!(Recurrence::from_str("10d"), Ok(Recurrence::Daily(false, 10)));
}

#[test]
fn parse_other_kinds() {
    assert_eq!(Recurrence::from_str("3b"), Ok(Recurrence::BDaily(false, 3)));
    assert_eq!(Recurrence::from_str("+2m"), Ok(Recurrence::Monthly(true, 2)));
    assert_eq!(Recurrence::from_str("7y"), Ok(Recurrence::Yearly(false, 7)));
}

#[test]
fn parse_empty_fails() {
    assert_eq!(Recurrence::from_str(""), Err(()));
}

#[test]
fn parse_missing_number_fails() {
    assert_eq!(Recurrence::from_str("w"), Err(()));
    assert_eq!(Recurrence::from_str("+w"), Err(()));
}

#[test]
fn parse_bad_suffix_fails() {
    assert_eq!(Recurrence::from_str("1x"), Err(()));
}

#[test]
fn parse_plus_alone_fails() {
    assert_eq!(Recurrence::from_str("+"), Err(()));
}

#[test]
fn parse_overflow_fails() {
    assert_eq!(Recurrence::from_str("99999d"), Err(()));
    assert_eq!(Recurrence::from_str("65535d"), Ok(Recurrence::Daily(false, 65535)));
}

#[test]
fn recurrence_render_exact() {
    assert_eq!(Recurrence::Weekly(true, 1).render(), "rec:+1w");
    assert_eq!(Recurrence::Daily(false, 10).render(), "rec:10d");
    assert_eq!(Recurrence::BDaily(true, 0).render(), "rec:+0b");
}

#[test]
fn render_body_reparses() {
    let values = [
        Recurrence::Weekly(true, 1),
        Recurrence::Daily(false, 10),
        Recurrence::Monthly(true, 65535),
        Recurrence::Yearly(false, 0),
    ];
    for v in values {
        let rendered = v.render();
        let body = rendered.strip_prefix("rec:").expect("rendering starts with rec:");
        assert_eq!(Recurrence::from_str(body), Ok(v));
    }
}
