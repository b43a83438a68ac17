use screenlock::config::parse_duration;
use screenlock::config::Layout;

#[test]
fn parses_seconds() {
    assert_eq!(parse_duration("90s"), Ok(90));
    assert_eq!(parse_duration("20s"), Ok(20));
    assert_eq!(parse_duration("0s"), Ok(0));
}

#[test]
fn parses_minutes() {
    assert_eq!(parse_duration("5m"), Ok(300));
    assert_eq!(parse_duration("30m"), Ok(1800));
}

#[test]
fn parses_hours() {
    assert_eq!(parse_duration("2h"), Ok(7200));
    assert_eq!(parse_duration("1h"), Ok(3600));
}

#[test]
fn rejects_missing_unit() {
    assert_eq!(
        parse_duration("90"),
        Err("Duration must end with 'h', 'm', or 's'".to_string())
    );
    assert_eq!(
        parse_duration(""),
        Err("Duration must end with 'h', 'm', or 's'".to_string())
    );
    assert_eq!(
        parse_duration("12q"),
        Err("Duration must end with 'h', 'm', or 's'".to_string())
    );
}

#[test]
fn rejects_non_numeric_magnitude() {
    assert_eq!(parse_duration("xs"), Err("Invalid seconds".to_string()));
    assert_eq!(parse_duration("1x2m"), Err("Invalid minutes".to_string()));
    assert_eq!(parse_duration("h"), Err("Invalid hours".to_string()));
    assert_eq!(parse_duration("-5s"), Err("Invalid seconds".to_string()));
    assert_eq!(parse_duration("+5s"), Err("Invalid seconds".to_string()));
}

#[test]
fn rejects_overflowing_magnitude() {
    assert_eq!(
        parse_duration("99999999999999999999h"),
        Err("Invalid hours".to_string())
    );
    assert_eq!(
        parse_duration("18446744073709551615h"),
        Err("Invalid hours".to_string())
    );
    assert_eq!(parse_duration("18446744073709551615s"), Ok(u64::MAX));
}

#[test]
fn layout_follows_title_height() {
    let layout = Layout::new(2);
    assert_eq!(layout.countdown_row, 0);
    assert_eq!(layout.title_row, 1);
    assert_eq!(layout.prompt_row, 4);
    assert_eq!(layout.feedback_row, 5);
}
