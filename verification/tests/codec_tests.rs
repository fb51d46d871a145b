use timetrack::codec::{format_duration, parse_time_string_to_seconds, render_as_token};
use timetrack::errors::TaskError;

#[test]
fn format_duration_zero() {
    assert_eq!("00:00:00", format_duration(0));
}

#[test]
fn format_duration_mixed() {
    assert_eq!("01:01:01", format_duration(3661));
}

#[test]
fn format_duration_hours_not_wrapped() {
    assert_eq!("25:00:00", format_duration(90000));
}

#[test]
fn format_duration_three_digit_hours() {
    assert_eq!("120:02:03", format_duration(120 * 3600 + 123));
}

#[test]
fn parse_hours_and_minutes() {
    assert_eq!(Ok(5400), parse_time_string_to_seconds("1h30m"));
}

#[test]
fn parse_minutes_only() {
    assert_eq!(Ok(2700), parse_time_string_to_seconds("45m"));
}

#[test]
fn parse_hours_only() {
    assert_eq!(Ok(7200), parse_time_string_to_seconds("2h"));
}

#[test]
fn parse_empty_fails() {
    assert_eq!(Err(TaskError::InvalidFormat), parse_time_string_to_seconds(""));
}

#[test]
fn parse_non_digit_hours_fails() {
    assert_eq!(Err(TaskError::InvalidFormat), parse_time_string_to_seconds("xh"));
}

#[test]
fn parse_no_marker_fails() {
    assert_eq!(Err(TaskError::InvalidFormat), parse_time_string_to_seconds("90"));
}

#[test]
fn parse_missing_minute_digits_fails() {
    assert_eq!(Err(TaskError::InvalidFormat), parse_time_string_to_seconds("1hm"));
}

#[test]
fn parse_minutes_before_hours_fails() {
    assert_eq!(Err(TaskError::InvalidFormat), parse_time_string_to_seconds("30m2h"));
}

#[test]
fn parse_huge_number_fails_instead_of_aborting() {
    assert_eq!(
        Err(TaskError::InvalidFormat),
        parse_time_string_to_seconds("99999999999999999999h")
    );
}

#[test]
fn render_token_forms() {
    assert_eq!("0m", render_as_token(0));
    assert_eq!("1m", render_as_token(60));
    assert_eq!("1h", render_as_token(3600));
    assert_eq!("1h30m", render_as_token(5400));
    assert_eq!("25h1m", render_as_token(25 * 3600 + 60));
}

#[test]
fn parse_of_rendered_token_round_trips() {
    for s in [0u64, 60, 120, 3600, 5400, 7260, 90000, 359940] {
        let token = render_as_token(s);
        assert_eq!(Ok(s), parse_time_string_to_seconds(&token));
    }
}

#[test]
fn render_drops_seconds_below_a_minute() {
    assert_eq!("1m", render_as_token(119));
    assert_eq!(Ok(60), parse_time_string_to_seconds(&render_as_token(119)));
}
