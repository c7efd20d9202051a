//! Tests for the timestamp codec.

use f4merge::timestamp::{Timestamp, MAX_HOURS};

#[test]
fn recognize_normal_timestamp() {
    assert!(Timestamp::is_timestamp("#00:06:00-0#".as_bytes()))
}

#[test]
fn reject_missing_colon() {
    assert!(!Timestamp::is_timestamp("#00:0600-0#".as_bytes()))
}

#[test]
fn reject_point_instead_of_dash() {
    assert!(!Timestamp::is_timestamp("#00:06:00.0#".as_bytes()))
}

#[test]
fn parsing() {
    // given
    let hours = 38;
    let minutes = 42;
    let seconds = 17;
    let subsecs = 9;
    let formatted = &format!(
        "#{hours}:{minutes}:{seconds}-{subsecs}#",
        hours = hours,
        minutes = minutes,
        seconds = seconds,
        subsecs = subsecs
    );

    // when
    let parsed = Timestamp::parse(formatted.as_bytes()).expect("unexpected parse fail");

    // then
    assert_eq!(formatted, "#38:42:17-9#");
    assert_eq!(parsed.hours(), hours);
    assert_eq!(parsed.minutes(), minutes);
    assert_eq!(parsed.seconds(), seconds);
    assert_eq!(parsed.subsecs(), subsecs);
}

#[test]
fn adjust_with_adding() {
    let a = Timestamp::parse("#58:58:57-9#".as_bytes()).unwrap();
    let b = Timestamp::parse("#2:03:04-9#".as_bytes()).unwrap();
    let a_plus_b = Timestamp::parse("#61:02:02-8#".as_bytes()).unwrap();
    assert_eq!(
        a.add(b),
        a_plus_b,
        "\nExpected: {:?}\n        + {:?}\nto be:    {:?},\nbut was:  {:?}",
        a,
        b,
        a_plus_b,
        a.add(b)
    )
}

#[test]
fn round_up_at_hours() {
    let a = Timestamp::parse("#58:58:57-9#".as_bytes()).unwrap();
    let rounded_up = Timestamp::parse("#59:00:00-0#".as_bytes()).unwrap();
    assert_eq!(a.round_up(), rounded_up)
}

#[test]
fn round_up_at_minutes() {
    let a = Timestamp::parse("#00:14:57-9#".as_bytes()).unwrap();
    let rounded_up = Timestamp::parse("#00:15:00-0#".as_bytes()).unwrap();
    assert_eq!(a.round_up(), rounded_up)
}

#[test]
fn display() {
    let source = "#58:58:57-9#";
    let parsed = Timestamp::parse(source.as_bytes()).unwrap();
    let formatted = String::from_utf8(parsed.formatted()).unwrap();
    assert_eq!(formatted, source);
}

#[test]
fn allow_max_hours() {
    let source = format!("#{}:00:00-0#", MAX_HOURS);
    let parsed = Timestamp::parse(source.as_bytes()).unwrap();
    let formatted = String::from_utf8(parsed.formatted()).unwrap();
    assert_eq!(parsed.hours(), MAX_HOURS);
    assert_eq!(formatted, source);
}

#[test]
#[should_panic]
fn fail_parsing_out_of_bounds_hours() {
    let source = &format!("#{}:00:00-0#", MAX_HOURS + 1);
    Timestamp::parse(source.as_bytes()).unwrap();
}

#[test]
#[should_panic]
fn fail_parsing_out_of_bounds_minutes() {
    let source = "#00:60:00-0#";
    Timestamp::parse(source.as_bytes()).unwrap();
}

#[test]
#[should_panic]
fn fail_parsing_out_of_bounds_seconds() {
    let source = "#00:00:60-0#";
    Timestamp::parse(source.as_bytes()).unwrap();
}

#[test]
#[should_panic]
fn fail_parsing_out_of_bounds_subseconds() {
    let source = "#00:00:00-10#";
    Timestamp::parse(source.as_bytes()).unwrap();
}

#[test]
fn allow_one_digit_timestamp_components() {
    assert_eq!(
        Timestamp::parse("#1:2:3-4#".as_bytes()).unwrap().canonicalize_len(),
        Timestamp::parse("#01:02:03-4#".as_bytes()).unwrap()
    )
}

#[test]
fn roundtrip_through_canonical_text() {
    // Formatting then parsing gives the value back, at canonical widths.
    for source in ["#00:00:00-0#", "#07:30:59-9#", "#123:45:06-7#", "#4095:59:59-9#"] {
        let parsed = Timestamp::parse(source.as_bytes()).unwrap();
        let reparsed = Timestamp::parse(&parsed.formatted()).unwrap();
        assert_eq!(parsed, reparsed);
    }
}

#[test]
fn reject_malformed_shapes() {
    for source in [
        "00:06:00-0#",
        "#00;06:00-0#",
        "#00:06:00-0",
        "#:06:00-0#",
        "#00:06:00--0#",
        "#00:06:00-a#",
        "##00:06:00-0#",
        "#000:006:00-0#",
    ] {
        assert!(
            Timestamp::parse(source.as_bytes()).is_err(),
            "{} should not parse",
            source
        );
    }
}

#[test]
fn extract_finds_every_window_match() {
    let text = "x #1:2:3-4# yy #05:06:07-8# tail padding".as_bytes();
    let found = Timestamp::extract_timestamps(text);
    assert_eq!(found.len(), 2);
    assert_eq!(found[0].0, 2);
    assert_eq!(found[0].1.hours(), 1);
    assert_eq!(found[1].0, 15);
    assert_eq!(found[1].1.seconds(), 7);
}

#[test]
fn last_timestamp_takes_the_rightmost() {
    let text = "a #1:2:3-4# b #9:08:07-6# c padding".as_bytes();
    let last = Timestamp::last_timestamp(text).unwrap();
    assert_eq!(last.hours(), 9);
    assert!(Timestamp::last_timestamp("no timestamps in here".as_bytes()).is_none());
}

#[test]
fn rewrite_shifts_every_timestamp() {
    let shift = Timestamp::parse("#1:00:00-0#".as_bytes()).unwrap();
    let mut out = Vec::new();
    let last =
        Timestamp::write_with_adjusted_timestamps(&mut out, "a #1:2:3-4# b #2:3:4-5# c!".as_bytes(), shift);
    assert_eq!(String::from_utf8(out).unwrap(), "a #02:02:03-4# b #03:03:04-5# c!");
    assert_eq!(last, Some(Timestamp::parse("#03:03:04-5#".as_bytes()).unwrap().canonicalize_len()));
}

#[test]
fn rewrite_without_timestamps_copies_verbatim() {
    let shift = Timestamp::zero();
    let mut out = Vec::new();
    let last = Timestamp::write_with_adjusted_timestamps(&mut out, "plain text".as_bytes(), shift);
    assert_eq!(out, "plain text".as_bytes());
    assert!(last.is_none());
}

#[test]
fn round_up_keeps_whole_units() {
    let whole_hour = Timestamp::parse("#03:00:00-0#".as_bytes()).unwrap();
    assert_eq!(whole_hour.round_up(), whole_hour);
    let zero = Timestamp::parse("#00:00:00-0#".as_bytes()).unwrap();
    assert_eq!(
        zero.round_up(),
        Timestamp::parse("#00:00:00-0#".as_bytes()).unwrap().canonicalize_len()
    );
    let seconds_only = Timestamp::parse("#00:00:30-0#".as_bytes()).unwrap();
    assert_eq!(
        String::from_utf8(seconds_only.round_up().formatted()).unwrap(),
        "#00:01:00-0#"
    );
}
