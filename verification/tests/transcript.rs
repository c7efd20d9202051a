//! Tests for the transcript document model.

use f4merge::timestamp::Timestamp;
use f4merge::transcript::{Error, FormatError, Transcript};

fn wrapped(inner: &str) -> String {
    format!("{{\\f0 \\fs24 \\ul0 \\b0 \\i0 \\cf0 {}\\par}}", inner)
}

fn file_with_content(content: &str) -> String {
    format!("{{\\rtf1\\ansi\\deff0\\jexpand\r\n{}\r\n}}", content)
}

#[test]
fn loads_a_wellformed_transcript() {
    let line = wrapped("{\\f0 \\fs24 \\ul0 \\b0 \\i0 \\cf0 I: Mhm. #00:14:57-9#}");
    let buf = file_with_content(&line);
    let transcript = Transcript::try_from(buf.as_bytes()).expect("expected a wellformed transcript");
    assert_eq!(
        transcript.preamble(),
        "{\\rtf1\\ansi\\deff0\\jexpand\r\n".as_bytes()
    );
    assert_eq!(transcript.content(), line.as_bytes());
    assert_eq!(transcript.epilogue(), "\r\n}".as_bytes());
    assert_eq!(
        transcript.interview_end_time(),
        Timestamp::parse("#00:15:00-0#".as_bytes()).unwrap()
    );
    assert_eq!(transcript.lines().items.len(), 1);
}

#[test]
fn rejects_a_missing_preamble_marker() {
    let buf = "{\\rtf1 no marker here #00:00:01-0#\r\n}";
    assert!(matches!(
        Transcript::try_from(buf.as_bytes()),
        Err(Error::Format(FormatError::MalformedPreamble))
    ));
}

#[test]
fn rejects_a_missing_epilogue() {
    let buf = "{\\rtf1\\jexpand\r\nbody #00:00:01-0# without closing brace";
    assert!(matches!(
        Transcript::try_from(buf.as_bytes()),
        Err(Error::Format(FormatError::MalformedEpilogue))
    ));
}

#[test]
fn rejects_a_transcript_without_timestamps() {
    let buf = file_with_content(&wrapped("no time markers in here"));
    assert!(matches!(
        Transcript::try_from(buf.as_bytes()),
        Err(Error::Format(FormatError::NoTimestampsFound))
    ));
}

#[test]
fn end_time_comes_from_the_last_timestamp_anywhere() {
    let content = format!(
        "{}\r\n{}",
        wrapped("{\\f0 \\fs24 \\ul0 \\b0 \\i0 \\cf0 I: Erstens. #00:10:00-0#}"),
        wrapped("{\\f0 \\fs24 \\ul0 \\b0 \\i0 \\cf0 Z: Zweitens. #00:58:58-7#}")
    );
    let buf = file_with_content(&content);
    let transcript = Transcript::try_from(buf.as_bytes()).unwrap();
    assert_eq!(
        String::from_utf8(transcript.interview_end_time().formatted()).unwrap(),
        "#00:59:00-0#"
    );
}
