//! Tests for the line classifier.

use f4merge::timestamp::Timestamp;
use f4merge::transcript::lines::{Line, Lines, Utterance};

#[test]
fn speaker_speech_in_one() {
    // given
    const UTTERANCE_RTF: &str =
        "{\\f0 \\fs24 \\ul0 \\b0 \\i0 \\cf0 Z: Ich glaube auch, dass es nicht stimmt}";

    // when
    let utterance =
        Utterance::try_from(UTTERANCE_RTF.as_bytes()).expect("could not parse as utterance");
    let speaker = utterance.speaker();
    let speech = utterance.speech();

    // then
    assert_eq!(speaker, "Z".as_bytes());
    assert_eq!(speech, "Ich glaube auch, dass es nicht stimmt".as_bytes());
}

#[test]
fn alternative_preamble_is_accepted() {
    const LINE: &str = "{\\f1 \\fs24 \\ul0 \\b0 \\i0 \\cf0 {\\f1 \\fs24 \\ul0 \\b0 \\i0 \\cf0 I: Mhm. #00:03:10-1#}\\par}";
    let utterance = Lines::parse_line(LINE.as_bytes());
    assert!(
        utterance.utterance().is_some(),
        "Not an utterance: {:?}",
        utterance
    );
}

#[test]
fn wrapped_line_with_nested_groups_is_an_utterance() {
    // A line made of the wrapper, a speaker group, a speech group and
    // the closing marker classifies as an utterance with the speaker
    // label and the speech trimmed.
    const LINE: &str = "{\\f0 \\fs24 \\ul0 \\b0 \\i0 \\cf0 {\\f0 \\fs24 \\ul0 \\b0 \\i0 \\cf0 I}{\\f0 \\fs24 \\ul0 \\b0 \\i0 \\cf0 : Mhm, genau. #00:00:19-0#}\\par}";
    let line = Lines::parse_line(LINE.as_bytes());
    let utterance = line.utterance().expect("expected an utterance");
    assert_eq!(utterance.speaker(), "I".as_bytes());
    assert_eq!(utterance.speech(), "Mhm, genau. #00:00:19-0#".as_bytes());
}

#[test]
fn empty_wrapped_line_is_an_empty_paragraph() {
    const LINE: &str = "{\\f0 \\fs24 \\ul0 \\b0 \\i0 \\cf0 \\par}";
    let line = Lines::parse_line(LINE.as_bytes());
    let paragraph = line.paragraph().expect("expected a paragraph");
    assert!(paragraph.content().is_empty());
}

#[test]
fn unwrapped_line_passes_through_verbatim() {
    const LINE: &str = "no wrapper here at all";
    let line = Lines::parse_line(LINE.as_bytes());
    match &line {
        Line::Other(bytes) => assert_eq!(bytes.as_slice(), LINE.as_bytes()),
        other => panic!("expected verbatim passthrough, got {:?}", other),
    }
    let mut out = Vec::new();
    line.write_adjusted(&mut out, Timestamp::zero());
    assert_eq!(String::from_utf8(out).unwrap(), "no wrapper here at all\r\n");
}

#[test]
fn utterance_write_rewrites_timestamps() {
    const LINE: &str = "{\\f0 \\fs24 \\ul0 \\b0 \\i0 \\cf0 {\\f0 \\fs24 \\ul0 \\b0 \\i0 \\cf0 Z:}{\\f0 \\fs24 \\ul0 \\b0 \\i0 \\cf0 Genau. #00:00:19-0#}\\par}";
    let line = Lines::parse_line(LINE.as_bytes());
    let shift = Timestamp::parse("#1:00:00-0#".as_bytes()).unwrap();
    let mut out = Vec::new();
    line.write_adjusted(&mut out, shift);
    assert_eq!(
        String::from_utf8(out).unwrap(),
        "{\\f0 \\fs24 \\ul0 \\b0 \\i0 \\cf0 {\\f0 \\fs24 \\ul0 \\b0 \\i0 \\cf0 Z:}{\\f0 \\fs24 \\ul0 \\b0 \\i0 \\cf0 Genau. #01:00:19-0#}\\par}\r\n"
    );
}
