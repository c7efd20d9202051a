//! Tests for the merge engine.

use f4merge::transcript::{write_merged_transcript, Transcript};

const WRAP: &str = "{\\f0 \\fs24 \\ul0 \\b0 \\i0 \\cf0 ";
const EMPTY_PAR: &str = "{\\f0 \\fs24 \\ul0 \\b0 \\i0 \\cf0 \\par}";

fn utterance_line(speaker: &str, speech: &str) -> String {
    format!(
        "{}{}{}:}}{}{}}}\\par}}",
        WRAP, WRAP, speaker, WRAP, speech
    )
}

fn document(lines: &[String]) -> Transcript {
    let buf = format!(
        "{{\\rtf1\\ansi\\deff0\\jexpand\r\n{}\r\n}}",
        lines.join("\r\n")
    );
    Transcript::try_from(buf.as_bytes()).expect("test document should load")
}

#[test]
fn merging_nothing_writes_nothing() {
    let mut out = Vec::new();
    write_merged_transcript(&mut out, &Vec::new());
    assert!(out.is_empty());
}

#[test]
fn merging_one_document_keeps_its_lines_and_shifts_nothing() {
    let doc = document(&[
        EMPTY_PAR.to_string(),
        utterance_line("I", "Und dann? #00:00:10-0#"),
    ]);
    let mut out = Vec::new();
    write_merged_transcript(&mut out, &vec![doc]);
    let merged = String::from_utf8(out).unwrap();
    assert_eq!(
        merged,
        format!(
            "{{\\rtf1\\ansi\\deff0\\jexpand\r\n{}\r\n{}\r\n\r\n}}",
            EMPTY_PAR,
            utterance_line("I", "Und dann? #00:00:10-0#")
        )
    );
}

#[test]
fn merging_with_same_boundary_speaker_splices_the_turns() {
    let first = document(&[
        EMPTY_PAR.to_string(),
        utterance_line("Z", "Krass. #00:04:50-3#"),
    ]);
    let second = document(&[
        utterance_line("Z", "Genau. #00:00:10-0#"),
        EMPTY_PAR.to_string(),
    ]);

    let mut out = Vec::new();
    write_merged_transcript(&mut out, &vec![first, second]);
    let merged = String::from_utf8(out).unwrap();

    // The end time of the first document is #00:04:50-3# rounded up to
    // five minutes, so the second document's timestamps move by that;
    // the boundary turns share the speaker and fold into one line.
    let spliced = format!(
        "{}{}Z:}}{}Krass. #00:04:50-3# Genau. #00:05:10-0#}}\\par}}",
        WRAP, WRAP, WRAP
    );
    assert_eq!(
        merged,
        format!(
            "{{\\rtf1\\ansi\\deff0\\jexpand\r\n{}\r\n{}\r\n{}\r\n\r\n}}",
            EMPTY_PAR, spliced, EMPTY_PAR
        )
    );
}

#[test]
fn merging_with_different_boundary_speakers_keeps_both_lines() {
    let first = document(&[
        EMPTY_PAR.to_string(),
        utterance_line("Z", "Krass. #00:04:50-3#"),
    ]);
    let second = document(&[
        utterance_line("I", "Aha. #00:00:10-0#"),
        EMPTY_PAR.to_string(),
    ]);

    let mut out = Vec::new();
    write_merged_transcript(&mut out, &vec![first, second]);
    let merged = String::from_utf8(out).unwrap();

    assert_eq!(
        merged,
        format!(
            "{{\\rtf1\\ansi\\deff0\\jexpand\r\n{}\r\n{}\r\n{}\r\n{}\r\n\r\n}}",
            EMPTY_PAR,
            utterance_line("Z", "Krass. #00:04:50-3#"),
            utterance_line("I", "Aha. #00:05:10-0#"),
            EMPTY_PAR
        )
    );
}

#[test]
fn shifts_accumulate_across_three_documents() {
    let a = document(&[
        utterance_line("I", "Eins. #00:09:30-0#"),
        EMPTY_PAR.to_string(),
    ]);
    let b = document(&[
        utterance_line("I", "Zwei. #00:04:30-0#"),
        EMPTY_PAR.to_string(),
    ]);
    let c = document(&[
        utterance_line("I", "Drei. #00:00:30-0#"),
        EMPTY_PAR.to_string(),
    ]);

    let mut out = Vec::new();
    write_merged_transcript(&mut out, &vec![a, b, c]);
    let merged = String::from_utf8(out).unwrap();

    // The second document moves by ten minutes, the third by fifteen.
    assert!(merged.contains("Eins. #00:09:30-0#"));
    assert!(merged.contains("Zwei. #00:14:30-0#"));
    assert!(merged.contains("Drei. #00:15:30-0#"));
}
