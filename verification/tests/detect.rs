//! Tests for transcript and sound-file detection.

use f4merge::detect::{accepted_file_endings, is_sound_file, is_transcript};

/// A content head in the shape of a reference transcript: RTF setup
/// followed by a wrapped utterance with a timestamp.
const REFERENCE_HEAD: &str = "{\\rtf1\\ansi\\deff0\\jexpand\r\n{\\f0 \\fs24 \\ul0 \\b0 \\i0 \\cf0 {\\f0 \\fs24 \\ul0 \\b0 \\i0 \\cf0 Z}{\\f0 \\fs24 \\ul0 \\b0 \\i0 \\cf0 : Zur\\'fcck zu den Methoden #00:00:17-5#}\\par}\r\n}";

#[test]
fn accept_reference_interview_01() {
    assert!(
        is_transcript("testdata/interview-01.rtf".as_bytes(), REFERENCE_HEAD.as_bytes()),
        "Reference F4 transcript was not recognized as transcript"
    );
}

#[test]
fn rtf_is_not_sound_file() {
    assert!(!is_sound_file("testdata/interview-01.rtf".as_bytes()));
}

#[test]
fn accepted_file_endings_in_upper_case_are_recognized_as_sound_files() {
    for ending in accepted_file_endings() {
        let ending = ending.to_uppercase();
        let path = format!("SOUND.{}", ending);
        assert!(
            is_sound_file(path.as_bytes()),
            "Expected the accepted file endings in upper case to be recognized as sound files, but {} was rejected", path
        )
    }
}

#[test]
fn accepted_file_endings_in_lower_case_are_recognized_as_sound_files() {
    for ending in accepted_file_endings() {
        let path = format!("sound.{}", ending);
        assert!(
            is_sound_file(path.as_bytes()),
            "Expected the accepted file endings in lower case to be recognized as sound files, but {} was rejected", path
        )
    }
}

#[test]
fn accepted_file_endings_are_lexicogrpahically_sorted() {
    let endings = accepted_file_endings();
    let endings_sorted = {
        let mut sorted = endings.clone();
        sorted.sort();
        sorted
    };
    assert_eq!(
        endings, endings_sorted,
        "Accepted file endings to be lexicographically sorted"
    )
}

#[test]
fn accepted_file_endings_have_no_duplicates() {
    let endings = accepted_file_endings();
    let endings_unique = {
        let mut sorted = endings.clone();
        sorted.dedup();
        sorted
    };
    assert_eq!(
        endings, endings_unique,
        "Accepted file endings might be sorted, but there are duplicate elements"
    )
}

#[test]
fn wrong_extension_is_not_a_transcript() {
    assert!(!is_transcript("notes.txt".as_bytes(), REFERENCE_HEAD.as_bytes()));
}

#[test]
fn rtf_without_timestamps_is_not_a_transcript() {
    let head = "{\\rtf1\\ansi\\deff0\\jexpand\r\nno timestamps anywhere in this head\r\n}";
    assert!(!is_transcript("testdata/interview-01.rtf".as_bytes(), head.as_bytes()));
}
