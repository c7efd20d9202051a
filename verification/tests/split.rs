//! Tests for the segment-splitting path helpers.

use f4merge::split::{output_directory_or_interview_parent, segment_pattern};
use std::path::Path;

#[test]
fn output_directory_for_interview_with_parent_dir() {
    let preferred_output_dir = None;
    let interview = "testdata/interview.mp3".as_bytes();
    assert_eq!(
        output_directory_or_interview_parent(preferred_output_dir, interview).unwrap(),
        "testdata".as_bytes()
    );
}

#[test]
fn output_directory_for_interview_without_parent_dir_but_existing_preferred_dir() {
    let preferred_output_dir = Some("src".as_bytes());
    let interview = "testdata/interview.mp3".as_bytes();
    assert!(
        Path::new("src").is_dir(),
        "Expected for test that \"src\" is an existing directory"
    );
    assert_eq!(
        output_directory_or_interview_parent(preferred_output_dir, interview).unwrap(),
        "src".as_bytes()
    );
}

#[test]
fn output_directory_for_interview_without_parent_dir_and_without_preferred_dir() {
    let preferred_output_dir = None;
    let interview = "interview.mp3".as_bytes();
    assert_eq!(
        output_directory_or_interview_parent(preferred_output_dir, interview),
        None
    );
}

#[test]
fn pattern_for_interview_without_output_dir() {
    let output_dir = None;
    let interview = "interview.mp3".as_bytes();
    assert_eq!(
        segment_pattern(output_dir, interview),
        "interview-%03d.mp3".as_bytes()
    );
}

#[test]
fn pattern_for_interview_with_output_dir() {
    let output_dir = Some("src".as_bytes());
    let interview = "testdata/interview.mp3".as_bytes();
    assert_eq!(
        segment_pattern(output_dir, interview),
        "src/interview-%03d.mp3".as_bytes()
    );
}
