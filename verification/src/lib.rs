//! Merging of segmented F4 interview transcripts.
//!
//! The library parses the timestamp notation embedded in transcript text,
//! tokenizes the RTF subset the transcripts are written in, classifies
//! content lines into speaker turns and plain paragraphs, and stitches an
//! ordered sequence of transcript documents into one continuous document
//! with correctly shifted timestamps.

pub mod detect;
pub mod split;
pub mod timestamp;
pub mod transcript;

mod bytes;
