//! Loading, classifying and merging of transcript documents.

pub mod err;
pub mod lines;
pub mod merge;
pub mod rtf;
pub mod transcript;

pub use err::Error;
pub use err::FormatError;
pub use merge::write_merged_transcript;
pub use transcript::Transcript;
