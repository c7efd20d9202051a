//! The document model: one loaded transcript, split into its preamble,
//! its body content and the estimated end time of its recording segment.

use vstd::prelude::*;

use super::err::{Error, FormatError};
use super::lines::Lines;
use crate::bytes::{ends_with, find_first, matches_at, spec_find};
use crate::timestamp::{
    spec_can_round_up, spec_last_ts, spec_round_up, Timestamp,
};
use vstd::string::StringSliceAdditionalSpecFns;

verus! {

/// The marker whose first occurrence ends the setup preamble.
pub open spec fn spec_preamble_end_pattern() -> Seq<u8> {
    "\\jexpand\r\n".spec_bytes()
}

/// The fixed closing bytes every transcript must end with.
pub open spec fn spec_epilogue() -> Seq<u8> {
    "\r\n}".spec_bytes()
}

/// Where a transcript's body starts: directly after the first occurrence
/// of the preamble-ending marker.
pub open spec fn spec_content_start(buf: Seq<u8>) -> Option<int> {
    match spec_find(buf, spec_preamble_end_pattern(), 0) {
        Some(i) => Some(i + spec_preamble_end_pattern().len()),
        None => None,
    }
}

/// Whether a transcript ends with the fixed epilogue; the body then ends
/// where the epilogue starts.
pub open spec fn spec_has_epilogue(buf: Seq<u8>) -> bool {
    matches_at(buf, spec_epilogue(), buf.len() - spec_epilogue().len())
}

/// One loaded transcript: the preamble before the body, the body
/// content, and the end time estimated from the last timestamp found
/// anywhere in the raw bytes.
#[derive(Clone, Debug)]
pub struct Transcript {
    /// The setup preamble, up to and including its ending marker.
    pub preamble: Vec<u8>,
    /// The body: everything strictly between the preamble-ending marker
    /// and the closing epilogue.
    pub content: Vec<u8>,
    /// The estimated length of the recording segment: the last
    /// timestamp, rounded up.
    pub interview_end_time: Timestamp,
}

/// How a loaded transcript relates to the raw bytes it was read from.
pub open spec fn spec_loaded(buf: Seq<u8>, t: Transcript) -> bool {
    &&& spec_content_start(buf) is Some
    &&& spec_has_epilogue(buf)
    &&& spec_content_start(buf)->Some_0 <= buf.len() - spec_epilogue().len()
    &&& spec_last_ts(buf) is Some
    &&& t.preamble@ == buf.subrange(0, spec_content_start(buf)->Some_0)
    &&& t.content@ == buf.subrange(
        spec_content_start(buf)->Some_0,
        buf.len() - spec_epilogue().len(),
    )
    &&& t.interview_end_time == spec_round_up(spec_last_ts(buf)->Some_0)
    &&& t.interview_end_time.wf()
}

impl Transcript {
    /// Reads a transcript out of raw file bytes: the preamble must end
    /// with its marker, the file must close with the fixed epilogue, and
    /// at least one timestamp must occur somewhere, else the matching
    /// error is reported.
    pub fn try_from(buf: &[u8]) -> (r: Result<Transcript, Error>)
        requires
            (spec_content_start(buf@) is Some && spec_has_epilogue(buf@)
                && spec_content_start(buf@)->Some_0 <= buf@.len() - spec_epilogue().len()
                && spec_last_ts(buf@) is Some) ==> spec_can_round_up(spec_last_ts(buf@)->Some_0),
        ensures
            match r {
                Ok(t) => spec_loaded(buf@, t),
                Err(e) => {
                    ||| (e == Error::Format(FormatError::MalformedPreamble) && spec_content_start(
                        buf@,
                    ) is None)
                    ||| (e == Error::Format(FormatError::MalformedEpilogue) && spec_content_start(
                        buf@,
                    ) is Some && (!spec_has_epilogue(buf@) || spec_content_start(buf@)->Some_0
                        > buf@.len() - spec_epilogue().len()))
                    ||| (e == Error::Format(FormatError::NoTimestampsFound) && spec_last_ts(
                        buf@,
                    ) is None)
                },
            },
    {
        let _bn: usize = buf.len();
        let pattern = "\\jexpand\r\n".as_bytes();
        let content_start: usize = match find_first(buf, pattern) {
            Some(i) => i + pattern.len(),
            None => {
                return Err(Error::malformed_preamble());
            },
        };
        let epilogue = "\r\n}".as_bytes();
        if !ends_with(buf, epilogue) {
            return Err(Error::malformed_epilogue());
        }
        let content_end: usize = buf.len() - epilogue.len();
        if content_start > content_end {
            return Err(Error::malformed_epilogue());
        }
        let last = match Timestamp::last_timestamp(buf) {
            Some(last) => last,
            None => {
                return Err(Error::no_timestamps_found());
            },
        };
        proof {
            crate::timestamp::lemma_last_ts_wf(buf@);
        }
        let interview_end_time = last.round_up();
        Ok(
            Transcript {
                preamble: vstd::slice::slice_to_vec(
                    vstd::slice::slice_subrange(buf, 0, content_start),
                ),
                content: vstd::slice::slice_to_vec(
                    vstd::slice::slice_subrange(buf, content_start, content_end),
                ),
                interview_end_time,
            },
        )
    }

    /// The part of the transcript before the body, including the RTF
    /// header.
    pub fn preamble(&self) -> (r: &[u8])
        ensures
            r@ == self.preamble@,
    {
        self.preamble.as_slice()
    }

    /// The body content, consumed line by line.
    pub fn content(&self) -> (r: &[u8])
        ensures
            r@ == self.content@,
    {
        self.content.as_slice()
    }

    /// The fixed closing bytes, identical for every transcript.
    pub fn epilogue(&self) -> (r: Vec<u8>)
        ensures
            r@ == spec_epilogue(),
    {
        let s = "\r\n}".as_bytes();
        vstd::slice::slice_to_vec(s)
    }

    /// The classified lines of the body.
    pub fn lines(&self) -> (r: Lines)
        ensures
            super::lines::spec_lines_classified(self.content@, r.items@),
    {
        Lines::new(self)
    }

    /// The estimated length of the recording segment.
    pub fn interview_end_time(&self) -> (r: Timestamp)
        ensures
            r == self.interview_end_time,
    {
        self.interview_end_time
    }

    /// Field bounds every loaded transcript satisfies.
    pub open spec fn wf(self) -> bool {
        self.interview_end_time.wf()
    }
}

} // verus!
