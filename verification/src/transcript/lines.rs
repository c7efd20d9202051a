//! Classification of transcript content lines.
//!
//! Every content line is expected to open with a fixed structural
//! wrapper of six control words and to close with `\par}`. A line that
//! does is an utterance (a speaker and their speech) or a plain
//! paragraph; anything else is passed through verbatim.

use vstd::prelude::*;

use crate::bytes::{bytes_eq, find_first, spec_find, spec_trim, trim_slice};
use crate::timestamp::{spec_rewrite_from, spec_rewrite_ok, spec_zero, Timestamp};
use super::rtf::{
    lemma_text_tokens_from_props, lemma_tokens_from_props, spec_text_tokens, spec_tokens,
    text_tokens_of, tokens_of, Token, TokenKind,
};
use vstd::string::StringSliceAdditionalSpecFns;

verus! {

/// The canonical wrapper written at the beginning of every emitted line.
pub open spec fn spec_line_preamble() -> Seq<u8> {
    "{\\f0 \\fs24 \\ul0 \\b0 \\i0 \\cf0 ".spec_bytes()
}

/// The closing marker written at the end of every emitted line.
pub open spec fn spec_line_epilogue() -> Seq<u8> {
    "\\par}".spec_bytes()
}

/// The line terminator of the document format.
pub open spec fn spec_crlf() -> Seq<u8> {
    "\r\n".spec_bytes()
}

/// The bytes of the line a token covers.
pub open spec fn tok_bytes(l: Seq<u8>, t: Token) -> Seq<u8> {
    l.subrange(t.source.start as int, t.source.end as int)
}

/// Whether the line opens with the structural wrapper: a group-open
/// followed by six control-word/parameter/delimiter triples whose names
/// are the fixed sequence font, font size, underline, bold, italic,
/// color. The parameter values are not inspected.
pub open spec fn spec_wrapper_ok(l: Seq<u8>) -> bool {
    let ts = spec_tokens(l);
    &&& ts.len() >= 19
    &&& ts[0].kind is GroupStart
    &&& ts[1].kind is ControlWord
    &&& tok_bytes(l, ts[1]) == "\\f".spec_bytes()
    &&& ts[2].kind is Parameter
    &&& ts[3].kind is Delimiter
    &&& ts[4].kind is ControlWord
    &&& tok_bytes(l, ts[4]) == "\\fs".spec_bytes()
    &&& ts[5].kind is Parameter
    &&& ts[6].kind is Delimiter
    &&& ts[7].kind is ControlWord
    &&& tok_bytes(l, ts[7]) == "\\ul".spec_bytes()
    &&& ts[8].kind is Parameter
    &&& ts[9].kind is Delimiter
    &&& ts[10].kind is ControlWord
    &&& tok_bytes(l, ts[10]) == "\\b".spec_bytes()
    &&& ts[11].kind is Parameter
    &&& ts[12].kind is Delimiter
    &&& ts[13].kind is ControlWord
    &&& tok_bytes(l, ts[13]) == "\\i".spec_bytes()
    &&& ts[14].kind is Parameter
    &&& ts[15].kind is Delimiter
    &&& ts[16].kind is ControlWord
    &&& tok_bytes(l, ts[16]) == "\\cf".spec_bytes()
    &&& ts[17].kind is Parameter
    &&& ts[18].kind is Delimiter
}

/// The content range of a wrapped line: from the end of the wrapper to
/// the start of the closing marker the line must end with.
pub open spec fn spec_trim_range(l: Seq<u8>) -> Option<(int, int)> {
    if spec_wrapper_ok(l) {
        let cs = spec_tokens(l)[18].source.end as int;
        let ce = l.len() - spec_line_epilogue().len();
        if cs <= ce && l.subrange(ce, l.len() as int) == spec_line_epilogue() {
            Some((cs, ce))
        } else {
            None
        }
    } else {
        None
    }
}

/// The speaker and speech spans of an utterance, as offsets into the
/// wrapped line's content: speaker start and end, then speech start and
/// end. The speaker is the first text run; the speech begins after the
/// colon that closes the speaker label, wherever the markup put it, and
/// extends to the end of the last text run.
pub open spec fn spec_utterance_spans(l: Seq<u8>) -> Option<(int, int, int, int)> {
    let ts = spec_text_tokens(l);
    if ts.len() == 0 {
        None
    } else {
        let t0 = ts[0];
        let b0 = tok_bytes(l, t0);
        let ss = t0.source.start as int;
        if b0.len() > 1 && b0.last() == 58 {
            if ts.len() < 2 {
                None
            } else {
                let pe = if ts.len() > 2 {
                    ts.last().source.end as int
                } else {
                    ts[1].source.end as int
                };
                Some((ss, t0.source.end - 1, ts[1].source.start as int, pe))
            }
        } else if spec_find(b0, ": ".spec_bytes(), 0) is Some {
            let rel = spec_find(b0, ": ".spec_bytes(), 0)->Some_0;
            let pe = if ts.len() > 1 {
                ts.last().source.end as int
            } else {
                t0.source.end as int
            };
            Some((ss, ss + rel, ss + rel + 2, pe))
        } else if ts.len() < 2 {
            None
        } else {
            let t1 = ts[1];
            let b1 = tok_bytes(l, t1);
            if b1 == ":".spec_bytes() || b1 == ": ".spec_bytes() {
                if ts.len() < 3 {
                    None
                } else {
                    let pe = if ts.len() > 3 {
                        ts.last().source.end as int
                    } else {
                        ts[2].source.end as int
                    };
                    Some((ss, t0.source.end as int, ts[2].source.start as int, pe))
                }
            } else if b1.len() > 2 && b1[0] == 58 && b1[1] == 32 {
                let pe = if ts.len() > 2 {
                    ts.last().source.end as int
                } else {
                    t1.source.end as int
                };
                Some((ss, t0.source.end as int, t1.source.start + 2, pe))
            } else {
                None
            }
        }
    }
}

/// A paragraph: wrapped content with no recognized speaker marker. Holds
/// the content between the wrapper and the closing marker.
#[derive(Debug)]
pub struct Paragraph {
    pub content: Vec<u8>,
}

impl Paragraph {
    /// Wraps paragraph content.
    pub fn new(content: Vec<u8>) -> (r: Paragraph)
        ensures
            r.content@ == content@,
    {
        Paragraph { content }
    }

    /// The content between the wrapper and the closing marker.
    pub fn content(&self) -> (r: &[u8])
        ensures
            r@ == self.content@,
    {
        self.content.as_slice()
    }

    /// Writes the paragraph with its timestamps shifted by `adjust_by`,
    /// wrapped in the canonical line preamble and closing marker.
    pub fn write_adjusted(&self, to: &mut Vec<u8>, adjust_by: Timestamp)
        requires
            adjust_by.wf(),
            spec_rewrite_ok(self.content@, adjust_by, 0),
        ensures
            final(to)@ == old(to)@ + spec_paragraph_out(*self, adjust_by),
    {
        crate::bytes::append_bytes(to, "{\\f0 \\fs24 \\ul0 \\b0 \\i0 \\cf0 ".as_bytes());
        Timestamp::write_with_adjusted_timestamps(to, self.content.as_slice(), adjust_by);
        crate::bytes::append_bytes(to, "\\par}".as_bytes());
        crate::bytes::append_bytes(to, "\r\n".as_bytes());
        proof {
            assert(to@ =~= old(to)@ + spec_paragraph_out(*self, adjust_by));
        }
    }
}

/// The bytes a paragraph is written as.
pub open spec fn spec_paragraph_out(p: Paragraph, by: Timestamp) -> Seq<u8> {
    spec_line_preamble() + spec_rewrite_from(p.content@, by, 0) + spec_line_epilogue() + spec_crlf()
}

/// An utterance: one speaker's turn. The five fields partition the
/// wrapped line's content; `speaker` and `speech` carry the extracted
/// spans, the others the surrounding markup needed to reproduce the line
/// verbatim.
#[derive(Debug)]
pub struct Utterance {
    pub speaker_before: Vec<u8>,
    pub speaker: Vec<u8>,
    pub speaker_after: Vec<u8>,
    pub speech: Vec<u8>,
    pub speech_after: Vec<u8>,
}

/// The bytes an utterance is written as: the wrapper, the markup around
/// the speaker label, the trimmed speech with shifted timestamps, then —
/// when extra speech is spliced in — a separating space and the trimmed
/// extra speech under its own shift, and the closing markup.
pub open spec fn spec_utterance_out(
    u: Utterance,
    by: Timestamp,
    extra: Seq<u8>,
    extra_by: Timestamp,
) -> Seq<u8> {
    spec_line_preamble() + u.speaker_before@ + u.speaker@ + u.speaker_after@ + spec_rewrite_from(
        spec_trim(u.speech@),
        by,
        0,
    ) + (if extra.len() > 0 {
        " ".spec_bytes()
    } else {
        Seq::<u8>::empty()
    }) + spec_rewrite_from(spec_trim(extra), extra_by, 0) + u.speech_after@ + spec_line_epilogue()
        + spec_crlf()
}

impl Utterance {
    /// The speaker label, trimmed of surrounding whitespace.
    pub fn speaker(&self) -> (r: &[u8])
        ensures
            r@ == spec_trim(self.speaker@),
    {
        trim_slice(self.speaker.as_slice())
    }

    /// The speech, trimmed of surrounding whitespace.
    pub fn speech(&self) -> (r: &[u8])
        ensures
            r@ == spec_trim(self.speech@),
    {
        trim_slice(self.speech.as_slice())
    }

    /// Writes the utterance with its timestamps shifted by `adjust_by`.
    pub fn write_adjusted(&self, to: &mut Vec<u8>, adjust_by: Timestamp)
        requires
            adjust_by.wf(),
            spec_rewrite_ok(spec_trim(self.speech@), adjust_by, 0),
        ensures
            final(to)@ == old(to)@ + spec_utterance_out(
                *self,
                adjust_by,
                Seq::<u8>::empty(),
                spec_zero(),
            ),
    {
        let empty: Vec<u8> = Vec::new();
        self.write_adjusted_with_extra_speech(to, adjust_by, empty.as_slice(), Timestamp::zero());
    }

    /// Writes the utterance with its timestamps shifted by `adjust_by`
    /// and, after a separating space, the extra speech with its
    /// timestamps shifted by `extra_speech_adjust` — one output line
    /// carrying two speech spans under two different shifts.
    pub fn write_adjusted_with_extra_speech(
        &self,
        to: &mut Vec<u8>,
        adjust_by: Timestamp,
        extra_speech: &[u8],
        extra_speech_adjust: Timestamp,
    )
        requires
            adjust_by.wf(),
            extra_speech_adjust.wf(),
            spec_rewrite_ok(spec_trim(self.speech@), adjust_by, 0),
            spec_rewrite_ok(spec_trim(extra_speech@), extra_speech_adjust, 0),
        ensures
            final(to)@ == old(to)@ + spec_utterance_out(
                *self,
                adjust_by,
                extra_speech@,
                extra_speech_adjust,
            ),
    {
        crate::bytes::append_bytes(to, "{\\f0 \\fs24 \\ul0 \\b0 \\i0 \\cf0 ".as_bytes());
        crate::bytes::append_bytes(to, self.speaker_before.as_slice());
        crate::bytes::append_bytes(to, self.speaker.as_slice());
        crate::bytes::append_bytes(to, self.speaker_after.as_slice());
        let speech = trim_slice(self.speech.as_slice());
        Timestamp::write_with_adjusted_timestamps(to, speech, adjust_by);
        if extra_speech.len() > 0 {
            crate::bytes::append_bytes(to, " ".as_bytes());
        }
        let extra = trim_slice(extra_speech);
        Timestamp::write_with_adjusted_timestamps(to, extra, extra_speech_adjust);
        crate::bytes::append_bytes(to, self.speech_after.as_slice());
        crate::bytes::append_bytes(to, "\\par}".as_bytes());
        crate::bytes::append_bytes(to, "\r\n".as_bytes());
        proof {
            assert(to@ =~= old(to)@ + spec_utterance_out(
                *self,
                adjust_by,
                extra_speech@,
                extra_speech_adjust,
            ));
        }
    }

    /// Extracts the speaker and speech spans from wrapped line content,
    /// or reports that no speaker marker was recognized.
    pub fn try_from(par: &[u8]) -> (r: Result<Utterance, ()>)
        ensures
            match r {
                Ok(u) => spec_utterance_spans(par@) is Some && spec_utterance_fields(par@, u),
                Err(_) => spec_utterance_spans(par@) is None,
            },
    {
        let ghost l = par@;
        let _n: usize = par.len();
        assert(l.len() <= usize::MAX);
        let ts = text_tokens_of(par);
        proof {
            lemma_text_tokens_from_props(l, 0, None);
        }
        if ts.len() == 0 {
            return Err(());
        }
        let t0 = ts[0];
        assert(t0 == spec_text_tokens(l)[0]);
        let b0 = t0.as_str(par);
        let ss: usize = t0.source.start;
        if b0.len() > 1 && b0[b0.len() - 1] == 58 {
            assert(tok_bytes(l, t0).last() == 58);
            if ts.len() < 2 {
                return Err(());
            }
            let t1 = ts[1];
            let se: usize = t0.source.end - 1;
            let ps: usize = t1.source.start;
            let pe: usize = if ts.len() > 2 {
                let tl = ts[ts.len() - 1];
                assert(tl == spec_text_tokens(l).last());
                tl.source.end
            } else {
                t1.source.end
            };
            Ok(Utterance::from_spans(par, ss, se, ps, pe))
        } else {
            let mut needle: Vec<u8> = Vec::new();
            needle.push(58);
            needle.push(32);
            proof {
                assert(needle@ =~= ": ".spec_bytes()) by {
                    reveal_strlit(": ");
                    assert(": ".is_ascii());
                    vstd::string::is_ascii_spec_bytes(": ");
                };
            }
            match find_first(b0, needle.as_slice()) {
                Some(rel) => {
                    let se: usize = ss + rel;
                    let ps: usize = se + 2;
                    let pe: usize = if ts.len() > 1 {
                        let tl = ts[ts.len() - 1];
                        assert(tl == spec_text_tokens(l).last());
                        tl.source.end
                    } else {
                        t0.source.end
                    };
                    Ok(Utterance::from_spans(par, ss, se, ps, pe))
                },
                None => {
                    if ts.len() < 2 {
                        return Err(());
                    }
                    let t1 = ts[1];
                    let b1 = t1.as_str(par);
                    let colon: bool = b1.len() == 1 && b1[0] == 58;
                    let colon_sp: bool = b1.len() == 2 && b1[0] == 58 && b1[1] == 32;
                    proof {
                        reveal_strlit(":");
                        reveal_strlit(": ");
                        assert(":".is_ascii());
                        assert(": ".is_ascii());
                        vstd::string::is_ascii_spec_bytes(":");
                        vstd::string::is_ascii_spec_bytes(": ");
                        if colon {
                            assert(b1@ =~= ":".spec_bytes());
                        }
                        if colon_sp {
                            assert(b1@ =~= ": ".spec_bytes());
                        }
                        if !colon {
                            assert(b1@ != ":".spec_bytes());
                        }
                        if !colon_sp {
                            assert(b1@ != ": ".spec_bytes());
                        }
                    }
                    if colon || colon_sp {
                        if ts.len() < 3 {
                            return Err(());
                        }
                        let t2 = ts[2];
                        let se: usize = t0.source.end;
                        let ps: usize = t2.source.start;
                        let pe: usize = if ts.len() > 3 {
                            let tl = ts[ts.len() - 1];
                            assert(tl == spec_text_tokens(l).last());
                            tl.source.end
                        } else {
                            t2.source.end
                        };
                        Ok(Utterance::from_spans(par, ss, se, ps, pe))
                    } else if b1.len() > 2 && b1[0] == 58 && b1[1] == 32 {
                        let se: usize = t0.source.end;
                        let ps: usize = t1.source.start + 2;
                        let pe: usize = if ts.len() > 2 {
                            let tl = ts[ts.len() - 1];
                            assert(tl == spec_text_tokens(l).last());
                            tl.source.end
                        } else {
                            t1.source.end
                        };
                        Ok(Utterance::from_spans(par, ss, se, ps, pe))
                    } else {
                        Err(())
                    }
                },
            }
        }
    }

    /// Copies the five spans out of the wrapped line's content.
    fn from_spans(par: &[u8], ss: usize, se: usize, ps: usize, pe: usize) -> (r: Utterance)
        requires
            ss <= se <= ps <= pe <= par@.len(),
        ensures
            r.speaker_before@ == par@.subrange(0, ss as int),
            r.speaker@ == par@.subrange(ss as int, se as int),
            r.speaker_after@ == par@.subrange(se as int, ps as int),
            r.speech@ == par@.subrange(ps as int, pe as int),
            r.speech_after@ == par@.subrange(pe as int, par@.len() as int),
    {
        Utterance {
            speaker_before: vstd::slice::slice_to_vec(vstd::slice::slice_subrange(par, 0, ss)),
            speaker: vstd::slice::slice_to_vec(vstd::slice::slice_subrange(par, ss, se)),
            speaker_after: vstd::slice::slice_to_vec(vstd::slice::slice_subrange(par, se, ps)),
            speech: vstd::slice::slice_to_vec(vstd::slice::slice_subrange(par, ps, pe)),
            speech_after: vstd::slice::slice_to_vec(
                vstd::slice::slice_subrange(par, pe, par.len()),
            ),
        }
    }
}

/// One classified content line.
#[derive(Debug)]
pub enum Line {
    /// Wrapped content with no recognized speaker marker.
    Paragraph(Paragraph),
    /// A speaker's turn.
    Utterance(Utterance),
    /// A line that does not match the structural wrapper, kept verbatim.
    Other(Vec<u8>),
}

/// How a classified line relates to the bytes it was read from: an
/// utterance or a paragraph when the line matches the structural
/// wrapper, the verbatim bytes otherwise.
pub open spec fn spec_classified(l: Seq<u8>, r: Line) -> bool {
    match spec_trim_range(l) {
        None => match r {
            Line::Other(o) => o@ == l,
            _ => false,
        },
        Some((cs, ce)) => {
            let inner = l.subrange(cs, ce);
            match spec_utterance_spans(inner) {
                None => match r {
                    Line::Paragraph(p) => p.content@ == inner,
                    _ => false,
                },
                Some(_) => match r {
                    Line::Utterance(u) => spec_utterance_fields(inner, u),
                    _ => false,
                },
            }
        },
    }
}

/// The bytes a classified line is written as under a shift.
pub open spec fn spec_line_out(l: Line, by: Timestamp) -> Seq<u8> {
    match l {
        Line::Utterance(u) => spec_utterance_out(u, by, Seq::<u8>::empty(), spec_zero()),
        Line::Paragraph(p) => spec_paragraph_out(p, by),
        Line::Other(o) => o@ + spec_crlf(),
    }
}

/// Whether a classified line can take the shift `by` without a rewritten
/// timestamp leaving the field bounds.
pub open spec fn spec_line_ok(l: Line, by: Timestamp) -> bool {
    match l {
        Line::Utterance(u) => spec_rewrite_ok(spec_trim(u.speech@), by, 0),
        Line::Paragraph(p) => spec_rewrite_ok(p.content@, by, 0),
        Line::Other(_) => true,
    }
}

impl Line {
    /// Writes the line with its timestamps shifted by `adjust_by`:
    /// utterances and paragraphs under their canonical wrapper,
    /// unrecognized content verbatim.
    pub fn write_adjusted(&self, to: &mut Vec<u8>, adjust_by: Timestamp)
        requires
            adjust_by.wf(),
            spec_line_ok(*self, adjust_by),
        ensures
            final(to)@ == old(to)@ + spec_line_out(*self, adjust_by),
    {
        match self {
            Line::Utterance(utterance) => utterance.write_adjusted(to, adjust_by),
            Line::Paragraph(paragraph) => paragraph.write_adjusted(to, adjust_by),
            Line::Other(other) => {
                crate::bytes::append_bytes(to, other.as_slice());
                crate::bytes::append_bytes(to, "\r\n".as_bytes());
                proof {
                    assert(to@ =~= old(to)@ + spec_line_out(*self, adjust_by));
                }
            },
        }
    }

    /// The utterance this line is, if it is one.
    pub fn utterance(&self) -> (r: Option<&Utterance>)
        ensures
            match r {
                Some(u) => self matches Line::Utterance(x) && u == x,
                None => !(self matches Line::Utterance(_)),
            },
    {
        match self {
            Line::Utterance(utterance) => Some(utterance),
            _ => None,
        }
    }

    /// The paragraph this line is, if it is one.
    pub fn paragraph(&self) -> (r: Option<&Paragraph>)
        ensures
            match r {
                Some(p) => self matches Line::Paragraph(x) && p == x,
                None => !(self matches Line::Paragraph(_)),
            },
    {
        match self {
            Line::Paragraph(paragraph) => Some(paragraph),
            _ => None,
        }
    }
}

/// The classified lines of a transcript body, in order.
pub struct Lines {
    pub items: Vec<Line>,
}

/// Whether `items` are exactly the classified lines of `content`.
pub open spec fn spec_lines_classified(content: Seq<u8>, items: Seq<Line>) -> bool {
    &&& items.len() == crate::bytes::spec_lines(content).len()
    &&& forall|k: int|
        0 <= k < items.len() ==> spec_classified(
            crate::bytes::spec_lines(content)[k],
            #[trigger] items[k],
        )
}

impl Lines {
    /// Classifies every line of the given transcript's body.
    pub fn new(source: &super::transcript::Transcript) -> (r: Lines)
        ensures
            spec_lines_classified(source.content@, r.items@),
    {
        Lines { items: Lines::classify_all(source.content.as_slice()) }
    }

    /// Classifies every line of a transcript body.
    pub(crate) fn classify_all(content: &[u8]) -> (r: Vec<Line>)
        ensures
            spec_lines_classified(content@, r@),
    {
        let raw = crate::bytes::split_lines(content);
        let ghost raw_lines = crate::bytes::spec_lines(content@);
        let mut items: Vec<Line> = Vec::new();
        let mut i: usize = 0;
        while i < raw.len()
            invariant
                raw.deep_view() == raw_lines,
                0 <= i <= raw@.len(),
                items@.len() == i,
                forall|k: int|
                    0 <= k < i ==> spec_classified(raw_lines[k], #[trigger] items@[k]),
            decreases raw@.len() - i,
        {
            let line = Lines::parse_line(raw[i].as_slice());
            proof {
                assert(raw@[i as int]@ == raw_lines[i as int]);
            }
            items.push(line);
            i = i + 1;
        }
        items
    }

    /// Classifies one physical line: an utterance or paragraph when it
    /// matches the structural wrapper, the verbatim bytes otherwise.
    pub fn parse_line(line: &[u8]) -> (r: Line)
        ensures
            spec_classified(line@, r),
    {
        match Lines::trim_preamble_and_epilogue(line) {
            None => Line::Other(vstd::slice::slice_to_vec(line)),
            Some((cs, ce)) => {
                let inner = vstd::slice::slice_subrange(line, cs, ce);
                match Utterance::try_from(inner) {
                    Ok(utterance) => Line::Utterance(utterance),
                    Err(_) => Line::Paragraph(
                        Paragraph { content: vstd::slice::slice_to_vec(inner) },
                    ),
                }
            },
        }
    }

    /// Strips the structural wrapper and the closing marker, giving the
    /// content range between them, or nothing when the line does not
    /// match.
    fn trim_preamble_and_epilogue(line: &[u8]) -> (r: Option<(usize, usize)>)
        ensures
            match r {
                Some((cs, ce)) => spec_trim_range(line@) == Some((cs as int, ce as int)) && 0 <= cs
                    <= ce <= line@.len(),
                None => spec_trim_range(line@) is None,
            },
    {
        let ghost l = line@;
        let _n: usize = line.len();
        assert(l.len() <= usize::MAX);
        let toks = tokens_of(line);
        proof {
            lemma_tokens_from_props(l, 0, None);
        }
        if toks.len() < 19 {
            return None;
        }
        if !(toks[0].kind == TokenKind::GroupStart) {
            return None;
        }
        if !Lines::word_at(line, &toks, 1, "\\f".as_bytes()) {
            return None;
        }
        if !Lines::word_at(line, &toks, 4, "\\fs".as_bytes()) {
            return None;
        }
        if !Lines::word_at(line, &toks, 7, "\\ul".as_bytes()) {
            return None;
        }
        if !Lines::word_at(line, &toks, 10, "\\b".as_bytes()) {
            return None;
        }
        if !Lines::word_at(line, &toks, 13, "\\i".as_bytes()) {
            return None;
        }
        if !Lines::word_at(line, &toks, 16, "\\cf".as_bytes()) {
            return None;
        }
        let cs: usize = toks[18].source.end;
        let epi = "\\par}".as_bytes();
        if line.len() < epi.len() || cs > line.len() - epi.len() {
            return None;
        }
        if !crate::bytes::ends_with(line, epi) {
            return None;
        }
        Some((cs, line.len() - epi.len()))
    }

    /// Checks one control-word/parameter/delimiter triple of the
    /// wrapper: the token at `at` must be a control word with the given
    /// name, followed by a parameter and a delimiter.
    fn word_at(line: &[u8], toks: &Vec<Token>, at: usize, name: &[u8]) -> (r: bool)
        requires
            toks@ == spec_tokens(line@),
            at + 2 < toks@.len(),
            forall|k: int|
                0 <= k < toks@.len() ==> (#[trigger] toks@[k]).source.start < toks@[k].source.end
                    <= line@.len(),
        ensures
            r == {
                &&& spec_tokens(line@)[at as int].kind is ControlWord
                &&& tok_bytes(line@, spec_tokens(line@)[at as int]) == name@
                &&& spec_tokens(line@)[at as int + 1].kind is Parameter
                &&& spec_tokens(line@)[at as int + 2].kind is Delimiter
            },
    {
        let _tn: usize = toks.len();
        let tw = toks[at];
        if !(tw.kind == TokenKind::ControlWord) {
            return false;
        }
        if !bytes_eq(tw.as_str(line), name) {
            return false;
        }
        if !(toks[at + 1].kind == TokenKind::Parameter) {
            return false;
        }
        if !(toks[at + 2].kind == TokenKind::Delimiter) {
            return false;
        }
        true
    }
}

/// The content of a wrapped line, between the wrapper and the closing
/// marker.
pub open spec fn spec_inner(lb: Seq<u8>) -> Seq<u8> {
    let (cs, ce) = spec_trim_range(lb)->Some_0;
    lb.subrange(cs, ce)
}

/// Whether a raw line classifies as an utterance.
pub open spec fn spec_is_utterance(lb: Seq<u8>) -> bool {
    spec_trim_range(lb) is Some && spec_utterance_spans(spec_inner(lb)) is Some
}

/// The trimmed speaker label of an utterance line.
pub open spec fn spec_speaker(lb: Seq<u8>) -> Seq<u8> {
    let inner = spec_inner(lb);
    let (ss, se, ps, pe) = spec_utterance_spans(inner)->Some_0;
    spec_trim(inner.subrange(ss, se))
}

/// The trimmed speech of an utterance line.
pub open spec fn spec_speech(lb: Seq<u8>) -> Seq<u8> {
    let inner = spec_inner(lb);
    let (ss, se, ps, pe) = spec_utterance_spans(inner)->Some_0;
    spec_trim(inner.subrange(ps, pe))
}

/// The bytes an utterance with the given content is written as, stated
/// over the content's recognized spans rather than an extracted value.
pub open spec fn spec_utterance_out_parts(
    inner: Seq<u8>,
    by: Timestamp,
    extra: Seq<u8>,
    extra_by: Timestamp,
) -> Seq<u8> {
    let (ss, se, ps, pe) = spec_utterance_spans(inner)->Some_0;
    spec_line_preamble() + inner.subrange(0, ss) + inner.subrange(ss, se) + inner.subrange(se, ps)
        + spec_rewrite_from(spec_trim(inner.subrange(ps, pe)), by, 0) + (if extra.len() > 0 {
        " ".spec_bytes()
    } else {
        Seq::<u8>::empty()
    }) + spec_rewrite_from(spec_trim(extra), extra_by, 0) + inner.subrange(pe, inner.len() as int)
        + spec_line_epilogue() + spec_crlf()
}

/// The bytes the classification of a raw line is written as under a
/// shift.
pub open spec fn spec_classified_out(lb: Seq<u8>, by: Timestamp) -> Seq<u8> {
    match spec_trim_range(lb) {
        None => lb + spec_crlf(),
        Some((cs, ce)) => {
            let inner = lb.subrange(cs, ce);
            match spec_utterance_spans(inner) {
                None => spec_line_preamble() + spec_rewrite_from(inner, by, 0)
                    + spec_line_epilogue() + spec_crlf(),
                Some(_) => spec_utterance_out_parts(inner, by, Seq::<u8>::empty(), spec_zero()),
            }
        },
    }
}

/// Whether the classification of a raw line can take the shift `by`
/// without a rewritten timestamp leaving the field bounds.
pub open spec fn spec_classified_ok(lb: Seq<u8>, by: Timestamp) -> bool {
    match spec_trim_range(lb) {
        None => true,
        Some((cs, ce)) => {
            let inner = lb.subrange(cs, ce);
            match spec_utterance_spans(inner) {
                None => spec_rewrite_ok(inner, by, 0),
                Some((ss, se, ps, pe)) => spec_rewrite_ok(spec_trim(inner.subrange(ps, pe)), by, 0),
            }
        },
    }
}

/// A classified line is written exactly as its raw bytes' classification
/// says, and takes a shift exactly when they do.
pub proof fn lemma_classified_out(lb: Seq<u8>, line: Line, by: Timestamp)
    requires
        spec_classified(lb, line),
    ensures
        spec_line_out(line, by) == spec_classified_out(lb, by),
        spec_line_ok(line, by) == spec_classified_ok(lb, by),
{
    match spec_trim_range(lb) {
        None => {
            assert(spec_line_out(line, by) =~= spec_classified_out(lb, by));
        },
        Some((cs, ce)) => {
            let inner = lb.subrange(cs, ce);
            match spec_utterance_spans(inner) {
                None => {
                    assert(spec_line_out(line, by) =~= spec_classified_out(lb, by));
                },
                Some((ss, se, ps, pe)) => {
                    assert(spec_line_out(line, by) =~= spec_classified_out(lb, by));
                },
            }
        },
    }
}

/// How the fields of an utterance relate to the content it was read
/// from: the five fields are the content's partition at the recognized
/// spans.
pub open spec fn spec_utterance_fields(l: Seq<u8>, u: Utterance) -> bool {
    match spec_utterance_spans(l) {
        Some((ss, se, ps, pe)) => {
            &&& u.speaker_before@ == l.subrange(0, ss)
            &&& u.speaker@ == l.subrange(ss, se)
            &&& u.speaker_after@ == l.subrange(se, ps)
            &&& u.speech@ == l.subrange(ps, pe)
            &&& u.speech_after@ == l.subrange(pe, l.len() as int)
        },
        None => false,
    }
}

} // verus!
