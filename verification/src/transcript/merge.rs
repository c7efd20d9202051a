//! Stitching an ordered sequence of transcripts into one continuous
//! document.
//!
//! Timestamps of every document are shifted by the accumulated end times
//! of the documents before it, and when the last speaker of one document
//! also opens the next, the two turns are spliced into one output line
//! with a single speaker label.

use vstd::prelude::*;

use super::lines::{
    lemma_classified_out, spec_classified, spec_classified_ok, spec_classified_out, spec_inner,
    spec_is_utterance, spec_line_ok, spec_line_out, spec_lines_classified, spec_speaker,
    spec_speech, spec_utterance_out, spec_utterance_out_parts, Line,
};
use super::transcript::{spec_epilogue, Transcript};
use crate::bytes::{append_bytes, bytes_eq, lemma_trim_idempotent, spec_trim};
use crate::timestamp::{
    spec_add, spec_add_hours_total, spec_zero, Timestamp, MAX_HOURS,
};

verus! {

/// The raw lines of a transcript's body.
pub open spec fn spec_doc_lines(t: Transcript) -> Seq<Seq<u8>> {
    crate::bytes::spec_lines(t.content@)
}

/// The cumulative shift of document `i`: zero for the first document,
/// then the shift of the document before plus that document's end time.
pub open spec fn spec_shift(ts: Seq<Transcript>, i: int) -> Timestamp
    decreases i + 1,
{
    if i <= 0 {
        spec_zero()
    } else {
        spec_add(spec_shift(ts, i - 1), ts[i - 1].interview_end_time)
    }
}

/// The last line of the document before document `i`, with its shift —
/// nothing for the first document or when that document has no lines.
pub open spec fn spec_prev_of(ts: Seq<Transcript>, i: int) -> Option<(Seq<u8>, Timestamp)> {
    if i == 0 {
        None
    } else {
        let pl = spec_doc_lines(ts[i - 1]);
        if pl.len() > 0 {
            Some((pl.last(), spec_shift(ts, i - 1)))
        } else {
            None
        }
    }
}

/// The bytes written for a document boundary: when the withheld last
/// line of the document before and the first line of the current
/// document are utterances of the same speaker, one spliced line under
/// two shifts; otherwise the withheld line and the first line each under
/// their own shift.
pub open spec fn spec_boundary_out(
    prev: Option<(Seq<u8>, Timestamp)>,
    first: Seq<u8>,
    by: Timestamp,
) -> Seq<u8> {
    match prev {
        Some((plb, pby)) => {
            if spec_is_utterance(plb) && spec_is_utterance(first) && spec_speaker(plb)
                == spec_speaker(first) {
                spec_utterance_out_parts(spec_inner(plb), pby, spec_speech(first), by)
            } else {
                spec_classified_out(plb, pby) + spec_classified_out(first, by)
            }
        },
        None => spec_classified_out(first, by),
    }
}

/// The bytes written for the lines with indices `from` to `to` of one
/// document, all under one shift.
pub open spec fn spec_lines_out(lines: Seq<Seq<u8>>, by: Timestamp, from: int, to: int) -> Seq<u8>
    decreases to - from,
{
    if from >= to {
        Seq::empty()
    } else {
        spec_classified_out(lines[from], by) + spec_lines_out(lines, by, from + 1, to)
    }
}

/// The bytes written while consuming one document: the boundary with the
/// document before, then every line of the document except the first and
/// the last; a document without lines only releases the withheld line of
/// the document before.
pub open spec fn spec_doc_write(
    prev: Option<(Seq<u8>, Timestamp)>,
    cur_lines: Seq<Seq<u8>>,
    by: Timestamp,
) -> Seq<u8> {
    if cur_lines.len() == 0 {
        match prev {
            Some((plb, pby)) => spec_classified_out(plb, pby),
            None => Seq::empty(),
        }
    } else {
        spec_boundary_out(prev, cur_lines[0], by) + spec_lines_out(
            cur_lines,
            by,
            1,
            cur_lines.len() - 1,
        )
    }
}

/// The bytes written while consuming documents `i` and later.
pub open spec fn spec_docs_out(ts: Seq<Transcript>, i: int) -> Seq<u8>
    decreases ts.len() - i,
{
    if i < 0 || i >= ts.len() {
        Seq::empty()
    } else {
        spec_doc_write(spec_prev_of(ts, i), spec_doc_lines(ts[i]), spec_shift(ts, i))
            + spec_docs_out(ts, i + 1)
    }
}

/// The withheld last line of the final document, under its shift.
pub open spec fn spec_tail_out(ts: Seq<Transcript>) -> Seq<u8> {
    let ll = spec_doc_lines(ts.last());
    if ll.len() > 0 {
        spec_classified_out(ll.last(), spec_shift(ts, ts.len() - 1))
    } else {
        Seq::empty()
    }
}

/// The merged document: nothing for an empty sequence, else the first
/// document's preamble, the stitched bodies, the withheld final line and
/// the shared epilogue.
pub open spec fn spec_merged(ts: Seq<Transcript>) -> Seq<u8> {
    if ts.len() == 0 {
        Seq::empty()
    } else {
        ts[0].preamble@ + spec_docs_out(ts, 0) + spec_tail_out(ts) + spec_epilogue()
    }
}

/// Whether every line of every document can take its document's shift,
/// and every accumulated shift stays within the hour bound.
pub open spec fn spec_merge_ok(ts: Seq<Transcript>) -> bool {
    &&& forall|i: int| 0 <= i < ts.len() ==> (#[trigger] ts[i]).wf()
    &&& forall|i: int|
        0 <= i < ts.len() - 1 ==> spec_add_hours_total(
            spec_shift(ts, i),
            (#[trigger] ts[i]).interview_end_time,
        ) <= MAX_HOURS
    &&& forall|i: int, k: int|
        0 <= i < ts.len() && 0 <= k < spec_doc_lines(ts[i]).len() ==> spec_classified_ok(
            #[trigger] spec_doc_lines(ts[i])[k],
            spec_shift(ts, i),
        )
}

/// Every accumulated shift of a mergeable sequence is well formed.
proof fn lemma_shift_wf(ts: Seq<Transcript>, i: int)
    requires
        spec_merge_ok(ts),
        i < ts.len(),
    ensures
        spec_shift(ts, i).wf(),
    decreases i + 1,
{
    if i > 0 {
        lemma_shift_wf(ts, i - 1);
    }
}

/// Writes the merged version of the given transcripts to `to`: the
/// timestamps of each document are shifted by the accumulated end times
/// of the documents before it, and same-speaker turns are spliced across
/// document boundaries. An empty sequence writes nothing.
#[verifier::rlimit(100)]
pub fn write_merged_transcript(to: &mut Vec<u8>, transcripts: &Vec<Transcript>)
    requires
        spec_merge_ok(transcripts@),
    ensures
        final(to)@ == old(to)@ + spec_merged(transcripts@),
        transcripts@.len() == 0 ==> final(to)@ == old(to)@,
{
    let ghost ts = transcripts@;
    if transcripts.len() == 0 {
        proof {
            assert(to@ =~= to@ + spec_merged(ts));
        }
        return;
    }
    append_bytes(to, transcripts[0].preamble());
    let mut shift = Timestamp::zero();
    let mut i: usize = 0;
    while i < transcripts.len()
        invariant
            ts == transcripts@,
            spec_merge_ok(ts),
            0 < ts.len() <= usize::MAX,
            0 <= i <= ts.len(),
            shift == spec_shift(ts, i - 1),
            to@ + spec_docs_out(ts, i as int) == old(to)@ + ts[0].preamble@ + spec_docs_out(
                ts,
                0,
            ),
        decreases ts.len() - i,
    {
        proof {
            lemma_shift_wf(ts, i - 1);
            lemma_shift_wf(ts, i as int);
        }
        let next_shift: Timestamp = if i == 0 {
            shift
        } else {
            shift.add(transcripts[i - 1].interview_end_time())
        };
        assert(next_shift == spec_shift(ts, i as int));
        let ghost before = to@;
        if i == 0 {
            write_next_except_last_line(to, None, shift, &transcripts[i], next_shift);
        } else {
            write_next_except_last_line(
                to,
                Some(&transcripts[i - 1]),
                shift,
                &transcripts[i],
                next_shift,
            );
        }
        proof {
            let d = spec_doc_write(
                spec_prev_of(ts, i as int),
                spec_doc_lines(ts[i as int]),
                spec_shift(ts, i as int),
            );
            assert(to@ == before + d);
            lemma_docs_out_unfold(ts, i as int);
            vstd::seq_lib::lemma_concat_associative(before, d, spec_docs_out(ts, i + 1));
            assert(to@ + spec_docs_out(ts, i + 1) == old(to)@ + ts[0].preamble@ + spec_docs_out(
                ts,
                0,
            ));
        }
        shift = next_shift;
        i = i + 1;
    }
    proof {
        lemma_shift_wf(ts, ts.len() - 1);
        assert(spec_docs_out(ts, ts.len() as int) == Seq::<u8>::empty());
        assert(to@ + spec_docs_out(ts, ts.len() as int) =~= to@);
    }
    let ghost body_done = to@;
    let last_lines = transcripts[transcripts.len() - 1].lines();
    if last_lines.items.len() > 0 {
        let last_line = &last_lines.items[last_lines.items.len() - 1];
        proof {
            let ll = spec_doc_lines(ts.last());
            assert(spec_classified(ll.last(), last_lines.items@.last()));
            lemma_classified_out(ll.last(), last_lines.items@.last(), spec_shift(ts, ts.len() - 1));
        }
        last_line.write_adjusted(to, shift);
        proof {
            assert(to@ == body_done + spec_tail_out(ts));
        }
    } else {
        proof {
            assert(spec_tail_out(ts) == Seq::<u8>::empty());
            assert(to@ =~= body_done + spec_tail_out(ts));
        }
    }
    append_bytes(to, "\r\n}".as_bytes());
    proof {
        let pre = ts[0].preamble@;
        let docs = spec_docs_out(ts, 0);
        let tail = spec_tail_out(ts);
        let epi = spec_epilogue();
        assert(to@ == old(to)@ + pre + docs + tail + epi);
        assert(old(to)@ + pre + docs + tail + epi =~= old(to)@ + (pre + docs + tail + epi));
        assert(spec_merged(ts) == pre + docs + tail + epi);
    }
}

/// Law: merging an empty document sequence writes nothing.
pub proof fn lemma_merge_empty(ts: Seq<Transcript>)
    requires
        ts.len() == 0,
    ensures
        spec_merged(ts) == Seq::<u8>::empty(),
{
}

/// Law: when the withheld last line of one document and the first line
/// of the next are utterances of the same trimmed speaker, the boundary
/// emits one spliced line — the previous utterance under its own shift,
/// with the next turn's speech appended under the next document's shift
/// and no second speaker label.
pub proof fn lemma_boundary_splice(prev: (Seq<u8>, Timestamp), first: Seq<u8>, by: Timestamp)
    requires
        spec_is_utterance(prev.0),
        spec_is_utterance(first),
        spec_speaker(prev.0) == spec_speaker(first),
    ensures
        spec_boundary_out(Some(prev), first, by) == spec_utterance_out_parts(
            spec_inner(prev.0),
            prev.1,
            spec_speech(first),
            by,
        ),
{
}

/// Law: when the boundary speakers differ — or either boundary line is
/// no utterance — the boundary emits the two lines separately, each
/// under its own shift and with its structure unchanged.
pub proof fn lemma_boundary_separate(prev: (Seq<u8>, Timestamp), first: Seq<u8>, by: Timestamp)
    requires
        !(spec_is_utterance(prev.0) && spec_is_utterance(first) && spec_speaker(prev.0)
            == spec_speaker(first)),
    ensures
        spec_boundary_out(Some(prev), first, by) == spec_classified_out(prev.0, prev.1)
            + spec_classified_out(first, by),
{
}

/// Law: in a merge of two documents, the second document's timestamps
/// are shifted by the first document's rounded-up end time, and what is
/// written while consuming the second document is exactly its boundary
/// with the first document's withheld last line followed by its middle
/// lines under that shift.
pub proof fn lemma_merge_two_boundary(ts: Seq<Transcript>)
    requires
        ts.len() == 2,
        spec_doc_lines(ts[0]).len() > 0,
        spec_doc_lines(ts[1]).len() > 0,
    ensures
        spec_shift(ts, 1) == spec_add(spec_zero(), ts[0].interview_end_time),
        spec_docs_out(ts, 1) == spec_boundary_out(
            Some((spec_doc_lines(ts[0]).last(), spec_zero())),
            spec_doc_lines(ts[1])[0],
            spec_shift(ts, 1),
        ) + spec_lines_out(spec_doc_lines(ts[1]), spec_shift(ts, 1), 1, spec_doc_lines(
            ts[1],
        ).len() - 1),
{
    lemma_docs_out_unfold(ts, 1);
    let d = spec_doc_write(spec_prev_of(ts, 1), spec_doc_lines(ts[1]), spec_shift(ts, 1));
    assert(spec_docs_out(ts, 2) == Seq::<u8>::empty());
    assert(d + Seq::<u8>::empty() =~= d);
}

/// Consuming document `i` writes that document's part and then the
/// parts of the documents after it.
proof fn lemma_docs_out_unfold(ts: Seq<Transcript>, i: int)
    requires
        0 <= i < ts.len(),
    ensures
        spec_docs_out(ts, i) == spec_doc_write(
            spec_prev_of(ts, i),
            spec_doc_lines(ts[i]),
            spec_shift(ts, i),
        ) + spec_docs_out(ts, i + 1),
{
}

/// Writes the lines of the current document, except its last, assuming
/// everything before the previous document's last line is already
/// written: first the boundary with the previous document's withheld
/// last line — spliced when the speaker continues — then the middle
/// lines under the current shift.
fn write_next_except_last_line(
    to: &mut Vec<u8>,
    previous: Option<&Transcript>,
    previous_shift: Timestamp,
    current: &Transcript,
    current_shift: Timestamp,
)
    requires
        previous_shift.wf(),
        current_shift.wf(),
        match previous {
            Some(p) => spec_doc_lines(*p).len() > 0 ==> spec_classified_ok(
                spec_doc_lines(*p).last(),
                previous_shift,
            ),
            None => true,
        },
        forall|k: int|
            0 <= k < spec_doc_lines(*current).len() ==> spec_classified_ok(
                #[trigger] spec_doc_lines(*current)[k],
                current_shift,
            ),
    ensures
        final(to)@ == old(to)@ + spec_doc_write(
            match previous {
                Some(p) => if spec_doc_lines(*p).len() > 0 {
                    Some((spec_doc_lines(*p).last(), previous_shift))
                } else {
                    None
                },
                None => None,
            },
            spec_doc_lines(*current),
            current_shift,
        ),
{
    let ghost cur_lines = spec_doc_lines(*current);
    let ghost prev_desc = match previous {
        Some(p) => if spec_doc_lines(*p).len() > 0 {
            Some((spec_doc_lines(*p).last(), previous_shift))
        } else {
            None
        },
        None => None,
    };
    let lines = current.lines();
    let prev_lines = match previous {
        Some(p) => Some(p.lines()),
        None => None,
    };
    let prev_last: Option<&Line> = match &prev_lines {
        Some(pl) => {
            if pl.items.len() > 0 {
                proof {
                    let plb = spec_doc_lines(*previous->Some_0);
                    assert(spec_classified(plb.last(), pl.items@.last()));
                }
                Some(&pl.items[pl.items.len() - 1])
            } else {
                None
            }
        },
        None => None,
    };
    if lines.items.len() == 0 {
        match prev_last {
            Some(last_line) => {
                proof {
                    let (plb, pby) = prev_desc->Some_0;
                    lemma_classified_out(plb, *last_line, previous_shift);
                }
                last_line.write_adjusted(to, previous_shift);
            },
            None => {},
        }
        proof {
            assert(to@ =~= old(to)@ + spec_doc_write(prev_desc, cur_lines, current_shift));
        }
        return;
    }
    proof {
        assert(spec_classified(cur_lines[0], lines.items@[0]));
        if prev_desc is Some {
            lemma_boundary_out(
                prev_desc->Some_0.0,
                *prev_last->Some_0,
                previous_shift,
                cur_lines[0],
                lines.items@[0],
                current_shift,
            );
        } else {
            lemma_classified_out(cur_lines[0], lines.items@[0], current_shift);
        }
    }
    write_last_and_first_line(to, prev_last, previous_shift, &lines.items[0], current_shift);
    let _ln: usize = lines.items.len();
    let mut k: usize = 1;
    while k + 1 < lines.items.len()
        invariant
            spec_lines_classified(current.content@, lines.items@),
            cur_lines == spec_doc_lines(*current),
            cur_lines.len() == lines.items@.len(),
            cur_lines.len() <= usize::MAX,
            current_shift.wf(),
            forall|j: int|
                0 <= j < cur_lines.len() ==> spec_classified_ok(
                    #[trigger] cur_lines[j],
                    current_shift,
                ),
            1 <= k <= if cur_lines.len() >= 1 {
                cur_lines.len()
            } else {
                1
            },
            k < cur_lines.len() || k == 1,
            to@ + spec_lines_out(cur_lines, current_shift, k as int, cur_lines.len() - 1) == old(
                to,
            )@ + spec_doc_write(prev_desc, cur_lines, current_shift),
        decreases cur_lines.len() - k,
    {
        proof {
            assert(spec_classified(cur_lines[k as int], lines.items@[k as int]));
            lemma_classified_out(cur_lines[k as int], lines.items@[k as int], current_shift);
        }
        lines.items[k].write_adjusted(to, current_shift);
        proof {
            assert(to@ + spec_lines_out(cur_lines, current_shift, k + 1, cur_lines.len() - 1)
                =~= old(to)@ + spec_doc_write(prev_desc, cur_lines, current_shift));
        }
        k = k + 1;
    }
    proof {
        assert(spec_lines_out(cur_lines, current_shift, k as int, cur_lines.len() - 1)
            =~= Seq::<u8>::empty());
        assert(to@ =~= old(to)@ + spec_doc_write(prev_desc, cur_lines, current_shift));
    }
}

/// The bytes written for a boundary, stated over the classified line
/// values rather than the raw lines.
pub open spec fn spec_line_boundary_out(
    prev: Option<Line>,
    pby: Timestamp,
    first: Line,
    by: Timestamp,
) -> Seq<u8> {
    match prev {
        Some(pl) => {
            if pl matches Line::Utterance(pu) && first matches Line::Utterance(fu) && spec_trim(
                pu.speaker@,
            ) == spec_trim(fu.speaker@) {
                spec_utterance_out(
                    pl->Utterance_0,
                    pby,
                    spec_trim(first->Utterance_0.speech@),
                    by,
                )
            } else {
                spec_line_out(pl, pby) + spec_line_out(first, by)
            }
        },
        None => spec_line_out(first, by),
    }
}

/// The boundary output over classified line values equals the boundary
/// output over the raw lines they were classified from.
proof fn lemma_boundary_out(
    plb: Seq<u8>,
    pline: Line,
    pby: Timestamp,
    flb: Seq<u8>,
    fline: Line,
    by: Timestamp,
)
    requires
        spec_classified(plb, pline),
        spec_classified(flb, fline),
    ensures
        spec_line_boundary_out(Some(pline), pby, fline, by) == spec_boundary_out(
            Some((plb, pby)),
            flb,
            by,
        ),
{
    lemma_classified_out(plb, pline, pby);
    lemma_classified_out(flb, fline, by);
    match (pline, fline) {
        (Line::Utterance(pu), Line::Utterance(fu)) => {
            let pinner = spec_inner(plb);
            assert(spec_trim(pu.speaker@) == spec_speaker(plb));
            assert(spec_trim(fu.speaker@) == spec_speaker(flb));
            assert(spec_trim(fu.speech@) == spec_speech(flb));
            if spec_trim(pu.speaker@) == spec_trim(fu.speaker@) {
                assert(spec_utterance_out(pu, pby, spec_trim(fu.speech@), by)
                    =~= spec_utterance_out_parts(pinner, pby, spec_speech(flb), by));
            }
        },
        _ => {},
    }
}

/// Writes the withheld last line of the previous document and the first
/// line of the current one: one spliced line without a duplicated
/// speaker label when both are utterances of the same speaker, else the
/// two lines one after the other, each under its own shift.
fn write_last_and_first_line(
    to: &mut Vec<u8>,
    last_line: Option<&Line>,
    last_shift: Timestamp,
    first_line: &Line,
    shift: Timestamp,
)
    requires
        last_shift.wf(),
        shift.wf(),
        match last_line {
            Some(l) => spec_line_ok(*l, last_shift),
            None => true,
        },
        spec_line_ok(*first_line, shift),
    ensures
        final(to)@ == old(to)@ + spec_line_boundary_out(
            match last_line {
                Some(l) => Some(*l),
                None => None,
            },
            last_shift,
            *first_line,
            shift,
        ),
{
    match last_line {
        Some(last) => {
            let spliced: bool = match (last.utterance(), first_line.utterance()) {
                (Some(last_u), Some(first_u)) => bytes_eq(last_u.speaker(), first_u.speaker()),
                _ => false,
            };
            if spliced {
                match (last.utterance(), first_line.utterance()) {
                    (Some(last_u), Some(first_u)) => {
                        proof {
                            lemma_trim_idempotent(first_u.speech@);
                        }
                        last_u.write_adjusted_with_extra_speech(
                            to,
                            last_shift,
                            first_u.speech(),
                            shift,
                        );
                    },
                    _ => {
                        proof {
                            assert(false);
                        }
                    },
                }
            } else {
                last.write_adjusted(to, last_shift);
                first_line.write_adjusted(to, shift);
                proof {
                    assert(to@ =~= old(to)@ + spec_line_out(*last, last_shift) + spec_line_out(
                        *first_line,
                        shift,
                    ));
                }
            }
        },
        None => {
            first_line.write_adjusted(to, shift);
        },
    }
}

} // verus!
