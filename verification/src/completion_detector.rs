//! Where the processing of a chunk resumes, from the QR records its JSONL
//! file already holds.
use std::collections::HashSet;
use vstd::prelude::*;

use crate::resume_controller::highest_frame;
use crate::text::append_str;
use crate::text::decimal;
use crate::text::push_decimal;
use crate::text::string_from_chars;

verus! {

broadcast use vstd::std_specs::hash::group_hash_axioms;

/// Where the processing of a chunk resumes.
#[derive(Debug, Clone)]
pub struct ChunkResumePoint {
    pub chunk_id: usize,
    pub should_resume: bool,
    pub resume_from_frame: u64,
    pub frames_already_processed: u64,
    pub qr_codes_already_found: usize,
    pub completion_status: String,
}

/// The frame numbers read from the lines.
pub open spec fn frames_read(lines: Seq<Option<u64>>) -> Set<u64> {
    Set::new(|f: u64| exists|i: int| 0 <= i < lines.len() && lines[i] == Some(f))
}

/// The lowest frame number among the lines, or `u64::MAX` when none is
/// read.
pub open spec fn lowest_frame(lines: Seq<Option<u64>>) -> u64
    decreases lines.len(),
{
    if lines.len() == 0 {
        u64::MAX
    } else {
        let m = lowest_frame(lines.drop_last());
        match lines.last() {
            Some(f) => if f < m {
                f
            } else {
                m
            },
            None => m,
        }
    }
}

/// What a chunk's JSONL file holds, given the frame number read from each
/// non-blank line (`None` for a line that is not a QR record): the number
/// of distinct frames, the number of lines, the highest frame and the
/// lowest frame (zero for both when no frame is read, and zero for the
/// lowest when it would be `u64::MAX`).
pub open spec fn jsonl_content(lines: Seq<Option<u64>>) -> (nat, nat, u64, u64) {
    (
        frames_read(lines).len(),
        lines.len(),
        highest_frame(lines),
        if lowest_frame(lines) == u64::MAX {
            0
        } else {
            lowest_frame(lines)
        },
    )
}

/// Summarises a chunk's JSONL file, given the frame number read from each
/// non-blank line.
pub fn analyze_jsonl_content(frames: &Vec<Option<u64>>) -> (r: (u64, usize, u64, u64))
    ensures
        (r.0 as nat, r.1 as nat, r.2, r.3) == jsonl_content(frames@),
{
    let mut max_frame: u64 = 0;
    let mut min_frame: u64 = u64::MAX;
    let mut frames_seen: HashSet<u64> = HashSet::new();
    let mut i: usize = 0;
    while i < frames.len()
        invariant
            i <= frames@.len(),
            max_frame == highest_frame(frames@.take(i as int)),
            min_frame == lowest_frame(frames@.take(i as int)),
            frames_seen@ == frames_read(frames@.take(i as int)),
        decreases frames.len() - i,
    {
        let ghost before = frames@.take(i as int);
        proof {
            assert(frames@.take(i + 1).drop_last() =~= before);
            assert(frames@.take(i + 1)[i as int] == frames@[i as int]);
        }
        match frames[i] {
            Some(f) => {
                frames_seen.insert(f);
                if f > max_frame {
                    max_frame = f;
                }
                if f < min_frame {
                    min_frame = f;
                }
            },
            None => {},
        }
        proof {
            let now = frames@.take(i + 1);
            assert(frames_seen@ =~= frames_read(now)) by {
                assert forall|g: u64| frames_seen@.contains(g) <==> frames_read(now).contains(g) by {
                    if frames_read(before).contains(g) {
                        let j = choose|j: int| 0 <= j < before.len() && before[j] == Some(g);
                        assert(now[j] == Some(g));
                    }
                    if frames_read(now).contains(g) {
                        let j = choose|j: int| 0 <= j < now.len() && now[j] == Some(g);
                        if j < i {
                            assert(before[j] == Some(g));
                        }
                    }
                }
            }
        }
        i += 1;
    }
    proof {
        assert(frames@.take(frames@.len() as int) =~= frames@);
    }
    if min_frame == u64::MAX {
        min_frame = 0;
    }
    (frames_seen.len() as u64, frames.len(), max_frame, min_frame)
}

/// The first frame at or after `next` that the sampling visits when it
/// takes one frame in every `skip_frames + 1`.
pub open spec fn aligned_frame(next: nat, skip_frames: nat) -> nat {
    if skip_frames > 0 {
        ((next + skip_frames) / (skip_frames + 1)) * (skip_frames + 1)
    } else {
        next
    }
}

/// The frame after `max_frame`, moved up to the next frame the sampling
/// visits: a multiple of the interval `skip_frames + 1`, at or after the
/// next frame and less than one interval past it.
pub fn aligned_resume_frame(max_frame: u64, skip_frames: usize) -> (r: u64)
    requires
        max_frame + 1 + skip_frames <= u64::MAX,
    ensures
        r == aligned_frame(max_frame as nat + 1, skip_frames as nat),
        r >= max_frame + 1,
        r < max_frame + 1 + skip_frames + 1,
        (r as nat) % (skip_frames as nat + 1) == 0,
{
    let resume_frame = max_frame + 1;
    if skip_frames > 0 {
        let skip_interval = skip_frames as u64 + 1;
        let q = (resume_frame + skip_frames as u64) / skip_interval;
        proof {
            let n = resume_frame as int;
            let k = skip_interval as int;
            assert(q * k <= n + k - 1) by (nonlinear_arith)
                requires
                    q == (n + k - 1) / k,
                    k > 0,
                    n + k - 1 >= 0,
            ;
            assert(q * k >= n && q * k < n + k && (q * k) % k == 0) by (nonlinear_arith)
                requires
                    q == (n + k - 1) / k,
                    k > 0,
                    n >= 1,
            ;
        }
        q * skip_interval
    } else {
        resume_frame
    }
}

/// The integer criteria of a chunk's completion: the highest frame the
/// sampling should reach, whether there are enough QR codes (200 for the
/// last chunk, 300 for the others), the span between the lowest and highest
/// frame, and whether that span covers 80% of the expected one.
pub open spec fn completion_criteria(
    chunk_id: usize,
    chunk_count: usize,
    expected_frames: u64,
    max_frame: u64,
    min_frame: u64,
    qr_codes: usize,
    skip_frames: usize,
) -> (u64, bool, u64, bool) {
    let expected_max = if skip_frames > 0 {
        (expected_frames / (skip_frames as u64 + 1) as u64) as u64
    } else {
        expected_frames
    };
    let min_qr: nat = if chunk_id == chunk_count - 1 {
        200
    } else {
        300
    };
    let span = if max_frame >= min_frame {
        (max_frame - min_frame) as u64
    } else {
        0
    };
    (expected_max, qr_codes >= min_qr, span, span >= expected_max * 80 / 100)
}

/// Computes the integer criteria of a chunk's completion.
pub fn frame_criteria(
    chunk_id: usize,
    chunk_count: usize,
    expected_frames: u64,
    max_frame: u64,
    min_frame: u64,
    qr_codes: usize,
    skip_frames: usize,
) -> (r: (u64, bool, u64, bool))
    requires
        chunk_count >= 1,
        skip_frames < u64::MAX,
        (if skip_frames > 0 {
            expected_frames / (skip_frames as u64 + 1) as u64
        } else {
            expected_frames
        }) * 80 <= u64::MAX,
    ensures
        r == completion_criteria(chunk_id, chunk_count, expected_frames, max_frame, min_frame, qr_codes, skip_frames),
{
    let expected_max_frame: u64 = if skip_frames > 0 {
        expected_frames / (skip_frames as u64 + 1)
    } else {
        expected_frames
    };
    let expected_min_qr_codes: usize = if chunk_id == chunk_count - 1 {
        200
    } else {
        300
    };
    let has_sufficient_qr_codes = qr_codes >= expected_min_qr_codes;
    let frame_span = max_frame.saturating_sub(min_frame);
    let has_good_frame_span = frame_span >= (expected_max_frame * 80 / 100);
    (expected_max_frame, has_sufficient_qr_codes, frame_span, has_good_frame_span)
}

impl ChunkResumePoint {
    /// The resume point of a chunk without a JSONL file: from its start.
    pub fn without_jsonl(chunk_id: usize) -> (r: Self)
        ensures
            r.chunk_id == chunk_id,
            r.should_resume,
            r.resume_from_frame == 0,
            r.frames_already_processed == 0,
            r.qr_codes_already_found == 0,
            r.completion_status@ == "No JSONL file - start from beginning"@,
    {
        ChunkResumePoint {
            chunk_id,
            should_resume: true,
            resume_from_frame: 0,
            frames_already_processed: 0,
            qr_codes_already_found: 0,
            completion_status: String::from_str("No JSONL file - start from beginning"),
        }
    }

    /// The resume point of a chunk whose JSONL file has content (`frames`
    /// distinct frames, `qr_codes` lines, the highest frame `max_frame`):
    /// a complete chunk is not resumed; another resumes at the frame after
    /// `max_frame`, aligned to the sampling interval. `reason` is the
    /// verdict's explanation, and `percent` the share of expected frames
    /// already processed, as shown.
    pub fn after_jsonl(
        chunk_id: usize,
        frames: u64,
        qr_codes: usize,
        max_frame: u64,
        is_complete: bool,
        reason: &str,
        skip_frames: usize,
        percent: &str,
    ) -> (r: Self)
        requires
            max_frame + 1 + skip_frames <= u64::MAX,
        ensures
            r.chunk_id == chunk_id,
            r.frames_already_processed == frames,
            r.qr_codes_already_found == qr_codes,
            r.should_resume == !is_complete,
            is_complete ==> r.resume_from_frame == max_frame + 1 && r.completion_status@ == "COMPLETE: "@ + reason@,
            !is_complete ==> r.resume_from_frame == aligned_frame(max_frame as nat + 1, skip_frames as nat)
                && r.completion_status@ == "RESUME: from frame "@ + decimal(r.resume_from_frame as nat) + " ("@ + percent@
                + "% complete)"@,
    {
        if is_complete {
            let mut v: Vec<char> = Vec::new();
            append_str(&mut v, "COMPLETE: ");
            append_str(&mut v, reason);
            return ChunkResumePoint {
                chunk_id,
                should_resume: false,
                resume_from_frame: max_frame + 1,
                frames_already_processed: frames,
                qr_codes_already_found: qr_codes,
                completion_status: string_from_chars(&v),
            };
        }
        let aligned = aligned_resume_frame(max_frame, skip_frames);
        let mut v: Vec<char> = Vec::new();
        append_str(&mut v, "RESUME: from frame ");
        push_decimal(&mut v, aligned);
        append_str(&mut v, " (");
        append_str(&mut v, percent);
        append_str(&mut v, "% complete)");
        ChunkResumePoint {
            chunk_id,
            should_resume: true,
            resume_from_frame: aligned,
            frames_already_processed: frames,
            qr_codes_already_found: qr_codes,
            completion_status: string_from_chars(&v),
        }
    }
}

/// How complete the processing of all chunks is.
#[derive(Debug, Clone, Copy, PartialEq, Eq, Structural)]
pub enum Completeness {
    /// Every chunk is complete.
    All,
    /// At least eighty percent of the chunks (rounded down) are complete.
    Mostly,
    /// Fewer chunks are complete.
    Incomplete,
}

/// How many of the chunks are complete.
pub open spec fn complete_count(flags: Seq<bool>) -> nat
    decreases flags.len(),
{
    if flags.len() == 0 {
        0
    } else {
        complete_count(flags.drop_last()) + if flags.last() {
            1nat
        } else {
            0nat
        }
    }
}

/// The verdict on `complete` complete chunks out of `chunk_count`.
pub open spec fn completeness_of(complete: nat, chunk_count: nat) -> Completeness {
    if complete == chunk_count {
        Completeness::All
    } else if complete >= chunk_count * 80 / 100 {
        Completeness::Mostly
    } else {
        Completeness::Incomplete
    }
}

/// Counts the complete chunks among the analysed ones, whose completion
/// flags are `flags`, and judges the processing: all chunks complete, at
/// least eighty percent of the expected `chunk_count` complete, or fewer;
/// processing may go on unless it is the last.
pub fn processing_completeness(flags: &Vec<bool>, chunk_count: usize) -> (r: (usize, Completeness))
    requires
        chunk_count * 80 <= usize::MAX,
    ensures
        r.0 == complete_count(flags@),
        r.1 == completeness_of(complete_count(flags@), chunk_count as nat),
{
    let mut complete: usize = 0;
    let mut i: usize = 0;
    while i < flags.len()
        invariant
            i <= flags@.len(),
            complete == complete_count(flags@.take(i as int)),
            complete <= i,
        decreases flags.len() - i,
    {
        proof {
            assert(flags@.take(i + 1).drop_last() =~= flags@.take(i as int));
        }
        if flags[i] {
            complete = complete + 1;
        }
        i += 1;
    }
    proof {
        assert(flags@.take(flags@.len() as int) =~= flags@);
    }
    let verdict = if complete == chunk_count {
        Completeness::All
    } else if complete >= chunk_count * 80 / 100 {
        Completeness::Mostly
    } else {
        Completeness::Incomplete
    };
    (complete, verdict)
}

} // verus!
