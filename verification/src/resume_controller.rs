//! Deciding where an interrupted run resumes, from what the output
//! directory holds: the chunk videos and the JSONL files of QR payloads.
use vstd::prelude::*;

use crate::events::ProcessingEvent;
use crate::resume_state::chunk_models;
use crate::resume_state::count_status;
use crate::resume_state::progress_updated;
use crate::resume_state::videos_present;
use crate::resume_state::ChunkModel;
use crate::resume_state::ChunkProcessingStatus;
use crate::resume_state::ResumeState;
use crate::text::append_str;
use crate::text::decimal;
use crate::text::push_decimal;
use crate::text::string_from_chars;

verus! {

/// The progress of a chunk that needs more processing.
#[derive(Debug, Clone, Copy)]
pub struct ChunkResumeInfo {
    pub chunk_id: usize,
    pub last_frame_processed: u64,
    pub qr_codes_found: usize,
    pub needs_full_reprocess: bool,
}

/// Where a run resumes.
#[derive(Debug)]
pub enum ResumePoint {
    /// From the start: splitting the video.
    Phase1,
    /// From chunk processing, for these chunks.
    Phase2(Vec<ChunkResumeInfo>),
    /// From file reconstruction.
    Phase3,
}

/// The resume record of a run and the directory it writes to.
pub struct ResumeController {
    pub state: ResumeState,
    pub output_dir: String,
}

/// The JSONL file of chunk `i` as read: `None` when it is missing or
/// cannot be read, and otherwise the frame number of each line (`None` for a
/// line that is not a QR record).
pub open spec fn file_at(files: Seq<Option<Seq<Option<u64>>>>, i: int) -> Option<Seq<Option<u64>>> {
    if 0 <= i < files.len() {
        files[i]
    } else {
        None
    }
}

pub open spec fn jsonl_views(v: Seq<Option<Vec<Option<u64>>>>) -> Seq<Option<Seq<Option<u64>>>> {
    v.map_values(
        |f: Option<Vec<Option<u64>>>|
            match f {
                Some(x) => Some(x@),
                None => None,
            },
    )
}

/// The highest frame number among the lines, or zero.
pub open spec fn highest_frame(lines: Seq<Option<u64>>) -> u64
    decreases lines.len(),
{
    if lines.len() == 0 {
        0
    } else {
        let m = highest_frame(lines.drop_last());
        match lines.last() {
            Some(f) => if f > m {
                f
            } else {
                m
            },
            None => m,
        }
    }
}

/// Whether a chunk's JSONL file shows it complete (at least 500 lines and
/// a frame past 1000), with the highest frame and the line count; a missing
/// or empty file shows nothing.
pub open spec fn completeness(f: Option<Seq<Option<u64>>>) -> (bool, u64, usize) {
    match f {
        None => (false, 0, 0),
        Some(lines) => if lines.len() == 0 {
            (false, 0, 0)
        } else {
            let m = highest_frame(lines);
            (lines.len() >= 500 && m > 1000, m, lines.len() as usize)
        },
    }
}

/// Checking the first `n` chunks for a resume from phase 3: each needs a
/// JSONL file of at least ten lines, and each that has one is recorded as
/// completed with its line count; the check stops at the first that does
/// not. The result tells whether all passed, and the records.
pub open spec fn phase3_check(ms: Map<usize, ChunkModel>, files: Seq<Option<Seq<Option<u64>>>>, n: nat) -> (bool, Map<usize, ChunkModel>)
    decreases n,
{
    if n == 0 {
        (true, ms)
    } else {
        let (ok, m) = phase3_check(ms, files, (n - 1) as nat);
        if !ok {
            (false, m)
        } else {
            match file_at(files, n - 1) {
                Some(lines) => if lines.len() >= 10 {
                    (
                        true,
                        progress_updated(
                            m,
                            (n - 1) as usize,
                            lines.len() as u64,
                            lines.len() as usize,
                            ChunkProcessingStatus::Completed,
                        ),
                    )
                } else {
                    (false, m)
                },
                None => (false, m),
            }
        }
    }
}

/// Going over the first `n` chunks for a resume from phase 2: each chunk
/// whose JSONL file does not show it complete is listed, and recorded as
/// interrupted when it has a frame and as not started otherwise; the others
/// are recorded as completed.
pub open spec fn incomplete_scan(ms: Map<usize, ChunkModel>, files: Seq<Option<Seq<Option<u64>>>>, n: nat) -> (Seq<ChunkResumeInfo>, Map<usize, ChunkModel>)
    decreases n,
{
    if n == 0 {
        (Seq::empty(), ms)
    } else {
        let (infos, m) = incomplete_scan(ms, files, (n - 1) as nat);
        let i = (n - 1) as usize;
        let (complete, last, qr) = completeness(file_at(files, n - 1));
        if !complete {
            (
                infos.push(ChunkResumeInfo { chunk_id: i, last_frame_processed: last, qr_codes_found: qr, needs_full_reprocess: last == 0 }),
                progress_updated(
                    m,
                    i,
                    last,
                    qr,
                    if last > 0 {
                        ChunkProcessingStatus::Interrupted
                    } else {
                        ChunkProcessingStatus::NotStarted
                    },
                ),
            )
        } else {
            (infos, progress_updated(m, i, last, qr, ChunkProcessingStatus::Completed))
        }
    }
}

/// `after` is `before` with one resume-detection note carrying `message`.
pub open spec fn noted(before: Seq<ProcessingEvent>, after: Seq<ProcessingEvent>, message: Seq<char>) -> bool {
    &&& after.len() == before.len() + 1
    &&& after.drop_last() == before
    &&& after.last() matches ProcessingEvent::InitializationProgress { stage, message: m } && stage@ == "Resume Detection"@
        && m@ == message
}

/// The record's fields other than the chunks and the update time are the
/// same.
pub open spec fn same_run(a: ResumeState, b: ResumeState) -> bool {
    &&& a.version == b.version
    &&& a.input_file == b.input_file
    &&& a.output_dir == b.output_dir
    &&& a.chunk_count == b.chunk_count
    &&& a.thread_count == b.thread_count
    &&& a.skip_frames == b.skip_frames
    &&& a.phase_completed == b.phase_completed
    &&& a.total_frames == b.total_frames
    &&& a.start_time == b.start_time
}

impl ResumeController {
    /// A controller for a run writing to `output_dir`, with its record.
    pub fn new(output_dir: &str, state: ResumeState) -> (r: Self)
        ensures
            r.output_dir@ == output_dir@,
            r.state == state,
    {
        ResumeController { state, output_dir: String::from_str(output_dir) }
    }

    /// Whether a chunk's JSONL file, given as the frame number of each line,
    /// shows the chunk complete; with the highest frame and the line count.
    pub fn analyze_jsonl_completeness(&self, frames: &Vec<Option<u64>>) -> (r: (bool, u64, usize))
        ensures
            r == completeness(Some(frames@)),
    {
        let count = frames.len();
        if count == 0 {
            return (false, 0, 0);
        }
        let mut max_frame: u64 = 0;
        let mut i: usize = 0;
        while i < frames.len()
            invariant
                i <= frames@.len(),
                max_frame == highest_frame(frames@.take(i as int)),
            decreases frames.len() - i,
        {
            proof {
                assert(frames@.take(i + 1).drop_last() =~= frames@.take(i as int));
            }
            match frames[i] {
                Some(f) => {
                    if f > max_frame {
                        max_frame = f;
                    }
                },
                None => {},
            }
            i += 1;
        }
        proof {
            assert(frames@.take(frames@.len() as int) =~= frames@);
        }
        (count >= 500 && max_frame > 1000, max_frame, count)
    }

    /// Checks every chunk's JSONL file for a resume from phase 3, recording
    /// as completed each chunk that passes until one does not.
    fn can_resume_phase_3(&mut self, jsonl_files: &Vec<Option<Vec<Option<u64>>>>) -> (r: bool)
        ensures
            same_run(final(self).state, old(self).state),
            final(self).output_dir == old(self).output_dir,
            (r, chunk_models(final(self).state.chunks@)) == phase3_check(
                chunk_models(old(self).state.chunks@),
                jsonl_views(jsonl_files@),
                old(self).state.chunk_count as nat,
            ),
    {
        let ghost files = jsonl_views(jsonl_files@);
        let ghost start = chunk_models(self.state.chunks@);
        let count = self.state.chunk_count;
        let mut i: usize = 0;
        while i < count
            invariant
                i <= count,
                count == old(self).state.chunk_count,
                files == jsonl_views(jsonl_files@),
                start == chunk_models(old(self).state.chunks@),
                same_run(self.state, old(self).state),
                self.output_dir == old(self).output_dir,
                phase3_check(start, files, i as nat) == (true, chunk_models(self.state.chunks@)),
            decreases count - i,
        {
            let lines = if i < jsonl_files.len() {
                match &jsonl_files[i] {
                    Some(frames) => frames.len(),
                    None => 0,
                }
            } else {
                0
            };
            let present = i < jsonl_files.len() && jsonl_files[i].is_some();
            proof {
                if i < jsonl_files@.len() {
                    assert(files[i as int] == match jsonl_files@[i as int] {
                        Some(x) => Some(x@),
                        None => None::<Seq<Option<u64>>>,
                    });
                }
            }
            if !present || lines < 10 {
                proof {
                    lemma_phase3_stops(start, files, (i + 1) as nat, count as nat);
                }
                return false;
            }
            self.state.update_chunk_progress(i, lines as u64, lines, ChunkProcessingStatus::Completed);
            i += 1;
        }
        true
    }

    /// Lists the chunks whose JSONL files do not show them complete, and
    /// records every chunk's progress as those files show it.
    fn get_incomplete_chunks(&mut self, jsonl_files: &Vec<Option<Vec<Option<u64>>>>) -> (r: Vec<ChunkResumeInfo>)
        ensures
            same_run(final(self).state, old(self).state),
            final(self).output_dir == old(self).output_dir,
            (r@, chunk_models(final(self).state.chunks@)) == incomplete_scan(
                chunk_models(old(self).state.chunks@),
                jsonl_views(jsonl_files@),
                old(self).state.chunk_count as nat,
            ),
    {
        let ghost files = jsonl_views(jsonl_files@);
        let ghost start = chunk_models(self.state.chunks@);
        let count = self.state.chunk_count;
        let mut incomplete: Vec<ChunkResumeInfo> = Vec::new();
        let mut i: usize = 0;
        while i < count
            invariant
                i <= count,
                count == old(self).state.chunk_count,
                files == jsonl_views(jsonl_files@),
                start == chunk_models(old(self).state.chunks@),
                same_run(self.state, old(self).state),
                self.output_dir == old(self).output_dir,
                incomplete_scan(start, files, i as nat) == (incomplete@, chunk_models(self.state.chunks@)),
            decreases count - i,
        {
            let (is_complete, last_frame, qr_count) = if i < jsonl_files.len() {
                match &jsonl_files[i] {
                    Some(frames) => self.analyze_jsonl_completeness(frames),
                    None => (false, 0, 0),
                }
            } else {
                (false, 0, 0)
            };
            proof {
                if i < jsonl_files@.len() {
                    assert(files[i as int] == match jsonl_files@[i as int] {
                        Some(x) => Some(x@),
                        None => None::<Seq<Option<u64>>>,
                    });
                }
                assert((is_complete, last_frame, qr_count) == completeness(file_at(files, i as int)));
            }
            if !is_complete {
                incomplete.push(
                    ChunkResumeInfo {
                        chunk_id: i,
                        last_frame_processed: last_frame,
                        qr_codes_found: qr_count,
                        needs_full_reprocess: last_frame == 0,
                    },
                );
                let status = if last_frame > 0 {
                    ChunkProcessingStatus::Interrupted
                } else {
                    ChunkProcessingStatus::NotStarted
                };
                self.state.update_chunk_progress(i, last_frame, qr_count, status);
            } else {
                self.state.update_chunk_progress(i, last_frame, qr_count, ChunkProcessingStatus::Completed);
            }
            i += 1;
        }
        incomplete
    }

    /// Decides where the run resumes: from phase 3 when every chunk's JSONL
    /// file has at least ten lines; from phase 2, for the chunks not yet
    /// complete, when every chunk's video exists; from phase 1 otherwise.
    /// Appends a note of the decision to `events`. Entry `i` of
    /// `jsonl_files` is the JSONL file of chunk `i + 1` as read, and of
    /// `videos_present` whether its video exists.
    pub fn detect_resume_point(
        &mut self,
        jsonl_files: &Vec<Option<Vec<Option<u64>>>>,
        chunk_videos_present: &Vec<bool>,
        events: &mut Vec<ProcessingEvent>,
    ) -> (r: ResumePoint)
        ensures
            same_run(final(self).state, old(self).state),
            final(self).output_dir == old(self).output_dir,
            ({
                let files = jsonl_views(jsonl_files@);
                let count = old(self).state.chunk_count;
                let (ok3, m3) = phase3_check(chunk_models(old(self).state.chunks@), files, count as nat);
                if ok3 {
                    &&& r is Phase3
                    &&& chunk_models(final(self).state.chunks@) == m3
                    &&& noted(old(events)@, final(events)@, "All chunks complete - resuming from Phase 3"@)
                } else if videos_present(count, chunk_videos_present@) {
                    let (infos, m2) = incomplete_scan(m3, files, count as nat);
                    &&& r matches ResumePoint::Phase2(v) && v@ == infos
                    &&& chunk_models(final(self).state.chunks@) == m2
                    &&& noted(
                        old(events)@,
                        final(events)@,
                        "Video chunks exist - resuming "@ + decimal(infos.len()) + " incomplete chunks in Phase 2"@,
                    )
                } else {
                    &&& r is Phase1
                    &&& chunk_models(final(self).state.chunks@) == m3
                    &&& noted(old(events)@, final(events)@, "Starting fresh from Phase 1"@)
                }
            }),
    {
        if self.can_resume_phase_3(jsonl_files) {
            events.push(
                ProcessingEvent::InitializationProgress {
                    stage: String::from_str("Resume Detection"),
                    message: String::from_str("All chunks complete - resuming from Phase 3"),
                },
            );
            proof {
                assert(events@.drop_last() =~= old(events)@);
            }
            return ResumePoint::Phase3;
        }
        if self.state.video_chunks_exist(chunk_videos_present) {
            let incomplete_chunks = self.get_incomplete_chunks(jsonl_files);
            let mut m: Vec<char> = Vec::new();
            append_str(&mut m, "Video chunks exist - resuming ");
            push_decimal(&mut m, incomplete_chunks.len() as u64);
            append_str(&mut m, " incomplete chunks in Phase 2");
            events.push(
                ProcessingEvent::InitializationProgress {
                    stage: String::from_str("Resume Detection"),
                    message: string_from_chars(&m),
                },
            );
            proof {
                assert(events@.drop_last() =~= old(events)@);
            }
            return ResumePoint::Phase2(incomplete_chunks);
        }
        events.push(
            ProcessingEvent::InitializationProgress {
                stage: String::from_str("Resume Detection"),
                message: String::from_str("Starting fresh from Phase 1"),
            },
        );
        proof {
            assert(events@.drop_last() =~= old(events)@);
        }
        ResumePoint::Phase1
    }

    /// Records that a phase is completed.
    pub fn mark_phase_completed(&mut self, phase: u8)
        ensures
            final(self).state.phase_completed == phase,
            final(self).state.chunks == old(self).state.chunks,
            final(self).state.chunk_count == old(self).state.chunk_count,
            final(self).output_dir == old(self).output_dir,
    {
        self.state.phase_completed = phase;
    }

    /// Records an error: a recorded chunk it concerns is marked failed. The
    /// event that reports the error comes back.
    pub fn handle_error(&mut self, chunk_id: Option<usize>, context: &str, error: &str) -> (r: ProcessingEvent)
        requires
            chunk_id matches Some(id) ==> (old(self).state.chunks@.contains_key(id) ==> old(self).state.chunks@[id].error_count < usize::MAX),
        ensures
            same_run(final(self).state, old(self).state),
            final(self).output_dir == old(self).output_dir,
            match chunk_id {
                Some(id) => {
                    &&& final(self).state.chunks@.dom() == old(self).state.chunks@.dom()
                    &&& forall|k: usize| #[trigger] old(self).state.chunks@.contains_key(k) && k != id ==> final(self).state.chunks@[k] == old(self).state.chunks@[k]
                    &&& old(self).state.chunks@.contains_key(id) ==> ({
                        let st = final(self).state.chunks@[id];
                        let prev = old(self).state.chunks@[id];
                        &&& st.error_count == prev.error_count + 1
                        &&& st.last_error matches Some(e) && e@ == error@
                        &&& st.status == ChunkProcessingStatus::Failed
                    })
                },
                None => final(self).state.chunks == old(self).state.chunks,
            },
            r matches ProcessingEvent::SystemError { context: c, error: e } && c@ == context@ && e@ == error@,
    {
        match chunk_id {
            Some(id) => {
                self.state.mark_chunk_error(id, String::from_str(error));
            },
            None => {},
        }
        ProcessingEvent::SystemError { context: String::from_str(context), error: String::from_str(error) }
    }

    /// Marks the chunks being processed as interrupted. The event that
    /// reports the interruption comes back.
    pub fn handle_interruption(&mut self) -> (r: ProcessingEvent)
        ensures
            same_run(final(self).state, old(self).state),
            final(self).output_dir == old(self).output_dir,
            chunk_models(final(self).state.chunks@) == crate::resume_state::interrupted(chunk_models(old(self).state.chunks@)),
            r matches ProcessingEvent::SystemError { context, error } && context@ == "Process Interruption"@
                && error@ == "Processing interrupted - state saved for resume"@,
    {
        self.state.interrupt_processing();
        ProcessingEvent::SystemError {
            context: String::from_str("Process Interruption"),
            error: String::from_str("Processing interrupted - state saved for resume"),
        }
    }

    /// A line that counts the chunks by status.
    pub fn get_resume_summary(&self) -> (r: String)
        ensures
            r@ == "Resume Status: "@ + decimal(count_status(self.state.chunks@, ChunkProcessingStatus::Completed)) + "/"@
                + decimal(self.state.chunk_count as nat) + " completed, "@
                + decimal(count_status(self.state.chunks@, ChunkProcessingStatus::Processing)) + " processing, "@
                + decimal(count_status(self.state.chunks@, ChunkProcessingStatus::Failed)) + " failed, "@
                + decimal(count_status(self.state.chunks@, ChunkProcessingStatus::Interrupted)) + " interrupted"@,
    {
        let completed = self.state.status_count(ChunkProcessingStatus::Completed);
        let processing = self.state.status_count(ChunkProcessingStatus::Processing);
        let failed = self.state.status_count(ChunkProcessingStatus::Failed);
        let interrupted = self.state.status_count(ChunkProcessingStatus::Interrupted);
        let mut v: Vec<char> = Vec::new();
        append_str(&mut v, "Resume Status: ");
        push_decimal(&mut v, completed as u64);
        append_str(&mut v, "/");
        push_decimal(&mut v, self.state.chunk_count as u64);
        append_str(&mut v, " completed, ");
        push_decimal(&mut v, processing as u64);
        append_str(&mut v, " processing, ");
        push_decimal(&mut v, failed as u64);
        append_str(&mut v, " failed, ");
        push_decimal(&mut v, interrupted as u64);
        append_str(&mut v, " interrupted");
        string_from_chars(&v)
    }
}

/// Once the check for phase 3 has stopped, the later chunks change nothing.
proof fn lemma_phase3_stops(ms: Map<usize, ChunkModel>, files: Seq<Option<Seq<Option<u64>>>>, n: nat, m: nat)
    requires
        n <= m,
        !phase3_check(ms, files, n).0,
    ensures
        phase3_check(ms, files, m) == phase3_check(ms, files, n),
    decreases m - n,
{
    if n < m {
        lemma_phase3_stops(ms, files, n, (m - 1) as nat);
    }
}

} // verus!
