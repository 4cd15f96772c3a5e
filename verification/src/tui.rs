//! The state shown by the terminal interface, and how each processing
//! event changes it.
use std::time::Instant;
use vstd::prelude::*;

use crate::decode_qr_files::opt_view;
use crate::events::all_completed_text;
use crate::events::all_completed_line;
use crate::events::checksum_line;
use crate::events::checksum_text;
use crate::events::chunk_completed_line;
use crate::events::chunk_completed_text;
use crate::events::chunk_number_fits;
use crate::events::file_reconstructed_line;
use crate::events::file_reconstructed_text;
use crate::events::ProcessingEvent;
use crate::text::append_str;
use crate::text::chars_of;
use crate::text::decimal;
use crate::text::drop_commas;
use crate::text::find_chars;
use crate::text::find_from;
use crate::text::last_word;
use crate::text::last_word_chars;
use crate::text::parse_bounded;
use crate::text::parse_unsigned;
use crate::text::push_decimal;
use crate::text::string_from_chars;
use crate::text::without_commas;

verus! {

#[verifier::external_type_specification]
#[verifier::external_body]
pub struct ExInstant(std::time::Instant);

/// Reads the monotonic clock (`Instant::now`). Nothing is stated of the
/// reading: it is the time.
#[verifier::external_body]
fn instant_now() -> (r: Instant) {
    Instant::now()
}

/// Where a chunk stands, as shown.
#[derive(Clone, Copy, Debug, PartialEq, Eq, Structural)]
pub enum ChunkStatus {
    Pending,
    Processing,
    Completed,
    Error,
}

/// Where a phase stands, as shown.
#[derive(Clone, Copy, Debug, PartialEq, Eq, Structural)]
pub enum PhaseStatus {
    Pending,
    InProgress,
    Completed,
    Error,
}

/// What is shown of one chunk.
pub struct ChunkInfo {
    pub id: usize,
    pub name: String,
    pub status: ChunkStatus,
    pub frames_processed: usize,
    pub qr_codes_found: usize,
    pub jsonl_file: Option<String>,
    pub duration_ms: Option<u64>,
}

/// What is shown of one phase. Its progress is the fraction
/// `progress_done / progress_total`, zero when the total is zero.
pub struct PhaseInfo {
    pub name: String,
    pub status: PhaseStatus,
    pub progress_done: usize,
    pub progress_total: usize,
    pub message: String,
    pub duration_ms: Option<u64>,
}

/// A line of the message log. A frame report shows a percentage in
/// floating point and is rendered by the display.
pub enum TuiMessage {
    Text(String),
    FrameReport { chunk_id: usize, frames_processed: u64, total_frames: u64, qr_codes_found: usize },
}

/// Everything the interface shows.
pub struct TuiState {
    pub phases: Vec<PhaseInfo>,
    pub current_phase: usize,
    pub messages: Vec<TuiMessage>,
    pub should_quit: bool,
    pub chunks: Vec<ChunkInfo>,
    pub total_frames: u64,
    pub frames_processed: u64,
    pub start_time: Option<Instant>,
}

pub struct ChunkView {
    pub id: usize,
    pub name: Seq<char>,
    pub status: ChunkStatus,
    pub frames_processed: usize,
    pub qr_codes_found: usize,
    pub jsonl_file: Option<Seq<char>>,
    pub duration_ms: Option<u64>,
}

pub struct PhaseView {
    pub name: Seq<char>,
    pub status: PhaseStatus,
    pub done: usize,
    pub total: usize,
    pub message: Seq<char>,
    pub duration_ms: Option<u64>,
}

pub enum MessageView {
    Text(Seq<char>),
    FrameReport(usize, u64, u64, usize),
}

/// The shown state, with `started` telling whether the clock was started.
pub struct TuiView {
    pub phases: Seq<PhaseView>,
    pub current_phase: usize,
    pub messages: Seq<MessageView>,
    pub should_quit: bool,
    pub chunks: Seq<ChunkView>,
    pub total_frames: u64,
    pub frames_processed: u64,
    pub started: bool,
}

impl View for ChunkInfo {
    type V = ChunkView;

    open spec fn view(&self) -> ChunkView {
        ChunkView {
            id: self.id,
            name: self.name@,
            status: self.status,
            frames_processed: self.frames_processed,
            qr_codes_found: self.qr_codes_found,
            jsonl_file: opt_view(self.jsonl_file),
            duration_ms: self.duration_ms,
        }
    }
}

impl View for PhaseInfo {
    type V = PhaseView;

    open spec fn view(&self) -> PhaseView {
        PhaseView {
            name: self.name@,
            status: self.status,
            done: self.progress_done,
            total: self.progress_total,
            message: self.message@,
            duration_ms: self.duration_ms,
        }
    }
}

impl View for TuiMessage {
    type V = MessageView;

    open spec fn view(&self) -> MessageView {
        match self {
            TuiMessage::Text(t) => MessageView::Text(t@),
            TuiMessage::FrameReport { chunk_id, frames_processed, total_frames, qr_codes_found } => MessageView::FrameReport(
                *chunk_id,
                *frames_processed,
                *total_frames,
                *qr_codes_found,
            ),
        }
    }
}

pub open spec fn phase_views(v: Seq<PhaseInfo>) -> Seq<PhaseView> {
    v.map_values(|p: PhaseInfo| p@)
}

pub open spec fn chunk_views(v: Seq<ChunkInfo>) -> Seq<ChunkView> {
    v.map_values(|c: ChunkInfo| c@)
}

pub open spec fn message_views(v: Seq<TuiMessage>) -> Seq<MessageView> {
    v.map_values(|m: TuiMessage| m@)
}

impl View for TuiState {
    type V = TuiView;

    open spec fn view(&self) -> TuiView {
        TuiView {
            phases: phase_views(self.phases@),
            current_phase: self.current_phase,
            messages: message_views(self.messages@),
            should_quit: self.should_quit,
            chunks: chunk_views(self.chunks@),
            total_frames: self.total_frames,
            frames_processed: self.frames_processed,
            started: self.start_time is Some,
        }
    }
}

// ------------------------------------------------------------------
// How events change the state
// ------------------------------------------------------------------

/// The index of the phase numbered `phase` (from one; zero counts as one).
pub open spec fn phase_slot(phase: u8) -> int {
    if phase >= 1 {
        phase - 1
    } else {
        0
    }
}

/// The log keeps at most a hundred lines where it is trimmed: one line
/// more drops the oldest.
pub open spec fn capped(ms: Seq<MessageView>) -> Seq<MessageView> {
    if ms.len() > 100 {
        ms.drop_first()
    } else {
        ms
    }
}

/// The first chunk at or after `i` with this id.
pub open spec fn chunk_slot(cs: Seq<ChunkView>, id: usize, i: nat) -> Option<nat>
    decreases cs.len() - i,
{
    if i >= cs.len() {
        None
    } else if cs[i as int].id == id {
        Some(i)
    } else {
        chunk_slot(cs, id, i + 1)
    }
}

/// The frames processed over all chunks.
pub open spec fn frames_sum(cs: Seq<ChunkView>) -> nat
    decreases cs.len(),
{
    if cs.len() == 0 {
        0
    } else {
        frames_sum(cs.drop_last()) + cs.last().frames_processed as nat
    }
}

/// The word `frames`.
pub open spec fn frames_word() -> Seq<char> {
    seq!['f', 'r', 'a', 'm', 'e', 's']
}

/// The frame count that a progress message gives: the last word before the
/// first `frames`, commas dropped, read as a number.
pub open spec fn frames_count(text: Seq<char>) -> Option<u64> {
    match find_from(text, frames_word(), 0) {
        None => None,
        Some(i) => match last_word(text.take(i as int)) {
            None => None,
            Some(w) => match parse_unsigned(without_commas(w), u64::MAX as nat) {
                Ok(n) => Some(n as u64),
                Err(_) => None,
            },
        },
    }
}

/// The state with the phase at `i`, if there is one, replaced by `f` of it.
pub open spec fn with_phase(s: TuiView, i: int, p: PhaseView) -> TuiView {
    if 0 <= i < s.phases.len() {
        TuiView { phases: s.phases.update(i, p), ..s }
    } else {
        s
    }
}

pub open spec fn step_phase_started(s: TuiView, phase: u8, description: Seq<char>) -> TuiView {
    let i = phase_slot(phase);
    let s1 = if 0 <= i < s.phases.len() {
        TuiView {
            phases: s.phases.update(i, PhaseView { status: PhaseStatus::InProgress, message: "Starting..."@, ..s.phases[i] }),
            current_phase: i as usize,
            ..s
        }
    } else {
        s
    };
    TuiView {
        messages: s1.messages.push(MessageView::Text("Started: "@ + description)),
        started: s.started || phase == 1,
        ..s1
    }
}

pub open spec fn step_progress(s: TuiView, phase: u8, current: usize, total: usize, message: Seq<char>) -> TuiView {
    let i = phase_slot(phase);
    let s1 = with_phase(
        s,
        i,
        PhaseView {
            done: if total > 0 {
                current
            } else {
                0
            },
            total: if total > 0 {
                total
            } else {
                0
            },
            message,
            ..s.phases[i]
        },
    );
    TuiView {
        total_frames: if phase == 1 {
            match frames_count(message) {
                Some(n) => n,
                None => s.total_frames,
            }
        } else {
            s.total_frames
        },
        messages: capped(s.messages.push(MessageView::Text("Progress ["@ + decimal(phase as nat) + "]: "@ + message))),
        ..s1
    }
}

pub open spec fn step_phase_completed(s: TuiView, phase: u8, duration_ms: u64) -> TuiView {
    let i = phase_slot(phase);
    let s1 = with_phase(
        s,
        i,
        PhaseView {
            status: PhaseStatus::Completed,
            done: 1,
            total: 1,
            duration_ms: Some(duration_ms),
            message: "Completed in "@ + decimal(duration_ms as nat) + "ms"@,
            ..s.phases[i]
        },
    );
    TuiView {
        messages: s.messages.push(
            MessageView::Text("Completed: Phase "@ + decimal(phase as nat) + " ("@ + decimal(duration_ms as nat) + "ms)"@),
        ),
        ..s1
    }
}

pub open spec fn step_error(s: TuiView, phase: u8, error: Seq<char>) -> TuiView {
    let i = phase_slot(phase);
    let s1 = with_phase(s, i, PhaseView { status: PhaseStatus::Error, message: "Error: "@ + error, ..s.phases[i] });
    TuiView {
        messages: s.messages.push(MessageView::Text("Error in Phase "@ + decimal(phase as nat) + ": "@ + error)),
        ..s1
    }
}

/// The state with the first chunk of this id, if there is one, replaced.
pub open spec fn with_chunk(s: TuiView, id: usize, c: ChunkView) -> TuiView {
    match chunk_slot(s.chunks, id, 0) {
        Some(j) => TuiView { chunks: s.chunks.update(j as int, c), ..s },
        None => s,
    }
}

/// The first chunk of this id.
pub open spec fn chunk_of(s: TuiView, id: usize) -> ChunkView {
    s.chunks[chunk_slot(s.chunks, id, 0).unwrap() as int]
}

pub open spec fn step_chunk_started(s: TuiView, chunk_id: usize, chunk_name: Seq<char>) -> TuiView {
    let chunks = match chunk_slot(s.chunks, chunk_id, 0) {
        Some(j) => s.chunks.update(j as int, ChunkView { status: ChunkStatus::Processing, ..s.chunks[j as int] }),
        None => s.chunks.push(
            ChunkView {
                id: chunk_id,
                name: chunk_name,
                status: ChunkStatus::Processing,
                frames_processed: 0,
                qr_codes_found: 0,
                jsonl_file: None,
                duration_ms: None,
            },
        ),
    };
    TuiView {
        chunks,
        messages: s.messages.push(
            MessageView::Text("Started processing chunk "@ + decimal(chunk_id as nat + 1) + ": "@ + chunk_name),
        ),
        ..s
    }
}

pub open spec fn step_chunk_progress(s: TuiView, chunk_id: usize, frames_processed: usize, qr_codes_found: usize, status: Seq<char>) -> TuiView {
    let s1 = with_chunk(
        s,
        chunk_id,
        ChunkView { frames_processed, qr_codes_found, status: ChunkStatus::Processing, ..chunk_of(s, chunk_id) },
    );
    TuiView {
        messages: s.messages.push(
            MessageView::Text(
                "Chunk "@ + decimal(chunk_id as nat + 1) + ": "@ + status + " - "@ + decimal(frames_processed as nat)
                    + " frames, "@ + decimal(qr_codes_found as nat) + " QR codes"@,
            ),
        ),
        ..s1
    }
}

pub open spec fn step_chunk_completed(s: TuiView, chunk_id: usize, qr_codes_found: usize, jsonl_file: Seq<char>, duration_ms: u64) -> TuiView {
    let s1 = with_chunk(
        s,
        chunk_id,
        ChunkView {
            status: ChunkStatus::Completed,
            qr_codes_found,
            jsonl_file: Some(jsonl_file),
            duration_ms: Some(duration_ms),
            ..chunk_of(s, chunk_id)
        },
    );
    TuiView {
        messages: s.messages.push(MessageView::Text(chunk_completed_text(chunk_id, qr_codes_found, jsonl_file, duration_ms))),
        ..s1
    }
}

/// The chunks after a frame progress report.
pub open spec fn frame_progress_chunks(s: TuiView, chunk_id: usize, frames_processed: u64, qr_codes_found: usize) -> Seq<ChunkView> {
    with_chunk(
        s,
        chunk_id,
        ChunkView { frames_processed: frames_processed as usize, qr_codes_found, ..chunk_of(s, chunk_id) },
    ).chunks
}

pub open spec fn step_frame_progress(s: TuiView, chunk_id: usize, frames_processed: u64, total_frames: u64, qr_codes_found: usize) -> TuiView {
    let chunks = frame_progress_chunks(s, chunk_id, frames_processed, qr_codes_found);
    TuiView {
        chunks,
        frames_processed: frames_sum(chunks) as u64,
        messages: if frames_processed % 500 == 0 || frames_processed == total_frames {
            capped(s.messages.push(MessageView::FrameReport(chunk_id, frames_processed, total_frames, qr_codes_found)))
        } else {
            s.messages
        },
        ..s
    }
}

/// The state with one more line in the log.
pub open spec fn logged(s: TuiView, line: Seq<char>) -> TuiView {
    TuiView { messages: s.messages.push(MessageView::Text(line)), ..s }
}

/// The state with one more line in the log, trimmed.
pub open spec fn logged_capped(s: TuiView, line: Seq<char>) -> TuiView {
    TuiView { messages: capped(s.messages.push(MessageView::Text(line))), ..s }
}

/// The state after an event.
pub open spec fn tui_step(s: TuiView, event: ProcessingEvent) -> TuiView {
    match event {
        ProcessingEvent::PhaseStarted { phase, description } => step_phase_started(s, phase, description@),
        ProcessingEvent::Progress { phase, current, total, message } => step_progress(s, phase, current, total, message@),
        ProcessingEvent::PhaseCompleted { phase, duration_ms } => step_phase_completed(s, phase, duration_ms),
        ProcessingEvent::Error { phase, error } => step_error(s, phase, error@),
        ProcessingEvent::AllCompleted { total_duration_ms, files_extracted } => logged(
            logged(s, all_completed_text(total_duration_ms, files_extracted)),
            "Press 'q' to quit"@,
        ),
        ProcessingEvent::ChunkStarted { chunk_id, chunk_name } => step_chunk_started(s, chunk_id, chunk_name@),
        ProcessingEvent::ChunkProgress { chunk_id, frames_processed, qr_codes_found, status } => step_chunk_progress(
            s,
            chunk_id,
            frames_processed,
            qr_codes_found,
            status@,
        ),
        ProcessingEvent::ChunkCompleted { chunk_id, qr_codes_found, jsonl_file, duration_ms } => step_chunk_completed(
            s,
            chunk_id,
            qr_codes_found,
            jsonl_file@,
            duration_ms,
        ),
        ProcessingEvent::FileReconstructed { file_name, file_size, checksum_valid, output_path } => logged(
            s,
            file_reconstructed_text(file_name@, file_size, checksum_valid, output_path@),
        ),
        ProcessingEvent::ChecksumValidation { file_name, checksum_type, expected, actual, valid } => logged(
            s,
            checksum_text(file_name@, checksum_type@, expected@, actual@, valid),
        ),
        ProcessingEvent::SystemError { context, error } => logged_capped(
            s,
            "🚨 System Error in "@ + context@ + ": "@ + error@,
        ),
        ProcessingEvent::InitializationProgress { stage, message } => logged_capped(s, "🔧 "@ + stage@ + ": "@ + message@),
        ProcessingEvent::FinalSummary { files_count, output_dir, total_duration_ms } => logged(
            logged(
                logged(
                    logged(logged(s, "📊 Final Summary:"@), "   Files extracted: "@ + decimal(files_count as nat)),
                    "   Output directory: "@ + output_dir@,
                ),
                "   Total duration: "@ + decimal(total_duration_ms as nat) + "ms"@,
            ),
            "Press 'q' to quit"@,
        ),
        ProcessingEvent::ModeTransition { from, to, reason } => logged_capped(
            s,
            "🔄 Mode transition: "@ + from@ + " → "@ + to@ + " ("@ + reason@ + ")"@,
        ),
        ProcessingEvent::FrameProgress { chunk_id, frames_processed, total_frames, qr_codes_found } => step_frame_progress(
            s,
            chunk_id,
            frames_processed,
            total_frames,
            qr_codes_found,
        ),
    }
}

/// The event can be handled: a chunk's number fits, and after a frame
/// progress report the frames over all chunks fit in 64 bits.
pub open spec fn step_defined(s: TuiView, event: ProcessingEvent) -> bool {
    &&& chunk_number_fits(event)
    &&& (event matches ProcessingEvent::FrameProgress { chunk_id, frames_processed, total_frames, qr_codes_found }
        ==> frames_sum(frame_progress_chunks(s, chunk_id, frames_processed, qr_codes_found)) <= u64::MAX)
}

proof fn lemma_chunk_slot(cs: Seq<ChunkView>, id: usize, i: nat)
    ensures
        chunk_slot(cs, id, i) matches Some(j) ==> i <= j < cs.len() && cs[j as int].id == id,
    decreases cs.len() - i,
{
    if i < cs.len() && cs[i as int].id != id {
        lemma_chunk_slot(cs, id, i + 1);
    }
}

/// What every event keeps: the phases, their names and their number; the
/// chunks shown so far, their ids and names, in their places (a chunk is
/// only ever added at the end); and a started clock.
pub proof fn lemma_step_keeps_shape(s: TuiView, event: ProcessingEvent)
    ensures
        tui_step(s, event).phases.len() == s.phases.len(),
        forall|i: int| 0 <= i < s.phases.len() ==> #[trigger] tui_step(s, event).phases[i].name == s.phases[i].name,
        tui_step(s, event).chunks.len() >= s.chunks.len(),
        forall|j: int| 0 <= j < s.chunks.len() ==> #[trigger] tui_step(s, event).chunks[j].id == s.chunks[j].id
            && tui_step(s, event).chunks[j].name == s.chunks[j].name,
        s.started ==> tui_step(s, event).started,
{
    match event {
        ProcessingEvent::ChunkStarted { chunk_id, .. } => lemma_chunk_slot(s.chunks, chunk_id, 0),
        ProcessingEvent::ChunkProgress { chunk_id, .. } => lemma_chunk_slot(s.chunks, chunk_id, 0),
        ProcessingEvent::ChunkCompleted { chunk_id, .. } => lemma_chunk_slot(s.chunks, chunk_id, 0),
        ProcessingEvent::FrameProgress { chunk_id, .. } => lemma_chunk_slot(s.chunks, chunk_id, 0),
        _ => {},
    }
}

/// The frames summed over the first chunks are no more than over all.
proof fn lemma_frames_sum_prefix(cs: Seq<ChunkView>, i: int)
    requires
        0 <= i <= cs.len(),
    ensures
        frames_sum(cs.take(i)) <= frames_sum(cs),
        i < cs.len() ==> frames_sum(cs.take(i + 1)) == frames_sum(cs.take(i)) + cs[i].frames_processed,
    decreases cs.len() - i,
{
    if i < cs.len() {
        assert(cs.take(i + 1).drop_last() =~= cs.take(i));
        lemma_frames_sum_prefix(cs, i + 1);
    } else {
        assert(cs.take(i) =~= cs);
    }
}

/// Replacing one chunk changes the total by the difference of its frames.
proof fn lemma_frames_sum_update(cs: Seq<ChunkView>, j: int, c: ChunkView)
    requires
        0 <= j < cs.len(),
    ensures
        frames_sum(cs.update(j, c)) + cs[j].frames_processed == frames_sum(cs) + c.frames_processed,
    decreases cs.len(),
{
    if j == cs.len() - 1 {
        assert(cs.update(j, c).drop_last() =~= cs.drop_last());
    } else {
        lemma_frames_sum_update(cs.drop_last(), j, c);
        assert(cs.update(j, c).drop_last() =~= cs.drop_last().update(j, c));
    }
}

/// After a frame progress report, the frames shown as processed are the
/// frames of all tracked chunks added up, the reporting chunk counted with
/// the frames it reports (when it is tracked), and no other chunk changed.
pub proof fn lemma_frame_progress_total(s: TuiView, chunk_id: usize, frames_processed: u64, total_frames: u64, qr_codes_found: usize)
    requires
        step_defined(s, ProcessingEvent::FrameProgress { chunk_id, frames_processed, total_frames, qr_codes_found }),
    ensures
        ({
            let t = tui_step(s, ProcessingEvent::FrameProgress { chunk_id, frames_processed, total_frames, qr_codes_found });
            &&& t.frames_processed == frames_sum(t.chunks)
            &&& t.chunks.len() == s.chunks.len()
            &&& forall|j: int| 0 <= j < s.chunks.len() && s.chunks[j].id != chunk_id ==> #[trigger] t.chunks[j] == s.chunks[j]
            &&& forall|j: int| 0 <= j < s.chunks.len() && s.chunks[j].id == chunk_id && (forall|i: int| 0 <= i < j ==> s.chunks[i].id != chunk_id)
                ==> #[trigger] t.chunks[j].frames_processed == frames_processed as usize && t.chunks[j].qr_codes_found == qr_codes_found
        }),
{
    lemma_chunk_slot(s.chunks, chunk_id, 0);
    lemma_chunk_slot_first(s.chunks, chunk_id, 0);
}

/// The first chunk of an id is found before any later one.
proof fn lemma_chunk_slot_first(cs: Seq<ChunkView>, id: usize, i: nat)
    ensures
        forall|j: int| i <= j < cs.len() && cs[j].id == id && (forall|k: int| i <= k < j ==> cs[k].id != id)
            ==> chunk_slot(cs, id, i) == Some(j as nat),
        (forall|j: int| i <= j < cs.len() ==> cs[j].id != id) ==> chunk_slot(cs, id, i) is None,
    decreases cs.len() - i,
{
    if i < cs.len() && cs[i as int].id != id {
        lemma_chunk_slot_first(cs, id, i + 1);
    }
}

/// The frames shown as processed stay the frames of all tracked chunks added
/// up through every event but a chunk progress report, which sets a chunk's
/// frames and leaves the total as it was.
pub proof fn lemma_frames_total_kept(s: TuiView, event: ProcessingEvent)
    requires
        step_defined(s, event),
        s.frames_processed == frames_sum(s.chunks),
        !(event is ChunkProgress),
    ensures
        tui_step(s, event).frames_processed == frames_sum(tui_step(s, event).chunks),
{
    match event {
        ProcessingEvent::ChunkStarted { chunk_id, chunk_name } => {
            lemma_chunk_slot(s.chunks, chunk_id, 0);
            match chunk_slot(s.chunks, chunk_id, 0) {
                Some(j) => {
                    lemma_frames_sum_update(s.chunks, j as int, ChunkView { status: ChunkStatus::Processing, ..s.chunks[j as int] });
                },
                None => {
                    let c = ChunkView {
                        id: chunk_id,
                        name: chunk_name@,
                        status: ChunkStatus::Processing,
                        frames_processed: 0,
                        qr_codes_found: 0,
                        jsonl_file: None,
                        duration_ms: None,
                    };
                    assert(s.chunks.push(c).drop_last() =~= s.chunks);
                },
            }
        },
        ProcessingEvent::ChunkCompleted { chunk_id, qr_codes_found, jsonl_file, duration_ms } => {
            lemma_chunk_slot(s.chunks, chunk_id, 0);
            match chunk_slot(s.chunks, chunk_id, 0) {
                Some(j) => {
                    lemma_frames_sum_update(
                        s.chunks,
                        j as int,
                        ChunkView {
                            status: ChunkStatus::Completed,
                            qr_codes_found,
                            jsonl_file: Some(jsonl_file@),
                            duration_ms: Some(duration_ms),
                            ..chunk_of(s, chunk_id)
                        },
                    );
                },
                None => {},
            }
        },
        ProcessingEvent::FrameProgress { chunk_id, frames_processed, total_frames, qr_codes_found } => {
            lemma_frame_progress_total(s, chunk_id, frames_processed, total_frames, qr_codes_found);
        },
        _ => {},
    }
}

fn find_chunk(chunks: &Vec<ChunkInfo>, id: usize) -> (r: Option<usize>)
    ensures
        match r {
            Some(j) => chunk_slot(chunk_views(chunks@), id, 0) == Some(j as nat) && j < chunks@.len(),
            None => chunk_slot(chunk_views(chunks@), id, 0) is None,
        },
{
    let mut i: usize = 0;
    while i < chunks.len()
        invariant
            i <= chunks@.len(),
            chunk_slot(chunk_views(chunks@), id, 0) == chunk_slot(chunk_views(chunks@), id, i as nat),
        decreases chunks.len() - i,
    {
        if chunks[i].id == id {
            return Some(i);
        }
        i += 1;
    }
    None
}

/// The frame count that a progress message gives.
fn frames_in_message(message: &String) -> (r: Option<u64>)
    ensures
        r == frames_count(message@),
{
    let text = chars_of(message.as_str());
    let mut word: Vec<char> = Vec::new();
    word.push('f');
    word.push('r');
    word.push('a');
    word.push('m');
    word.push('e');
    word.push('s');
    assert(word@ =~= frames_word());
    match find_chars(&text, &word) {
        None => None,
        Some(i) => {
            let mut before: Vec<char> = Vec::new();
            let mut k: usize = 0;
            while k < i
                invariant
                    k <= i,
                    i <= text@.len(),
                    before@ == text@.take(k as int),
                decreases i - k,
            {
                before.push(text[k]);
                proof {
                    assert(text@.take(k + 1) =~= text@.take(k as int).push(text@[k as int]));
                }
                k += 1;
            }
            match last_word_chars(&before) {
                None => None,
                Some(w) => {
                    let digits = drop_commas(&w);
                    match parse_bounded(&digits, u64::MAX) {
                        Ok(n) => Some(n),
                        Err(_) => None,
                    }
                },
            }
        },
    }
}

impl TuiState {
    /// The state before any event: three pending phases, no chunk, no
    /// message, the clock not started.
    pub fn new() -> (r: Self)
        ensures
            r@.phases.len() == 3,
            r@.phases[0].name == "Video Analysis & Intelligent Splitting"@,
            r@.phases[1].name == "Parallel Chunk Processing"@,
            r@.phases[2].name == "QR Code Processing & File Reconstruction"@,
            forall|i: int| 0 <= i < 3 ==> {
                &&& (#[trigger] r@.phases[i]).status == PhaseStatus::Pending
                &&& r@.phases[i].done == 0
                &&& r@.phases[i].total == 0
                &&& r@.phases[i].message == "Waiting to start..."@
                &&& r@.phases[i].duration_ms is None
            },
            r@.current_phase == 0,
            r@.messages.len() == 0,
            !r@.should_quit,
            r@.chunks.len() == 0,
            r@.total_frames == 0,
            r@.frames_processed == 0,
            !r@.started,
    {
        let mut phases: Vec<PhaseInfo> = Vec::new();
        phases.push(
            PhaseInfo {
                name: String::from_str("Video Analysis & Intelligent Splitting"),
                status: PhaseStatus::Pending,
                progress_done: 0,
                progress_total: 0,
                message: String::from_str("Waiting to start..."),
                duration_ms: None,
            },
        );
        phases.push(
            PhaseInfo {
                name: String::from_str("Parallel Chunk Processing"),
                status: PhaseStatus::Pending,
                progress_done: 0,
                progress_total: 0,
                message: String::from_str("Waiting to start..."),
                duration_ms: None,
            },
        );
        phases.push(
            PhaseInfo {
                name: String::from_str("QR Code Processing & File Reconstruction"),
                status: PhaseStatus::Pending,
                progress_done: 0,
                progress_total: 0,
                message: String::from_str("Waiting to start..."),
                duration_ms: None,
            },
        );
        let r = TuiState {
            phases,
            current_phase: 0,
            messages: Vec::new(),
            should_quit: false,
            chunks: Vec::new(),
            total_frames: 0,
            frames_processed: 0,
            start_time: None,
        };
        proof {
            assert(r@.phases[0] == r.phases@[0]@);
            assert(r@.phases[1] == r.phases@[1]@);
            assert(r@.phases[2] == r.phases@[2]@);
        }
        r
    }

    /// Appends a line to the log, trimming it to a hundred lines when `cap`.
    fn log_line(&mut self, line: &Vec<char>, cap: bool)
        ensures
            final(self)@ == if cap {
                logged_capped(old(self)@, line@)
            } else {
                logged(old(self)@, line@)
            },
    {
        self.messages.push(TuiMessage::Text(string_from_chars(line)));
        if cap && self.messages.len() > 100 {
            self.messages.remove(0);
        }
        proof {
            if cap && old(self)@.messages.len() + 1 > 100 {
                assert(message_views(self.messages@) =~= old(self)@.messages.push(MessageView::Text(line@)).drop_first());
            } else {
                assert(message_views(self.messages@) =~= old(self)@.messages.push(MessageView::Text(line@)));
            }
        }
    }

    /// Replaces the phase at `i` by `p`.
    fn put_phase(&mut self, i: usize, p: PhaseInfo)
        requires
            i < old(self).phases@.len(),
        ensures
            final(self)@ == (TuiView { phases: old(self)@.phases.update(i as int, p@), ..old(self)@ }),
    {
        let ghost pv = p@;
        self.phases.set(i, p);
        proof {
            assert(phase_views(self.phases@) =~= old(self)@.phases.update(i as int, pv));
        }
    }

    /// Takes the phase at `i` out, leaving a placeholder.
    fn phase_at(&mut self, i: usize) -> (r: PhaseInfo)
        requires
            i < old(self).phases@.len(),
        ensures
            r@ == old(self)@.phases[i as int],
            final(self).phases@.len() == old(self).phases@.len(),
            forall|k: int| 0 <= k < old(self).phases@.len() && k != i ==> final(self).phases@[k] == old(self).phases@[k],
            final(self).current_phase == old(self).current_phase,
            final(self).messages == old(self).messages,
            final(self).should_quit == old(self).should_quit,
            final(self).chunks == old(self).chunks,
            final(self).total_frames == old(self).total_frames,
            final(self).frames_processed == old(self).frames_processed,
            final(self).start_time == old(self).start_time,
    {
        let placeholder = PhaseInfo {
            name: String::new(),
            status: PhaseStatus::Pending,
            progress_done: 0,
            progress_total: 0,
            message: String::new(),
            duration_ms: None,
        };
        let r = self.phases.remove(i);
        self.phases.insert(i, placeholder);
        r
    }

    /// Takes the chunk at `j` out, leaving a placeholder.
    fn chunk_at(&mut self, j: usize) -> (r: ChunkInfo)
        requires
            j < old(self).chunks@.len(),
        ensures
            r@ == old(self)@.chunks[j as int],
            final(self).chunks@.len() == old(self).chunks@.len(),
            forall|k: int| 0 <= k < old(self).chunks@.len() && k != j ==> final(self).chunks@[k] == old(self).chunks@[k],
            final(self).phases == old(self).phases,
            final(self).current_phase == old(self).current_phase,
            final(self).messages == old(self).messages,
            final(self).should_quit == old(self).should_quit,
            final(self).total_frames == old(self).total_frames,
            final(self).frames_processed == old(self).frames_processed,
            final(self).start_time == old(self).start_time,
    {
        let placeholder = ChunkInfo {
            id: 0,
            name: String::new(),
            status: ChunkStatus::Pending,
            frames_processed: 0,
            qr_codes_found: 0,
            jsonl_file: None,
            duration_ms: None,
        };
        let r = self.chunks.remove(j);
        self.chunks.insert(j, placeholder);
        r
    }

    /// Puts `c` at `j` in place of what is there.
    fn put_chunk(&mut self, j: usize, c: ChunkInfo)
        requires
            j < old(self).chunks@.len(),
        ensures
            final(self).chunks@.len() == old(self).chunks@.len(),
            chunk_views(final(self).chunks@) == chunk_views(old(self).chunks@).update(j as int, c@),
            final(self).phases == old(self).phases,
            final(self).current_phase == old(self).current_phase,
            final(self).messages == old(self).messages,
            final(self).should_quit == old(self).should_quit,
            final(self).total_frames == old(self).total_frames,
            final(self).frames_processed == old(self).frames_processed,
            final(self).start_time == old(self).start_time,
    {
        let ghost cv = c@;
        self.chunks.set(j, c);
        proof {
            assert(chunk_views(self.chunks@) =~= chunk_views(old(self).chunks@).update(j as int, cv));
        }
    }

    fn on_phase_started(&mut self, phase: u8, description: String)
        ensures
            final(self)@ == step_phase_started(old(self)@, phase, description@),
    {
        if phase == 1 && self.start_time.is_none() {
            self.start_time = Some(instant_now());
        }
        let idx: usize = if phase >= 1 {
            (phase - 1) as usize
        } else {
            0
        };
        if idx < self.phases.len() {
            let mut p = self.phase_at(idx);
            p.status = PhaseStatus::InProgress;
            p.message = String::from_str("Starting...");
            let ghost pv = p@;
            let ghost before = self@;
            self.put_phase(idx, p);
            self.current_phase = idx;
            proof {
                assert(before.phases.len() == old(self)@.phases.len());
                assert(self@.phases =~= old(self)@.phases.update(idx as int, pv));
            }
        }
        let mut v: Vec<char> = Vec::new();
        append_str(&mut v, "Started: ");
        append_str(&mut v, description.as_str());
        self.log_line(&v, false);
    }

    fn on_progress(&mut self, phase: u8, current: usize, total: usize, message: String)
        ensures
            final(self)@ == step_progress(old(self)@, phase, current, total, message@),
    {
        let idx: usize = if phase >= 1 {
            (phase - 1) as usize
        } else {
            0
        };
        if idx < self.phases.len() {
            let mut p = self.phase_at(idx);
            if total > 0 {
                p.progress_done = current;
                p.progress_total = total;
            } else {
                p.progress_done = 0;
                p.progress_total = 0;
            }
            p.message = message.clone();
            let ghost pv = p@;
            self.put_phase(idx, p);
            proof {
                assert(self@.phases =~= old(self)@.phases.update(idx as int, pv));
            }
        }
        if phase == 1 {
            match frames_in_message(&message) {
                Some(frames) => {
                    self.total_frames = frames;
                },
                None => {},
            }
        }
        let mut v: Vec<char> = Vec::new();
        append_str(&mut v, "Progress [");
        push_decimal(&mut v, phase as u64);
        append_str(&mut v, "]: ");
        append_str(&mut v, message.as_str());
        self.log_line(&v, true);
    }

    fn on_phase_completed(&mut self, phase: u8, duration_ms: u64)
        ensures
            final(self)@ == step_phase_completed(old(self)@, phase, duration_ms),
    {
        let idx: usize = if phase >= 1 {
            (phase - 1) as usize
        } else {
            0
        };
        if idx < self.phases.len() {
            let mut p = self.phase_at(idx);
            p.status = PhaseStatus::Completed;
            p.progress_done = 1;
            p.progress_total = 1;
            p.duration_ms = Some(duration_ms);
            let mut m: Vec<char> = Vec::new();
            append_str(&mut m, "Completed in ");
            push_decimal(&mut m, duration_ms);
            append_str(&mut m, "ms");
            p.message = string_from_chars(&m);
            let ghost pv = p@;
            self.put_phase(idx, p);
            proof {
                assert(self@.phases =~= old(self)@.phases.update(idx as int, pv));
            }
        }
        let mut v: Vec<char> = Vec::new();
        append_str(&mut v, "Completed: Phase ");
        push_decimal(&mut v, phase as u64);
        append_str(&mut v, " (");
        push_decimal(&mut v, duration_ms);
        append_str(&mut v, "ms)");
        self.log_line(&v, false);
    }

    fn on_error(&mut self, phase: u8, error: String)
        ensures
            final(self)@ == step_error(old(self)@, phase, error@),
    {
        let idx: usize = if phase >= 1 {
            (phase - 1) as usize
        } else {
            0
        };
        if idx < self.phases.len() {
            let mut p = self.phase_at(idx);
            p.status = PhaseStatus::Error;
            let mut m: Vec<char> = Vec::new();
            append_str(&mut m, "Error: ");
            append_str(&mut m, error.as_str());
            p.message = string_from_chars(&m);
            let ghost pv = p@;
            self.put_phase(idx, p);
            proof {
                assert(self@.phases =~= old(self)@.phases.update(idx as int, pv));
            }
        }
        let mut v: Vec<char> = Vec::new();
        append_str(&mut v, "Error in Phase ");
        push_decimal(&mut v, phase as u64);
        append_str(&mut v, ": ");
        append_str(&mut v, error.as_str());
        self.log_line(&v, false);
    }

    fn on_chunk_started(&mut self, chunk_id: usize, chunk_name: String)
        requires
            chunk_id < usize::MAX,
        ensures
            final(self)@ == step_chunk_started(old(self)@, chunk_id, chunk_name@),
    {
        let mut v: Vec<char> = Vec::new();
        append_str(&mut v, "Started processing chunk ");
        push_decimal(&mut v, (chunk_id + 1) as u64);
        append_str(&mut v, ": ");
        append_str(&mut v, chunk_name.as_str());
        match find_chunk(&self.chunks, chunk_id) {
            Some(j) => {
                let ghost old_cs = self@.chunks;
                let mut c = self.chunk_at(j);
                c.status = ChunkStatus::Processing;
                let ghost cv = c@;
                self.put_chunk(j, c);
                proof {
                    assert(self@.chunks =~= old_cs.update(j as int, cv));
                }
            },
            None => {
                let ghost before = self.chunks@;
                self.chunks.push(
                    ChunkInfo {
                        id: chunk_id,
                        name: chunk_name,
                        status: ChunkStatus::Processing,
                        frames_processed: 0,
                        qr_codes_found: 0,
                        jsonl_file: None,
                        duration_ms: None,
                    },
                );
                proof {
                    assert(chunk_views(self.chunks@) =~= chunk_views(before).push(self.chunks@[before.len() as int]@));
                }
            },
        }
        self.log_line(&v, false);
    }

    fn on_chunk_progress(&mut self, chunk_id: usize, frames_processed: usize, qr_codes_found: usize, status: String)
        requires
            chunk_id < usize::MAX,
        ensures
            final(self)@ == step_chunk_progress(old(self)@, chunk_id, frames_processed, qr_codes_found, status@),
    {
        match find_chunk(&self.chunks, chunk_id) {
            Some(j) => {
                let ghost old_cs = self@.chunks;
                let mut c = self.chunk_at(j);
                c.frames_processed = frames_processed;
                c.qr_codes_found = qr_codes_found;
                c.status = ChunkStatus::Processing;
                let ghost cv = c@;
                self.put_chunk(j, c);
                proof {
                    assert(self@.chunks =~= old_cs.update(j as int, cv));
                }
            },
            None => {},
        }
        let mut v: Vec<char> = Vec::new();
        append_str(&mut v, "Chunk ");
        push_decimal(&mut v, (chunk_id + 1) as u64);
        append_str(&mut v, ": ");
        append_str(&mut v, status.as_str());
        append_str(&mut v, " - ");
        push_decimal(&mut v, frames_processed as u64);
        append_str(&mut v, " frames, ");
        push_decimal(&mut v, qr_codes_found as u64);
        append_str(&mut v, " QR codes");
        self.log_line(&v, false);
    }

    fn on_chunk_completed(&mut self, chunk_id: usize, qr_codes_found: usize, jsonl_file: String, duration_ms: u64)
        requires
            chunk_id < usize::MAX,
        ensures
            final(self)@ == step_chunk_completed(old(self)@, chunk_id, qr_codes_found, jsonl_file@, duration_ms),
    {
        let v = chunk_completed_line(chunk_id, qr_codes_found, &jsonl_file, duration_ms);
        match find_chunk(&self.chunks, chunk_id) {
            Some(j) => {
                let ghost old_cs = self@.chunks;
                let mut c = self.chunk_at(j);
                c.status = ChunkStatus::Completed;
                c.qr_codes_found = qr_codes_found;
                c.jsonl_file = Some(jsonl_file);
                c.duration_ms = Some(duration_ms);
                let ghost cv = c@;
                self.put_chunk(j, c);
                proof {
                    assert(self@.chunks =~= old_cs.update(j as int, cv));
                }
            },
            None => {},
        }
        self.log_line(&v, false);
    }

    fn on_frame_progress(&mut self, chunk_id: usize, frames_processed: u64, total_frames: u64, qr_codes_found: usize)
        requires
            frames_sum(frame_progress_chunks(old(self)@, chunk_id, frames_processed, qr_codes_found)) <= u64::MAX,
        ensures
            final(self)@ == step_frame_progress(old(self)@, chunk_id, frames_processed, total_frames, qr_codes_found),
    {
        match find_chunk(&self.chunks, chunk_id) {
            Some(j) => {
                let ghost old_cs = self@.chunks;
                let mut c = self.chunk_at(j);
                c.frames_processed = frames_processed as usize;
                c.qr_codes_found = qr_codes_found;
                let ghost cv = c@;
                self.put_chunk(j, c);
                proof {
                    assert(self@.chunks =~= old_cs.update(j as int, cv));
                }
            },
            None => {},
        }
        let ghost cs = chunk_views(self.chunks@);
        assert(cs == frame_progress_chunks(old(self)@, chunk_id, frames_processed, qr_codes_found));
        let mut total: u64 = 0;
        let mut i: usize = 0;
        while i < self.chunks.len()
            invariant
                i <= self.chunks@.len(),
                cs == chunk_views(self.chunks@),
                frames_sum(cs) <= u64::MAX,
                total == frames_sum(cs.take(i as int)),
            decreases self.chunks.len() - i,
        {
            proof {
                lemma_frames_sum_prefix(cs, i as int);
                lemma_frames_sum_prefix(cs, i + 1);
            }
            total = total + self.chunks[i].frames_processed as u64;
            i += 1;
        }
        proof {
            assert(cs.take(cs.len() as int) =~= cs);
        }
        self.frames_processed = total;
        if frames_processed % 500 == 0 || frames_processed == total_frames {
            let ghost before = self@;
            self.messages.push(TuiMessage::FrameReport { chunk_id, frames_processed, total_frames, qr_codes_found });
            if self.messages.len() > 100 {
                self.messages.remove(0);
            }
            proof {
                let pushed = before.messages.push(MessageView::FrameReport(chunk_id, frames_processed, total_frames, qr_codes_found));
                if pushed.len() > 100 {
                    assert(message_views(self.messages@) =~= pushed.drop_first());
                } else {
                    assert(message_views(self.messages@) =~= pushed);
                }
            }
        }
    }

    /// Changes the state as the event calls for.
    pub fn handle_event(&mut self, event: ProcessingEvent)
        requires
            step_defined(old(self)@, event),
        ensures
            final(self)@ == tui_step(old(self)@, event),
    {
        match event {
            ProcessingEvent::PhaseStarted { phase, description } => self.on_phase_started(phase, description),
            ProcessingEvent::Progress { phase, current, total, message } => self.on_progress(phase, current, total, message),
            ProcessingEvent::PhaseCompleted { phase, duration_ms } => self.on_phase_completed(phase, duration_ms),
            ProcessingEvent::Error { phase, error } => self.on_error(phase, error),
            ProcessingEvent::AllCompleted { total_duration_ms, files_extracted } => {
                let v = all_completed_line(total_duration_ms, files_extracted);
                self.log_line(&v, false);
                let mut q: Vec<char> = Vec::new();
                append_str(&mut q, "Press 'q' to quit");
                self.log_line(&q, false);
            },
            ProcessingEvent::ChunkStarted { chunk_id, chunk_name } => self.on_chunk_started(chunk_id, chunk_name),
            ProcessingEvent::ChunkProgress { chunk_id, frames_processed, qr_codes_found, status } => self.on_chunk_progress(
                chunk_id,
                frames_processed,
                qr_codes_found,
                status,
            ),
            ProcessingEvent::ChunkCompleted { chunk_id, qr_codes_found, jsonl_file, duration_ms } => self.on_chunk_completed(
                chunk_id,
                qr_codes_found,
                jsonl_file,
                duration_ms,
            ),
            ProcessingEvent::FileReconstructed { file_name, file_size, checksum_valid, output_path } => {
                let v = file_reconstructed_line(&file_name, file_size, checksum_valid, &output_path);
                self.log_line(&v, false);
            },
            ProcessingEvent::ChecksumValidation { file_name, checksum_type, expected, actual, valid } => {
                let v = checksum_line(&file_name, &checksum_type, &expected, &actual, valid);
                self.log_line(&v, false);
            },
            ProcessingEvent::SystemError { context, error } => {
                let mut v: Vec<char> = Vec::new();
                append_str(&mut v, "🚨 System Error in ");
                append_str(&mut v, context.as_str());
                append_str(&mut v, ": ");
                append_str(&mut v, error.as_str());
                self.log_line(&v, true);
            },
            ProcessingEvent::InitializationProgress { stage, message } => {
                let mut v: Vec<char> = Vec::new();
                append_str(&mut v, "🔧 ");
                append_str(&mut v, stage.as_str());
                append_str(&mut v, ": ");
                append_str(&mut v, message.as_str());
                self.log_line(&v, true);
            },
            ProcessingEvent::FinalSummary { files_count, output_dir, total_duration_ms } => {
                let mut a: Vec<char> = Vec::new();
                append_str(&mut a, "📊 Final Summary:");
                self.log_line(&a, false);
                let mut b: Vec<char> = Vec::new();
                append_str(&mut b, "   Files extracted: ");
                push_decimal(&mut b, files_count as u64);
                self.log_line(&b, false);
                let mut c: Vec<char> = Vec::new();
                append_str(&mut c, "   Output directory: ");
                append_str(&mut c, output_dir.as_str());
                self.log_line(&c, false);
                let mut d: Vec<char> = Vec::new();
                append_str(&mut d, "   Total duration: ");
                push_decimal(&mut d, total_duration_ms);
                append_str(&mut d, "ms");
                self.log_line(&d, false);
                let mut e: Vec<char> = Vec::new();
                append_str(&mut e, "Press 'q' to quit");
                self.log_line(&e, false);
            },
            ProcessingEvent::ModeTransition { from, to, reason } => {
                let mut v: Vec<char> = Vec::new();
                append_str(&mut v, "🔄 Mode transition: ");
                append_str(&mut v, from.as_str());
                append_str(&mut v, " → ");
                append_str(&mut v, to.as_str());
                append_str(&mut v, " (");
                append_str(&mut v, reason.as_str());
                append_str(&mut v, ")");
                self.log_line(&v, true);
            },
            ProcessingEvent::FrameProgress { chunk_id, frames_processed, total_frames, qr_codes_found } => self.on_frame_progress(
                chunk_id,
                frames_processed,
                total_frames,
                qr_codes_found,
            ),
        }
    }
}

} // verus!
