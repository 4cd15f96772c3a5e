//! The events that the processing phases report, the handlers that receive
//! them, and the lines that the console handler shows for each.
use vstd::prelude::*;

use crate::text::append_str;
use crate::text::decimal;
use crate::text::push_decimal;
use crate::text::string_from_chars;

verus! {

/// Something that happened during processing.
#[derive(Debug, Clone)]
pub enum ProcessingEvent {
    PhaseStarted { phase: u8, description: String },
    Progress { phase: u8, current: usize, total: usize, message: String },
    PhaseCompleted { phase: u8, duration_ms: u64 },
    Error { phase: u8, error: String },
    AllCompleted { total_duration_ms: u64, files_extracted: usize },
    ChunkStarted { chunk_id: usize, chunk_name: String },
    ChunkProgress { chunk_id: usize, frames_processed: usize, qr_codes_found: usize, status: String },
    ChunkCompleted { chunk_id: usize, qr_codes_found: usize, jsonl_file: String, duration_ms: u64 },
    FileReconstructed { file_name: String, file_size: u64, checksum_valid: bool, output_path: String },
    ChecksumValidation {
        file_name: String,
        checksum_type: String,
        expected: String,
        actual: String,
        valid: bool,
    },
    SystemError { context: String, error: String },
    InitializationProgress { stage: String, message: String },
    FinalSummary { files_count: usize, output_dir: String, total_duration_ms: u64 },
    ModeTransition { from: String, to: String, reason: String },
    FrameProgress { chunk_id: usize, frames_processed: u64, total_frames: u64, qr_codes_found: usize },
}

/// A receiver of events.
pub trait OutputHandler {
    fn handle_event(&self, event: &ProcessingEvent);
}

/// Hands each event to every subscribed handler, in the order of
/// subscription.
pub struct EventBus<H: OutputHandler> {
    callbacks: Vec<H>,
}

impl<H: OutputHandler> EventBus<H> {
    /// The subscribed handlers, in order.
    pub closed spec fn handlers(&self) -> Seq<H> {
        self.callbacks@
    }

    /// A bus with no handler.
    pub fn new() -> (r: Self)
        ensures
            r.handlers() == Seq::<H>::empty(),
    {
        EventBus { callbacks: Vec::new() }
    }

    /// Adds a handler after those already subscribed.
    pub fn subscribe(&mut self, callback: H)
        ensures
            final(self).handlers() == old(self).handlers().push(callback),
    {
        self.callbacks.push(callback);
    }

    /// Hands the event to each handler in turn; the bus itself is unchanged.
    pub fn emit(&self, event: ProcessingEvent) {
        let mut i: usize = 0;
        while i < self.callbacks.len()
            invariant
                i <= self.callbacks.len(),
            decreases self.callbacks.len() - i,
        {
            self.callbacks[i].handle_event(&event);
            i += 1;
        }
    }
}

/// The event of a chunk whose number, one more than its id, can be shown.
pub open spec fn chunk_number_fits(event: ProcessingEvent) -> bool {
    match event {
        ProcessingEvent::ChunkStarted { chunk_id, .. } => chunk_id < usize::MAX,
        ProcessingEvent::ChunkProgress { chunk_id, .. } => chunk_id < usize::MAX,
        ProcessingEvent::ChunkCompleted { chunk_id, .. } => chunk_id < usize::MAX,
        ProcessingEvent::FrameProgress { chunk_id, .. } => chunk_id < usize::MAX,
        _ => true,
    }
}

/// The line `✅ Chunk N completed: Q QR codes → FILE (Tms)`.
pub open spec fn chunk_completed_text(chunk_id: usize, qr_codes_found: usize, jsonl_file: Seq<char>, duration_ms: u64) -> Seq<char> {
    "✅ Chunk "@ + decimal(chunk_id as nat + 1) + " completed: "@ + decimal(qr_codes_found as nat)
        + " QR codes → "@ + jsonl_file + " ("@ + decimal(duration_ms as nat) + "ms)"@
}

/// The line `S File reconstructed: NAME (N bytes) → PATH`, with a check
/// mark for a valid checksum and a warning sign otherwise.
pub open spec fn file_reconstructed_text(file_name: Seq<char>, file_size: u64, checksum_valid: bool, output_path: Seq<char>) -> Seq<char> {
    (if checksum_valid {
        "✅"@
    } else {
        "⚠️"@
    }) + " File reconstructed: "@ + file_name + " ("@ + decimal(file_size as nat) + " bytes) → "@ + output_path
}

/// The line `S TYPE: NAME (expected: E, actual: A)`, with a check mark
/// when valid and a cross otherwise.
pub open spec fn checksum_text(file_name: Seq<char>, checksum_type: Seq<char>, expected: Seq<char>, actual: Seq<char>, valid: bool) -> Seq<char> {
    (if valid {
        "✅"@
    } else {
        "❌"@
    }) + " "@ + checksum_type + ": "@ + file_name + " (expected: "@ + expected + ", actual: "@ + actual + ")"@
}

/// The line `🎉 All processing completed! Extracted N files in Tms`.
pub open spec fn all_completed_text(total_duration_ms: u64, files_extracted: usize) -> Seq<char> {
    "🎉 All processing completed! Extracted "@ + decimal(files_extracted as nat) + " files in "@
        + decimal(total_duration_ms as nat) + "ms"@
}

/// What the console shows for an event: whether it goes to the error
/// stream, and its lines. A frame progress report has a percentage in
/// floating point, which the caller renders; it has no entry here.
pub open spec fn console_output(event: ProcessingEvent) -> Option<(bool, Seq<Seq<char>>)> {
    match event {
        ProcessingEvent::PhaseStarted { phase, description } => Some(
            (false, seq!["Phase "@ + decimal(phase as nat) + ": "@ + description@]),
        ),
        ProcessingEvent::Progress { phase, current, total, message } => Some(
            (
                false,
                seq![
                    "Phase "@ + decimal(phase as nat) + " ["@ + decimal(current as nat) + "/"@ + decimal(
                        total as nat,
                    ) + "]: "@ + message@,
                ],
            ),
        ),
        ProcessingEvent::PhaseCompleted { phase, duration_ms } => Some(
            (false, seq!["Phase "@ + decimal(phase as nat) + " completed in "@ + decimal(duration_ms as nat) + "ms"@]),
        ),
        ProcessingEvent::Error { phase, error } => Some(
            (true, seq!["Phase "@ + decimal(phase as nat) + " error: "@ + error@]),
        ),
        ProcessingEvent::AllCompleted { total_duration_ms, files_extracted } => Some(
            (false, seq![all_completed_text(total_duration_ms, files_extracted)]),
        ),
        ProcessingEvent::ChunkStarted { chunk_id, chunk_name } => Some(
            (false, seq!["▶️  Started chunk "@ + decimal(chunk_id as nat + 1) + ": "@ + chunk_name@]),
        ),
        ProcessingEvent::ChunkProgress { chunk_id, frames_processed, qr_codes_found, status } => Some(
            (
                false,
                seq![
                    "⏳ Chunk "@ + decimal(chunk_id as nat + 1) + ": "@ + status@ + " - "@ + decimal(
                        frames_processed as nat,
                    ) + " frames, "@ + decimal(qr_codes_found as nat) + " QR codes"@,
                ],
            ),
        ),
        ProcessingEvent::ChunkCompleted { chunk_id, qr_codes_found, jsonl_file, duration_ms } => Some(
            (false, seq![chunk_completed_text(chunk_id, qr_codes_found, jsonl_file@, duration_ms)]),
        ),
        ProcessingEvent::FileReconstructed { file_name, file_size, checksum_valid, output_path } => Some(
            (false, seq![file_reconstructed_text(file_name@, file_size, checksum_valid, output_path@)]),
        ),
        ProcessingEvent::ChecksumValidation { file_name, checksum_type, expected, actual, valid } => Some(
            (false, seq![checksum_text(file_name@, checksum_type@, expected@, actual@, valid)]),
        ),
        ProcessingEvent::SystemError { context, error } => Some(
            (true, seq!["Error in "@ + context@ + ": "@ + error@]),
        ),
        ProcessingEvent::InitializationProgress { stage, message } => Some(
            (false, seq![stage@ + ": "@ + message@]),
        ),
        ProcessingEvent::FinalSummary { files_count, output_dir, total_duration_ms } => Some(
            (
                false,
                seq![
                    "\nProcessing completed successfully!"@,
                    "Files extracted: "@ + decimal(files_count as nat),
                    "Output directory: "@ + output_dir@,
                    "Total duration: "@ + decimal(total_duration_ms as nat) + "ms"@,
                ],
            ),
        ),
        ProcessingEvent::ModeTransition { from, to, reason } => Some(
            (
                true,
                seq![
                    reason@ + " ("@ + reason@ + "), switching from "@ + from@ + " to "@ + to@ + " mode..."@,
                ],
            ),
        ),
        ProcessingEvent::FrameProgress { .. } => None,
    }
}

/// The views of a sequence of strings.
pub open spec fn string_views(v: Seq<String>) -> Seq<Seq<char>> {
    v.map_values(|s: String| s@)
}

/// What the console shows for one event.
pub struct ConsoleLines {
    pub to_stderr: bool,
    pub lines: Vec<String>,
}

/// The handler that writes each event to the console.
pub struct ConsoleOutputHandler;

fn one_line(to_stderr: bool, cs: &Vec<char>) -> (r: ConsoleLines)
    ensures
        r.to_stderr == to_stderr,
        string_views(r.lines@) == seq![cs@],
{
    let mut lines: Vec<String> = Vec::new();
    lines.push(string_from_chars(cs));
    proof {
        assert(string_views(lines@) =~= seq![cs@]);
    }
    ConsoleLines { to_stderr, lines }
}

/// Appends `n + 1` in base ten.
fn push_number_after(v: &mut Vec<char>, n: usize)
    requires
        n < usize::MAX,
    ensures
        final(v)@ == old(v)@ + decimal(n as nat + 1),
{
    push_decimal(v, (n + 1) as u64);
}

/// Builds the chunk-completed line.
pub fn chunk_completed_line(chunk_id: usize, qr_codes_found: usize, jsonl_file: &String, duration_ms: u64) -> (r: Vec<char>)
    requires
        chunk_id < usize::MAX,
    ensures
        r@ == chunk_completed_text(chunk_id, qr_codes_found, jsonl_file@, duration_ms),
{
    let mut v: Vec<char> = Vec::new();
    append_str(&mut v, "✅ Chunk ");
    push_number_after(&mut v, chunk_id);
    append_str(&mut v, " completed: ");
    push_decimal(&mut v, qr_codes_found as u64);
    append_str(&mut v, " QR codes → ");
    append_str(&mut v, jsonl_file.as_str());
    append_str(&mut v, " (");
    push_decimal(&mut v, duration_ms);
    append_str(&mut v, "ms)");
    v
}

/// Builds the file-reconstructed line.
pub fn file_reconstructed_line(file_name: &String, file_size: u64, checksum_valid: bool, output_path: &String) -> (r: Vec<char>)
    ensures
        r@ == file_reconstructed_text(file_name@, file_size, checksum_valid, output_path@),
{
    let mut v: Vec<char> = Vec::new();
    if checksum_valid {
        append_str(&mut v, "✅");
    } else {
        append_str(&mut v, "⚠️");
    }
    append_str(&mut v, " File reconstructed: ");
    append_str(&mut v, file_name.as_str());
    append_str(&mut v, " (");
    push_decimal(&mut v, file_size);
    append_str(&mut v, " bytes) → ");
    append_str(&mut v, output_path.as_str());
    v
}

/// Builds the checksum line.
pub fn checksum_line(file_name: &String, checksum_type: &String, expected: &String, actual: &String, valid: bool) -> (r: Vec<char>)
    ensures
        r@ == checksum_text(file_name@, checksum_type@, expected@, actual@, valid),
{
    let mut v: Vec<char> = Vec::new();
    if valid {
        append_str(&mut v, "✅");
    } else {
        append_str(&mut v, "❌");
    }
    append_str(&mut v, " ");
    append_str(&mut v, checksum_type.as_str());
    append_str(&mut v, ": ");
    append_str(&mut v, file_name.as_str());
    append_str(&mut v, " (expected: ");
    append_str(&mut v, expected.as_str());
    append_str(&mut v, ", actual: ");
    append_str(&mut v, actual.as_str());
    append_str(&mut v, ")");
    v
}

/// Builds the all-completed line.
pub fn all_completed_line(total_duration_ms: u64, files_extracted: usize) -> (r: Vec<char>)
    ensures
        r@ == all_completed_text(total_duration_ms, files_extracted),
{
    let mut v: Vec<char> = Vec::new();
    append_str(&mut v, "🎉 All processing completed! Extracted ");
    push_decimal(&mut v, files_extracted as u64);
    append_str(&mut v, " files in ");
    push_decimal(&mut v, total_duration_ms);
    append_str(&mut v, "ms");
    v
}

impl ConsoleOutputHandler {
    /// The lines the console shows for the event, and the stream they go
    /// to; `None` for a frame progress report, whose percentage is
    /// floating point.
    pub fn render(&self, event: &ProcessingEvent) -> (r: Option<ConsoleLines>)
        requires
            chunk_number_fits(*event),
        ensures
            match (r, console_output(*event)) {
                (Some(out), Some((err, lines))) => out.to_stderr == err && string_views(out.lines@) == lines,
                (None, None) => true,
                _ => false,
            },
    {
        match event {
            ProcessingEvent::PhaseStarted { phase, description } => {
                let mut v: Vec<char> = Vec::new();
                append_str(&mut v, "Phase ");
                push_decimal(&mut v, *phase as u64);
                append_str(&mut v, ": ");
                append_str(&mut v, description.as_str());
                Some(one_line(false, &v))
            },
            ProcessingEvent::Progress { phase, current, total, message } => {
                let mut v: Vec<char> = Vec::new();
                append_str(&mut v, "Phase ");
                push_decimal(&mut v, *phase as u64);
                append_str(&mut v, " [");
                push_decimal(&mut v, *current as u64);
                append_str(&mut v, "/");
                push_decimal(&mut v, *total as u64);
                append_str(&mut v, "]: ");
                append_str(&mut v, message.as_str());
                Some(one_line(false, &v))
            },
            ProcessingEvent::PhaseCompleted { phase, duration_ms } => {
                let mut v: Vec<char> = Vec::new();
                append_str(&mut v, "Phase ");
                push_decimal(&mut v, *phase as u64);
                append_str(&mut v, " completed in ");
                push_decimal(&mut v, *duration_ms);
                append_str(&mut v, "ms");
                Some(one_line(false, &v))
            },
            ProcessingEvent::Error { phase, error } => {
                let mut v: Vec<char> = Vec::new();
                append_str(&mut v, "Phase ");
                push_decimal(&mut v, *phase as u64);
                append_str(&mut v, " error: ");
                append_str(&mut v, error.as_str());
                Some(one_line(true, &v))
            },
            ProcessingEvent::AllCompleted { total_duration_ms, files_extracted } => {
                let v = all_completed_line(*total_duration_ms, *files_extracted);
                Some(one_line(false, &v))
            },
            ProcessingEvent::ChunkStarted { chunk_id, chunk_name } => {
                let mut v: Vec<char> = Vec::new();
                append_str(&mut v, "▶️  Started chunk ");
                push_number_after(&mut v, *chunk_id);
                append_str(&mut v, ": ");
                append_str(&mut v, chunk_name.as_str());
                Some(one_line(false, &v))
            },
            ProcessingEvent::ChunkProgress { chunk_id, frames_processed, qr_codes_found, status } => {
                let mut v: Vec<char> = Vec::new();
                append_str(&mut v, "⏳ Chunk ");
                push_number_after(&mut v, *chunk_id);
                append_str(&mut v, ": ");
                append_str(&mut v, status.as_str());
                append_str(&mut v, " - ");
                push_decimal(&mut v, *frames_processed as u64);
                append_str(&mut v, " frames, ");
                push_decimal(&mut v, *qr_codes_found as u64);
                append_str(&mut v, " QR codes");
                Some(one_line(false, &v))
            },
            ProcessingEvent::ChunkCompleted { chunk_id, qr_codes_found, jsonl_file, duration_ms } => {
                let v = chunk_completed_line(*chunk_id, *qr_codes_found, jsonl_file, *duration_ms);
                Some(one_line(false, &v))
            },
            ProcessingEvent::FileReconstructed { file_name, file_size, checksum_valid, output_path } => {
                let v = file_reconstructed_line(file_name, *file_size, *checksum_valid, output_path);
                Some(one_line(false, &v))
            },
            ProcessingEvent::ChecksumValidation { file_name, checksum_type, expected, actual, valid } => {
                let v = checksum_line(file_name, checksum_type, expected, actual, *valid);
                Some(one_line(false, &v))
            },
            ProcessingEvent::SystemError { context, error } => {
                let mut v: Vec<char> = Vec::new();
                append_str(&mut v, "Error in ");
                append_str(&mut v, context.as_str());
                append_str(&mut v, ": ");
                append_str(&mut v, error.as_str());
                Some(one_line(true, &v))
            },
            ProcessingEvent::InitializationProgress { stage, message } => {
                let mut v: Vec<char> = Vec::new();
                append_str(&mut v, stage.as_str());
                append_str(&mut v, ": ");
                append_str(&mut v, message.as_str());
                Some(one_line(false, &v))
            },
            ProcessingEvent::FinalSummary { files_count, output_dir, total_duration_ms } => {
                let mut lines: Vec<String> = Vec::new();
                let mut a: Vec<char> = Vec::new();
                append_str(&mut a, "\nProcessing completed successfully!");
                lines.push(string_from_chars(&a));
                let mut b: Vec<char> = Vec::new();
                append_str(&mut b, "Files extracted: ");
                push_decimal(&mut b, *files_count as u64);
                lines.push(string_from_chars(&b));
                let mut c: Vec<char> = Vec::new();
                append_str(&mut c, "Output directory: ");
                append_str(&mut c, output_dir.as_str());
                lines.push(string_from_chars(&c));
                let mut d: Vec<char> = Vec::new();
                append_str(&mut d, "Total duration: ");
                push_decimal(&mut d, *total_duration_ms);
                append_str(&mut d, "ms");
                lines.push(string_from_chars(&d));
                proof {
                    assert(string_views(lines@) =~= seq![a@, b@, c@, d@]);
                }
                Some(ConsoleLines { to_stderr: false, lines })
            },
            ProcessingEvent::ModeTransition { from, to, reason } => {
                let mut v: Vec<char> = Vec::new();
                append_str(&mut v, reason.as_str());
                append_str(&mut v, " (");
                append_str(&mut v, reason.as_str());
                append_str(&mut v, "), switching from ");
                append_str(&mut v, from.as_str());
                append_str(&mut v, " to ");
                append_str(&mut v, to.as_str());
                append_str(&mut v, " mode...");
                Some(one_line(true, &v))
            },
            ProcessingEvent::FrameProgress { .. } => None,
        }
    }
}

/// A checksum validation is shown as one line on standard output, and the
/// line starts with a check mark exactly when the checksum matched and with
/// a cross exactly when it did not; the log of the terminal interface gets
/// the same line.
pub proof fn lemma_checksum_line_marks_result(event: ProcessingEvent)
    ensures
        match event {
            ProcessingEvent::ChecksumValidation { file_name, checksum_type, expected, actual, valid } => {
                &&& console_output(event) matches Some((to_stderr, lines)) && !to_stderr && lines.len() == 1
                    && lines[0] == checksum_text(file_name@, checksum_type@, expected@, actual@, valid)
                &&& checksum_text(file_name@, checksum_type@, expected@, actual@, valid).len() > 0
                &&& (checksum_text(file_name@, checksum_type@, expected@, actual@, valid)[0] == '✅') == valid
                &&& (checksum_text(file_name@, checksum_type@, expected@, actual@, valid)[0] == '❌') == !valid
            },
            _ => true,
        },
{
    reveal_strlit("✅");
    reveal_strlit("❌");
    reveal_strlit(" ");
}

/// A reconstructed file is shown as one line on standard output that
/// starts with a check mark exactly when its checksum was valid, and with a
/// warning sign exactly when it was not.
pub proof fn lemma_reconstructed_line_marks_checksum(event: ProcessingEvent)
    ensures
        match event {
            ProcessingEvent::FileReconstructed { file_name, file_size, checksum_valid, output_path } => {
                &&& console_output(event) matches Some((to_stderr, lines)) && !to_stderr && lines.len() == 1
                    && lines[0] == file_reconstructed_text(file_name@, file_size, checksum_valid, output_path@)
                &&& file_reconstructed_text(file_name@, file_size, checksum_valid, output_path@).len() > 0
                &&& (file_reconstructed_text(file_name@, file_size, checksum_valid, output_path@)[0] == '✅') == checksum_valid
                &&& (file_reconstructed_text(file_name@, file_size, checksum_valid, output_path@)[0] == '⚠') == !checksum_valid
            },
            _ => true,
        },
{
    reveal_strlit("✅");
    reveal_strlit("⚠️");
}

} // verus!
