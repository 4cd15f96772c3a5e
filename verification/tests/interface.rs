use std::cell::RefCell;
use std::rc::Rc;

use qr_video_extractor::error_handler::ffmpeg_error_context;
use qr_video_extractor::error_handler::io_error_context;
use qr_video_extractor::error_handler::memory_error_context;
use qr_video_extractor::error_handler::qr_processing_error_context;
use qr_video_extractor::error_handler::resource_exhaustion_context;
use qr_video_extractor::error_handler::thread_error_context;
use qr_video_extractor::error_handler::timeout_report;
use qr_video_extractor::error_handler::ConsoleOutputCapture;
use qr_video_extractor::events::ConsoleOutputHandler;
use qr_video_extractor::events::EventBus;
use qr_video_extractor::events::OutputHandler;
use qr_video_extractor::events::ProcessingEvent;
use qr_video_extractor::settings::chunk_count_or_default;
use qr_video_extractor::settings::default_chunk_count;
use qr_video_extractor::settings::thread_count_or_default;
use qr_video_extractor::tui::ChunkStatus;
use qr_video_extractor::tui::PhaseStatus;
use qr_video_extractor::tui::TuiMessage;
use qr_video_extractor::tui::TuiState;

struct Recorder {
    seen: Rc<RefCell<Vec<String>>>,
    tag: &'static str,
}

impl OutputHandler for Recorder {
    fn handle_event(&self, event: &ProcessingEvent) {
        let text = match event {
            ProcessingEvent::PhaseStarted { description, .. } => description.clone(),
            _ => "other".to_string(),
        };
        self.seen.borrow_mut().push(format!("{}:{}", self.tag, text));
    }
}

#[test]
fn bus_hands_each_event_to_every_handler() {
    let seen = Rc::new(RefCell::new(Vec::new()));
    let mut bus = EventBus::new();
    bus.subscribe(Recorder { seen: seen.clone(), tag: "a" });
    bus.subscribe(Recorder { seen: seen.clone(), tag: "b" });
    bus.emit(ProcessingEvent::PhaseStarted { phase: 1, description: "go".to_string() });
    bus.emit(ProcessingEvent::PhaseCompleted { phase: 1, duration_ms: 3 });
    assert_eq!(*seen.borrow(), vec![
        "a:go".to_string(),
        "b:go".to_string(),
        "a:other".to_string(),
        "b:other".to_string(),
    ]);
}

#[test]
fn console_lines_of_events() {
    let h = ConsoleOutputHandler;
    let out = h.render(&ProcessingEvent::Progress { phase: 2, current: 3, total: 8, message: "working".to_string() }).unwrap();
    assert!(!out.to_stderr);
    assert_eq!(out.lines, vec!["Phase 2 [3/8]: working".to_string()]);
    let out = h.render(&ProcessingEvent::Error { phase: 1, error: "bad".to_string() }).unwrap();
    assert!(out.to_stderr);
    assert_eq!(out.lines, vec!["Phase 1 error: bad".to_string()]);
    let out = h.render(&ProcessingEvent::ChunkStarted { chunk_id: 0, chunk_name: "chunk_001.mp4".to_string() }).unwrap();
    assert_eq!(out.lines, vec!["▶️  Started chunk 1: chunk_001.mp4".to_string()]);
    let out = h.render(&ProcessingEvent::ChunkCompleted { chunk_id: 4, qr_codes_found: 12, jsonl_file: "c.jsonl".to_string(), duration_ms: 99 }).unwrap();
    assert_eq!(out.lines, vec!["✅ Chunk 5 completed: 12 QR codes → c.jsonl (99ms)".to_string()]);
    let out = h.render(&ProcessingEvent::FinalSummary { files_count: 2, output_dir: "out".to_string(), total_duration_ms: 7 }).unwrap();
    assert_eq!(out.lines, vec![
        "\nProcessing completed successfully!".to_string(),
        "Files extracted: 2".to_string(),
        "Output directory: out".to_string(),
        "Total duration: 7ms".to_string(),
    ]);
    let out = h.render(&ProcessingEvent::ModeTransition { from: "TUI".to_string(), to: "text".to_string(), reason: "r".to_string() }).unwrap();
    assert!(out.to_stderr);
    assert_eq!(out.lines, vec!["r (r), switching from TUI to text mode...".to_string()]);
    let out = h.render(&ProcessingEvent::FileReconstructed { file_name: "f".to_string(), file_size: 10, checksum_valid: false, output_path: "o/f".to_string() }).unwrap();
    assert_eq!(out.lines, vec!["⚠️ File reconstructed: f (10 bytes) → o/f".to_string()]);
    assert!(h.render(&ProcessingEvent::FrameProgress { chunk_id: 0, frames_processed: 1, total_frames: 2, qr_codes_found: 0 }).is_none());
}

#[test]
fn new_tui_state_waits_in_three_phases() {
    let s = TuiState::new();
    assert_eq!(s.phases.len(), 3);
    assert_eq!(s.phases[0].name, "Video Analysis & Intelligent Splitting");
    assert_eq!(s.phases[2].message, "Waiting to start...");
    assert_eq!(s.phases[1].status, PhaseStatus::Pending);
    assert!(s.messages.is_empty());
    assert!(s.start_time.is_none());
}

fn text(m: &TuiMessage) -> String {
    match m {
        TuiMessage::Text(t) => t.clone(),
        TuiMessage::FrameReport { .. } => "frame report".to_string(),
    }
}

#[test]
fn phase_events_update_phases() {
    let mut s = TuiState::new();
    s.handle_event(ProcessingEvent::PhaseStarted { phase: 1, description: "Split".to_string() });
    assert_eq!(s.phases[0].status, PhaseStatus::InProgress);
    assert_eq!(s.phases[0].message, "Starting...");
    assert!(s.start_time.is_some());
    s.handle_event(ProcessingEvent::Progress { phase: 1, current: 2, total: 4, message: "Video analyzed: 1,234 frames".to_string() });
    assert_eq!(s.phases[0].progress_done, 2);
    assert_eq!(s.phases[0].progress_total, 4);
    assert_eq!(s.total_frames, 1234);
    s.handle_event(ProcessingEvent::PhaseCompleted { phase: 1, duration_ms: 50 });
    assert_eq!(s.phases[0].status, PhaseStatus::Completed);
    assert_eq!(s.phases[0].message, "Completed in 50ms");
    assert_eq!(s.phases[0].duration_ms, Some(50));
    s.handle_event(ProcessingEvent::Error { phase: 9, error: "x".to_string() });
    assert_eq!(s.phases[2].status, PhaseStatus::Pending);
    let log: Vec<String> = s.messages.iter().map(text).collect();
    assert_eq!(log, vec![
        "Started: Split".to_string(),
        "Progress [1]: Video analyzed: 1,234 frames".to_string(),
        "Completed: Phase 1 (50ms)".to_string(),
        "Error in Phase 9: x".to_string(),
    ]);
}

#[test]
fn chunk_events_track_chunks() {
    let mut s = TuiState::new();
    s.handle_event(ProcessingEvent::ChunkStarted { chunk_id: 3, chunk_name: "c4".to_string() });
    s.handle_event(ProcessingEvent::ChunkProgress { chunk_id: 3, frames_processed: 100, qr_codes_found: 4, status: "ok".to_string() });
    assert_eq!(s.chunks.len(), 1);
    assert_eq!(s.chunks[0].frames_processed, 100);
    s.handle_event(ProcessingEvent::FrameProgress { chunk_id: 3, frames_processed: 500, total_frames: 900, qr_codes_found: 6 });
    assert_eq!(s.frames_processed, 500);
    assert!(matches!(s.messages.last(), Some(TuiMessage::FrameReport { frames_processed: 500, .. })));
    s.handle_event(ProcessingEvent::ChunkCompleted { chunk_id: 3, qr_codes_found: 9, jsonl_file: "c.jsonl".to_string(), duration_ms: 5 });
    assert_eq!(s.chunks[0].status, ChunkStatus::Completed);
    assert_eq!(s.chunks[0].jsonl_file, Some("c.jsonl".to_string()));
    s.handle_event(ProcessingEvent::ChunkStarted { chunk_id: 3, chunk_name: "again".to_string() });
    assert_eq!(s.chunks.len(), 1);
    assert_eq!(s.chunks[0].name, "c4");
    assert_eq!(s.chunks[0].status, ChunkStatus::Processing);
    assert_eq!(text(&s.messages[1]), "Chunk 4: ok - 100 frames, 4 QR codes");
}

#[test]
fn trimmed_log_keeps_a_hundred_lines() {
    let mut s = TuiState::new();
    for i in 0..105 {
        s.handle_event(ProcessingEvent::SystemError { context: format!("c{}", i), error: "e".to_string() });
    }
    assert_eq!(s.messages.len(), 100);
    assert_eq!(text(&s.messages[0]), "🚨 System Error in c5: e");
}

#[test]
fn audit_lists_are_fixed() {
    assert_eq!(ConsoleOutputCapture::audit_console_output().len(), 3);
    assert_eq!(ConsoleOutputCapture::check_for_thread_output_leaks()[1], "FFmpeg stderr output not captured");
}

#[test]
fn error_contexts() {
    assert_eq!(ffmpeg_error_context(0, "split"), "FFmpeg Error - Chunk 1 - split");
    assert_eq!(memory_error_context(None, "alloc"), "Memory Error - alloc");
    assert_eq!(memory_error_context(Some(2), "alloc"), "Memory Error - Chunk 3 - alloc");
    assert_eq!(io_error_context("read", "/x"), "I/O Error - read - /x");
    assert_eq!(qr_processing_error_context(1, 77), "QR Processing Error - Chunk 2 - Frame 77");
    assert_eq!(thread_error_context("t"), "Thread Error - t");
    assert_eq!(timeout_report(0, 30), ("Timeout - Chunk 1".to_string(), "Processing timeout after 30 seconds".to_string()));
    assert_eq!(resource_exhaustion_context("disk"), "Resource Exhaustion - disk");
}

#[test]
fn chunk_and_thread_defaults() {
    assert_eq!(default_chunk_count(16), 8);
    assert_eq!(default_chunk_count(4), 4);
    assert_eq!(default_chunk_count(1), 4);
    assert_eq!(chunk_count_or_default(Some(3)), 3);
    assert!(chunk_count_or_default(None) >= 4);
    assert_eq!(thread_count_or_default(Some(2)), 2);
    assert!(thread_count_or_default(None) >= 1);
}
