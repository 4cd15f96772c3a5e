use qr_video_extractor::completion_detector::processing_completeness;
use qr_video_extractor::completion_detector::Completeness;
use qr_video_extractor::completion_detector::aligned_resume_frame;
use qr_video_extractor::completion_detector::analyze_jsonl_content;
use qr_video_extractor::completion_detector::frame_criteria;
use qr_video_extractor::completion_detector::ChunkResumePoint;
use qr_video_extractor::resume_controller::ResumeController;
use qr_video_extractor::resume_controller::ResumePoint;
use qr_video_extractor::resume_state::numbered_chunk_file;
use qr_video_extractor::resume_state::ChunkProcessingStatus;
use qr_video_extractor::resume_state::ResumeState;
use qr_video_extractor::events::ProcessingEvent;

fn state(chunks: usize) -> ResumeState {
    ResumeState::new("video.mp4", "out", chunks, 4, 0)
}

#[test]
fn new_state_is_fresh() {
    let s = state(3);
    assert_eq!(s.version, "0.1.0");
    assert_eq!(s.input_file, "video.mp4");
    assert_eq!(s.output_dir, "out");
    assert_eq!(s.chunk_count, 3);
    assert_eq!(s.phase_completed, 0);
    assert!(s.chunks.is_empty());
    assert!(s.start_time.is_some());
}

#[test]
fn progress_creates_then_updates_a_chunk() {
    let mut s = state(3);
    s.update_chunk_progress(1, 40, 7, ChunkProcessingStatus::Processing);
    let c = &s.chunks[&1];
    assert_eq!(c.chunk_id, 1);
    assert_eq!(c.video_file, "chunk_002.mp4");
    assert_eq!(c.jsonl_file, "chunk_002.jsonl");
    assert_eq!(c.last_frame_processed, 40);
    assert_eq!(c.qr_codes_found, 7);
    assert_eq!(s.can_resume_chunk(1), (true, 40));
    s.update_chunk_progress(1, 90, 12, ChunkProcessingStatus::Completed);
    assert_eq!(s.chunks[&1].qr_codes_found, 12);
    assert_eq!(s.can_resume_chunk(1), (false, 0));
    assert_eq!(s.can_resume_chunk(2), (true, 0));
}

#[test]
fn errors_mark_a_chunk_failed() {
    let mut s = state(2);
    s.mark_chunk_error(0, "ignored".to_string());
    assert!(s.chunks.is_empty());
    s.update_chunk_progress(0, 5, 1, ChunkProcessingStatus::Processing);
    s.mark_chunk_error(0, "boom".to_string());
    s.mark_chunk_error(0, "again".to_string());
    let c = &s.chunks[&0];
    assert_eq!(c.error_count, 2);
    assert_eq!(c.last_error, Some("again".to_string()));
    assert_eq!(c.status, ChunkProcessingStatus::Failed);
    assert_eq!(s.can_resume_chunk(0), (true, 0));
}

#[test]
fn summary_counts_chunks_by_status() {
    let mut s = state(3);
    s.update_chunk_progress(0, 5, 10, ChunkProcessingStatus::Completed);
    s.update_chunk_progress(1, 5, 3, ChunkProcessingStatus::Processing);
    assert_eq!(s.get_progress_summary(), "Chunks: 1/3 completed, 1 processing, 0 failed | QR codes: 13");
}

#[test]
fn resume_phase_follows_what_exists() {
    let mut s = state(2);
    assert_eq!(s.can_resume_from_phase(&vec![true, true]), 2);
    assert_eq!(s.can_resume_from_phase(&vec![true]), 1);
    assert!(!s.all_chunks_completed());
    s.update_chunk_progress(0, 1, 1, ChunkProcessingStatus::Completed);
    s.update_chunk_progress(1, 1, 1, ChunkProcessingStatus::Completed);
    assert!(s.all_chunks_completed());
    assert_eq!(s.can_resume_from_phase(&vec![]), 3);
    assert!(s.video_chunks_exist(&vec![true, true, false]));
}

#[test]
fn incomplete_chunks_are_listed_in_order() {
    let mut s = state(4);
    s.update_chunk_progress(0, 1, 1, ChunkProcessingStatus::Completed);
    s.update_chunk_progress(1, 1, 1, ChunkProcessingStatus::Processing);
    let lines = vec![None, None, Some(150), Some(20)];
    assert_eq!(s.get_incomplete_chunks(&lines), vec![1, 3]);
}

#[test]
fn interruption_marks_processing_chunks() {
    let mut s = state(3);
    s.update_chunk_progress(0, 30, 2, ChunkProcessingStatus::Processing);
    s.update_chunk_progress(1, 30, 2, ChunkProcessingStatus::Completed);
    s.interrupt_processing();
    assert_eq!(s.chunks[&0].status, ChunkProcessingStatus::Interrupted);
    assert_eq!(s.chunks[&1].status, ChunkProcessingStatus::Completed);
    assert_eq!(s.can_resume_chunk(0), (true, 30));
    assert_eq!(s.status_count(ChunkProcessingStatus::Interrupted), 1);
}

#[test]
fn loaded_state_of_another_run_is_replaced() {
    let mut old = state(3);
    old.update_chunk_progress(0, 1, 1, ChunkProcessingStatus::Completed);
    let kept = ResumeState::resume_loaded(old, "video.mp4", "out", 3, 8, 1);
    assert_eq!(kept.chunks.len(), 1);
    assert_eq!(kept.thread_count, 4);
    let replaced = ResumeState::resume_loaded(kept, "other.mp4", "out2", 3, 8, 1);
    assert!(replaced.chunks.is_empty());
    assert_eq!(replaced.input_file, "other.mp4");
    assert_eq!(replaced.thread_count, 8);
}

#[test]
fn chunk_files_are_numbered_with_three_digits() {
    assert_eq!(numbered_chunk_file(7, ".mp4"), "chunk_007.mp4");
    assert_eq!(numbered_chunk_file(1234, ".jsonl"), "chunk_1234.jsonl");
}

fn lines(n: usize, max: u64) -> Vec<Option<u64>> {
    let mut v: Vec<Option<u64>> = (0..n as u64).map(Some).collect();
    if n > 0 {
        v[n - 1] = Some(max);
    }
    v
}

#[test]
fn all_long_jsonl_files_resume_phase_three() {
    let mut c = ResumeController::new("out", state(2));
    let files = vec![Some(lines(12, 20)), Some(lines(10, 9))];
    let mut events = Vec::new();
    let point = c.detect_resume_point(&files, &vec![], &mut events);
    assert!(matches!(point, ResumePoint::Phase3));
    assert_eq!(c.state.chunks[&0].qr_codes_found, 12);
    assert_eq!(c.state.chunks[&1].status, ChunkProcessingStatus::Completed);
    match &events[0] {
        ProcessingEvent::InitializationProgress { stage, message } => {
            assert_eq!(stage, "Resume Detection");
            assert_eq!(message, "All chunks complete - resuming from Phase 3");
        }
        _ => panic!("expected a note"),
    }
}

#[test]
fn existing_videos_resume_phase_two() {
    let mut c = ResumeController::new("out", state(3));
    let files = vec![Some(lines(600, 2000)), Some(lines(5, 0)), None];
    let mut events = Vec::new();
    let point = c.detect_resume_point(&files, &vec![true, true, true], &mut events);
    match point {
        ResumePoint::Phase2(infos) => {
            assert_eq!(infos.len(), 2);
            assert_eq!(infos[0].chunk_id, 1);
            assert_eq!(infos[0].last_frame_processed, 3);
            assert_eq!(infos[0].qr_codes_found, 5);
            assert!(!infos[0].needs_full_reprocess);
            assert_eq!(infos[1].chunk_id, 2);
            assert!(infos[1].needs_full_reprocess);
        }
        _ => panic!("expected phase 2"),
    }
    assert_eq!(c.state.chunks[&0].status, ChunkProcessingStatus::Completed);
    assert_eq!(c.state.chunks[&1].status, ChunkProcessingStatus::Interrupted);
    assert_eq!(c.state.chunks[&2].status, ChunkProcessingStatus::NotStarted);
    match &events[0] {
        ProcessingEvent::InitializationProgress { message, .. } => {
            assert_eq!(message, "Video chunks exist - resuming 2 incomplete chunks in Phase 2");
        }
        _ => panic!("expected a note"),
    }
}

#[test]
fn nothing_usable_starts_fresh() {
    let mut c = ResumeController::new("out", state(2));
    let mut events = Vec::new();
    let point = c.detect_resume_point(&vec![None, None], &vec![true, false], &mut events);
    assert!(matches!(point, ResumePoint::Phase1));
    match &events[0] {
        ProcessingEvent::InitializationProgress { message, .. } => assert_eq!(message, "Starting fresh from Phase 1"),
        _ => panic!("expected a note"),
    }
}

#[test]
fn completeness_needs_many_lines_and_late_frames() {
    let c = ResumeController::new("out", state(1));
    assert_eq!(c.analyze_jsonl_completeness(&lines(500, 1001)), (true, 1001, 500));
    assert_eq!(c.analyze_jsonl_completeness(&lines(499, 5000)), (false, 5000, 499));
    assert_eq!(c.analyze_jsonl_completeness(&vec![None, None]), (false, 0, 2));
    assert_eq!(c.analyze_jsonl_completeness(&vec![]), (false, 0, 0));
}

#[test]
fn controller_reports_errors_and_interruptions() {
    let mut c = ResumeController::new("out", state(2));
    c.state.update_chunk_progress(0, 3, 1, ChunkProcessingStatus::Processing);
    match c.handle_error(Some(1), "ctx", "bad") {
        ProcessingEvent::SystemError { context, error } => {
            assert_eq!(context, "ctx");
            assert_eq!(error, "bad");
        }
        _ => panic!("expected a system error"),
    }
    assert!(!c.state.chunks.contains_key(&1));
    c.handle_interruption();
    assert_eq!(c.state.chunks[&0].status, ChunkProcessingStatus::Interrupted);
    c.mark_phase_completed(2);
    assert_eq!(c.state.phase_completed, 2);
    assert_eq!(c.get_resume_summary(), "Resume Status: 0/2 completed, 0 processing, 0 failed, 1 interrupted");
}

#[test]
fn jsonl_content_counts_distinct_frames() {
    let frames = vec![Some(5), Some(3), Some(5), None, Some(9)];
    assert_eq!(analyze_jsonl_content(&frames), (3, 5, 9, 3));
    assert_eq!(analyze_jsonl_content(&vec![None]), (0, 1, 0, 0));
    assert_eq!(analyze_jsonl_content(&vec![Some(u64::MAX)]), (1, 1, u64::MAX, 0));
}

#[test]
fn resume_frame_is_aligned_to_the_sampling() {
    assert_eq!(aligned_resume_frame(10, 0), 11);
    assert_eq!(aligned_resume_frame(10, 1), 12);
    assert_eq!(aligned_resume_frame(11, 1), 12);
    assert_eq!(aligned_resume_frame(10, 4), 15);
}

#[test]
fn resume_points_of_chunks() {
    let p = ChunkResumePoint::without_jsonl(2);
    assert!(p.should_resume);
    assert_eq!(p.completion_status, "No JSONL file - start from beginning");
    let done = ChunkResumePoint::after_jsonl(1, 300, 320, 899, true, "fine", 2, "99.0");
    assert!(!done.should_resume);
    assert_eq!(done.resume_from_frame, 900);
    assert_eq!(done.completion_status, "COMPLETE: fine");
    let more = ChunkResumePoint::after_jsonl(1, 30, 32, 100, false, "", 2, "12.5");
    assert!(more.should_resume);
    assert_eq!(more.resume_from_frame, 102);
    assert_eq!(more.completion_status, "RESUME: from frame 102 (12.5% complete)");
}

#[test]
fn completion_criteria_use_integer_thresholds() {
    assert_eq!(frame_criteria(0, 2, 1000, 480, 10, 300, 1), (500, true, 470, true));
    assert_eq!(frame_criteria(1, 2, 1000, 100, 200, 250, 0), (1000, true, 0, false));
    assert_eq!(frame_criteria(0, 2, 1000, 100, 0, 299, 0), (1000, false, 100, false));
}

#[test]
fn completeness_is_judged_by_complete_chunks() {
    assert_eq!(processing_completeness(&vec![true, true, true], 3), (3, Completeness::All));
    assert_eq!(processing_completeness(&vec![true; 8], 10), (8, Completeness::Mostly));
    assert_eq!(processing_completeness(&vec![true, true, false, false, false], 5), (2, Completeness::Incomplete));
    assert_eq!(processing_completeness(&Vec::new(), 0), (0, Completeness::All));
}
