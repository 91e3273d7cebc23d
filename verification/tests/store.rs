use transcode_core::ffmpeg::ConversionJob;
use transcode_core::ffmpeg::JobStatus;
use transcode_core::ffmpeg::VideoPreset;
use transcode_core::state::AppState;
use transcode_core::state::ConversionHistory;

fn preset() -> VideoPreset {
    VideoPreset {
        name: "High".to_string(),
        description: "test".to_string(),
        video_codec: "libx264".to_string(),
        audio_codec: "aac".to_string(),
        bitrate: None,
        crf: Some(18),
        scale: None,
    }
}

fn job(id: &str, status: JobStatus) -> ConversionJob {
    ConversionJob {
        id: id.to_string(),
        input_path: format!("/in/{}.mov", id),
        output_path: format!("/out/{}.mp4", id),
        preset: preset(),
        status,
        progress: 0,
        duration_ms: None,
        error: None,
        status_message: None,
        thumbnail_path: None,
    }
}

fn history_entry(id: &str) -> ConversionHistory {
    ConversionHistory {
        id: id.to_string(),
        input_path: "/in/a.mov".to_string(),
        output_path: "/out/a.mp4".to_string(),
        preset_name: "High".to_string(),
        completed_at: "2024-01-01T00:00:00+00:00".to_string(),
        file_size_before: 100,
        file_size_after: 50,
        duration_ms: 1000,
    }
}

#[test]
fn test_add_job_same_id_twice_keeps_one_queue_entry() {
    let mut state = AppState::new();
    let mut first = job("a", JobStatus::Queued);
    first.progress = 0;
    state.add_job(first);
    let mut second = job("a", JobStatus::Ready);
    second.progress = 7;
    second.status_message = Some("second".to_string());
    state.add_job(second);

    let all = state.get_all_jobs();
    assert_eq!(all.len(), 1);
    // the second submission's field values won
    assert_eq!(all[0].progress, 7);
    assert!(matches!(all[0].status, JobStatus::Ready));
    assert_eq!(all[0].status_message.as_deref(), Some("second"));
}

#[test]
fn test_add_job_keeps_submission_order() {
    let mut state = AppState::new();
    state.add_job(job("a", JobStatus::Queued));
    state.add_job(job("b", JobStatus::Queued));
    state.add_job(job("c", JobStatus::Queued));
    // re-submitting `a` must not move it to the back
    state.add_job(job("a", JobStatus::Ready));
    let all = state.get_all_jobs();
    let ids: Vec<&str> = all.iter().map(|j| j.id.as_str()).collect();
    assert_eq!(ids, vec!["a", "b", "c"]);
}

#[test]
fn test_update_job_absent_id_is_noop() {
    let mut state = AppState::new();
    state.add_job(job("a", JobStatus::Queued));
    let found = state.update_job(job("ghostly", JobStatus::Ready));
    assert!(!found);
    assert_eq!(state.get_all_jobs().len(), 1);
    assert!(state.get_job("ghostly").is_none());
}

#[test]
fn test_partial_mutators_touch_one_field() {
    let mut state = AppState::new();
    state.add_job(job("a", JobStatus::Queued));
    state.update_job_status("a", JobStatus::Ready);
    let j = state.get_job("a").unwrap();
    assert!(matches!(j.status, JobStatus::Ready));
    assert_eq!(j.progress, 0);

    state.update_job_progress("a", 42);
    let j = state.get_job("a").unwrap();
    assert_eq!(j.progress, 42);
    assert!(matches!(j.status, JobStatus::Ready));

    state.update_job_status_message("a", "converting".to_string());
    let j = state.get_job("a").unwrap();
    assert_eq!(j.status_message.as_deref(), Some("converting"));
    assert_eq!(j.progress, 42);

    // absent ids: no-ops that a follow-up lookup reveals
    state.update_job_status("nope", JobStatus::Failed);
    state.update_job_progress("nope", 1);
    state.update_job_status_message("nope", "x".to_string());
    assert!(state.get_job("nope").is_none());
    assert_eq!(state.get_all_jobs().len(), 1);
}

#[test]
fn test_next_queued_and_ready_in_submission_order() {
    let mut state = AppState::new();
    state.add_job(job("a", JobStatus::Processing));
    state.add_job(job("b", JobStatus::Ready));
    state.add_job(job("c", JobStatus::Queued));
    state.add_job(job("d", JobStatus::Ready));
    assert_eq!(state.get_next_queued_job().as_deref(), Some("b"));
    assert_eq!(state.get_next_ready_job().as_deref(), Some("b"));
    assert!(state.is_any_job_processing());

    let mut state2 = AppState::new();
    state2.add_job(job("x", JobStatus::Completed));
    assert_eq!(state2.get_next_queued_job(), None);
    assert_eq!(state2.get_next_ready_job(), None);
    assert!(!state2.is_any_job_processing());
}

#[test]
fn test_clear_completed_jobs_removes_terminal_only() {
    let mut state = AppState::new();
    state.add_job(job("done", JobStatus::Completed));
    state.add_job(job("bad", JobStatus::Failed));
    state.add_job(job("live", JobStatus::Ready));
    state.clear_completed_jobs();

    let all = state.get_all_jobs();
    assert_eq!(all.len(), 1);
    assert_eq!(all[0].id, "live");
    // gone from listing and from dispatch consideration alike
    assert!(state.get_job("done").is_none());
    assert!(state.get_job("bad").is_none());
    assert_eq!(state.get_next_ready_job().as_deref(), Some("live"));
}

#[test]
fn test_clear_then_resubmit_new_id_unaffected() {
    let mut state = AppState::new();
    state.add_job(job("old", JobStatus::Completed));
    state.clear_completed_jobs();
    assert_eq!(state.get_all_jobs().len(), 0);

    state.add_job(job("fresh", JobStatus::Queued));
    let all = state.get_all_jobs();
    assert_eq!(all.len(), 1);
    assert_eq!(all[0].id, "fresh");
    assert_eq!(state.get_next_queued_job().as_deref(), Some("fresh"));
}

#[test]
fn test_history_cap_evicts_oldest() {
    let mut state = AppState::new();
    let mut k: usize = 0;
    while k < 105 {
        state.add_to_history(history_entry(&format!("h{}", k)));
        assert!(state.get_history().len() <= 100);
        k += 1;
    }
    let hist = state.get_history();
    assert_eq!(hist.len(), 100);
    assert_eq!(hist[0].id, "h5");
    assert_eq!(hist[99].id, "h104");

    state.clear_history();
    assert_eq!(state.get_history().len(), 0);
}

#[test]
fn test_settings_default_and_update() {
    let mut state = AppState::new();
    let s = state.get_settings();
    assert_eq!(s.output_directory, "");
    assert!(s.use_subdirectory);
    assert_eq!(s.subdirectory_name, "converted");
    assert_eq!(s.file_name_pattern, "{name}_converted");
    assert!(!s.zoomed_thumbnails);

    let mut new_settings = s;
    new_settings.output_directory = "/tmp/out".to_string();
    new_settings.zoomed_thumbnails = true;
    state.update_settings(new_settings);
    let s2 = state.get_settings();
    assert_eq!(s2.output_directory, "/tmp/out");
    assert!(s2.zoomed_thumbnails);
}
