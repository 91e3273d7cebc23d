use transcode_core::ffmpeg::ConversionJob;
use transcode_core::ffmpeg::JobStatus;
use transcode_core::ffmpeg::VideoPreset;
use transcode_core::scheduler::PollAction;
use transcode_core::scheduler::make_history_entry;
use transcode_core::state::AppState;

fn preset() -> VideoPreset {
    VideoPreset {
        name: "Balanced".to_string(),
        description: "test".to_string(),
        video_codec: "libx264".to_string(),
        audio_codec: "aac".to_string(),
        bitrate: None,
        crf: Some(23),
        scale: None,
    }
}

fn processing_count(state: &AppState) -> usize {
    state
        .get_all_jobs()
        .iter()
        .filter(|j| matches!(j.status, JobStatus::Processing))
        .count()
}

fn submit(state: &mut AppState, id: &str) -> bool {
    state.submit_job(
        id.to_string(),
        format!("/in/{}.mov", id),
        format!("/out/{}.mp4", id),
        preset(),
    )
}

#[test]
fn test_only_first_submission_is_fast_tracked() {
    let mut state = AppState::new();
    assert!(submit(&mut state, "a"));
    assert!(!submit(&mut state, "b"));
    assert!(!submit(&mut state, "c"));
    let job = state.get_job("a").unwrap();
    assert!(matches!(job.status, JobStatus::Queued));
    assert_eq!(job.progress, 0);
    assert_eq!(job.status_message.as_deref(), Some("Waiting in queue..."));
}

#[test]
fn test_add_conversion_job_generates_ids() {
    let mut state = AppState::new();
    let (id_a, fast_a) = state.add_conversion_job(
        "/in/a.mov".to_string(),
        "/out/a.mp4".to_string(),
        preset(),
    );
    let (id_b, fast_b) = state.add_conversion_job(
        "/in/b.mov".to_string(),
        "/out/b.mp4".to_string(),
        preset(),
    );
    assert_eq!(id_a.len(), 36);
    assert_eq!(id_b.len(), 36);
    assert_ne!(id_a, id_b);
    assert!(fast_a);
    assert!(!fast_b);
    assert_eq!(state.get_all_jobs().len(), 2);
}

#[test]
fn test_probe_fills_duration_and_promotes() {
    let mut state = AppState::new();
    submit(&mut state, "a");
    state.finish_background_probe("a", Some(323450), Some("/cache/a.jpg".to_string()));
    let j = state.get_job("a").unwrap();
    assert!(matches!(j.status, JobStatus::Ready));
    assert_eq!(j.duration_ms, Some(323450));
    assert_eq!(j.thumbnail_path.as_deref(), Some("/cache/a.jpg"));
    assert_eq!(j.status_message.as_deref(), Some("Ready to convert"));
}

#[test]
fn test_failed_probe_still_promotes() {
    // a failed probe degrades the job but must not block conversion
    let mut state = AppState::new();
    submit(&mut state, "a");
    state.finish_priority_probe("a", None, None);
    let j = state.get_job("a").unwrap();
    assert!(matches!(j.status, JobStatus::Ready));
    assert_eq!(j.duration_ms, None);
    assert_eq!(j.thumbnail_path, None);
}

#[test]
fn test_background_probe_does_not_demote_running_job() {
    let mut state = AppState::new();
    submit(&mut state, "a");
    state.finish_priority_probe("a", None, None);
    assert!(state.begin_conversion("a"));
    // a late probe result arrives while the job already converts
    state.finish_background_probe("a", Some(1000), None);
    let j = state.get_job("a").unwrap();
    assert!(matches!(j.status, JobStatus::Processing));
    assert_eq!(j.duration_ms, Some(1000));
}

#[test]
fn test_begin_conversion_mutual_exclusion() {
    let mut state = AppState::new();
    submit(&mut state, "a");
    submit(&mut state, "b");
    state.finish_background_probe("a", None, None);
    state.finish_background_probe("b", None, None);
    assert!(state.begin_conversion("a"));
    // mutual exclusion: a second dispatch is refused while one runs
    assert!(!state.begin_conversion("b"));
    assert_eq!(processing_count(&state), 1);
    let b = state.get_job("b").unwrap();
    assert!(matches!(b.status, JobStatus::Ready));
}

#[test]
fn test_processing_never_exceeds_one_across_three_jobs() {
    let mut state = AppState::new();
    submit(&mut state, "a");
    submit(&mut state, "b");
    submit(&mut state, "c");
    assert!(processing_count(&state) <= 1);
    state.finish_background_probe("a", None, None);
    state.finish_background_probe("b", None, None);
    state.finish_background_probe("c", None, None);
    assert!(processing_count(&state) <= 1);
    state.begin_conversion("a");
    state.begin_conversion("b");
    state.begin_conversion("c");
    assert_eq!(processing_count(&state), 1);
    state.finish_conversion("a", None);
    assert_eq!(processing_count(&state), 0);
    let _ = state.poll_step();
    assert!(processing_count(&state) <= 1);
    let _ = state.poll_step();
    assert!(processing_count(&state) <= 1);
}

#[test]
fn test_try_start_processor_is_compare_and_set() {
    let mut state = AppState::new();
    assert!(state.try_start_processor());
    // a second start while one loop is active is a no-op
    assert!(!state.try_start_processor());
    // the loop releases the flag when it stops on an empty queue
    assert!(matches!(state.poll_step(), PollAction::Stop));
    assert!(state.try_start_processor());
}

#[test]
fn test_finish_conversion_records_outcome() {
    let mut state = AppState::new();
    submit(&mut state, "a");
    submit(&mut state, "b");
    state.finish_background_probe("a", None, None);
    assert!(state.begin_conversion("a"));
    state.finish_conversion("a", None);
    let a = state.get_job("a").unwrap();
    assert!(matches!(a.status, JobStatus::Completed));
    assert_eq!(a.error, None);

    state.finish_background_probe("b", None, None);
    assert!(state.begin_conversion("b"));
    state.finish_conversion("b", Some("FFmpeg conversion failed: boom".to_string()));
    let b = state.get_job("b").unwrap();
    assert!(matches!(b.status, JobStatus::Failed));
    assert_eq!(b.error.as_deref(), Some("FFmpeg conversion failed: boom"));
}

#[test]
fn test_end_to_end_first_job_fast_then_queue_order() {
    let mut state = AppState::new();

    // submit A: the first job ever is fast-tracked
    let fast_a = submit(&mut state, "a");
    assert!(fast_a);
    // its pipeline: probe, promote, convert at once, no queue check
    state.finish_priority_probe("a", Some(100_000), None);
    assert!(state.begin_conversion("a"));
    assert!(matches!(state.get_job("a").unwrap().status, JobStatus::Processing));

    // B and C arrive while A converts: background probes only
    assert!(!submit(&mut state, "b"));
    assert!(!submit(&mut state, "c"));
    assert!(state.try_start_processor());
    state.finish_background_probe("b", Some(50_000), None);
    state.finish_background_probe("c", Some(60_000), None);

    // while A is converting, the loop must idle
    assert!(matches!(state.poll_step(), PollAction::Wait));
    assert_eq!(processing_count(&state), 1);

    // A finishes; only then is B dispatched, before C
    state.finish_conversion("a", None);
    match state.poll_step() {
        PollAction::Convert(id) => assert_eq!(id, "b"),
        other => panic!("expected B dispatched, got {:?}", other),
    }
    assert_eq!(processing_count(&state), 1);
    assert!(matches!(state.get_job("c").unwrap().status, JobStatus::Ready));

    // C waits for B
    assert!(matches!(state.poll_step(), PollAction::Wait));
    state.finish_conversion("b", None);
    match state.poll_step() {
        PollAction::Convert(id) => assert_eq!(id, "c"),
        other => panic!("expected C dispatched, got {:?}", other),
    }
    state.finish_conversion("c", None);

    // nothing queued or ready: the loop stops and releases its flag
    assert!(matches!(state.poll_step(), PollAction::Stop));
    assert!(state.try_start_processor());
}

#[test]
fn test_make_history_entry_carries_job_data() {
    let job = ConversionJob {
        id: "a".to_string(),
        input_path: "/in/a.mov".to_string(),
        output_path: "/out/a.mp4".to_string(),
        preset: preset(),
        status: JobStatus::Completed,
        progress: 100,
        duration_ms: Some(323450),
        error: None,
        status_message: None,
        thumbnail_path: None,
    };
    let entry = make_history_entry(&job, 1000, 400);
    assert_eq!(entry.id.len(), 36);
    assert_eq!(entry.input_path, "/in/a.mov");
    assert_eq!(entry.output_path, "/out/a.mp4");
    assert_eq!(entry.preset_name, "Balanced");
    assert_eq!(entry.file_size_before, 1000);
    assert_eq!(entry.file_size_after, 400);
    assert_eq!(entry.duration_ms, 323450);
    assert!(!entry.completed_at.is_empty());
}
