use vortex_engine::export::{
    frame_timestamp_ms, progress_pct, safe_encoder_path, total_frames, ExportJob, ExportStep,
};

#[test]
fn test_frame_schedule_values() {
    assert_eq!(frame_timestamp_ms(0, 30_000), 0);
    assert_eq!(frame_timestamp_ms(1, 30_000), 33);
    assert_eq!(frame_timestamp_ms(30, 30_000), 1000);
    assert_eq!(total_frames(1000, 30_000), 30);
    assert_eq!(total_frames(1001, 30_000), 31);
    assert_eq!(progress_pct(0, 30), 3);
    assert_eq!(progress_pct(29, 30), 99);
}

#[test]
fn test_export_completes_with_full_progress() {
    // A 1000 ms timeline at 30 fps runs 30 frames, then finishes with
    // progress 100 and no error.
    let mut job = ExportJob::new(1000, 30_000);
    let mut frames = 0;
    loop {
        match job.next_step() {
            ExportStep::Render { timestamp_ms } => {
                assert!(timestamp_ms < 1000);
                job.frame_done();
                frames += 1;
                assert!(frames <= 30);
            }
            ExportStep::Finish => break,
            ExportStep::Cancelled => panic!("nothing requested cancellation"),
        }
    }
    assert_eq!(frames, 30);
    assert!(job.get_progress() <= 99);
    job.complete();
    assert_eq!(job.get_progress(), 100);
    assert!(job.is_finished());
    assert!(job.get_error().is_none());
}

#[test]
fn test_export_cancelled_mid_run() {
    let mut job = ExportJob::new(1000, 30_000);
    for _ in 0..10 {
        match job.next_step() {
            ExportStep::Render { .. } => job.frame_done(),
            _ => panic!("the first ten frames render"),
        }
    }
    job.cancel();
    match job.next_step() {
        ExportStep::Cancelled => {}
        _ => panic!("cancellation is observed at the frame boundary"),
    }
    assert!(job.is_finished());
    assert!(job.get_error().is_some());
}

#[test]
fn test_export_empty_timeline_fails() {
    let job = ExportJob::new(0, 30_000);
    assert!(job.is_finished());
    assert!(job.get_error().is_some());
    assert_eq!(job.get_progress(), 0);
}

#[test]
fn test_export_encoder_failure_recorded() {
    let mut job = ExportJob::new(1000, 30_000);
    job.fail("encoder rejected the frame".to_string());
    assert!(job.is_finished());
    assert_eq!(job.get_error().unwrap(), "encoder rejected the frame");
}

#[test]
fn test_safe_path_ascii_unchanged() {
    let (path, needs_move) = safe_encoder_path("C:\\video\\out.mp4", "C:\\Temp", "\\", 77);
    assert_eq!(path, "C:\\video\\out.mp4");
    assert!(!needs_move);
}

#[test]
fn test_safe_path_non_ascii_goes_to_temp() {
    // A non-ASCII destination is written under the temporary directory
    // first and moved afterwards.
    let (path, needs_move) = safe_encoder_path("C:\\비디오\\out.mp4", "C:\\Temp", "\\", 4242);
    assert_eq!(path, "C:\\Temp\\vortex_export_4242.mp4");
    assert!(needs_move);
}

#[test]
fn test_safe_path_non_ascii_temp_falls_back_to_drive_root() {
    let (path, needs_move) = safe_encoder_path("D:\\비디오\\clip.mkv", "C:\\임시", "\\", 7);
    assert_eq!(path, "D:\\vortex_export_7.mkv");
    assert!(needs_move);
}

#[test]
fn test_safe_path_defaults_extension() {
    let (path, needs_move) = safe_encoder_path("/tmp/비디오/out", "/tmp", "/", 9);
    assert_eq!(path, "/tmp/vortex_export_9.mp4");
    assert!(needs_move);
}
