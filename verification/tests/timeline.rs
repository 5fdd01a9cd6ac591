use vortex_engine::timeline::Timeline;

#[test]
fn test_timeline_creation() {
    let timeline = Timeline::new(1920, 1080, 30_000);
    assert_eq!(timeline.width, 1920);
    assert_eq!(timeline.height, 1080);
    assert_eq!(timeline.fps_milli, 30_000);
    assert_eq!(timeline.video_tracks.len(), 0);
    assert_eq!(timeline.audio_tracks.len(), 0);
}

#[test]
fn test_add_tracks() {
    let mut timeline = Timeline::new(1920, 1080, 30_000);

    let video_track_id = timeline.add_video_track();
    let audio_track_id = timeline.add_audio_track();

    assert_eq!(timeline.video_tracks.len(), 1);
    assert_eq!(timeline.audio_tracks.len(), 1);
    assert_eq!(timeline.video_tracks[0].id, video_track_id);
    assert_eq!(timeline.audio_tracks[0].id, audio_track_id);
}

#[test]
fn test_add_video_clip() {
    let mut timeline = Timeline::new(1920, 1080, 30_000);
    let track_id = timeline.add_video_track();

    let clip_id = timeline.add_video_clip(track_id, "test.mp4".to_string(), 0, 5000);

    assert!(clip_id.is_some());
    assert_eq!(timeline.video_tracks[0].clips.len(), 1);
    assert_eq!(timeline.video_tracks[0].clips[0].id, clip_id.unwrap());
}

#[test]
fn test_add_video_clip_unknown_track() {
    let mut timeline = Timeline::new(1920, 1080, 30_000);
    let clip_id = timeline.add_video_clip(42, "test.mp4".to_string(), 0, 5000);
    assert!(clip_id.is_none());
}

#[test]
fn test_remove_video_clip() {
    let mut timeline = Timeline::new(1920, 1080, 30_000);
    let track_id = timeline.add_video_track();
    let clip_id = timeline.add_video_clip(track_id, "test.mp4".to_string(), 0, 5000).unwrap();

    assert_eq!(timeline.video_tracks[0].clips.len(), 1);

    let removed = timeline.remove_video_clip(track_id, clip_id);
    assert!(removed);
    assert_eq!(timeline.video_tracks[0].clips.len(), 0);
}

#[test]
fn test_timeline_duration() {
    let mut timeline = Timeline::new(1920, 1080, 30_000);

    let video_track = timeline.add_video_track();
    let audio_track = timeline.add_audio_track();

    timeline.add_video_clip(video_track, "v1.mp4".to_string(), 0, 5000);
    timeline.add_video_clip(video_track, "v2.mp4".to_string(), 5000, 3000);
    timeline.add_audio_clip(audio_track, "a1.mp3".to_string(), 0, 10000);

    assert_eq!(timeline.duration_ms(), 10000);
}

#[test]
fn test_get_clips_at_time() {
    let mut timeline = Timeline::new(1920, 1080, 30_000);

    let track1 = timeline.add_video_track();
    let track2 = timeline.add_video_track();

    timeline.add_video_clip(track1, "v1.mp4".to_string(), 0, 5000);
    timeline.add_video_clip(track2, "v2.mp4".to_string(), 2000, 3000);

    let clips_at_3000 = timeline.get_video_clips_at_time(3000);
    assert_eq!(clips_at_3000.len(), 2);

    let clips_at_6000 = timeline.get_video_clips_at_time(6000);
    assert_eq!(clips_at_6000.len(), 0);
}

#[test]
fn test_get_audio_clips_at_time() {
    let mut timeline = Timeline::new(1920, 1080, 30_000);
    let a1 = timeline.add_audio_track();
    let a2 = timeline.add_audio_track();

    timeline.add_audio_clip(a1, "a1.mp3".to_string(), 0, 4000);
    timeline.add_audio_clip(a2, "a2.mp3".to_string(), 1000, 4000);

    assert_eq!(timeline.get_audio_clips_at_time(2000).len(), 2);
    assert_eq!(timeline.get_audio_clips_at_time(4500).len(), 1);
    assert_eq!(timeline.get_audio_clips_at_time(9000).len(), 0);

    timeline.audio_tracks[1].muted = true;
    assert_eq!(timeline.get_audio_clips_at_time(2000).len(), 1);
}
