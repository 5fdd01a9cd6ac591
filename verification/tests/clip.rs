use vortex_engine::clip::VideoClip;
use vortex_engine::track::VideoTrack;

#[test]
fn it_works() {
    assert_eq!(2 + 2, 4);
}

#[test]
fn test_video_clip_creation() {
    let clip = VideoClip::new(1, "test.mp4".to_string(), 0, 5000);
    assert_eq!(clip.id, 1);
    assert_eq!(clip.start_time_ms, 0);
    assert_eq!(clip.duration_ms, 5000);
    assert_eq!(clip.end_time_ms(), 5000);
}

#[test]
fn test_clip_contains_time() {
    let clip = VideoClip::new(1, "test.mp4".to_string(), 1000, 5000);

    assert!(!clip.contains_time(500));
    assert!(clip.contains_time(1000));
    assert!(clip.contains_time(3000));
    assert!(clip.contains_time(5999));
    assert!(!clip.contains_time(6000));
}

#[test]
fn test_timeline_to_source_time() {
    let mut clip = VideoClip::new(1, "test.mp4".to_string(), 2000, 3000);
    clip.trim_start_ms = 1000;
    clip.trim_end_ms = 4000;

    assert_eq!(clip.timeline_to_source_time(2000), Some(1000));
    assert_eq!(clip.timeline_to_source_time(3000), Some(2000));
    assert_eq!(clip.timeline_to_source_time(1000), None);
    assert_eq!(clip.timeline_to_source_time(6000), None);
}

#[test]
fn test_video_track_add_clip() {
    let mut track = VideoTrack::new(1, 0);

    let clip1 = VideoClip::new(1, "test1.mp4".to_string(), 0, 5000);
    let clip2 = VideoClip::new(2, "test2.mp4".to_string(), 5000, 3000);

    track.add_clip(clip1);
    track.add_clip(clip2);

    assert_eq!(track.clips.len(), 2);
    assert_eq!(track.clips[0].id, 1);
    assert_eq!(track.clips[1].id, 2);
}

#[test]
fn test_video_track_remove_clip() {
    let mut track = VideoTrack::new(1, 0);
    let clip = VideoClip::new(1, "test.mp4".to_string(), 0, 5000);
    track.add_clip(clip);

    assert_eq!(track.clips.len(), 1);

    let removed = track.remove_clip(1);
    assert!(removed.is_some());
    assert_eq!(track.clips.len(), 0);

    let not_found = track.remove_clip(999);
    assert!(not_found.is_none());
}

#[test]
fn test_video_track_get_clip_at_time() {
    let mut track = VideoTrack::new(1, 0);

    let clip1 = VideoClip::new(1, "test1.mp4".to_string(), 0, 5000);
    let clip2 = VideoClip::new(2, "test2.mp4".to_string(), 5000, 3000);

    track.add_clip(clip1);
    track.add_clip(clip2);

    let clip_at_2000 = track.get_clip_at_time(2000);
    assert!(clip_at_2000.is_some());
    assert_eq!(clip_at_2000.unwrap().id, 1);

    let clip_at_6000 = track.get_clip_at_time(6000);
    assert!(clip_at_6000.is_some());
    assert_eq!(clip_at_6000.unwrap().id, 2);

    let clip_at_9000 = track.get_clip_at_time(9000);
    assert!(clip_at_9000.is_none());
}

#[test]
fn test_track_disabled() {
    let mut track = VideoTrack::new(1, 0);
    let clip = VideoClip::new(1, "test.mp4".to_string(), 0, 5000);
    track.add_clip(clip);

    track.enabled = false;

    let result = track.get_clip_at_time(2000);
    assert!(result.is_none());
}

#[test]
fn test_get_clip_by_id() {
    let mut track = VideoTrack::new(1, 0);
    track.add_clip(VideoClip::new(7, "a.mp4".to_string(), 0, 1000));
    track.add_clip(VideoClip::new(8, "b.mp4".to_string(), 1000, 1000));

    assert_eq!(track.get_clip_by_id(8).unwrap().start_time_ms, 1000);
    assert!(track.get_clip_by_id(9).is_none());

    let clip = track.get_clip_by_id_mut(7).unwrap();
    clip.trim_start_ms = 250;
    assert_eq!(track.get_clip_by_id(7).unwrap().trim_start_ms, 250);
}
