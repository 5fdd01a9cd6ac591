use vortex_engine::decoder::DecodeResult;
use vortex_engine::effects::{apply_effects, EffectParams};
use vortex_engine::frame::{black_frame, Frame, PixelFormat};
use vortex_engine::renderer::{FrameStep, Renderer};
use vortex_engine::timeline::Timeline;

#[test]
fn test_renderer_create() {
    let _renderer = Renderer::new();
}

#[test]
fn test_black_frame() {
    let frame = black_frame(1000);
    assert_eq!(frame.width, 960);
    assert_eq!(frame.height, 540);
    assert_eq!(frame.data.len(), 960 * 540 * 4);
    assert!(frame.data.iter().all(|&b| b == 0));
}

#[test]
fn test_empty_timeline_renders_black() {
    // An empty timeline renders a 960x540 all-zero RGBA frame.
    let timeline = Timeline::new(1920, 1080, 30_000);
    let mut renderer = Renderer::new();
    match renderer.begin_frame(&timeline, 0) {
        FrameStep::Rendered(frame) => {
            assert_eq!(frame.width, 960);
            assert_eq!(frame.height, 540);
            assert!(!frame.is_yuv);
            assert_eq!(frame.timestamp_ms, 0);
            assert!(frame.data.iter().all(|&b| b == 0));
        }
        FrameStep::Decode(_, _) => panic!("nothing to decode on an empty timeline"),
    }
}

fn solid_frame(w: u32, h: u32, rgba: [u8; 4], timestamp_ms: i64) -> Frame {
    let mut data = Vec::new();
    for _ in 0..(w * h) {
        data.extend_from_slice(&rgba);
    }
    Frame { width: w, height: h, format: PixelFormat::RGBA, data, timestamp_ms }
}

#[test]
fn test_render_then_cache_hit() {
    // One clip over [0, 5000): the first render decodes, the second at the
    // same instant is served from the cache with a hit-count delta of one.
    let mut timeline = Timeline::new(1920, 1080, 30_000);
    let track = timeline.add_video_track();
    timeline.add_video_clip(track, "clip.mp4".to_string(), 0, 5000);

    let mut renderer = Renderer::new();
    let (clip, source_t) = match renderer.begin_frame(&timeline, 2000) {
        FrameStep::Decode(clip, source_t) => (clip, source_t),
        FrameStep::Rendered(_) => panic!("nothing cached yet"),
    };
    assert_eq!(source_t, 2000);

    let decoded = solid_frame(4, 2, [10, 20, 30, 255], 2000);
    let shown = renderer.finish_frame(&clip, source_t, 2000, DecodeResult::Frame(decoded));
    assert_eq!(shown.timestamp_ms, 2000);
    assert_eq!(shown.data[0], 10);

    let hits_before = renderer.frame_cache.hit_count;
    match renderer.begin_frame(&timeline, 2000) {
        FrameStep::Rendered(frame) => {
            assert_eq!(frame.timestamp_ms, 2000);
            assert_eq!(frame.data, shown.data);
        }
        FrameStep::Decode(_, _) => panic!("expected a cache hit"),
    }
    assert_eq!(renderer.frame_cache.hit_count, hits_before + 1);
}

#[test]
fn test_skipped_frame_reuses_last() {
    let mut timeline = Timeline::new(1920, 1080, 30_000);
    let track = timeline.add_video_track();
    timeline.add_video_clip(track, "clip.mp4".to_string(), 0, 5000);

    let mut renderer = Renderer::new();
    let (clip, source_t) = match renderer.begin_frame(&timeline, 100) {
        FrameStep::Decode(c, s) => (c, s),
        FrameStep::Rendered(_) => panic!("nothing cached yet"),
    };
    let first = renderer.finish_frame(
        &clip,
        source_t,
        100,
        DecodeResult::Frame(solid_frame(4, 2, [1, 2, 3, 255], 100)),
    );
    let again = renderer.finish_frame(&clip, 133, 133, DecodeResult::FrameSkipped);
    assert_eq!(again.data, first.data);
    assert_eq!(again.timestamp_ms, first.timestamp_ms);
}

#[test]
fn test_effects_identity_below_threshold() {
    // Parameters of magnitude below one thousandth leave pixels untouched.
    let params = EffectParams {
        brightness_milli: 0,
        contrast_milli: 0,
        saturation_milli: 0,
        temperature_milli: 0,
    };
    let mut data: Vec<u8> = vec![13, 37, 200, 128, 0, 255, 9, 77];
    let before = data.clone();
    apply_effects(&mut data, 2, 1, &params);
    assert_eq!(data, before);
}

#[test]
fn test_effects_exact_pixel() {
    let params = EffectParams {
        brightness_milli: 100,
        contrast_milli: 200,
        saturation_milli: 300,
        temperature_milli: 400,
    };
    let mut data: Vec<u8> = vec![100, 150, 200, 77];
    apply_effects(&mut data, 1, 1, &params);
    assert_eq!(data, vec![120, 186, 252, 77]);
}

#[test]
fn test_effects_alpha_untouched() {
    let params = EffectParams {
        brightness_milli: 500,
        contrast_milli: 0,
        saturation_milli: 0,
        temperature_milli: 0,
    };
    let mut data: Vec<u8> = vec![100, 150, 200, 42, 0, 0, 0, 7];
    apply_effects(&mut data, 2, 1, &params);
    assert_eq!(data[0], 227);
    assert_eq!(data[3], 42);
    assert_eq!(data[7], 7);
}

#[test]
fn test_clip_effects_invalidate_cache() {
    let mut timeline = Timeline::new(1920, 1080, 30_000);
    let track = timeline.add_video_track();
    timeline.add_video_clip(track, "clip.mp4".to_string(), 0, 5000);

    let mut renderer = Renderer::new();
    let (clip, source_t) = match renderer.begin_frame(&timeline, 0) {
        FrameStep::Decode(c, s) => (c, s),
        FrameStep::Rendered(_) => panic!("nothing cached yet"),
    };
    renderer.finish_frame(
        &clip,
        source_t,
        0,
        DecodeResult::Frame(solid_frame(4, 2, [5, 6, 7, 255], 0)),
    );
    assert_eq!(renderer.cache_stats().0, 1);

    renderer.set_clip_effects(
        clip.id,
        EffectParams {
            brightness_milli: 250,
            contrast_milli: 0,
            saturation_milli: 0,
            temperature_milli: 0,
        },
    );
    assert_eq!(renderer.cache_stats().0, 0);

    renderer.clear_clip_effects(clip.id);
    assert_eq!(renderer.cache_stats().0, 0);
}
