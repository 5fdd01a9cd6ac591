use vortex_engine::decoder::{
    frame_duration_ms, pts_accepts, Decoder, DecodeResult, DecodeStep, DecoderState, ReadOutcome,
};
use vortex_engine::frame::{Frame, PixelFormat};

fn rgba_frame(timestamp_ms: i64) -> Frame {
    Frame {
        width: 2,
        height: 2,
        format: PixelFormat::RGBA,
        data: vec![8u8; 16],
        timestamp_ms,
    }
}

#[test]
fn test_frame_duration() {
    assert_eq!(frame_duration_ms(30_000), 33);
    assert_eq!(frame_duration_ms(60_000), 16);
    assert_eq!(frame_duration_ms(1_000), 1000);
    assert_eq!(frame_duration_ms(2_000_000), 1);
}

#[test]
fn test_immediate_path_no_seek() {
    // Two requests one frame apart at 30 fps: the second takes the
    // immediate path, with no seek and no presentation-time target.
    let mut d = Decoder::new(960, 540, 30_000, 10_000);
    match d.begin_decode(0) {
        DecodeStep::Read { target } => assert!(target.is_none()),
        _ => panic!("first request from a fresh decoder reads ahead"),
    }
    d.finish_decode(0, ReadOutcome::Produced(rgba_frame(0)));

    match d.begin_decode(33) {
        DecodeStep::Read { target } => assert!(target.is_none()),
        _ => panic!("a one-frame step must not seek"),
    }
}

#[test]
fn test_forward_path_has_target() {
    let mut d = Decoder::new(960, 540, 30_000, 10_000);
    d.begin_decode(0);
    d.finish_decode(0, ReadOutcome::Produced(rgba_frame(0)));
    d.set_forward_threshold(5000);

    match d.begin_decode(500) {
        DecodeStep::Read { target } => assert_eq!(target, Some((500, 33))),
        _ => panic!("a gap within the threshold decodes forward without a seek"),
    }
}

#[test]
fn test_random_path_seeks() {
    // A jump past the forward threshold takes the random-access path: one
    // seek, then a targeted read.
    let mut d = Decoder::new(960, 540, 30_000, 60_000);
    d.set_forward_threshold(100);
    d.begin_decode(0);
    d.finish_decode(0, ReadOutcome::Produced(rgba_frame(0)));

    match d.begin_decode(10_000) {
        DecodeStep::Seek { target_ms } => assert_eq!(target_ms, 10_000),
        _ => panic!("a jump past the threshold must seek"),
    }
    match d.resume_after_seek(10_000, true) {
        DecodeStep::Read { target } => assert_eq!(target, Some((10_000, 33))),
        _ => panic!("a successful seek proceeds to a targeted read"),
    }
}

#[test]
fn test_eof_memoised_and_cleared_by_backward_request() {
    let mut d = Decoder::new(960, 540, 30_000, 5_000);
    d.begin_decode(0);
    d.finish_decode(0, ReadOutcome::Produced(rgba_frame(0)));

    // The packet source drains at 6000 ms: end of stream is memoised.
    d.begin_decode(6_000);
    d.resume_after_seek(6_000, true);
    match d.finish_decode(6_000, ReadOutcome::Drained) {
        DecodeResult::EndOfStream(f) => assert_eq!(f.timestamp_ms, 0),
        _ => panic!("draining with a retained frame ends the stream with it"),
    }
    assert_eq!(d.state(), DecoderState::EndOfStream);
    assert_eq!(d.eof_timestamp_ms, Some(6_000));

    // Any request at or past the memoised position answers immediately.
    match d.begin_decode(7_000) {
        DecodeStep::Done(DecodeResult::EndOfStream(_)) => {}
        _ => panic!("requests past the memoised end must not read packets"),
    }
    assert_eq!(d.eof_timestamp_ms, Some(6_000));

    // A backward request clears the memo and decodes again.
    match d.begin_decode(1_000) {
        DecodeStep::Done(_) => panic!("a backward request re-decodes"),
        _ => {}
    }
    assert_eq!(d.eof_timestamp_ms, None);
}

#[test]
fn test_error_state_returns_last_frame() {
    let mut d = Decoder::new(960, 540, 30_000, 5_000);
    d.begin_decode(0);
    d.finish_decode(0, ReadOutcome::Produced(rgba_frame(0)));

    // A failed seek (after its retry) parks the decoder in the error state.
    d.begin_decode(60_000);
    match d.resume_after_seek(60_000, false) {
        DecodeStep::Done(DecodeResult::FrameSkipped) => {}
        _ => panic!("a failed seek with a retained frame skips"),
    }
    assert_eq!(d.state(), DecoderState::Error);

    // In the error state the container is never touched again.
    match d.begin_decode(0) {
        DecodeStep::Done(DecodeResult::EndOfStream(f)) => assert_eq!(f.timestamp_ms, 0),
        _ => panic!("the error state answers from the retained frame"),
    }

    // A successful external seek recovers it.
    d.seek(true);
    assert_eq!(d.state(), DecoderState::Ready);
}

#[test]
fn test_cap_reached_skips() {
    let mut d = Decoder::new(960, 540, 30_000, 5_000);
    d.begin_decode(0);
    match d.finish_decode(0, ReadOutcome::CapReached) {
        DecodeResult::FrameSkipped => {}
        _ => panic!("hitting the packet cap skips the frame"),
    }
    assert_eq!(d.state(), DecoderState::Ready);
}

#[test]
fn test_pts_acceptance() {
    assert!(pts_accepts(None, Some(-5_000)));
    assert!(pts_accepts(Some((1000, 40)), Some(960)));
    assert!(!pts_accepts(Some((1000, 40)), Some(959)));
    assert!(pts_accepts(Some((1000, 40)), None));
}
