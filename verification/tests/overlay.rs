use vortex_engine::convert::{rgba_to_yuv420p, yuv420p_to_rgba};
use vortex_engine::overlay::{blend_overlay_rgba, SubtitleOverlay, SubtitleOverlayList};

fn overlay_with(x: i32, y: i32, w: u32, h: u32, rgba: [u8; 4]) -> SubtitleOverlay {
    let mut data = Vec::new();
    for _ in 0..(w * h) {
        data.extend_from_slice(&rgba);
    }
    SubtitleOverlay { start_ms: 0, end_ms: 1000, x, y, width: w, height: h, rgba_data: data }
}

#[test]
fn test_overlay_list_get_active() {
    let mut list = SubtitleOverlayList::new();
    list.overlays.push(overlay_with(0, 0, 2, 2, [1, 1, 1, 255]));
    list.overlays[0].start_ms = 100;
    list.overlays[0].end_ms = 200;

    assert!(list.get_active(99).is_none());
    assert!(list.get_active(100).is_some());
    assert!(list.get_active(199).is_some());
    assert!(list.get_active(200).is_none());
}

#[test]
fn test_blend_alpha_zero_is_noop() {
    let mut frame: Vec<u8> = vec![10, 20, 30, 255, 40, 50, 60, 255];
    let before = frame.clone();
    let overlay = overlay_with(0, 0, 2, 1, [200, 200, 200, 0]);
    blend_overlay_rgba(&mut frame, 2, 1, &overlay);
    assert_eq!(frame, before);
}

#[test]
fn test_blend_alpha_full_copies() {
    let mut frame: Vec<u8> = vec![10, 20, 30, 255, 40, 50, 60, 255];
    let overlay = overlay_with(0, 0, 1, 1, [200, 100, 50, 255]);
    blend_overlay_rgba(&mut frame, 2, 1, &overlay);
    assert_eq!(&frame[0..4], &[200, 100, 50, 255]);
    assert_eq!(&frame[4..8], &[40, 50, 60, 255]);
}

#[test]
fn test_blend_alpha_half_averages() {
    let mut frame: Vec<u8> = vec![10, 20, 30, 255];
    let overlay = overlay_with(0, 0, 1, 1, [200, 100, 50, 128]);
    blend_overlay_rgba(&mut frame, 1, 1, &overlay);
    // out = (src*128 + dst*127) / 255, within one step of the average.
    for (c, (&s, &d)) in [200u8, 100, 50].iter().zip([10u8, 20, 30].iter()).enumerate() {
        let avg = (s as i32 + d as i32) / 2;
        let got = frame[c] as i32;
        assert!((got - avg).abs() <= 1, "channel {c}: {got} vs {avg}");
    }
    assert_eq!(frame[3], 255);
}

#[test]
fn test_blend_clips_outside_frame() {
    let mut frame: Vec<u8> = vec![10, 20, 30, 255, 40, 50, 60, 255];
    let before = frame.clone();
    // Entirely above and left of the frame: nothing changes.
    let overlay = overlay_with(-4, -4, 2, 2, [200, 200, 200, 255]);
    blend_overlay_rgba(&mut frame, 2, 1, &overlay);
    assert_eq!(frame, before);
}

#[test]
fn test_rgba_yuv_exact_values() {
    // A 2x2 block of (100, 110, 120) encodes to Y=109, U=134, V=123.
    let mut rgba = Vec::new();
    for _ in 0..4 {
        rgba.extend_from_slice(&[100u8, 110, 120, 255]);
    }
    let yuv = rgba_to_yuv420p(&rgba, 2, 2);
    assert_eq!(yuv.len(), 2 * 2 + 2);
    assert_eq!(&yuv[0..4], &[109, 109, 109, 109]);
    assert_eq!(yuv[4], 134);
    assert_eq!(yuv[5], 123);
}

#[test]
fn test_yuv_rgba_round_trip_small_deviation() {
    // Encoding and decoding a constant-colour 2x2 block stays within three
    // steps per channel.
    let colour = [100u8, 110, 120];
    let mut rgba = Vec::new();
    for _ in 0..4 {
        rgba.extend_from_slice(&[colour[0], colour[1], colour[2], 255]);
    }
    let yuv = rgba_to_yuv420p(&rgba, 2, 2);
    let back = yuv420p_to_rgba(&yuv, 2, 2);
    assert_eq!(back.len(), 16);
    for p in 0..4 {
        for c in 0..3 {
            let got = back[p * 4 + c] as i32;
            let want = colour[c] as i32;
            assert!((got - want).abs() <= 3, "pixel {p} channel {c}: {got} vs {want}");
        }
        assert_eq!(back[p * 4 + 3], 255);
    }
}

#[test]
fn test_yuv_short_buffer_decodes_black() {
    let yuv: Vec<u8> = vec![0; 3];
    let rgba = yuv420p_to_rgba(&yuv, 2, 2);
    assert_eq!(rgba.len(), 16);
    assert!(rgba.iter().all(|&b| b == 0));
}
