use vortex_engine::frame::{Frame, PixelFormat};
use vortex_engine::scale::{copy_plane_rows, downscale_nearest};

#[test]
fn test_copy_plane_rows_strips_stride_padding() {
    // Two rows of one RGBA pixel, with four padding bytes per row.
    let src: Vec<u8> = vec![
        1, 2, 3, 4, 99, 99, 99, 99, //
        5, 6, 7, 8, 99, 99, 99, 99,
    ];
    let out = copy_plane_rows(&src, 8, 1, 2).expect("buffer is large enough");
    assert_eq!(out, vec![1, 2, 3, 4, 5, 6, 7, 8]);
}

#[test]
fn test_copy_plane_rows_rejects_bad_stride() {
    let src: Vec<u8> = vec![0; 64];
    // A stride below width * 4 would make rows overlap.
    assert!(copy_plane_rows(&src, 7, 2, 2).is_none());
}

#[test]
fn test_copy_plane_rows_rejects_short_buffer() {
    let src: Vec<u8> = vec![0; 11];
    // The last row needs (2 - 1) * 8 + 4 = 12 bytes.
    assert!(copy_plane_rows(&src, 8, 1, 2).is_none());
}

#[test]
fn test_downscale_nearest_picks_source_pixels() {
    // A 4x1 frame with distinct pixels downsized to 2x1: columns 0 and 2.
    let data: Vec<u8> = vec![
        10, 11, 12, 13, //
        20, 21, 22, 23, //
        30, 31, 32, 33, //
        40, 41, 42, 43,
    ];
    let frame = Frame { width: 4, height: 1, format: PixelFormat::RGBA, data, timestamp_ms: 5 };
    let thumb = downscale_nearest(&frame, 2, 1);
    assert_eq!(thumb.width, 2);
    assert_eq!(thumb.height, 1);
    assert_eq!(thumb.timestamp_ms, 5);
    assert_eq!(thumb.data, vec![10, 11, 12, 13, 30, 31, 32, 33]);
}
