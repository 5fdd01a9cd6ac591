//! Pixel-buffer reshaping: the bounds-checked copy from a strided scaler
//! buffer into tight rows, and nearest-neighbour downscaling for
//! thumbnails.

use vstd::prelude::*;
use crate::frame::{dims_wf, Frame, PixelFormat};

verus! {

/// Copies `height` rows of `width * 4` bytes out of a buffer whose rows are
/// `stride` bytes apart. A stride below the row width, or a source shorter
/// than the last row needs, yields `None` rather than a wild read.
#[verifier::rlimit(60)]
pub fn copy_plane_rows(src: &Vec<u8>, stride: usize, width: u32, height: u32) -> (r: Option<
    Vec<u8>,
>)
    requires
        dims_wf(width, height),
        width * 4 <= usize::MAX,
    ensures
        match r {
            Some(data) => {
                &&& stride >= width * 4
                &&& height >= 1 ==> src@.len() >= (height - 1) * stride + width * 4
                &&& data@.len() == width * height * 4
                &&& forall|k: int|
                    0 <= k < data@.len() ==> data@[k] == src@[(k / ((width * 4) as int)) * stride
                        + k % ((width * 4) as int)]
            },
            None => stride < width * 4 || (height >= 1 && src@.len() < (height - 1) * stride
                + width * 4),
        },
{
    let row_bytes: usize = (width as usize) * 4;
    let available = src.len();
    if stride < row_bytes {
        return None;
    }
    if height >= 1 {
        // The last row must fit: (height - 1) * stride + row_bytes bytes.
        let h1 = (height - 1) as usize;
        if stride > 0 && h1 > (usize::MAX - row_bytes) / stride {
            proof {
                assert(h1 * stride > usize::MAX - row_bytes) by (nonlinear_arith)
                    requires
                        stride > 0,
                        (h1 as int) > ((usize::MAX - row_bytes) as int) / (stride as int),
                        usize::MAX >= row_bytes,
                ;
                assert(available <= usize::MAX);
            }
            return None;
        }
        proof {
            if stride > 0 {
                let m = (usize::MAX - row_bytes) as int;
                let st = stride as int;
                vstd::arithmetic::div_mod::lemma_fundamental_div_mod(m, st);
                vstd::arithmetic::div_mod::lemma_mod_bound(m, st);
                vstd::arithmetic::div_mod::lemma_div_pos_is_pos(m, st);
                assert((h1 as int) * st <= m) by (nonlinear_arith)
                    requires
                        st > 0,
                        (h1 as int) <= m / st,
                        m == st * (m / st) + m % st,
                        0 <= m % st,
                        0 <= m / st,
                        h1 >= 0,
                ;
            }
        }
        let required = h1 * stride + row_bytes;
        if src.len() < required {
            return None;
        }
    }
    let mut data: Vec<u8> = Vec::new();
    let mut y: usize = 0;
    while y < height as usize
        invariant
            dims_wf(width, height),
            row_bytes == width * 4,
            stride >= row_bytes,
            height >= 1 ==> src@.len() >= (height - 1) * stride + width * 4,
            src@.len() <= usize::MAX,
            0 <= y <= height,
            data@.len() == y * row_bytes,
            forall|k: int|
                0 <= k < data@.len() ==> data@[k] == src@[(k / (row_bytes as int)) * stride + k % (
                row_bytes as int)],
        decreases height - y,
    {
        proof {
            assert(y * stride + row_bytes <= (height - 1) * stride + row_bytes)
                by (nonlinear_arith)
                requires
                    y < height,
                    stride >= 0,
            ;
        }
        let mut j: usize = 0;
        while j < row_bytes
            invariant
                dims_wf(width, height),
                row_bytes == width * 4,
                stride >= row_bytes,
                height >= 1 ==> src@.len() >= (height - 1) * stride + width * 4,
                src@.len() <= usize::MAX,
                0 <= y < height,
                y * stride + row_bytes <= src@.len(),
                0 <= j <= row_bytes,
                data@.len() == y * row_bytes + j,
                forall|k: int|
                    0 <= k < data@.len() ==> data@[k] == src@[(k / (row_bytes as int)) * stride + k
                        % (row_bytes as int)],
            decreases row_bytes - j,
        {
            let b = src[y * stride + j];
            data.push(b);
            proof {
                let k = y * row_bytes + j;
                vstd::arithmetic::div_mod::lemma_fundamental_div_mod_converse(
                    k as int,
                    row_bytes as int,
                    y as int,
                    j as int,
                );
            }
            j = j + 1;
        }
        proof {
            assert((y as int + 1) * (row_bytes as int) == (y as int) * (row_bytes as int)
                + row_bytes) by (nonlinear_arith);
        }
        y = y + 1;
    }
    proof {
        assert((height as int) * (row_bytes as int) == width * height * 4) by (nonlinear_arith)
            requires
                row_bytes == width * 4,
        ;
    }
    Some(data)
}

/// The byte a nearest-neighbour downscale reads for output byte `k`.
pub open spec fn nearest_src_byte(
    src: Seq<u8>,
    src_w: int,
    src_h: int,
    dst_w: int,
    dst_h: int,
    k: int,
) -> u8 {
    let p = k / 4;
    let c = k % 4;
    let y = p / dst_w;
    let x = p % dst_w;
    let sx = x * src_w / dst_w;
    let sy = y * src_h / dst_h;
    src[(sy * src_w + sx) * 4 + c]
}

/// Downscales an RGBA frame with nearest-neighbour sampling, as thumbnail
/// generation uses when the decoded size differs from the requested one.
#[verifier::rlimit(60)]
pub fn downscale_nearest(frame: &Frame, thumb_width: u32, thumb_height: u32) -> (r: Frame)
    requires
        frame.wf(),
        frame.format == PixelFormat::RGBA,
        frame.width >= 1,
        frame.height >= 1,
        dims_wf(thumb_width, thumb_height),
        thumb_width * frame.width <= usize::MAX,
        thumb_height * frame.height <= usize::MAX,
    ensures
        r.width == thumb_width,
        r.height == thumb_height,
        r.format == PixelFormat::RGBA,
        r.timestamp_ms == frame.timestamp_ms,
        r.wf(),
        forall|k: int|
            0 <= k < r.data@.len() ==> r.data@[k] == nearest_src_byte(
                frame.data@,
                frame.width as int,
                frame.height as int,
                thumb_width as int,
                thumb_height as int,
                k,
            ),
{
    let sw = frame.width as usize;
    let sh = frame.height as usize;
    let tw = thumb_width as usize;
    let th = thumb_height as usize;
    proof {
        assert(tw * th * 4 <= usize::MAX);
    }
    let total: usize = tw * th;
    let mut data: Vec<u8> = Vec::new();
    let mut p: usize = 0;
    while p < total
        invariant
            frame.wf(),
            frame.format == PixelFormat::RGBA,
            sw == frame.width && sh == frame.height,
            tw == thumb_width && th == thumb_height,
            sw >= 1 && sh >= 1,
            total == tw * th,
            total * 4 <= usize::MAX,
            tw * sw <= usize::MAX,
            th * sh <= usize::MAX,
            0 <= p <= total,
            data@.len() == 4 * p,
            forall|k: int|
                0 <= k < data@.len() ==> data@[k] == nearest_src_byte(
                    frame.data@,
                    sw as int,
                    sh as int,
                    tw as int,
                    th as int,
                    k,
                ),
        decreases total - p,
    {
        proof {
            assert(tw > 0) by (nonlinear_arith)
                requires
                    p < total,
                    total == tw * th,
            ;
            assert(th > 0) by (nonlinear_arith)
                requires
                    p < total,
                    total == tw * th,
            ;
        }
        let y = p / tw;
        let x = p % tw;
        proof {
            vstd::arithmetic::div_mod::lemma_fundamental_div_mod(p as int, tw as int);
            vstd::arithmetic::div_mod::lemma_mod_bound(p as int, tw as int);
            assert(p as int == (tw as int) * (y as int) + (x as int));
            assert(y < th) by (nonlinear_arith)
                requires
                    p < total,
                    total == tw * th,
                    tw > 0,
                    p == (tw as int) * (y as int) + (x as int),
                    0 <= x < tw,
            ;
            assert((x as int) * (sw as int) < (tw as int) * (sw as int)) by (nonlinear_arith)
                requires
                    x < tw,
                    sw >= 1,
            ;
            vstd::arithmetic::div_mod::lemma_multiply_divide_lt(
                (x as int) * (sw as int),
                tw as int,
                sw as int,
            );
            assert((x as int) * (sw as int) >= 0) by (nonlinear_arith)
                requires
                    x >= 0,
                    sw >= 0,
            ;
            vstd::arithmetic::div_mod::lemma_div_pos_is_pos((x as int) * (sw as int), tw as int);
            assert((y as int) * (sh as int) < (th as int) * (sh as int)) by (nonlinear_arith)
                requires
                    y < th,
                    sh >= 1,
            ;
            vstd::arithmetic::div_mod::lemma_multiply_divide_lt(
                (y as int) * (sh as int),
                th as int,
                sh as int,
            );
            assert((y as int) * (sh as int) >= 0) by (nonlinear_arith)
                requires
                    y >= 0,
                    sh >= 0,
            ;
            vstd::arithmetic::div_mod::lemma_div_pos_is_pos((y as int) * (sh as int), th as int);
            assert((x as int) * (sw as int) <= usize::MAX) by (nonlinear_arith)
                requires
                    0 <= x < tw,
                    sw >= 0,
                    tw * sw <= usize::MAX,
            ;
            assert((y as int) * (sh as int) <= usize::MAX) by (nonlinear_arith)
                requires
                    0 <= y < th,
                    sh >= 0,
                    th * sh <= usize::MAX,
            ;
        }
        let sx = (x * sw) / tw;
        let sy = (y * sh) / th;
        proof {
            assert((sy as int) * (sw as int) + (sx as int) < (sw as int) * (sh as int))
                by (nonlinear_arith)
                requires
                    0 <= sx < sw,
                    0 <= sy < sh,
            ;
            assert(((sy as int) * (sw as int) + (sx as int)) * 4 + 3 < frame.data@.len())
                by (nonlinear_arith)
                requires
                    (sy as int) * (sw as int) + (sx as int) < (sw as int) * (sh as int),
                    frame.data@.len() == sw * sh * 4,
            ;
        }
        let src_index: usize = (sy * sw + sx) * 4;
        let k0: usize = data.len();
        data.push(frame.data[src_index]);
        data.push(frame.data[src_index + 1]);
        data.push(frame.data[src_index + 2]);
        data.push(frame.data[src_index + 3]);
        proof {
            assert forall|k: int| 0 <= k < data@.len() implies data@[k] == nearest_src_byte(
                frame.data@,
                sw as int,
                sh as int,
                tw as int,
                th as int,
                k,
            ) by {
                if k >= k0 {
                    vstd::arithmetic::div_mod::lemma_fundamental_div_mod_converse(
                        k,
                        4,
                        p as int,
                        k - k0,
                    );
                }
            }
        }
        p = p + 1;
    }
    proof {
        assert((tw as int) * (th as int) * 4 == (total as int) * 4);
    }
    Frame {
        width: thumb_width,
        height: thumb_height,
        format: PixelFormat::RGBA,
        data,
        timestamp_ms: frame.timestamp_ms,
    }
}

} // verus!
