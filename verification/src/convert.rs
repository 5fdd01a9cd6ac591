//! Pixel-format conversions between RGBA and planar YUV 4:2:0, in the
//! fixed-point integer form of the BT.601 coefficients: the luma plane is
//! studio range (`16..=235`), the decode path reads full range.

use vstd::prelude::*;

verus! {

/// Floor of `x / 256`, stated without negative division.
pub open spec fn floor_div_256(x: int) -> int {
    (x + 16_777_216) / 256 - 65_536
}

pub open spec fn clamp_0_255(x: int) -> int {
    if x < 0 {
        0
    } else if x > 255 {
        255
    } else {
        x
    }
}

pub open spec fn clamp_16_235(x: int) -> int {
    if x < 16 {
        16
    } else if x > 235 {
        235
    } else {
        x
    }
}

/// Floor of `x / 256` as executable code.
fn div_256(x: i64) -> (r: i64)
    requires
        -16_777_216 <= x <= 16_777_216,
    ensures
        r == floor_div_256(x as int),
{
    (x + 16_777_216) / 256 - 65_536
}

fn clamp_byte(x: i64) -> (r: u8)
    ensures
        r == clamp_0_255(x as int),
{
    if x < 0 {
        0
    } else if x > 255 {
        255
    } else {
        x as u8
    }
}

fn clamp_luma(x: i64) -> (r: u8)
    ensures
        r == clamp_16_235(x as int),
{
    if x < 16 {
        16
    } else if x > 235 {
        235
    } else {
        x as u8
    }
}

/// Byte `k` of the RGBA image decoded from a YUV 4:2:0 buffer: full-range
/// BT.601 with chroma shared by each 2x2 block, alpha fully opaque.
pub open spec fn yuv_to_rgba_byte(yuv: Seq<u8>, w: int, h: int, k: int) -> int {
    let p = k / 4;
    let c = k % 4;
    let row = p / w;
    let col = p % w;
    let uv = (row / 2) * (w / 2) + col / 2;
    let y = yuv[p] as int;
    let u = yuv[w * h + uv] as int - 128;
    let v = yuv[w * h + (w / 2) * (h / 2) + uv] as int - 128;
    if c == 0 {
        clamp_0_255(y + floor_div_256(359 * v))
    } else if c == 1 {
        clamp_0_255(y - floor_div_256(88 * u + 183 * v))
    } else if c == 2 {
        clamp_0_255(y + floor_div_256(454 * u))
    } else {
        255
    }
}

/// Luma byte of pixel `p`: studio-range BT.601 from its RGBA bytes.
pub open spec fn rgba_y_byte(rgba: Seq<u8>, p: int) -> int {
    let r = rgba[4 * p] as int;
    let g = rgba[4 * p + 1] as int;
    let b = rgba[4 * p + 2] as int;
    clamp_16_235((66 * r + 129 * g + 25 * b + 128) / 256 + 16)
}

/// Average of one RGBA channel (`c`) over the 2x2 block with block index
/// `bi` in an image `w` pixels wide.
pub open spec fn block_avg(rgba: Seq<u8>, w: int, bi: int, c: int) -> int {
    let row = 2 * (bi / (w / 2));
    let col = 2 * (bi % (w / 2));
    (rgba[(row * w + col) * 4 + c] as int + rgba[(row * w + col + 1) * 4 + c] as int + rgba[((row
        + 1) * w + col) * 4 + c] as int + rgba[((row + 1) * w + col + 1) * 4 + c] as int) / 4
}

/// Chroma-U byte of block `bi`.
pub open spec fn rgba_u_byte(rgba: Seq<u8>, w: int, bi: int) -> int {
    let r = block_avg(rgba, w, bi, 0);
    let g = block_avg(rgba, w, bi, 1);
    let b = block_avg(rgba, w, bi, 2);
    clamp_0_255(floor_div_256(-38 * r - 74 * g + 112 * b + 128) + 128)
}

/// Chroma-V byte of block `bi`.
pub open spec fn rgba_v_byte(rgba: Seq<u8>, w: int, bi: int) -> int {
    let r = block_avg(rgba, w, bi, 0);
    let g = block_avg(rgba, w, bi, 1);
    let b = block_avg(rgba, w, bi, 2);
    clamp_0_255(floor_div_256(112 * r - 94 * g - 18 * b + 128) + 128)
}

/// Decodes a planar YUV 4:2:0 buffer to RGBA. A buffer shorter than the
/// plane layout decodes to an all-zero image.
#[verifier::rlimit(100)]
pub fn yuv420p_to_rgba(yuv_data: &Vec<u8>, width: u32, height: u32) -> (r: Vec<u8>)
    requires
        width * height * 4 <= usize::MAX,
        width % 2 == 0,
        height % 2 == 0,
    ensures
        r@.len() == width * height * 4,
        yuv_data@.len() < width * height + 2 * ((width / 2) * (height / 2)) ==> forall|k: int|
            0 <= k < r@.len() ==> r@[k] == 0,
        yuv_data@.len() >= width * height + 2 * ((width / 2) * (height / 2)) ==> forall|k: int|
            0 <= k < r@.len() ==> r@[k] == yuv_to_rgba_byte(
                yuv_data@,
                width as int,
                height as int,
                k,
            ),
{
    let w = width as usize;
    let h = height as usize;
    proof {
        assert((width / 2) * (height / 2) <= width * height) by (nonlinear_arith);
    }
    proof {
        assert(2 * ((width / 2) * (height / 2)) <= width * height) by (nonlinear_arith);
    }
    let y_size: usize = w * h;
    let uv_size: usize = (w / 2) * (h / 2);
    let mut out = crate::frame::vec_filled(0u8, y_size * 4);
    if yuv_data.len() < y_size + uv_size * 2 {
        return out;
    }
    let mut p: usize = 0;
    while p < y_size
        invariant
            w == width && h == height,
            w % 2 == 0 && h % 2 == 0,
            y_size == w * h,
            uv_size == (w / 2) * (h / 2),
            y_size * 4 <= usize::MAX,
            yuv_data@.len() >= y_size + uv_size * 2,
            yuv_data@.len() <= usize::MAX,
            uv_size * 2 <= y_size,
            0 <= p <= y_size,
            out@.len() == y_size * 4,
            forall|k: int|
                0 <= k < 4 * p ==> out@[k] == yuv_to_rgba_byte(yuv_data@, w as int, h as int, k),
            forall|k: int| 4 * p <= k < out@.len() ==> out@[k] == 0,
        decreases y_size - p,
    {
        proof {
            assert(w > 0) by (nonlinear_arith)
                requires
                    p < y_size,
                    y_size == w * h,
            ;
        }
        let row = p / w;
        let col = p % w;
        proof {
            vstd::arithmetic::div_mod::lemma_fundamental_div_mod(p as int, w as int);
            vstd::arithmetic::div_mod::lemma_mod_bound(p as int, w as int);
            assert(p as int == (w as int) * (row as int) + (col as int));
            assert(row < h) by (nonlinear_arith)
                requires
                    p < y_size,
                    y_size == w * h,
                    w > 0,
                    p == (w as int) * (row as int) + (col as int),
                    0 <= col < w,
            ;
            assert((row as int / 2) * (w as int / 2) + (col as int / 2) < (w as int / 2) * (h as int
                / 2)) by (nonlinear_arith)
                requires
                    0 <= row < h,
                    0 <= col < w,
                    w % 2 == 0,
                    h % 2 == 0,
                    w > 0,
            ;
            assert(4 * p + 3 < out@.len()) by (nonlinear_arith)
                requires
                    p < y_size,
                    out@.len() == y_size * 4,
            ;
        }
        let uv = (row / 2) * (w / 2) + col / 2;
        let y = yuv_data[p] as i64;
        let u = yuv_data[y_size + uv] as i64 - 128;
        let v = yuv_data[y_size + uv_size + uv] as i64 - 128;
        let rr = clamp_byte(y + div_256(359 * v));
        let gg = clamp_byte(y - div_256(88 * u + 183 * v));
        let bb = clamp_byte(y + div_256(454 * u));
        out.set(4 * p, rr);
        out.set(4 * p + 1, gg);
        out.set(4 * p + 2, bb);
        out.set(4 * p + 3, 255);
        proof {
            assert forall|k: int| 0 <= k < 4 * (p + 1) implies out@[k] == yuv_to_rgba_byte(
                yuv_data@,
                w as int,
                h as int,
                k,
            ) by {
                if 4 * p <= k {
                    vstd::arithmetic::div_mod::lemma_fundamental_div_mod_converse(
                        k,
                        4,
                        p as int,
                        k - 4 * p,
                    );
                }
            }
        }
        p = p + 1;
    }
    out
}

/// Encodes an RGBA image to planar YUV 4:2:0, averaging each 2x2 block for
/// the chroma planes.
#[verifier::rlimit(100)]
pub fn rgba_to_yuv420p(rgba: &Vec<u8>, width: u32, height: u32) -> (r: Vec<u8>)
    requires
        width * height * 4 <= usize::MAX,
        width % 2 == 0,
        height % 2 == 0,
        rgba@.len() == width * height * 4,
    ensures
        r@.len() == width * height + 2 * ((width / 2) * (height / 2)),
        forall|p: int| 0 <= p < width * height ==> r@[p] == rgba_y_byte(rgba@, p),
        forall|bi: int|
            0 <= bi < (width / 2) * (height / 2) ==> r@[width * height + bi] == rgba_u_byte(
                rgba@,
                width as int,
                bi,
            ),
        forall|bi: int|
            0 <= bi < (width / 2) * (height / 2) ==> r@[width * height + (width / 2) * (height / 2)
                + bi] == rgba_v_byte(rgba@, width as int, bi),
{
    let w = width as usize;
    let h = height as usize;
    proof {
        assert((width / 2) * (height / 2) <= width * height) by (nonlinear_arith);
    }
    let y_size: usize = w * h;
    let uv_size: usize = (w / 2) * (h / 2);
    let mut out = crate::frame::vec_filled(0u8, y_size + uv_size * 2);
    // Luma plane.
    let mut p: usize = 0;
    while p < y_size
        invariant
            w == width && h == height,
            y_size == w * h,
            uv_size == (w / 2) * (h / 2),
            rgba@.len() == y_size * 4,
            y_size * 4 <= usize::MAX,
            0 <= p <= y_size,
            out@.len() == y_size + uv_size * 2,
            forall|q: int| 0 <= q < p ==> out@[q] == rgba_y_byte(rgba@, q),
            forall|q: int| p <= q < out@.len() ==> out@[q] == 0,
        decreases y_size - p,
    {
        proof {
            assert(4 * p + 3 < rgba@.len()) by (nonlinear_arith)
                requires
                    p < y_size,
                    rgba@.len() == y_size * 4,
            ;
        }
        let r = rgba[4 * p] as i64;
        let g = rgba[4 * p + 1] as i64;
        let b = rgba[4 * p + 2] as i64;
        let y = clamp_luma((66 * r + 129 * g + 25 * b + 128) / 256 + 16);
        out.set(p, y);
        p = p + 1;
    }
    // Chroma planes, one byte per 2x2 block.
    let half_w = w / 2;
    let mut bi: usize = 0;
    while bi < uv_size
        invariant
            w == width && h == height,
            w % 2 == 0 && h % 2 == 0,
            y_size == w * h,
            uv_size == (w / 2) * (h / 2),
            half_w == w / 2,
            rgba@.len() == y_size * 4,
            y_size * 4 <= usize::MAX,
            0 <= bi <= uv_size,
            out@.len() == y_size + uv_size * 2,
            y_size + uv_size * 2 <= usize::MAX,
            forall|q: int| 0 <= q < y_size ==> out@[q] == rgba_y_byte(rgba@, q),
            forall|q: int| 0 <= q < bi ==> out@[y_size + q] == rgba_u_byte(rgba@, w as int, q),
            forall|q: int|
                0 <= q < bi ==> out@[y_size + uv_size + q] == rgba_v_byte(rgba@, w as int, q),
            forall|q: int| y_size + bi <= q < y_size + uv_size ==> out@[q] == 0,
            forall|q: int| y_size + uv_size + bi <= q < out@.len() ==> out@[q] == 0,
        decreases uv_size - bi,
    {
        proof {
            assert(half_w > 0) by (nonlinear_arith)
                requires
                    bi < uv_size,
                    uv_size == half_w * (h / 2),
            ;
        }
        let br = bi / half_w;
        let bc = bi % half_w;
        proof {
            vstd::arithmetic::div_mod::lemma_fundamental_div_mod(bi as int, half_w as int);
            vstd::arithmetic::div_mod::lemma_mod_bound(bi as int, half_w as int);
            assert(bi as int == (half_w as int) * (br as int) + (bc as int));
            assert(br < h / 2) by (nonlinear_arith)
                requires
                    bi < uv_size,
                    uv_size == (w as int / 2) * (h as int / 2),
                    half_w == w as int / 2,
                    half_w > 0,
                    bi == (half_w as int) * (br as int) + (bc as int),
                    0 <= bc < half_w,
            ;
            assert({
                &&& ((2 * br as int) * w + (2 * bc as int)) * 4 + 3 < rgba@.len()
                &&& ((2 * br as int) * w + (2 * bc as int) + 1) * 4 + 3 < rgba@.len()
                &&& ((2 * br as int + 1) * w + (2 * bc as int)) * 4 + 3 < rgba@.len()
                &&& ((2 * br as int + 1) * w + (2 * bc as int) + 1) * 4 + 3 < rgba@.len()
                &&& 0 <= (2 * br as int) * w + (2 * bc as int)
            }) by (nonlinear_arith)
                requires
                    0 <= br < h as int / 2,
                    0 <= bc < half_w,
                    half_w == w as int / 2,
                    w % 2 == 0,
                    h % 2 == 0,
                    rgba@.len() == (w as int) * (h as int) * 4,
            ;
        }
        let row = 2 * br;
        let col = 2 * bc;
        let i00: usize = (row * w + col) * 4;
        let i01: usize = (row * w + col + 1) * 4;
        let i10: usize = ((row + 1) * w + col) * 4;
        let i11: usize = ((row + 1) * w + col + 1) * 4;
        let rs = rgba[i00] as i64 + rgba[i01] as i64 + rgba[i10] as i64 + rgba[i11] as i64;
        let gs = rgba[i00 + 1] as i64 + rgba[i01 + 1] as i64 + rgba[i10 + 1] as i64 + rgba[i11
            + 1] as i64;
        let bs = rgba[i00 + 2] as i64 + rgba[i01 + 2] as i64 + rgba[i10 + 2] as i64 + rgba[i11
            + 2] as i64;
        let r = rs / 4;
        let g = gs / 4;
        let b = bs / 4;
        let u = clamp_byte(div_256(-38 * r - 74 * g + 112 * b + 128) + 128);
        let v = clamp_byte(div_256(112 * r - 94 * g - 18 * b + 128) + 128);
        out.set(y_size + bi, u);
        out.set(y_size + uv_size + bi, v);
        proof {
            assert(r == block_avg(rgba@, w as int, bi as int, 0) && g == block_avg(
                rgba@,
                w as int,
                bi as int,
                1,
            ) && b == block_avg(rgba@, w as int, bi as int, 2));
        }
        bi = bi + 1;
    }
    out
}

/// Law: on a block of one constant grey value in the mid range, encoding to
/// YUV 4:2:0 and decoding back moves each colour channel by at most three
/// steps. (Outside this band the studio-range luma encode paired with the
/// full-range decode drifts further: pure white comes back as 235.)
pub proof fn lemma_gray_round_trip(c: int)
    requires
        89 <= c <= 138,
    ensures
        ({
            let y = clamp_16_235((66 * c + 129 * c + 25 * c + 128) / 256 + 16);
            let u = clamp_0_255(floor_div_256(-38 * c - 74 * c + 112 * c + 128) + 128);
            let v = clamp_0_255(floor_div_256(112 * c - 94 * c - 18 * c + 128) + 128);
            let r = clamp_0_255(y + floor_div_256(359 * (v - 128)));
            let g = clamp_0_255(y - floor_div_256(88 * (u - 128) + 183 * (v - 128)));
            let b = clamp_0_255(y + floor_div_256(454 * (u - 128)));
            &&& -3 <= r - c <= 3
            &&& -3 <= g - c <= 3
            &&& -3 <= b - c <= 3
        }),
{
    assert(-38 * c - 74 * c + 112 * c == 0);
    assert(112 * c - 94 * c - 18 * c == 0);
    assert(66 * c + 129 * c + 25 * c == 220 * c);
}

/// On a block holding one colour, the 2x2 average is that colour.
pub proof fn lemma_const_block_avg(rgba: Seq<u8>, w: int, bi: int, c: int, value: u8)
    requires
        w > 0,
        ({
            let row = 2 * (bi / (w / 2));
            let col = 2 * (bi % (w / 2));
            &&& 0 <= (row * w + col) * 4 + c < rgba.len()
            &&& rgba[(row * w + col) * 4 + c] == value
            &&& rgba[(row * w + col + 1) * 4 + c] == value
            &&& rgba[((row + 1) * w + col) * 4 + c] == value
            &&& rgba[((row + 1) * w + col + 1) * 4 + c] == value
        }),
    ensures
        block_avg(rgba, w, bi, c) == value,
{
}

} // verus!
