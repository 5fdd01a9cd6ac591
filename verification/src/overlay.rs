//! Subtitle overlays: timed RGBA bitmaps blended onto rendered frames with
//! source-over alpha compositing.

use vstd::prelude::*;

verus! {

/// A prebuilt subtitle bitmap shown during `[start_ms, end_ms)` at a fixed
/// position on the frame.
#[derive(Debug)]
pub struct SubtitleOverlay {
    pub start_ms: i64,
    pub end_ms: i64,
    pub x: i32,
    pub y: i32,
    pub width: u32,
    pub height: u32,
    pub rgba_data: Vec<u8>,
}

impl SubtitleOverlay {
    /// The bitmap matches its dimensions and the position arithmetic stays
    /// within machine bounds.
    pub open spec fn wf(self) -> bool {
        &&& self.rgba_data@.len() == self.width * self.height * 4
        &&& self.width * self.height * 4 <= usize::MAX
        &&& self.x + self.width <= i32::MAX
        &&& self.y + self.height <= i32::MAX
    }

    /// The overlay is visible at `t`: `start <= t < end`.
    pub open spec fn spec_active_at(self, timestamp_ms: i64) -> bool {
        self.start_ms <= timestamp_ms < self.end_ms
    }
}

/// The overlays passed into one export, in display order.
#[derive(Debug)]
pub struct SubtitleOverlayList {
    pub overlays: Vec<SubtitleOverlay>,
}

impl SubtitleOverlayList {
    pub fn new() -> (r: Self)
        ensures
            r.overlays@.len() == 0,
    {
        Self { overlays: Vec::new() }
    }

    /// The first overlay whose time range contains `timestamp_ms`.
    pub fn get_active(&self, timestamp_ms: i64) -> (r: Option<&SubtitleOverlay>)
        ensures
            match r {
                Some(o) => exists|i: int|
                    {
                        &&& 0 <= i < self.overlays@.len()
                        &&& (#[trigger] self.overlays@[i]).spec_active_at(timestamp_ms)
                        &&& (forall|j: int|
                            0 <= j < i ==> !(#[trigger] self.overlays@[j]).spec_active_at(
                                timestamp_ms,
                            ))
                        &&& *o == self.overlays@[i]
                    },
                None => forall|i: int|
                    0 <= i < self.overlays@.len() ==> !(#[trigger] self.overlays@[i]).spec_active_at(
                        timestamp_ms,
                    ),
            },
    {
        let mut k: usize = 0;
        while k < self.overlays.len()
            invariant
                0 <= k <= self.overlays@.len(),
                forall|j: int|
                    0 <= j < k ==> !(#[trigger] self.overlays@[j]).spec_active_at(timestamp_ms),
            decreases self.overlays@.len() - k,
        {
            let o = &self.overlays[k];
            if timestamp_ms >= o.start_ms && timestamp_ms < o.end_ms {
                return Some(o);
            }
            k = k + 1;
        }
        None
    }
}

/// Source-over compositing of one channel: `(src*a + dst*(255 - a)) / 255`.
pub open spec fn blend_channel(s: int, d: int, a: int) -> int {
    (s * a + d * (255 - a)) / 255
}

/// Law: blending with a fully transparent overlay pixel leaves the
/// destination untouched.
pub proof fn lemma_blend_alpha_zero(s: int, d: int)
    requires
        0 <= d <= 255,
    ensures
        blend_channel(s, d, 0) == d,
{
}

/// Law: blending with a fully opaque overlay pixel yields the overlay
/// colour.
pub proof fn lemma_blend_alpha_full(s: int, d: int)
    requires
        0 <= s <= 255,
    ensures
        blend_channel(s, d, 255) == s,
{
}

/// Law: blending at half alpha lands within one step of the integer average
/// of source and destination.
pub proof fn lemma_blend_alpha_half(s: int, d: int)
    requires
        0 <= s <= 255,
        0 <= d <= 255,
    ensures
        (s + d) / 2 - 1 <= blend_channel(s, d, 128) <= (s + d) / 2 + 1,
{
    let q = (s + d) / 2;
    let e = (s + d) % 2;
    let n = s * 128 + d * 127;
    assert(n == 127 * (s + d) + s);
    assert(s + d == 2 * q + e);
    assert(n == 254 * q + 127 * e + s) by (nonlinear_arith)
        requires
            n == 127 * (s + d) + s,
            s + d == 2 * q + e,
    ;
    let b = n / 255;
    assert(255 * b <= n < 255 * b + 255);
    assert(0 <= q <= 255);
}

/// The blend stays a byte.
pub proof fn lemma_blend_channel_in_range(s: int, d: int, a: int)
    requires
        0 <= s <= 255,
        0 <= d <= 255,
        0 <= a <= 255,
    ensures
        0 <= blend_channel(s, d, a) <= 255,
{
    assert(0 <= s * a + d * (255 - a) <= 255 * 255) by (nonlinear_arith)
        requires
            0 <= s <= 255,
            0 <= d <= 255,
            0 <= a <= 255,
    ;
}

/// What each frame byte becomes when the overlay is composited: bytes of
/// pixels outside the overlay keep their value; under a transparent overlay
/// pixel they keep their value; under an opaque one they take the overlay
/// colour; otherwise the source-over blend. Either way a touched pixel's
/// alpha becomes fully opaque.
pub open spec fn blended_byte(frame: Seq<u8>, o: SubtitleOverlay, fw: int, k: int) -> int {
    let p = k / 4;
    let c = k % 4;
    let fy = p / fw;
    let fx = p % fw;
    if o.x <= fx < o.x + o.width && o.y <= fy < o.y + o.height {
        let s_idx = 4 * ((fy - o.y) * o.width + (fx - o.x));
        let a = o.rgba_data@[s_idx + 3] as int;
        if a == 0 {
            frame[k] as int
        } else if c == 3 {
            255
        } else if a == 255 {
            o.rgba_data@[s_idx + c] as int
        } else {
            blend_channel(o.rgba_data@[s_idx + c] as int, frame[k] as int, a)
        }
    } else {
        frame[k] as int
    }
}

/// Row-major pixel index decomposition.
proof fn lemma_row_major(w: int, x: int, y: int)
    requires
        w > 0,
        0 <= x < w,
        0 <= y,
    ensures
        (y * w + x) / w == y,
        (y * w + x) % w == x,
{
    vstd::arithmetic::div_mod::lemma_fundamental_div_mod_converse(y * w + x, w, y, x);
}

/// Blends the overlay bitmap onto an RGBA frame in place. Overlay pixels
/// falling outside the frame are clipped.
#[verifier::rlimit(100)]
pub fn blend_overlay_rgba(
    frame_rgba: &mut Vec<u8>,
    frame_width: u32,
    frame_height: u32,
    overlay: &SubtitleOverlay,
)
    requires
        overlay.wf(),
        frame_width * frame_height * 4 <= usize::MAX,
        old(frame_rgba)@.len() == frame_width * frame_height * 4,
    ensures
        final(frame_rgba)@.len() == old(frame_rgba)@.len(),
        forall|k: int|
            0 <= k < old(frame_rgba)@.len() ==> final(frame_rgba)@[k] == blended_byte(
                old(frame_rgba)@,
                *overlay,
                frame_width as int,
                k,
            ),
{
    let fw = frame_width;
    let fh = frame_height;
    let ghost fwi = fw as int;
    if fw == 0 || fh == 0 {
        return ;
    }
    let mut oy: u32 = 0;
    while oy < overlay.height
        invariant
            overlay.wf(),
            fw == frame_width && fh == frame_height,
            fw > 0 && fh > 0,
            fwi == fw as int,
            0 <= oy <= overlay.height,
            frame_rgba@.len() == old(frame_rgba)@.len(),
            old(frame_rgba)@.len() == fw * fh * 4,
            fw * fh * 4 <= usize::MAX,
            forall|k: int|
                0 <= k < old(frame_rgba)@.len() ==> frame_rgba@[k] == blended_upto(
                    old(frame_rgba)@,
                    *overlay,
                    fwi,
                    k,
                    oy as int,
                    0,
                ),
        decreases overlay.height - oy,
    {
        let fy: i64 = overlay.y as i64 + oy as i64;
        if fy >= 0 && fy < fh as i64 {
            let mut ox: u32 = 0;
            while ox < overlay.width
                invariant
                    overlay.wf(),
                    fw == frame_width && fh == frame_height,
                    fw > 0 && fh > 0,
                    fwi == fw as int,
                    0 <= oy < overlay.height,
                    0 <= ox <= overlay.width,
                    fy == overlay.y + oy,
                    0 <= fy < fh,
                    frame_rgba@.len() == old(frame_rgba)@.len(),
                    old(frame_rgba)@.len() == fw * fh * 4,
                    fw * fh * 4 <= usize::MAX,
                    forall|k: int|
                        0 <= k < old(frame_rgba)@.len() ==> frame_rgba@[k] == blended_upto(
                            old(frame_rgba)@,
                            *overlay,
                            fwi,
                            k,
                            oy as int,
                            ox as int,
                        ),
                decreases overlay.width - ox,
            {
                let fx: i64 = overlay.x as i64 + ox as i64;
                if fx >= 0 && fx < fw as i64 {
                    let ghost mid = frame_rgba@;
                    blend_one_pixel(frame_rgba, fw, fh, overlay, ox, oy, fx as u32, fy as u32);
                    proof {
                        assert forall|k: int| 0 <= k < old(frame_rgba)@.len() implies frame_rgba@[k]
                            == blended_upto(
                            old(frame_rgba)@,
                            *overlay,
                            fwi,
                            k,
                            oy as int,
                            ox as int + 1,
                        ) by {
                            assert(frame_rgba@[k] == blended_upto_step(
                                mid,
                                *overlay,
                                fwi,
                                k,
                                oy as int,
                                ox as int,
                            ));
                            assert(mid[k] == blended_upto(
                                old(frame_rgba)@,
                                *overlay,
                                fwi,
                                k,
                                oy as int,
                                ox as int,
                            ));
                        }
                    }
                } else {
                    proof {
                        assert forall|k: int| 0 <= k < old(frame_rgba)@.len() implies frame_rgba@[k]
                            == blended_upto(
                            old(frame_rgba)@,
                            *overlay,
                            fwi,
                            k,
                            oy as int,
                            ox as int + 1,
                        ) by {
                            lemma_upto_step_outside(old(frame_rgba)@, *overlay, fwi, fh as int, k, oy as int, ox as int);
                        }
                    }
                }
                ox = ox + 1;
            }
            proof {
                lemma_upto_row_done(old(frame_rgba)@, *overlay, fwi, fh as int, oy as int);
            }
        } else {
            proof {
                assert forall|k: int| 0 <= k < old(frame_rgba)@.len() implies frame_rgba@[k]
                    == blended_upto(old(frame_rgba)@, *overlay, fwi, k, oy as int + 1, 0) by {
                    lemma_upto_row_skipped(old(frame_rgba)@, *overlay, fwi, fh as int, k, oy as int);
                }
            }
        }
        oy = oy + 1;
    }
    proof {
        assert forall|k: int| 0 <= k < old(frame_rgba)@.len() implies frame_rgba@[k]
            == blended_byte(old(frame_rgba)@, *overlay, fwi, k) by {
            lemma_upto_complete(old(frame_rgba)@, *overlay, fwi, fh as int, k);
        }
    }
}

/// The partially blended frame: a byte is blended exactly when its pixel is
/// covered by an overlay pixel that the row-major sweep has already passed
/// (`row < oy`, or `row == oy` and `col < ox`).
pub open spec fn blended_upto(
    frame: Seq<u8>,
    o: SubtitleOverlay,
    fw: int,
    k: int,
    oy: int,
    ox: int,
) -> int {
    let p = k / 4;
    let fy = p / fw;
    let fx = p % fw;
    let row = fy - o.y;
    let col = fx - o.x;
    if o.x <= fx < o.x + o.width && o.y <= fy < o.y + o.height && (row < oy || (row == oy && col
        < ox)) {
        blended_byte(frame, o, fw, k)
    } else {
        frame[k] as int
    }
}

/// Stepping the column past a clipped (off-frame) overlay pixel changes
/// nothing.
proof fn lemma_upto_step_outside(
    frame: Seq<u8>,
    o: SubtitleOverlay,
    fw: int,
    fh: int,
    k: int,
    oy: int,
    ox: int,
)
    requires
        fw > 0,
        0 <= k < frame.len(),
        frame.len() == fw * fh * 4,
        !(0 <= o.x + ox < fw) || !(0 <= o.y + oy < fh),
    ensures
        blended_upto(frame, o, fw, k, oy, ox + 1) == blended_upto(frame, o, fw, k, oy, ox),
{
    let p = k / 4;
    let fy = p / fw;
    let fx = p % fw;
    lemma_pixel_coords_in_frame(frame, fw, fh, k);
    if fy - o.y == oy && fx - o.x == ox {
        assert(0 <= fx < fw && 0 <= fy < fh);
        assert(false);
    }
}

/// A skipped (off-frame) row advances the sweep without changing bytes.
proof fn lemma_upto_row_skipped(
    frame: Seq<u8>,
    o: SubtitleOverlay,
    fw: int,
    fh: int,
    k: int,
    oy: int,
)
    requires
        fw > 0,
        0 <= k < frame.len(),
        frame.len() == fw * fh * 4,
        !(0 <= o.y + oy < fh),
    ensures
        blended_upto(frame, o, fw, k, oy + 1, 0) == blended_upto(frame, o, fw, k, oy, 0),
{
    let p = k / 4;
    let fy = p / fw;
    lemma_pixel_coords_in_frame(frame, fw, fh, k);
    if fy - o.y == oy {
        assert(0 <= fy < fh);
        assert(false);
    }
}

/// Finishing row `oy` is the same as starting row `oy + 1`.
proof fn lemma_upto_row_done(frame: Seq<u8>, o: SubtitleOverlay, fw: int, fh: int, oy: int)
    requires
        fw > 0,
    ensures
        forall|k: int|
            #![trigger blended_upto(frame, o, fw, k, oy, o.width as int)]
            blended_upto(frame, o, fw, k, oy, o.width as int) == blended_upto(
                frame,
                o,
                fw,
                k,
                oy + 1,
                0,
            ),
{
}

/// Once the sweep has passed the whole overlay, the frame is fully blended.
proof fn lemma_upto_complete(frame: Seq<u8>, o: SubtitleOverlay, fw: int, fh: int, k: int)
    requires
        fw > 0,
        0 <= k < frame.len(),
    ensures
        blended_upto(frame, o, fw, k, o.height as int, 0) == blended_byte(frame, o, fw, k),
{
}

/// A byte index inside the frame decomposes to coordinates inside it.
proof fn lemma_pixel_coords_in_frame(frame: Seq<u8>, fw: int, fh: int, k: int)
    requires
        fw > 0,
        0 <= k < frame.len(),
        frame.len() == fw * fh * 4,
    ensures
        0 <= (k / 4) / fw < fh,
        0 <= (k / 4) % fw < fw,
{
    let p = k / 4;
    assert(0 <= p < fw * fh) by (nonlinear_arith)
        requires
            0 <= k < fw * fh * 4,
            p == k / 4,
    ;
    vstd::arithmetic::div_mod::lemma_mod_bound(p, fw);
    vstd::arithmetic::div_mod::lemma_div_pos_is_pos(p, fw);
    assert(p / fw < fh) by (nonlinear_arith)
        requires
            fw > 0,
            0 <= p < fw * fh,
    ;
}

/// Blends a single overlay pixel at overlay coordinates `(ox, oy)`, which
/// lands on frame coordinates `(fx, fy)`.
#[verifier::rlimit(100)]
fn blend_one_pixel(
    frame_rgba: &mut Vec<u8>,
    fw: u32,
    fh: u32,
    overlay: &SubtitleOverlay,
    ox: u32,
    oy: u32,
    fx: u32,
    fy: u32,
)
    requires
        overlay.wf(),
        fw > 0 && fh > 0,
        ox < overlay.width,
        oy < overlay.height,
        fx < fw,
        fy < fh,
        fx == overlay.x + ox,
        fy == overlay.y + oy,
        old(frame_rgba)@.len() == fw * fh * 4,
        fw * fh * 4 <= usize::MAX,
    ensures
        final(frame_rgba)@.len() == old(frame_rgba)@.len(),
        forall|k: int|
            0 <= k < old(frame_rgba)@.len() ==> final(frame_rgba)@[k] == blended_upto_step(
                old(frame_rgba)@,
                *overlay,
                fw as int,
                k,
                oy as int,
                ox as int,
            ),
{
    proof {
        assert((oy as int) * (overlay.width as int) + (ox as int) < overlay.width * overlay.height)
            by (nonlinear_arith)
            requires
                ox < overlay.width,
                oy < overlay.height,
        ;
        assert((fy as int) * (fw as int) + (fx as int) < fw * fh) by (nonlinear_arith)
            requires
                fx < fw,
                fy < fh,
        ;
        lemma_row_major(fw as int, fx as int, fy as int);
        lemma_row_major(overlay.width as int, ox as int, oy as int);
    }
    let o_idx: usize = ((oy as usize) * (overlay.width as usize) + (ox as usize)) * 4;
    let f_idx: usize = ((fy as usize) * (fw as usize) + (fx as usize)) * 4;
    let sa: u32 = overlay.rgba_data[o_idx + 3] as u32;
    if sa == 0 {
        proof {
            lemma_blend_writes(old(frame_rgba)@, frame_rgba@, *overlay, fw as int, fh as int, ox as int, oy as int, f_idx as int);
        }
        return ;
    }
    let sr: u32 = overlay.rgba_data[o_idx] as u32;
    let sg: u32 = overlay.rgba_data[o_idx + 1] as u32;
    let sb: u32 = overlay.rgba_data[o_idx + 2] as u32;
    if sa == 255 {
        frame_rgba.set(f_idx, sr as u8);
        frame_rgba.set(f_idx + 1, sg as u8);
        frame_rgba.set(f_idx + 2, sb as u8);
        frame_rgba.set(f_idx + 3, 255);
    } else {
        let da: u32 = 255 - sa;
        let dr: u32 = frame_rgba[f_idx] as u32;
        let dg: u32 = frame_rgba[f_idx + 1] as u32;
        let db: u32 = frame_rgba[f_idx + 2] as u32;
        proof {
            lemma_blend_channel_in_range(sr as int, dr as int, sa as int);
            lemma_blend_channel_in_range(sg as int, dg as int, sa as int);
            lemma_blend_channel_in_range(sb as int, db as int, sa as int);
        }
        frame_rgba.set(f_idx, ((sr * sa + dr * da) / 255) as u8);
        frame_rgba.set(f_idx + 1, ((sg * sa + dg * da) / 255) as u8);
        frame_rgba.set(f_idx + 2, ((sb * sa + db * da) / 255) as u8);
        frame_rgba.set(f_idx + 3, 255);
    }
    proof {
        lemma_blend_writes(old(frame_rgba)@, frame_rgba@, *overlay, fw as int, fh as int, ox as int, oy as int, f_idx as int);
    }
}

/// Byte-index decomposition over pixels of four bytes.
proof fn lemma_byte_in_pixel(f_idx: int, p0: int, c: int)
    requires
        f_idx == 4 * p0,
        0 <= c < 4,
        0 <= p0,
    ensures
        (f_idx + c) / 4 == p0,
        (f_idx + c) % 4 == c,
{
    vstd::arithmetic::div_mod::lemma_fundamental_div_mod_converse(f_idx + c, 4, p0, c);
}

/// One sweep step: bytes of the pixel at `(ox, oy)` take their blended
/// value, everything else keeps the pre-step state.
pub open spec fn blended_upto_step(
    frame: Seq<u8>,
    o: SubtitleOverlay,
    fw: int,
    k: int,
    oy: int,
    ox: int,
) -> int {
    let p = k / 4;
    let fy = p / fw;
    let fx = p % fw;
    if fy - o.y == oy && fx - o.x == ox {
        blended_byte(frame, o, fw, k)
    } else {
        frame[k] as int
    }
}

/// The writes of one pixel realise exactly one sweep step.
proof fn lemma_blend_writes(
    pre: Seq<u8>,
    post: Seq<u8>,
    o: SubtitleOverlay,
    fw: int,
    fh: int,
    ox: int,
    oy: int,
    f_idx: int,
)
    requires
        fw > 0,
        0 <= ox < o.width,
        0 <= oy < o.height,
        0 <= o.x + ox < fw,
        0 <= o.y + oy < fh,
        o.rgba_data@.len() == o.width * o.height * 4,
        pre.len() == fw * fh * 4,
        post.len() == pre.len(),
        f_idx == 4 * ((o.y + oy) * fw + (o.x + ox)),
        ({
            let s_idx = 4 * (oy * o.width + ox);
            let a = o.rgba_data@[s_idx + 3] as int;
            let s = o.rgba_data@;
            if a == 0 {
                post == pre
            } else {
                &&& (a == 255 ==> {
                    &&& post[f_idx] == s[s_idx]
                    &&& post[f_idx + 1] == s[s_idx + 1]
                    &&& post[f_idx + 2] == s[s_idx + 2]
                })
                &&& (a != 255 ==> {
                    &&& post[f_idx] == blend_channel(s[s_idx] as int, pre[f_idx] as int, a)
                    &&& post[f_idx + 1] == blend_channel(
                        s[s_idx + 1] as int,
                        pre[f_idx + 1] as int,
                        a,
                    )
                    &&& post[f_idx + 2] == blend_channel(
                        s[s_idx + 2] as int,
                        pre[f_idx + 2] as int,
                        a,
                    )
                })
                &&& post[f_idx + 3] == 255
                &&& forall|k: int|
                    0 <= k < pre.len() && !(f_idx <= k < f_idx + 4) ==> post[k] == pre[k]
            }
        }),
    ensures
        forall|k: int|
            0 <= k < pre.len() ==> post[k] == blended_upto_step(pre, o, fw, k, oy, ox),
{
    let fx0 = o.x + ox;
    let fy0 = o.y + oy;
    let p0 = fy0 * fw + fx0;
    lemma_row_major(fw, fx0, fy0);
    let s_idx = 4 * (oy * o.width + ox);
    let a = o.rgba_data@[s_idx + 3] as int;
    assert(0 <= p0);
    assert forall|k: int| 0 <= k < pre.len() implies post[k] == blended_upto_step(
        pre,
        o,
        fw,
        k,
        oy,
        ox,
    ) by {
        let p = k / 4;
        let fy = p / fw;
        let fx = p % fw;
        if f_idx <= k < f_idx + 4 {
            let c = k - f_idx;
            lemma_byte_in_pixel(f_idx, p0, c);
            assert(p == p0 && k % 4 == c);
            assert(fy == fy0 && fx == fx0);
            assert(4 * ((fy - o.y) * o.width + (fx - o.x)) == s_idx);
            assert(blended_upto_step(pre, o, fw, k, oy, ox) == blended_byte(pre, o, fw, k));
        } else {
            if fy - o.y == oy && fx - o.x == ox {
                assert(p == fy * fw + fx) by {
                    vstd::arithmetic::div_mod::lemma_fundamental_div_mod(p, fw);
                }
                assert(p == p0);
                assert(4 * p <= k < 4 * p + 4) by {
                    vstd::arithmetic::div_mod::lemma_fundamental_div_mod(k, 4);
                    vstd::arithmetic::div_mod::lemma_mod_bound(k, 4);
                }
                assert(false);
            }
        }
    }
}

} // verus!
