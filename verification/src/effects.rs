//! Per-clip colour effects on RGBA pixels: brightness, contrast, saturation
//! and temperature, applied in that fixed order to the colour channels only.
//!
//! Parameters are held in thousandths (`-1000..=1000` standing for the range
//! `-1.0..=1.0`), and the per-pixel arithmetic is fixed-point integer math
//! with floor division.

use vstd::prelude::*;

verus! {

/// Per-clip effect parameters in thousandths; all zero means "no effect".
#[derive(Debug, Clone, Copy, PartialEq, Eq, Structural)]
pub struct EffectParams {
    pub brightness_milli: i32,
    pub contrast_milli: i32,
    pub saturation_milli: i32,
    pub temperature_milli: i32,
}

impl Default for EffectParams {
    fn default() -> (p: Self)
        ensures
            p.brightness_milli == 0,
            p.contrast_milli == 0,
            p.saturation_milli == 0,
            p.temperature_milli == 0,
    {
        Self { brightness_milli: 0, contrast_milli: 0, saturation_milli: 0, temperature_milli: 0 }
    }
}

impl EffectParams {
    /// Each parameter stays within one unit.
    pub open spec fn wf(self) -> bool {
        &&& -1000 <= self.brightness_milli <= 1000
        &&& -1000 <= self.contrast_milli <= 1000
        &&& -1000 <= self.saturation_milli <= 1000
        &&& -1000 <= self.temperature_milli <= 1000
    }

    pub open spec fn spec_is_default(self) -> bool {
        &&& self.brightness_milli == 0
        &&& self.contrast_milli == 0
        &&& self.saturation_milli == 0
        &&& self.temperature_milli == 0
    }

    /// True exactly when every parameter is smaller than one thousandth in
    /// magnitude, which in this representation means zero: the whole effect
    /// pass is then skipped.
    pub fn is_default(&self) -> (r: bool)
        ensures
            r == self.spec_is_default(),
    {
        self.brightness_milli == 0 && self.contrast_milli == 0 && self.saturation_milli == 0
            && self.temperature_milli == 0
    }
}

/// Floor of `x / 1000`, stated without negative division.
pub open spec fn floor_div_1000(x: int) -> int {
    (x + 10_000_000) / 1000 - 10_000
}

/// Floor of `x / 10000`, stated without negative division.
pub open spec fn floor_div_10000(x: int) -> int {
    (x + 100_000_000) / 10000 - 10_000
}

pub open spec fn clamp_255(x: int) -> int {
    if x < 0 {
        0
    } else if x > 255 {
        255
    } else {
        x
    }
}

/// The colour a single pixel takes: brightness offset, then contrast around
/// 128, then saturation around BT.709 luminance, then a temperature shift on
/// red and blue, each stage skipped when its parameter is negligible, and a
/// final clamp to `0..=255`.
pub open spec fn effect_rgb(p: EffectParams, r0: int, g0: int, b0: int) -> (int, int, int) {
    let off = floor_div_1000(p.brightness_milli * 255);
    let r1 = if p.brightness_milli != 0 { r0 + off } else { r0 };
    let g1 = if p.brightness_milli != 0 { g0 + off } else { g0 };
    let b1 = if p.brightness_milli != 0 { b0 + off } else { b0 };
    let cf = 1000 + p.contrast_milli;
    let apply_c = p.contrast_milli > 1 || p.contrast_milli < -1;
    let r2 = if apply_c { 128 + floor_div_1000((r1 - 128) * cf) } else { r1 };
    let g2 = if apply_c { 128 + floor_div_1000((g1 - 128) * cf) } else { g1 };
    let b2 = if apply_c { 128 + floor_div_1000((b1 - 128) * cf) } else { b1 };
    let sf = 1000 + p.saturation_milli;
    let apply_s = p.saturation_milli > 1 || p.saturation_milli < -1;
    let lum = floor_div_10000(2126 * r2 + 7152 * g2 + 722 * b2);
    let r3 = if apply_s { lum + floor_div_1000((r2 - lum) * sf) } else { r2 };
    let g3 = if apply_s { lum + floor_div_1000((g2 - lum) * sf) } else { g2 };
    let b3 = if apply_s { lum + floor_div_1000((b2 - lum) * sf) } else { b2 };
    let td = floor_div_1000(p.temperature_milli * 30);
    let apply_t = p.temperature_milli * 30 > 100 || p.temperature_milli * 30 < -100;
    let r4 = if apply_t { r3 + td } else { r3 };
    let b4 = if apply_t { b3 - td } else { b3 };
    (clamp_255(r4), clamp_255(g3), clamp_255(b4))
}

/// What each byte of the buffer becomes: colour channels take the effect
/// output of their pixel, alpha bytes keep their value.
pub open spec fn effected_byte(orig: Seq<u8>, p: EffectParams, k: int) -> int {
    let base = 4 * (k / 4);
    let rgb = effect_rgb(p, orig[base] as int, orig[base + 1] as int, orig[base + 2] as int);
    if k % 4 == 0 {
        rgb.0
    } else if k % 4 == 1 {
        rgb.1
    } else if k % 4 == 2 {
        rgb.2
    } else {
        orig[k] as int
    }
}

/// Floor of `x / 1000` as executable code.
fn div_1000(x: i64) -> (r: i64)
    requires
        -10_000_000 <= x <= 10_000_000,
    ensures
        r == floor_div_1000(x as int),
{
    (x + 10_000_000) / 1000 - 10_000
}

/// Floor of `x / 10000` as executable code.
fn div_10000(x: i64) -> (r: i64)
    requires
        -100_000_000 <= x <= 100_000_000,
    ensures
        r == floor_div_10000(x as int),
{
    (x + 100_000_000) / 10000 - 10_000
}

fn clamp_byte(x: i64) -> (r: u8)
    ensures
        r == clamp_255(x as int),
{
    if x < 0 {
        0
    } else if x > 255 {
        255
    } else {
        x as u8
    }
}

/// Applies the effect pass to an RGBA buffer in place. When every parameter
/// is negligible, or the buffer is shorter than the pixel area claims, the
/// bytes are left untouched.
#[verifier::rlimit(60)]
pub fn apply_effects(data: &mut Vec<u8>, width: u32, height: u32, params: &EffectParams)
    requires
        params.wf(),
        width * height * 4 <= usize::MAX,
    ensures
        final(data)@.len() == old(data)@.len(),
        params.spec_is_default() ==> final(data)@ == old(data)@,
        old(data)@.len() < width * height * 4 ==> final(data)@ == old(data)@,
        !params.spec_is_default() && old(data)@.len() >= width * height * 4 ==> {
            &&& forall|k: int|
                0 <= k < width * height * 4 ==> final(data)@[k] == effected_byte(
                    old(data)@,
                    *params,
                    k,
                )
            &&& forall|k: int|
                width * height * 4 <= k < old(data)@.len() ==> final(data)@[k] == old(data)@[k]
        },
{
    if params.is_default() {
        return ;
    }
    let pixel_count: usize = (width as usize) * (height as usize);
    if data.len() < pixel_count * 4 {
        return ;
    }
    let mut i: usize = 0;
    while i < pixel_count
        invariant
            params.wf(),
            !params.spec_is_default(),
            0 <= i <= pixel_count,
            pixel_count * 4 <= old(data)@.len(),
            old(data)@.len() <= usize::MAX,
            pixel_count == width * height,
            data@.len() == old(data)@.len(),
            forall|k: int| 0 <= k < 4 * i ==> data@[k] == effected_byte(old(data)@, *params, k),
            forall|k: int| 4 * i <= k < old(data)@.len() ==> data@[k] == old(data)@[k],
        decreases pixel_count - i,
    {
        let idx: usize = i * 4;
        let r0 = data[idx] as i64;
        let g0 = data[idx + 1] as i64;
        let b0 = data[idx + 2] as i64;
        proof {
            assert(data@[idx as int] == old(data)@[idx as int]);
            assert(data@[idx as int + 1] == old(data)@[idx as int + 1]);
            assert(data@[idx as int + 2] == old(data)@[idx as int + 2]);
        }

        let mut r: i64 = r0;
        let mut g: i64 = g0;
        let mut b: i64 = b0;

        // Brightness: a plain offset on all three channels.
        if params.brightness_milli != 0 {
            let off = div_1000((params.brightness_milli as i64) * 255);
            proof {
                assert(-255 <= off <= 255);
            }
            r = r + off;
            g = g + off;
            b = b + off;
        }
        proof {
            assert(-255 <= r <= 510 && -255 <= g <= 510 && -255 <= b <= 510);
        }

        // Contrast: scale the distance from mid grey.
        if params.contrast_milli > 1 || params.contrast_milli < -1 {
            let cf = 1000 + params.contrast_milli as i64;
            proof {
                assert(0 <= cf <= 2000);
                assert(-1_000_000 <= (r - 128) * cf <= 1_000_000) by (nonlinear_arith)
                    requires
                        -383 <= r - 128 <= 382,
                        0 <= cf <= 2000,
                ;
                assert(-1_000_000 <= (g - 128) * cf <= 1_000_000) by (nonlinear_arith)
                    requires
                        -383 <= g - 128 <= 382,
                        0 <= cf <= 2000,
                ;
                assert(-1_000_000 <= (b - 128) * cf <= 1_000_000) by (nonlinear_arith)
                    requires
                        -383 <= b - 128 <= 382,
                        0 <= cf <= 2000,
                ;
            }
            r = 128 + div_1000((r - 128) * cf);
            g = 128 + div_1000((g - 128) * cf);
            b = 128 + div_1000((b - 128) * cf);
        }
        proof {
            assert(-880 <= r <= 1130 && -880 <= g <= 1130 && -880 <= b <= 1130);
        }

        // Saturation: scale the distance from BT.709 luminance.
        if params.saturation_milli > 1 || params.saturation_milli < -1 {
            let sf = 1000 + params.saturation_milli as i64;
            let lum = div_10000(2126 * r + 7152 * g + 722 * b);
            proof {
                assert(-890 <= lum <= 1140);
                assert(-5_000_000 <= (r - lum) * sf <= 5_000_000) by (nonlinear_arith)
                    requires
                        -2020 <= r - lum <= 2020,
                        0 <= sf <= 2000,
                ;
                assert(-5_000_000 <= (g - lum) * sf <= 5_000_000) by (nonlinear_arith)
                    requires
                        -2020 <= g - lum <= 2020,
                        0 <= sf <= 2000,
                ;
                assert(-5_000_000 <= (b - lum) * sf <= 5_000_000) by (nonlinear_arith)
                    requires
                        -2020 <= b - lum <= 2020,
                        0 <= sf <= 2000,
                ;
            }
            r = lum + div_1000((r - lum) * sf);
            g = lum + div_1000((g - lum) * sf);
            b = lum + div_1000((b - lum) * sf);
        }

        // Temperature: warm shifts red up and blue down; cool the reverse.
        if params.temperature_milli as i64 * 30 > 100 || params.temperature_milli as i64 * 30
            < -100 {
            let td = div_1000(params.temperature_milli as i64 * 30);
            proof {
                assert(-30 <= td <= 30);
            }
            r = r + td;
            b = b - td;
        }

        let ghost rgb = effect_rgb(
            *params,
            old(data)@[idx as int] as int,
            old(data)@[idx as int + 1] as int,
            old(data)@[idx as int + 2] as int,
        );
        proof {
            assert(rgb.0 == clamp_255(r as int) && rgb.1 == clamp_255(g as int) && rgb.2
                == clamp_255(b as int));
        }
        let rc = clamp_byte(r);
        let gc = clamp_byte(g);
        let bc = clamp_byte(b);
        data.set(idx, rc);
        data.set(idx + 1, gc);
        data.set(idx + 2, bc);
        proof {
            assert forall|k: int| 0 <= k < 4 * (i + 1) implies data@[k] == effected_byte(
                old(data)@,
                *params,
                k,
            ) by {
                if k < 4 * i {
                } else {
                    assert(4 * (k / 4) == idx as int);
                }
            }
        }
        i = i + 1;
    }
}

} // verus!
