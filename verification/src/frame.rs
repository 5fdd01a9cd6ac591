//! Decoded and rendered frames, and the pixel-buffer layouts they obey.

use vstd::prelude::*;

verus! {

/// Pixel format of a decoded frame's buffer.
#[derive(Debug, Clone, Copy, PartialEq, Eq, Structural)]
pub enum PixelFormat {
    RGBA,
    RGB,
    YUV420P,
}

/// Number of bytes a `width x height` buffer takes in a given format:
/// four bytes per pixel for RGBA, three for RGB, and the three-plane
/// 4:2:0 layout for YUV420P.
pub open spec fn buffer_len(format: PixelFormat, width: u32, height: u32) -> int {
    match format {
        PixelFormat::RGBA => width * height * 4,
        PixelFormat::RGB => width * height * 3,
        PixelFormat::YUV420P => width * height + 2 * ((width / 2) * (height / 2)),
    }
}

/// Dimensions small enough that any `buffer_len` fits in `usize`.
pub open spec fn dims_wf(width: u32, height: u32) -> bool {
    width * height * 4 <= usize::MAX
}

/// A frame decoded from a source file.
#[derive(Debug, Clone)]
pub struct Frame {
    pub width: u32,
    pub height: u32,
    pub format: PixelFormat,
    pub data: Vec<u8>,
    pub timestamp_ms: i64,
}

impl Frame {
    /// The pixel buffer matches the declared dimensions and format.
    pub open spec fn wf(self) -> bool {
        &&& dims_wf(self.width, self.height)
        &&& self.data@.len() == buffer_len(self.format, self.width, self.height)
    }

    /// Same dimensions, format, pixels and timestamp.
    pub open spec fn same_as(self, other: Frame) -> bool {
        &&& self.width == other.width
        &&& self.height == other.height
        &&& self.format == other.format
        &&& self.data@ == other.data@
        &&& self.timestamp_ms == other.timestamp_ms
    }
}

/// Copies a frame, field by field.
pub fn clone_frame(f: &Frame) -> (r: Frame)
    ensures
        r.same_as(*f),
{
    let data = clone_bytes(&f.data);
    Frame { width: f.width, height: f.height, format: f.format, data, timestamp_ms: f.timestamp_ms }
}

/// Copies a byte vector; `u8` is `Copy`, so the clone holds the same bytes.
pub fn clone_bytes(v: &Vec<u8>) -> (r: Vec<u8>)
    ensures
        r@ == v@,
{
    let r = v.clone();
    assert(r@ =~= v@);
    r
}

/// A frame produced by the renderer. `data` is RGBA when `is_yuv` is false
/// and YUV420P when it is true; `timestamp_ms` is timeline time.
#[derive(Debug, Clone)]
pub struct RenderedFrame {
    pub width: u32,
    pub height: u32,
    pub data: Vec<u8>,
    pub timestamp_ms: i64,
    pub is_yuv: bool,
}

impl RenderedFrame {
    pub open spec fn spec_format(self) -> PixelFormat {
        if self.is_yuv {
            PixelFormat::YUV420P
        } else {
            PixelFormat::RGBA
        }
    }

    /// The pixel buffer matches the dimensions and the `is_yuv` flag.
    pub open spec fn wf(self) -> bool {
        &&& dims_wf(self.width, self.height)
        &&& self.data@.len() == buffer_len(self.spec_format(), self.width, self.height)
    }

    /// Same dimensions, pixels and flag; the timestamp may differ.
    pub open spec fn same_image(self, other: RenderedFrame) -> bool {
        &&& self.width == other.width
        &&& self.height == other.height
        &&& self.data@ == other.data@
        &&& self.is_yuv == other.is_yuv
    }

    /// Same image and same timestamp.
    pub open spec fn same_as(self, other: RenderedFrame) -> bool {
        &&& self.same_image(other)
        &&& self.timestamp_ms == other.timestamp_ms
    }
}

/// Copies a rendered frame, field by field.
pub fn clone_rendered(f: &RenderedFrame) -> (r: RenderedFrame)
    ensures
        r.same_as(*f),
{
    let data = clone_bytes(&f.data);
    RenderedFrame {
        width: f.width,
        height: f.height,
        data,
        timestamp_ms: f.timestamp_ms,
        is_yuv: f.is_yuv,
    }
}

/// A black preview frame at the fixed preview resolution, 960x540 RGBA.
pub fn black_frame(timestamp_ms: i64) -> (r: RenderedFrame)
    ensures
        r.width == 960 && r.height == 540,
        r.wf(),
        !r.is_yuv,
        r.timestamp_ms == timestamp_ms,
        forall|i: int| 0 <= i < r.data@.len() ==> r.data@[i] == 0,
{
    black_frame_with_size(960, 540, timestamp_ms)
}

/// A black RGBA frame of the given size: every byte zero.
pub fn black_frame_with_size(width: u32, height: u32, timestamp_ms: i64) -> (r: RenderedFrame)
    requires
        dims_wf(width, height),
    ensures
        r.width == width && r.height == height,
        r.wf(),
        !r.is_yuv,
        r.timestamp_ms == timestamp_ms,
        forall|i: int| 0 <= i < r.data@.len() ==> r.data@[i] == 0,
{
    let len: usize = (width as usize) * (height as usize) * 4;
    let data: Vec<u8> = vec_filled(0u8, len);
    RenderedFrame { width, height, data, timestamp_ms, is_yuv: false }
}

/// A black YUV420P frame of the given size: the luma plane zero, both
/// chroma planes at the neutral value 128.
pub fn black_frame_yuv(width: u32, height: u32, timestamp_ms: i64) -> (r: RenderedFrame)
    requires
        dims_wf(width, height),
    ensures
        r.width == width && r.height == height,
        r.wf(),
        r.is_yuv,
        r.timestamp_ms == timestamp_ms,
        forall|i: int| 0 <= i < width * height ==> r.data@[i] == 0,
        forall|i: int| width * height <= i < r.data@.len() ==> r.data@[i] == 128,
{
    proof {
        assert((width / 2) * (height / 2) <= width * height) by (nonlinear_arith);
    }
    let y_size: usize = (width as usize) * (height as usize);
    let uv_size: usize = ((width / 2) as usize) * ((height / 2) as usize);
    let mut data: Vec<u8> = vec_filled(0u8, y_size + uv_size * 2);
    let mut i: usize = y_size;
    while i < data.len()
        invariant
            y_size <= i <= data@.len(),
            data@.len() == y_size + uv_size * 2,
            forall|j: int| 0 <= j < y_size ==> data@[j] == 0,
            forall|j: int| y_size <= j < i ==> data@[j] == 128,
        decreases data@.len() - i,
    {
        data.set(i, 128);
        i = i + 1;
    }
    RenderedFrame { width, height, data, timestamp_ms, is_yuv: true }
}

/// A vector of `len` copies of `value`.
pub fn vec_filled(value: u8, len: usize) -> (r: Vec<u8>)
    ensures
        r@.len() == len,
        forall|i: int| 0 <= i < len ==> r@[i] == value,
{
    let mut r: Vec<u8> = Vec::new();
    let mut i: usize = 0;
    while i < len
        invariant
            i <= len,
            r@.len() == i,
            forall|j: int| 0 <= j < i ==> r@[j] == value,
        decreases len - i,
    {
        r.push(value);
        i = i + 1;
    }
    r
}

} // verus!
