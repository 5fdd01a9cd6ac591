//! The per-file decoder state machine. Container and codec I/O live outside
//! this crate; this module decides, step by step, what that I/O has to do:
//! whether a request is served from memoised end-of-stream state, whether it
//! needs a seek, what presentation-time target the packet reader must reach,
//! and how each outcome changes the decoder state.

use vstd::prelude::*;
use crate::frame::{clone_frame, dims_wf, Frame};

verus! {

/// The three decoder states.
#[derive(Debug, Clone, Copy, PartialEq, Eq, Structural)]
pub enum DecoderState {
    Ready,
    EndOfStream,
    Error,
}

/// The outcome of one frame request, distinguishing recoverable conditions
/// from frames.
#[derive(Debug)]
pub enum DecodeResult {
    /// A freshly decoded frame.
    Frame(Frame),
    /// Decoding failed but the stream is usable; the caller may reuse its
    /// previous frame.
    FrameSkipped,
    /// End of stream; the last good frame is handed back.
    EndOfStream(Frame),
    /// End of stream with no frame ever decoded.
    EndOfStreamEmpty,
}

/// What a frame request asks of the packet-reading layer next.
#[derive(Debug)]
pub enum DecodeStep {
    /// The request is answered without touching the container.
    Done(DecodeResult),
    /// Seek backward-biased to `target_ms`, then resume.
    Seek { target_ms: i64 },
    /// Read and decode packets. `target` is `None` on the immediate path
    /// (accept the next frame); otherwise the pair `(target_ms, tolerance_ms)`
    /// that an acceptable frame's presentation time must reach.
    Read { target: Option<(i64, i64)> },
}

/// What the packet-reading layer came back with.
#[derive(Debug)]
pub enum ReadOutcome {
    /// An acceptable frame was produced and converted.
    Produced(Frame),
    /// The packet source drained without an acceptable frame: end of stream.
    Drained,
    /// The per-request packet cap was reached before an acceptable frame.
    CapReached,
}

/// Frame period in milliseconds for a rate in thousandths of a frame per
/// second: `1000 / fps`, at least 1; unbounded when the rate is zero.
pub open spec fn spec_frame_duration_ms(fps_milli: u64) -> int {
    if fps_milli == 0 {
        i64::MAX as int
    } else if 1_000_000int / (fps_milli as int) < 1 {
        1
    } else {
        1_000_000int / (fps_milli as int)
    }
}

pub fn frame_duration_ms(fps_milli: u64) -> (r: i64)
    ensures
        r == spec_frame_duration_ms(fps_milli),
{
    if fps_milli == 0 {
        i64::MAX
    } else {
        let d = 1_000_000u64 / fps_milli;
        if d < 1 {
            1
        } else {
            d as i64
        }
    }
}

/// The result handed out when the container is not touched: the retained
/// last frame, or the empty end-of-stream marker.
pub open spec fn is_eos_of(r: DecodeResult, last: Option<Frame>) -> bool {
    match (r, last) {
        (DecodeResult::EndOfStream(f), Some(g)) => f.same_as(g),
        (DecodeResult::EndOfStreamEmpty, None) => true,
        _ => false,
    }
}

/// The result handed out after a failed seek: skip if any frame was ever
/// decoded, the empty end-of-stream marker otherwise.
pub open spec fn is_skip_of(r: DecodeResult, last: Option<Frame>) -> bool {
    match (r, last) {
        (DecodeResult::FrameSkipped, Some(_)) => true,
        (DecodeResult::EndOfStreamEmpty, None) => true,
        _ => false,
    }
}

/// The state of one per-file video decoder. Output resolution and frame
/// rate are fixed when the source is opened.
#[derive(Debug)]
pub struct Decoder {
    pub width: u32,
    pub height: u32,
    pub fps_milli: u64,
    pub duration_ms: i64,
    pub last_timestamp_ms: i64,
    pub forward_threshold_ms: i64,
    pub state: DecoderState,
    pub last_decoded_frame: Option<Frame>,
    pub eof_timestamp_ms: Option<i64>,
}

impl Decoder {
    pub open spec fn wf(self) -> bool {
        &&& dims_wf(self.width, self.height)
        &&& self.last_timestamp_ms >= -1
        &&& match self.last_decoded_frame {
            Some(f) => f.wf(),
            None => true,
        }
    }

    /// A decoder fresh from opening a source: ready, nothing decoded yet,
    /// scrub-grade forward threshold.
    pub fn new(width: u32, height: u32, fps_milli: u64, duration_ms: i64) -> (d: Self)
        requires
            dims_wf(width, height),
        ensures
            d.wf(),
            d.width == width,
            d.height == height,
            d.fps_milli == fps_milli,
            d.duration_ms == duration_ms,
            d.last_timestamp_ms == -1,
            d.forward_threshold_ms == 100,
            d.state == DecoderState::Ready,
            d.last_decoded_frame is None,
            d.eof_timestamp_ms is None,
    {
        Self {
            width,
            height,
            fps_milli,
            duration_ms,
            last_timestamp_ms: -1,
            forward_threshold_ms: 100,
            state: DecoderState::Ready,
            last_decoded_frame: None,
            eof_timestamp_ms: None,
        }
    }

    /// The largest forward gap served by decoding ahead instead of seeking.
    pub fn set_forward_threshold(&mut self, threshold_ms: i64)
        requires
            old(self).wf(),
        ensures
            final(self).wf(),
            *final(self) == (Self { forward_threshold_ms: threshold_ms, ..*old(self) }),
    {
        self.forward_threshold_ms = threshold_ms;
    }

    pub fn width(&self) -> (r: u32)
        ensures
            r == self.width,
    {
        self.width
    }

    pub fn height(&self) -> (r: u32)
        ensures
            r == self.height,
    {
        self.height
    }

    pub fn fps_milli(&self) -> (r: u64)
        ensures
            r == self.fps_milli,
    {
        self.fps_milli
    }

    pub fn duration_ms(&self) -> (r: i64)
        ensures
            r == self.duration_ms,
    {
        self.duration_ms
    }

    pub fn state(&self) -> (r: DecoderState)
        ensures
            r == self.state,
    {
        self.state
    }

    /// Request gap to the previous request.
    pub open spec fn spec_gap(self, t: i64) -> int {
        t - self.last_timestamp_ms
    }

    /// Immediate path: ready, moving forward by at most two frame periods.
    /// The next decoded frame is the answer, with no seek and no target.
    pub open spec fn spec_is_immediate(self, t: i64) -> bool {
        &&& self.state == DecoderState::Ready
        &&& 0 <= self.spec_gap(t) <= 2 * spec_frame_duration_ms(self.fps_milli)
    }

    /// Forward path: ready, moving forward within the threshold. No seek,
    /// but frames are drained until the target presentation time.
    pub open spec fn spec_is_forward(self, t: i64) -> bool {
        &&& self.state == DecoderState::Ready
        &&& 2 * spec_frame_duration_ms(self.fps_milli) < self.spec_gap(t)
            <= self.forward_threshold_ms
    }

    /// Starts one frame request. Without touching the container this either
    /// answers from the error state or the memoised end of stream, or says
    /// what the packet layer must do: read ahead (immediate and forward
    /// paths) or seek first (backward moves and jumps past the threshold).
    /// A request before the memoised end-of-stream position clears it.
    pub fn begin_decode(&mut self, timestamp_ms: i64) -> (step: DecodeStep)
        requires
            old(self).wf(),
            0 <= timestamp_ms < i64::MAX,
        ensures
            final(self).wf(),
            final(self).width == old(self).width && final(self).height == old(self).height,
            final(self).fps_milli == old(self).fps_milli,
            final(self).duration_ms == old(self).duration_ms,
            final(self).forward_threshold_ms == old(self).forward_threshold_ms,
            final(self).last_decoded_frame == old(self).last_decoded_frame,
            old(self).state == DecoderState::Error ==> {
                &&& *final(self) == *old(self)
                &&& step matches DecodeStep::Done(r) && is_eos_of(r, old(self).last_decoded_frame)
            },
            old(self).state != DecoderState::Error && (old(self).eof_timestamp_ms matches Some(e)
                && timestamp_ms >= e) ==> {
                &&& *final(self) == *old(self)
                &&& step matches DecodeStep::Done(r) && is_eos_of(r, old(self).last_decoded_frame)
            },
            (old(self).state != DecoderState::Error && (old(self).eof_timestamp_ms is None
                || (old(self).eof_timestamp_ms matches Some(e) && timestamp_ms < e))) ==> {
                let cleared = (Self { eof_timestamp_ms: None, ..*old(self) });
                &&& final(self).eof_timestamp_ms is None
                &&& final(self).state == old(self).state
                &&& (cleared.spec_is_immediate(timestamp_ms) ==> {
                    &&& final(self).last_timestamp_ms == timestamp_ms
                    &&& step matches DecodeStep::Read { target } && target is None
                })
                &&& (cleared.spec_is_forward(timestamp_ms) ==> {
                    &&& final(self).last_timestamp_ms == timestamp_ms
                    &&& step matches DecodeStep::Read { target } && target == Some(
                        (
                            timestamp_ms,
                            spec_frame_duration_ms(old(self).fps_milli) as i64,
                        ),
                    )
                })
                &&& (!cleared.spec_is_immediate(timestamp_ms) && !cleared.spec_is_forward(
                    timestamp_ms,
                ) ==> {
                    &&& final(self).last_timestamp_ms == old(self).last_timestamp_ms
                    &&& step matches DecodeStep::Seek { target_ms } && target_ms == timestamp_ms
                })
            },
    {
        if matches!(self.state, DecoderState::Error) {
            return DecodeStep::Done(self.eos_fallback());
        }
        if let Some(e) = self.eof_timestamp_ms {
            if timestamp_ms >= e {
                return DecodeStep::Done(self.eos_fallback());
            }
            self.eof_timestamp_ms = None;
        }
        let fd = frame_duration_ms(self.fps_milli);
        let twice: i64 = if fd > i64::MAX / 2 {
            i64::MAX
        } else {
            fd * 2
        };
        let is_ahead = matches!(self.state, DecoderState::Ready) && timestamp_ms
            >= self.last_timestamp_ms;
        if is_ahead {
            let gap = timestamp_ms - self.last_timestamp_ms;
            if gap <= twice {
                self.last_timestamp_ms = timestamp_ms;
                return DecodeStep::Read { target: None };
            }
            if gap <= self.forward_threshold_ms {
                self.last_timestamp_ms = timestamp_ms;
                return DecodeStep::Read { target: Some((timestamp_ms, fd)) };
            }
        }
        DecodeStep::Seek { target_ms: timestamp_ms }
    }

    /// Continues a frame request after the packet layer performed the seek
    /// that `begin_decode` asked for. A successful seek recovers the decoder
    /// to ready, clears the end-of-stream memo and reads toward the target;
    /// a failed one (after the packet layer's own retry) parks the decoder
    /// in the error state and skips the frame.
    pub fn resume_after_seek(&mut self, timestamp_ms: i64, seek_ok: bool) -> (step: DecodeStep)
        requires
            old(self).wf(),
            0 <= timestamp_ms < i64::MAX,
        ensures
            final(self).wf(),
            final(self).width == old(self).width && final(self).height == old(self).height,
            final(self).fps_milli == old(self).fps_milli,
            final(self).duration_ms == old(self).duration_ms,
            final(self).forward_threshold_ms == old(self).forward_threshold_ms,
            final(self).last_decoded_frame == old(self).last_decoded_frame,
            seek_ok ==> {
                &&& final(self).state == DecoderState::Ready
                &&& final(self).eof_timestamp_ms is None
                &&& final(self).last_timestamp_ms == timestamp_ms
                &&& step matches DecodeStep::Read { target } && target == Some(
                    (timestamp_ms, spec_frame_duration_ms(old(self).fps_milli) as i64),
                )
            },
            !seek_ok ==> {
                &&& final(self).state == DecoderState::Error
                &&& final(self).eof_timestamp_ms == old(self).eof_timestamp_ms
                &&& final(self).last_timestamp_ms == old(self).last_timestamp_ms
                &&& step matches DecodeStep::Done(r) && is_skip_of(
                    r,
                    old(self).last_decoded_frame,
                )
            },
    {
        if seek_ok {
            self.state = DecoderState::Ready;
            self.eof_timestamp_ms = None;
            self.last_timestamp_ms = timestamp_ms;
            let fd = frame_duration_ms(self.fps_milli);
            DecodeStep::Read { target: Some((timestamp_ms, fd)) }
        } else {
            self.state = DecoderState::Error;
            match &self.last_decoded_frame {
                Some(_) => DecodeStep::Done(DecodeResult::FrameSkipped),
                None => DecodeStep::Done(DecodeResult::EndOfStreamEmpty),
            }
        }
    }

    /// Finishes a frame request from what the packet layer produced. A frame
    /// is retained and returned; a drained source memoises end of stream at
    /// the requested time; hitting the packet cap skips the frame.
    pub fn finish_decode(&mut self, timestamp_ms: i64, outcome: ReadOutcome) -> (r: DecodeResult)
        requires
            old(self).wf(),
            outcome matches ReadOutcome::Produced(f) ==> f.wf(),
        ensures
            final(self).wf(),
            final(self).width == old(self).width && final(self).height == old(self).height,
            final(self).fps_milli == old(self).fps_milli,
            final(self).duration_ms == old(self).duration_ms,
            final(self).forward_threshold_ms == old(self).forward_threshold_ms,
            final(self).last_timestamp_ms == old(self).last_timestamp_ms,
            match outcome {
                ReadOutcome::Produced(f) => {
                    &&& final(self).state == DecoderState::Ready
                    &&& final(self).eof_timestamp_ms == old(self).eof_timestamp_ms
                    &&& final(self).last_decoded_frame matches Some(g) && g.same_as(f)
                    &&& r matches DecodeResult::Frame(out) && out.same_as(f)
                },
                ReadOutcome::Drained => {
                    &&& final(self).state == DecoderState::EndOfStream
                    &&& final(self).eof_timestamp_ms == Some(timestamp_ms)
                    &&& final(self).last_decoded_frame == old(self).last_decoded_frame
                    &&& is_eos_of(r, old(self).last_decoded_frame)
                },
                ReadOutcome::CapReached => {
                    &&& *final(self) == *old(self)
                    &&& r is FrameSkipped
                },
            },
    {
        match outcome {
            ReadOutcome::Produced(f) => {
                self.last_decoded_frame = Some(clone_frame(&f));
                self.state = DecoderState::Ready;
                DecodeResult::Frame(f)
            },
            ReadOutcome::Drained => {
                self.state = DecoderState::EndOfStream;
                self.eof_timestamp_ms = Some(timestamp_ms);
                self.eos_fallback()
            },
            ReadOutcome::CapReached => DecodeResult::FrameSkipped,
        }
    }

    /// Recovery transition of a backward-biased seek performed outside:
    /// success returns the decoder to ready and clears the end-of-stream
    /// memo; failure after retry parks it in the error state.
    pub fn seek(&mut self, seek_ok: bool)
        requires
            old(self).wf(),
        ensures
            final(self).wf(),
            final(self).width == old(self).width && final(self).height == old(self).height,
            final(self).fps_milli == old(self).fps_milli,
            final(self).duration_ms == old(self).duration_ms,
            final(self).forward_threshold_ms == old(self).forward_threshold_ms,
            final(self).last_decoded_frame == old(self).last_decoded_frame,
            final(self).last_timestamp_ms == old(self).last_timestamp_ms,
            seek_ok ==> final(self).state == DecoderState::Ready && final(self).eof_timestamp_ms
                is None,
            !seek_ok ==> final(self).state == DecoderState::Error && final(self).eof_timestamp_ms
                == old(self).eof_timestamp_ms,
    {
        if seek_ok {
            self.state = DecoderState::Ready;
            self.eof_timestamp_ms = None;
        } else {
            self.state = DecoderState::Error;
        }
    }

    /// The no-new-frame answer: the retained frame or the empty marker.
    fn eos_fallback(&self) -> (r: DecodeResult)
        requires
            self.wf(),
        ensures
            is_eos_of(r, self.last_decoded_frame),
    {
        match &self.last_decoded_frame {
            Some(f) => DecodeResult::EndOfStream(clone_frame(f)),
            None => DecodeResult::EndOfStreamEmpty,
        }
    }
}

/// Presentation-time acceptance: without a target every frame is accepted;
/// with one, a frame is accepted when its presentation time reaches the
/// target minus the tolerance, or carries no presentation time at all.
pub open spec fn spec_pts_accepts(target: Option<(i64, i64)>, pts: Option<i64>) -> bool {
    match target {
        None => true,
        Some((target_pts, tolerance)) => match pts {
            Some(p) => p >= target_pts - tolerance,
            None => true,
        },
    }
}

pub fn pts_accepts(target: Option<(i64, i64)>, pts: Option<i64>) -> (r: bool)
    requires
        target matches Some((tp, tol)) ==> 0 <= tol && tp >= i64::MIN + tol,
    ensures
        r == spec_pts_accepts(target, pts),
{
    match target {
        None => true,
        Some((target_pts, tolerance)) => match pts {
            Some(p) => p >= target_pts - tolerance,
            None => true,
        },
    }
}

/// Milliseconds converted to a stream's own time base.
pub fn ms_to_stream_ts(ms: i64, tb_num: i64, tb_den: i64) -> (r: i64)
    requires
        0 <= ms,
        0 < tb_num,
        0 < tb_den,
        ms * tb_den <= i64::MAX,
        tb_num * 1000 <= i64::MAX,
    ensures
        r == ms * tb_den / (tb_num * 1000),
{
    proof {
        assert(ms * tb_den >= 0) by (nonlinear_arith)
            requires
                ms >= 0,
                tb_den > 0,
        ;
    }
    (ms * tb_den) / (tb_num * 1000)
}

/// A stream's duration in milliseconds: the stream duration scaled by its
/// time base when present, the container duration in microseconds as the
/// fallback, zero when neither is known.
pub fn duration_from_stream(
    stream_duration: i64,
    tb_num: i64,
    tb_den: i64,
    container_duration_us: i64,
) -> (r: i64)
    requires
        0 < tb_num,
        0 < tb_den,
        stream_duration > 0 ==> stream_duration * tb_num <= i64::MAX && stream_duration * tb_num
            * 1000 <= i64::MAX,
    ensures
        stream_duration > 0 ==> r == (stream_duration as int) * (tb_num as int) * 1000 / (tb_den as int),
        stream_duration <= 0 && container_duration_us > 0 ==> r == container_duration_us / 1000,
        stream_duration <= 0 && container_duration_us <= 0 ==> r == 0,
{
    if stream_duration > 0 {
        proof {
            assert(stream_duration * tb_num >= 0) by (nonlinear_arith)
                requires
                    stream_duration > 0,
                    tb_num > 0,
            ;
            assert(stream_duration * tb_num * 1000 >= 0) by (nonlinear_arith)
                requires
                    stream_duration * tb_num >= 0,
            ;
        }
        (stream_duration * tb_num * 1000) / tb_den
    } else if container_duration_us > 0 {
        container_duration_us / 1000
    } else {
        0
    }
}

} // verus!
