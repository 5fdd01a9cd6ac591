//! The renderer: timeline time to a finished frame, through the clip
//! resolution, the frame cache, the per-path decoders (driven outside this
//! crate), the effect pass and the fallback frame.

use vstd::prelude::*;
use std::collections::HashMap;
use crate::cache::{contains_key, index_of_key, lookup, FrameCache};
use crate::clip::VideoClip;
use crate::decoder::DecodeResult;
use crate::effects::{apply_effects, effected_byte, EffectParams};
use crate::frame::{
    black_frame, black_frame_yuv, clone_rendered, dims_wf, PixelFormat, RenderedFrame,
};
use crate::timeline::Timeline;
use crate::track::{first_video_clip_at, VideoTrack};

verus! {

/// The first enabled track's active clip at `t`, scanning tracks bottom up.
pub open spec fn first_active_clip(tracks: Seq<VideoTrack>, time_ms: i64) -> Option<VideoClip>
    decreases tracks.len(),
{
    if tracks.len() == 0 {
        None
    } else if tracks[0].enabled && first_video_clip_at(tracks[0].clips@, time_ms) is Some {
        first_video_clip_at(tracks[0].clips@, time_ms)
    } else {
        first_active_clip(tracks.drop_first(), time_ms)
    }
}

/// Two clips with the same identity and placement.
pub open spec fn clip_same(a: VideoClip, b: VideoClip) -> bool {
    &&& a.id == b.id
    &&& a.file_path@ == b.file_path@
    &&& a.start_time_ms == b.start_time_ms
    &&& a.duration_ms == b.duration_ms
    &&& a.trim_start_ms == b.trim_start_ms
    &&& a.trim_end_ms == b.trim_end_ms
}

/// Copies a clip, field by field.
pub fn clone_clip(c: &VideoClip) -> (r: VideoClip)
    ensures
        clip_same(r, *c),
{
    VideoClip {
        id: c.id,
        file_path: c.file_path.clone(),
        start_time_ms: c.start_time_ms,
        duration_ms: c.duration_ms,
        trim_start_ms: c.trim_start_ms,
        trim_end_ms: c.trim_end_ms,
    }
}

/// What one frame request needs next: either the frame is already decided,
/// or the clip must be decoded at the given source time.
#[derive(Debug)]
pub enum FrameStep {
    Rendered(RenderedFrame),
    Decode(VideoClip, i64),
}

/// The renderer. The decoders it delegates to are owned by the layer that
/// drives the container I/O; this state covers everything else: the cache,
/// the effect parameters, the retained fallback frame and the mode.
pub struct Renderer {
    pub frame_cache: FrameCache,
    pub last_rendered_frame: Option<RenderedFrame>,
    pub playback_mode: bool,
    pub export_resolution: Option<(u32, u32)>,
    pub clip_effects: HashMap<u64, EffectParams>,
}

impl Renderer {
    pub open spec fn wf(self) -> bool {
        &&& self.frame_cache.wf()
        &&& match self.last_rendered_frame {
            Some(f) => f.wf(),
            None => true,
        }
        &&& match self.export_resolution {
            Some((w, h)) => dims_wf(w, h) && w % 2 == 0 && h % 2 == 0,
            None => true,
        }
        &&& forall|id: u64|
            self.clip_effects@.dom().contains(id) ==> (#[trigger] self.clip_effects@[id]).wf()
        &&& forall|i: int|
            0 <= i < self.frame_cache.entries@.len() ==> (#[trigger] self.frame_cache.entries@[i]).frame.wf()
    }

    /// A preview renderer: 960x540 RGBA output, a generous cache, scrub
    /// thresholds.
    pub fn new() -> (r: Self)
        ensures
            r.wf(),
            r.frame_cache.max_entries == 60,
            r.frame_cache.max_bytes == 200 * 1024 * 1024,
            r.frame_cache.entries@.len() == 0,
            r.last_rendered_frame is None,
            !r.playback_mode,
            r.export_resolution is None,
            r.clip_effects@ =~= Map::<u64, EffectParams>::empty(),
    {
        Self {
            frame_cache: FrameCache::new(60, 200 * 1024 * 1024),
            last_rendered_frame: None,
            playback_mode: false,
            export_resolution: None,
            clip_effects: HashMap::new(),
        }
    }

    /// An export renderer: fixed output size, YUV output, a small cache for
    /// the sequential access pattern, playback thresholds.
    pub fn new_for_export(width: u32, height: u32) -> (r: Self)
        requires
            dims_wf(width, height),
            width % 2 == 0,
            height % 2 == 0,
        ensures
            r.wf(),
            r.frame_cache.max_entries == 5,
            r.frame_cache.max_bytes == 50 * 1024 * 1024,
            r.frame_cache.entries@.len() == 0,
            r.last_rendered_frame is None,
            r.playback_mode,
            r.export_resolution == Some((width, height)),
            r.clip_effects@ =~= Map::<u64, EffectParams>::empty(),
    {
        Self {
            frame_cache: FrameCache::new(5, 50 * 1024 * 1024),
            last_rendered_frame: None,
            playback_mode: true,
            export_resolution: Some((width, height)),
            clip_effects: HashMap::new(),
        }
    }

    /// The forward threshold pooled decoders should run with in the current
    /// mode: long for sequential playback, short for precise scrubbing.
    pub fn decoder_threshold(&self) -> (r: i64)
        ensures
            r == if self.playback_mode {
                5000int
            } else {
                100int
            },
    {
        if self.playback_mode {
            5000
        } else {
            100
        }
    }

    /// Switches between playback and scrub mode and returns the forward
    /// threshold that every pooled decoder must be given. When playback
    /// starts, decoders stuck in the error state are to be dropped so that
    /// forward decoding can retry from a fresh open.
    pub fn set_playback_mode(&mut self, playback: bool) -> (threshold_ms: i64)
        requires
            old(self).wf(),
        ensures
            final(self).wf(),
            *final(self) == (Self { playback_mode: playback, ..*old(self) }),
            threshold_ms == if playback {
                5000int
            } else {
                100int
            },
    {
        self.playback_mode = playback;
        self.decoder_threshold()
    }

    /// The black frame matching the output mode.
    fn mode_black(&self, timestamp_ms: i64) -> (r: RenderedFrame)
        requires
            self.wf(),
        ensures
            r.wf(),
            r.timestamp_ms == timestamp_ms,
            match self.export_resolution {
                Some((w, h)) => r.width == w && r.height == h && r.is_yuv,
                None => r.width == 960 && r.height == 540 && !r.is_yuv && (forall|k: int|
                    0 <= k < r.data@.len() ==> r.data@[k] == 0),
            },
    {
        match self.export_resolution {
            Some((w, h)) => black_frame_yuv(w, h, timestamp_ms),
            None => black_frame(timestamp_ms),
        }
    }

    /// Starts one frame. Resolves the topmost active clip; with none, the
    /// frame is black in the mode's format. A cache hit answers at once,
    /// retimed to the requested timeline instant; a miss hands back the clip
    /// and source time that must be decoded.
    pub fn begin_frame(&mut self, timeline: &Timeline, timestamp_ms: i64) -> (step: FrameStep)
        requires
            old(self).wf(),
            timeline.wf(),
        ensures
            final(self).wf(),
            final(self).last_rendered_frame == old(self).last_rendered_frame,
            final(self).playback_mode == old(self).playback_mode,
            final(self).export_resolution == old(self).export_resolution,
            final(self).clip_effects@ == old(self).clip_effects@,
            match first_active_clip(timeline.video_tracks@, timestamp_ms) {
                None => {
                    &&& final(self).frame_cache == old(self).frame_cache
                    &&& step matches FrameStep::Rendered(r) && r.wf() && r.timestamp_ms
                        == timestamp_ms && (match old(self).export_resolution {
                        Some((w, h)) => r.width == w && r.height == h && r.is_yuv,
                        None => r.width == 960 && r.height == 540 && !r.is_yuv && (forall|k: int|
                            0 <= k < r.data@.len() ==> r.data@[k] == 0),
                    })
                },
                Some(clip) => {
                    let source_t = clip.spec_source_time(timestamp_ms) as i64;
                    if contains_key(old(self).frame_cache.entries@, clip.file_path@, source_t) {
                        &&& step matches FrameStep::Rendered(r) && r.wf() && r.timestamp_ms
                            == timestamp_ms && (lookup(
                            old(self).frame_cache.entries@,
                            clip.file_path@,
                            source_t,
                        ) matches Some(f) && r.same_image(f))
                        &&& {
                            let i = index_of_key(
                                old(self).frame_cache.entries@,
                                clip.file_path@,
                                source_t,
                            );
                            final(self).frame_cache.entries@ == old(
                                self,
                            ).frame_cache.entries@.remove(i).push(old(self).frame_cache.entries@[i])
                        }
                        &&& final(self).frame_cache.hit_count == (if old(
                            self,
                        ).frame_cache.hit_count < u64::MAX {
                            old(self).frame_cache.hit_count + 1
                        } else {
                            old(self).frame_cache.hit_count as int
                        })
                        &&& final(self).frame_cache.miss_count == old(self).frame_cache.miss_count
                    } else {
                        &&& step matches FrameStep::Decode(c, st) && clip_same(c, clip) && st
                            == source_t
                        &&& final(self).frame_cache.entries@ == old(self).frame_cache.entries@
                        &&& final(self).frame_cache.miss_count == (if old(
                            self,
                        ).frame_cache.miss_count < u64::MAX {
                            old(self).frame_cache.miss_count + 1
                        } else {
                            old(self).frame_cache.miss_count as int
                        })
                        &&& final(self).frame_cache.hit_count == old(self).frame_cache.hit_count
                    }
                },
            },
    {
        let n = timeline.video_tracks.len();
        let mut k: usize = 0;
        proof {
            assert(timeline.video_tracks@.skip(0int) =~= timeline.video_tracks@);
        }
        while k < n
            invariant
                old(self).wf(),
                timeline.wf(),
                *self == *old(self),
                0 <= k <= n,
                n == timeline.video_tracks@.len(),
                first_active_clip(timeline.video_tracks@, timestamp_ms) == first_active_clip(
                    timeline.video_tracks@.skip(k as int),
                    timestamp_ms,
                ),
            decreases n - k,
        {
            let track = &timeline.video_tracks[k];
            proof {
                assert(timeline.video_tracks@.skip(k as int)[0] == timeline.video_tracks@[k as int]);
                assert(timeline.video_tracks@.skip(k as int).drop_first()
                    =~= timeline.video_tracks@.skip(k as int + 1));
            }
            match track.get_clip_at_time(timestamp_ms) {
                Some(clip) => {
                    proof {
                        assert(timeline.video_tracks@[k as int].wf());
                        crate::track::lemma_first_clip_at_props(track.clips@, timestamp_ms);
                        let i = choose|i: int|
                            0 <= i < track.clips@.len() && track.clips@[i] == *clip;
                        assert(track.clips@[i].wf());
                        assert(first_active_clip(
                            timeline.video_tracks@.skip(k as int),
                            timestamp_ms,
                        ) == Some(*clip));
                    }
                    let source_time_ms = match clip.timeline_to_source_time(timestamp_ms) {
                        Some(st) => st,
                        None => 0,  // unreachable: the clip contains the instant
                    };
                    let ghost old_entries = self.frame_cache.entries@;
                    let cached = self.frame_cache.get(&clip.file_path, source_time_ms);
                    match cached {
                        Some(f) => {
                            let mut frame = clone_rendered(f);
                            frame.timestamp_ms = timestamp_ms;
                            proof {
                                crate::cache::lemma_lookup_frame_of(
                                    old_entries,
                                    clip.file_path@,
                                    source_time_ms,
                                );
                                let i0 = index_of_key(
                                    old_entries,
                                    clip.file_path@,
                                    source_time_ms,
                                );
                                assert forall|j: int|
                                    0 <= j < self.frame_cache.entries@.len() implies (
                                #[trigger] self.frame_cache.entries@[j]).frame.wf() by {
                                    if j < self.frame_cache.entries@.len() - 1 {
                                        assert(self.frame_cache.entries@[j] == old_entries.remove(
                                            i0,
                                        )[j]);
                                    } else {
                                        assert(self.frame_cache.entries@[j] == old_entries[i0]);
                                    }
                                }
                            }
                            return FrameStep::Rendered(frame);
                        },
                        None => {
                            return FrameStep::Decode(clone_clip(clip), source_time_ms);
                        },
                    }
                },
                None => {},
            }
            k = k + 1;
        }
        proof {
            assert(timeline.video_tracks@.skip(k as int).len() == 0);
        }
        FrameStep::Rendered(self.mode_black(timestamp_ms))
    }

    /// Finishes one frame from the decoder's answer. A fresh frame gets the
    /// preview effect pass when parameters are set for the clip, enters the
    /// cache and becomes the fallback. End of stream re-emits the stream's
    /// last frame. A skipped frame falls back to the last rendered frame, or
    /// black when none exists; rendering never fails.
    pub fn finish_frame(
        &mut self,
        clip: &VideoClip,
        source_time_ms: i64,
        timestamp_ms: i64,
        result: DecodeResult,
    ) -> (r: RenderedFrame)
        requires
            old(self).wf(),
            result matches DecodeResult::Frame(f) ==> f.wf() && (f.format == PixelFormat::RGBA
                || f.format == PixelFormat::YUV420P),
            result matches DecodeResult::EndOfStream(f) ==> f.wf() && (f.format
                == PixelFormat::RGBA || f.format == PixelFormat::YUV420P),
        ensures
            final(self).wf(),
            r.wf(),
            final(self).playback_mode == old(self).playback_mode,
            final(self).export_resolution == old(self).export_resolution,
            final(self).clip_effects@ == old(self).clip_effects@,
            match result {
                DecodeResult::Frame(f) => {
                    &&& r.timestamp_ms == timestamp_ms
                    &&& r.width == f.width && r.height == f.height
                    &&& r.is_yuv == (f.format == PixelFormat::YUV420P)
                    &&& (f.format == PixelFormat::YUV420P ==> r.data@ == f.data@)
                    &&& (f.format == PixelFormat::RGBA ==> (if old(
                        self,
                    ).clip_effects@.dom().contains(clip.id) && !old(
                        self,
                    ).clip_effects@[clip.id].spec_is_default() {
                        &&& r.data@.len() == f.data@.len()
                        &&& forall|k: int|
                            0 <= k < f.data@.len() ==> r.data@[k] == effected_byte(
                                f.data@,
                                old(self).clip_effects@[clip.id],
                                k,
                            )
                    } else {
                        r.data@ == f.data@
                    }))
                    &&& lookup(final(self).frame_cache.entries@, clip.file_path@, source_time_ms)
                        matches Some(g) && g.same_as(r)
                    &&& final(self).last_rendered_frame matches Some(g) && g.same_as(r)
                },
                DecodeResult::FrameSkipped => {
                    &&& final(self).frame_cache == old(self).frame_cache
                    &&& final(self).last_rendered_frame == old(self).last_rendered_frame
                    &&& match old(self).last_rendered_frame {
                        Some(g) => r.same_as(g),
                        None => r.timestamp_ms == timestamp_ms && (match old(
                            self,
                        ).export_resolution {
                            Some((w, h)) => r.width == w && r.height == h && r.is_yuv,
                            None => r.width == 960 && r.height == 540 && !r.is_yuv,
                        }),
                    }
                },
                DecodeResult::EndOfStream(f) => {
                    &&& final(self).frame_cache == old(self).frame_cache
                    &&& r.timestamp_ms == timestamp_ms
                    &&& r.width == f.width && r.height == f.height
                    &&& r.is_yuv == (f.format == PixelFormat::YUV420P)
                    &&& r.data@ == f.data@
                    &&& final(self).last_rendered_frame matches Some(g) && g.same_as(r)
                },
                DecodeResult::EndOfStreamEmpty => {
                    &&& final(self).frame_cache == old(self).frame_cache
                    &&& final(self).last_rendered_frame == old(self).last_rendered_frame
                    &&& match old(self).last_rendered_frame {
                        Some(g) => r.same_as(g),
                        None => r.timestamp_ms == timestamp_ms && (match old(
                            self,
                        ).export_resolution {
                            Some((w, h)) => r.width == w && r.height == h && r.is_yuv,
                            None => r.width == 960 && r.height == 540 && !r.is_yuv,
                        }),
                    }
                },
            },
    {
        match result {
            DecodeResult::Frame(f) => {
                let is_yuv = matches!(f.format, PixelFormat::YUV420P);
                let mut data = f.data;
                if !is_yuv {
                    let params = self.clip_effects.get(&clip.id);
                    match params {
                        Some(p) => {
                            if !p.is_default() {
                                let p_copy = *p;
                                apply_effects(&mut data, f.width, f.height, &p_copy);
                            }
                        },
                        None => {},
                    }
                }
                let rendered = RenderedFrame {
                    width: f.width,
                    height: f.height,
                    data,
                    timestamp_ms,
                    is_yuv,
                };
                let ghost old_entries = self.frame_cache.entries@;
                self.frame_cache.put(
                    clip.file_path.clone(),
                    source_time_ms,
                    clone_rendered(&rendered),
                );
                proof {
                    assert(rendered.wf());
                    let removed = crate::cache::remove_key_model(
                        old_entries,
                        clip.file_path@,
                        source_time_ms,
                    );
                    crate::cache::lemma_evict_model_is_suffix(
                        removed,
                        rendered.data@.len() as int,
                        old(self).frame_cache.max_entries as int,
                        old(self).frame_cache.max_bytes as int,
                    );
                    let n = choose|n: int|
                        0 <= n <= removed.len() && crate::cache::evict_model(
                            removed,
                            rendered.data@.len() as int,
                            old(self).frame_cache.max_entries as int,
                            old(self).frame_cache.max_bytes as int,
                        ) == removed.skip(n);
                    let ev = crate::cache::evict_model(
                        removed,
                        rendered.data@.len() as int,
                        old(self).frame_cache.max_entries as int,
                        old(self).frame_cache.max_bytes as int,
                    );
                    assert(ev == removed.skip(n));
                    assert(self.frame_cache.entries@.drop_last() == ev);
                    assert forall|j: int|
                        0 <= j < self.frame_cache.entries@.len() implies (
                    #[trigger] self.frame_cache.entries@[j]).frame.wf() by {
                        if j < self.frame_cache.entries@.len() - 1 {
                            assert(self.frame_cache.entries@[j]
                                == self.frame_cache.entries@.drop_last()[j]);
                            assert(ev[j] == removed[n + j]);
                            if contains_key(old_entries, clip.file_path@, source_time_ms) {
                                let i0 = index_of_key(
                                    old_entries,
                                    clip.file_path@,
                                    source_time_ms,
                                );
                                assert(removed == old_entries.remove(i0));
                                assert(removed[n + j] == old_entries.remove(i0)[n + j]);
                                let q = n + j;
                                let q0 = if q < i0 { q } else { q + 1 };
                                assert(old_entries.remove(i0)[q] == old_entries[q0]);
                                assert(old_entries[q0].frame.wf());
                            } else {
                                assert(removed == old_entries);
                                assert(old_entries[n + j].frame.wf());
                            }
                        } else {
                            assert(self.frame_cache.entries@[j].frame.same_as(rendered));
                        }
                    }
                }
                self.last_rendered_frame = Some(clone_rendered(&rendered));
                rendered
            },
            DecodeResult::FrameSkipped => {
                match &self.last_rendered_frame {
                    Some(g) => clone_rendered(g),
                    None => self.mode_black(timestamp_ms),
                }
            },
            DecodeResult::EndOfStream(f) => {
                let is_yuv = matches!(f.format, PixelFormat::YUV420P);
                let rendered = RenderedFrame {
                    width: f.width,
                    height: f.height,
                    data: f.data,
                    timestamp_ms,
                    is_yuv,
                };
                self.last_rendered_frame = Some(clone_rendered(&rendered));
                rendered
            },
            DecodeResult::EndOfStreamEmpty => {
                match &self.last_rendered_frame {
                    Some(g) => clone_rendered(g),
                    None => self.mode_black(timestamp_ms),
                }
            },
        }
    }

    /// Sets the effect parameters of a clip; default parameters clear them.
    /// Cached frames would be stale, so the cache is dropped.
    pub fn set_clip_effects(&mut self, clip_id: u64, params: EffectParams)
        requires
            old(self).wf(),
            params.wf(),
        ensures
            final(self).wf(),
            params.spec_is_default() ==> final(self).clip_effects@ == old(
                self,
            ).clip_effects@.remove(clip_id),
            !params.spec_is_default() ==> final(self).clip_effects@ == old(
                self,
            ).clip_effects@.insert(clip_id, params),
            final(self).frame_cache.entries@.len() == 0,
            final(self).last_rendered_frame == old(self).last_rendered_frame,
            final(self).playback_mode == old(self).playback_mode,
            final(self).export_resolution == old(self).export_resolution,
    {
        if params.is_default() {
            self.clip_effects.remove(&clip_id);
        } else {
            self.clip_effects.insert(clip_id, params);
        }
        self.frame_cache.clear();
    }

    /// Removes the effect parameters of a clip and drops the cache.
    pub fn clear_clip_effects(&mut self, clip_id: u64)
        requires
            old(self).wf(),
        ensures
            final(self).wf(),
            final(self).clip_effects@ == old(self).clip_effects@.remove(clip_id),
            final(self).frame_cache.entries@.len() == 0,
            final(self).last_rendered_frame == old(self).last_rendered_frame,
            final(self).playback_mode == old(self).playback_mode,
            final(self).export_resolution == old(self).export_resolution,
    {
        self.clip_effects.remove(&clip_id);
        self.frame_cache.clear();
    }

    /// Drops every cached frame.
    pub fn clear_cache(&mut self)
        requires
            old(self).wf(),
        ensures
            final(self).wf(),
            final(self).frame_cache.entries@.len() == 0,
            final(self).clip_effects@ == old(self).clip_effects@,
            final(self).last_rendered_frame == old(self).last_rendered_frame,
            final(self).playback_mode == old(self).playback_mode,
            final(self).export_resolution == old(self).export_resolution,
    {
        self.frame_cache.clear();
    }

    /// Cached entry count and byte total.
    pub fn cache_stats(&self) -> (r: (u32, usize))
        requires
            self.wf(),
        ensures
            r.0 == self.frame_cache.entries@.len(),
            r.1 == self.frame_cache.current_bytes,
    {
        self.frame_cache.stats()
    }
}

} // verus!
