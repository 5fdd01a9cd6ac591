//! The timeline: the project's tracks, clip placement, and duration.

use vstd::prelude::*;
use crate::clip::{AudioClip, VideoClip};
use crate::track::{first_video_clip_at, AudioTrack, VideoTrack};

verus! {

/// Largest timeline end over a sequence of video clips, 0 when empty.
pub open spec fn video_clips_max_end(clips: Seq<VideoClip>) -> int
    decreases clips.len(),
{
    if clips.len() == 0 {
        0
    } else {
        let rest = video_clips_max_end(clips.drop_last());
        let last = clips.last().spec_end_time_ms();
        if last > rest {
            last
        } else {
            rest
        }
    }
}

pub open spec fn audio_clips_max_end(clips: Seq<AudioClip>) -> int
    decreases clips.len(),
{
    if clips.len() == 0 {
        0
    } else {
        let rest = audio_clips_max_end(clips.drop_last());
        let last = clips.last().spec_end_time_ms();
        if last > rest {
            last
        } else {
            rest
        }
    }
}

/// Largest clip end over all video tracks.
pub open spec fn video_tracks_max_end(tracks: Seq<VideoTrack>) -> int
    decreases tracks.len(),
{
    if tracks.len() == 0 {
        0
    } else {
        let rest = video_tracks_max_end(tracks.drop_last());
        let last = video_clips_max_end(tracks.last().clips@);
        if last > rest {
            last
        } else {
            rest
        }
    }
}

pub open spec fn audio_tracks_max_end(tracks: Seq<AudioTrack>) -> int
    decreases tracks.len(),
{
    if tracks.len() == 0 {
        0
    } else {
        let rest = audio_tracks_max_end(tracks.drop_last());
        let last = audio_clips_max_end(tracks.last().clips@);
        if last > rest {
            last
        } else {
            rest
        }
    }
}

/// Pairs of (track, first active clip) at `t`, in track order, over all
/// enabled video tracks whose clips cover `t`.
pub open spec fn active_video_pairs(tracks: Seq<VideoTrack>, time_ms: i64) -> Seq<
    (VideoTrack, VideoClip),
>
    decreases tracks.len(),
{
    if tracks.len() == 0 {
        Seq::empty()
    } else {
        let rest = active_video_pairs(tracks.drop_first(), time_ms);
        if tracks[0].enabled && first_video_clip_at(tracks[0].clips@, time_ms) is Some {
            seq![(tracks[0], first_video_clip_at(tracks[0].clips@, time_ms)->Some_0)] + rest
        } else {
            rest
        }
    }
}

/// Clips active at `t` over all audio tracks, in track order.
pub open spec fn active_audio_clips(tracks: Seq<AudioTrack>, time_ms: i64) -> Seq<AudioClip>
    decreases tracks.len(),
{
    if tracks.len() == 0 {
        Seq::empty()
    } else {
        let head: Seq<AudioClip> = if tracks[0].enabled && !tracks[0].muted {
            tracks[0].clips@.filter(|c: AudioClip| c.spec_contains_time(time_ms))
        } else {
            Seq::empty()
        };
        head + active_audio_clips(tracks.drop_first(), time_ms)
    }
}

/// A video-editing project timeline. `fps_milli` is the frame rate in
/// thousandths of a frame per second (30 fps is 30_000).
#[derive(Debug, Clone)]
pub struct Timeline {
    pub width: u32,
    pub height: u32,
    pub fps_milli: u64,
    pub video_tracks: Vec<VideoTrack>,
    pub audio_tracks: Vec<AudioTrack>,
    pub next_clip_id: u64,
    pub next_track_id: u64,
}

impl Timeline {
    /// Every track is well formed and track indices match their positions.
    pub open spec fn wf(self) -> bool {
        &&& forall|i: int|
            0 <= i < self.video_tracks@.len() ==> (#[trigger] self.video_tracks@[i]).wf()
        &&& forall|i: int|
            0 <= i < self.audio_tracks@.len() ==> (#[trigger] self.audio_tracks@[i]).wf()
        &&& forall|i: int|
            0 <= i < self.video_tracks@.len() ==> (#[trigger] self.video_tracks@[i]).index == i
        &&& forall|i: int|
            0 <= i < self.audio_tracks@.len() ==> (#[trigger] self.audio_tracks@[i]).index == i
    }

    pub open spec fn spec_next_clip_id(self) -> u64 {
        self.next_clip_id
    }

    pub open spec fn spec_next_track_id(self) -> u64 {
        self.next_track_id
    }

    pub fn new(width: u32, height: u32, fps_milli: u64) -> (t: Self)
        ensures
            t.wf(),
            t.width == width,
            t.height == height,
            t.fps_milli == fps_milli,
            t.video_tracks@.len() == 0,
            t.audio_tracks@.len() == 0,
            t.spec_next_clip_id() == 1,
            t.spec_next_track_id() == 1,
    {
        Self {
            width,
            height,
            fps_milli,
            video_tracks: Vec::new(),
            audio_tracks: Vec::new(),
            next_clip_id: 1,
            next_track_id: 1,
        }
    }

    /// Appends an empty video track and returns its id. Ids stop growing at
    /// the machine limit.
    pub fn add_video_track(&mut self) -> (id: u64)
        requires
            old(self).wf(),
        ensures
            final(self).wf(),
            id == old(self).spec_next_track_id(),
            final(self).video_tracks@ == old(self).video_tracks@.push(
                final(self).video_tracks@.last(),
            ),
            final(self).video_tracks@.last().id == id,
            final(self).video_tracks@.last().clips@.len() == 0,
            final(self).video_tracks@.last().enabled,
            final(self).audio_tracks@ == old(self).audio_tracks@,
            final(self).width == old(self).width,
            final(self).height == old(self).height,
            final(self).fps_milli == old(self).fps_milli,
            final(self).spec_next_clip_id() == old(self).spec_next_clip_id(),
    {
        let id = self.next_track_id;
        if self.next_track_id < u64::MAX {
            self.next_track_id = self.next_track_id + 1;
        }
        let index = self.video_tracks.len();
        self.video_tracks.push(VideoTrack::new(id, index));
        id
    }

    /// Appends an empty audio track and returns its id.
    pub fn add_audio_track(&mut self) -> (id: u64)
        requires
            old(self).wf(),
        ensures
            final(self).wf(),
            id == old(self).spec_next_track_id(),
            final(self).audio_tracks@ == old(self).audio_tracks@.push(
                final(self).audio_tracks@.last(),
            ),
            final(self).audio_tracks@.last().id == id,
            final(self).audio_tracks@.last().clips@.len() == 0,
            final(self).audio_tracks@.last().enabled,
            !final(self).audio_tracks@.last().muted,
            final(self).video_tracks@ == old(self).video_tracks@,
            final(self).width == old(self).width,
            final(self).height == old(self).height,
            final(self).fps_milli == old(self).fps_milli,
            final(self).spec_next_clip_id() == old(self).spec_next_clip_id(),
    {
        let id = self.next_track_id;
        if self.next_track_id < u64::MAX {
            self.next_track_id = self.next_track_id + 1;
        }
        let index = self.audio_tracks.len();
        self.audio_tracks.push(AudioTrack::new(id, index));
        id
    }

    /// Places a new video clip on the track with the given id; returns the
    /// clip's id, or `None` when no such track exists.
    pub fn add_video_clip(
        &mut self,
        track_id: u64,
        file_path: String,
        start_time_ms: i64,
        duration_ms: i64,
    ) -> (r: Option<u64>)
        requires
            old(self).wf(),
            0 <= start_time_ms,
            0 <= duration_ms,
            start_time_ms + duration_ms <= i64::MAX,
        ensures
            final(self).wf(),
            final(self).audio_tracks@ == old(self).audio_tracks@,
            final(self).width == old(self).width,
            final(self).height == old(self).height,
            final(self).fps_milli == old(self).fps_milli,
            match r {
                Some(id) => {
                    &&& id == old(self).spec_next_clip_id()
                    &&& exists|k: int|
                        {
                            &&& 0 <= k < old(self).video_tracks@.len()
                            &&& old(self).video_tracks@[k].id == track_id
                            &&& (#[trigger] final(self).video_tracks@[k]).clips@.len() == old(self).video_tracks@[k].clips@.len() + 1
                            &&& forall|j: int|
                                0 <= j < old(self).video_tracks@.len() && j != k
                                    ==> final(self).video_tracks@[j] == old(self).video_tracks@[j]
                        }
                },
                None => {
                    &&& forall|k: int|
                        0 <= k < old(self).video_tracks@.len() ==> (#[trigger] old(self).video_tracks@[k]).id != track_id
                    &&& final(self).video_tracks@ == old(self).video_tracks@
                },
            },
    {
        let n = self.video_tracks.len();
        let mut k: usize = 0;
        while k < n
            invariant
                old(self).wf(),
                0 <= start_time_ms,
                0 <= duration_ms,
                start_time_ms + duration_ms <= i64::MAX,
                0 <= k <= n,
                n == self.video_tracks@.len(),
                *self == *old(self),
                forall|j: int| 0 <= j < k ==> (#[trigger] self.video_tracks@[j]).id != track_id,
            decreases n - k,
        {
            if self.video_tracks[k].id == track_id {
                let clip_id = self.next_clip_id;
                if self.next_clip_id < u64::MAX {
                    self.next_clip_id = self.next_clip_id + 1;
                }
                let clip = VideoClip::new(clip_id, file_path, start_time_ms, duration_ms);
                let track = &mut self.video_tracks[k];
                track.add_clip(clip);
                proof {
                    assert(final(self).video_tracks@ == old(self).video_tracks@.update(
                        k as int,
                        final(self).video_tracks@[k as int],
                    ));
                }
                return Some(clip_id);
            }
            k = k + 1;
        }
        None
    }

    /// Places a new audio clip on the track with the given id.
    pub fn add_audio_clip(
        &mut self,
        track_id: u64,
        file_path: String,
        start_time_ms: i64,
        duration_ms: i64,
    ) -> (r: Option<u64>)
        requires
            old(self).wf(),
            0 <= start_time_ms,
            0 <= duration_ms,
            start_time_ms + duration_ms <= i64::MAX,
        ensures
            final(self).wf(),
            final(self).video_tracks@ == old(self).video_tracks@,
            final(self).width == old(self).width,
            final(self).height == old(self).height,
            final(self).fps_milli == old(self).fps_milli,
            match r {
                Some(id) => {
                    &&& id == old(self).spec_next_clip_id()
                    &&& exists|k: int|
                        {
                            &&& 0 <= k < old(self).audio_tracks@.len()
                            &&& old(self).audio_tracks@[k].id == track_id
                            &&& (#[trigger] final(self).audio_tracks@[k]).clips@.len() == old(self).audio_tracks@[k].clips@.len() + 1
                            &&& forall|j: int|
                                0 <= j < old(self).audio_tracks@.len() && j != k
                                    ==> final(self).audio_tracks@[j] == old(self).audio_tracks@[j]
                        }
                },
                None => {
                    &&& forall|k: int|
                        0 <= k < old(self).audio_tracks@.len() ==> (#[trigger] old(self).audio_tracks@[k]).id != track_id
                    &&& final(self).audio_tracks@ == old(self).audio_tracks@
                },
            },
    {
        let n = self.audio_tracks.len();
        let mut k: usize = 0;
        while k < n
            invariant
                old(self).wf(),
                0 <= start_time_ms,
                0 <= duration_ms,
                start_time_ms + duration_ms <= i64::MAX,
                0 <= k <= n,
                n == self.audio_tracks@.len(),
                *self == *old(self),
                forall|j: int| 0 <= j < k ==> (#[trigger] self.audio_tracks@[j]).id != track_id,
            decreases n - k,
        {
            if self.audio_tracks[k].id == track_id {
                let clip_id = self.next_clip_id;
                if self.next_clip_id < u64::MAX {
                    self.next_clip_id = self.next_clip_id + 1;
                }
                let clip = AudioClip::new(clip_id, file_path, start_time_ms, duration_ms);
                let track = &mut self.audio_tracks[k];
                track.add_clip(clip);
                proof {
                    assert(final(self).audio_tracks@ == old(self).audio_tracks@.update(
                        k as int,
                        final(self).audio_tracks@[k as int],
                    ));
                }
                return Some(clip_id);
            }
            k = k + 1;
        }
        None
    }

    /// Removes a video clip from the track with the given id; true exactly
    /// when both the track and the clip were found.
    pub fn remove_video_clip(&mut self, track_id: u64, clip_id: u64) -> (removed: bool)
        requires
            old(self).wf(),
        ensures
            final(self).wf(),
            final(self).audio_tracks@ == old(self).audio_tracks@,
            final(self).width == old(self).width,
            final(self).height == old(self).height,
            final(self).fps_milli == old(self).fps_milli,
            removed ==> exists|k: int|
                {
                    &&& 0 <= k < old(self).video_tracks@.len()
                    &&& old(self).video_tracks@[k].id == track_id
                    &&& (#[trigger] final(self).video_tracks@[k]).clips@.len() == old(self).video_tracks@[k].clips@.len() - 1
                    &&& forall|j: int|
                        0 <= j < old(self).video_tracks@.len() && j != k ==> final(self).video_tracks@[j] == old(self).video_tracks@[j]
                },
            !removed ==> final(self).video_tracks@.len() == old(self).video_tracks@.len(),
    {
        let n = self.video_tracks.len();
        let mut k: usize = 0;
        while k < n
            invariant
                old(self).wf(),
                0 <= k <= n,
                n == self.video_tracks@.len(),
                *self == *old(self),
            decreases n - k,
        {
            if self.video_tracks[k].id == track_id {
                let track = &mut self.video_tracks[k];
                let removed = track.remove_clip(clip_id);
                proof {
                    assert(final(self).video_tracks@ == old(self).video_tracks@.update(
                        k as int,
                        final(self).video_tracks@[k as int],
                    ));
                }
                return removed.is_some();
            }
            k = k + 1;
        }
        false
    }

    /// Removes an audio clip from the track with the given id.
    pub fn remove_audio_clip(&mut self, track_id: u64, clip_id: u64) -> (removed: bool)
        requires
            old(self).wf(),
        ensures
            final(self).wf(),
            final(self).video_tracks@ == old(self).video_tracks@,
            final(self).width == old(self).width,
            final(self).height == old(self).height,
            final(self).fps_milli == old(self).fps_milli,
            removed ==> exists|k: int|
                {
                    &&& 0 <= k < old(self).audio_tracks@.len()
                    &&& old(self).audio_tracks@[k].id == track_id
                    &&& (#[trigger] final(self).audio_tracks@[k]).clips@.len() == old(self).audio_tracks@[k].clips@.len() - 1
                    &&& forall|j: int|
                        0 <= j < old(self).audio_tracks@.len() && j != k ==> final(self).audio_tracks@[j] == old(self).audio_tracks@[j]
                },
            !removed ==> final(self).audio_tracks@.len() == old(self).audio_tracks@.len(),
    {
        let n = self.audio_tracks.len();
        let mut k: usize = 0;
        while k < n
            invariant
                old(self).wf(),
                0 <= k <= n,
                n == self.audio_tracks@.len(),
                *self == *old(self),
            decreases n - k,
        {
            if self.audio_tracks[k].id == track_id {
                let track = &mut self.audio_tracks[k];
                let removed = track.remove_clip(clip_id);
                proof {
                    assert(final(self).audio_tracks@ == old(self).audio_tracks@.update(
                        k as int,
                        final(self).audio_tracks@[k as int],
                    ));
                }
                return removed.is_some();
            }
            k = k + 1;
        }
        false
    }

    /// Total timeline length: the largest clip end over every track, video
    /// and audio alike; 0 for an empty timeline.
    pub fn duration_ms(&self) -> (r: i64)
        requires
            self.wf(),
        ensures
            r == if video_tracks_max_end(self.video_tracks@) > audio_tracks_max_end(
                self.audio_tracks@,
            ) {
                video_tracks_max_end(self.video_tracks@)
            } else {
                audio_tracks_max_end(self.audio_tracks@)
            },
    {
        let mut video_max: i64 = 0;
        let mut k: usize = 0;
        while k < self.video_tracks.len()
            invariant
                self.wf(),
                0 <= k <= self.video_tracks@.len(),
                video_max == video_tracks_max_end(self.video_tracks@.take(k as int)),
            decreases self.video_tracks@.len() - k,
        {
            let track = &self.video_tracks[k];
            let mut c: usize = 0;
            while c < track.clips.len()
                invariant
                    self.wf(),
                    track == self.video_tracks@[k as int],
                    0 <= k < self.video_tracks@.len(),
                    0 <= c <= track.clips@.len(),
                    video_max == if video_clips_max_end(track.clips@.take(c as int))
                        > video_tracks_max_end(self.video_tracks@.take(k as int)) {
                        video_clips_max_end(track.clips@.take(c as int))
                    } else {
                        video_tracks_max_end(self.video_tracks@.take(k as int))
                    },
                decreases track.clips@.len() - c,
            {
                proof {
                    assert(track.clips@.take(c as int + 1).drop_last() =~= track.clips@.take(
                        c as int,
                    ));
                    assert(track.clips@.take(c as int + 1).last() == track.clips@[c as int]);
                    assert(track.clips@[c as int].wf());
                }
                let end = track.clips[c].end_time_ms();
                if end > video_max {
                    video_max = end;
                }
                c = c + 1;
            }
            proof {
                assert(track.clips@.take(track.clips@.len() as int) =~= track.clips@);
                assert(self.video_tracks@.take(k as int + 1).drop_last() =~= self.video_tracks@.take(
                    k as int,
                ));
                assert(self.video_tracks@.take(k as int + 1).last() == self.video_tracks@[k as int]);
            }
            k = k + 1;
        }
        proof {
            assert(self.video_tracks@.take(self.video_tracks@.len() as int) =~= self.video_tracks@);
        }
        let mut result: i64 = video_max;
        let ghost audio_base = result;
        let mut a: usize = 0;
        while a < self.audio_tracks.len()
            invariant
                self.wf(),
                0 <= a <= self.audio_tracks@.len(),
                result == if audio_tracks_max_end(self.audio_tracks@.take(a as int)) > video_tracks_max_end(
                    self.video_tracks@,
                ) {
                    audio_tracks_max_end(self.audio_tracks@.take(a as int))
                } else {
                    video_tracks_max_end(self.video_tracks@)
                },
            decreases self.audio_tracks@.len() - a,
        {
            let track = &self.audio_tracks[a];
            let mut c: usize = 0;
            while c < track.clips.len()
                invariant
                    self.wf(),
                    track == self.audio_tracks@[a as int],
                    0 <= a < self.audio_tracks@.len(),
                    0 <= c <= track.clips@.len(),
                    result == {
                        let base = if audio_tracks_max_end(self.audio_tracks@.take(a as int))
                            > video_tracks_max_end(self.video_tracks@) {
                            audio_tracks_max_end(self.audio_tracks@.take(a as int))
                        } else {
                            video_tracks_max_end(self.video_tracks@)
                        };
                        if audio_clips_max_end(track.clips@.take(c as int)) > base {
                            audio_clips_max_end(track.clips@.take(c as int))
                        } else {
                            base
                        }
                    },
                decreases track.clips@.len() - c,
            {
                proof {
                    assert(track.clips@.take(c as int + 1).drop_last() =~= track.clips@.take(
                        c as int,
                    ));
                    assert(track.clips@.take(c as int + 1).last() == track.clips@[c as int]);
                    assert(track.clips@[c as int].wf());
                }
                let end = track.clips[c].end_time_ms();
                if end > result {
                    result = end;
                }
                c = c + 1;
            }
            proof {
                assert(track.clips@.take(track.clips@.len() as int) =~= track.clips@);
                assert(self.audio_tracks@.take(a as int + 1).drop_last() =~= self.audio_tracks@.take(
                    a as int,
                ));
                assert(self.audio_tracks@.take(a as int + 1).last() == self.audio_tracks@[a as int]);
            }
            a = a + 1;
        }
        proof {
            assert(self.audio_tracks@.take(self.audio_tracks@.len() as int) =~= self.audio_tracks@);
        }
        result
    }

    /// All (track, clip) pairs active at `time_ms`, in track order.
    pub fn get_video_clips_at_time(&self, time_ms: i64) -> (r: Vec<(&VideoTrack, &VideoClip)>)
        requires
            self.wf(),
        ensures
            r@.map_values(|p: (&VideoTrack, &VideoClip)| (*p.0, *p.1)) == active_video_pairs(
                self.video_tracks@,
                time_ms,
            ),
    {
        let ghost f = |p: (&VideoTrack, &VideoClip)| (*p.0, *p.1);
        let mut r: Vec<(&VideoTrack, &VideoClip)> = Vec::new();
        let mut k: usize = 0;
        proof {
            assert(self.video_tracks@.skip(0int) =~= self.video_tracks@);
            assert(r@.map_values(f) =~= Seq::<(VideoTrack, VideoClip)>::empty());
        }
        while k < self.video_tracks.len()
            invariant
                self.wf(),
                0 <= k <= self.video_tracks@.len(),
                f == (|p: (&VideoTrack, &VideoClip)| (*p.0, *p.1)),
                active_video_pairs(self.video_tracks@, time_ms) == r@.map_values(f)
                    + active_video_pairs(self.video_tracks@.skip(k as int), time_ms),
            decreases self.video_tracks@.len() - k,
        {
            let track = &self.video_tracks[k];
            proof {
                assert(self.video_tracks@.skip(k as int)[0] == self.video_tracks@[k as int]);
                assert(self.video_tracks@.skip(k as int).drop_first() =~= self.video_tracks@.skip(
                    k as int + 1,
                ));
            }
            match track.get_clip_at_time(time_ms) {
                Some(clip) => {
                    r.push((track, clip));
                    proof {
                        assert(r@.map_values(f) =~= r@.map_values(f).drop_last().push(
                            (self.video_tracks@[k as int], *clip),
                        ));
                        assert(active_video_pairs(self.video_tracks@, time_ms) =~= r@.map_values(f)
                            + active_video_pairs(self.video_tracks@.skip(k as int + 1), time_ms));
                    }
                },
                None => {
                    proof {
                        if track.enabled {
                            assert(first_video_clip_at(
                                self.video_tracks@.skip(k as int)[0].clips@,
                                time_ms,
                            ) is None);
                        }
                    }
                },
            }
            k = k + 1;
        }
        proof {
            assert(self.video_tracks@.skip(k as int).len() == 0);
            assert(active_video_pairs(self.video_tracks@.skip(k as int), time_ms)
                =~= Seq::<(VideoTrack, VideoClip)>::empty());
            assert(active_video_pairs(self.video_tracks@, time_ms) =~= r@.map_values(f));
        }
        r
    }

    /// All audio clips active at `time_ms`, over every track, in order.
    pub fn get_audio_clips_at_time(&self, time_ms: i64) -> (r: Vec<&AudioClip>)
        requires
            self.wf(),
        ensures
            r@.map_values(|c: &AudioClip| *c) == active_audio_clips(self.audio_tracks@, time_ms),
    {
        let ghost f = |c: &AudioClip| *c;
        let mut r: Vec<&AudioClip> = Vec::new();
        let mut k: usize = 0;
        proof {
            assert(self.audio_tracks@.skip(0int) =~= self.audio_tracks@);
            assert(r@.map_values(f) =~= Seq::<AudioClip>::empty());
        }
        while k < self.audio_tracks.len()
            invariant
                self.wf(),
                0 <= k <= self.audio_tracks@.len(),
                f == (|c: &AudioClip| *c),
                active_audio_clips(self.audio_tracks@, time_ms) == r@.map_values(f)
                    + active_audio_clips(self.audio_tracks@.skip(k as int), time_ms),
            decreases self.audio_tracks@.len() - k,
        {
            let track = &self.audio_tracks[k];
            proof {
                assert(self.audio_tracks@.skip(k as int)[0] == self.audio_tracks@[k as int]);
                assert(self.audio_tracks@.skip(k as int).drop_first() =~= self.audio_tracks@.skip(
                    k as int + 1,
                ));
            }
            let found = track.get_clips_at_time(time_ms);
            let mut j: usize = 0;
            let ghost r_before = r@;
            while j < found.len()
                invariant
                    0 <= j <= found@.len(),
                    r@ == r_before + found@.take(j as int),
                decreases found@.len() - j,
            {
                r.push(found[j]);
                proof {
                    assert(r@ =~= r_before + found@.take(j as int + 1));
                }
                j = j + 1;
            }
            proof {
                assert(found@.take(found@.len() as int) =~= found@);
                assert(r@ =~= r_before + found@);
                assert(r@.map_values(f) =~= r_before.map_values(f) + found@.map_values(f));
                if track.enabled && !track.muted {
                    assert(active_audio_clips(self.audio_tracks@, time_ms) =~= r@.map_values(f)
                        + active_audio_clips(self.audio_tracks@.skip(k as int + 1), time_ms));
                } else {
                    assert(found@.len() == 0);
                    assert(r@.map_values(f) =~= r_before.map_values(f));
                    assert(active_audio_clips(self.audio_tracks@, time_ms) =~= r@.map_values(f)
                        + active_audio_clips(self.audio_tracks@.skip(k as int + 1), time_ms));
                }
            }
            k = k + 1;
        }
        proof {
            assert(self.audio_tracks@.skip(k as int).len() == 0);
            assert(active_audio_clips(self.audio_tracks@.skip(k as int), time_ms)
                =~= Seq::<AudioClip>::empty());
            assert(active_audio_clips(self.audio_tracks@, time_ms) =~= r@.map_values(f));
        }
        r
    }
}

} // verus!
