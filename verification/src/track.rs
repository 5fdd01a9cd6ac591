//! Tracks: ordered layers of clips on the timeline.

use vstd::prelude::*;
use crate::clip::{AudioClip, VideoClip};

verus! {

/// Clips are ordered by their timeline start, earliest first.
pub open spec fn video_clips_sorted(clips: Seq<VideoClip>) -> bool {
    forall|i: int, j: int|
        0 <= i < j < clips.len() ==> #[trigger] clips[i].start_time_ms <= #[trigger] clips[j].start_time_ms
}

pub open spec fn audio_clips_sorted(clips: Seq<AudioClip>) -> bool {
    forall|i: int, j: int|
        0 <= i < j < clips.len() ==> #[trigger] clips[i].start_time_ms <= #[trigger] clips[j].start_time_ms
}

/// The first clip of the sequence that contains `time_ms`, if any.
pub open spec fn first_video_clip_at(clips: Seq<VideoClip>, time_ms: i64) -> Option<VideoClip>
    decreases clips.len(),
{
    if clips.len() == 0 {
        None
    } else if clips[0].spec_contains_time(time_ms) {
        Some(clips[0])
    } else {
        first_video_clip_at(clips.drop_first(), time_ms)
    }
}

/// A clip found by `first_video_clip_at` is one of the clips and contains
/// the instant.
pub proof fn lemma_first_clip_at_props(clips: Seq<VideoClip>, time_ms: i64)
    ensures
        first_video_clip_at(clips, time_ms) matches Some(c) ==> c.spec_contains_time(time_ms)
            && exists|i: int| 0 <= i < clips.len() && clips[i] == c,
    decreases clips.len(),
{
    if clips.len() == 0 {
    } else if clips[0].spec_contains_time(time_ms) {
        assert(clips[0] == clips[0]);
    } else {
        lemma_first_clip_at_props(clips.drop_first(), time_ms);
        if first_video_clip_at(clips, time_ms) is Some {
            let c = first_video_clip_at(clips, time_ms)->Some_0;
            let i = choose|i: int| 0 <= i < clips.drop_first().len() && clips.drop_first()[i] == c;
            assert(clips[i + 1] == c);
        }
    }
}

/// A video track: an ordered layer of video clips.
#[derive(Debug, Clone)]
pub struct VideoTrack {
    pub id: u64,
    pub index: usize,
    pub clips: Vec<VideoClip>,
    pub enabled: bool,
}

impl VideoTrack {
    /// Every clip is well formed and the list is sorted by start time.
    pub open spec fn wf(self) -> bool {
        &&& forall|i: int| 0 <= i < self.clips@.len() ==> (#[trigger] self.clips@[i]).wf()
        &&& video_clips_sorted(self.clips@)
    }

    pub fn new(id: u64, index: usize) -> (track: Self)
        ensures
            track.wf(),
            track.id == id,
            track.index == index,
            track.clips@.len() == 0,
            track.enabled,
    {
        Self { id, index, clips: Vec::new(), enabled: true }
    }

    /// Inserts the clip, keeping the list sorted by start time; among clips
    /// with equal starts the new one comes last.
    pub fn add_clip(&mut self, clip: VideoClip)
        requires
            old(self).wf(),
            clip.wf(),
        ensures
            final(self).wf(),
            final(self).id == old(self).id,
            final(self).index == old(self).index,
            final(self).enabled == old(self).enabled,
            final(self).clips@.len() == old(self).clips@.len() + 1,
            exists|k: int|
                0 <= k <= old(self).clips@.len() && final(self).clips@ == old(self).clips@.insert(
                    k,
                    clip,
                ),
            final(self).clips@.to_multiset() == old(self).clips@.to_multiset().insert(clip),
    {
        let ghost old_clips = self.clips@;
        let mut k: usize = 0;
        while k < self.clips.len() && self.clips[k].start_time_ms <= clip.start_time_ms
            invariant
                0 <= k <= self.clips@.len(),
                self.clips@ == old_clips,
                forall|j: int| 0 <= j < k ==> #[trigger] old_clips[j].start_time_ms <= clip.start_time_ms,
            decreases self.clips@.len() - k,
        {
            k = k + 1;
        }
        self.clips.insert(k, clip);
        proof {
            assert(self.clips@ =~= old_clips.insert(k as int, clip));
            assert forall|i: int, j: int| 0 <= i < j < self.clips@.len() implies
                #[trigger] self.clips@[i].start_time_ms <= #[trigger] self.clips@[j].start_time_ms by {
                let ki = k as int;
                if i < ki && j == ki {
                    assert(self.clips@[i] == old_clips[i]);
                } else if i == ki && j > ki {
                    assert(self.clips@[j] == old_clips[j - 1]);
                    assert(old_clips[ki].start_time_ms > clip.start_time_ms);
                    assert(old_clips[ki].start_time_ms <= old_clips[j - 1].start_time_ms || ki == j - 1);
                } else if i < ki && j > ki {
                    assert(self.clips@[i] == old_clips[i]);
                    assert(self.clips@[j] == old_clips[j - 1]);
                    assert(old_clips[i].start_time_ms <= old_clips[j - 1].start_time_ms || i == j - 1);
                } else if i > ki && j > ki {
                    assert(self.clips@[i] == old_clips[i - 1]);
                    assert(self.clips@[j] == old_clips[j - 1]);
                    assert(old_clips[i - 1].start_time_ms <= old_clips[j - 1].start_time_ms);
                }
            }
            assert forall|i: int| 0 <= i < self.clips@.len() implies (#[trigger] self.clips@[i]).wf() by {
                if i < k as int {
                    assert(self.clips@[i] == old_clips[i]);
                    assert(old_clips[i].wf());
                } else if i > k as int {
                    assert(self.clips@[i] == old_clips[i - 1]);
                    assert(old_clips[i - 1].wf());
                }
            }
            vstd::seq_lib::to_multiset_insert(old_clips, k as int, clip);
        }
    }

    /// Removes the first clip with the given id and returns it.
    pub fn remove_clip(&mut self, clip_id: u64) -> (r: Option<VideoClip>)
        requires
            old(self).wf(),
        ensures
            final(self).wf(),
            final(self).id == old(self).id,
            final(self).index == old(self).index,
            final(self).enabled == old(self).enabled,
            match r {
                Some(c) => exists|i: int|
                    {
                        &&& 0 <= i < old(self).clips@.len()
                        &&& old(self).clips@[i].id == clip_id
                        &&& (forall|j: int| 0 <= j < i ==> old(self).clips@[j].id != clip_id)
                        &&& c == old(self).clips@[i]
                        &&& final(self).clips@ == old(self).clips@.remove(i)
                    },
                None => {
                    &&& forall|i: int| 0 <= i < old(self).clips@.len() ==> old(self).clips@[i].id != clip_id
                    &&& final(self).clips@ == old(self).clips@
                },
            },
    {
        let ghost pre = old(self).clips@;
        let mut k: usize = 0;
        while k < self.clips.len()
            invariant
                0 <= k <= self.clips@.len(),
                pre == old(self).clips@,
                self.clips@ == pre,
                self.id == old(self).id,
                self.index == old(self).index,
                self.enabled == old(self).enabled,
                self.wf(),
                forall|j: int| 0 <= j < k ==> pre[j].id != clip_id,
            decreases self.clips@.len() - k,
        {
            if self.clips[k].id == clip_id {
                let c = self.clips.remove(k);
                proof {
                    let ki = k as int;
                    assert(self.clips@ =~= pre.remove(ki));
                    assert forall|i: int, j: int| 0 <= i < j < self.clips@.len() implies
                        #[trigger] self.clips@[i].start_time_ms
                            <= #[trigger] self.clips@[j].start_time_ms by {
                        let i0 = if i < ki { i } else { i + 1 };
                        let j0 = if j < ki { j } else { j + 1 };
                        assert(self.clips@[i] == pre[i0]);
                        assert(self.clips@[j] == pre[j0]);
                        assert(pre[i0].start_time_ms <= pre[j0].start_time_ms);
                    }
                    assert forall|i: int| 0 <= i < self.clips@.len() implies (#[trigger] self.clips@[i]).wf() by {
                        let i0 = if i < ki { i } else { i + 1 };
                        assert(self.clips@[i] == pre[i0]);
                        assert(pre[i0].wf());
                    }
                    assert({
                        &&& 0 <= ki < old(self).clips@.len()
                        &&& old(self).clips@[ki].id == clip_id
                        &&& (forall|j: int| 0 <= j < ki ==> old(self).clips@[j].id != clip_id)
                        &&& c == old(self).clips@[ki]
                        &&& self.clips@ == old(self).clips@.remove(ki)
                    });
                }
                return Some(c);
            }
            k = k + 1;
        }
        None
    }

    /// The first clip containing `time_ms`, on an enabled track.
    pub fn get_clip_at_time(&self, time_ms: i64) -> (r: Option<&VideoClip>)
        requires
            self.wf(),
        ensures
            match r {
                Some(c) => self.enabled && first_video_clip_at(self.clips@, time_ms) == Some(*c),
                None => !self.enabled || first_video_clip_at(self.clips@, time_ms) is None,
            },
    {
        if !self.enabled {
            return None;
        }
        let mut k: usize = 0;
        proof {
            assert(self.clips@.skip(0int) =~= self.clips@);
        }
        while k < self.clips.len()
            invariant
                self.wf(),
                self.enabled,
                0 <= k <= self.clips@.len(),
                first_video_clip_at(self.clips@, time_ms) == first_video_clip_at(
                    self.clips@.skip(k as int),
                    time_ms,
                ),
            decreases self.clips@.len() - k,
        {
            if self.clips[k].contains_time(time_ms) {
                proof {
                    assert(self.clips@.skip(k as int)[0] == self.clips@[k as int]);
                    assert(self.clips@.skip(k as int).len() > 0);
                    assert(first_video_clip_at(self.clips@.skip(k as int), time_ms) == Some(
                        self.clips@[k as int],
                    ));
                }
                return Some(&self.clips[k]);
            }
            proof {
                assert(self.clips@.skip(k as int)[0] == self.clips@[k as int]);
                assert(self.clips@.skip(k as int).drop_first() =~= self.clips@.skip(k as int + 1));
            }
            k = k + 1;
        }
        proof {
            assert(self.clips@.skip(k as int).len() == 0);
        }
        None
    }

    /// The first clip with the given id.
    pub fn get_clip_by_id(&self, clip_id: u64) -> (r: Option<&VideoClip>)
        ensures
            match r {
                Some(c) => exists|i: int|
                    {
                        &&& 0 <= i < self.clips@.len()
                        &&& self.clips@[i].id == clip_id
                        &&& (forall|j: int| 0 <= j < i ==> self.clips@[j].id != clip_id)
                        &&& *c == self.clips@[i]
                    },
                None => forall|i: int| 0 <= i < self.clips@.len() ==> self.clips@[i].id != clip_id,
            },
    {
        let mut k: usize = 0;
        while k < self.clips.len()
            invariant
                0 <= k <= self.clips@.len(),
                forall|j: int| 0 <= j < k ==> self.clips@[j].id != clip_id,
            decreases self.clips@.len() - k,
        {
            if self.clips[k].id == clip_id {
                return Some(&self.clips[k]);
            }
            k = k + 1;
        }
        None
    }

    /// A mutable reference to the first clip with the given id.
    pub fn get_clip_by_id_mut(&mut self, clip_id: u64) -> (r: Option<&mut VideoClip>)
        ensures
            match r {
                Some(c) => exists|i: int|
                    {
                        &&& 0 <= i < old(self).clips@.len()
                        &&& old(self).clips@[i].id == clip_id
                        &&& (forall|j: int| 0 <= j < i ==> old(self).clips@[j].id != clip_id)
                        &&& *c == old(self).clips@[i]
                        &&& final(self).clips@ == old(self).clips@.update(i, *final(c))
                        &&& final(self).id == old(self).id
                        &&& final(self).index == old(self).index
                        &&& final(self).enabled == old(self).enabled
                    },
                None => {
                    &&& (forall|i: int|
                        0 <= i < old(self).clips@.len() ==> old(self).clips@[i].id != clip_id)
                    &&& *final(self) == *old(self)
                },
            },
    {
        let mut k: usize = 0;
        let n = self.clips.len();
        while k < n
            invariant
                0 <= k <= self.clips@.len(),
                n == self.clips@.len(),
                *self == *old(self),
                forall|j: int| 0 <= j < k ==> self.clips@[j].id != clip_id,
            decreases self.clips@.len() - k,
        {
            if self.clips[k].id == clip_id {
                return Some(&mut self.clips[k]);
            }
            k = k + 1;
        }
        None
    }
}

/// An audio track: clips may overlap and play together.
#[derive(Debug, Clone)]
pub struct AudioTrack {
    pub id: u64,
    pub index: usize,
    pub clips: Vec<AudioClip>,
    pub enabled: bool,
    pub muted: bool,
}

impl AudioTrack {
    pub open spec fn wf(self) -> bool {
        &&& forall|i: int| 0 <= i < self.clips@.len() ==> (#[trigger] self.clips@[i]).wf()
        &&& audio_clips_sorted(self.clips@)
    }

    pub fn new(id: u64, index: usize) -> (track: Self)
        ensures
            track.wf(),
            track.id == id,
            track.index == index,
            track.clips@.len() == 0,
            track.enabled,
            !track.muted,
    {
        Self { id, index, clips: Vec::new(), enabled: true, muted: false }
    }

    /// Inserts the clip, keeping the list sorted by start time.
    pub fn add_clip(&mut self, clip: AudioClip)
        requires
            old(self).wf(),
            clip.wf(),
        ensures
            final(self).wf(),
            final(self).id == old(self).id,
            final(self).index == old(self).index,
            final(self).enabled == old(self).enabled,
            final(self).muted == old(self).muted,
            final(self).clips@.len() == old(self).clips@.len() + 1,
            exists|k: int|
                0 <= k <= old(self).clips@.len() && final(self).clips@ == old(self).clips@.insert(
                    k,
                    clip,
                ),
            final(self).clips@.to_multiset() == old(self).clips@.to_multiset().insert(clip),
    {
        let ghost old_clips = self.clips@;
        let mut k: usize = 0;
        while k < self.clips.len() && self.clips[k].start_time_ms <= clip.start_time_ms
            invariant
                0 <= k <= self.clips@.len(),
                self.clips@ == old_clips,
                forall|j: int| 0 <= j < k ==> #[trigger] old_clips[j].start_time_ms <= clip.start_time_ms,
            decreases self.clips@.len() - k,
        {
            k = k + 1;
        }
        self.clips.insert(k, clip);
        proof {
            assert(self.clips@ =~= old_clips.insert(k as int, clip));
            assert forall|i: int, j: int| 0 <= i < j < self.clips@.len() implies
                #[trigger] self.clips@[i].start_time_ms <= #[trigger] self.clips@[j].start_time_ms by {
                let ki = k as int;
                if i < ki && j == ki {
                    assert(self.clips@[i] == old_clips[i]);
                } else if i == ki && j > ki {
                    assert(self.clips@[j] == old_clips[j - 1]);
                    assert(old_clips[ki].start_time_ms > clip.start_time_ms);
                    assert(old_clips[ki].start_time_ms <= old_clips[j - 1].start_time_ms || ki == j - 1);
                } else if i < ki && j > ki {
                    assert(self.clips@[i] == old_clips[i]);
                    assert(self.clips@[j] == old_clips[j - 1]);
                    assert(old_clips[i].start_time_ms <= old_clips[j - 1].start_time_ms || i == j - 1);
                } else if i > ki && j > ki {
                    assert(self.clips@[i] == old_clips[i - 1]);
                    assert(self.clips@[j] == old_clips[j - 1]);
                    assert(old_clips[i - 1].start_time_ms <= old_clips[j - 1].start_time_ms);
                }
            }
            assert forall|i: int| 0 <= i < self.clips@.len() implies (#[trigger] self.clips@[i]).wf() by {
                if i < k as int {
                    assert(self.clips@[i] == old_clips[i]);
                    assert(old_clips[i].wf());
                } else if i > k as int {
                    assert(self.clips@[i] == old_clips[i - 1]);
                    assert(old_clips[i - 1].wf());
                }
            }
            vstd::seq_lib::to_multiset_insert(old_clips, k as int, clip);
        }
    }

    /// Removes the first clip with the given id and returns it.
    pub fn remove_clip(&mut self, clip_id: u64) -> (r: Option<AudioClip>)
        requires
            old(self).wf(),
        ensures
            final(self).wf(),
            final(self).id == old(self).id,
            final(self).index == old(self).index,
            final(self).enabled == old(self).enabled,
            final(self).muted == old(self).muted,
            match r {
                Some(c) => exists|i: int|
                    {
                        &&& 0 <= i < old(self).clips@.len()
                        &&& old(self).clips@[i].id == clip_id
                        &&& (forall|j: int| 0 <= j < i ==> old(self).clips@[j].id != clip_id)
                        &&& c == old(self).clips@[i]
                        &&& final(self).clips@ == old(self).clips@.remove(i)
                    },
                None => {
                    &&& forall|i: int| 0 <= i < old(self).clips@.len() ==> old(self).clips@[i].id != clip_id
                    &&& final(self).clips@ == old(self).clips@
                },
            },
    {
        let ghost pre = old(self).clips@;
        let mut k: usize = 0;
        while k < self.clips.len()
            invariant
                0 <= k <= self.clips@.len(),
                pre == old(self).clips@,
                self.clips@ == pre,
                self.id == old(self).id,
                self.index == old(self).index,
                self.enabled == old(self).enabled,
                self.muted == old(self).muted,
                self.wf(),
                forall|j: int| 0 <= j < k ==> pre[j].id != clip_id,
            decreases self.clips@.len() - k,
        {
            if self.clips[k].id == clip_id {
                let c = self.clips.remove(k);
                proof {
                    let ki = k as int;
                    assert(self.clips@ =~= pre.remove(ki));
                    assert forall|i: int, j: int| 0 <= i < j < self.clips@.len() implies
                        #[trigger] self.clips@[i].start_time_ms
                            <= #[trigger] self.clips@[j].start_time_ms by {
                        let i0 = if i < ki { i } else { i + 1 };
                        let j0 = if j < ki { j } else { j + 1 };
                        assert(self.clips@[i] == pre[i0]);
                        assert(self.clips@[j] == pre[j0]);
                        assert(pre[i0].start_time_ms <= pre[j0].start_time_ms);
                    }
                    assert forall|i: int| 0 <= i < self.clips@.len() implies (#[trigger] self.clips@[i]).wf() by {
                        let i0 = if i < ki { i } else { i + 1 };
                        assert(self.clips@[i] == pre[i0]);
                        assert(pre[i0].wf());
                    }
                    assert({
                        &&& 0 <= ki < old(self).clips@.len()
                        &&& old(self).clips@[ki].id == clip_id
                        &&& (forall|j: int| 0 <= j < ki ==> old(self).clips@[j].id != clip_id)
                        &&& c == old(self).clips@[ki]
                        &&& self.clips@ == old(self).clips@.remove(ki)
                    });
                }
                return Some(c);
            }
            k = k + 1;
        }
        None
    }

    /// All clips containing `time_ms`, in track order; empty when the track
    /// is disabled or muted.
    pub fn get_clips_at_time(&self, time_ms: i64) -> (r: Vec<&AudioClip>)
        requires
            self.wf(),
        ensures
            (!self.enabled || self.muted) ==> r@.len() == 0,
            self.enabled && !self.muted ==> r@.map_values(|c: &AudioClip| *c) == self.clips@.filter(
                |c: AudioClip| c.spec_contains_time(time_ms),
            ),
    {
        let ghost p = |c: AudioClip| c.spec_contains_time(time_ms);
        let ghost f = |c: &AudioClip| *c;
        if !self.enabled || self.muted {
            return Vec::new();
        }
        let mut r: Vec<&AudioClip> = Vec::new();
        let mut k: usize = 0;
        proof {
            assert(self.clips@.take(0int) =~= Seq::<AudioClip>::empty());
            assert(self.clips@.take(0int).filter(p) =~= Seq::<AudioClip>::empty()) by {
                reveal_with_fuel(Seq::filter, 2);
            }
            assert(r@.map_values(f) =~= Seq::<AudioClip>::empty());
        }
        while k < self.clips.len()
            invariant
                self.wf(),
                0 <= k <= self.clips@.len(),
                r@.map_values(f) == self.clips@.take(k as int).filter(p),
                f == (|c: &AudioClip| *c),
                p == (|c: AudioClip| c.spec_contains_time(time_ms)),
            decreases self.clips@.len() - k,
        {
            proof {
                assert(self.clips@.take(k as int + 1) =~= self.clips@.take(k as int).push(
                    self.clips@[k as int],
                ));
                self.clips@.take(k as int).lemma_filter_push(self.clips@[k as int], p);
            }
            if self.clips[k].contains_time(time_ms) {
                r.push(&self.clips[k]);
                proof {
                    assert(r@.map_values(f) =~= self.clips@.take(k as int + 1).filter(p));
                }
            } else {
                proof {
                    assert(r@.map_values(f) =~= self.clips@.take(k as int + 1).filter(p));
                }
            }
            k = k + 1;
        }
        proof {
            assert(self.clips@.take(self.clips@.len() as int) =~= self.clips@);
        }
        r
    }
}

} // verus!
