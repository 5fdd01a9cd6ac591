//! Clips: time-bounded references to source media placed on a track.

use vstd::prelude::*;

verus! {

/// What kind of media a clip refers to.
#[derive(Debug, Clone, Copy, PartialEq, Eq, Structural)]
pub enum ClipType {
    Video,
    Audio,
    Image,
}

/// A video clip on the timeline. Times are in milliseconds; `trim_start_ms`
/// and `trim_end_ms` are offsets into the source file.
#[derive(Debug, Clone)]
pub struct VideoClip {
    pub id: u64,
    pub file_path: String,
    pub start_time_ms: i64,
    pub duration_ms: i64,
    pub trim_start_ms: i64,
    pub trim_end_ms: i64,
}

impl VideoClip {
    /// Time bounds under which clip arithmetic cannot overflow.
    pub open spec fn wf(self) -> bool {
        &&& 0 <= self.start_time_ms
        &&& 0 <= self.duration_ms
        &&& 0 <= self.trim_start_ms
        &&& self.start_time_ms + self.duration_ms <= i64::MAX
        &&& self.trim_start_ms + self.duration_ms <= i64::MAX
    }

    /// End of the clip in timeline time (exclusive).
    pub open spec fn spec_end_time_ms(self) -> int {
        self.start_time_ms + self.duration_ms
    }

    /// A timeline instant lies inside the clip: `start <= t < start + duration`.
    pub open spec fn spec_contains_time(self, time_ms: i64) -> bool {
        self.start_time_ms <= time_ms < self.spec_end_time_ms()
    }

    /// The source-file instant that a timeline instant maps to.
    pub open spec fn spec_source_time(self, timeline_time_ms: i64) -> int {
        self.trim_start_ms + (timeline_time_ms - self.start_time_ms)
    }

    pub fn new(id: u64, file_path: String, start_time_ms: i64, duration_ms: i64) -> (clip: Self)
        requires
            0 <= start_time_ms,
            0 <= duration_ms,
            start_time_ms + duration_ms <= i64::MAX,
        ensures
            clip.wf(),
            clip.id == id,
            clip.file_path@ == file_path@,
            clip.start_time_ms == start_time_ms,
            clip.duration_ms == duration_ms,
            clip.trim_start_ms == 0,
            clip.trim_end_ms == duration_ms,
    {
        Self { id, file_path, start_time_ms, duration_ms, trim_start_ms: 0, trim_end_ms: duration_ms }
    }

    pub fn end_time_ms(&self) -> (r: i64)
        requires
            self.wf(),
        ensures
            r == self.spec_end_time_ms(),
    {
        self.start_time_ms + self.duration_ms
    }

    pub fn contains_time(&self, time_ms: i64) -> (r: bool)
        requires
            self.wf(),
        ensures
            r == self.spec_contains_time(time_ms),
    {
        time_ms >= self.start_time_ms && time_ms < self.end_time_ms()
    }

    /// Maps timeline time to source time; defined exactly on `contains_time`.
    pub fn timeline_to_source_time(&self, timeline_time_ms: i64) -> (r: Option<i64>)
        requires
            self.wf(),
        ensures
            self.spec_contains_time(timeline_time_ms) ==> r == Some(
                (self.spec_source_time(timeline_time_ms)) as i64,
            ),
            !self.spec_contains_time(timeline_time_ms) ==> r is None,
    {
        if !self.contains_time(timeline_time_ms) {
            return None;
        }
        let offset = timeline_time_ms - self.start_time_ms;
        Some(self.trim_start_ms + offset)
    }
}

/// An audio clip. `volume_milli` is the playback volume in thousandths,
/// `0..=1000` standing for `0.0..=1.0`.
#[derive(Debug, Clone)]
pub struct AudioClip {
    pub id: u64,
    pub file_path: String,
    pub start_time_ms: i64,
    pub duration_ms: i64,
    pub trim_start_ms: i64,
    pub trim_end_ms: i64,
    pub volume_milli: u32,
}

impl AudioClip {
    pub open spec fn wf(self) -> bool {
        &&& 0 <= self.start_time_ms
        &&& 0 <= self.duration_ms
        &&& 0 <= self.trim_start_ms
        &&& self.start_time_ms + self.duration_ms <= i64::MAX
        &&& self.trim_start_ms + self.duration_ms <= i64::MAX
        &&& self.volume_milli <= 1000
    }

    pub open spec fn spec_end_time_ms(self) -> int {
        self.start_time_ms + self.duration_ms
    }

    pub open spec fn spec_contains_time(self, time_ms: i64) -> bool {
        self.start_time_ms <= time_ms < self.spec_end_time_ms()
    }

    pub fn new(id: u64, file_path: String, start_time_ms: i64, duration_ms: i64) -> (clip: Self)
        requires
            0 <= start_time_ms,
            0 <= duration_ms,
            start_time_ms + duration_ms <= i64::MAX,
        ensures
            clip.wf(),
            clip.id == id,
            clip.file_path@ == file_path@,
            clip.start_time_ms == start_time_ms,
            clip.duration_ms == duration_ms,
            clip.trim_start_ms == 0,
            clip.trim_end_ms == duration_ms,
            clip.volume_milli == 1000,
    {
        Self {
            id,
            file_path,
            start_time_ms,
            duration_ms,
            trim_start_ms: 0,
            trim_end_ms: duration_ms,
            volume_milli: 1000,
        }
    }

    pub fn end_time_ms(&self) -> (r: i64)
        requires
            self.wf(),
        ensures
            r == self.spec_end_time_ms(),
    {
        self.start_time_ms + self.duration_ms
    }

    pub fn contains_time(&self, time_ms: i64) -> (r: bool)
        requires
            self.wf(),
        ensures
            r == self.spec_contains_time(time_ms),
    {
        time_ms >= self.start_time_ms && time_ms < self.end_time_ms()
    }
}

} // verus!
