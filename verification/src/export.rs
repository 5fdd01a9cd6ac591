//! The export job: frame scheduling, progress, cancellation and the
//! non-ASCII-safe output path. The worker thread, the encoder and the file
//! moves live outside this crate and drive this state machine step by step.

use vstd::prelude::*;
use vstd::string::*;

verus! {

/// Everything one export run is configured with. `fps_milli` is the frame
/// rate in thousandths of a frame per second.
#[derive(Debug)]
pub struct ExportConfig {
    pub output_path: String,
    pub width: u32,
    pub height: u32,
    pub fps_milli: u64,
    pub crf: u32,
}

/// Timeline instant of a frame index: `index * 1000 / fps`, rounded down.
pub fn frame_timestamp_ms(frame_index: i64, fps_milli: u64) -> (r: i64)
    requires
        0 <= frame_index,
        0 < fps_milli,
        frame_index * 1_000_000 <= i64::MAX,
    ensures
        r == frame_index * 1_000_000 / (fps_milli as int),
        0 <= r <= frame_index * 1_000_000,
{
    proof {
        assert(frame_index * 1_000_000 >= 0) by (nonlinear_arith)
            requires
                frame_index >= 0,
        ;
    }
    if fps_milli > i64::MAX as u64 {
        proof {
            vstd::arithmetic::div_mod::lemma_basic_div(
                frame_index * 1_000_000,
                fps_milli as int,
            );
        }
        0
    } else {
        (frame_index * 1_000_000) / (fps_milli as i64)
    }
}

/// Number of frames an export pushes: `duration / frame period`, rounded up.
pub fn total_frames(duration_ms: i64, fps_milli: u64) -> (r: i64)
    requires
        0 < duration_ms,
        0 < fps_milli,
        duration_ms * fps_milli + 999_999 <= i64::MAX,
    ensures
        r == (duration_ms * fps_milli + 999_999) / 1_000_000,
        r >= 1,
{
    proof {
        assert(duration_ms * fps_milli >= fps_milli) by (nonlinear_arith)
            requires
                duration_ms >= 1,
                fps_milli >= 1,
        ;
    }
    (duration_ms * (fps_milli as i64) + 999_999) / 1_000_000
}

/// Progress of a running export after `frame_index + 1` frames, capped at
/// 99 until the container is finalised.
pub fn progress_pct(frame_index: i64, total: i64) -> (r: u32)
    requires
        0 <= frame_index < total,
        (frame_index + 1) * 100 <= i64::MAX,
    ensures
        r == if (frame_index + 1) * 100 / (total as int) < 99 {
            (frame_index + 1) * 100 / (total as int)
        } else {
            99int
        },
        r <= 99,
{
    proof {
        assert((frame_index + 1) * 100 >= 0) by (nonlinear_arith)
            requires
                frame_index >= 0,
        ;
        vstd::arithmetic::div_mod::lemma_div_pos_is_pos((frame_index + 1) * 100, total as int);
    }
    let pct = ((frame_index + 1) * 100) / total;
    if pct < 99 {
        pct as u32
    } else {
        99
    }
}

/// What the export worker must do next.
#[derive(Debug)]
pub enum ExportStep {
    /// Cancellation was observed: finalise the encoder, delete any
    /// intermediate file, stop.
    Cancelled,
    /// Render, composite and encode the frame at this timeline instant.
    Render { timestamp_ms: i64 },
    /// Past the end: flush the encoder, write the trailer, move the file.
    Finish,
}

/// The state one export run publishes to its polling host, together with
/// the frame cursor the worker advances.
#[derive(Debug)]
pub struct ExportJob {
    pub progress: u32,
    pub cancel_requested: bool,
    pub finished: bool,
    pub error: Option<String>,
    pub frame_index: i64,
    pub total: i64,
    pub duration_ms: i64,
    pub fps_milli: u64,
}

impl ExportJob {
    pub open spec fn wf(self) -> bool {
        &&& 0 <= self.frame_index
        &&& 1 <= self.total
        &&& 0 < self.duration_ms
        &&& 0 < self.fps_milli
        &&& self.duration_ms * self.fps_milli + 999_999 <= i64::MAX
        &&& self.frame_index * 1_000_000 <= i64::MAX
        &&& (self.frame_index + 1) * 100 <= i64::MAX
        &&& self.progress <= 100
    }

    /// A job over a timeline of the given length. A job with nothing to
    /// export fails immediately, with the error recorded and no progress.
    pub fn new(duration_ms: i64, fps_milli: u64) -> (job: Self)
        requires
            0 < fps_milli,
            duration_ms * fps_milli + 999_999 <= i64::MAX,
        ensures
            duration_ms <= 0 ==> {
                &&& job.finished
                &&& job.error matches Some(m) && m@ == "empty timeline"@
                &&& job.progress == 0
            },
            duration_ms > 0 ==> {
                &&& job.wf()
                &&& !job.finished
                &&& job.error is None
                &&& !job.cancel_requested
                &&& job.progress == 0
                &&& job.frame_index == 0
                &&& job.duration_ms == duration_ms
                &&& job.fps_milli == fps_milli
                &&& job.total == (duration_ms * fps_milli + 999_999) / 1_000_000
            },
    {
        if duration_ms <= 0 {
            return Self {
                progress: 0,
                cancel_requested: false,
                finished: true,
                error: Some(String::from_str("empty timeline")),
                frame_index: 0,
                total: 1,
                duration_ms: 1,
                fps_milli: 1,
            };
        }
        let total = total_frames(duration_ms, fps_milli);
        Self {
            progress: 0,
            cancel_requested: false,
            finished: false,
            error: None,
            frame_index: 0,
            total,
            duration_ms,
            fps_milli,
        }
    }

    /// The worker's next move: stop on a cancellation request (recording it
    /// as the error), finish past the timeline end, otherwise render the
    /// frame at the current index.
    pub fn next_step(&mut self) -> (step: ExportStep)
        requires
            old(self).wf(),
        ensures
            final(self).wf(),
            final(self).frame_index == old(self).frame_index,
            final(self).total == old(self).total,
            final(self).duration_ms == old(self).duration_ms,
            final(self).fps_milli == old(self).fps_milli,
            final(self).progress == old(self).progress,
            final(self).cancel_requested == old(self).cancel_requested,
            old(self).cancel_requested ==> {
                &&& step is Cancelled
                &&& final(self).finished
                &&& final(self).error matches Some(m) && m@ == "cancelled"@
            },
            !old(self).cancel_requested ==> {
                &&& final(self).finished == old(self).finished
                &&& final(self).error == old(self).error
                &&& {
                    let t = old(self).frame_index * 1_000_000 / (old(self).fps_milli as int);
                    if t >= old(self).duration_ms {
                        step is Finish
                    } else {
                        step matches ExportStep::Render { timestamp_ms } && timestamp_ms == t
                    }
                }
            },
    {
        if self.cancel_requested {
            self.finished = true;
            self.error = Some(String::from_str("cancelled"));
            return ExportStep::Cancelled;
        }
        let t = frame_timestamp_ms(self.frame_index, self.fps_milli);
        if t >= self.duration_ms {
            ExportStep::Finish
        } else {
            ExportStep::Render { timestamp_ms: t }
        }
    }

    /// One frame was rendered and encoded: publish progress and advance the
    /// cursor.
    pub fn frame_done(&mut self)
        requires
            old(self).wf(),
            old(self).frame_index < old(self).total,
            (old(self).frame_index + 1) * 1_000_000 <= i64::MAX,
            (old(self).frame_index + 2) * 100 <= i64::MAX,
        ensures
            final(self).wf(),
            final(self).frame_index == old(self).frame_index + 1,
            final(self).progress == (if (old(self).frame_index + 1) * 100 / (old(self).total as int) < 99 {
                (old(self).frame_index + 1) * 100 / (old(self).total as int)
            } else {
                99int
            }),
            final(self).progress <= 99,
            final(self).total == old(self).total,
            final(self).duration_ms == old(self).duration_ms,
            final(self).fps_milli == old(self).fps_milli,
            final(self).finished == old(self).finished,
            final(self).error == old(self).error,
            final(self).cancel_requested == old(self).cancel_requested,
    {
        self.progress = progress_pct(self.frame_index, self.total);
        self.frame_index = self.frame_index + 1;
    }

    /// The container was finalised and any temporary file moved into place.
    pub fn complete(&mut self)
        ensures
            final(self).finished,
            final(self).progress == 100,
            final(self).error == old(self).error,
            final(self).cancel_requested == old(self).cancel_requested,
    {
        self.progress = 100;
        self.finished = true;
    }

    /// A fatal step failed; the message is recorded and the job ends.
    pub fn fail(&mut self, message: String)
        ensures
            final(self).finished,
            final(self).error matches Some(m) && m@ == message@,
            final(self).progress == old(self).progress,
            final(self).cancel_requested == old(self).cancel_requested,
    {
        self.error = Some(message);
        self.finished = true;
    }

    /// Requests cooperative cancellation; the worker observes it at the
    /// next frame boundary.
    pub fn cancel(&mut self)
        ensures
            *final(self) == (Self { cancel_requested: true, ..*old(self) }),
    {
        self.cancel_requested = true;
    }

    /// Progress in percent, 0 to 100.
    pub fn get_progress(&self) -> (r: u32)
        ensures
            r == self.progress,
    {
        self.progress
    }

    /// Whether the job has ended, successfully or not.
    pub fn is_finished(&self) -> (r: bool)
        ensures
            r == self.finished,
    {
        self.finished
    }

    /// The recorded error, `None` while running or after success.
    pub fn get_error(&self) -> (r: Option<String>)
        ensures
            match r {
                Some(m) => self.error matches Some(e) && m@ == e@,
                None => self.error is None,
            },
    {
        match &self.error {
            Some(e) => Some(e.clone()),
            None => None,
        }
    }
}

/// Decimal digits of `n`, most significant first.
pub open spec fn spec_decimal(n: nat) -> Seq<char>
    decreases n,
{
    if n < 10 {
        seq![spec_digit_char(n)]
    } else {
        spec_decimal(n / 10) + seq![spec_digit_char(n % 10)]
    }
}

pub open spec fn spec_digit_char(d: nat) -> char {
    if d == 0 {
        '0'
    } else if d == 1 {
        '1'
    } else if d == 2 {
        '2'
    } else if d == 3 {
        '3'
    } else if d == 4 {
        '4'
    } else if d == 5 {
        '5'
    } else if d == 6 {
        '6'
    } else if d == 7 {
        '7'
    } else if d == 8 {
        '8'
    } else {
        '9'
    }
}

/// Appends the decimal digits of `n`.
pub fn push_decimal(s: &mut String, n: u64)
    ensures
        final(s)@ == old(s)@ + spec_decimal(n as nat),
    decreases n,
{
    if n >= 10 {
        push_decimal(s, n / 10);
    }
    let d = n % 10;
    match d {
        0 => s.append("0"),
        1 => s.append("1"),
        2 => s.append("2"),
        3 => s.append("3"),
        4 => s.append("4"),
        5 => s.append("5"),
        6 => s.append("6"),
        7 => s.append("7"),
        8 => s.append("8"),
        _ => s.append("9"),
    }
    proof {
        reveal_strlit("0");
        reveal_strlit("1");
        reveal_strlit("2");
        reveal_strlit("3");
        reveal_strlit("4");
        reveal_strlit("5");
        reveal_strlit("6");
        reveal_strlit("7");
        reveal_strlit("8");
        reveal_strlit("9");
        if n < 10 {
            assert(s@ =~= old(s)@ + spec_decimal(n as nat));
        } else {
            assert(s@ =~= old(s)@ + spec_decimal(n as nat));
        }
    }
}

/// Index of the last occurrence of `c`, or -1.
pub open spec fn last_index_of(s: Seq<char>, c: char) -> int
    decreases s.len(),
{
    if s.len() == 0 {
        -1
    } else if s.last() == c {
        s.len() - 1
    } else {
        last_index_of(s.drop_last(), c)
    }
}

/// Where the file name starts: right after the last path separator.
pub open spec fn file_name_start(path: Seq<char>) -> int {
    let slash = last_index_of(path, '/');
    let back = last_index_of(path, '\\');
    if slash > back {
        slash + 1
    } else {
        back + 1
    }
}

/// The extension of the path's file name, or "mp4" when it has none: the
/// part after the last dot, provided that dot sits strictly inside the file
/// name.
pub open spec fn spec_extension_or_mp4(path: Seq<char>) -> Seq<char> {
    let dot = last_index_of(path, '.');
    if dot > file_name_start(path) {
        path.skip(dot + 1)
    } else {
        "mp4"@
    }
}

/// The safe temporary file name for one process.
pub open spec fn spec_export_file_name(path: Seq<char>, pid: u64) -> Seq<char> {
    "vortex_export_"@ + spec_decimal(pid as nat) + "."@ + spec_extension_or_mp4(path)
}

/// Directory joining: append the separator unless the directory already
/// ends with it.
pub open spec fn spec_join(dir: Seq<char>, sep: Seq<char>, name: Seq<char>) -> Seq<char> {
    if dir.len() > 0 && dir.last() == sep[0] {
        dir + name
    } else {
        dir + sep + name
    }
}

/// Every character is ASCII.
pub open spec fn ascii_chars(s: Seq<char>) -> bool {
    forall|i: int| 0 <= i < s.len() ==> ((#[trigger] s[i]) as u32) < 128
}

/// Scans for the last occurrence of `c`; `None` when absent.
fn find_last_char(s: &str, c: char) -> (r: Option<usize>)
    ensures
        match r {
            Some(i) => i == last_index_of(s@, c) && 0 <= i < s@.len(),
            None => last_index_of(s@, c) == -1,
        },
{
    let n = s.unicode_len();
    let mut k: usize = n;
    proof {
        assert(s@.take(n as int) =~= s@);
    }
    while k > 0
        invariant
            k <= n,
            n == s@.len(),
            last_index_of(s@, c) == last_index_of(s@.take(k as int), c),
        decreases k,
    {
        proof {
            assert(s@.take(k as int).drop_last() =~= s@.take(k as int - 1));
            assert(s@.take(k as int).last() == s@[k as int - 1]);
        }
        if s.get_char(k - 1) == c {
            return Some(k - 1);
        }
        k = k - 1;
    }
    proof {
        assert(s@.take(0int) =~= Seq::<char>::empty());
    }
    None
}

/// Checks that every character is ASCII.
fn all_ascii(s: &str) -> (r: bool)
    ensures
        r == ascii_chars(s@),
{
    let n = s.unicode_len();
    let mut k: usize = 0;
    while k < n
        invariant
            k <= n,
            n == s@.len(),
            forall|i: int| 0 <= i < k ==> ((#[trigger] s@[i]) as u32) < 128,
        decreases n - k,
    {
        let c = s.get_char(k);
        if (c as u32) >= 128 {
            return false;
        }
        k = k + 1;
    }
    true
}

/// The path handed to the encoder, and whether the output must be moved to
/// the real destination afterwards. An ASCII destination is used directly.
/// A non-ASCII one is replaced by `vortex_export_<pid>.<ext>` under the
/// temporary directory; when even that is non-ASCII, the file goes to the
/// root of the destination's drive; with no drive letter the original path
/// is kept and no move is needed.
pub fn safe_encoder_path(output_path: &str, temp_dir: &str, sep: &str, pid: u64) -> (r: (
    String,
    bool,
))
    requires
        sep@.len() == 1,
    ensures
        ascii_chars(output_path@) ==> r.0@ == output_path@ && !r.1,
        !ascii_chars(output_path@) ==> {
            let name = spec_export_file_name(output_path@, pid);
            let temp = spec_join(temp_dir@, sep@, name);
            if ascii_chars(temp) {
                r.0@ == temp && r.1
            } else if output_path@.len() >= 2 && output_path@[1] == ':' {
                r.0@ == output_path@.take(1) + ":\\"@ + name && r.1
            } else {
                r.0@ == output_path@ && !r.1
            }
        },
{
    let path_chars = output_path.unicode_len();
    if all_ascii(output_path) {
        return (output_path.to_owned(), false);
    }
    // The temporary file name: vortex_export_<pid>.<ext>.
    let mut name = String::from_str("vortex_export_");
    proof {
        reveal_strlit("vortex_export_");
    }
    push_decimal(&mut name, pid);
    name.append(".");
    proof {
        reveal_strlit(".");
    }
    let dot = find_last_char(output_path, '.');
    let slash = find_last_char(output_path, '/');
    let back = find_last_char(output_path, '\\');
    let fstart: usize = {
        let s: usize = match slash {
            Some(i) => i + 1,
            None => 0,
        };
        let b: usize = match back {
            Some(i) => i + 1,
            None => 0,
        };
        if s > b {
            s
        } else {
            b
        }
    };
    proof {
        assert(output_path@.len() <= usize::MAX);
    }
    let ext_at: Option<usize> = match dot {
        Some(d) => if d > fstart {
            Some(d)
        } else {
            None
        },
        None => None,
    };
    match ext_at {
        Some(d) => {
            let ext = output_path.substring_char(d + 1, path_chars);
            proof {
                assert(ext@ =~= output_path@.skip(d + 1));
            }
            name.append(ext);
        },
        None => {
            name.append("mp4");
            proof {
                reveal_strlit("mp4");
            }
        },
    }
    proof {
        assert(name@ =~= spec_export_file_name(output_path@, pid));
    }
    // Try the temporary directory first.
    let mut temp = temp_dir.to_owned();
    let tn = temp_dir.unicode_len();
    let sep_c = sep.get_char(0);
    let ends_with_sep = tn > 0 && temp_dir.get_char(tn - 1) == sep_c;
    if !ends_with_sep {
        temp.append(sep);
    }
    temp.append(name.as_str());
    proof {
        assert(temp@ =~= spec_join(temp_dir@, sep@, name@));
    }
    if all_ascii(temp.as_str()) {
        return (temp, true);
    }
    // Fall back to the root of the destination's drive.
    if path_chars >= 2 && output_path.get_char(1) == ':' {
        let mut root = output_path.substring_char(0, 1).to_owned();
        root.append(":\\");
        proof {
            reveal_strlit(":\\");
        }
        root.append(name.as_str());
        proof {
            assert(root@ =~= output_path@.take(1) + ":\\"@ + name@);
        }
        return (root, true);
    }
    (output_path.to_owned(), false)
}

} // verus!
