//! The `wget` activity: a few files downloaded one after the other at a
//! jittering speed, each shown as a progress line that is rewritten in place.
use vstd::prelude::*;
use crate::cover::chance::random_in;
use crate::cover::frame::CoverFrame;
use crate::cover::op::CoverOp;
use crate::highlight::analyzer::string_from_str;
use crate::page_layout::string_push;
use crate::utf8_text::str_chars;

verus! {

broadcast use vstd::string::group_string_axioms;

/// The file being downloaded.
pub struct DownloadFile {
    pub file_name: String,
    pub file_bytes: u64,
    pub bytes_downloaded: u64,
}

/// The numbers one progress line shows.
pub struct DownloadProgress {
    /// The file name cut to `file_name_width` characters.
    pub file_name: String,
    pub file_name_width: usize,
    pub displayed_bytes: u64,
    pub file_bytes: u64,
    pub progress_width: usize,
    /// Bytes added in this step (what 50 ms bring at `actual_speed`).
    pub bytes_incoming: u64,
    /// Bytes per second in this step.
    pub actual_speed: u64,
    /// Seconds left at `actual_speed`.
    pub eta_secs: u64,
    /// Whether the file is complete; its line then ends.
    pub completed: bool,
}

/// What the module shows next.
pub enum DownloadStep {
    /// A ready frame (the window is too narrow for progress lines).
    Notice(CoverFrame),
    /// A progress line to draw; it replaces the cursor line and, when the file
    /// is complete, ends it; it stays for 50 ms.
    Progress(DownloadProgress),
}

/// Narrowest window that shows progress lines.
pub const MIN_PROGRESS_WIDTH: usize = 55;

/// Columns a progress line keeps for its numbers.
pub const STATS_WIDTH: usize = 32;

/// Padding around the progress bar.
pub const BAR_PADDING: usize = 16;

/// Slowest speed shown, in bytes per second.
pub const MIN_SPEED: u64 = 100_000;

/// Largest jitter of the speed, either way, in bytes per second.
pub const SPEED_JITTER: i64 = 5_000_000;

pub open spec fn sat_sub(a: int, b: int) -> int {
    if a >= b {
        a - b
    } else {
        0
    }
}

/// Width of the file name column in a window of `w` columns.
pub open spec fn name_width(w: int) -> int {
    sat_sub(w, STATS_WIDTH as int) / 3
}

/// Width of the progress bar in a window of `w` columns.
pub open spec fn bar_width(w: int) -> int {
    let rest = sat_sub(sat_sub(w, STATS_WIDTH as int), name_width(w) + BAR_PADDING);
    if rest >= 1 {
        rest
    } else {
        1
    }
}

/// Speed of a step whose jitter is `offset`: at least `MIN_SPEED`.
pub open spec fn jittered_speed(speed: i64, offset: int) -> int {
    if speed + offset >= MIN_SPEED {
        speed + offset
    } else {
        MIN_SPEED as int
    }
}

/// Whether `p` is the progress of `file` in a window of `width` columns, and
/// `after` what the file is left as.
pub open spec fn progress_step(
    file: DownloadFile,
    speed: i64,
    width: int,
    p: DownloadProgress,
    after: Option<DownloadFile>,
) -> bool {
    let displayed: int = if file.bytes_downloaded <= file.file_bytes {
        file.bytes_downloaded as int
    } else {
        file.file_bytes as int
    };
    &&& exists|offset: int|
        -SPEED_JITTER <= offset < SPEED_JITTER && p.actual_speed == jittered_speed(speed, offset)
    &&& p.bytes_incoming == (p.actual_speed / 1000) * 50
    &&& p.displayed_bytes == displayed
    &&& p.file_bytes == file.file_bytes
    &&& p.completed == (displayed >= file.file_bytes)
    &&& p.eta_secs == (file.file_bytes - displayed) / (p.actual_speed as int)
    &&& p.file_name_width == name_width(width)
    &&& p.progress_width == bar_width(width)
    &&& p.file_name@ == file.file_name@.take(
        if name_width(width) <= file.file_name@.len() { name_width(width) } else { file.file_name@.len() as int },
    )
    &&& after == if p.completed {
        None
    } else {
        Some(
            DownloadFile {
                bytes_downloaded: if file.bytes_downloaded + p.bytes_incoming <= u64::MAX {
                    (file.bytes_downloaded + p.bytes_incoming) as u64
                } else {
                    u64::MAX
                },
                ..file
            },
        )
    }
}

pub struct DownloadModule {
    extension: String,
    download_speed: i64,
    remaining_files: usize,
    current: Option<DownloadFile>,
}

impl DownloadModule {
    pub closed spec fn extension_spec(&self) -> Seq<char> {
        self.extension@
    }

    /// Typical speed, in bytes per second.
    pub closed spec fn speed_spec(&self) -> i64 {
        self.download_speed
    }

    /// Files still to download, the current one included.
    pub closed spec fn remaining_spec(&self) -> nat {
        self.remaining_files as nat
    }

    pub closed spec fn current_spec(&self) -> Option<DownloadFile> {
        self.current
    }

    pub closed spec fn wf(&self) -> bool {
        &&& self.current is Some ==> self.remaining_files > 0
        &&& i64::MIN + SPEED_JITTER <= self.download_speed <= i64::MAX - SPEED_JITTER
    }

    /// Downloads of files with `extension`: a random 3 to 9 files at a typical
    /// speed of 10 to 100 MB/s.
    pub fn new(extension: String) -> (m: DownloadModule)
        ensures
            m.wf(),
            m.extension_spec() == extension@,
            10_000_000 <= m.speed_spec() < 100_000_000,
            3 <= m.remaining_spec() < 10,
            m.current_spec() is None,
    {
        let speed = random_in(10_000_000, 100_000_000);
        let files = random_in(3, 10);
        DownloadModule { extension, download_speed: speed as i64, remaining_files: files as usize, current: None }
    }

    /// Extension of the files.
    pub fn extension(&self) -> (e: &str)
        ensures
            e@ == self.extension_spec(),
    {
        self.extension.as_str()
    }

    /// The first `n` characters of `s` (all of them when it is shorter).
    fn char_prefix(s: &str, n: usize) -> (r: String)
        ensures
            r@ == s@.take(if n <= s@.len() { n as int } else { s@.len() as int }),
    {
        let chars = str_chars(s);
        let end: usize = if n <= chars.len() { n } else { chars.len() };
        let mut r = String::new();
        let mut i: usize = 0;
        while i < end
            invariant
                end <= chars@.len(),
                chars@ == s@,
                i <= end,
                r@ == s@.take(i as int),
            decreases end - i,
        {
            string_push(&mut r, chars[i]);
            assert(s@.take(i + 1) =~= s@.take(i as int).push(chars@[i as int]));
            i = i + 1;
        }
        r
    }

    /// The next frame in a window `output_width` columns wide, or `None` when
    /// every file is done. With no file under way, the next one (named
    /// `next_file_name`, of a random 30 to 300 MB) starts, unless the window is
    /// too narrow: then a notice is shown instead and the file counts as done.
    pub fn next_frame(&mut self, output_width: usize, next_file_name: String) -> (step: Option<DownloadStep>)
        requires
            old(self).wf(),
        ensures
            final(self).wf(),
            final(self).extension_spec() == old(self).extension_spec(),
            final(self).speed_spec() == old(self).speed_spec(),
            old(self).current_spec() is None && old(self).remaining_spec() == 0 ==> {
                &&& step is None
                &&& final(self).remaining_spec() == 0
                &&& final(self).current_spec() is None
            },
            old(self).current_spec() is None && old(self).remaining_spec() > 0 && output_width
                < MIN_PROGRESS_WIDTH ==> {
                &&& step matches Some(DownloadStep::Notice(f)) && f.delay_ms == 100 && f.ops@.len() == 2
                    && f.ops@[1] == CoverOp::NewLine && (f.ops@[0] matches CoverOp::Write(t)
                    && t@ == "Terminal too small to display download progress"@)
                &&& final(self).remaining_spec() == old(self).remaining_spec() - 1
                &&& final(self).current_spec() is None
            },
            (old(self).current_spec() is Some || (old(self).remaining_spec() > 0 && output_width
                >= MIN_PROGRESS_WIDTH)) ==> (step matches Some(DownloadStep::Progress(p)) && {
                let file = match old(self).current_spec() {
                    Some(f) => f,
                    None => DownloadFile {
                        file_name: next_file_name,
                        file_bytes: p.file_bytes,
                        bytes_downloaded: 0,
                    },
                };
                &&& old(self).current_spec() is None ==> 30_000_000 <= p.file_bytes < 300_000_000
                &&& progress_step(file, old(self).speed_spec(), output_width as int, p, final(self).current_spec())
                &&& final(self).remaining_spec() == if p.completed {
                    old(self).remaining_spec() - 1
                } else {
                    old(self).remaining_spec() as int
                }
            }),
    {
        if self.current.is_none() {
            if self.remaining_files == 0 {
                return None;
            }
            if output_width < MIN_PROGRESS_WIDTH {
                self.remaining_files = self.remaining_files - 1;
                let ops = vec![
                    CoverOp::Write(string_from_str("Terminal too small to display download progress")),
                    CoverOp::NewLine,
                ];
                return Some(DownloadStep::Notice(CoverFrame::new(ops, 100)));
            }
            let bytes = random_in(30_000_000, 300_000_000);
            self.current = Some(DownloadFile { file_name: next_file_name, file_bytes: bytes, bytes_downloaded: 0 });
        }
        let ghost start_file = self.current.unwrap();
        let file = self.current.take().unwrap();
        let draw = random_in(0, 10_000_000);
        let offset: i64 = (draw as i64) - SPEED_JITTER;
        let sum: i64 = self.download_speed + offset;
        let actual_speed: u64 = if sum >= 100_000 { sum as u64 } else { MIN_SPEED };
        assert(actual_speed == jittered_speed(self.download_speed, offset as int));
        let bytes_incoming: u64 = (actual_speed / 1000) * 50;
        let displayed: u64 = if file.bytes_downloaded <= file.file_bytes {
            file.bytes_downloaded
        } else {
            file.file_bytes
        };
        let completed = displayed >= file.file_bytes;
        let eta_secs: u64 = (file.file_bytes - displayed) / actual_speed;
        let remaining_width: usize = if output_width >= STATS_WIDTH { output_width - STATS_WIDTH } else { 0 };
        let file_name_width: usize = remaining_width / 3;
        let padded: usize = file_name_width + BAR_PADDING;
        let rest: usize = if remaining_width >= padded { remaining_width - padded } else { 0 };
        let progress_width: usize = if rest >= 1 { rest } else { 1 };
        let shown_name = Self::char_prefix(file.file_name.as_str(), file_name_width);
        let progress = DownloadProgress {
            file_name: shown_name,
            file_name_width,
            displayed_bytes: displayed,
            file_bytes: file.file_bytes,
            progress_width,
            bytes_incoming,
            actual_speed,
            eta_secs,
            completed,
        };
        if completed {
            self.remaining_files = self.remaining_files - 1;
        } else {
            let downloaded = file.bytes_downloaded.saturating_add(bytes_incoming);
            self.current = Some(DownloadFile { bytes_downloaded: downloaded, ..file });
        }
        Some(DownloadStep::Progress(progress))
    }
}

/// The frame of a progress line `line`: it replaces the cursor line, is ended
/// when the file is complete, and stays for 50 ms.
pub fn progress_frame(line: String, completed: bool) -> (frame: CoverFrame)
    ensures
        frame.ops@ == if completed {
            seq![CoverOp::EraseLine, CoverOp::Write(line), CoverOp::NewLine]
        } else {
            seq![CoverOp::EraseLine, CoverOp::Write(line)]
        },
        frame.delay_ms == 50,
{
    let mut ops = vec![CoverOp::EraseLine, CoverOp::Write(line)];
    if completed {
        ops.push(CoverOp::NewLine);
    }
    CoverFrame::new(ops, 50)
}

} // verus!
