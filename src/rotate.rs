use crate::lines::contents;
use crate::naming::{
    append_bytes, archive_stem, candidate, candidate_name, format_day, gz, gz_name, labelled,
    listing_dir, listing_dir_of, probe_list, probe_paths, sweep_list, sweep_targets, ymd_label,
    FIRST_DAY, LAST_DAY,
};
use vstd::prelude::*;

verus! {

/// The size threshold when none is configured: 16 MiB.
pub const DEFAULT_SIZE_LIMIT: u64 = 16777216;

/// When the live file is rotated.
#[derive(Clone, Copy, Debug, PartialEq, Eq, Structural)]
pub enum CutMode {
    /// Once the next write would take the file past the size threshold.
    Size,
    /// On the first write after the calendar day changed.
    Daily,
}

/// What opening the live file found: its length and the day it was last modified.
#[derive(Clone, Copy, Debug, PartialEq, Eq, Structural)]
pub struct FileInfo {
    pub len: u64,
    pub modified_day: i32,
}

/// Where the engine stands in the handling of one write.
#[derive(Clone, Copy, Debug, PartialEq, Eq, Structural)]
pub enum Phase {
    /// No write in progress.
    Idle,
    /// Waiting for the live file to be opened.
    Opening,
    /// Waiting to learn whether the `n`-th archive name is taken.
    Probing { n: u64 },
    /// Waiting for the live file to be renamed to the archive name.
    Renaming,
    /// Waiting for the archive to be compressed.
    Compressing,
    /// Waiting for the listing of the live file's directory.
    Sweeping,
    /// Waiting for expired archives to be removed.
    Removing,
}

/// What the filesystem side reports back to the engine.
pub enum Event {
    /// A line of `len` bytes is to be written; `today` is the local day
    /// number, counted from the common era.
    Write { len: u64, today: i32 },
    /// The live file is open; `existing` describes it when it was already
    /// there, and is `None` when it was created.
    Opened { existing: Option<FileInfo> },
    /// The live file could not be opened.
    OpenFailed,
    /// Whether any of the probed files exists.
    Probed { taken: bool },
    /// Whether the rename succeeded.
    Renamed { ok: bool },
    /// Whether the compression succeeded.
    Compressed { ok: bool },
    /// The names of the files in the listed directory.
    Listed { names: Vec<Vec<u8>> },
    /// The removals were attempted.
    Removed,
}

/// What the engine asks the filesystem side to do next.
pub enum Action {
    /// Open `path` for appending, creating it when absent; answer `Opened`
    /// or `OpenFailed`.
    Open { path: Vec<u8> },
    /// Write the whole line to the open live file in one write; the write is done.
    Write,
    /// The line cannot be written, as no file could be opened; the write is done.
    Skip,
    /// Report whether any of `paths` exists; answer `Probed`.
    Probe { paths: Vec<Vec<u8>> },
    /// Flush and close the live file, then rename `from` to `to`; answer `Renamed`.
    Rotate { from: Vec<u8>, to: Vec<u8> },
    /// Compress `from` into `to` and delete `from`; answer `Compressed`.
    Compress { from: Vec<u8>, to: Vec<u8> },
    /// List the names of the files in `dir`; answer `Listed`.
    List { dir: Vec<u8> },
    /// Remove each of `paths`, going on past failures; answer `Removed`.
    Remove { paths: Vec<Vec<u8>> },
    /// The event was not expected now; nothing changed.
    Ignore,
}

/// The rotation engine: decides, write by write, when the live file is
/// rotated, under which archive name, and what the retention sweep removes.
/// It holds no file itself: each `Action` is carried out by the caller,
/// who reports the outcome as the next `Event`.
pub struct Rotation {
    path: Vec<u8>,
    mode: CutMode,
    size_limit: u64,
    compress: bool,
    keep_days: i64,
    open: bool,
    cur_size: u64,
    create_day: i32,
    phase: Phase,
    len: u64,
    today: i32,
    rotated: bool,
    label: Vec<u8>,
    archive: Vec<u8>,
}

impl Rotation {
    /// The path of the live file.
    pub closed spec fn path_view(&self) -> Seq<u8> {
        self.path@
    }

    /// The rotation policy.
    pub closed spec fn mode_view(&self) -> CutMode {
        self.mode
    }

    /// The size threshold of the size policy.
    pub closed spec fn size_limit_view(&self) -> u64 {
        self.size_limit
    }

    /// Whether archives are compressed.
    pub closed spec fn compress_view(&self) -> bool {
        self.compress
    }

    /// The retention in days; 0 or less keeps every archive.
    pub closed spec fn keep_days_view(&self) -> i64 {
        self.keep_days
    }

    /// A live file is open (the caller holds its handle).
    pub closed spec fn is_open(&self) -> bool {
        self.open
    }

    /// Bytes in the live file, as far as the engine has counted them.
    pub closed spec fn cur_size_view(&self) -> u64 {
        self.cur_size
    }

    /// The day the live file was created or last modified when opened.
    pub closed spec fn create_day_view(&self) -> i32 {
        self.create_day
    }

    /// Where the handling of the current write stands.
    pub closed spec fn phase_view(&self) -> Phase {
        self.phase
    }

    /// The length of the line being written.
    pub closed spec fn pending_len(&self) -> u64 {
        self.len
    }

    /// The day on which the write in progress happens.
    pub closed spec fn pending_day(&self) -> i32 {
        self.today
    }

    /// A rotation was attempted for the write in progress.
    pub closed spec fn has_rotated(&self) -> bool {
        self.rotated
    }

    /// The archive name taken by the rotation in progress.
    pub closed spec fn archive_view(&self) -> Seq<u8> {
        self.archive@
    }

    /// The configuration that no write changes.
    pub open spec fn same_config(&self, other: &Rotation) -> bool {
        &&& self.path_view() == other.path_view()
        &&& self.mode_view() == other.mode_view()
        &&& self.size_limit_view() == other.size_limit_view()
        &&& self.compress_view() == other.compress_view()
        &&& self.keep_days_view() == other.keep_days_view()
    }

    /// The live file may take a write of `len` bytes on `today` without a
    /// rotation: under the size policy while it stays within the threshold,
    /// under the daily policy while the day has not changed. A day outside
    /// years 1 to 9999 has no archive name and never rotates.
    pub open spec fn admits(&self, len: u64, today: i32) -> bool {
        ||| !labelled(today as int)
        ||| (self.mode_view() == CutMode::Size && self.cur_size_view() + len
            <= self.size_limit_view())
        ||| (self.mode_view() == CutMode::Daily && self.create_day_view() == today)
    }

    /// The byte count after a write of `len` bytes, saturating.
    pub open spec fn size_after(&self, len: u64) -> u64 {
        if self.mode_view() == CutMode::Size {
            if self.cur_size_view() + len <= u64::MAX {
                (self.cur_size_view() + len) as u64
            } else {
                u64::MAX
            }
        } else {
            self.cur_size_view()
        }
    }

    /// The number of the first archive name tried: the size policy always
    /// numbers its archives, the daily policy first tries the bare name.
    pub open spec fn first_index(&self) -> nat {
        if self.mode_view() == CutMode::Size {
            1
        } else {
            0
        }
    }

    /// The `n`-th archive name on `day`.
    pub open spec fn archive_name(&self, day: i32, n: nat) -> Seq<u8> {
        candidate(self.path_view(), ymd_label(day as int), n)
    }

    /// Retention applies to the write in progress: it is configured, and
    /// the expiry day has a label.
    pub open spec fn sweeps(&self) -> bool {
        self.keep_days_view() > 0 && labelled(self.pending_day() - self.keep_days_view())
    }

    /// The files a sweep removes among the listed `names`.
    pub open spec fn expired(&self, names: Seq<Seq<u8>>) -> Seq<Seq<u8>> {
        sweep_targets(
            names,
            self.path_view(),
            ymd_label(self.pending_day() - self.keep_days_view()),
        )
    }

    /// This state follows `prev` once a write of `len` bytes went to the
    /// live file.
    pub open spec fn wrote(&self, prev: &Rotation, len: u64) -> bool {
        &&& self.phase_view() == Phase::Idle
        &&& self.is_open()
        &&& self.cur_size_view() == prev.size_after(len)
        &&& self.create_day_view() == prev.create_day_view()
    }

    /// This state follows `prev` when a rotation starts on `day` with
    /// `action`: the first archive name is probed, and the live file stays
    /// open until the rename.
    pub open spec fn starts_rotation(&self, prev: &Rotation, day: i32, action: Action) -> bool {
        &&& self.phase_view() == (Phase::Probing { n: prev.first_index() as u64 })
        &&& self.is_open() == prev.is_open()
        &&& self.cur_size_view() == prev.cur_size_view()
        &&& self.create_day_view() == prev.create_day_view()
        &&& action matches Action::Probe { paths } && contents(paths@) == probe_paths(
            prev.archive_name(day, prev.first_index()),
            prev.compress_view(),
        )
    }

    /// `action` ends an archive's handling: it lists the directory for the
    /// retention sweep, or, without one, reopens the live file.
    pub open spec fn after_archive(&self, prev: &Rotation, action: Action) -> bool {
        if prev.sweeps() {
            &&& self.phase_view() == Phase::Sweeping
            &&& action matches Action::List { dir } && dir@ == listing_dir(prev.path_view())
        } else {
            self.reopens(action)
        }
    }

    /// `action` opens the live file.
    pub open spec fn reopens(&self, action: Action) -> bool {
        &&& self.phase_view() == Phase::Opening
        &&& action matches Action::Open { path } && path@ == self.path_view()
    }

    /// The same write goes on: its length, day and rotation mark are kept.
    pub open spec fn same_write(&self, prev: &Rotation) -> bool {
        &&& self.pending_len() == prev.pending_len()
        &&& self.pending_day() == prev.pending_day()
        &&& self.has_rotated() == prev.has_rotated()
    }

    /// The state as it stands right after the live file was opened.
    pub open spec fn opened_with(&self, prev: &Rotation, existing: Option<FileInfo>) -> bool {
        &&& self.is_open()
        &&& self.same_config(prev)
        &&& self.same_write(prev)
        &&& self.cur_size_view() == match existing {
            Some(info) => info.len,
            None => 0,
        }
        &&& self.create_day_view() == match existing {
            Some(info) => info.modified_day,
            None => prev.pending_day(),
        }
    }

    /// One step of the engine: `action` and the state `new` follow the
    /// state `prev` on `event`.
    pub open spec fn transition(prev: &Rotation, event: Event, new: &Rotation, action: Action) -> bool {
        &&& new.same_config(prev)
        &&& match prev.phase_view() {
            Phase::Idle => match event {
                Event::Write { len, today } => {
                    &&& new.pending_len() == len
                    &&& new.pending_day() == today
                    &&& !new.has_rotated()
                    &&& if !prev.is_open() {
                        new.reopens(action) && !new.is_open()
                    } else if prev.admits(len, today) {
                        new.wrote(prev, len) && action is Write
                    } else {
                        new.starts_rotation(prev, today, action)
                    }
                },
                _ => action is Ignore && *new == *prev,
            },
            Phase::Opening => match event {
                Event::Opened { existing } => exists|mid: Rotation|
                    {
                        &&& #[trigger] mid.opened_with(prev, existing)
                        &&& new.same_write(prev)
                        &&& if prev.has_rotated() || mid.admits(prev.pending_len(), prev.pending_day()) {
                            new.wrote(&mid, prev.pending_len()) && action is Write
                        } else {
                            new.starts_rotation(&mid, prev.pending_day(), action)
                        }
                    },
                Event::OpenFailed => {
                    &&& action is Skip
                    &&& new.phase_view() == Phase::Idle
                    &&& !new.is_open()
                },
                _ => action is Ignore && *new == *prev,
            },
            Phase::Probing { n } => match event {
                Event::Probed { taken } => {
                    &&& new.pending_len() == prev.pending_len()
                    &&& new.pending_day() == prev.pending_day()
                    &&& taken ==> new.has_rotated() == prev.has_rotated()
                    &&& if !taken {
                        &&& new.phase_view() == Phase::Renaming
                        &&& !new.is_open()
                        &&& new.has_rotated()
                        &&& new.archive_view() == prev.archive_name(prev.pending_day(), n as nat)
                        &&& action matches Action::Rotate { from, to } && from@ == prev.path_view()
                            && to@ == new.archive_view()
                    } else if n < u64::MAX {
                        &&& new.phase_view() == (Phase::Probing { n: (n + 1) as u64 })
                        &&& new.is_open() == prev.is_open()
                        &&& new.cur_size_view() == prev.cur_size_view()
                        &&& action matches Action::Probe { paths } && contents(paths@)
                            == probe_paths(
                            prev.archive_name(prev.pending_day(), (n + 1) as nat),
                            prev.compress_view(),
                        )
                    } else {
                        new.wrote(prev, prev.pending_len()) && action is Write
                    }
                },
                _ => action is Ignore && *new == *prev,
            },
            Phase::Renaming => match event {
                Event::Renamed { ok } => {
                    &&& new.same_write(prev)
                    &&& !new.is_open()
                    &&& if !ok {
                        new.reopens(action)
                    } else if prev.compress_view() {
                        &&& new.phase_view() == Phase::Compressing
                        &&& new.archive_view() == prev.archive_view()
                        &&& action matches Action::Compress { from, to } && from@
                            == prev.archive_view() && to@ == gz(prev.archive_view())
                    } else {
                        new.after_archive(prev, action)
                    }
                },
                _ => action is Ignore && *new == *prev,
            },
            Phase::Compressing => match event {
                Event::Compressed { ok } => {
                    &&& new.same_write(prev)
                    &&& !new.is_open()
                    &&& new.after_archive(prev, action)
                },
                _ => action is Ignore && *new == *prev,
            },
            Phase::Sweeping => match event {
                Event::Listed { names } => {
                    &&& new.same_write(prev)
                    &&& !new.is_open()
                    &&& new.phase_view() == Phase::Removing
                    &&& action matches Action::Remove { paths } && contents(paths@)
                        == prev.expired(contents(names@))
                },
                _ => action is Ignore && *new == *prev,
            },
            Phase::Removing => match event {
                Event::Removed => {
                    &&& new.same_write(prev)
                    &&& !new.is_open()
                    &&& new.reopens(action)
                },
                _ => action is Ignore && *new == *prev,
            },
        }
    }

    /// The engine's internal consistency, which every step keeps.
    pub closed spec fn wf(&self) -> bool {
        &&& match self.phase {
            Phase::Idle => true,
            Phase::Opening => !self.open,
            Phase::Probing { n } => {
                &&& self.open
                &&& labelled(self.today as int)
                &&& self.label@ == ymd_label(self.today as int)
            },
            Phase::Sweeping => !self.open && self.sweeps(),
            _ => !self.open,
        }
    }

    /// A fresh engine: no file open yet, no write in progress. The path
    /// defaults to `logs/out` and the size threshold to 16 MiB.
    pub fn new(
        path: Option<Vec<u8>>,
        mode: CutMode,
        size_limit: Option<u64>,
        compress: bool,
        keep_days: i64,
    ) -> (r: Self)
        ensures
            path is Some ==> r.path_view() == path->0@,
            path is None ==> r.path_view() == seq![108u8, 111, 103, 115, 47, 111, 117, 116],
            size_limit is Some ==> r.size_limit_view() == size_limit->0,
            size_limit is None ==> r.size_limit_view() == DEFAULT_SIZE_LIMIT,
            r.mode_view() == mode,
            r.compress_view() == compress,
            r.keep_days_view() == keep_days,
            !r.is_open(),
            r.cur_size_view() == 0,
            r.phase_view() == Phase::Idle,
            r.wf(),
    {
        let path = match path {
            Some(p) => p,
            None => vec![108u8, 111, 103, 115, 47, 111, 117, 116],
        };
        let size_limit = match size_limit {
            Some(s) => s,
            None => DEFAULT_SIZE_LIMIT,
        };
        Rotation {
            path,
            mode,
            size_limit,
            compress,
            keep_days,
            open: false,
            cur_size: 0,
            create_day: 0,
            phase: Phase::Idle,
            len: 0,
            today: 0,
            rotated: false,
            label: Vec::new(),
            archive: Vec::new(),
        }
    }

    /// The path of the live file.
    pub fn path(&self) -> (r: &[u8])
        ensures
            r@ == self.path_view(),
    {
        self.path.as_slice()
    }

    fn admits_now(&self) -> (r: bool)
        ensures
            r == self.admits(self.len, self.today),
    {
        if !(FIRST_DAY <= self.today && self.today <= LAST_DAY) {
            return true;
        }
        match self.mode {
            CutMode::Size => self.len <= self.size_limit && self.cur_size <= self.size_limit
                - self.len,
            CutMode::Daily => self.create_day == self.today,
        }
    }

    fn copy_path(&self) -> (r: Vec<u8>)
        ensures
            r@ == self.path@,
    {
        let mut r: Vec<u8> = Vec::new();
        append_bytes(&mut r, self.path.as_slice());
        r
    }

    fn account(&mut self) -> (action: Action)
        requires
            old(self).open,
        ensures
            final(self).wrote(old(self), old(self).len),
            final(self).same_config(old(self)),
            final(self).same_write(old(self)),
            final(self).wf(),
            action is Write,
    {
        if self.mode == CutMode::Size {
            self.cur_size = if self.len <= u64::MAX - self.cur_size {
                self.cur_size + self.len
            } else {
                u64::MAX
            };
        }
        self.phase = Phase::Idle;
        Action::Write
    }

    fn begin_rotation(&mut self) -> (action: Action)
        requires
            labelled(old(self).today as int),
            old(self).open,
        ensures
            final(self).starts_rotation(old(self), old(self).today, action),
            final(self).same_config(old(self)),
            final(self).same_write(old(self)),
            final(self).wf(),
    {
        self.label = format_day(self.today);
        let n: u64 = if self.mode == CutMode::Size {
            1
        } else {
            0
        };
        self.phase = Phase::Probing { n };
        let name = candidate_name(self.path.as_slice(), self.label.as_slice(), n);
        Action::Probe { paths: probe_list(name.as_slice(), self.compress) }
    }

    fn finish_archive(&mut self) -> (action: Action)
        requires
            !old(self).open,
        ensures
            final(self).after_archive(old(self), action),
            final(self).same_config(old(self)),
            final(self).same_write(old(self)),
            !final(self).is_open(),
            final(self).wf(),
    {
        if self.keep_days > 0 && self.keep_days <= self.today as i64 - FIRST_DAY as i64
            && self.today as i64 - self.keep_days <= LAST_DAY as i64 {
            self.phase = Phase::Sweeping;
            Action::List { dir: listing_dir_of(self.path.as_slice()) }
        } else {
            self.phase = Phase::Opening;
            Action::Open { path: self.copy_path() }
        }
    }

    /// Advances the engine by one event and returns what the caller does
    /// next. A write starts with `Event::Write` in the idle phase and ends
    /// with `Action::Write` or `Action::Skip`; in between, the caller answers
    /// each action with its outcome. An event that does not fit the phase
    /// is answered with `Action::Ignore` and changes nothing.
    pub fn step(&mut self, event: Event) -> (action: Action)
        requires
            old(self).wf(),
        ensures
            final(self).wf(),
            Rotation::transition(old(self), event, final(self), action),
    {
        let ghost old_self = *self;
        match self.phase {
            Phase::Idle => match event {
                Event::Write { len, today } => {
                    self.len = len;
                    self.today = today;
                    self.rotated = false;
                    if !self.open {
                        self.phase = Phase::Opening;
                        Action::Open { path: self.copy_path() }
                    } else if self.admits_now() {
                        self.account()
                    } else {
                        self.begin_rotation()
                    }
                },
                _ => Action::Ignore,
            },
            Phase::Opening => match event {
                Event::Opened { existing } => {
                    self.open = true;
                    match existing {
                        Some(info) => {
                            self.cur_size = info.len;
                            self.create_day = info.modified_day;
                        },
                        None => {
                            self.cur_size = 0;
                            self.create_day = self.today;
                        },
                    }
                    let ghost mid = *self;
                    assert(mid.opened_with(&old_self, existing));
                    if self.rotated || self.admits_now() {
                        self.account()
                    } else {
                        self.begin_rotation()
                    }
                },
                Event::OpenFailed => {
                    self.phase = Phase::Idle;
                    Action::Skip
                },
                _ => Action::Ignore,
            },
            Phase::Probing { n } => match event {
                Event::Probed { taken } => {
                    if !taken {
                        self.archive = candidate_name(self.path.as_slice(), self.label.as_slice(), n);
                        self.open = false;
                        self.rotated = true;
                        self.phase = Phase::Renaming;
                        let mut to: Vec<u8> = Vec::new();
                        append_bytes(&mut to, self.archive.as_slice());
                        Action::Rotate { from: self.copy_path(), to }
                    } else if n < u64::MAX {
                        self.phase = Phase::Probing { n: n + 1 };
                        let name = candidate_name(self.path.as_slice(), self.label.as_slice(), n + 1);
                        Action::Probe { paths: probe_list(name.as_slice(), self.compress) }
                    } else {
                        self.account()
                    }
                },
                _ => Action::Ignore,
            },
            Phase::Renaming => match event {
                Event::Renamed { ok } => {
                    if !ok {
                        self.phase = Phase::Opening;
                        Action::Open { path: self.copy_path() }
                    } else if self.compress {
                        self.phase = Phase::Compressing;
                        let mut from: Vec<u8> = Vec::new();
                        append_bytes(&mut from, self.archive.as_slice());
                        Action::Compress { from, to: gz_name(self.archive.as_slice()) }
                    } else {
                        self.finish_archive()
                    }
                },
                _ => Action::Ignore,
            },
            Phase::Compressing => match event {
                Event::Compressed { ok } => self.finish_archive(),
                _ => Action::Ignore,
            },
            Phase::Sweeping => match event {
                Event::Listed { names } => {
                    let expiry: i32 = (self.today as i64 - self.keep_days) as i32;
                    let label = format_day(expiry);
                    self.phase = Phase::Removing;
                    Action::Remove { paths: sweep_list(&names, self.path.as_slice(), label.as_slice()) }
                },
                _ => Action::Ignore,
            },
            Phase::Removing => match event {
                Event::Removed => {
                    self.phase = Phase::Opening;
                    Action::Open { path: self.copy_path() }
                },
                _ => Action::Ignore,
            },
        }
    }

    /// Ends the engine's use of the live file: returns whether one was open,
    /// which the caller then flushes and closes. Closing twice is harmless.
    pub fn close(&mut self) -> (was_open: bool)
        requires
            old(self).wf(),
        ensures
            was_open == old(self).is_open(),
            !final(self).is_open(),
            final(self).phase_view() == Phase::Idle,
            final(self).same_config(old(self)),
            final(self).wf(),
    {
        let was_open = self.open;
        self.open = false;
        self.phase = Phase::Idle;
        was_open
    }
}

/// Size policy: with the live file open, a write of `len` bytes goes in
/// place exactly when the counted size plus `len` stays within the
/// threshold; otherwise a rotation comes first.
pub proof fn lemma_size_policy(prev: Rotation, len: u64, today: i32, new: Rotation, action: Action)
    requires
        Rotation::transition(&prev, Event::Write { len, today }, &new, action),
        prev.phase_view() == Phase::Idle,
        prev.is_open(),
        prev.mode_view() == CutMode::Size,
        labelled(today as int),
    ensures
        action is Write <==> prev.cur_size_view() + len <= prev.size_limit_view(),
        !(action is Write) ==> action is Probe && new.phase_view() == (Phase::Probing { n: 1 }),
{
}

/// Daily policy: with the live file open, writes go in place while the day
/// it was opened on is the current day; the first write on another day
/// starts a rotation first.
pub proof fn lemma_daily_policy(prev: Rotation, len: u64, today: i32, new: Rotation, action: Action)
    requires
        Rotation::transition(&prev, Event::Write { len, today }, &new, action),
        prev.phase_view() == Phase::Idle,
        prev.is_open(),
        prev.mode_view() == CutMode::Daily,
        labelled(today as int),
    ensures
        action is Write <==> prev.create_day_view() == today,
        !(action is Write) ==> action is Probe && new.phase_view() == (Phase::Probing { n: 0 }),
{
}

/// A write rotates at most once: once a rotation was attempted for it, the
/// reopened live file takes the write, whatever it holds.
pub proof fn lemma_one_rotation_per_write(
    prev: Rotation,
    existing: Option<FileInfo>,
    new: Rotation,
    action: Action,
)
    requires
        Rotation::transition(&prev, Event::Opened { existing }, &new, action),
        prev.phase_view() == Phase::Opening,
        prev.has_rotated(),
    ensures
        action is Write,
        new.phase_view() == Phase::Idle,
        new.is_open(),
{
}

/// A line goes to disk in one piece: the engine asks for its write only
/// with the live file open and the write's handling finished, so no
/// rename, compression or removal comes between its first and last byte.
pub proof fn lemma_write_is_whole(prev: Rotation, event: Event, new: Rotation, action: Action)
    requires
        Rotation::transition(&prev, event, &new, action),
        action is Write,
    ensures
        new.is_open(),
        new.phase_view() == Phase::Idle,
{
}

/// Archive naming: under the daily policy a rotation first tries the bare
/// name `<path>.<day>`, the size policy `<path>.<day>-1`; each name found
/// taken moves the search to the next number; every step that waits on the
/// `m`-th name has just probed that name (and, under compression, its `.gz`
/// form), and the live file is renamed only to the name whose probe found
/// it free, so no archive is overwritten.
pub proof fn lemma_archive_naming(prev: Rotation, event: Event, new: Rotation, action: Action)
    requires
        Rotation::transition(&prev, event, &new, action),
    ensures
        event matches Event::Write { len, today } ==> (prev.phase_view() == Phase::Idle
            && prev.is_open() && !prev.admits(len, today) ==> (action matches Action::Probe {
            paths,
        } && contents(paths@)[0] == candidate(
            prev.path_view(),
            ymd_label(today as int),
            prev.first_index(),
        ))),
        prev.mode_view() == CutMode::Daily ==> prev.first_index() == 0 && candidate(
            prev.path_view(),
            ymd_label(prev.pending_day() as int),
            0,
        ) == archive_stem(prev.path_view(), ymd_label(prev.pending_day() as int)),
        prev.phase_view() matches Phase::Probing { n } ==> (n < u64::MAX && event == (
        Event::Probed { taken: true }) ==> (action matches Action::Probe { paths } && contents(
            paths@,
        )[0] == prev.archive_name(prev.pending_day(), (n + 1) as nat))),
        prev.phase_view() matches Phase::Probing { n } ==> (event == (Event::Probed {
            taken: false,
        }) ==> (action matches Action::Rotate { from, to } && from@ == prev.path_view() && to@
            == prev.archive_name(prev.pending_day(), n as nat))),
        new.phase_view() matches Phase::Probing { n: m } ==> (!(action is Ignore) ==> (
        action matches Action::Probe { paths } && contents(paths@) == probe_paths(
            prev.archive_name(new.pending_day(), m as nat),
            prev.compress_view(),
        ))),
{
}

} // verus!
