//! The task data model: time chunks, task status, tasks, and the
//! duration-accrual computation.

use vstd::prelude::*;
use vstd::string::*;

use crate::digits::pad2_spec;
use crate::digits::pad2_u64;

verus! {

/// Largest timestamp the model admits: the last second of year 9999,
/// the top of the range a four-digit-year RFC 3339 string can carry.
pub const MAX_TIMESTAMP: i64 = 253402300799;

/// A timestamp the model admits: whole seconds since the Unix epoch,
/// non-negative and small enough for a four-digit year.
pub open spec fn valid_ts(t: i64) -> bool {
    0 <= t <= MAX_TIMESTAMP
}

/// One contiguous interval of active work. An absent `end_time` means
/// the chunk is still open: work is ongoing.
#[derive(Clone, Copy, Debug)]
pub struct TimeChunk {
    pub start_time: i64,
    pub end_time: Option<i64>,
}

/// A chunk is well formed when its timestamps are valid and it does not
/// end before it starts.
pub open spec fn chunk_wf(c: TimeChunk) -> bool {
    &&& valid_ts(c.start_time)
    &&& match c.end_time {
        Some(e) => valid_ts(e) && c.start_time <= e,
        None => true,
    }
}

/// Every timestamp of the chunk lies at or before `t`.
pub open spec fn chunk_le(c: TimeChunk, t: i64) -> bool {
    &&& c.start_time <= t
    &&& (c.end_time is Some ==> c.end_time->0 <= t)
}

/// The lifecycle state of a task.
#[derive(Clone, Copy, Debug, PartialEq, Eq, Structural)]
pub enum TaskStatus {
    Running,
    Paused,
    Stopped,
}

/// A named task and the ordered chunks of work recorded for it.
///
/// `paused_duration` is carried only because the persisted format has a
/// slot for it; no operation reads it or writes anything but zero.
#[derive(Clone, Debug)]
pub struct Task {
    pub name: String,
    pub time_chunks: Vec<TimeChunk>,
    pub paused_duration: u64,
    pub status: TaskStatus,
}

/// The mathematical shape of a task.
#[verifier::ext_equal]
pub ghost struct TaskV {
    pub name: Seq<char>,
    pub chunks: Seq<TimeChunk>,
    pub paused_duration: u64,
    pub status: TaskStatus,
}

impl View for Task {
    type V = TaskV;

    open spec fn view(&self) -> TaskV {
        TaskV {
            name: self.name@,
            chunks: self.time_chunks@,
            paused_duration: self.paused_duration,
            status: self.status,
        }
    }
}

/// The task invariant: at least one chunk; every chunk well formed; only
/// the last chunk may be open; chunks do not overlap and run in order;
/// and the task is Running exactly when its last chunk is open.
pub open spec fn task_wf(t: TaskV) -> bool {
    &&& t.chunks.len() >= 1
    &&& forall|i: int| 0 <= i < t.chunks.len() ==> chunk_wf(#[trigger] t.chunks[i])
    &&& forall|i: int| 0 <= i < t.chunks.len() - 1 ==> (#[trigger] t.chunks[i]).end_time is Some
    &&& forall|i: int|
        0 <= i < t.chunks.len() - 1 ==> (#[trigger] t.chunks[i]).end_time->0
            <= t.chunks[i + 1].start_time
    &&& (t.status is Running <==> t.chunks.last().end_time is None)
}

/// Every timestamp of the task lies at or before `t`.
pub open spec fn task_le(t: TaskV, now: i64) -> bool {
    forall|i: int| 0 <= i < t.chunks.len() ==> chunk_le(#[trigger] t.chunks[i], now)
}

/// The instant a chunk stops counting at: its end, or `now` while open.
pub open spec fn eff_end(c: TimeChunk, now: i64) -> int {
    match c.end_time {
        Some(e) => e as int,
        None => now as int,
    }
}

/// Seconds one chunk contributes to accrual as of `now`: a closed chunk
/// contributes its length; an open chunk contributes the time elapsed
/// since its start when the task is Running, and nothing otherwise.
pub open spec fn chunk_secs(c: TimeChunk, now: i64, running: bool) -> int {
    match c.end_time {
        Some(e) => e - c.start_time,
        None => if running {
            now - c.start_time
        } else {
            0
        },
    }
}

/// Accrued seconds over the first `n` chunks.
pub open spec fn accrual_upto(chunks: Seq<TimeChunk>, running: bool, now: i64, n: int) -> int
    decreases n,
{
    if n <= 0 {
        0
    } else {
        accrual_upto(chunks, running, now, n - 1) + chunk_secs(chunks[n - 1], now, running)
    }
}

/// Total active seconds a task has accrued as of `now`: the sum of its
/// closed chunks, plus the running span of its open chunk if Running.
pub open spec fn accrual(t: TaskV, now: i64) -> int {
    accrual_upto(t.chunks, t.status is Running, now, t.chunks.len() as int)
}

/// Accrual over a prefix of a well-formed task never goes negative, and
/// never exceeds the span from the first chunk's start to the effective
/// end of the last chunk counted.
pub proof fn lemma_accrual_upto_bounds(t: TaskV, now: i64, n: int)
    requires
        task_wf(t),
        task_le(t, now),
        valid_ts(now),
        0 <= n <= t.chunks.len(),
    ensures
        0 <= accrual_upto(t.chunks, t.status is Running, now, n),
        n > 0 ==> accrual_upto(t.chunks, t.status is Running, now, n) <= eff_end(
            t.chunks[n - 1],
            now,
        ) - t.chunks[0].start_time,
    decreases n,
{
    if n > 0 {
        lemma_accrual_upto_bounds(t, now, n - 1);
    }
}

/// Accrual of a well-formed task is bounded by `now`.
pub proof fn lemma_accrual_bounds(t: TaskV, now: i64)
    requires
        task_wf(t),
        task_le(t, now),
        valid_ts(now),
    ensures
        0 <= accrual(t, now) <= now,
{
    lemma_accrual_upto_bounds(t, now, t.chunks.len() as int);
}

/// The task `start` creates: one open chunk beginning at `now`, Running.
pub open spec fn new_task_v(name: Seq<char>, now: i64) -> TaskV {
    TaskV {
        name: name,
        chunks: seq![TimeChunk { start_time: now, end_time: None }],
        paused_duration: 0,
        status: TaskStatus::Running,
    }
}

/// The task after its last chunk is closed at `now` with status `st`.
pub open spec fn close_last_v(t: TaskV, now: i64, st: TaskStatus) -> TaskV {
    TaskV {
        chunks: t.chunks.update(
            t.chunks.len() - 1,
            TimeChunk { start_time: t.chunks.last().start_time, end_time: Some(now) },
        ),
        status: st,
        ..t
    }
}

/// The task after a fresh open chunk beginning at `now` is appended.
pub open spec fn open_chunk_v(t: TaskV, now: i64) -> TaskV {
    TaskV {
        chunks: t.chunks.push(TimeChunk { start_time: now, end_time: None }),
        status: TaskStatus::Running,
        ..t
    }
}

/// What `pause` leaves behind: a Running task has its open chunk closed
/// at `now` and becomes Paused; any other task is untouched.
pub open spec fn pause_v(t: TaskV, now: i64) -> TaskV {
    if t.status is Running {
        close_last_v(t, now, TaskStatus::Paused)
    } else {
        t
    }
}

/// What `resume` leaves behind: a Paused task gains an open chunk at
/// `now` and becomes Running; any other task is untouched.
pub open spec fn resume_v(t: TaskV, now: i64) -> TaskV {
    if t.status is Paused {
        open_chunk_v(t, now)
    } else {
        t
    }
}

/// What `stop` leaves behind: the last chunk ends at `now` (overwriting
/// an earlier end if the task was not Running) and the task is Stopped.
pub open spec fn stop_v(t: TaskV, now: i64) -> TaskV {
    close_last_v(t, now, TaskStatus::Stopped)
}

impl Task {
    /// A brand-new task: Running, with a single open chunk starting now.
    pub fn new(name: &str, now: i64) -> (t: Task)
        requires
            valid_ts(now),
        ensures
            t@ == new_task_v(name@, now),
            task_wf(t@),
            task_le(t@, now),
    {
        let mut chunks: Vec<TimeChunk> = Vec::new();
        chunks.push(TimeChunk { start_time: now, end_time: None });
        let t = Task {
            name: name.to_owned(),
            time_chunks: chunks,
            paused_duration: 0,
            status: TaskStatus::Running,
        };
        proof {
            assert(t@ =~= new_task_v(name@, now));
        }
        t
    }

    /// Close the last chunk at `now` and mark the task Stopped.
    pub fn stop(&mut self, now: i64)
        requires
            task_wf(old(self)@),
            task_le(old(self)@, now),
            valid_ts(now),
        ensures
            final(self)@ == stop_v(old(self)@, now),
            task_wf(final(self)@),
            task_le(final(self)@, now),
    {
        let n = self.time_chunks.len();
        let start = self.time_chunks[n - 1].start_time;
        self.time_chunks[n - 1] = TimeChunk { start_time: start, end_time: Some(now) };
        self.status = TaskStatus::Stopped;
        proof {
            assert(self@ =~= stop_v(old(self)@, now));
        }
    }

    /// If Running, close the open chunk at `now` and mark the task Paused.
    pub fn pause(&mut self, now: i64)
        requires
            task_wf(old(self)@),
            task_le(old(self)@, now),
            valid_ts(now),
        ensures
            final(self)@ == pause_v(old(self)@, now),
            task_wf(final(self)@),
            task_le(final(self)@, now),
    {
        if matches!(self.status, TaskStatus::Running) {
            let n = self.time_chunks.len();
            let start = self.time_chunks[n - 1].start_time;
            self.time_chunks[n - 1] = TimeChunk { start_time: start, end_time: Some(now) };
            self.status = TaskStatus::Paused;
            proof {
                assert(self@ =~= pause_v(old(self)@, now));
            }
        }
    }

    /// If Paused, open a fresh chunk at `now` and mark the task Running.
    pub fn resume(&mut self, now: i64)
        requires
            task_wf(old(self)@),
            task_le(old(self)@, now),
            valid_ts(now),
        ensures
            final(self)@ == resume_v(old(self)@, now),
            task_wf(final(self)@),
            task_le(final(self)@, now),
    {
        if matches!(self.status, TaskStatus::Paused) {
            self.time_chunks.push(TimeChunk { start_time: now, end_time: None });
            self.status = TaskStatus::Running;
            proof {
                assert(self@ =~= resume_v(old(self)@, now));
            }
        }
    }

    /// Whether the task satisfies its invariant. Data arriving from
    /// outside the engines must pass this before they may run on it.
    pub fn is_well_formed(&self) -> (r: bool)
        ensures
            r == task_wf(self@),
    {
        let n = self.time_chunks.len();
        if n == 0 {
            return false;
        }
        let mut i: usize = 0;
        while i < n
            invariant
                0 <= i <= n,
                n == self.time_chunks@.len(),
                n >= 1,
                forall|k: int| 0 <= k < i ==> chunk_wf(#[trigger] self@.chunks[k]),
                forall|k: int| 0 <= k < i && k < n - 1 ==> (#[trigger] self@.chunks[k]).end_time is Some,
                forall|k: int|
                    0 <= k < i && k < n - 1 ==> (#[trigger] self@.chunks[k]).end_time->0
                        <= self@.chunks[k + 1].start_time,
            decreases n - i,
        {
            let c = self.time_chunks[i];
            if !(0 <= c.start_time && c.start_time <= MAX_TIMESTAMP) {
                assert(!chunk_wf(self@.chunks[i as int]));
                return false;
            }
            match c.end_time {
                Some(e) => {
                    if !(0 <= e && e <= MAX_TIMESTAMP && c.start_time <= e) {
                        assert(!chunk_wf(self@.chunks[i as int]));
                        return false;
                    }
                    if i < n - 1 && e > self.time_chunks[i + 1].start_time {
                        return false;
                    }
                },
                None => {
                    if i < n - 1 {
                        return false;
                    }
                },
            }
            i = i + 1;
        }
        let last_open = self.time_chunks[n - 1].end_time.is_none();
        let running = matches!(self.status, TaskStatus::Running);
        running == last_open
    }

    /// Whether every timestamp of the task lies at or before `t`.
    pub fn timestamps_at_or_before(&self, t: i64) -> (r: bool)
        ensures
            r == task_le(self@, t),
    {
        let n = self.time_chunks.len();
        let mut i: usize = 0;
        while i < n
            invariant
                0 <= i <= n,
                n == self.time_chunks@.len(),
                forall|k: int| 0 <= k < i ==> chunk_le(#[trigger] self@.chunks[k], t),
            decreases n - i,
        {
            let c = self.time_chunks[i];
            if c.start_time > t {
                assert(!chunk_le(self@.chunks[i as int], t));
                return false;
            }
            if let Some(e) = c.end_time {
                if e > t {
                    assert(!chunk_le(self@.chunks[i as int], t));
                    return false;
                }
            }
            i = i + 1;
        }
        true
    }

    /// Open a fresh chunk at `now` and mark the task Running again.
    /// This is how `start` revives a Paused or Stopped task.
    pub fn restart(&mut self, now: i64)
        requires
            task_wf(old(self)@),
            task_le(old(self)@, now),
            valid_ts(now),
            !(old(self)@.status is Running),
        ensures
            final(self)@ == open_chunk_v(old(self)@, now),
            task_wf(final(self)@),
            task_le(final(self)@, now),
    {
        self.time_chunks.push(TimeChunk { start_time: now, end_time: None });
        self.status = TaskStatus::Running;
        proof {
            assert(self@ =~= open_chunk_v(old(self)@, now));
        }
    }

    /// Total active seconds as of `now`, per the accrual rule: closed
    /// chunks count their length; the open chunk counts elapsed time
    /// only while the task is Running.
    pub fn accrued_seconds(&self, now: i64) -> (secs: u64)
        requires
            task_wf(self@),
            task_le(self@, now),
            valid_ts(now),
        ensures
            secs as int == accrual(self@, now),
    {
        let running = matches!(self.status, TaskStatus::Running);
        let ghost gr = self@.status is Running;
        let mut total: u64 = 0;
        let n = self.time_chunks.len();
        for i in 0..n
            invariant
                n == self.time_chunks.len(),
                task_wf(self@),
                task_le(self@, now),
                valid_ts(now),
                running == gr,
                gr == (self@.status is Running),
                total as int == accrual_upto(self@.chunks, gr, now, i as int),
                total <= MAX_TIMESTAMP,
        {
            proof {
                lemma_accrual_upto_bounds(self@, now, i as int);
                lemma_accrual_upto_bounds(self@, now, i + 1);
            }
            let c = self.time_chunks[i];
            match c.end_time {
                Some(e) => {
                    total = total + ((e - c.start_time) as u64);
                },
                None => {
                    if running {
                        total = total + ((now - c.start_time) as u64);
                    }
                },
            }
        }
        total
    }

    /// The clock display of the task's accrued time as of `now`, in
    /// the shape `00:00:00`.
    pub fn time_spent(&self, now: i64) -> (s: String)
        requires
            task_wf(self@),
            task_le(self@, now),
            valid_ts(now),
        ensures
            s@ == clock_str_spec(accrual(self@, now)),
    {
        let secs = self.accrued_seconds(now);
        let h = pad2_u64(secs / 3600);
        let m = pad2_u64((secs % 3600) / 60);
        let sec = pad2_u64(secs % 60);
        let r = h.concat(":").concat(m.as_str()).concat(":").concat(sec.as_str());
        proof {
            reveal_strlit(":");
            assert(":"@ =~= seq![':']);
            assert(r@ =~= clock_str_spec(accrual(self@, now)));
        }
        r
    }

    /// The sum of all closed chunks plus the time since the last chunk
    /// began, whatever the status: unlike the accrual rule, this charges
    /// the span since the last start unconditionally.
    pub fn chrono_duration(&self, now: i64) -> (secs: i64)
        requires
            task_wf(self@),
            task_le(self@, now),
            valid_ts(now),
        ensures
            secs as int == accrual_upto(self@.chunks, false, now, self@.chunks.len() as int) + (now
                - self@.chunks.last().start_time),
    {
        let ghost closed_only = TaskV { status: TaskStatus::Stopped, ..self@ };
        let mut total: i64 = 0;
        let n = self.time_chunks.len();
        for i in 0..n
            invariant
                n == self.time_chunks.len(),
                task_wf(self@),
                task_le(self@, now),
                valid_ts(now),
                total as int == accrual_upto(self@.chunks, false, now, i as int),
                0 <= total <= MAX_TIMESTAMP,
        {
            proof {
                lemma_closed_accrual_bounds(self@, now, i as int);
                lemma_closed_accrual_bounds(self@, now, i + 1);
            }
            let c = self.time_chunks[i];
            if let Some(e) = c.end_time {
                total = total + (e - c.start_time);
            }
        }
        total + (now - self.time_chunks[n - 1].start_time)
    }
}

/// The persisted aggregate: the whole category store, as it travels to
/// and from storage.
#[derive(Debug)]
pub struct TimePeriod {
    pub categorization: crate::categorization::Categorization,
}

/// The clock display: zero-padded hours, minutes and seconds joined by
/// colons (hours widen past two digits as needed).
pub open spec fn clock_str_spec(secs: int) -> Seq<char> {
    pad2_spec(secs / 3600) + seq![':'] + pad2_spec((secs % 3600) / 60) + seq![':'] + pad2_spec(
        secs % 60,
    )
}

/// The label the persisted format uses for each status.
pub open spec fn status_label_spec(st: TaskStatus) -> Seq<char> {
    match st {
        TaskStatus::Running => "Running"@,
        TaskStatus::Paused => "Paused"@,
        TaskStatus::Stopped => "Stopped"@,
    }
}

/// The status a persisted label denotes, if it denotes one.
pub open spec fn status_of_label_spec(s: Seq<char>) -> Option<TaskStatus> {
    if s == "Running"@ {
        Some(TaskStatus::Running)
    } else if s == "Paused"@ {
        Some(TaskStatus::Paused)
    } else if s == "Stopped"@ {
        Some(TaskStatus::Stopped)
    } else {
        None
    }
}

/// Law: a status label always parses back to the status it came from.
pub proof fn lemma_status_label_roundtrip(st: TaskStatus)
    ensures
        status_of_label_spec(status_label_spec(st)) == Some(st),
{
    reveal_strlit("Running");
    reveal_strlit("Paused");
    reveal_strlit("Stopped");
    assert("Running"@.len() == 7);
    assert("Paused"@.len() == 6);
    assert("Stopped"@.len() == 7);
    assert("Running"@[0] == 'R' && "Stopped"@[0] == 'S');
}

impl TaskStatus {
    /// The label the persisted format uses for this status.
    pub fn label(&self) -> (s: String)
        ensures
            s@ == status_label_spec(*self),
    {
        match self {
            TaskStatus::Running => String::from_str("Running"),
            TaskStatus::Paused => String::from_str("Paused"),
            TaskStatus::Stopped => String::from_str("Stopped"),
        }
    }

    /// Parse a persisted status label; anything else is `None`.
    pub fn from_label(s: &str) -> (r: Option<TaskStatus>)
        ensures
            r == status_of_label_spec(s@),
    {
        let owned = s.to_owned();
        if owned == String::from_str("Running") {
            Some(TaskStatus::Running)
        } else if owned == String::from_str("Paused") {
            Some(TaskStatus::Paused)
        } else if owned == String::from_str("Stopped") {
            Some(TaskStatus::Stopped)
        } else {
            None
        }
    }
}

/// The closed-chunk sum obeys the same bounds as full accrual.
pub proof fn lemma_closed_accrual_bounds(t: TaskV, now: i64, n: int)
    requires
        task_wf(t),
        task_le(t, now),
        valid_ts(now),
        0 <= n <= t.chunks.len(),
    ensures
        0 <= accrual_upto(t.chunks, false, now, n),
        n > 0 ==> accrual_upto(t.chunks, false, now, n) <= eff_end(t.chunks[n - 1], now)
            - t.chunks[0].start_time,
    decreases n,
{
    if n > 0 {
        lemma_closed_accrual_bounds(t, now, n - 1);
    }
}

} // verus!
