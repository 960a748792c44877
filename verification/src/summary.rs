//! The summary engine: read-only aggregation over the store.
//!
//! A task enters a window-bounded summary when its most recent chunk
//! began no longer than the window before `now`. Per category the
//! engine sums accrued durations and counts tasks by status. Here too
//! live the period parser and the duration display format.

use vstd::prelude::*;
use vstd::string::*;

use crate::categorization::{cat_le, cat_wf, store_le, store_wf, Categorization, CatV};
use crate::data::{accrual, task_le, task_wf, valid_ts, Task, TaskStatus, TaskV};
use crate::digits::{dec_spec, pad2_spec, pad2_u64};

verus! {

/// Whether a task falls inside the lookback window as of `now`:
/// `None` means unbounded; otherwise the start of the task's most
/// recent chunk must lie no more than `w` seconds back. A task with no
/// chunks recorded is never included.
pub open spec fn included(t: TaskV, now: i64, window: Option<i64>) -> bool {
    t.chunks.len() > 0 && match window {
        Some(w) => now - t.chunks.last().start_time <= w,
        None => true,
    }
}

/// Running tallies over a prefix of a category's tasks: how many tasks
/// the window admits, their summed accrual, and their statuses.
#[verifier::ext_equal]
pub ghost struct TallyV {
    pub included: int,
    pub total: int,
    pub running: int,
    pub paused: int,
    pub stopped: int,
}

/// Tallies over the first `n` tasks: excluded tasks contribute
/// nothing; an included task adds its accrual and its status count.
pub open spec fn tally(tasks: Seq<TaskV>, now: i64, window: Option<i64>, n: int) -> TallyV
    decreases n,
{
    if n <= 0 {
        TallyV { included: 0, total: 0, running: 0, paused: 0, stopped: 0 }
    } else {
        let pre = tally(tasks, now, window, n - 1);
        let t = tasks[n - 1];
        if !included(t, now, window) {
            pre
        } else {
            TallyV {
                included: pre.included + 1,
                total: pre.total + accrual(t, now),
                running: pre.running + if t.status is Running {
                    1int
                } else {
                    0int
                },
                paused: pre.paused + if t.status is Paused {
                    1int
                } else {
                    0int
                },
                stopped: pre.stopped + if t.status is Stopped {
                    1int
                } else {
                    0int
                },
            }
        }
    }
}

/// Law: the Running, Paused and Stopped counts of a tally partition
/// the tasks the window admits — they always sum to that number.
pub proof fn lemma_counts_partition(tasks: Seq<TaskV>, now: i64, window: Option<i64>, n: int)
    ensures
        ({
            let t = tally(tasks, now, window, n);
            t.running + t.paused + t.stopped == t.included
        }),
    decreases n,
{
    if n > 0 {
        lemma_counts_partition(tasks, now, window, n - 1);
    }
}

/// An integer squeezed into `u64` range.
pub open spec fn cap_u64(x: int) -> int {
    if x > u64::MAX {
        u64::MAX as int
    } else if x < 0 {
        0
    } else {
        x
    }
}

/// Whether a category passes the optional exact-name filter.
pub open spec fn matches_filter(name: Seq<char>, filter: Option<Seq<char>>) -> bool {
    match filter {
        None => true,
        Some(f) => name == f,
    }
}

/// One category's line in a summary report.
#[verifier::ext_equal]
pub ghost struct SummaryV {
    pub name: Seq<char>,
    pub total: int,
    pub running: int,
    pub paused: int,
    pub stopped: int,
}

/// The summary of one category: its tallies over all its tasks.
pub open spec fn cat_summary_v(c: CatV, now: i64, window: Option<i64>) -> SummaryV {
    let t = tally(c.tasks, now, window, c.tasks.len() as int);
    SummaryV {
        name: c.name,
        total: t.total,
        running: t.running,
        paused: t.paused,
        stopped: t.stopped,
    }
}

/// Report lines over the first `n` categories, skipping those the
/// filter rejects.
pub open spec fn summarize_upto(
    sv: Seq<CatV>,
    now: i64,
    window: Option<i64>,
    filter: Option<Seq<char>>,
    n: int,
) -> Seq<SummaryV>
    decreases n,
{
    if n <= 0 {
        Seq::empty()
    } else {
        let pre = summarize_upto(sv, now, window, filter, n - 1);
        if matches_filter(sv[n - 1].name, filter) {
            pre.push(cat_summary_v(sv[n - 1], now, window))
        } else {
            pre
        }
    }
}

/// The whole report: one line per category the filter admits, in store
/// order, with that category's windowed tallies.
pub open spec fn summary_spec(
    sv: Seq<CatV>,
    now: i64,
    window: Option<i64>,
    filter: Option<Seq<char>>,
) -> Seq<SummaryV> {
    summarize_upto(sv, now, window, filter, sv.len() as int)
}

/// The view of an optional category filter handed in from outside.
pub open spec fn opt_name_view(c: Option<&String>) -> Option<Seq<char>> {
    match c {
        None => None,
        Some(s) => Some(s@),
    }
}

/// One category's line in a summary report: total accrued seconds
/// (saturating at the top of `u64`) and task counts by status.
#[derive(Clone, Debug)]
pub struct CategorySummary {
    pub name: String,
    pub total_seconds: u64,
    pub running: usize,
    pub paused: usize,
    pub stopped: usize,
}

impl View for CategorySummary {
    type V = SummaryV;

    open spec fn view(&self) -> SummaryV {
        SummaryV {
            name: self.name@,
            total: self.total_seconds as int,
            running: self.running as int,
            paused: self.paused as int,
            stopped: self.stopped as int,
        }
    }
}

fn task_included(t: &Task, now: i64, window: Option<i64>) -> (r: bool)
    requires
        task_wf(t@),
        task_le(t@, now),
        valid_ts(now),
    ensures
        r == included(t@, now, window),
{
    let n = t.time_chunks.len();
    if n == 0 {
        return false;
    }
    match window {
        None => true,
        Some(w) => {
            let start = t.time_chunks[n - 1].start_time;
            now - start <= w
        },
    }
}

/// Tallies over all the given tasks: included count is implicit, the
/// result carries the summed accrual (saturating at the top of `u64`)
/// and the status counts.
fn tally_tasks(tasks: &Vec<Task>, now: i64, window: Option<i64>) -> (r: (u64, usize, usize, usize))
    requires
        forall|b: int|
            0 <= b < tasks@.len() ==> task_wf(#[trigger] tasks@[b]@) && task_le(tasks@[b]@, now),
        valid_ts(now),
    ensures
        ({
            let tv = Seq::new(tasks@.len(), |i: int| tasks@[i]@);
            let t = tally(tv, now, window, tv.len() as int);
            &&& r.0 as int == cap_u64(t.total)
            &&& r.1 as int == t.running
            &&& r.2 as int == t.paused
            &&& r.3 as int == t.stopped
        }),
{
    let ghost tv = Seq::new(tasks@.len(), |i: int| tasks@[i]@);
    let n = tasks.len();
    let mut total: u64 = 0;
    let mut running: usize = 0;
    let mut paused: usize = 0;
    let mut stopped: usize = 0;
    let mut ti: usize = 0;
    while ti < n
        invariant
            0 <= ti <= n,
            n == tasks@.len(),
            tv == Seq::new(tasks@.len(), |i: int| tasks@[i]@),
            forall|b: int|
                0 <= b < tasks@.len() ==> task_wf(#[trigger] tasks@[b]@) && task_le(
                    tasks@[b]@,
                    now,
                ),
            valid_ts(now),
            tally(tv, now, window, ti as int).total >= 0,
            total as int == cap_u64(tally(tv, now, window, ti as int).total),
            running as int == tally(tv, now, window, ti as int).running,
            paused as int == tally(tv, now, window, ti as int).paused,
            stopped as int == tally(tv, now, window, ti as int).stopped,
            running + paused + stopped <= ti,
        decreases n - ti,
    {
        let t = &tasks[ti];
        assert(t@ == tv[ti as int]);
        if task_included(t, now, window) {
            let d = t.accrued_seconds(now);
            proof {
                crate::data::lemma_accrual_bounds(t@, now);
            }
            if total <= u64::MAX - d {
                total = total + d;
            } else {
                total = u64::MAX;
            }
            match t.status {
                TaskStatus::Running => {
                    running = running + 1;
                },
                TaskStatus::Paused => {
                    paused = paused + 1;
                },
                TaskStatus::Stopped => {
                    stopped = stopped + 1;
                },
            }
        }
        ti = ti + 1;
    }
    (total, running, paused, stopped)
}

/// Aggregate the given tasks with no window: their summed accrual as
/// of `now` (saturating at the top of `u64`) and the counts of
/// Running, Paused and Stopped tasks.
pub fn calculate_summary(tasks: &Vec<Task>, now: i64) -> (r: (u64, usize, usize, usize))
    requires
        forall|b: int|
            0 <= b < tasks@.len() ==> task_wf(#[trigger] tasks@[b]@) && task_le(tasks@[b]@, now),
        valid_ts(now),
    ensures
        ({
            let tv = Seq::new(tasks@.len(), |i: int| tasks@[i]@);
            let t = tally(tv, now, None, tv.len() as int);
            &&& r.0 as int == cap_u64(t.total)
            &&& r.1 as int == t.running
            &&& r.2 as int == t.paused
            &&& r.3 as int == t.stopped
        }),
{
    tally_tasks(tasks, now, None)
}

/// Produce the summary report: per category the filter admits, the
/// windowed total of accrued seconds and the task counts by status.
pub fn summarize(
    store: &Categorization,
    window: Option<i64>,
    category: Option<&String>,
    now: i64,
) -> (r: Vec<CategorySummary>)
    requires
        store_wf(store@),
        store_le(store@, now),
        valid_ts(now),
    ensures
        ({
            let s = summary_spec(store@, now, window, opt_name_view(category));
            &&& r@.len() == s.len()
            &&& forall|i: int|
                0 <= i < s.len() ==> {
                    &&& (#[trigger] r@[i])@.name == s[i].name
                    &&& r@[i]@.total == cap_u64(s[i].total)
                    &&& r@[i]@.running == s[i].running
                    &&& r@[i]@.paused == s[i].paused
                    &&& r@[i]@.stopped == s[i].stopped
                }
        }),
{
    let ghost filter = opt_name_view(category);
    let mut out: Vec<CategorySummary> = Vec::new();
    let nc = store.categories.len();
    let mut ci: usize = 0;
    while ci < nc
        invariant
            0 <= ci <= nc,
            nc == store.categories@.len(),
            store@.len() == nc,
            store_wf(store@),
            store_le(store@, now),
            valid_ts(now),
            filter == opt_name_view(category),
            ({
                let s = summarize_upto(store@, now, window, filter, ci as int);
                &&& out@.len() == s.len()
                &&& forall|i: int|
                    0 <= i < s.len() ==> {
                        &&& (#[trigger] out@[i])@.name == s[i].name
                        &&& out@[i]@.total == cap_u64(s[i].total)
                        &&& out@[i]@.running == s[i].running
                        &&& out@[i]@.paused == s[i].paused
                        &&& out@[i]@.stopped == s[i].stopped
                    }
            }),
        decreases nc - ci,
    {
        let include_cat = match category {
            None => true,
            Some(f) => store.categories[ci].name == *f,
        };
        assert(include_cat == matches_filter(store@[ci as int].name, filter));
        if include_cat {
            proof {
                assert(cat_wf(store@[ci as int]));
                assert(cat_le(store@[ci as int], now));
                assert forall|b: int| 0 <= b < store.categories@[ci as int].tasks@.len() implies task_wf(
                    #[trigger] store.categories@[ci as int].tasks@[b]@,
                ) && task_le(store.categories@[ci as int].tasks@[b]@, now) by {
                    assert(store@[ci as int].tasks[b] == store.categories@[ci as int].tasks@[b]@);
                }
            }
            let (total, running, paused, stopped) = tally_tasks(
                &store.categories[ci].tasks,
                now,
                window,
            );
            let name = store.categories[ci].name.clone();
            let entry = CategorySummary { name, total_seconds: total, running, paused, stopped };
            proof {
                assert(Seq::new(
                    store.categories@[ci as int].tasks@.len(),
                    |i: int| store.categories@[ci as int].tasks@[i]@,
                ) =~= store@[ci as int].tasks);
            }
            out.push(entry);
        }
        ci = ci + 1;
    }
    out
}

/// The duration display: zero-padded hours, minutes and seconds in the
/// shape `00h 00m 00s` (hours widen past two digits as needed).
pub open spec fn duration_str_spec(secs: int) -> Seq<char> {
    pad2_spec(secs / 3600) + seq!['h', ' '] + pad2_spec((secs % 3600) / 60) + seq!['m', ' ']
        + pad2_spec(secs % 60) + seq!['s']
}

/// Render a second count for the summary report.
pub fn format_duration(secs: u64) -> (s: String)
    ensures
        s@ == duration_str_spec(secs as int),
{
    let h = pad2_u64(secs / 3600);
    let m = pad2_u64((secs % 3600) / 60);
    let sec = pad2_u64(secs % 60);
    let r = h.concat("h ").concat(m.as_str()).concat("m ").concat(sec.as_str()).concat("s");
    proof {
        reveal_strlit("h ");
        reveal_strlit("m ");
        reveal_strlit("s");
        assert("h "@ =~= seq!['h', ' ']);
        assert("m "@ =~= seq!['m', ' ']);
        assert("s"@ =~= seq!['s']);
        assert(r@ =~= duration_str_spec(secs as int));
    }
    r
}

/// Case-insensitive match of one character against a lower-case one,
/// folding only the ASCII range.
pub open spec fn ci_char_eq(a: char, b: char) -> bool {
    a == b || ('A' as u32 <= a as u32 && a as u32 <= 'Z' as u32 && a as u32 + 32 == b as u32)
}

/// Case-insensitive match against a lower-case keyword.
pub open spec fn ci_eq(s: Seq<char>, kw: Seq<char>) -> bool {
    s.len() == kw.len() && forall|i: int| 0 <= i < s.len() ==> ci_char_eq(#[trigger] s[i], kw[i])
}

/// Whether the character is a decimal digit.
pub open spec fn is_dec_digit(c: char) -> bool {
    '0' as u32 <= c as u32 && c as u32 <= '9' as u32
}

/// The value of one decimal digit.
pub open spec fn digit_val(c: char) -> int {
    c as u32 - '0' as u32
}

/// The value of a digit string, most significant first.
pub open spec fn dec_value(s: Seq<char>) -> int
    decreases s.len(),
{
    if s.len() == 0 {
        0
    } else {
        dec_value(s.drop_last()) * 10 + digit_val(s.last())
    }
}

/// Whether the string is all decimal digits, and at least one.
pub open spec fn all_digits(s: Seq<char>) -> bool {
    s.len() > 0 && forall|i: int| 0 <= i < s.len() ==> is_dec_digit(#[trigger] s[i])
}

/// A signed decimal integer parsed into `i64` range, `None` outside it
/// or on any malformed input.
pub open spec fn parse_i64_spec(s: Seq<char>) -> Option<i64> {
    let (neg, ds) = if s.len() > 0 && (s[0] == '-' || s[0] == '+') {
        (s[0] == '-', s.subrange(1, s.len() as int))
    } else {
        (false, s)
    };
    if !all_digits(ds) {
        None
    } else {
        let v = if neg {
            -dec_value(ds)
        } else {
            dec_value(ds)
        };
        if i64::MIN <= v <= i64::MAX {
            Some(v as i64)
        } else {
            None
        }
    }
}

/// How many days of lookback a period argument asks for: the literals
/// `day`, `week` and `month` (matched without regard to ASCII case)
/// mean 1, 7 and 30 days; a bare integer means that many days; and
/// anything else falls back to a single day.
pub open spec fn period_days_spec(s: Seq<char>) -> i64 {
    if ci_eq(s, "day"@) {
        1
    } else if ci_eq(s, "week"@) {
        7
    } else if ci_eq(s, "month"@) {
        30
    } else {
        match parse_i64_spec(s) {
            Some(v) => v,
            None => 1,
        }
    }
}

fn ci_eq_exec(s: &str, kw: &str) -> (r: bool)
    ensures
        r == ci_eq(s@, kw@),
{
    let n = s.unicode_len();
    let m = kw.unicode_len();
    if n != m {
        return false;
    }
    let mut i: usize = 0;
    while i < n
        invariant
            0 <= i <= n,
            n == s@.len(),
            n == kw@.len(),
            forall|k: int| 0 <= k < i ==> ci_char_eq(#[trigger] s@[k], kw@[k]),
        decreases n - i,
    {
        let a = s.get_char(i);
        let b = kw.get_char(i);
        let matched = a == b || ('A' as u32 <= a as u32 && a as u32 <= 'Z' as u32 && (a as u32)
            + 32 == (b as u32));
        if !matched {
            assert(!ci_char_eq(s@[i as int], kw@[i as int]));
            return false;
        }
        i = i + 1;
    }
    true
}

/// The value of each digit-string prefix only grows as digits follow.
proof fn lemma_dec_value_prefix_le(s: Seq<char>, n: int)
    requires
        0 <= n <= s.len(),
        forall|i: int| 0 <= i < s.len() ==> is_dec_digit(#[trigger] s[i]),
    ensures
        dec_value(s.subrange(0, n)) <= dec_value(s),
        dec_value(s) >= 0,
    decreases s.len(),
{
    if s.len() == 0 {
    } else {
        lemma_dec_value_prefix_le(s.drop_last(), if n < s.len() {
            n
        } else {
            s.len() - 1
        });
        assert(s.drop_last() =~= s.subrange(0, s.len() - 1));
        if n < s.len() {
            assert(s.drop_last().subrange(0, n) =~= s.subrange(0, n));
        } else {
            assert(s.subrange(0, n) =~= s);
        }
    }
}

fn parse_i64(s: &str) -> (r: Option<i64>)
    ensures
        r == parse_i64_spec(s@),
{
    let n = s.unicode_len();
    if n == 0 {
        return None;
    }
    let c0 = s.get_char(0);
    let (neg, start) = if c0 == '-' {
        (true, 1usize)
    } else if c0 == '+' {
        (false, 1usize)
    } else {
        (false, 0usize)
    };
    let ghost ds = if start == 1 {
        s@.subrange(1, s@.len() as int)
    } else {
        s@
    };
    if start == 1 && n == 1 {
        assert(!all_digits(ds));
        return None;
    }
    let mut mag: u64 = 0;
    let mut i: usize = start;
    while i < n
        invariant
            start <= i <= n,
            n == s@.len(),
            start == 0 || start == 1,
            n > start,
            n > 0,
            (start == 1) <==> (s@[0] == '-' || s@[0] == '+'),
            neg == (s@[0] == '-'),
            ds == (if start == 1 {
                s@.subrange(1, s@.len() as int)
            } else {
                s@
            }),
            ds.len() == n - start,
            forall|k: int| 0 <= k < i - start ==> is_dec_digit(#[trigger] ds[k]),
            mag as int == dec_value(ds.subrange(0, i - start)),
        decreases n - i,
    {
        let c = s.get_char(i);
        assert(ds[i - start] == s@[i as int]);
        let cu = c as u32;
        if !('0' as u32 <= cu && cu <= '9' as u32) {
            assert(!is_dec_digit(ds[i - start]));
            return None;
        }
        let d: u64 = (cu - '0' as u32) as u64;
        assert(d as int == digit_val(ds[i - start]));
        proof {
            assert(ds.subrange(0, i - start + 1).drop_last() =~= ds.subrange(0, i - start));
            assert(ds.subrange(0, i - start + 1).last() == ds[i - start]);
        }
        if mag > (u64::MAX - d) / 10 {
            // The digits read so far already exceed what an i64 carries.
            proof {
                if all_digits(ds) {
                    lemma_dec_value_prefix_le(ds, i - start + 1);
                    assert(10 * (mag as int) + d as int > u64::MAX) by (nonlinear_arith)
                        requires
                            mag as int > (u64::MAX as int - d as int) / 10,
                            0 <= d as int <= 9,
                    ;
                    assert(dec_value(ds.subrange(0, i - start + 1)) == (mag as int) * 10
                        + d as int);
                    assert(dec_value(ds) > u64::MAX);
                }
            }
            return None;
        }
        mag = mag * 10 + d;
        i = i + 1;
    }
    proof {
        assert(ds.subrange(0, ds.len() as int) =~= ds);
    }
    if neg {
        if mag <= 9223372036854775808u64 {
            if mag == 9223372036854775808u64 {
                Some(i64::MIN)
            } else {
                Some(-(mag as i64))
            }
        } else {
            None
        }
    } else {
        if mag <= 9223372036854775807u64 {
            Some(mag as i64)
        } else {
            None
        }
    }
}

/// Parse a period argument into days of lookback.
pub fn parse_period(s: &str) -> (days: i64)
    ensures
        days == period_days_spec(s@),
{
    if ci_eq_exec(s, "day") {
        1
    } else if ci_eq_exec(s, "week") {
        7
    } else if ci_eq_exec(s, "month") {
        30
    } else {
        match parse_i64(s) {
            Some(v) => v,
            None => 1,
        }
    }
}

/// A day count turned into a window of seconds, saturating at the ends
/// of `i64` range.
pub open spec fn window_secs_spec(days: int) -> int {
    if days * 86400 > i64::MAX {
        i64::MAX as int
    } else if days * 86400 < i64::MIN {
        i64::MIN as int
    } else {
        days * 86400
    }
}

/// Convert days of lookback into the window in seconds the summary
/// engine takes, saturating at the ends of `i64` range.
pub fn period_window_seconds(days: i64) -> (w: i64)
    ensures
        w as int == window_secs_spec(days as int),
{
    if days > 106751991167300i64 {
        proof {
            assert(days * 86400 > i64::MAX) by (nonlinear_arith)
                requires
                    days > 106751991167300i64,
            ;
        }
        i64::MAX
    } else if days < -106751991167300i64 {
        proof {
            assert(days * 86400 < i64::MIN) by (nonlinear_arith)
                requires
                    days < -106751991167300i64,
            ;
        }
        i64::MIN
    } else {
        proof {
            assert(i64::MIN <= days * 86400 <= i64::MAX) by (nonlinear_arith)
                requires
                    -106751991167300i64 <= days <= 106751991167300i64,
            ;
        }
        days * 86400
    }
}

} // verus!
