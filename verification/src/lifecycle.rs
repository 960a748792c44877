//! The lifecycle engine: start, stop, pause and resume over the store.
//!
//! `stop`, `pause` and `resume` act on the first task of the sought
//! status, scanning categories and tasks in store order; `start` files
//! a new task or revives an existing one under its cleaned name.

use vstd::prelude::*;

use crate::categorization::{
    cat_le, cat_wf, extract_spec, find_cat, find_task, find_task_from, lemma_find_cat_none,
    store_le, store_wf, Categorization, CategoryEntry, CatV,
};
use crate::data::{
    chunk_wf, new_task_v, open_chunk_v, pause_v, stop_v, task_le, task_wf, valid_ts, Task,
    TaskStatus, TaskV, TimeChunk, MAX_TIMESTAMP,
};

verus! {

/// Index of the first task with status `st` at or after `j`.
pub open spec fn first_status_in(tasks: Seq<TaskV>, st: TaskStatus, j: int) -> Option<int>
    decreases tasks.len() - j,
{
    if j < 0 || j >= tasks.len() {
        None
    } else if tasks[j].status == st {
        Some(j)
    } else {
        first_status_in(tasks, st, j + 1)
    }
}

/// Position of the first task with status `st`, scanning categories at
/// or after `i` in order and tasks in order within each.
pub open spec fn find_status_from(sv: Seq<CatV>, st: TaskStatus, i: int) -> Option<(int, int)>
    decreases sv.len() - i,
{
    if i < 0 || i >= sv.len() {
        None
    } else {
        match first_status_in(sv[i].tasks, st, 0) {
            Some(j) => Some((i, j)),
            None => find_status_from(sv, st, i + 1),
        }
    }
}

/// Position of the first task with status `st` in the whole store.
pub open spec fn find_status(sv: Seq<CatV>, st: TaskStatus) -> Option<(int, int)> {
    find_status_from(sv, st, 0)
}

/// The store with the task at category `i`, position `j` replaced.
pub open spec fn update_task(sv: Seq<CatV>, i: int, j: int, t: TaskV) -> Seq<CatV> {
    sv.update(i, CatV { tasks: sv[i].tasks.update(j, t), ..sv[i] })
}

/// What `stop` leaves behind: the first Running task has its open chunk
/// closed at `now` and becomes Stopped; with nothing Running the store
/// is untouched.
pub open spec fn stop_tr(sv: Seq<CatV>, now: i64) -> Seq<CatV> {
    match find_status(sv, TaskStatus::Running) {
        Some((i, j)) => update_task(sv, i, j, stop_v(sv[i].tasks[j], now)),
        None => sv,
    }
}

/// What `pause` leaves behind: the first Running task has its open
/// chunk closed at `now` and becomes Paused; otherwise no change.
pub open spec fn pause_tr(sv: Seq<CatV>, now: i64) -> Seq<CatV> {
    match find_status(sv, TaskStatus::Running) {
        Some((i, j)) => update_task(sv, i, j, pause_v(sv[i].tasks[j], now)),
        None => sv,
    }
}

/// What `resume` leaves behind: the first Paused task gains an open
/// chunk at `now` and becomes Running; otherwise no change.
pub open spec fn resume_tr(sv: Seq<CatV>, now: i64) -> Seq<CatV> {
    match find_status(sv, TaskStatus::Paused) {
        Some((i, j)) => update_task(sv, i, j, open_chunk_v(sv[i].tasks[j], now)),
        None => sv,
    }
}

/// What `start` leaves behind. The description is split into category
/// and cleaned name; a task is then looked up by its cleaned name in
/// that category. Missing task or category: a fresh Running task with
/// one open chunk at `now` is filed. Running task: no change. Paused or
/// Stopped task: a fresh open chunk at `now` and status Running.
pub open spec fn start_tr(sv: Seq<CatV>, raw: Seq<char>, now: i64) -> Seq<CatV> {
    let (cat, cleaned) = extract_spec(raw);
    match find_cat(sv, cat) {
        None => sv.push(CatV { name: cat, tasks: seq![new_task_v(cleaned, now)] }),
        Some(i) => match find_task(sv[i].tasks, cleaned) {
            None => sv.update(
                i,
                CatV { tasks: sv[i].tasks.push(new_task_v(cleaned, now)), ..sv[i] },
            ),
            Some(j) => {
                let t = sv[i].tasks[j];
                if t.status is Running {
                    sv
                } else {
                    update_task(sv, i, j, open_chunk_v(t, now))
                }
            },
        },
    }
}

/// How a `start` call was resolved.
#[derive(Clone, Copy, Debug, PartialEq, Eq, Structural)]
pub enum StartOutcome {
    /// No task of that cleaned name existed: one was created.
    Created,
    /// The task was already Running: nothing changed.
    AlreadyRunning,
    /// The task was Paused and is Running again.
    Resumed,
    /// The task was Stopped and is Running again.
    Restarted,
}

/// The outcome `start` reports, mirroring the branches of `start_tr`.
pub open spec fn start_outcome_spec(sv: Seq<CatV>, raw: Seq<char>) -> StartOutcome {
    let (cat, cleaned) = extract_spec(raw);
    match find_cat(sv, cat) {
        None => StartOutcome::Created,
        Some(i) => match find_task(sv[i].tasks, cleaned) {
            None => StartOutcome::Created,
            Some(j) => match sv[i].tasks[j].status {
                TaskStatus::Running => StartOutcome::AlreadyRunning,
                TaskStatus::Paused => StartOutcome::Resumed,
                TaskStatus::Stopped => StartOutcome::Restarted,
            },
        },
    }
}

/// Index of the first task named `name` in `tasks`, if any.
pub(crate) fn find_task_index(tasks: &Vec<Task>, name: &String) -> (r: Option<usize>)
    ensures
        ({
            let tv = Seq::new(tasks@.len(), |i: int| tasks@[i]@);
            match r {
                Some(j) => j < tasks@.len() && find_task(tv, name@) == Some(j as int),
                None => find_task(tv, name@) is None,
            }
        }),
{
    let ghost tv = Seq::new(tasks@.len(), |i: int| tasks@[i]@);
    let n = tasks.len();
    let mut j: usize = 0;
    while j < n
        invariant
            0 <= j <= n,
            n == tasks@.len(),
            tv == Seq::new(tasks@.len(), |i: int| tasks@[i]@),
            find_task_from(tv, name@, 0) == find_task_from(tv, name@, j as int),
        decreases n - j,
    {
        if tasks[j].name == *name {
            assert(find_task_from(tv, name@, j as int) == Some(j as int));
            return Some(j);
        }
        assert(find_task_from(tv, name@, j as int) == find_task_from(tv, name@, j as int + 1));
        j = j + 1;
    }
    None
}

/// Position of the first task with status `st`, if the store has one.
pub(crate) fn find_first_with_status(store: &Categorization, st: TaskStatus) -> (r: Option<
    (usize, usize),
>)
    ensures
        match r {
            Some(p) => {
                &&& p.0 < store.categories@.len()
                &&& p.1 < store.categories@[p.0 as int].tasks@.len()
                &&& find_status(store@, st) == Some((p.0 as int, p.1 as int))
                &&& store@[p.0 as int].tasks[p.1 as int].status == st
            },
            None => find_status(store@, st) is None,
        },
{
    let nc = store.categories.len();
    let mut ci: usize = 0;
    while ci < nc
        invariant
            0 <= ci <= nc,
            nc == store.categories@.len(),
            store@.len() == store.categories@.len(),
            find_status_from(store@, st, 0) == find_status_from(store@, st, ci as int),
        decreases nc - ci,
    {
        let ghost tasks = store@[ci as int].tasks;
        let nt = store.categories[ci].tasks.len();
        let mut ti: usize = 0;
        assert(tasks.len() == nt);
        while ti < nt
            invariant
                0 <= ti <= nt,
                ci < nc,
                nc == store.categories@.len(),
                store@.len() == store.categories@.len(),
                nt == store.categories@[ci as int].tasks@.len(),
                tasks == store@[ci as int].tasks,
                tasks.len() == nt,
                first_status_in(tasks, st, 0) == first_status_in(tasks, st, ti as int),
                find_status_from(store@, st, 0) == find_status_from(store@, st, ci as int),
            decreases nt - ti,
        {
            assert(tasks[ti as int] == store.categories@[ci as int].tasks@[ti as int]@);
            if store.categories[ci].tasks[ti].status == st {
                assert(first_status_in(tasks, st, ti as int) == Some(ti as int));
                assert(find_status_from(store@, st, ci as int) == Some((ci as int, ti as int)));
                return Some((ci, ti));
            }
            assert(first_status_in(tasks, st, ti as int) == first_status_in(
                tasks,
                st,
                ti as int + 1,
            ));
            ti = ti + 1;
        }
        assert(first_status_in(tasks, st, ti as int) is None);
        assert(find_status_from(store@, st, ci as int) == find_status_from(
            store@,
            st,
            ci as int + 1,
        ));
        ci = ci + 1;
    }
    None
}

/// Replacing one task with a well-formed one preserves the store
/// invariant and the bound on its timestamps.
proof fn lemma_update_task_props(sv: Seq<CatV>, i: int, j: int, t: TaskV, now: i64)
    requires
        store_wf(sv),
        store_le(sv, now),
        0 <= i < sv.len(),
        0 <= j < sv[i].tasks.len(),
        task_wf(t),
        task_le(t, now),
    ensures
        store_wf(update_task(sv, i, j, t)),
        store_le(update_task(sv, i, j, t), now),
{
    let sv2 = update_task(sv, i, j, t);
    assert forall|a: int| 0 <= a < sv2.len() implies cat_wf(#[trigger] sv2[a]) && cat_le(
        sv2[a],
        now,
    ) by {
        if a == i {
            assert forall|b: int| 0 <= b < sv2[a].tasks.len() implies task_wf(
                #[trigger] sv2[a].tasks[b],
            ) && task_le(sv2[a].tasks[b], now) by {
                if b != j {
                    assert(sv2[a].tasks[b] == sv[a].tasks[b]);
                }
            }
        } else {
            assert(sv2[a] == sv[a]);
        }
    }
}

/// Stop the first Running task, closing its open chunk at `now`, and
/// report its name; with nothing Running, leave the store unchanged.
pub fn stop_task(store: &mut Categorization, now: i64) -> (r: Option<String>)
    requires
        store_wf(old(store)@),
        store_le(old(store)@, now),
        valid_ts(now),
    ensures
        final(store)@ == stop_tr(old(store)@, now),
        store_wf(final(store)@),
        store_le(final(store)@, now),
        match r {
            Some(name) => {
                &&& find_status(old(store)@, TaskStatus::Running) is Some
                &&& ({
                    let (i, j) = find_status(old(store)@, TaskStatus::Running)->0;
                    name@ == old(store)@[i].tasks[j].name
                })
            },
            None => find_status(old(store)@, TaskStatus::Running) is None,
        },
{
    match find_first_with_status(store, TaskStatus::Running) {
        None => {
            None
        },
        Some((ci, ti)) => {
            let name = store.categories[ci].tasks[ti].name.clone();
            store.categories[ci].tasks[ti].stop(now);
            proof {
                let svo = old(store)@;
                let t2 = stop_v(svo[ci as int].tasks[ti as int], now);
                assert(store@ =~~= update_task(svo, ci as int, ti as int, t2));
                lemma_update_task_props(svo, ci as int, ti as int, t2, now);
                assert(store@ == stop_tr(svo, now));
            }
            Some(name)
        },
    }
}

/// Pause the first Running task, closing its open chunk at `now`, and
/// report its name; with nothing Running, leave the store unchanged.
pub fn pause_task(store: &mut Categorization, now: i64) -> (r: Option<String>)
    requires
        store_wf(old(store)@),
        store_le(old(store)@, now),
        valid_ts(now),
    ensures
        final(store)@ == pause_tr(old(store)@, now),
        store_wf(final(store)@),
        store_le(final(store)@, now),
        match r {
            Some(name) => {
                &&& find_status(old(store)@, TaskStatus::Running) is Some
                &&& ({
                    let (i, j) = find_status(old(store)@, TaskStatus::Running)->0;
                    name@ == old(store)@[i].tasks[j].name
                })
            },
            None => find_status(old(store)@, TaskStatus::Running) is None,
        },
{
    match find_first_with_status(store, TaskStatus::Running) {
        None => {
            None
        },
        Some((ci, ti)) => {
            let name = store.categories[ci].tasks[ti].name.clone();
            store.categories[ci].tasks[ti].pause(now);
            proof {
                let svo = old(store)@;
                let t2 = pause_v(svo[ci as int].tasks[ti as int], now);
                assert(store@ =~~= update_task(svo, ci as int, ti as int, t2));
                lemma_update_task_props(svo, ci as int, ti as int, t2, now);
                assert(store@ == pause_tr(svo, now));
            }
            Some(name)
        },
    }
}

/// Resume the first Paused task, opening a fresh chunk at `now`, and
/// report its name; with nothing Paused, leave the store unchanged.
#[verifier::rlimit(60)]
pub fn resume_task(store: &mut Categorization, now: i64) -> (r: Option<String>)
    requires
        store_wf(old(store)@),
        store_le(old(store)@, now),
        valid_ts(now),
    ensures
        final(store)@ == resume_tr(old(store)@, now),
        store_wf(final(store)@),
        store_le(final(store)@, now),
        match r {
            Some(name) => {
                &&& find_status(old(store)@, TaskStatus::Paused) is Some
                &&& ({
                    let (i, j) = find_status(old(store)@, TaskStatus::Paused)->0;
                    name@ == old(store)@[i].tasks[j].name
                })
            },
            None => find_status(old(store)@, TaskStatus::Paused) is None,
        },
{
    match find_first_with_status(store, TaskStatus::Paused) {
        None => {
            None
        },
        Some((ci, ti)) => {
            let name = store.categories[ci].tasks[ti].name.clone();
            store.categories[ci].tasks[ti].restart(now);
            proof {
                let svo = old(store)@;
                let t2 = open_chunk_v(svo[ci as int].tasks[ti as int], now);
                assert(store@ =~~= update_task(svo, ci as int, ti as int, t2));
                lemma_update_task_props(svo, ci as int, ti as int, t2, now);
                assert(store@ == resume_tr(svo, now));
            }
            Some(name)
        },
    }
}

/// Start work on `name`: file a fresh Running task under the extracted
/// category, or revive the existing task of that cleaned name.
pub fn start_task(store: &mut Categorization, name: &str, now: i64) -> (r: StartOutcome)
    requires
        store_wf(old(store)@),
        store_le(old(store)@, now),
        valid_ts(now),
    ensures
        final(store)@ == start_tr(old(store)@, name@, now),
        store_wf(final(store)@),
        store_le(final(store)@, now),
        r == start_outcome_spec(old(store)@, name@),
{
    let (category, cleaned) = Categorization::extract_category_from_description(name);
    match store.find_category(&category) {
        None => {
            proof {
                lemma_find_cat_none(old(store)@, category@, 0);
            }
            let task = Task::new(cleaned.as_str(), now);
            let mut tasks: Vec<Task> = Vec::new();
            tasks.push(task);
            store.categories.push(CategoryEntry { name: category, tasks });
            proof {
                assert(store@ =~~= start_tr(old(store)@, name@, now));
            }
            StartOutcome::Created
        },
        Some(ci) => {
            match find_task_index(&store.categories[ci].tasks, &cleaned) {
                None => {
                    let task = Task::new(cleaned.as_str(), now);
                    store.categories[ci].tasks.push(task);
                    proof {
                        assert(store@ =~~= start_tr(old(store)@, name@, now));
                    }
                    StartOutcome::Created
                },
                Some(ti) => {
                    let status = store.categories[ci].tasks[ti].status;
                    match status {
                        TaskStatus::Running => {
                            proof {
                                assert(store@ =~~= start_tr(old(store)@, name@, now));
                            }
                            StartOutcome::AlreadyRunning
                        },
                        TaskStatus::Paused => {
                            store.categories[ci].tasks[ti].restart(now);
                            proof {
                                assert(store@ =~~= start_tr(old(store)@, name@, now));
                            }
                            StartOutcome::Resumed
                        },
                        TaskStatus::Stopped => {
                            store.categories[ci].tasks[ti].restart(now);
                            proof {
                                assert(store@ =~~= start_tr(old(store)@, name@, now));
                            }
                            StartOutcome::Restarted
                        },
                    }
                },
            }
        },
    }
}

/// Report the first Running task, if any: its name and the seconds it
/// has accrued as of `now`. With nothing Running the tracker is idle.
pub fn clock(store: &Categorization, now: i64) -> (r: Option<(String, u64)>)
    requires
        store_wf(store@),
        store_le(store@, now),
        valid_ts(now),
    ensures
        match r {
            Some(p) => {
                &&& find_status(store@, TaskStatus::Running) is Some
                &&& ({
                    let (i, j) = find_status(store@, TaskStatus::Running)->0;
                    p.0@ == store@[i].tasks[j].name && p.1 as int == crate::data::accrual(
                        store@[i].tasks[j],
                        now,
                    )
                })
            },
            None => find_status(store@, TaskStatus::Running) is None,
        },
{
    match find_first_with_status(store, TaskStatus::Running) {
        None => None,
        Some((ci, ti)) => {
            assert(store@[ci as int].tasks[ti as int] == store.categories@[ci as int].tasks@[ti as int]@);
            let name = store.categories[ci].tasks[ti].name.clone();
            let secs = store.categories[ci].tasks[ti].accrued_seconds(now);
            Some((name, secs))
        },
    }
}

/// Whether some chunk in the store starts or ends exactly at `t`.
pub open spec fn ts_in_store(sv: Seq<CatV>, t: i64) -> bool {
    exists|i: int, j: int, k: int|
        #![auto]
        0 <= i < sv.len() && 0 <= j < sv[i].tasks.len() && 0 <= k
            < sv[i].tasks[j].chunks.len() && (sv[i].tasks[j].chunks[k].start_time == t
            || sv[i].tasks[j].chunks[k].end_time == Some(t))
}

/// The largest timestamp anywhere in the store; zero if it records
/// none. Every timestamp in the store lies at or before the result.
pub fn latest_timestamp(store: &Categorization) -> (m: i64)
    requires
        store_wf(store@),
    ensures
        valid_ts(m),
        store_le(store@, m),
        m == 0 || ts_in_store(store@, m),
{
    let nc = store.categories.len();
    let mut m: i64 = 0;
    let mut ci: usize = 0;
    while ci < nc
        invariant
            0 <= ci <= nc,
            nc == store.categories@.len(),
            store@.len() == nc,
            store_wf(store@),
            valid_ts(m),
            m == 0 || ts_in_store(store@, m),
            forall|a: int| 0 <= a < ci ==> cat_le(#[trigger] store@[a], m),
        decreases nc - ci,
    {
        let nt = store.categories[ci].tasks.len();
        let mut ti: usize = 0;
        while ti < nt
            invariant
                0 <= ti <= nt,
                ci < nc,
                nc == store.categories@.len(),
                store@.len() == nc,
                store_wf(store@),
                valid_ts(m),
                m == 0 || ts_in_store(store@, m),
                nt == store.categories@[ci as int].tasks@.len(),
                forall|a: int| 0 <= a < ci ==> cat_le(#[trigger] store@[a], m),
                forall|b: int| 0 <= b < ti ==> task_le(#[trigger] store@[ci as int].tasks[b], m),
            decreases nt - ti,
        {
            let ghost m0 = m;
            assert(store@[ci as int].tasks[ti as int] == store.categories@[ci as int].tasks@[ti as int]@);
            let nk = store.categories[ci].tasks[ti].time_chunks.len();
            let mut k: usize = 0;
            while k < nk
                invariant
                    0 <= k <= nk,
                    ci < nc,
                    ti < nt,
                    nc == store.categories@.len(),
                    store@.len() == nc,
                    store_wf(store@),
                    valid_ts(m),
                    m == 0 || ts_in_store(store@, m),
                    m0 <= m,
                    nt == store.categories@[ci as int].tasks@.len(),
                    nk == store@[ci as int].tasks[ti as int].chunks.len(),
                    store@[ci as int].tasks[ti as int] == store.categories@[ci as int].tasks@[ti as int]@,
                    forall|c: int|
                        0 <= c < k ==> crate::data::chunk_le(
                            #[trigger] store@[ci as int].tasks[ti as int].chunks[c],
                            m,
                        ),
                decreases nk - k,
            {
                let ghost m1 = m;
                let c = store.categories[ci].tasks[ti].time_chunks[k];
                assert(c == store@[ci as int].tasks[ti as int].chunks[k as int]);
                assert(chunk_wf(c));
                if c.start_time > m {
                    m = c.start_time;
                    proof {
                        assert(ts_in_store(store@, m));
                    }
                }
                if let Some(e) = c.end_time {
                    if e > m {
                        m = e;
                        proof {
                            assert(ts_in_store(store@, m));
                        }
                    }
                }
                proof {
                    assert forall|c2: int| 0 <= c2 < k + 1 implies crate::data::chunk_le(
                        #[trigger] store@[ci as int].tasks[ti as int].chunks[c2],
                        m,
                    ) by {
                        if c2 < k {
                            assert(crate::data::chunk_le(
                                store@[ci as int].tasks[ti as int].chunks[c2],
                                m1,
                            ));
                        }
                    }
                }
                k = k + 1;
            }
            proof {
                assert forall|a: int| 0 <= a < ci implies cat_le(#[trigger] store@[a], m) by {
                    crate::categorization::lemma_cat_le_mono(store@[a], m0, m);
                }
                assert forall|b: int| 0 <= b < ti + 1 implies task_le(
                    #[trigger] store@[ci as int].tasks[b],
                    m,
                ) by {
                    if b < ti {
                        crate::categorization::lemma_task_le_mono(
                            store@[ci as int].tasks[b],
                            m0,
                            m,
                        );
                    }
                }
            }
            ti = ti + 1;
        }
        ci = ci + 1;
    }
    m
}

/// Relies on chrono's `Utc::now`: the current instant of the system
/// clock, in whole seconds since the Unix epoch. chrono aborts on a
/// clock set before the epoch, so a value that comes back is never
/// negative.
#[verifier::external_body]
fn unix_now() -> (t: i64)
    ensures
        0 <= t,
{
    chrono::Utc::now().timestamp()
}

/// A reference instant for an engine operation: the system clock,
/// clamped into the model's timestamp range and to no earlier than
/// anything the store already records.
pub fn current_instant(store: &Categorization) -> (t: i64)
    requires
        store_wf(store@),
    ensures
        valid_ts(t),
        store_le(store@, t),
{
    let m = latest_timestamp(store);
    let c = unix_now();
    let t = if c < m {
        m
    } else if c > MAX_TIMESTAMP {
        MAX_TIMESTAMP
    } else {
        c
    };
    proof {
        crate::categorization::lemma_store_le_mono(store@, m, t);
    }
    t
}

/// A failed task-status search means no task from `j` on has status `st`.
proof fn lemma_first_status_none(tasks: Seq<TaskV>, st: TaskStatus, j: int)
    requires
        0 <= j,
        first_status_in(tasks, st, j) is None,
    ensures
        forall|k: int| j <= k < tasks.len() ==> (#[trigger] tasks[k]).status != st,
    decreases tasks.len() - j,
{
    if j < tasks.len() {
        lemma_first_status_none(tasks, st, j + 1);
    }
}

/// A successful task-status search lands on the first task with status
/// `st` from `j` on.
proof fn lemma_first_status_some(tasks: Seq<TaskV>, st: TaskStatus, j: int)
    requires
        0 <= j,
        first_status_in(tasks, st, j) is Some,
    ensures
        ({
            let b = first_status_in(tasks, st, j)->0;
            &&& j <= b < tasks.len()
            &&& tasks[b].status == st
            &&& forall|k: int| j <= k < b ==> (#[trigger] tasks[k]).status != st
        }),
    decreases tasks.len() - j,
{
    if j < tasks.len() && tasks[j].status != st {
        lemma_first_status_some(tasks, st, j + 1);
    }
}

/// A failed store-wide search means no task anywhere has status `st`.
proof fn lemma_find_status_none(sv: Seq<CatV>, st: TaskStatus, i: int)
    requires
        0 <= i,
        find_status_from(sv, st, i) is None,
    ensures
        forall|a: int, b: int|
            i <= a < sv.len() && 0 <= b < (#[trigger] sv[a]).tasks.len() ==> (#[trigger] sv[a].tasks[b]).status != st,
    decreases sv.len() - i,
{
    if i < sv.len() {
        lemma_first_status_none(sv[i].tasks, st, 0);
        lemma_find_status_none(sv, st, i + 1);
    }
}

/// A successful store-wide search lands on the first task with status
/// `st`, scanning categories from `i` on in order.
proof fn lemma_find_status_some(sv: Seq<CatV>, st: TaskStatus, i: int)
    requires
        0 <= i,
        find_status_from(sv, st, i) is Some,
    ensures
        ({
            let (a, b) = find_status_from(sv, st, i)->0;
            &&& i <= a < sv.len()
            &&& 0 <= b < sv[a].tasks.len()
            &&& sv[a].tasks[b].status == st
            &&& forall|a2: int, b2: int|
                i <= a2 < a && 0 <= b2 < (#[trigger] sv[a2]).tasks.len() ==> (#[trigger] sv[a2].tasks[b2]).status != st
            &&& forall|b2: int| 0 <= b2 < b ==> (#[trigger] sv[a].tasks[b2]).status != st
        }),
    decreases sv.len() - i,
{
    if i < sv.len() {
        if first_status_in(sv[i].tasks, st, 0) is Some {
            lemma_first_status_some(sv[i].tasks, st, 0);
        } else {
            lemma_first_status_none(sv[i].tasks, st, 0);
            lemma_find_status_some(sv, st, i + 1);
        }
    }
}

/// A task with status `st` at `(i, j)`, with none earlier in scan
/// order, is exactly what the store-wide search returns.
proof fn lemma_find_status_at(sv: Seq<CatV>, st: TaskStatus, i: int, j: int, from: int)
    requires
        0 <= from <= i < sv.len(),
        0 <= j < sv[i].tasks.len(),
        sv[i].tasks[j].status == st,
        forall|a2: int, b2: int|
            from <= a2 < i && 0 <= b2 < (#[trigger] sv[a2]).tasks.len() ==> (#[trigger] sv[a2].tasks[b2]).status != st,
        forall|b2: int| 0 <= b2 < j ==> (#[trigger] sv[i].tasks[b2]).status != st,
    ensures
        find_status_from(sv, st, from) == Some((i, j)),
    decreases i - from,
{
    if from == i {
        lemma_first_status_at(sv[i].tasks, st, j, 0);
    } else {
        lemma_first_status_at_none(sv[from].tasks, st, 0);
        lemma_find_status_at(sv, st, i, j, from + 1);
    }
}

/// A task with status `st` at `j`, with none earlier, is exactly what
/// the in-category search returns.
proof fn lemma_first_status_at(tasks: Seq<TaskV>, st: TaskStatus, j: int, from: int)
    requires
        0 <= from <= j < tasks.len(),
        tasks[j].status == st,
        forall|b2: int| from <= b2 < j ==> (#[trigger] tasks[b2]).status != st,
    ensures
        first_status_in(tasks, st, from) == Some(j),
    decreases j - from,
{
    if from < j {
        lemma_first_status_at(tasks, st, j, from + 1);
    }
}

/// A category none of whose tasks has status `st` makes the
/// in-category search fail.
proof fn lemma_first_status_at_none(tasks: Seq<TaskV>, st: TaskStatus, from: int)
    requires
        0 <= from,
        forall|b2: int| from <= b2 < tasks.len() ==> (#[trigger] tasks[b2]).status != st,
    ensures
        first_status_in(tasks, st, from) is None,
    decreases tasks.len() - from,
{
    if from < tasks.len() {
        lemma_first_status_at_none(tasks, st, from + 1);
    }
}

/// How many tasks the whole store holds.
pub open spec fn task_count(sv: Seq<CatV>) -> int
    decreases sv.len(),
{
    if sv.len() == 0 {
        0
    } else {
        task_count(sv.drop_last()) + sv.last().tasks.len()
    }
}

proof fn lemma_task_count_push(sv: Seq<CatV>, c: CatV)
    ensures
        task_count(sv.push(c)) == task_count(sv) + c.tasks.len(),
{
    assert(sv.push(c).drop_last() =~= sv);
}

proof fn lemma_task_count_update(sv: Seq<CatV>, i: int, c: CatV)
    requires
        0 <= i < sv.len(),
    ensures
        task_count(sv.update(i, c)) == task_count(sv) + c.tasks.len() - sv[i].tasks.len(),
    decreases sv.len(),
{
    let svu = sv.update(i, c);
    if i == sv.len() - 1 {
        assert(svu.drop_last() =~= sv.drop_last());
    } else {
        assert(svu.drop_last() =~= sv.drop_last().update(i, c));
        lemma_task_count_update(sv.drop_last(), i, c);
    }
}

/// Law: starting a name whose cleaned form is not yet filed creates
/// exactly one task — Running, with exactly one chunk, that chunk open
/// and starting at `now` — under the extracted category.
pub proof fn lemma_start_new_law(sv: Seq<CatV>, raw: Seq<char>, now: i64)
    requires
        store_wf(sv),
        valid_ts(now),
        ({
            let (cat, cleaned) = extract_spec(raw);
            match find_cat(sv, cat) {
                Some(i) => find_task(sv[i].tasks, cleaned) is None,
                None => true,
            }
        }),
    ensures
        ({
            let (cat, cleaned) = extract_spec(raw);
            let sv2 = start_tr(sv, raw, now);
            let t = new_task_v(cleaned, now);
            &&& task_count(sv2) == task_count(sv) + 1
            &&& exists|i: int|
                #![auto]
                0 <= i < sv2.len() && sv2[i].name == cat && sv2[i].tasks.len() >= 1
                    && sv2[i].tasks.last() == t
            &&& t.status is Running
            &&& t.chunks.len() == 1
            &&& t.chunks[0] == (TimeChunk { start_time: now, end_time: None })
        }),
{
    let (cat, cleaned) = extract_spec(raw);
    let sv2 = start_tr(sv, raw, now);
    let t = new_task_v(cleaned, now);
    match find_cat(sv, cat) {
        None => {
            crate::categorization::lemma_find_cat_none(sv, cat, 0);
            lemma_task_count_push(sv, CatV { name: cat, tasks: seq![t] });
            assert(sv2[sv.len() as int].name == cat && sv2[sv.len() as int].tasks.last() == t);
        },
        Some(i) => {
            crate::categorization::lemma_find_cat_some(sv, cat, 0);
            let c2 = CatV { tasks: sv[i].tasks.push(t), ..sv[i] };
            lemma_task_count_update(sv, i, c2);
            assert(sv2[i].name == cat && sv2[i].tasks.last() == t);
        },
    }
}

/// Law: `stop` on a store with a Running task closes that task's last
/// chunk at `now` — no earlier than the chunk's start — and leaves it
/// Stopped; `stop` with nothing Running changes nothing.
pub proof fn lemma_stop_law(sv: Seq<CatV>, now: i64)
    requires
        store_wf(sv),
        store_le(sv, now),
        valid_ts(now),
    ensures
        find_status(sv, TaskStatus::Running) is None ==> stop_tr(sv, now) == sv,
        find_status(sv, TaskStatus::Running) is Some ==> ({
            let (i, j) = find_status(sv, TaskStatus::Running)->0;
            let t2 = stop_tr(sv, now)[i].tasks[j];
            &&& stop_tr(sv, now).len() == sv.len()
            &&& t2.status is Stopped
            &&& t2.chunks.len() == sv[i].tasks[j].chunks.len()
            &&& t2.chunks.last().end_time == Some(now)
            &&& t2.chunks.last().start_time <= now
        }),
{
    if find_status(sv, TaskStatus::Running) is Some {
        lemma_find_status_some(sv, TaskStatus::Running, 0);
    }
}

/// Law: pausing the single Running task and then resuming — with no
/// other task Paused — leaves that same task Running with exactly one
/// more chunk than before: the once-open chunk now closed at the pause
/// instant, and a new open chunk at the resume instant.
pub proof fn lemma_pause_then_resume_law(sv: Seq<CatV>, t1: i64, t2: i64)
    requires
        store_wf(sv),
        store_le(sv, t1),
        valid_ts(t1),
        valid_ts(t2),
        t1 <= t2,
        find_status(sv, TaskStatus::Running) is Some,
        find_status(sv, TaskStatus::Paused) is None,
    ensures
        ({
            let (i, j) = find_status(sv, TaskStatus::Running)->0;
            let t = sv[i].tasks[j];
            let t_new = resume_tr(pause_tr(sv, t1), t2)[i].tasks[j];
            &&& t_new.chunks.len() == t.chunks.len() + 1
            &&& t_new.chunks[t.chunks.len() - 1].end_time == Some(t1)
            &&& t_new.chunks.last() == (TimeChunk { start_time: t2, end_time: None })
            &&& t_new.status is Running
        }),
{
    let (i, j) = find_status(sv, TaskStatus::Running)->0;
    lemma_find_status_some(sv, TaskStatus::Running, 0);
    lemma_find_status_none(sv, TaskStatus::Paused, 0);
    let t = sv[i].tasks[j];
    let tp = pause_v(t, t1);
    let sv1 = pause_tr(sv, t1);
    assert(sv1 == update_task(sv, i, j, tp));
    assert forall|a2: int, b2: int|
        0 <= a2 < i && 0 <= b2 < (#[trigger] sv1[a2]).tasks.len() implies (#[trigger] sv1[a2].tasks[b2]).status
        != TaskStatus::Paused by {
        assert(sv1[a2] == sv[a2]);
    }
    assert forall|b2: int| 0 <= b2 < j implies (#[trigger] sv1[i].tasks[b2]).status
        != TaskStatus::Paused by {
        assert(sv1[i].tasks[b2] == sv[i].tasks[b2]);
    }
    lemma_find_status_at(sv1, TaskStatus::Paused, i, j, 0);
    assert(resume_tr(sv1, t2) == update_task(sv1, i, j, open_chunk_v(tp, t2)));
}

} // verus!
