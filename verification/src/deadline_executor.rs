//! Deadline-aware task executor with a conservation budget.
//!
//! The budget is the maximum number of concurrently active tasks. Each active
//! task consumes one unit of budget; tasks that find the budget exhausted wait in
//! a FIFO queue; tasks whose deadline has already passed are rejected. The
//! conservation law `active ≤ budget` holds in every reachable state.
use std::collections::VecDeque;
use vstd::prelude::*;

use crate::clock::Instant;

verus! {

broadcast use vstd::seq_lib::group_seq_properties;

/// Report on the current state of the execution budget.
#[derive(Debug, Clone, Copy)]
pub struct BudgetReport {
    /// Maximum concurrent tasks allowed.
    pub max_budget: usize,
    /// Currently active tasks.
    pub active_count: usize,
    /// Remaining budget capacity.
    pub remaining: usize,
    /// Number of tasks that missed their deadlines.
    pub deadline_misses: u64,
    /// Number of tasks completed successfully.
    pub completed: u64,
}

/// A handle to a spawned task that tracks its deadline and status.
#[derive(Debug, Clone, Copy)]
pub struct JoinHandle {
    pub task_id: u64,
    pub deadline: Instant,
    pub spawned_at: Instant,
    pub completed: bool,
    pub missed_deadline: bool,
}

/// Status of a task in the executor.
#[derive(Debug, Clone, Copy, PartialEq, Eq, Structural)]
pub enum TaskStatus {
    Pending,
    Running,
    Completed,
    DeadlineMissed,
    Rejected,
}

/// A task held by the executor, either active or waiting for budget.
#[derive(Debug)]
struct PendingTask {
    task_id: u64,
    deadline: Instant,
    spawned_at: Instant,
    name: String,
    status: TaskStatus,
}

/// What the executor knows of a task: everything but its status, which follows
/// from where the task is held (active tasks run, queued tasks wait).
pub struct TaskEntry {
    pub task_id: u64,
    pub deadline: Instant,
    pub spawned_at: Instant,
    pub name: Seq<char>,
}

impl View for PendingTask {
    type V = TaskEntry;

    closed spec fn view(&self) -> TaskEntry {
        TaskEntry {
            task_id: self.task_id,
            deadline: self.deadline,
            spawned_at: self.spawned_at,
            name: self.name@,
        }
    }
}

/// The abstract state of a [`DeadlineExecutor`].
pub struct ExecutorView {
    /// The conservation budget.
    pub budget: nat,
    /// Active tasks, in the order they became active.
    pub active: Seq<TaskEntry>,
    /// Tasks waiting for budget, oldest first.
    pub pending: Seq<TaskEntry>,
    /// The id the next spawned task receives.
    pub next_id: nat,
    pub deadline_misses: nat,
    pub completed: nat,
    pub total_spawned: nat,
}

/// Deadline-aware executor with conservation budget.
///
/// Manages a bounded pool of concurrent tasks, each with an explicit deadline.
/// When the budget is exhausted, tasks are queued. When a deadline has passed
/// before the task can be scheduled, it is rejected.
pub struct DeadlineExecutor {
    budget: usize,
    active: Vec<PendingTask>,
    pending: VecDeque<PendingTask>,
    next_id: u64,
    deadline_misses: u64,
    completed: u64,
    total_spawned: u64,
}

/// The abstract entries of a sequence of held tasks.
spec fn entries(s: Seq<PendingTask>) -> Seq<TaskEntry> {
    s.map_values(|t: PendingTask| t@)
}

impl View for DeadlineExecutor {
    type V = ExecutorView;

    closed spec fn view(&self) -> ExecutorView {
        ExecutorView {
            budget: self.budget as nat,
            active: entries(self.active@),
            pending: entries(self.pending@),
            next_id: self.next_id as nat,
            deadline_misses: self.deadline_misses as nat,
            completed: self.completed as nat,
            total_spawned: self.total_spawned as nat,
        }
    }
}

/// Every task id in `s` is below `bound`.
pub open spec fn ids_below(s: Seq<TaskEntry>, bound: nat) -> bool {
    forall|i: int| 0 <= i < s.len() ==> #[trigger] s[i].task_id < bound
}

/// No two tasks in `s` share an id.
pub open spec fn ids_unique(s: Seq<TaskEntry>) -> bool {
    forall|i: int, j: int| 0 <= i < s.len() && 0 <= j < s.len() && i != j ==> #[trigger] s[i].task_id != #[trigger] s[j].task_id
}

/// The invariant of every reachable executor state.
pub open spec fn executor_invariant(v: ExecutorView) -> bool {
    // conservation: never more active tasks than budget
    &&& v.active.len() <= v.budget
    &&& v.next_id == v.total_spawned
    &&& ids_below(v.active + v.pending, v.next_id)
    &&& ids_unique(v.active + v.pending)
    // every spawned task is accounted for at most once
    &&& v.deadline_misses + v.completed + v.active.len() + v.pending.len() <= v.total_spawned
}

/// A task whose deadline is still ahead of `now`.
pub open spec fn is_live(now: Instant) -> spec_fn(TaskEntry) -> bool {
    |e: TaskEntry| e.deadline.nanos > now.nanos
}

/// The state after a spawn at time `now`.
pub open spec fn spawn_next(v: ExecutorView, name: Seq<char>, deadline: Instant, now: Instant) -> ExecutorView {
    let counted = ExecutorView { next_id: v.next_id + 1, total_spawned: v.total_spawned + 1, ..v };
    if deadline.nanos <= now.nanos {
        ExecutorView { deadline_misses: v.deadline_misses + 1, ..counted }
    } else {
        let e = TaskEntry { task_id: v.next_id as u64, deadline, spawned_at: now, name };
        if v.active.len() < v.budget {
            ExecutorView { active: v.active.push(e), ..counted }
        } else {
            ExecutorView { pending: v.pending.push(e), ..counted }
        }
    }
}

/// What a spawn at time `now` returns.
pub open spec fn spawn_result(v: ExecutorView, deadline: Instant, now: Instant) -> Option<JoinHandle> {
    if deadline.nanos <= now.nanos {
        None
    } else {
        Some(JoinHandle {
            task_id: v.next_id as u64,
            deadline,
            spawned_at: now,
            completed: false,
            missed_deadline: false,
        })
    }
}

/// Tasks that carry another id than `id`.
pub open spec fn other_id(id: u64) -> spec_fn(TaskEntry) -> bool {
    |e: TaskEntry| e.task_id != id
}

/// Some task in `s` carries the id `id`.
pub open spec fn holds_id(s: Seq<TaskEntry>, id: u64) -> bool {
    exists|i: int| 0 <= i < s.len() && #[trigger] s[i].task_id == id
}

/// The task in `s` that carries the id `id` (ids are unique in every reachable state).
pub open spec fn entry_with_id(s: Seq<TaskEntry>, id: u64) -> TaskEntry {
    s[choose|i: int| 0 <= i < s.len() && #[trigger] s[i].task_id == id]
}

/// The state after completing the task `id` at time `now`: an active task is
/// removed, and counts as completed only if its deadline is still ahead; a queued
/// task is removed and counts as completed; an unknown id changes nothing.
pub open spec fn complete_next(v: ExecutorView, id: u64, now: Instant) -> ExecutorView {
    if holds_id(v.active, id) {
        ExecutorView {
            active: v.active.filter(other_id(id)),
            completed: if entry_with_id(v.active, id).deadline.nanos > now.nanos {
                v.completed + 1
            } else {
                v.completed
            },
            ..v
        }
    } else if holds_id(v.pending, id) {
        ExecutorView { pending: v.pending.filter(other_id(id)), completed: v.completed + 1, ..v }
    } else {
        v
    }
}

/// Whether completing `id` finds the task.
pub open spec fn complete_result(v: ExecutorView, id: u64) -> bool {
    holds_id(v.active, id) || holds_id(v.pending, id)
}

/// Number of queued tasks that a tick at `now` moves into the freed budget:
/// the unexpired queued tasks, as many as fit beside the unexpired active ones.
pub open spec fn promoted_count(v: ExecutorView, now: Instant) -> int {
    let room = v.budget - v.active.filter(is_live(now)).len();
    let waiting = v.pending.filter(is_live(now)).len() as int;
    if room <= 0 {
        0
    } else if room < waiting {
        room
    } else {
        waiting
    }
}

/// Number of tasks whose deadline a tick at `now` finds passed.
pub open spec fn tick_expired(v: ExecutorView, now: Instant) -> nat {
    ((v.active.len() - v.active.filter(is_live(now)).len()) + (v.pending.len() - v.pending.filter(
        is_live(now),
    ).len())) as nat
}

/// The state after a tick at `now`: expired tasks leave, counted as deadline
/// misses; then the oldest unexpired queued tasks fill the free budget.
pub open spec fn tick_next(v: ExecutorView, now: Instant) -> ExecutorView {
    let kept = v.active.filter(is_live(now));
    let waiting = v.pending.filter(is_live(now));
    let k = promoted_count(v, now);
    ExecutorView {
        active: kept + waiting.take(k),
        pending: waiting.skip(k),
        deadline_misses: v.deadline_misses + tick_expired(v, now),
        ..v
    }
}

/// Filtering keeps ids unique and below their bound.
pub proof fn lemma_filter_keeps_ids(s: Seq<TaskEntry>, p: spec_fn(TaskEntry) -> bool, bound: nat)
    requires
        ids_unique(s),
        ids_below(s, bound),
    ensures
        ids_unique(s.filter(p)),
        ids_below(s.filter(p), bound),
        s.filter(p).len() <= s.len(),
    decreases s.len(),
{
    reveal(Seq::filter);
    if s.len() > 0 {
        let d = s.drop_last();
        assert(ids_unique(d));
        assert(ids_below(d, bound));
        lemma_filter_keeps_ids(d, p, bound);
        let f = d.filter(p);
        if p(s.last()) {
            assert forall|i: int| 0 <= i < f.len() implies #[trigger] f[i].task_id != s.last().task_id by {
                assert(d.filter(p).contains(f[i]));
                d.lemma_filter_contains_rev(p, f[i]);
                let j = choose|j: int| 0 <= j < d.len() && d[j] == f[i];
                assert(s[j] == d[j]);
            }
            assert(s.filter(p) == f.push(s.last()));
        }
    }
}

/// If every element satisfies `p`, filtering by `p` changes nothing.
proof fn lemma_filter_all<A>(s: Seq<A>, p: spec_fn(A) -> bool)
    requires
        forall|i: int| 0 <= i < s.len() ==> p(#[trigger] s[i]),
    ensures
        s.filter(p) == s,
    decreases s.len(),
{
    reveal(Seq::filter);
    if s.len() > 0 {
        lemma_filter_all(s.drop_last(), p);
        assert(s.drop_last().push(s.last()) =~= s);
    }
}

/// Removing the one task with a given id is filtering out that id.
pub proof fn lemma_remove_is_filter(s: Seq<TaskEntry>, i: int)
    requires
        ids_unique(s),
        0 <= i < s.len(),
    ensures
        s.remove(i) == s.filter(other_id(s[i].task_id)),
    decreases s.len(),
{
    reveal(Seq::filter);
    let id = s[i].task_id;
    let d = s.drop_last();
    if i == s.len() - 1 {
        lemma_filter_all(d, other_id(id));
        assert(s.remove(i) =~= d);
    } else {
        assert(ids_unique(d));
        lemma_remove_is_filter(d, i);
        assert(s.remove(i) =~= d.remove(i).push(s.last()));
    }
}

/// Removing an element keeps ids unique and below their bound.
proof fn lemma_remove_keeps_ids(s: Seq<TaskEntry>, i: int, bound: nat)
    requires
        ids_unique(s),
        ids_below(s, bound),
        0 <= i < s.len(),
    ensures
        ids_unique(s.remove(i)),
        ids_below(s.remove(i), bound),
{
    lemma_remove_is_filter(s, i);
    lemma_filter_keeps_ids(s, other_id(s[i].task_id), bound);
}

/// With unique ids, the task found at `i` is the one `entry_with_id` names.
proof fn lemma_entry_with_id(s: Seq<TaskEntry>, i: int)
    requires
        ids_unique(s),
        0 <= i < s.len(),
    ensures
        holds_id(s, s[i].task_id),
        entry_with_id(s, s[i].task_id) == s[i],
{
    assert(holds_id(s, s[i].task_id));
}

/// A sequence without the id does not hold it.
proof fn lemma_not_holds(s: Seq<TaskEntry>, id: u64)
    requires
        forall|j: int| 0 <= j < s.len() ==> #[trigger] s[j].task_id != id,
    ensures
        !holds_id(s, id),
{
}

/// Ids unique over the concatenation are unique in each part.
proof fn lemma_split_ids(a: Seq<TaskEntry>, b: Seq<TaskEntry>)
    requires
        ids_unique(a + b),
    ensures
        ids_unique(a),
        ids_unique(b),
{
    assert forall|i: int, j: int| 0 <= i < a.len() && 0 <= j < a.len() && i != j implies #[trigger] a[i].task_id != #[trigger] a[j].task_id by {
        assert((a + b)[i] == a[i]);
        assert((a + b)[j] == a[j]);
    }
    assert forall|i: int, j: int| 0 <= i < b.len() && 0 <= j < b.len() && i != j implies #[trigger] b[i].task_id != #[trigger] b[j].task_id by {
        assert((a + b)[a.len() + i] == b[i]);
        assert((a + b)[a.len() + j] == b[j]);
    }
}

/// Completing an active task frees exactly one unit of budget.
pub proof fn lemma_complete_frees_one_unit(v: ExecutorView, id: u64, now: Instant)
    requires
        executor_invariant(v),
        holds_id(v.active, id),
    ensures
        complete_next(v, id, now).active.len() == v.active.len() - 1,
        complete_next(v, id, now).pending == v.pending,
{
    lemma_split_ids(v.active, v.pending);
    let i = choose|i: int| 0 <= i < v.active.len() && #[trigger] v.active[i].task_id == id;
    lemma_remove_is_filter(v.active, i);
}

/// A task, once completed, is gone: completing the same id again finds nothing
/// and changes nothing.
pub proof fn lemma_complete_twice(v: ExecutorView, id: u64, now1: Instant, now2: Instant)
    requires
        executor_invariant(v),
    ensures
        !complete_result(complete_next(v, id, now1), id),
        complete_next(complete_next(v, id, now1), id, now2) == complete_next(v, id, now1),
{
    let w = complete_next(v, id, now1);
    lemma_split_ids(v.active, v.pending);
    assert forall|j: int| 0 <= j < v.active.filter(other_id(id)).len() implies
        #[trigger] v.active.filter(other_id(id))[j].task_id != id by {
        v.active.lemma_filter_pred(other_id(id), j);
    }
    assert forall|j: int| 0 <= j < v.pending.filter(other_id(id)).len() implies
        #[trigger] v.pending.filter(other_id(id))[j].task_id != id by {
        v.pending.lemma_filter_pred(other_id(id), j);
    }
    if holds_id(v.active, id) {
        // ids are unique, so the queue does not hold it either
        let i = choose|i: int| 0 <= i < v.active.len() && #[trigger] v.active[i].task_id == id;
        if holds_id(v.pending, id) {
            let j = choose|j: int| 0 <= j < v.pending.len() && #[trigger] v.pending[j].task_id == id;
            assert((v.active + v.pending)[i] == v.active[i]);
            assert((v.active + v.pending)[v.active.len() + j] == v.pending[j]);
        }
        lemma_not_holds(w.active, id);
        lemma_not_holds(w.pending, id);
    } else if holds_id(v.pending, id) {
        lemma_not_holds(w.pending, id);
    }
}

/// Tasks in `s` appear in the order they were spawned (ids increase).
pub open spec fn in_arrival_order(s: Seq<TaskEntry>) -> bool {
    forall|i: int, j: int| 0 <= i < j < s.len() ==> #[trigger] s[i].task_id < #[trigger] s[j].task_id
}

/// A spawn that is accepted puts the new task last: at the back of the active
/// tasks when the budget has room, otherwise at the back of the queue, with
/// every task already held kept in place.
pub proof fn lemma_spawn_appends_at_back(v: ExecutorView, name: Seq<char>, deadline: Instant, now: Instant)
    requires
        deadline.nanos > now.nanos,
    ensures
        ({
            let w = spawn_next(v, name, deadline, now);
            if v.active.len() < v.budget {
                &&& w.pending == v.pending
                &&& w.active.len() == v.active.len() + 1
                &&& w.active.take(v.active.len() as int) == v.active
                &&& w.active.last().task_id == v.next_id as u64
                &&& w.active.last().deadline == deadline
            } else {
                &&& w.active == v.active
                &&& w.pending.len() == v.pending.len() + 1
                &&& w.pending.take(v.pending.len() as int) == v.pending
                &&& w.pending.last().task_id == v.next_id as u64
                &&& w.pending.last().deadline == deadline
            }
        }),
{
    let w = spawn_next(v, name, deadline, now);
    if v.active.len() < v.budget {
        assert(w.active.take(v.active.len() as int) =~= v.active);
    } else {
        assert(w.pending.take(v.pending.len() as int) =~= v.pending);
    }
}

/// Filtering keeps the arrival order.
proof fn lemma_filter_keeps_order(s: Seq<TaskEntry>, p: spec_fn(TaskEntry) -> bool)
    requires
        in_arrival_order(s),
    ensures
        in_arrival_order(s.filter(p)),
    decreases s.len(),
{
    reveal(Seq::filter);
    if s.len() > 0 {
        let d = s.drop_last();
        assert(in_arrival_order(d));
        lemma_filter_keeps_order(d, p);
        let f = d.filter(p);
        if p(s.last()) {
            assert forall|i: int| 0 <= i < f.len() implies #[trigger] f[i].task_id < s.last().task_id by {
                assert(f.contains(f[i]));
                d.lemma_filter_contains_rev(p, f[i]);
                let j = choose|j: int| 0 <= j < d.len() && d[j] == f[i];
                assert(s[j] == d[j]);
            }
            let g = f.push(s.last());
            assert(s.filter(p) == g);
            assert forall|i: int, j: int| 0 <= i < j < g.len() implies #[trigger] g[i].task_id < #[trigger] g[j].task_id by {
                if j == g.len() - 1 {
                    assert(g[i] == f[i]);
                } else {
                    assert(g[i] == f[i] && g[j] == f[j]);
                }
            }
        }
    }
}

/// The queue is first-in first-out: if it is in arrival order, it stays so
/// after a spawn, a tick or a completion.
pub proof fn lemma_queue_stays_in_arrival_order(v: ExecutorView, name: Seq<char>, deadline: Instant, now: Instant, id: u64)
    requires
        executor_invariant(v),
        v.total_spawned < u64::MAX,
        in_arrival_order(v.pending),
    ensures
        in_arrival_order(spawn_next(v, name, deadline, now).pending),
        in_arrival_order(tick_next(v, now).pending),
        in_arrival_order(complete_next(v, id, now).pending),
{
    let w = spawn_next(v, name, deadline, now);
    if deadline.nanos > now.nanos && v.active.len() >= v.budget {
        assert forall|i: int, j: int| 0 <= i < j < w.pending.len() implies #[trigger] w.pending[i].task_id
            < #[trigger] w.pending[j].task_id by {
            assert(w.pending[i] == v.pending[i]);
            if j == v.pending.len() {
                assert((v.active + v.pending)[v.active.len() + i] == v.pending[i]);
                assert(w.pending[j].task_id == v.next_id);
            } else {
                assert(w.pending[j] == v.pending[j]);
            }
        }
    }
    let live = is_live(now);
    let waiting = v.pending.filter(live);
    lemma_filter_keeps_order(v.pending, live);
    let k = promoted_count(v, now);
    let t = tick_next(v, now);
    assert forall|i: int, j: int| 0 <= i < j < t.pending.len() implies #[trigger] t.pending[i].task_id
        < #[trigger] t.pending[j].task_id by {
        assert(t.pending[i] == waiting[i + k]);
        assert(t.pending[j] == waiting[j + k]);
    }
    lemma_filter_keeps_order(v.pending, other_id(id));
}

/// A tick promotes the tasks that waited longest: every task it moves from the
/// queue into the budget arrived before every task left waiting.
pub proof fn lemma_tick_promotes_oldest(v: ExecutorView, now: Instant)
    requires
        in_arrival_order(v.pending),
    ensures
        forall|a: int, b: int|
            v.active.filter(is_live(now)).len() <= a < tick_next(v, now).active.len() && 0 <= b < tick_next(
                v,
                now,
            ).pending.len() ==> #[trigger] tick_next(v, now).active[a].task_id < #[trigger] tick_next(
                v,
                now,
            ).pending[b].task_id,
{
    let live = is_live(now);
    let kept = v.active.filter(live);
    let waiting = v.pending.filter(live);
    lemma_filter_keeps_order(v.pending, live);
    let k = promoted_count(v, now);
    let t = tick_next(v, now);
    assert forall|a: int, b: int|
        kept.len() <= a < t.active.len() && 0 <= b < t.pending.len() implies #[trigger] t.active[a].task_id
            < #[trigger] t.pending[b].task_id by {
        assert(t.active[a] == waiting[a - kept.len()]);
        assert(t.pending[b] == waiting[b + k]);
    }
}

/// A spawned task gets a fresh id: none of the tasks already held carries it.
pub proof fn lemma_spawn_id_fresh(v: ExecutorView, name: Seq<char>, deadline: Instant, now: Instant)
    requires
        executor_invariant(v),
        v.total_spawned < u64::MAX,
        spawn_result(v, deadline, now) is Some,
    ensures
        !holds_id(v.active + v.pending, spawn_result(v, deadline, now)->0.task_id),
        spawn_result(v, deadline, now)->0.task_id == v.total_spawned,
{
    let id = spawn_result(v, deadline, now)->0.task_id;
    assert forall|j: int| 0 <= j < (v.active + v.pending).len() implies #[trigger] (v.active
        + v.pending)[j].task_id != id by {}
}

/// Completing a task right after spawning it undoes the spawn: the active and
/// queued tasks are as before, and only the counters have moved.
pub proof fn lemma_complete_undoes_spawn(v: ExecutorView, name: Seq<char>, deadline: Instant, now: Instant, later: Instant)
    requires
        executor_invariant(v),
        v.total_spawned < u64::MAX,
        deadline.nanos > now.nanos,
    ensures
        complete_result(spawn_next(v, name, deadline, now), v.next_id as u64),
        complete_next(spawn_next(v, name, deadline, now), v.next_id as u64, later).active == v.active,
        complete_next(spawn_next(v, name, deadline, now), v.next_id as u64, later).pending == v.pending,
{
    let id = v.next_id as u64;
    let w = spawn_next(v, name, deadline, now);
    lemma_split_ids(v.active, v.pending);
    assert forall|j: int| 0 <= j < v.active.len() implies #[trigger] v.active[j].task_id != id by {
        assert((v.active + v.pending)[j] == v.active[j]);
    }
    assert forall|j: int| 0 <= j < v.pending.len() implies #[trigger] v.pending[j].task_id != id by {
        assert((v.active + v.pending)[v.active.len() + j] == v.pending[j]);
    }
    lemma_filter_all(v.active, other_id(id));
    lemma_filter_all(v.pending, other_id(id));
    if v.active.len() < v.budget {
        assert(w.active[v.active.len() as int].task_id == id);
        v.active.lemma_filter_push(w.active.last(), other_id(id));
        assert(w.active =~= v.active.push(w.active.last()));
    } else {
        lemma_not_holds(v.active, id);
        assert(w.pending[v.pending.len() as int].task_id == id);
        v.pending.lemma_filter_push(w.pending.last(), other_id(id));
        assert(w.pending =~= v.pending.push(w.pending.last()));
    }
}

/// The budget is fixed at construction: spawning, ticking and completing never
/// change it.
pub proof fn lemma_budget_fixed(v: ExecutorView, name: Seq<char>, deadline: Instant, now: Instant, id: u64)
    ensures
        spawn_next(v, name, deadline, now).budget == v.budget,
        tick_next(v, now).budget == v.budget,
        complete_next(v, id, now).budget == v.budget,
{
}

/// Conservation: from any state within budget, a spawn, a tick or a completion
/// leaves the active tasks within budget. A task that finds the budget full is
/// queued, never run over budget.
pub proof fn lemma_conservation(v: ExecutorView, name: Seq<char>, deadline: Instant, now: Instant, id: u64)
    requires
        v.active.len() <= v.budget,
    ensures
        spawn_next(v, name, deadline, now).active.len() <= v.budget,
        tick_next(v, now).active.len() <= v.budget,
        complete_next(v, id, now).active.len() <= v.budget,
{
    let live = is_live(now);
    v.active.lemma_filter_len(live);
    v.pending.lemma_filter_len(live);
    v.active.lemma_filter_len(other_id(id));
}

/// After a tick at `now`, every task the executor holds has its deadline ahead of `now`.
pub proof fn lemma_tick_keeps_only_live(v: ExecutorView, now: Instant)
    ensures
        forall|i: int|
            0 <= i < tick_next(v, now).active.len() ==> #[trigger] tick_next(v, now).active[i].deadline.nanos
                > now.nanos,
        forall|i: int|
            0 <= i < tick_next(v, now).pending.len() ==> #[trigger] tick_next(v, now).pending[i].deadline.nanos
                > now.nanos,
{
    let live = is_live(now);
    let kept = v.active.filter(live);
    let waiting = v.pending.filter(live);
    let k = promoted_count(v, now);
    let w = tick_next(v, now);
    assert forall|i: int| 0 <= i < w.active.len() implies #[trigger] w.active[i].deadline.nanos > now.nanos by {
        if i < kept.len() {
            v.active.lemma_filter_pred(live, i);
        } else {
            v.pending.lemma_filter_pred(live, i - kept.len());
        }
    }
    assert forall|i: int| 0 <= i < w.pending.len() implies #[trigger] w.pending[i].deadline.nanos > now.nanos by {
        v.pending.lemma_filter_pred(live, i + k);
    }
}

/// A tick never leaves budget idle while unexpired tasks wait: when the
/// executor has room after a tick, its queue is empty.
pub proof fn lemma_tick_fills_budget(v: ExecutorView, now: Instant)
    requires
        executor_invariant(v),
    ensures
        tick_next(v, now).active.len() <= v.budget,
        tick_next(v, now).active.len() < v.budget ==> tick_next(v, now).pending.len() == 0,
{
    let live = is_live(now);
    v.active.lemma_filter_len(live);
    v.pending.lemma_filter_len(live);
}

/// Ticking twice at the same time changes nothing the second time.
pub proof fn lemma_tick_idempotent(v: ExecutorView, now: Instant)
    requires
        executor_invariant(v),
    ensures
        tick_next(tick_next(v, now), now) == tick_next(v, now),
        tick_expired(tick_next(v, now), now) == 0,
{
    let live = is_live(now);
    let w = tick_next(v, now);
    lemma_tick_keeps_only_live(v, now);
    lemma_tick_fills_budget(v, now);
    lemma_filter_all(w.active, live);
    lemma_filter_all(w.pending, live);
    assert(promoted_count(w, now) == 0);
    assert(w.active + w.pending.take(0) =~= w.active);
    assert(w.pending.skip(0) =~= w.pending);
}

impl DeadlineExecutor {
    /// Every active task is marked running and every queued task pending.
    pub closed spec fn status_consistent(&self) -> bool {
        &&& forall|i: int| 0 <= i < self.active@.len() ==> #[trigger] self.active@[i].status == TaskStatus::Running
        &&& forall|i: int| 0 <= i < self.pending@.len() ==> #[trigger] self.pending@[i].status == TaskStatus::Pending
    }

    /// Well-formedness: the executor invariant holds of the view, and every task's
    /// status agrees with where it is held.
    pub open spec fn wf(&self) -> bool {
        &&& executor_invariant(self@)
        &&& self.status_consistent()
    }

    /// Create a new executor with the given conservation budget.
    pub fn new(budget: usize) -> (r: Self)
        ensures
            r.wf(),
            r@ == (ExecutorView {
                budget: budget as nat,
                active: Seq::empty(),
                pending: Seq::empty(),
                next_id: 0,
                deadline_misses: 0,
                completed: 0,
                total_spawned: 0,
            }),
    {
        let r = Self {
            budget,
            active: Vec::with_capacity(budget),
            pending: VecDeque::new(),
            next_id: 0,
            deadline_misses: 0,
            completed: 0,
            total_spawned: 0,
        };
        assert(entries(r.active@) =~= Seq::empty());
        assert(entries(r.pending@) =~= Seq::empty());
        r
    }

    /// Get the conservation budget (max concurrent tasks).
    pub fn budget(&self) -> (r: usize)
        ensures
            r == self@.budget,
    {
        self.budget
    }

    /// Get the number of pending tasks waiting for budget.
    pub fn pending_count(&self) -> (r: usize)
        ensures
            r == self@.pending.len(),
    {
        self.pending.len()
    }

    /// Get the number of active tasks.
    pub fn active_count(&self) -> (r: usize)
        ensures
            r == self@.active.len(),
    {
        self.active.len()
    }

    /// Check if the budget is fully consumed.
    pub fn is_exhausted(&self) -> (r: bool)
        ensures
            r == (self@.active.len() >= self@.budget),
    {
        self.active.len() >= self.budget
    }

    /// Total tasks spawned since creation, rejected ones included.
    pub fn total_spawned(&self) -> (r: u64)
        ensures
            r == self@.total_spawned,
    {
        self.total_spawned
    }

    /// Check the current budget state.
    pub fn check_budget(&self) -> (r: BudgetReport)
        ensures
            r.max_budget == self@.budget,
            r.active_count == self@.active.len(),
            r.remaining == (if self@.active.len() <= self@.budget { self@.budget - self@.active.len() } else { 0 }),
            r.deadline_misses == self@.deadline_misses,
            r.completed == self@.completed,
            self.wf() ==> r.remaining + r.active_count == r.max_budget,
    {
        BudgetReport {
            max_budget: self.budget,
            active_count: self.active.len(),
            remaining: self.budget.saturating_sub(self.active.len()),
            deadline_misses: self.deadline_misses,
            completed: self.completed,
        }
    }

    /// Spawn a task with a deadline, at the given time `now`.
    ///
    /// If the deadline is not after `now`, the task is rejected and counted as a
    /// deadline miss. Otherwise it starts at once when the budget has room, and
    /// waits at the back of the queue when it has none. The task receives the next
    /// id either way.
    pub fn spawn_with_deadline_at(&mut self, name: &str, deadline: Instant, now: Instant) -> (r: Option<JoinHandle>)
        requires
            old(self).wf(),
            old(self)@.total_spawned < u64::MAX,
        ensures
            final(self).wf(),
            final(self)@ == spawn_next(old(self)@, name@, deadline, now),
            r == spawn_result(old(self)@, deadline, now),
    {
        broadcast use vstd::string::to_string_from_display_ensures_for_str;

        let ghost v0 = self@;
        let task_id = self.next_id;
        self.next_id = self.next_id + 1;
        self.total_spawned = self.total_spawned + 1;

        // Reject tasks whose deadline has already passed
        if deadline.nanos <= now.nanos {
            self.deadline_misses = self.deadline_misses + 1;
            assert(self@.active =~= v0.active);
            assert(self@.pending =~= v0.pending);
            return None;
        }

        let handle = JoinHandle {
            task_id,
            deadline,
            spawned_at: now,
            completed: false,
            missed_deadline: false,
        };

        let task = PendingTask {
            task_id,
            deadline,
            spawned_at: now,
            name: name.to_string(),
            status: TaskStatus::Running,
        };

        if self.active.len() < self.budget {
            let ghost a0 = self.active@;
            self.active.push(task);
            assert(entries(self.active@) =~= entries(a0).push(task@));
            assert(self@.active + self@.pending =~= (v0.active + v0.pending).insert(v0.active.len() as int, task@));
        } else {
            let mut pending_task = task;
            pending_task.status = TaskStatus::Pending;
            let ghost p0 = self.pending@;
            self.pending.push_back(pending_task);
            assert(entries(self.pending@) =~= entries(p0).push(pending_task@));
            assert(self@.active + self@.pending =~= (v0.active + v0.pending).push(pending_task@));
        }
        Some(handle)
    }

    /// Position of the active task with id `task_id`, if any.
    fn find_active(&self, task_id: u64) -> (r: Option<usize>)
        ensures
            match r {
                Some(pos) => pos < self.active@.len() && self.active@[pos as int].task_id == task_id,
                None => forall|j: int| 0 <= j < self.active@.len() ==> #[trigger] self.active@[j].task_id != task_id,
            },
    {
        let n = self.active.len();
        let mut pos: usize = 0;
        while pos < n
            invariant
                pos <= n,
                n == self.active@.len(),
                forall|j: int| 0 <= j < pos ==> #[trigger] self.active@[j].task_id != task_id,
            decreases n - pos,
        {
            if self.active[pos].task_id == task_id {
                return Some(pos);
            }
            pos = pos + 1;
        }
        None
    }

    /// Position of the queued task with id `task_id`, if any.
    fn find_pending(&self, task_id: u64) -> (r: Option<usize>)
        ensures
            match r {
                Some(pos) => pos < self.pending@.len() && self.pending@[pos as int].task_id == task_id,
                None => forall|j: int| 0 <= j < self.pending@.len() ==> #[trigger] self.pending@[j].task_id != task_id,
            },
    {
        let n = self.pending.len();
        let mut pos: usize = 0;
        while pos < n
            invariant
                pos <= n,
                n == self.pending@.len(),
                forall|j: int| 0 <= j < pos ==> #[trigger] self.pending@[j].task_id != task_id,
            decreases n - pos,
        {
            if self.pending[pos].task_id == task_id {
                return Some(pos);
            }
            pos = pos + 1;
        }
        None
    }

    /// Complete a task by its id at time `now`, freeing one unit of budget when
    /// the task was active.
    ///
    /// Returns true if the task was found (active or queued) and removed. An
    /// active task counts as completed only if its deadline is still ahead of
    /// `now`; a queued one always does.
    pub fn complete_at(&mut self, task_id: u64, now: Instant) -> (r: bool)
        requires
            old(self).wf(),
        ensures
            final(self).wf(),
            final(self)@ == complete_next(old(self)@, task_id, now),
            r == complete_result(old(self)@, task_id),
    {
        let ghost v0 = self@;
        proof {
            lemma_split_ids(v0.active, v0.pending);
        }
        if let Some(pos) = self.find_active(task_id) {
            let ghost a0 = self.active@;
            let task = self.active.remove(pos);
            proof {
                assert(entries(self.active@) =~= entries(a0).remove(pos as int));
                assert(v0.active[pos as int] == task@);
                lemma_entry_with_id(v0.active, pos as int);
                lemma_remove_is_filter(v0.active, pos as int);
                assert(self@.active + self@.pending =~= (v0.active + v0.pending).remove(pos as int));
                lemma_remove_keeps_ids(v0.active + v0.pending, pos as int, v0.next_id);
            }
            if task.deadline.nanos > now.nanos {
                self.completed = self.completed + 1;
            }
            return true;
        }
        proof {
            lemma_not_holds(v0.active, task_id);
        }
        // Check the queue too
        if let Some(pos) = self.find_pending(task_id) {
            let ghost p0 = self.pending@;
            let _ = self.pending.remove(pos);
            proof {
                assert(entries(self.pending@) =~= entries(p0).remove(pos as int));
                lemma_entry_with_id(v0.pending, pos as int);
                lemma_remove_is_filter(v0.pending, pos as int);
                let k = v0.active.len() + pos;
                assert((v0.active + v0.pending)[k] == v0.pending[pos as int]);
                assert(self@.active + self@.pending =~= (v0.active + v0.pending).remove(k));
                lemma_remove_keeps_ids(v0.active + v0.pending, k, v0.next_id);
            }
            self.completed = self.completed + 1;
            return true;
        }
        proof {
            lemma_not_holds(v0.pending, task_id);
        }
        false
    }

    /// Tick the executor at time `now`: expire tasks whose deadline has passed,
    /// then promote queued tasks into the freed budget.
    ///
    /// Returns the number of tasks whose deadline expired in this tick.
    pub fn tick_at(&mut self, now: Instant) -> (expired: u64)
        requires
            old(self).wf(),
        ensures
            final(self).wf(),
            final(self)@ == tick_next(old(self)@, now),
            expired == tick_expired(old(self)@, now),
    {
        let ghost v0 = self@;
        let ghost live = is_live(now);
        let ghost a_all = v0.active;
        let ghost p_all = v0.pending;
        let mut expired: u64 = 0;

        // Check active tasks for deadline expiration
        let mut old_active: Vec<PendingTask> = Vec::new();
        std::mem::swap(&mut old_active, &mut self.active);
        let ghost olds = old_active@;
        assert(entries(olds) == a_all);
        let ghost pend0 = self.pending@;
        let mut still_active: Vec<PendingTask> = Vec::with_capacity(self.budget);
        for task in it: old_active.into_iter()
            invariant
                it.seq() == olds,
                entries(olds) == a_all,
                forall|j: int| 0 <= j < olds.len() ==> #[trigger] olds[j].status == TaskStatus::Running,
                entries(still_active@) == a_all.take(it.index() as int).filter(live),
                forall|j: int| 0 <= j < still_active@.len() ==> #[trigger] still_active@[j].status == TaskStatus::Running,
                expired == it.index() - still_active@.len(),
                still_active@.len() <= it.index(),
                self.deadline_misses == v0.deadline_misses + expired,
                v0.deadline_misses + v0.completed + a_all.len() + p_all.len() <= u64::MAX,
                live == is_live(now),
                a_all.len() <= v0.budget,
                self.pending@ == pend0,
                entries(pend0) == p_all,
                forall|j: int| 0 <= j < pend0.len() ==> #[trigger] pend0[j].status == TaskStatus::Pending,
                self.budget == v0.budget,
                self.next_id == v0.next_id,
                self.completed == v0.completed,
                self.total_spawned == v0.total_spawned,
        {
            let ghost i = it.index() as int;
            assert(a_all.take(i + 1) =~= a_all.take(i).push(a_all[i]));
            proof {
                a_all.take(i).lemma_filter_push(a_all[i], live);
            }
            assert(task == olds[i]);
            assert(a_all[i] == task@);
            if task.deadline.nanos <= now.nanos {
                self.deadline_misses = self.deadline_misses + 1;
                expired = expired + 1;
            } else {
                let ghost s0 = still_active@;
                still_active.push(task);
                assert(entries(still_active@) =~= entries(s0).push(task@));
            }
        }
        assert(a_all.take(olds.len() as int) =~= a_all);
        self.active = still_active;
        let ghost kept = a_all.filter(live);
        assert(entries(self.active@) == kept);

        // Promote pending tasks into freed capacity
        let ghost e1 = expired;
        let ghost mut c: int = 0;
        assert(p_all.take(0) =~= Seq::<TaskEntry>::empty());
        assert(p_all.skip(0) =~= p_all);
        loop
            invariant
                0 <= c <= p_all.len(),
                entries(self.pending@) == p_all.skip(c),
                entries(self.active@) == kept + p_all.take(c).filter(live),
                self.active@.len() <= self.budget,
                self.budget == v0.budget,
                self.next_id == v0.next_id,
                self.completed == v0.completed,
                self.total_spawned == v0.total_spawned,
                forall|j: int| 0 <= j < self.active@.len() ==> #[trigger] self.active@[j].status == TaskStatus::Running,
                forall|j: int| 0 <= j < self.pending@.len() ==> #[trigger] self.pending@[j].status == TaskStatus::Pending,
                e1 == a_all.len() - kept.len(),
                kept.len() <= a_all.len(),
                expired == e1 + (c - p_all.take(c).filter(live).len()),
                self.deadline_misses == v0.deadline_misses + expired,
                v0.deadline_misses + v0.completed + a_all.len() + p_all.len() <= u64::MAX,
                live == is_live(now),
                kept == a_all.filter(live),
            ensures
                self.active@.len() >= self.budget || c == p_all.len(),
            decreases self.pending@.len(),
        {
            if self.active.len() >= self.budget {
                break;
            }
            let ghost q0 = self.pending@;
            match self.pending.pop_front() {
                Some(task) => {
                    proof {
                        assert(q0.len() > 0);
                        assert(entries(q0).len() == q0.len());
                        assert(c < p_all.len());
                        assert(entries(q0)[0] == q0[0]@);
                        assert(p_all.skip(c)[0] == p_all[c]);
                        assert(task@ == p_all[c]);
                        assert(entries(self.pending@) =~= p_all.skip(c + 1));
                        assert(p_all.take(c + 1) =~= p_all.take(c).push(p_all[c]));
                        p_all.take(c).lemma_filter_push(p_all[c], live);
                        c = c + 1;
                    }
                    if task.deadline.nanos <= now.nanos {
                        self.deadline_misses = self.deadline_misses + 1;
                        expired = expired + 1;
                        continue;
                    }
                    let mut promoted = task;
                    promoted.status = TaskStatus::Running;
                    let ghost s0 = self.active@;
                    self.active.push(promoted);
                    assert(entries(self.active@) =~= entries(s0).push(promoted@));
                },
                None => {
                    assert(p_all.skip(c).len() == 0);
                    break;
                },
            }
        }

        // Check remaining pending for expired deadlines
        let ghost r0 = p_all.skip(c);
        let ghost e2 = expired;
        let ghost mut d: int = 0;
        let mut valid_pending: VecDeque<PendingTask> = VecDeque::new();
        assert(entries(valid_pending@) =~= Seq::<TaskEntry>::empty());
        assert(r0.take(0) =~= Seq::<TaskEntry>::empty());
        assert(r0.skip(0) =~= r0);
        loop
            invariant
                0 <= d <= r0.len(),
                entries(self.pending@) == r0.skip(d),
                entries(valid_pending@) == r0.take(d).filter(live),
                forall|j: int| 0 <= j < valid_pending@.len() ==> #[trigger] valid_pending@[j].status == TaskStatus::Pending,
                forall|j: int| 0 <= j < self.pending@.len() ==> #[trigger] self.pending@[j].status == TaskStatus::Pending,
                expired == e2 + (d - valid_pending@.len()),
                e2 == e1 + (c - p_all.take(c).filter(live).len()),
                e1 == a_all.len() - kept.len(),
                kept.len() <= a_all.len(),
                0 <= c <= p_all.len(),
                r0 == p_all.skip(c),
                entries(self.active@) == kept + p_all.take(c).filter(live),
                self.active@.len() <= self.budget,
                forall|j: int| 0 <= j < self.active@.len() ==> #[trigger] self.active@[j].status == TaskStatus::Running,
                kept == a_all.filter(live),
                self.active@.len() >= self.budget || c == p_all.len(),
                self.budget == v0.budget,
                self.next_id == v0.next_id,
                self.completed == v0.completed,
                self.total_spawned == v0.total_spawned,
                self.deadline_misses == v0.deadline_misses + expired,
                v0.deadline_misses + v0.completed + a_all.len() + p_all.len() <= u64::MAX,
                live == is_live(now),
            ensures
                d == r0.len(),
            decreases self.pending@.len(),
        {
            let ghost q0 = self.pending@;
            match self.pending.pop_front() {
                Some(task) => {
                    proof {
                        assert(q0.len() > 0);
                        assert(entries(q0).len() == q0.len());
                        assert(d < r0.len());
                        assert(entries(q0)[0] == q0[0]@);
                        assert(r0.skip(d)[0] == r0[d]);
                        assert(task@ == r0[d]);
                        assert(entries(self.pending@) =~= r0.skip(d + 1));
                        assert(r0.take(d + 1) =~= r0.take(d).push(r0[d]));
                        r0.take(d).lemma_filter_push(r0[d], live);
                        d = d + 1;
                    }
                    if task.deadline.nanos <= now.nanos {
                        self.deadline_misses = self.deadline_misses + 1;
                        expired = expired + 1;
                    } else {
                        let ghost w0 = valid_pending@;
                        valid_pending.push_back(task);
                        assert(entries(valid_pending@) =~= entries(w0).push(task@));
                    }
                },
                None => {
                    assert(r0.skip(d).len() == 0);
                    break;
                },
            }
        }
        self.pending = valid_pending;

        proof {
            let t = p_all.take(c).filter(live);
            let sf = r0.filter(live);
            let w = p_all.filter(live);
            assert(r0.take(d) =~= r0);
            assert(p_all =~= p_all.take(c) + r0);
            Seq::filter_distributes_over_add(p_all.take(c), r0, live);
            assert(w == t + sf);
            assert(w.take(t.len() as int) =~= t);
            assert(w.skip(t.len() as int) =~= sf);
            assert(promoted_count(v0, now) == t.len());
            assert(self@.active == kept + w.take(promoted_count(v0, now)));
            assert(self@.pending == w.skip(promoted_count(v0, now)));
            Seq::filter_distributes_over_add(a_all, p_all, live);
            assert(self@.active + self@.pending =~= kept + w);
            lemma_filter_keeps_ids(a_all + p_all, live, v0.next_id);
        }
        expired
    }

    /// Spawn a task with a deadline, reading the clock for the current time.
    ///
    /// If the budget has capacity, the task starts immediately. If the budget is
    /// full, the task is queued and starts when capacity frees up. If the deadline
    /// has already passed, the task is rejected and `None` is returned.
    pub fn spawn_with_deadline(&mut self, name: &str, deadline: Instant) -> (r: Option<JoinHandle>)
        requires
            old(self).wf(),
            old(self)@.total_spawned < u64::MAX,
        ensures
            final(self).wf(),
            exists|now: Instant|
                final(self)@ == spawn_next(old(self)@, name@, deadline, now) && r == spawn_result(
                    old(self)@,
                    deadline,
                    now,
                ),
    {
        let now = Instant::now();
        self.spawn_with_deadline_at(name, deadline, now)
    }

    /// Tick the executor, reading the clock for the current time: expire tasks
    /// whose deadline has passed and promote queued tasks into freed capacity.
    ///
    /// Should be called periodically. Returns the number of tasks whose deadline
    /// expired in this tick.
    pub fn tick(&mut self) -> (expired: u64)
        requires
            old(self).wf(),
        ensures
            final(self).wf(),
            exists|now: Instant|
                final(self)@ == tick_next(old(self)@, now) && expired == tick_expired(old(self)@, now),
    {
        let now = Instant::now();
        self.tick_at(now)
    }

    /// Complete a task by its id, reading the clock for the current time.
    ///
    /// Returns true if the task was found and completed.
    pub fn complete(&mut self, task_id: u64) -> (r: bool)
        requires
            old(self).wf(),
        ensures
            final(self).wf(),
            exists|now: Instant| final(self)@ == complete_next(old(self)@, task_id, now),
            r == complete_result(old(self)@, task_id),
    {
        let now = Instant::now();
        self.complete_at(task_id, now)
    }
}

} // verus!
