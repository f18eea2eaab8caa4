//! Per-task throughput history of a task-intelligence monitor.
//!
//! The monitor records, for each task label, the most recent samples up to a
//! fixed capacity. The information-theoretic analysis runs over these
//! histories; this module holds the bookkeeping, which is generic over the
//! sample type.
use vstd::prelude::*;

verus! {

broadcast use vstd::seq_lib::group_seq_properties;

/// Minimum samples needed per task to include it in analysis.
pub const MIN_SAMPLES: usize = 3;

/// Per-task history capacity of a monitor made with `new`.
pub const DEFAULT_CAPACITY: usize = 100;

/// The last `cap` elements of `s`, or all of `s` when it is no longer.
pub open spec fn window<T>(s: Seq<T>, cap: nat) -> Seq<T> {
    if s.len() <= cap {
        s
    } else {
        s.skip(s.len() - cap)
    }
}

/// A ring buffer that stores the most recent `capacity` samples of one task.
#[derive(Debug, Clone)]
pub struct ThroughputBuffer<T> {
    capacity: usize,
    values: Vec<T>,
}

impl<T> View for ThroughputBuffer<T> {
    type V = Seq<T>;

    closed spec fn view(&self) -> Seq<T> {
        self.values@
    }
}

impl<T> ThroughputBuffer<T> {
    /// The number of samples the buffer keeps.
    pub closed spec fn spec_capacity(&self) -> nat {
        self.capacity as nat
    }

    /// The buffer never holds more than its capacity.
    pub open spec fn wf(&self) -> bool {
        self@.len() <= self.spec_capacity()
    }

    /// An empty buffer keeping up to `capacity` samples.
    pub fn new(capacity: usize) -> (r: Self)
        ensures
            r.wf(),
            r@ == Seq::<T>::empty(),
            r.spec_capacity() == capacity,
    {
        Self { capacity, values: Vec::with_capacity(capacity) }
    }

    /// Append a sample, dropping the oldest one when the buffer is full.
    pub fn push(&mut self, value: T)
        requires
            old(self).wf(),
            old(self).spec_capacity() > 0,
        ensures
            final(self).wf(),
            final(self).spec_capacity() == old(self).spec_capacity(),
            final(self)@ == window(old(self)@.push(value), old(self).spec_capacity()),
    {
        let ghost s0 = self.values@;
        let ghost cap = self.capacity as nat;
        if self.values.len() >= self.capacity {
            self.values.remove(0);
            self.values.push(value);
            assert(s0.len() == cap);
            assert(self.values@ =~= s0.push(value).skip(1));
        } else {
            self.values.push(value);
        }
    }

    /// The kept samples, oldest first.
    pub fn values(&self) -> (r: &[T])
        ensures
            r@ == self@,
    {
        self.values.as_slice()
    }

    /// The number of kept samples.
    pub fn len(&self) -> (r: usize)
        ensures
            r == self@.len(),
    {
        self.values.len()
    }
}

/// The abstract state of a [`TaskIntelligenceMonitor`].
pub struct MonitorView<T> {
    /// Label of the pool being monitored.
    pub pool_name: Seq<char>,
    /// Task labels in the order they were first recorded.
    pub labels: Seq<Seq<char>>,
    /// `samples[i]` is the kept history of `labels[i]`, oldest first.
    pub samples: Seq<Seq<T>>,
    /// Samples kept per task.
    pub capacity: nat,
}

/// The state after recording sample `x` for task `label`: a known task's
/// history grows by `x` and keeps its most recent `capacity` samples; an unknown
/// label starts a new history after the known ones.
pub open spec fn record_next<T>(v: MonitorView<T>, label: Seq<char>, x: T) -> MonitorView<T> {
    if v.labels.contains(label) {
        let i = v.labels.index_of(label);
        MonitorView { samples: v.samples.update(i, window(v.samples[i].push(x), v.capacity)), ..v }
    } else {
        MonitorView {
            labels: v.labels.push(label),
            samples: v.samples.push(window(seq![x], v.capacity)),
            ..v
        }
    }
}

/// A pair of recorded tasks to compare, and how many leading samples of each
/// take part (the shorter history's length).
#[derive(Debug, Clone, Copy, PartialEq, Eq, Structural)]
pub struct PairPlan {
    pub first: usize,
    pub second: usize,
    pub aligned_len: usize,
}

/// A task takes part in analysis once it has `MIN_SAMPLES` samples.
pub open spec fn is_active<T>(v: MonitorView<T>, i: int) -> bool {
    0 <= i < v.samples.len() && v.samples[i].len() >= MIN_SAMPLES
}

/// The shorter of the histories of tasks `i` and `j`.
pub open spec fn aligned_len<T>(v: MonitorView<T>, i: int, j: int) -> nat {
    if v.samples[i].len() <= v.samples[j].len() {
        v.samples[i].len()
    } else {
        v.samples[j].len()
    }
}

/// Whether the pair `(i, j)` is compared: both tasks active, `i < j` for a
/// symmetric measure (`ordered`) or `i != j` for a directed one, and at least
/// `min_len` aligned samples.
pub open spec fn is_candidate<T>(v: MonitorView<T>, i: int, j: int, ordered: bool, min_len: nat) -> bool {
    &&& is_active(v, i)
    &&& is_active(v, j)
    &&& if ordered { i < j } else { i != j }
    &&& aligned_len(v, i, j) >= min_len
}

/// Pair `a` comes before pair `b` in row-major order.
pub open spec fn lex_before(a: PairPlan, b: PairPlan) -> bool {
    a.first < b.first || (a.first == b.first && a.second < b.second)
}

/// The aligned length of a pair is the shorter of the two histories: no longer
/// than either, equal to one of them, and the same in either order.
pub proof fn lemma_aligned_is_min<T>(v: MonitorView<T>, i: int, j: int)
    ensures
        aligned_len(v, i, j) <= v.samples[i].len(),
        aligned_len(v, i, j) <= v.samples[j].len(),
        aligned_len(v, i, j) == v.samples[i].len() || aligned_len(v, i, j) == v.samples[j].len(),
        aligned_len(v, i, j) == aligned_len(v, j, i),
{
}

/// Every pair of active tasks is compared: by mutual information when `i < j`,
/// and, when both histories exceed `MIN_SAMPLES`, by transfer entropy in each
/// direction.
pub proof fn lemma_active_pairs_are_planned<T>(v: MonitorView<T>, i: int, j: int)
    requires
        is_active(v, i),
        is_active(v, j),
    ensures
        i < j ==> is_candidate(v, i, j, true, MIN_SAMPLES as nat),
        i != j && v.samples[i].len() > MIN_SAMPLES && v.samples[j].len() > MIN_SAMPLES ==> is_candidate(
            v,
            i,
            j,
            false,
            (MIN_SAMPLES + 1) as nat,
        ),
{
}

/// `plan` lists exactly the candidate pairs, each once, in row-major order.
pub open spec fn plan_matches<T>(plan: Seq<PairPlan>, v: MonitorView<T>, ordered: bool, min_len: nat) -> bool {
    &&& forall|k: int|
        0 <= k < plan.len() ==> is_candidate(v, #[trigger] plan[k].first as int, plan[k].second as int, ordered, min_len)
            && plan[k].aligned_len == aligned_len(v, plan[k].first as int, plan[k].second as int)
    &&& forall|i: int, j: int|
        is_candidate(v, i, j, ordered, min_len) ==> exists|k: int|
            0 <= k < plan.len() && #[trigger] plan[k].first == i && plan[k].second == j
    &&& forall|k1: int, k2: int| 0 <= k1 < k2 < plan.len() ==> lex_before(#[trigger] plan[k1], #[trigger] plan[k2])
}

/// The samples of the active tasks among the first `n`, concatenated in task order.
pub open spec fn pooled_upto<T>(v: MonitorView<T>, n: int) -> Seq<T>
    decreases n,
{
    if n <= 0 {
        Seq::empty()
    } else if is_active(v, n - 1) {
        pooled_upto(v, n - 1) + v.samples[n - 1]
    } else {
        pooled_upto(v, n - 1)
    }
}

impl<T> Default for TaskIntelligenceMonitor<T> {
    /// A monitor for the pool named "default" with the default capacity.
    fn default() -> (r: Self)
        ensures
            r.wf(),
            r@ == (MonitorView::<T> {
                pool_name: "default"@,
                labels: Seq::empty(),
                samples: Seq::empty(),
                capacity: DEFAULT_CAPACITY as nat,
            }),
    {
        Self::new("default")
    }
}

/// Where the pooled samples split into a baseline (first half) and a recent half:
/// only when each half can hold `MIN_SAMPLES` samples.
pub open spec fn phase_split_spec(total: nat) -> Option<nat> {
    if total < 2 * MIN_SAMPLES {
        None
    } else {
        Some(total / 2)
    }
}

/// A monitor that keeps, per task label, the recent throughput samples of a
/// task pool.
#[derive(Debug, Clone)]
pub struct TaskIntelligenceMonitor<T> {
    pool_name: String,
    labels: Vec<String>,
    buffers: Vec<ThroughputBuffer<T>>,
    capacity: usize,
}

impl<T> View for TaskIntelligenceMonitor<T> {
    type V = MonitorView<T>;

    closed spec fn view(&self) -> MonitorView<T> {
        MonitorView {
            pool_name: self.pool_name@,
            labels: self.labels@.map_values(|l: String| l@),
            samples: self.buffers@.map_values(|b: ThroughputBuffer<T>| b@),
            capacity: self.capacity as nat,
        }
    }
}

impl<T> TaskIntelligenceMonitor<T> {
    /// Labels are distinct, every label has a history, and no history exceeds
    /// the capacity.
    pub closed spec fn wf(&self) -> bool {
        &&& self.labels@.len() == self.buffers@.len()
        &&& self@.labels.no_duplicates()
        &&& forall|i: int| 0 <= i < self.buffers@.len() ==> (#[trigger] self.buffers@[i]).wf()
            && self.buffers@[i].spec_capacity() == self.capacity
    }

    /// Every history holds at most `capacity` samples.
    pub proof fn lemma_histories_bounded(&self)
        requires
            self.wf(),
        ensures
            self@.labels.len() == self@.samples.len(),
            self@.labels.no_duplicates(),
            forall|i: int| 0 <= i < self@.samples.len() ==> (#[trigger] self@.samples[i]).len() <= self@.capacity,
    {
        assert forall|i: int| 0 <= i < self@.samples.len() implies (#[trigger] self@.samples[i]).len() <= self@.capacity by {
            assert(self.buffers@[i].wf());
        }
    }

    /// Create a monitor for the named task pool keeping up to `capacity`
    /// samples per task.
    pub fn with_capacity(pool_name: &str, capacity: usize) -> (r: Self)
        ensures
            r.wf(),
            r@ == (MonitorView::<T> {
                pool_name: pool_name@,
                labels: Seq::empty(),
                samples: Seq::empty(),
                capacity: capacity as nat,
            }),
    {
        let r = Self { pool_name: pool_name.to_owned(), labels: Vec::new(), buffers: Vec::new(), capacity };
        assert(r@.labels =~= Seq::<Seq<char>>::empty());
        assert(r@.samples =~= Seq::<Seq<T>>::empty());
        r
    }

    /// Create a monitor for the named task pool with the default capacity.
    pub fn new(pool_name: &str) -> (r: Self)
        ensures
            r.wf(),
            r@ == (MonitorView::<T> {
                pool_name: pool_name@,
                labels: Seq::empty(),
                samples: Seq::empty(),
                capacity: DEFAULT_CAPACITY as nat,
            }),
    {
        Self::with_capacity(pool_name, DEFAULT_CAPACITY)
    }

    /// Position of `label` among the recorded labels.
    fn find_label(&self, label: &String) -> (r: Option<usize>)
        requires
            self.wf(),
        ensures
            match r {
                Some(i) => i < self@.labels.len() && self@.labels.index_of(label@) == i && self@.labels.contains(label@),
                None => !self@.labels.contains(label@),
            },
    {
        let n = self.labels.len();
        let mut i: usize = 0;
        while i < n
            invariant
                i <= n,
                n == self.labels@.len(),
                self.wf(),
                forall|j: int| 0 <= j < i ==> self@.labels[j] != label@,
            decreases n - i,
        {
            if self.labels[i] == *label {
                proof {
                    let ls = self@.labels;
                    assert(ls[i as int] == label@);
                    assert(ls.contains(label@));
                    let j = ls.index_of(label@);
                    assert(ls[j] == label@);
                    assert(j == i);
                }
                return Some(i);
            }
            i = i + 1;
        }
        None
    }

    /// Record that a task completed with the given throughput sample.
    ///
    /// `task_label` identifies the kind of task (e.g. "http-handler"); the
    /// sample is a scalar measure of its performance.
    pub fn record_task(&mut self, task_label: &str, throughput: T)
        requires
            old(self).wf(),
            old(self)@.capacity > 0,
        ensures
            final(self).wf(),
            final(self)@ == record_next(old(self)@, task_label@, throughput),
    {
        let label = task_label.to_owned();
        match self.find_label(&label) {
            Some(i) => {
                let ghost b0 = self.buffers@;
                assert(b0[i as int].wf());
                self.buffers[i].push(throughput);
                assert(self.buffers@.len() == b0.len());
                assert(self@.samples =~= old(self)@.samples.update(i as int, window(old(self)@.samples[i as int].push(throughput), self.capacity as nat)));
                assert(self@.labels == old(self)@.labels);
                assert(forall|j: int| 0 <= j < self.buffers@.len() ==> (#[trigger] self.buffers@[j]).wf()
                    && self.buffers@[j].spec_capacity() == self.capacity);
            },
            None => {
                let mut buffer = ThroughputBuffer::new(self.capacity);
                buffer.push(throughput);
                let ghost l0 = self.labels@;
                let ghost b0 = self.buffers@;
                self.labels.push(label);
                self.buffers.push(buffer);
                assert(self@.labels =~= old(self)@.labels.push(label@));
                assert(self@.samples =~= old(self)@.samples.push(buffer@));
                assert(buffer@ =~= window(seq![throughput], self.capacity as nat));
                assert(self@.labels.no_duplicates());
            },
        }
    }

    /// Reset all recorded task data.
    pub fn reset(&mut self)
        requires
            old(self).wf(),
        ensures
            final(self).wf(),
            final(self)@ == (MonitorView::<T> { labels: Seq::empty(), samples: Seq::empty(), ..old(self)@ }),
    {
        self.labels.clear();
        self.buffers.clear();
        assert(self@.labels =~= Seq::<Seq<char>>::empty());
        assert(self@.samples =~= Seq::<Seq<T>>::empty());
    }

    /// Number of unique task labels being tracked.
    pub fn task_count(&self) -> (r: usize)
        ensures
            r == self@.labels.len(),
    {
        self.labels.len()
    }

    /// Get the pool name.
    pub fn pool_name(&self) -> (r: &str)
        ensures
            r@ == self@.pool_name,
    {
        self.pool_name.as_str()
    }

    /// Samples kept per task.
    pub fn capacity(&self) -> (r: usize)
        ensures
            r == self@.capacity,
    {
        self.capacity
    }

    /// The label of the `i`-th recorded task.
    pub fn label(&self, i: usize) -> (r: &str)
        requires
            self.wf(),
            i < self@.labels.len(),
        ensures
            r@ == self@.labels[i as int],
    {
        self.labels[i].as_str()
    }

    /// The kept samples of the `i`-th recorded task, oldest first.
    pub fn samples(&self, i: usize) -> (r: &[T])
        requires
            self.wf(),
            i < self@.labels.len(),
        ensures
            r@ == self@.samples[i as int],
    {
        self.buffers[i].values()
    }

    /// Indices of the tasks with enough samples for analysis, in task order.
    pub fn active_tasks(&self) -> (r: Vec<usize>)
        requires
            self.wf(),
        ensures
            forall|k: int| 0 <= k < r@.len() ==> is_active(self@, #[trigger] r@[k] as int),
            forall|i: int| is_active(self@, i) ==> r@.contains(i as usize),
            forall|k1: int, k2: int| 0 <= k1 < k2 < r@.len() ==> #[trigger] r@[k1] < #[trigger] r@[k2],
    {
        let n = self.buffers.len();
        let mut r: Vec<usize> = Vec::new();
        let mut i: usize = 0;
        while i < n
            invariant
                i <= n,
                n == self@.samples.len(),
                self.wf(),
                forall|k: int| 0 <= k < r@.len() ==> is_active(self@, #[trigger] r@[k] as int) && r@[k] < i,
                forall|a: int| 0 <= a < i && is_active(self@, a) ==> r@.contains(a as usize),
                forall|k1: int, k2: int| 0 <= k1 < k2 < r@.len() ==> #[trigger] r@[k1] < #[trigger] r@[k2],
            decreases n - i,
        {
            if self.buffers[i].len() >= MIN_SAMPLES {
                let ghost r0 = r@;
                r.push(i);
                assert forall|a: int| 0 <= a < i + 1 && is_active(self@, a) implies r@.contains(a as usize) by {
                    if a < i {
                        let k = choose|k: int| 0 <= k < r0.len() && r0[k] == a as usize;
                        assert(r@[k] == a as usize);
                    } else {
                        assert(r@[r0.len() as int] == i);
                    }
                }
            }
            i = i + 1;
        }
        r
    }

    /// The pairs of active tasks to compare, in row-major order: `i < j` when
    /// `ordered`, `i != j` otherwise, each with at least `min_len` aligned samples.
    fn plan_pairs(&self, ordered: bool, min_len: usize) -> (r: Vec<PairPlan>)
        requires
            self.wf(),
        ensures
            plan_matches(r@, self@, ordered, min_len as nat),
    {
        let n = self.buffers.len();
        let mut plan: Vec<PairPlan> = Vec::new();
        let mut i: usize = 0;
        while i < n
            invariant
                i <= n,
                n == self@.samples.len(),
                self.wf(),
                forall|k: int|
                    0 <= k < plan@.len() ==> is_candidate(self@, #[trigger] plan@[k].first as int, plan@[k].second as int, ordered, min_len as nat)
                        && plan@[k].aligned_len == aligned_len(self@, plan@[k].first as int, plan@[k].second as int)
                        && plan@[k].first < i,
                forall|a: int, b: int|
                    a < i && is_candidate(self@, a, b, ordered, min_len as nat) ==> exists|k: int|
                        0 <= k < plan@.len() && #[trigger] plan@[k].first == a && plan@[k].second == b,
                forall|k1: int, k2: int| 0 <= k1 < k2 < plan@.len() ==> lex_before(#[trigger] plan@[k1], #[trigger] plan@[k2]),
            decreases n - i,
        {
            let len_i = self.buffers[i].len();
            if len_i >= MIN_SAMPLES {
                let mut j: usize = if ordered { i + 1 } else { 0 };
                while j < n
                    invariant
                        i < n,
                        j <= n,
                        ordered ==> j >= i + 1,
                        n == self@.samples.len(),
                        len_i == self@.samples[i as int].len(),
                        len_i >= MIN_SAMPLES,
                        self.wf(),
                        forall|k: int|
                            0 <= k < plan@.len() ==> is_candidate(self@, #[trigger] plan@[k].first as int, plan@[k].second as int, ordered, min_len as nat)
                                && plan@[k].aligned_len == aligned_len(self@, plan@[k].first as int, plan@[k].second as int)
                                && (plan@[k].first < i || (plan@[k].first == i && plan@[k].second < j)),
                        forall|a: int, b: int|
                            (a < i || (a == i && b < j)) && is_candidate(self@, a, b, ordered, min_len as nat) ==> exists|k: int|
                                0 <= k < plan@.len() && #[trigger] plan@[k].first == a && plan@[k].second == b,
                        forall|k1: int, k2: int| 0 <= k1 < k2 < plan@.len() ==> lex_before(#[trigger] plan@[k1], #[trigger] plan@[k2]),
                    decreases n - j,
                {
                    let len_j = self.buffers[j].len();
                    if j != i && len_j >= MIN_SAMPLES {
                        let aligned = if len_i <= len_j { len_i } else { len_j };
                        if aligned >= min_len {
                            let ghost p0 = plan@;
                            let pair = PairPlan { first: i, second: j, aligned_len: aligned };
                            plan.push(pair);
                            assert(is_candidate(self@, i as int, j as int, ordered, min_len as nat));
                            assert forall|a: int, b: int|
                                (a < i || (a == i && b < j + 1)) && is_candidate(self@, a, b, ordered, min_len as nat) implies exists|k: int|
                                    0 <= k < plan@.len() && #[trigger] plan@[k].first == a && plan@[k].second == b by {
                                if a == i && b == j {
                                    let k = p0.len() as int;
                                    assert(plan@[k] == pair);
                                    assert(0 <= k < plan@.len() && plan@[k].first == a && plan@[k].second == b);
                                } else {
                                    assert(a < i || (a == i && b < j));
                                    let k = choose|k: int| 0 <= k < p0.len() && #[trigger] p0[k].first == a && p0[k].second == b;
                                    assert(plan@[k] == p0[k]);
                                    assert(0 <= k < plan@.len() && plan@[k].first == a && plan@[k].second == b);
                                }
                            }
                        }
                    }
                    j = j + 1;
                }
            }
            i = i + 1;
        }
        plan
    }

    /// The pairs of tasks whose mutual information is measured: every pair of
    /// active tasks `i < j` with at least `MIN_SAMPLES` aligned samples.
    pub fn correlation_plan(&self) -> (r: Vec<PairPlan>)
        requires
            self.wf(),
        ensures
            plan_matches(r@, self@, true, MIN_SAMPLES as nat),
    {
        self.plan_pairs(true, MIN_SAMPLES)
    }

    /// The directed pairs (cause, effect) whose transfer entropy is measured:
    /// every pair of distinct active tasks with more than `MIN_SAMPLES` aligned
    /// samples.
    pub fn transfer_plan(&self) -> (r: Vec<PairPlan>)
        requires
            self.wf(),
        ensures
            plan_matches(r@, self@, false, (MIN_SAMPLES + 1) as nat),
    {
        self.plan_pairs(false, MIN_SAMPLES + 1)
    }

    /// All samples of the active tasks, concatenated in task order: the
    /// aggregate throughput distribution that phase detection examines.
    pub fn pooled_samples(&self) -> (r: Vec<T>)
        where
            T: Copy,
        requires
            self.wf(),
        ensures
            r@ == pooled_upto(self@, self@.samples.len() as int),
    {
        let n = self.buffers.len();
        let mut out: Vec<T> = Vec::new();
        let mut i: usize = 0;
        while i < n
            invariant
                i <= n,
                n == self@.samples.len(),
                self.wf(),
                out@ == pooled_upto(self@, i as int),
            decreases n - i,
        {
            let values = self.buffers[i].values();
            if values.len() >= MIN_SAMPLES {
                let m = values.len();
                let mut j: usize = 0;
                while j < m
                    invariant
                        j <= m,
                        i < n,
                        n == self@.samples.len(),
                        m == values@.len(),
                        values@ == self@.samples[i as int],
                        out@ == pooled_upto(self@, i as int) + values@.take(j as int),
                    decreases m - j,
                {
                    let x = values[j];
                    let ghost o0 = out@;
                    out.push(x);
                    assert(values@.take(j + 1) =~= values@.take(j as int).push(x));
                    assert(out@ =~= pooled_upto(self@, i as int) + values@.take(j + 1));
                    j = j + 1;
                }
                assert(values@.take(m as int) =~= values@);
            }
            i = i + 1;
        }
        out
    }
}

/// Where the pooled samples split into a baseline (first half) and a recent
/// half, or `None` when either half would hold fewer than `MIN_SAMPLES`.
pub fn phase_split(total: usize) -> (r: Option<usize>)
    ensures
        match phase_split_spec(total as nat) {
            Some(mid) => r == Some(mid as usize),
            None => r is None,
        },
{
    if total < MIN_SAMPLES * 2 {
        return None;
    }
    let mid = total / 2;
    if mid < MIN_SAMPLES || total - mid < MIN_SAMPLES {
        return None;
    }
    Some(mid)
}

/// Pushing into a window keeps the most recent samples of the whole stream:
/// a buffer fed `s` one sample at a time holds `window(s, cap)`.
pub proof fn lemma_window_push<T>(s: Seq<T>, x: T, cap: nat)
    requires
        cap > 0,
    ensures
        window(window(s, cap).push(x), cap) == window(s.push(x), cap),
        window(s, cap).len() <= cap,
{
    let w = window(s, cap);
    if s.len() <= cap {
    } else {
        assert(window(w.push(x), cap) =~= window(s.push(x), cap));
    }
}

} // verus!
