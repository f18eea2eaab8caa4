//! Square matrices over any copyable scalar, and the dependency matrix of a
//! task graph.
use vstd::prelude::*;

verus! {

/// Unique identifier for a task within the scheduling system.
#[derive(Debug, Clone, Copy, PartialEq, Eq, Hash, Structural)]
pub struct TaskId(pub u64);

/// A square matrix stored row by row.
#[derive(Debug, Clone)]
pub struct Matrix<T> {
    pub data: Vec<Vec<T>>,
    pub size: usize,
}

impl<T> Matrix<T> {
    /// `size` rows of `size` entries each.
    pub open spec fn wf(&self) -> bool {
        &&& self.data@.len() == self.size
        &&& forall|i: int| 0 <= i < self.size ==> (#[trigger] self.data@[i])@.len() == self.size
    }

    /// At least `size` rows, each of the first `size` with at least `size`
    /// entries: the leading `size`-by-`size` block, which is all the matrix
    /// operations read, is present. Extra rows or entries are ignored.
    pub open spec fn covers(&self) -> bool {
        &&& self.data@.len() >= self.size
        &&& forall|i: int| 0 <= i < self.size ==> (#[trigger] self.data@[i])@.len() >= self.size
    }

    /// The entry in row `i`, column `j`.
    pub open spec fn entry(&self, i: int, j: int) -> T {
        self.data@[i]@[j]
    }
}

/// A row of `n` copies of `x`.
fn filled_row<T: Copy>(n: usize, x: T) -> (r: Vec<T>)
    ensures
        r@.len() == n,
        forall|j: int| 0 <= j < n ==> r@[j] == x,
{
    let mut row: Vec<T> = Vec::with_capacity(n);
    let mut j: usize = 0;
    while j < n
        invariant
            j <= n,
            row@.len() == j,
            forall|k: int| 0 <= k < j ==> row@[k] == x,
        decreases n - j,
    {
        row.push(x);
        j = j + 1;
    }
    row
}

impl<T: Copy> Matrix<T> {
    /// A matrix of the given size whose entries are all `zero`.
    pub fn zeros(size: usize, zero: T) -> (r: Self)
        ensures
            r.wf(),
            r.size == size,
            forall|i: int, j: int| 0 <= i < size && 0 <= j < size ==> r.entry(i, j) == zero,
    {
        let mut data: Vec<Vec<T>> = Vec::with_capacity(size);
        let mut i: usize = 0;
        while i < size
            invariant
                i <= size,
                data@.len() == i,
                forall|k: int| 0 <= k < i ==> (#[trigger] data@[k])@.len() == size,
                forall|k: int, j: int| 0 <= k < i && 0 <= j < size ==> #[trigger] data@[k]@[j] == zero,
            decreases size - i,
        {
            data.push(filled_row(size, zero));
            i = i + 1;
        }
        Matrix { data, size }
    }

    /// The identity matrix of the given size: `one` on the diagonal, `zero`
    /// elsewhere.
    pub fn identity(size: usize, zero: T, one: T) -> (r: Self)
        ensures
            r.wf(),
            r.size == size,
            forall|i: int, j: int|
                0 <= i < size && 0 <= j < size ==> r.entry(i, j) == (if i == j { one } else { zero }),
    {
        let mut data: Vec<Vec<T>> = Vec::with_capacity(size);
        let mut i: usize = 0;
        while i < size
            invariant
                i <= size,
                data@.len() == i,
                forall|k: int| 0 <= k < i ==> (#[trigger] data@[k])@.len() == size,
                forall|k: int, j: int|
                    0 <= k < i && 0 <= j < size ==> #[trigger] data@[k]@[j] == (if k == j { one } else { zero }),
            decreases size - i,
        {
            let mut row: Vec<T> = Vec::with_capacity(size);
            let mut j: usize = 0;
            while j < size
                invariant
                    j <= size,
                    i < size,
                    row@.len() == j,
                    forall|k: int| 0 <= k < j ==> row@[k] == (if i == k { one } else { zero }),
                decreases size - j,
            {
                if i == j {
                    row.push(one);
                } else {
                    row.push(zero);
                }
                j = j + 1;
            }
            data.push(row);
            i = i + 1;
        }
        Matrix { data, size }
    }

    /// The transpose of the leading `size`-by-`size` block.
    pub fn transpose(&self) -> (r: Self)
        requires
            self.covers(),
        ensures
            r.wf(),
            r.size == self.size,
            forall|i: int, j: int| 0 <= i < self.size && 0 <= j < self.size ==> r.entry(i, j) == self.entry(j, i),
    {
        let n = self.size;
        let mut data: Vec<Vec<T>> = Vec::with_capacity(n);
        let mut i: usize = 0;
        while i < n
            invariant
                i <= n,
                n == self.size,
                self.covers(),
                data@.len() == i,
                forall|k: int| 0 <= k < i ==> (#[trigger] data@[k])@.len() == n,
                forall|k: int, j: int| 0 <= k < i && 0 <= j < n ==> #[trigger] data@[k]@[j] == self.entry(j, k),
            decreases n - i,
        {
            let mut row: Vec<T> = Vec::with_capacity(n);
            let mut j: usize = 0;
            while j < n
                invariant
                    j <= n,
                    i < n,
                    n == self.size,
                    self.covers(),
                    row@.len() == j,
                    forall|k: int| 0 <= k < j ==> row@[k] == self.entry(k, i as int),
                decreases n - j,
            {
                assert(self.data@[j as int]@.len() >= n);
                row.push(self.data[j][i]);
                j = j + 1;
            }
            data.push(row);
            i = i + 1;
        }
        Matrix { data, size: n }
    }
}

/// The dependency matrix of a task graph: entry `(i, j)` is the weight of task
/// `j` when task `i` depends on it, and `zero` otherwise. Dependencies on
/// indices outside the task list are ignored.
pub open spec fn dependency_entry<T>(deps: Seq<Seq<usize>>, weights: Seq<T>, zero: T, i: int, j: int) -> T {
    if deps[i].contains(j as usize) {
        weights[j]
    } else {
        zero
    }
}

/// Every listed dependency counts, wherever it stands in the list: when task
/// `i` lists task `j` at any position, entry `(i, j)` is the weight of `j`; when
/// it lists `j` nowhere, the entry is `zero`.
pub proof fn lemma_dependency_entries<T>(deps: Seq<Seq<usize>>, weights: Seq<T>, zero: T, i: int, j: int)
    requires
        0 <= i < deps.len(),
        0 <= j < deps.len(),
    ensures
        forall|p: int|
            0 <= p < deps[i].len() && #[trigger] deps[i][p] == j as usize ==> dependency_entry(deps, weights, zero, i, j)
                == weights[j],
        (forall|p: int| 0 <= p < deps[i].len() ==> #[trigger] deps[i][p] != j as usize) ==> dependency_entry(
            deps,
            weights,
            zero,
            i,
            j,
        ) == zero,
{
    assert forall|p: int|
        0 <= p < deps[i].len() && #[trigger] deps[i][p] == j as usize implies dependency_entry(deps, weights, zero, i, j)
            == weights[j] by {
        assert(deps[i].contains(j as usize));
    }
}

/// Build the dependency matrix of `deps.len()` tasks, where `deps[i]` lists the
/// indices of the tasks that task `i` depends on and `weights[j]` is the weight
/// of task `j`.
pub fn dependency_matrix<T: Copy>(deps: &Vec<Vec<usize>>, weights: &Vec<T>, zero: T) -> (r: Matrix<T>)
    requires
        weights@.len() == deps@.len(),
    ensures
        r.wf(),
        r.size == deps@.len(),
        forall|i: int, j: int|
            0 <= i < r.size && 0 <= j < r.size ==> r.entry(i, j) == dependency_entry(
                deps@.map_values(|d: Vec<usize>| d@),
                weights@,
                zero,
                i,
                j,
            ),
{
    let n = deps.len();
    let ghost ds = deps@.map_values(|d: Vec<usize>| d@);
    let mut data: Vec<Vec<T>> = Vec::with_capacity(n);
    let mut i: usize = 0;
    while i < n
        invariant
            i <= n,
            n == deps@.len(),
            weights@.len() == n,
            ds == deps@.map_values(|d: Vec<usize>| d@),
            data@.len() == i,
            forall|k: int| 0 <= k < i ==> (#[trigger] data@[k])@.len() == n,
            forall|k: int, j: int|
                0 <= k < i && 0 <= j < n ==> #[trigger] data@[k]@[j] == dependency_entry(ds, weights@, zero, k, j),
        decreases n - i,
    {
        let row_deps = &deps[i];
        assert(row_deps@ == ds[i as int]);
        let mut row: Vec<T> = filled_row(n, zero);
        let m = row_deps.len();
        let mut d: usize = 0;
        while d < m
            invariant
                d <= m,
                m == row_deps@.len(),
                i < n,
                n == deps@.len(),
                weights@.len() == n,
                row_deps@ == ds[i as int],
                row@.len() == n,
                forall|j: int|
                    0 <= j < n ==> row@[j] == (if row_deps@.take(d as int).contains(j as usize) {
                        weights@[j]
                    } else {
                        zero
                    }),
            decreases m - d,
        {
            let dep_idx = row_deps[d];
            let ghost t0 = row_deps@.take(d as int);
            let ghost t1 = row_deps@.take(d + 1);
            assert(t1 =~= t0.push(dep_idx));
            let ghost r0 = row@;
            if dep_idx < n {
                row.set(dep_idx, weights[dep_idx]);
            }
            assert forall|j: int| 0 <= j < n implies row@[j] == (if t1.contains(j as usize) {
                weights@[j]
            } else {
                zero
            }) by {
                if t0.contains(j as usize) {
                    let k = choose|k: int| 0 <= k < t0.len() && t0[k] == j as usize;
                    assert(t1[k] == t0[k]);
                }
                if dep_idx == j as usize {
                    assert(t1[d as int] == dep_idx);
                }
                if t1.contains(j as usize) && dep_idx != j as usize {
                    let k = choose|k: int| 0 <= k < t1.len() && t1[k] == j as usize;
                    assert(k < d);
                    assert(t0[k] == t1[k]);
                }
            }
            d = d + 1;
        }
        assert(row_deps@.take(m as int) =~= row_deps@);
        data.push(row);
        i = i + 1;
    }
    Matrix { data, size: n }
}

} // verus!
