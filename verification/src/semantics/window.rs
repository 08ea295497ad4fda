//! Sliding-window minimum and maximum over a monotonic deque.
//!
//! Samples are ordered by integer times and carry integer values. For each
//! sample `i` the window is `[times[i] + a, times[i] + b]`, either side of
//! which may be open. The sweep keeps, for the samples seen so far, only those
//! that no later sample matches or beats; the front of that deque is the
//! window's extremum. Over time-sorted samples the result is exactly the
//! naive scan of every sample against every window.
use std::collections::VecDeque;
use vstd::prelude::*;

verus! {

broadcast use vstd::std_specs::vecdeque::group_vec_dequeue_axioms;

/// Which extreme a window reduces to.
#[derive(Debug, Clone, Copy, PartialEq, Eq, Structural)]
pub enum Extremum {
    /// The least value in the window.
    Min,
    /// The greatest value in the window.
    Max,
}

/// Whether `x` is strictly better than `y` for the extremum.
pub open spec fn beats(e: Extremum, x: int, y: int) -> bool {
    match e {
        Extremum::Min => x < y,
        Extremum::Max => x > y,
    }
}

/// Whether time `t` lies in `[c + a, c + b]`; a missing offset leaves that
/// side of the window open.
pub open spec fn in_window(t: int, c: int, a: Option<i64>, b: Option<i64>) -> bool {
    &&& (a matches Some(lo) ==> c + lo <= t)
    &&& (b matches Some(hi) ==> t <= c + hi)
}

/// Whether time `t` is before the window's left edge `c + a`.
pub open spec fn before_window(t: int, c: int, a: Option<i64>) -> bool {
    a matches Some(lo) && t < c + lo
}

/// Whether time `t` is not past the window's right edge `c + b`.
pub open spec fn not_after_window(t: int, c: int, b: Option<i64>) -> bool {
    b matches Some(hi) ==> t <= c + hi
}

/// The naive scan: the extremum of `values[j]` over the samples `j < n` whose
/// time lies in the window centred on `c`, or `None` for an empty window.
pub open spec fn naive_extremum(
    e: Extremum,
    times: Seq<i64>,
    values: Seq<i64>,
    c: int,
    a: Option<i64>,
    b: Option<i64>,
    n: int,
) -> Option<i64>
    decreases n,
{
    if n <= 0 {
        None
    } else {
        let rest = naive_extremum(e, times, values, c, a, b, n - 1);
        if in_window(times[n - 1] as int, c, a, b) {
            match rest {
                None => Some(values[n - 1]),
                Some(m) => if beats(e, values[n - 1] as int, m as int) {
                    Some(values[n - 1])
                } else {
                    Some(m)
                },
            }
        } else {
            rest
        }
    }
}

/// Times in non-decreasing order.
pub open spec fn sorted(times: Seq<i64>) -> bool {
    forall|i: int, j: int| 0 <= i <= j < times.len() ==> times[i] <= times[j]
}

/// The window extremum at every sample, by the naive scan.
pub open spec fn naive_sweep(
    e: Extremum,
    times: Seq<i64>,
    values: Seq<i64>,
    a: Option<i64>,
    b: Option<i64>,
) -> Seq<Option<i64>> {
    Seq::new(
        times.len(),
        |i: int| naive_extremum(e, times, values, times[i] as int, a, b, times.len() as int),
    )
}

/// Whether sample `j` beats every later sample before `r`.
pub open spec fn keeps(e: Extremum, values: Seq<i64>, j: int, r: int) -> bool {
    forall|k: int| j < k < r ==> #[trigger] beats(e, values[j] as int, values[k] as int)
}

/// The deque of candidates after reading the samples before `r`, with every
/// sample before `low` dropped: increasing indices in `[low, r)`, each beating
/// all later samples, and every such sample from `low` on among them.
pub open spec fn deque_ok(e: Extremum, values: Seq<i64>, c: Seq<usize>, low: int, r: int) -> bool {
    &&& forall|k: int| 0 <= k < c.len() ==> low <= #[trigger] c[k] < r
    &&& forall|k1: int, k2: int| 0 <= k1 < k2 < c.len() ==> #[trigger] c[k1] < #[trigger] c[k2]
    &&& forall|k: int| 0 <= k < c.len() ==> keeps(e, values, #[trigger] c[k] as int, r)
    &&& forall|j: int| low <= j < r && #[trigger] keeps(e, values, j, r) ==> c.contains(j as usize)
}

/// What the naive scan gives: a value of a sample in the window that no sample
/// in the window beats, or `None` when no sample lies in it.
pub proof fn lemma_naive_extremum(
    e: Extremum,
    times: Seq<i64>,
    values: Seq<i64>,
    c: int,
    a: Option<i64>,
    b: Option<i64>,
    n: int,
)
    requires
        0 <= n <= times.len(),
        n <= values.len(),
    ensures
        match naive_extremum(e, times, values, c, a, b, n) {
            None => forall|j: int| 0 <= j < n ==> !in_window(#[trigger] times[j] as int, c, a, b),
            Some(v) => {
                &&& exists|j: int|
                    0 <= j < n && in_window(#[trigger] times[j] as int, c, a, b) && values[j] == v
                &&& forall|k: int|
                    0 <= k < n && in_window(#[trigger] times[k] as int, c, a, b) ==> !beats(
                        e,
                        values[k] as int,
                        v as int,
                    )
            },
        },
    decreases n,
{
    if n > 0 {
        lemma_naive_extremum(e, times, values, c, a, b, n - 1);
        let rest = naive_extremum(e, times, values, c, a, b, n - 1);
        if in_window(times[n - 1] as int, c, a, b) {
            if let Some(m) = rest {
                let j = choose|j: int|
                    0 <= j < n - 1 && in_window(#[trigger] times[j] as int, c, a, b) && values[j]
                        == m;
                assert(in_window(times[j] as int, c, a, b));
            }
        }
    }
}

/// Following samples that match or beat one another from `k` on reaches a
/// sample that beats every later one before `r` and is at least as good as
/// sample `k`.
proof fn lemma_dominated_by_kept(e: Extremum, values: Seq<i64>, k: int, r: int) -> (j: int)
    requires
        0 <= k < r <= values.len(),
    ensures
        k <= j < r,
        keeps(e, values, j, r),
        !beats(e, values[k] as int, values[j] as int),
    decreases r - k,
{
    if keeps(e, values, k, r) {
        k
    } else {
        let m = choose|m: int| k < m < r && !#[trigger] beats(e, values[k] as int, values[m] as int);
        lemma_dominated_by_kept(e, values, m, r)
    }
}

/// Whether `back` can be dropped for `incoming`: it does not beat it.
fn dominated(e: Extremum, back: i64, incoming: i64) -> (r: bool)
    ensures
        r == !beats(e, back as int, incoming as int),
{
    match e {
        Extremum::Min => back >= incoming,
        Extremum::Max => back <= incoming,
    }
}

/// Whether time `t` is at most `center + b` (always, for an open side).
fn within_right(t: i64, center: i64, b: Option<i64>) -> (r: bool)
    ensures
        r == not_after_window(t as int, center as int, b),
{
    match b {
        Some(hi) => (t as i128) <= (center as i128) + (hi as i128),
        None => true,
    }
}

/// Whether time `t` is below `center + a` (never, for an open side).
fn before_left(t: i64, center: i64, a: Option<i64>) -> (r: bool)
    ensures
        r == before_window(t as int, center as int, a),
{
    match a {
        Some(lo) => (t as i128) < (center as i128) + (lo as i128),
        None => false,
    }
}

/// For each sample, the extremum of `values` over the samples whose time lies
/// in `[times[i] + a, times[i] + b]`, or `None` for an empty window.
pub fn sweep(
    values: &[i64],
    times: &[i64],
    a: Option<i64>,
    b: Option<i64>,
    e: Extremum,
) -> (r: Vec<Option<i64>>)
    requires
        values@.len() == times@.len(),
    ensures
        r@.len() == times@.len(),
        sorted(times@) ==> r@ == naive_sweep(e, times@, values@, a, b),
{
    let n = values.len();
    let ghost ts = times@;
    let ghost vs = values@;
    let mut result: Vec<Option<i64>> = Vec::new();
    let mut candidates: VecDeque<usize> = VecDeque::new();
    let mut right: usize = 0;
    let ghost mut low: int = 0;
    let mut i: usize = 0;
    while i < n
        invariant
            n == vs.len() == ts.len(),
            ts == times@,
            vs == values@,
            i <= n,
            right <= n,
            0 <= low <= right,
            result@.len() == i,
            deque_ok(e, vs, candidates@, low, right as int),
            sorted(ts) ==> forall|k: int|
                0 <= k < i ==> result@[k] == naive_extremum(
                    e,
                    ts,
                    vs,
                    ts[k] as int,
                    a,
                    b,
                    n as int,
                ),
            sorted(ts) && i < n ==> forall|j: int|
                0 <= j < right ==> not_after_window(#[trigger] ts[j] as int, ts[i as int] as int, b),
            sorted(ts) && i < n ==> forall|j: int|
                0 <= j < low ==> before_window(#[trigger] ts[j] as int, ts[i as int] as int, a),
        decreases n - i,
    {
        let center = times[i];
        while right < n && within_right(times[right], center, b)
            invariant
                n == vs.len() == ts.len(),
                ts == times@,
                vs == values@,
                i < n,
                center == ts[i as int],
                right <= n,
                0 <= low <= right,
                deque_ok(e, vs, candidates@, low, right as int),
                sorted(ts) ==> forall|j: int|
                    0 <= j < right ==> not_after_window(#[trigger] ts[j] as int, ts[i as int] as int, b),
                sorted(ts) ==> forall|j: int|
                    0 <= j < low ==> before_window(#[trigger] ts[j] as int, ts[i as int] as int, a),
            decreases n - right,
        {
            let v = values[right];
            let ghost before = candidates@;
            while candidates.len() > 0 && dominated(
                e,
                values[candidates[candidates.len() - 1]],
                v,
            )
                invariant
                    n == vs.len(),
                    vs == values@,
                    right < n,
                    v == vs[right as int],
                    0 <= low <= right,
                    deque_ok(e, vs, before, low, right as int),
                    candidates@.len() <= before.len(),
                    candidates@ == before.subrange(0, candidates@.len() as int),
                    forall|k: int|
                        candidates@.len() <= k < before.len() ==> !beats(
                            e,
                            vs[#[trigger] before[k] as int] as int,
                            v as int,
                        ),
                decreases candidates@.len(),
            {
                candidates.pop_back();
            }
            proof {
                let c = candidates@;
                let r = right as int;
                if c.len() > 0 {
                    assert(beats(e, vs[c[c.len() - 1] as int] as int, v as int));
                }
                assert forall|k: int| 0 <= k < c.len() implies beats(
                    e,
                    vs[#[trigger] c[k] as int] as int,
                    v as int,
                ) by {
                    let last = c.len() - 1;
                    if k < last {
                        assert(c[k] < c[last]);
                        assert(keeps(e, vs, c[k] as int, r));
                        assert(beats(e, vs[c[k] as int] as int, vs[c[last] as int] as int));
                    }
                }
                let c2 = c.push(right);
                assert forall|k: int| 0 <= k < c2.len() implies keeps(
                    e,
                    vs,
                    #[trigger] c2[k] as int,
                    r + 1,
                ) by {
                    if k < c.len() {
                        assert(keeps(e, vs, c[k] as int, r));
                        assert(beats(e, vs[c[k] as int] as int, v as int));
                    }
                }
                assert forall|j: int| low <= j < r + 1 && #[trigger] keeps(e, vs, j, r + 1) implies c2.contains(
                    j as usize,
                ) by {
                    if j == r {
                        assert(c2[c.len() as int] == j);
                    } else {
                        assert(keeps(e, vs, j, r));
                        assert(before.contains(j as usize));
                        let k = choose|k: int| 0 <= k < before.len() && before[k] == j as usize;
                        assert(beats(e, vs[j] as int, vs[r] as int));
                        if k >= c.len() {
                            assert(!beats(e, vs[before[k] as int] as int, v as int));
                        }
                        assert(c2[k] == j as usize);
                    }
                }
            }
            candidates.push_back(right);
            right = right + 1;
        }
        while candidates.len() > 0 && before_left(times[candidates[0]], center, a)
            invariant
                n == vs.len() == ts.len(),
                ts == times@,
                vs == values@,
                i < n,
                center == ts[i as int],
                right <= n,
                0 <= low <= right,
                deque_ok(e, vs, candidates@, low, right as int),
                sorted(ts) ==> forall|j: int|
                    0 <= j < low ==> before_window(#[trigger] ts[j] as int, ts[i as int] as int, a),
            decreases candidates@.len(),
        {
            let ghost c = candidates@;
            let ghost f = c[0] as int;
            candidates.pop_front();
            proof {
                assert forall|k: int| 0 <= k < c.len() - 1 implies #[trigger] candidates@[k] == c[k
                    + 1] && f < candidates@[k] by {
                    assert(c[0] < c[k + 1]);
                }
                assert forall|j: int| f + 1 <= j < right && #[trigger] keeps(e, vs, j, right as int) implies candidates@.contains(
                    j as usize,
                ) by {
                    assert(c.contains(j as usize));
                    let k = choose|k: int| 0 <= k < c.len() && c[k] == j as usize;
                    assert(k != 0);
                    assert(candidates@[k - 1] == j as usize);
                }
                if sorted(ts) {
                    assert forall|j: int| 0 <= j < f + 1 implies before_window(
                        #[trigger] ts[j] as int,
                        ts[i as int] as int,
                        a,
                    ) by {
                        if j >= low {
                            assert(ts[j] <= ts[f]);
                        }
                    }
                }
                low = f + 1;
            }
        }
        let out = if candidates.len() > 0 {
            Some(values[candidates[0]])
        } else {
            None
        };
        proof {
            let c = candidates@;
            let r = right as int;
            let ci = ts[i as int] as int;
            lemma_naive_extremum(e, ts, vs, ci, a, b, n as int);
            if sorted(ts) {
                // No sample from `right` on, and none before `low`, is in the window.
                assert forall|k: int| 0 <= k < n && in_window(#[trigger] ts[k] as int, ci, a, b) implies low
                    <= k < r by {
                    if k >= r {
                        assert(ts[r] <= ts[k]);
                    }
                }
                assert forall|k: int| 0 <= k < n && in_window(#[trigger] ts[k] as int, ci, a, b) implies (c.len()
                    > 0 && !beats(e, vs[k] as int, vs[c[0] as int] as int)) by {
                    let j = lemma_dominated_by_kept(e, vs, k, r);
                    assert(c.contains(j as usize));
                    let m = choose|m: int| 0 <= m < c.len() && c[m] == j as usize;
                    if m > 0 {
                        assert(c[0] < c[m]);
                        assert(keeps(e, vs, c[0] as int, r));
                        assert(beats(e, vs[c[0] as int] as int, vs[j] as int));
                    }
                }
                if c.len() > 0 {
                    let f = c[0] as int;
                    assert(in_window(ts[f] as int, ci, a, b));
                }
            }
        }
        result.push(out);
        i = i + 1;
    }
    proof {
        if sorted(ts) {
            assert(result@ =~= naive_sweep(e, ts, vs, a, b));
        }
    }
    result
}

/// For each sample, the least value over the samples whose time lies in
/// `[times[i] + a, times[i] + b]`, or `None` for an empty window.
pub fn sliding_window_min(values: &[i64], times: &[i64], a: Option<i64>, b: Option<i64>) -> (r: Vec<
    Option<i64>,
>)
    requires
        values@.len() == times@.len(),
    ensures
        r@.len() == times@.len(),
        sorted(times@) ==> r@ == naive_sweep(Extremum::Min, times@, values@, a, b),
{
    sweep(values, times, a, b, Extremum::Min)
}

/// The dual of [`sliding_window_min`]: the greatest value in each window.
pub fn sliding_window_max(values: &[i64], times: &[i64], a: Option<i64>, b: Option<i64>) -> (r: Vec<
    Option<i64>,
>)
    requires
        values@.len() == times@.len(),
    ensures
        r@.len() == times@.len(),
        sorted(times@) ==> r@ == naive_sweep(Extremum::Max, times@, values@, a, b),
{
    sweep(values, times, a, b, Extremum::Max)
}

// ---------------------------------------------------------------------------
// The online deque.

/// The times of a list of `(time, value)` samples.
pub open spec fn times_of(h: Seq<(i64, i64)>) -> Seq<i64> {
    h.map_values(|s: (i64, i64)| s.0)
}

/// The values of a list of `(time, value)` samples.
pub open spec fn values_of(h: Seq<(i64, i64)>) -> Seq<i64> {
    h.map_values(|s: (i64, i64)| s.1)
}

/// The extremum of the values of a list of samples, or `None` for no sample.
pub open spec fn extremum_of(e: Extremum, h: Seq<(i64, i64)>) -> Option<i64> {
    naive_extremum(e, times_of(h), values_of(h), 0, None, None, h.len() as int)
}

/// The first position from `j` on whose time reaches `limit`.
pub open spec fn first_reaching(h: Seq<(i64, i64)>, limit: int, j: int) -> int
    decreases h.len() - j,
{
    if j < 0 || j >= h.len() || h[j].0 >= limit {
        j
    } else {
        first_reaching(h, limit, j + 1)
    }
}

/// Samples in non-decreasing time order.
pub open spec fn time_ordered(h: Seq<(i64, i64)>) -> bool {
    sorted(times_of(h))
}

/// The running extremum of a stream: samples are pushed in time order and
/// the oldest are evicted by time, while the front holds the extremum of the
/// samples still in the window.
pub struct MonotonicDeque {
    window: VecDeque<(i64, i64)>,
    history: Ghost<Seq<(i64, i64)>>,
    start: Ghost<int>,
    slots: Ghost<Seq<int>>,
    mode: Ghost<Option<Extremum>>,
}

proof fn lemma_first_reaching(h: Seq<(i64, i64)>, limit: int, j: int)
    requires
        0 <= j <= h.len(),
    ensures
        j <= first_reaching(h, limit, j) <= h.len(),
        forall|k: int| j <= k < first_reaching(h, limit, j) ==> h[k].0 < limit,
        first_reaching(h, limit, j) < h.len() ==> h[first_reaching(h, limit, j)].0 >= limit,
    decreases h.len() - j,
{
    if j < h.len() && h[j].0 < limit {
        lemma_first_reaching(h, limit, j + 1);
    }
}

impl MonotonicDeque {
    /// Every sample pushed since the deque was made or cleared, in order.
    pub closed spec fn samples(&self) -> Seq<(i64, i64)> {
        self.history@
    }

    /// How many of those samples eviction has dropped.
    pub closed spec fn dropped(&self) -> int {
        self.start@
    }

    /// The samples still in the window.
    pub open spec fn live(&self) -> Seq<(i64, i64)> {
        self.samples().subrange(self.dropped(), self.samples().len() as int)
    }

    /// Which extremum the pushes since the last clear track.
    pub closed spec fn mode(&self) -> Option<Extremum> {
        self.mode@
    }

    /// The deque's invariant: it holds, in order, exactly the live samples
    /// that beat every later sample.
    pub closed spec fn wf(&self) -> bool {
        let h = self.history@;
        let c = self.slots@;
        let low = self.start@;
        &&& 0 <= low <= h.len()
        &&& time_ordered(h)
        &&& c.len() == self.window@.len()
        &&& forall|k: int| 0 <= k < c.len() ==> low <= #[trigger] c[k] < h.len()
        &&& forall|k: int| 0 <= k < c.len() ==> self.window@[k] == h[#[trigger] c[k]]
        &&& forall|k1: int, k2: int| 0 <= k1 < k2 < c.len() ==> #[trigger] c[k1] < #[trigger] c[k2]
        &&& match self.mode@ {
            None => h.len() == 0,
            Some(e) => {
                &&& forall|k: int|
                    0 <= k < c.len() ==> keeps(e, values_of(h), #[trigger] c[k], h.len() as int)
                &&& forall|j: int|
                    low <= j < h.len() && #[trigger] keeps(e, values_of(h), j, h.len() as int)
                        ==> c.contains(j)
            },
        }
    }

    /// An empty deque with room for `capacity` samples.
    pub fn with_capacity(capacity: usize) -> (r: MonotonicDeque)
        ensures
            r.wf(),
            r.samples() == Seq::<(i64, i64)>::empty(),
            r.dropped() == 0,
            r.mode() is None,
    {
        MonotonicDeque {
            window: VecDeque::with_capacity(capacity),
            history: Ghost(Seq::empty()),
            start: Ghost(0),
            slots: Ghost(Seq::empty()),
            mode: Ghost(None),
        }
    }

    fn push(&mut self, time: i64, value: i64, e: Extremum)
        requires
            old(self).wf(),
            old(self).mode() is None || old(self).mode() == Some(e),
            old(self).samples().len() > 0 ==> old(self).samples().last().0 <= time,
        ensures
            final(self).wf(),
            final(self).samples() == old(self).samples().push((time, value)),
            final(self).dropped() == old(self).dropped(),
            final(self).mode() == Some(e),
    {
        let ghost h = self.history@;
        let ghost before = self.window@;
        let ghost slots = self.slots@;
        let ghost low = self.start@;
        let ghost vs = values_of(h);
        proof {
            if self.mode@ is None {
                assert(self.window@.len() == 0) by {
                    if self.window@.len() > 0 {
                        assert(low <= slots[0] < h.len());
                    }
                }
            }
        }
        while self.window.len() > 0 && dominated(e, self.window[self.window.len() - 1].1, value)
            invariant
                self.history@ == h,
                self.start@ == low,
                self.slots@ == slots,
                self.mode@ == old(self).mode@,
                self.window@.len() <= before.len(),
                self.window@ == before.subrange(0, self.window@.len() as int),
                forall|k: int|
                    self.window@.len() <= k < before.len() ==> !beats(
                        e,
                        #[trigger] before[k].1 as int,
                        value as int,
                    ),
            decreases self.window@.len(),
        {
            self.window.pop_back();
        }
        let ghost kept = self.window@.len() as int;
        self.window.push_back((time, value));
        let ghost h2 = h.push((time, value));
        let ghost c2 = slots.subrange(0, kept).push(h.len() as int);
        proof {
            let n = h.len() as int;
            let vs2 = values_of(h2);
            assert(vs2 =~= vs.push(value));
            assert(times_of(h2) =~= times_of(h).push(time));
            assert forall|i: int, j: int| 0 <= i <= j < times_of(h2).len() implies times_of(h2)[i]
                <= times_of(h2)[j] by {
                if j == n && i < n {
                    assert(times_of(h)[i] <= times_of(h)[n - 1]);
                }
            }
            if kept > 0 {
                assert(beats(e, before[kept - 1].1 as int, value as int));
            }
            assert forall|k: int| 0 <= k < kept implies beats(
                e,
                vs[#[trigger] slots[k]] as int,
                value as int,
            ) by {
                assert(before[k] == h[slots[k]]);
                if k < kept - 1 {
                    assert(slots[k] < slots[kept - 1]);
                    assert(keeps(e, vs, slots[k], n));
                    assert(beats(e, vs[slots[k]] as int, vs[slots[kept - 1]] as int));
                    assert(before[kept - 1] == h[slots[kept - 1]]);
                }
            }
            assert forall|k: int| 0 <= k < c2.len() implies keeps(
                e,
                vs2,
                #[trigger] c2[k],
                n + 1,
            ) by {
                if k < kept {
                    assert(keeps(e, vs, slots[k], n));
                    assert(beats(e, vs[slots[k]] as int, value as int));
                    assert forall|m: int| slots[k] < m < n + 1 implies #[trigger] beats(
                        e,
                        vs2[slots[k]] as int,
                        vs2[m] as int,
                    ) by {
                        if m < n {
                            assert(beats(e, vs[slots[k]] as int, vs[m] as int));
                        }
                    }
                }
            }
            assert forall|j: int| low <= j < n + 1 && #[trigger] keeps(e, vs2, j, n + 1) implies c2.contains(
                j,
            ) by {
                if j == n {
                    assert(c2[kept] == j);
                } else {
                    assert(keeps(e, vs, j, n)) by {
                        assert forall|m: int| j < m < n implies #[trigger] beats(
                            e,
                            vs[j] as int,
                            vs[m] as int,
                        ) by {
                            assert(beats(e, vs2[j] as int, vs2[m] as int));
                        }
                    }
                    assert(beats(e, vs2[j] as int, vs2[n] as int));
                    assert(slots.contains(j));
                    let k = choose|k: int| 0 <= k < slots.len() && slots[k] == j;
                    assert(before[k] == h[j]);
                    if k >= kept {
                        assert(!beats(e, before[k].1 as int, value as int));
                    }
                    assert(c2[k] == j);
                }
            }
            assert forall|k: int| 0 <= k < c2.len() implies self.window@[k] == h2[#[trigger] c2[k]] by {
                if k < kept {
                    assert(self.window@[k] == before[k]);
                }
            }
        }
        self.history = Ghost(h2);
        self.slots = Ghost(c2);
        self.mode = Ghost(Some(e));
    }

    /// Pushes a sample into a minimum deque, first dropping the samples at the
    /// back that it matches or beats.
    pub fn push_min(&mut self, time: i64, value: i64)
        requires
            old(self).wf(),
            old(self).mode() is None || old(self).mode() == Some(Extremum::Min),
            old(self).samples().len() > 0 ==> old(self).samples().last().0 <= time,
        ensures
            final(self).wf(),
            final(self).samples() == old(self).samples().push((time, value)),
            final(self).dropped() == old(self).dropped(),
            final(self).mode() == Some(Extremum::Min),
    {
        self.push(time, value, Extremum::Min)
    }

    /// Pushes a sample into a maximum deque, first dropping the samples at the
    /// back that it matches or beats.
    pub fn push_max(&mut self, time: i64, value: i64)
        requires
            old(self).wf(),
            old(self).mode() is None || old(self).mode() == Some(Extremum::Max),
            old(self).samples().len() > 0 ==> old(self).samples().last().0 <= time,
        ensures
            final(self).wf(),
            final(self).samples() == old(self).samples().push((time, value)),
            final(self).dropped() == old(self).dropped(),
            final(self).mode() == Some(Extremum::Max),
    {
        self.push(time, value, Extremum::Max)
    }

    /// Drops the samples before `time_limit`: the window then starts at the
    /// first live sample whose time reaches the limit.
    pub fn evict_before(&mut self, time_limit: i64)
        requires
            old(self).wf(),
        ensures
            final(self).wf(),
            final(self).samples() == old(self).samples(),
            final(self).mode() == old(self).mode(),
            final(self).dropped() == first_reaching(
                old(self).samples(),
                time_limit as int,
                old(self).dropped(),
            ),
    {
        let ghost h = self.history@;
        let ghost low = self.start@;
        let ghost cut = first_reaching(h, time_limit as int, low);
        proof {
            lemma_first_reaching(h, time_limit as int, low);
        }
        while self.window.len() > 0 && self.window[0].0 < time_limit
            invariant
                self.history@ == h,
                self.start@ == low,
                self.mode@ == old(self).mode@,
                0 <= low <= cut <= h.len(),
                time_ordered(h),
                forall|k: int| low <= k < cut ==> h[k].0 < time_limit,
                cut < h.len() ==> h[cut].0 >= time_limit,
                self.slots@.len() == self.window@.len(),
                forall|k: int| 0 <= k < self.slots@.len() ==> low <= #[trigger] self.slots@[k] < h.len(),
                forall|k: int|
                    0 <= k < self.slots@.len() ==> self.window@[k] == h[#[trigger] self.slots@[k]],
                forall|k1: int, k2: int|
                    0 <= k1 < k2 < self.slots@.len() ==> #[trigger] self.slots@[k1]
                        < #[trigger] self.slots@[k2],
                match self.mode@ {
                    None => h.len() == 0,
                    Some(e) => {
                        &&& forall|k: int|
                            0 <= k < self.slots@.len() ==> keeps(
                                e,
                                values_of(h),
                                #[trigger] self.slots@[k],
                                h.len() as int,
                            )
                        &&& forall|j: int|
                            cut <= j < h.len() && #[trigger] keeps(
                                e,
                                values_of(h),
                                j,
                                h.len() as int,
                            ) ==> self.slots@.contains(j)
                    },
                },
            decreases self.window@.len(),
        {
            let ghost c = self.slots@;
            proof {
                if c[0] >= cut {
                    assert(times_of(h)[cut] <= times_of(h)[c[0]]);
                    assert(self.window@[0] == h[c[0]]);
                }
            }
            self.window.pop_front();
            self.slots = Ghost(c.subrange(1, c.len() as int));
            proof {
                let c1 = self.slots@;
                assert forall|j: int| cut <= j < h.len() && #[trigger] keeps(
                    e_of(self.mode@),
                    values_of(h),
                    j,
                    h.len() as int,
                ) && self.mode@ is Some implies c1.contains(j) by {
                    assert(c.contains(j));
                    let k = choose|k: int| 0 <= k < c.len() && c[k] == j;
                    assert(k != 0);
                    assert(c1[k - 1] == j);
                }
            }
        }
        proof {
            let c = self.slots@;
            if c.len() > 0 && c[0] < cut {
                assert(self.window@[0] == h[c[0]]);
            }
            assert forall|k: int| 0 <= k < c.len() implies cut <= #[trigger] c[k] by {
                if k > 0 {
                    assert(c[0] < c[k]);
                }
            }
        }
        self.start = Ghost(cut);
    }

    /// The extremum of the live samples, or `None` when none is live.
    pub fn front_value(&self) -> (r: Option<i64>)
        requires
            self.wf(),
        ensures
            match self.mode() {
                Some(e) => r == extremum_of(e, self.live()),
                None => r is None && self.live().len() == 0,
            },
    {
        if self.window.len() > 0 {
            let v = self.window[0].1;
            proof {
                self.lemma_front_is_extremum();
            }
            Some(v)
        } else {
            proof {
                self.lemma_front_is_extremum();
            }
            None
        }
    }

    proof fn lemma_front_is_extremum(&self)
        requires
            self.wf(),
        ensures
            match self.mode() {
                Some(e) => extremum_of(e, self.live()) == (if self.window@.len() > 0 {
                    Some(self.window@[0].1)
                } else {
                    None
                }),
                None => self.live().len() == 0 && self.window@.len() == 0,
            },
    {
        let h = self.history@;
        let low = self.start@;
        let c = self.slots@;
        let n = h.len() as int;
        let live = h.subrange(low, n);
        if let Some(e) = self.mode@ {
            let vs = values_of(h);
            let lt = times_of(live);
            let lv = values_of(live);
            lemma_naive_extremum(e, lt, lv, 0, None, None, live.len() as int);
            assert forall|k: int| 0 <= k < live.len() implies (c.len() > 0 && !beats(
                e,
                lv[k] as int,
                vs[c[0]] as int,
            )) by {
                let j = lemma_dominated_by_kept(e, vs, low + k, n);
                assert(c.contains(j));
                let m = choose|m: int| 0 <= m < c.len() && c[m] == j;
                if m > 0 {
                    assert(c[0] < c[m]);
                    assert(keeps(e, vs, c[0], n));
                    assert(beats(e, vs[c[0]] as int, vs[j] as int));
                }
                assert(lv[k] == vs[low + k]);
            }
            if c.len() > 0 {
                assert(self.window@[0] == h[c[0]]);
                let f = c[0] - low;
                assert(lv[f] == vs[c[0]]);
                assert(in_window(lt[f] as int, 0, None, None));
                match extremum_of(e, live) {
                    Some(v) => {
                        let j = choose|j: int|
                            0 <= j < live.len() && in_window(#[trigger] lt[j] as int, 0, None, None)
                                && lv[j] == v;
                        assert(!beats(e, lv[j] as int, vs[c[0]] as int));
                        assert(!beats(e, lv[f] as int, v as int));
                    },
                    None => {},
                }
            } else {
                if live.len() > 0 {
                    assert(in_window(lt[0] as int, 0, None, None));
                }
            }
        } else {
            assert(live.len() == 0);
            if c.len() > 0 {
                assert(low <= c[0] < h.len());
            }
        }
    }

    /// Forgets every sample.
    pub fn clear(&mut self)
        ensures
            final(self).wf(),
            final(self).samples() == Seq::<(i64, i64)>::empty(),
            final(self).dropped() == 0,
            final(self).mode() is None,
    {
        self.window.clear();
        self.history = Ghost(Seq::empty());
        self.start = Ghost(0);
        self.slots = Ghost(Seq::empty());
        self.mode = Ghost(None);
    }
}

/// The extremum a mode tracks, or an arbitrary one for no mode.
pub open spec fn e_of(m: Option<Extremum>) -> Extremum {
    match m {
        Some(e) => e,
        None => Extremum::Min,
    }
}

/// Times that strictly increase.
pub open spec fn strictly_increasing(h: Seq<(i64, i64)>) -> bool {
    forall|i: int, j: int| 0 <= i < j < h.len() ==> h[i].0 < h[j].0
}

/// The online deque agrees with the sweep over a past window: after the
/// samples up to `i` are pushed in time order and those before
/// `times[i] + lo` evicted, the live samples are exactly the window
/// `[times[i] + lo, times[i]]`, and their extremum is the sweep's at `i`.
pub proof fn lemma_online_matches_sweep(e: Extremum, h: Seq<(i64, i64)>, i: int, lo: i64)
    requires
        strictly_increasing(h),
        0 <= i < h.len(),
    ensures
        extremum_of(
            e,
            h.subrange(first_reaching(h.subrange(0, i + 1), h[i].0 + lo, 0), i + 1),
        ) == naive_extremum(e, times_of(h), values_of(h), h[i].0 as int, Some(lo), Some(0), h.len() as int),
{
    let p = h.subrange(0, i + 1);
    let c = h[i].0 as int;
    lemma_first_reaching(p, c + lo, 0);
    let f = first_reaching(p, c + lo, 0);
    let live = h.subrange(f, i + 1);
    let ts = times_of(h);
    let vs = values_of(h);
    let lt = times_of(live);
    let lv = values_of(live);
    let n = h.len() as int;
    // A sample is in the window exactly when it is live.
    assert forall|j: int| 0 <= j < n implies (in_window(#[trigger] ts[j] as int, c, Some(lo), Some(0))
        <==> f <= j <= i) by {
        if j > i {
            assert(h[i].0 < h[j].0);
        }
        if j < f {
            assert(p[j].0 < c + lo);
        }
        if f <= j <= i && f < p.len() {
            if j > f {
                assert(h[f].0 < h[j].0);
            }
            assert(p[f].0 >= c + lo);
        }
        if j < i {
            assert(h[j].0 < h[i].0);
        }
    }
    lemma_naive_extremum(e, lt, lv, 0, None, None, live.len() as int);
    lemma_naive_extremum(e, ts, vs, c, Some(lo), Some(0), n);
    let online = extremum_of(e, live);
    let offline = naive_extremum(e, ts, vs, c, Some(lo), Some(0), n);
    match (online, offline) {
        (Some(x), Some(y)) => {
            let k = choose|k: int|
                0 <= k < live.len() && in_window(#[trigger] lt[k] as int, 0, None, None) && lv[k]
                    == x;
            let j = choose|j: int|
                0 <= j < n && in_window(#[trigger] ts[j] as int, c, Some(lo), Some(0)) && vs[j] == y;
            assert(lv[k] == vs[f + k]);
            assert(in_window(ts[f + k] as int, c, Some(lo), Some(0)));
            assert(!beats(e, vs[f + k] as int, y as int));
            assert(lv[j - f] == vs[j]);
            assert(in_window(lt[j - f] as int, 0, None, None));
            assert(!beats(e, lv[j - f] as int, x as int));
        },
        (Some(x), None) => {
            let k = choose|k: int|
                0 <= k < live.len() && in_window(#[trigger] lt[k] as int, 0, None, None) && lv[k]
                    == x;
            assert(in_window(ts[f + k] as int, c, Some(lo), Some(0)));
        },
        (None, Some(y)) => {
            let j = choose|j: int|
                0 <= j < n && in_window(#[trigger] ts[j] as int, c, Some(lo), Some(0)) && vs[j] == y;
            assert(in_window(lt[j - f] as int, 0, None, None));
        },
        (None, None) => {},
    }
}

} // verus!
