//! The spans over which a robustness signal is negative.
use vstd::prelude::*;

verus! {

/// Whether `runs` lists, in order, exactly the maximal runs of `true` among
/// the first `n` flags, each as its first and last index.
pub open spec fn maximal_runs(neg: Seq<bool>, n: int, runs: Seq<(int, int)>) -> bool {
    &&& forall|k: int|
        0 <= k < runs.len() ==> {
            let (s, e) = #[trigger] runs[k];
            &&& 0 <= s <= e < n
            &&& forall|i: int| s <= i <= e ==> neg[i]
            &&& s == 0 || !neg[s - 1]
            &&& e == n - 1 || !neg[e + 1]
        }
    &&& forall|k1: int, k2: int|
        0 <= k1 < k2 < runs.len() ==> (#[trigger] runs[k1]).1 + 1 < (#[trigger] runs[k2]).0
    &&& forall|i: int|
        0 <= i < n && neg[i] ==> exists|k: int|
            0 <= k < runs.len() && (#[trigger] runs[k]).0 <= i <= runs[k].1
}

/// A run of one maximal listing is also a run of any other.
proof fn lemma_run_listed(neg: Seq<bool>, n: int, r1: Seq<(int, int)>, r2: Seq<(int, int)>, k: int) -> (j: int)
    requires
        maximal_runs(neg, n, r1),
        maximal_runs(neg, n, r2),
        0 <= k < r1.len(),
    ensures
        0 <= j < r2.len(),
        r2[j] == r1[k],
{
    let (s, e) = r1[k];
    assert(neg[s]);
    let j = choose|j: int| 0 <= j < r2.len() && (#[trigger] r2[j]).0 <= s <= r2[j].1;
    let (s2, e2) = r2[j];
    if s2 < s {
        assert(neg[s - 1]);
    }
    if e2 < e {
        assert(neg[e2 + 1]);
    }
    if e < e2 {
        assert(neg[e + 1]);
    }
    j
}

/// Two maximal listings agree on their first `k` runs.
proof fn lemma_runs_agree_below(
    neg: Seq<bool>,
    n: int,
    r1: Seq<(int, int)>,
    r2: Seq<(int, int)>,
    k: int,
)
    requires
        maximal_runs(neg, n, r1),
        maximal_runs(neg, n, r2),
        0 <= k <= r1.len(),
        k <= r2.len(),
    ensures
        forall|i: int| 0 <= i < k ==> r1[i] == r2[i],
    decreases k,
{
    if k > 0 {
        let m = k - 1;
        lemma_runs_agree_below(neg, n, r1, r2, m);
        let j = lemma_run_listed(neg, n, r1, r2, m);
        let i = lemma_run_listed(neg, n, r2, r1, m);
        assert(r1[m].0 <= r1[m].1);
        assert(r2[m].0 <= r2[m].1);
        if j < m {
            assert(r1[j] == r2[j]);
            assert(r1[j].1 + 1 < r1[m].0);
        } else if i < m {
            assert(r1[i] == r2[i]);
            assert(r2[i].1 + 1 < r2[m].0);
        } else if j > m && i > m {
            assert(r2[m].1 + 1 < r2[j].0);
            assert(r1[m].1 + 1 < r1[i].0);
        }
    }
}

/// Law: the maximal runs of a prefix of flags have exactly one listing, so
/// [`violation_intervals`] has exactly one result.
pub proof fn lemma_maximal_runs_unique(
    neg: Seq<bool>,
    n: int,
    r1: Seq<(int, int)>,
    r2: Seq<(int, int)>,
)
    requires
        maximal_runs(neg, n, r1),
        maximal_runs(neg, n, r2),
    ensures
        r1 == r2,
{
    if r1.len() > r2.len() {
        let m = r2.len() as int;
        lemma_runs_agree_below(neg, n, r1, r2, m);
        let j = lemma_run_listed(neg, n, r1, r2, m);
        assert(r1[j] == r2[j]);
        assert(r1[j].1 + 1 < r1[m].0);
        assert(r1[j].0 <= r1[j].1);
    } else if r2.len() > r1.len() {
        let m = r1.len() as int;
        lemma_runs_agree_below(neg, n, r1, r2, m);
        let j = lemma_run_listed(neg, n, r2, r1, m);
        assert(r1[j] == r2[j]);
        assert(r2[j].1 + 1 < r2[m].0);
        assert(r2[j].0 <= r2[j].1);
    } else {
        lemma_runs_agree_below(neg, n, r1, r2, r1.len() as int);
        assert(r1 =~= r2);
    }
}

/// The index runs of `result` read through `times`.
pub open spec fn spans_at<T>(times: Seq<T>, runs: Seq<(int, int)>, spans: Seq<(T, T)>) -> bool {
    &&& spans.len() == runs.len()
    &&& forall|k: int|
        0 <= k < runs.len() ==> #[trigger] spans[k] == (times[runs[k].0], times[runs[k].1])
}

/// The time spans over which the signal is negative: for each maximal run of
/// samples flagged `negative`, the times of its first and last sample, in
/// order. Only the samples that have both a time and a flag are read.
pub fn violation_intervals<T: Copy>(times: &[T], negative: &[bool]) -> (r: Vec<(T, T)>)
    ensures
        exists|runs: Seq<(int, int)>|
            maximal_runs(
                negative@,
                if times@.len() <= negative@.len() {
                    times@.len() as int
                } else {
                    negative@.len() as int
                },
                runs,
            ) && spans_at(times@, runs, r@),
{
    let n = if times.len() <= negative.len() {
        times.len()
    } else {
        negative.len()
    };
    let ghost neg = negative@;
    let mut spans: Vec<(T, T)> = Vec::new();
    let ghost mut runs: Seq<(int, int)> = Seq::empty();
    let mut start: Option<usize> = None;
    let mut i: usize = 0;
    while i < n
        invariant
            i <= n,
            n <= times@.len(),
            n <= negative@.len(),
            neg == negative@,
            spans_at(times@, runs, spans@),
            forall|k: int|
                0 <= k < runs.len() ==> {
                    let (s, e) = #[trigger] runs[k];
                    &&& 0 <= s <= e < i
                    &&& forall|j: int| s <= j <= e ==> neg[j]
                    &&& s == 0 || !neg[s - 1]
                    &&& e + 1 < i && !neg[e + 1]
                },
            forall|k1: int, k2: int|
                0 <= k1 < k2 < runs.len() ==> (#[trigger] runs[k1]).1 + 1 < (#[trigger] runs[k2]).0,
            match start {
                Some(s) => {
                    &&& s < i
                    &&& forall|j: int| s <= j < i ==> neg[j]
                    &&& s == 0 || !neg[s - 1]
                    &&& forall|k: int| 0 <= k < runs.len() ==> (#[trigger] runs[k]).1 + 1 < s
                },
                None => i == 0 || !neg[i - 1],
            },
            forall|j: int|
                0 <= j < i && neg[j] ==> (start matches Some(s) && s <= j) || exists|k: int|
                    0 <= k < runs.len() && (#[trigger] runs[k]).0 <= j <= runs[k].1,
        decreases n - i,
    {
        if negative[i] {
            if start.is_none() {
                start = Some(i);
            }
        } else {
            match start {
                Some(s) => {
                    spans.push((times[s], times[i - 1]));
                    proof {
                        let old_runs = runs;
                        runs = runs.push((s as int, i - 1));
                        assert forall|j: int|
                            0 <= j < i + 1 && neg[j] implies exists|k: int|
                                0 <= k < runs.len() && (#[trigger] runs[k]).0 <= j <= runs[k].1 by {
                            if s <= j {
                                assert(runs[old_runs.len() as int] == (s as int, i - 1));
                            } else {
                                let k = choose|k: int|
                                    0 <= k < old_runs.len() && (#[trigger] old_runs[k]).0 <= j
                                        <= old_runs[k].1;
                                assert(runs[k] == old_runs[k]);
                            }
                        }
                    }
                    start = None;
                },
                None => {},
            }
        }
        i = i + 1;
    }
    match start {
        Some(s) => {
            spans.push((times[s], times[n - 1]));
            proof {
                let old_runs = runs;
                runs = runs.push((s as int, n - 1));
                assert forall|j: int| 0 <= j < n && neg[j] implies exists|k: int|
                    0 <= k < runs.len() && (#[trigger] runs[k]).0 <= j <= runs[k].1 by {
                    if s <= j {
                        assert(runs[old_runs.len() as int] == (s as int, n - 1));
                    } else {
                        let k = choose|k: int|
                            0 <= k < old_runs.len() && (#[trigger] old_runs[k]).0 <= j
                                <= old_runs[k].1;
                        assert(runs[k] == old_runs[k]);
                    }
                }
            }
        },
        None => {},
    }
    proof {
        assert(maximal_runs(neg, n as int, runs));
        assert(spans_at(times@, runs, spans@));
    }
    spans
}

} // verus!
