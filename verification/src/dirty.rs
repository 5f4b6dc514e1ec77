//! The dirty-region tracker.
//!
//! The automaton passes leave a per-row boolean mask; once per frame it is
//! coalesced into the minimal list of half-open `[start, end)` intervals
//! covering all marked rows, by a single linear scan that opens an
//! interval on a false-to-true transition and closes it on the next
//! true-to-false transition (or at the end of the grid). Only these
//! intervals are forwarded to the display collaborator.

use vstd::prelude::*;

verus! {

/// The scanner state after reading the first `i` rows of the mask: the
/// completed intervals, and the start of the still-open run if row `i - 1`
/// was marked.
pub open spec fn runs_scan(m: Seq<bool>, i: int) -> (Seq<(int, int)>, Option<int>)
    decreases i,
{
    if i <= 0 {
        (Seq::<(int, int)>::empty(), None::<int>)
    } else {
        let prev = runs_scan(m, i - 1);
        if m[i - 1] {
            match prev.1 {
                None => (prev.0, Some(i - 1)),
                Some(_) => prev,
            }
        } else {
            match prev.1 {
                None => prev,
                Some(s) => (prev.0.push((s, i - 1)), None),
            }
        }
    }
}

/// The maximal runs of marked rows, as half-open `[start, end)` intervals
/// in increasing order.
pub open spec fn row_runs(m: Seq<bool>) -> Seq<(int, int)> {
    let sc = runs_scan(m, m.len() as int);
    match sc.1 {
        None => sc.0,
        Some(s) => sc.0.push((s, m.len() as int)),
    }
}

/// Coalesce the dirty-row mask into its maximal contiguous intervals.
#[verifier::loop_isolation(false)]
pub fn dirty_row_intervals(changed_rows: &Vec<bool>) -> (r: Vec<(usize, usize)>)
    ensures
        r@.len() == row_runs(changed_rows@).len(),
        forall|k: int| 0 <= k < r@.len()
            ==> row_runs(changed_rows@)[k] == (r@[k].0 as int, r@[k].1 as int),
{
    let n = changed_rows.len();
    let mut result: Vec<(usize, usize)> = Vec::new();
    let mut batch_start: Option<usize> = None;
    let mut y: usize = 0;
    while y < n
        invariant
            y <= n,
            result@.len() == runs_scan(changed_rows@, y as int).0.len(),
            forall|k: int| 0 <= k < result@.len()
                ==> runs_scan(changed_rows@, y as int).0[k]
                    == (result@[k].0 as int, result@[k].1 as int),
            match batch_start {
                Some(s) => runs_scan(changed_rows@, y as int).1 == Some(s as int),
                None => runs_scan(changed_rows@, y as int).1 == None::<int>,
            },
        decreases n - y,
    {
        let changed = changed_rows[y];
        if changed && batch_start.is_none() {
            batch_start = Some(y);
        } else if !changed && batch_start.is_some() {
            let s = batch_start.unwrap();
            result.push((s, y));
            batch_start = None;
        }
        y += 1;
    }
    if let Some(s) = batch_start {
        result.push((s, n));
    }
    result
}

proof fn lemma_scan_wf(m: Seq<bool>, i: int)
    requires
        0 <= i <= m.len(),
    ensures
        ({
            let sc = runs_scan(m, i);
            &&& forall|k: int| 0 <= k < sc.0.len()
                ==> 0 <= (#[trigger] sc.0[k]).0 < sc.0[k].1 <= i
            &&& forall|k: int| 0 <= k < sc.0.len() - 1
                ==> (#[trigger] sc.0[k]).1 < sc.0[k + 1].0
            &&& match sc.1 {
                Some(s) => 0 <= s < i
                    && (sc.0.len() > 0 ==> sc.0[sc.0.len() - 1].1 < s),
                None => sc.0.len() > 0
                    ==> sc.0[sc.0.len() - 1].1 < i && !m[sc.0[sc.0.len() - 1].1],
            }
        }),
    decreases i,
{
    if i > 0 {
        lemma_scan_wf(m, i - 1);
        let prev = runs_scan(m, i - 1);
        let sc = runs_scan(m, i);
        if !m[i - 1] {
            match prev.1 {
                None => {},
                Some(s) => {
                    assert(sc.0 == prev.0.push((s, i - 1)));
                    assert forall|k: int| 0 <= k < sc.0.len()
                        implies 0 <= (#[trigger] sc.0[k]).0 < sc.0[k].1 <= i by {
                        if k < prev.0.len() {
                            assert(sc.0[k] == prev.0[k]);
                        } else {
                            assert(sc.0[k] == (s, i - 1));
                        }
                    }
                    assert forall|k: int| 0 <= k < sc.0.len() - 1
                        implies (#[trigger] sc.0[k]).1 < sc.0[k + 1].0 by {
                        if k < prev.0.len() - 1 {
                            assert(sc.0[k] == prev.0[k]);
                            assert(sc.0[k + 1] == prev.0[k + 1]);
                        } else {
                            assert(sc.0[k] == prev.0[prev.0.len() - 1]);
                            assert(sc.0[k + 1] == (s, i - 1));
                        }
                    }
                },
            }
        }
    }
}

/// The tracker's intervals are non-empty, lie within the mask, and are
/// strictly increasing with at least one unmarked row between consecutive
/// runs: the list is minimal.
pub proof fn lemma_runs_wellformed(m: Seq<bool>)
    ensures
        forall|k: int| 0 <= k < row_runs(m).len()
            ==> 0 <= (#[trigger] row_runs(m)[k]).0 < row_runs(m)[k].1 <= m.len(),
        forall|k: int| 0 <= k < row_runs(m).len() - 1
            ==> (#[trigger] row_runs(m)[k]).1 < row_runs(m)[k + 1].0,
{
    lemma_scan_wf(m, m.len() as int);
}

proof fn lemma_scan_cover(m: Seq<bool>, i: int, j: int)
    requires
        0 <= i <= m.len(),
        0 <= j < i,
    ensures
        ({
            let sc = runs_scan(m, i);
            m[j] <==> ((exists|k: int| 0 <= k < sc.0.len()
                    && (#[trigger] sc.0[k]).0 <= j < sc.0[k].1)
                || match sc.1 {
                    Some(s) => s <= j,
                    None => false,
                })
        }),
    decreases i,
{
    lemma_scan_wf(m, i);
    lemma_scan_wf(m, i - 1);
    let prev = runs_scan(m, i - 1);
    let sc = runs_scan(m, i);
    if j == i - 1 {
        if m[i - 1] {
            assert(sc.1 is Some);
            assert(sc.1->0 <= j);
        } else {
            assert forall|k: int| 0 <= k < sc.0.len()
                implies !((#[trigger] sc.0[k]).0 <= j < sc.0[k].1) by {
                match prev.1 {
                    None => {
                        assert(sc.0[k] == prev.0[k]);
                        assert(sc.0[k].1 <= i - 1);
                    },
                    Some(s) => {
                        assert(sc.0 == prev.0.push((s, i - 1)));
                        if k < prev.0.len() {
                            assert(sc.0[k] == prev.0[k]);
                            assert(sc.0[k].1 <= i - 1);
                        } else {
                            assert(sc.0[k] == (s, i - 1));
                        }
                    },
                }
            }
        }
    } else {
        lemma_scan_cover(m, i - 1, j);
        if m[i - 1] {
            assert(sc.0 == prev.0);
            match prev.1 {
                None => {
                    assert(sc.1 == Some(i - 1));
                    assert(!(i - 1 <= j));
                },
                Some(_) => {},
            }
        } else {
            match prev.1 {
                None => {},
                Some(s) => {
                    assert(sc.0 == prev.0.push((s, i - 1)));
                    assert forall|k: int|
                        0 <= k < prev.0.len() implies #[trigger] sc.0[k] == prev.0[k] by {}
                    assert(sc.0[sc.0.len() - 1] == (s, i - 1));
                    if m[j] {
                        if (exists|k: int| 0 <= k < prev.0.len()
                            && (#[trigger] prev.0[k]).0 <= j < prev.0[k].1) {
                            let k = choose|k: int| 0 <= k < prev.0.len()
                                && (#[trigger] prev.0[k]).0 <= j < prev.0[k].1;
                            assert(sc.0[k].0 <= j < sc.0[k].1);
                        } else {
                            assert(s <= j);
                            assert(sc.0[sc.0.len() - 1].0 <= j < sc.0[sc.0.len() - 1].1);
                        }
                    } else {
                        assert forall|k: int| 0 <= k < sc.0.len()
                            implies !((#[trigger] sc.0[k]).0 <= j < sc.0[k].1) by {
                            if k < prev.0.len() {
                                assert(sc.0[k] == prev.0[k]);
                            } else {
                                assert(sc.0[k] == (s, i - 1));
                            }
                        }
                    }
                },
            }
        }
    }
}

/// Every marked row lies in some interval, and every row of an interval
/// was marked: the intervals cover exactly the dirty rows.
pub proof fn lemma_runs_cover(m: Seq<bool>)
    ensures
        forall|j: int| 0 <= j < m.len()
            ==> (m[j] <==> exists|k: int| 0 <= k < row_runs(m).len()
                && (#[trigger] row_runs(m)[k]).0 <= j < row_runs(m)[k].1),
{
    lemma_scan_wf(m, m.len() as int);
    let sc = runs_scan(m, m.len() as int);
    let rr = row_runs(m);
    assert forall|j: int| 0 <= j < m.len()
        implies (m[j] <==> exists|k: int| 0 <= k < row_runs(m).len()
            && (#[trigger] row_runs(m)[k]).0 <= j < row_runs(m)[k].1) by {
        lemma_scan_cover(m, m.len() as int, j);
        match sc.1 {
            Some(s) => {
                assert(rr == sc.0.push((s, m.len() as int)));
                assert forall|k: int|
                    0 <= k < sc.0.len() implies #[trigger] rr[k] == sc.0[k] by {}
                assert(rr[rr.len() - 1] == (s, m.len() as int));
                if m[j] {
                    if (exists|k: int| 0 <= k < sc.0.len()
                        && (#[trigger] sc.0[k]).0 <= j < sc.0[k].1) {
                        let k = choose|k: int| 0 <= k < sc.0.len()
                            && (#[trigger] sc.0[k]).0 <= j < sc.0[k].1;
                        assert(0 <= k < rr.len() && rr[k].0 <= j < rr[k].1);
                    } else {
                        assert(s <= j);
                        assert(rr[rr.len() - 1].0 <= j < rr[rr.len() - 1].1);
                    }
                } else {
                    assert forall|k: int| 0 <= k < rr.len()
                        implies !((#[trigger] rr[k]).0 <= j < rr[k].1) by {
                        if k < sc.0.len() {
                            assert(rr[k] == sc.0[k]);
                        } else {
                            assert(rr[k] == (s, m.len() as int));
                            assert(!(s <= j));
                        }
                    }
                }
            },
            None => {
                assert(rr == sc.0);
                if m[j] {
                    let k = choose|k: int| 0 <= k < sc.0.len()
                        && (#[trigger] sc.0[k]).0 <= j < sc.0[k].1;
                    assert(0 <= k < rr.len() && rr[k].0 <= j < rr[k].1);
                } else {
                    assert forall|k: int| 0 <= k < rr.len()
                        implies !((#[trigger] rr[k]).0 <= j < rr[k].1) by {
                        assert(rr[k] == sc.0[k]);
                    }
                }
            },
        }
    }
}

proof fn lemma_scan_all_clear(m: Seq<bool>, i: int)
    requires
        0 <= i <= m.len(),
        forall|j: int| 0 <= j < m.len() ==> !m[j],
    ensures
        runs_scan(m, i) == (Seq::<(int, int)>::empty(), None::<int>),
    decreases i,
{
    if i > 0 {
        lemma_scan_all_clear(m, i - 1);
    }
}

/// A mask with no marked row yields no interval at all: an idle frame
/// flushes nothing to the display.
pub proof fn lemma_empty_mask_no_runs(m: Seq<bool>)
    requires
        forall|j: int| 0 <= j < m.len() ==> !m[j],
    ensures
        row_runs(m).len() == 0,
{
    lemma_scan_all_clear(m, m.len() as int);
}

} // verus!
