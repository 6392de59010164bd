//! The round planner: a pure function from a partition snapshot to the next
//! compaction action.
//!
//! The executable planner mirrors, branch for branch, a spec-level model of
//! itself (`spec_plan_round`), so its result is pinned to a mathematical
//! function of the snapshot and the policy — determinism is a theorem, not a
//! hope. On top of that the planner guarantees the structural facts the
//! commit step needs: the chosen inputs cover their own time hull without
//! gaps, and every file of the target level that intersects the hull is
//! among the inputs.

use vstd::prelude::*;

use crate::config::CompactorConfig;
use crate::files::{CompactionLevel, ParquetFile};
use crate::view::{covered, covers_interval, ids_unique, sum_sizes};

verus! {

/// Number of `true` entries of a mask.
pub open spec fn count_true(m: Seq<bool>) -> int
    decreases m.len(),
{
    if m.len() == 0 {
        0
    } else {
        count_true(m.drop_last()) + if m.last() {
            1int
        } else {
            0int
        }
    }
}

/// Flipping one entry to `true` raises the count by one.
proof fn lemma_count_true_update(m: Seq<bool>, i: int)
    requires
        0 <= i < m.len(),
        !m[i],
    ensures
        count_true(m.update(i, true)) == count_true(m) + 1,
    decreases m.len(),
{
    let u = m.update(i, true);
    if i == m.len() - 1 {
        assert(u.drop_last() =~= m.drop_last());
    } else {
        assert(u.drop_last() =~= m.drop_last().update(i, true));
        lemma_count_true_update(m.drop_last(), i);
    }
}

/// The count never exceeds the mask's length.
proof fn lemma_count_true_le_len(m: Seq<bool>)
    ensures
        0 <= count_true(m) <= m.len(),
    decreases m.len(),
{
    if m.len() > 0 {
        lemma_count_true_le_len(m.drop_last());
    }
}

/// A full mask has no `false` entry.
proof fn lemma_count_true_full(m: Seq<bool>)
    requires
        count_true(m) == m.len(),
    ensures
        forall|i: int| 0 <= i < m.len() ==> m[i],
    decreases m.len(),
{
    if m.len() > 0 {
        lemma_count_true_le_len(m.drop_last());
        lemma_count_true_full(m.drop_last());
        assert forall|i: int| 0 <= i < m.len() implies m[i] by {
            if i < m.len() - 1 {
                assert(m.drop_last()[i]);
            }
        }
    }
}

/// Index of the oldest active file of `level` among the first `n` entries:
/// smallest ingest stamp, id as tie-breaker.
pub open spec fn spec_oldest_upto(
    s: Seq<ParquetFile>,
    act: Seq<bool>,
    level: CompactionLevel,
    n: int,
) -> Option<int>
    decreases n,
{
    if n <= 0 {
        None
    } else {
        let prev = spec_oldest_upto(s, act, level, n - 1);
        let ok = act[n - 1] && s[n - 1].level == level;
        match prev {
            None => if ok {
                Some(n - 1)
            } else {
                None
            },
            Some(i) => if ok && s[n - 1].older_than(s[i]) {
                Some(n - 1)
            } else {
                Some(i)
            },
        }
    }
}

/// Executable twin of `spec_oldest_upto`.
fn oldest_upto(
    files: &Vec<ParquetFile>,
    act: &Vec<bool>,
    level: CompactionLevel,
    n: usize,
) -> (r: Option<usize>)
    requires
        n <= files@.len(),
        act@.len() == files@.len(),
    ensures
        match r {
            None => spec_oldest_upto(files@, act@, level, n as int) is None,
            Some(i) => {
                &&& spec_oldest_upto(files@, act@, level, n as int) == Some(i as int)
                &&& i < n
                &&& act@[i as int]
                &&& files@[i as int].level == level
            },
        },
        r is None ==> forall|j: int|
            0 <= j < n ==> !(act@[j] && (#[trigger] files@[j]).level == level),
    decreases n,
{
    if n == 0 {
        None
    } else {
        let prev = oldest_upto(files, act, level, n - 1);
        let ok = act[n - 1] && files[n - 1].level == level;
        match prev {
            None => if ok {
                Some(n - 1)
            } else {
                None
            },
            Some(i) => if ok && files[n - 1].older_than_exec(&files[i]) {
                Some(n - 1)
            } else {
                Some(i)
            },
        }
    }
}

/// Lowest index `< n` of an active, not yet included L0 file whose range
/// intersects `[lo, hi]` — the next file the cluster absorbs.
pub open spec fn spec_first_growable(
    s: Seq<ParquetFile>,
    act: Seq<bool>,
    incl: Seq<bool>,
    lo: int,
    hi: int,
    n: int,
) -> Option<int>
    decreases n,
{
    if n <= 0 {
        None
    } else {
        match spec_first_growable(s, act, incl, lo, hi, n - 1) {
            Some(i) => Some(i),
            None => if act[n - 1] && !incl[n - 1] && s[n - 1].level is L0 && s[n
                - 1].overlaps_range(lo, hi) {
                Some(n - 1)
            } else {
                None
            },
        }
    }
}

/// Executable twin of `spec_first_growable`.
fn first_growable(
    files: &Vec<ParquetFile>,
    act: &Vec<bool>,
    incl: &Vec<bool>,
    lo: i64,
    hi: i64,
    n: usize,
) -> (r: Option<usize>)
    requires
        n <= files@.len(),
        act@.len() == files@.len(),
        incl@.len() == files@.len(),
    ensures
        match r {
            None => spec_first_growable(files@, act@, incl@, lo as int, hi as int, n as int)
                is None,
            Some(i) => {
                &&& spec_first_growable(files@, act@, incl@, lo as int, hi as int, n as int)
                    == Some(i as int)
                &&& i < n
                &&& act@[i as int]
                &&& !incl@[i as int]
                &&& files@[i as int].level is L0
                &&& files@[i as int].overlaps_range(lo as int, hi as int)
            },
        },
    decreases n,
{
    if n == 0 {
        None
    } else {
        match first_growable(files, act, incl, lo, hi, n - 1) {
            Some(i) => Some(i),
            None => {
                let f = &files[n - 1];
                if act[n - 1] && !incl[n - 1] && matches!(f.level, CompactionLevel::L0)
                    && f.min_time <= hi && lo <= f.max_time {
                    Some(n - 1)
                } else {
                    None
                }
            },
        }
    }
}

/// The instant `t` lies inside some file selected by the mask.
pub open spec fn mask_covered(s: Seq<ParquetFile>, m: Seq<bool>, t: int) -> bool {
    exists|i: int| 0 <= i < s.len() && m[i] && (#[trigger] s[i]).covers(t)
}

/// Every instant of `[lo, hi]` lies inside some file selected by the mask.
pub open spec fn mask_covers(s: Seq<ParquetFile>, m: Seq<bool>, lo: int, hi: int) -> bool {
    forall|t: int| lo <= t <= hi ==> #[trigger] mask_covered(s, m, t)
}

/// Every file selected by the mask lies inside `[lo, hi]`.
pub open spec fn mask_within(s: Seq<ParquetFile>, m: Seq<bool>, lo: int, hi: int) -> bool {
    forall|i: int|
        0 <= i < s.len() && m[i] ==> lo <= (#[trigger] s[i]).min_time && s[i].max_time <= hi
}

/// A mask without `false` entries leaves nothing to absorb.
proof fn lemma_first_growable_none_when_full(
    s: Seq<ParquetFile>,
    act: Seq<bool>,
    incl: Seq<bool>,
    lo: int,
    hi: int,
    n: int,
)
    requires
        forall|i: int| 0 <= i < incl.len() ==> incl[i],
        n <= incl.len(),
    ensures
        spec_first_growable(s, act, incl, lo, hi, n) is None,
    decreases n,
{
    if n > 0 {
        lemma_first_growable_none_when_full(s, act, incl, lo, hi, n - 1);
    }
}

/// Fixpoint of cluster growth: absorb the first growable L0 file, widen the
/// hull to include it, and repeat while fuel lasts.
pub open spec fn spec_grow(
    s: Seq<ParquetFile>,
    act: Seq<bool>,
    incl: Seq<bool>,
    lo: int,
    hi: int,
    fuel: nat,
) -> (Seq<bool>, int, int)
    decreases fuel,
{
    if fuel == 0 {
        (incl, lo, hi)
    } else {
        match spec_first_growable(s, act, incl, lo, hi, s.len() as int) {
            None => (incl, lo, hi),
            Some(i) => spec_grow(
                s,
                act,
                incl.update(i, true),
                if s[i].min_time < lo {
                    s[i].min_time as int
                } else {
                    lo
                },
                if s[i].max_time > hi {
                    s[i].max_time as int
                } else {
                    hi
                },
                (fuel - 1) as nat,
            ),
        }
    }
}

/// Executable twin of `spec_grow`. Carries the facts later steps rely on:
/// the hull only widens, newly absorbed files are active L0s, the cluster
/// files cover the hull gap-free, and — given enough fuel — nothing
/// absorbable is left outside.
fn grow_cluster(
    files: &Vec<ParquetFile>,
    act: &Vec<bool>,
    incl: Vec<bool>,
    lo: i64,
    hi: i64,
    fuel: usize,
) -> (r: (Vec<bool>, i64, i64))
    requires
        act@.len() == files@.len(),
        incl@.len() == files@.len(),
        crate::view::all_wf(files@),
        mask_covers(files@, incl@, lo as int, hi as int),
        mask_within(files@, incl@, lo as int, hi as int),
        -crate::files::MAX_NANO <= lo <= hi <= crate::files::MAX_NANO,
    ensures
        (r.0@, r.1 as int, r.2 as int) == spec_grow(
            files@,
            act@,
            incl@,
            lo as int,
            hi as int,
            fuel as nat,
        ),
        r.0@.len() == files@.len(),
        r.1 <= lo && hi <= r.2,
        -crate::files::MAX_NANO <= r.1 <= r.2 <= crate::files::MAX_NANO,
        forall|i: int| 0 <= i < files@.len() && incl@[i] ==> r.0@[i],
        forall|i: int|
            0 <= i < files@.len() && r.0@[i] && !incl@[i] ==> act@[i] && files@[i].level is L0,
        mask_covers(files@, r.0@, r.1 as int, r.2 as int),
        mask_within(files@, r.0@, r.1 as int, r.2 as int),
        fuel >= files@.len() - count_true(incl@) ==> spec_first_growable(
            files@,
            act@,
            r.0@,
            r.1 as int,
            r.2 as int,
            files@.len() as int,
        ) is None,
    decreases fuel,
{
    if fuel == 0 {
        proof {
            lemma_count_true_le_len(incl@);
            if fuel >= files@.len() - count_true(incl@) {
                lemma_count_true_full(incl@);
                lemma_first_growable_none_when_full(
                    files@,
                    act@,
                    incl@,
                    lo as int,
                    hi as int,
                    files@.len() as int,
                );
            }
        }
        (incl, lo, hi)
    } else {
        match first_growable(files, act, &incl, lo, hi, files.len()) {
            None => (incl, lo, hi),
            Some(i) => {
                let f = files[i];
                let new_lo = if f.min_time < lo {
                    f.min_time
                } else {
                    lo
                };
                let new_hi = if f.max_time > hi {
                    f.max_time
                } else {
                    hi
                };
                let mut incl2 = incl;
                incl2.set(i, true);
                proof {
                    lemma_count_true_update(incl@, i as int);
                    assert forall|t: int| new_lo <= t <= new_hi implies #[trigger] mask_covered(
                        files@,
                        incl2@,
                        t,
                    ) by {
                        if lo <= t <= hi {
                            assert(mask_covered(files@, incl@, t));
                            let k = choose|k: int|
                                0 <= k < files@.len() && incl@[k] && (#[trigger] files@[k]).covers(
                                    t,
                                );
                            assert(incl2@[k] && files@[k].covers(t));
                        } else {
                            assert(files@[i as int].covers(t));
                        }
                    }
                }
                let r = grow_cluster(files, act, incl2, new_lo, new_hi, fuel - 1);
                proof {
                    assert forall|k: int| 0 <= k < files@.len() && incl@[k] implies r.0@[k] by {
                        assert(incl2@[k]);
                    }
                    assert forall|k: int|
                        0 <= k < files@.len() && r.0@[k] && !incl@[k] implies act@[k]
                        && files@[k].level is L0 by {
                        if incl2@[k] {
                            assert(k == i as int);
                        }
                    }
                }
                r
            },
        }
    }
}

/// The include mask widened by every file of `level` that intersects
/// `[lo, hi]`, considering the first `n` entries.
pub open spec fn spec_attach(
    s: Seq<ParquetFile>,
    incl: Seq<bool>,
    level: CompactionLevel,
    lo: int,
    hi: int,
    n: int,
) -> Seq<bool>
    decreases n,
{
    if n <= 0 {
        incl
    } else {
        let pre = spec_attach(s, incl, level, lo, hi, n - 1);
        if s[n - 1].level == level && s[n - 1].overlaps_range(lo, hi) {
            pre.update(n - 1, true)
        } else {
            pre
        }
    }
}

/// Executable twin of `spec_attach`, with its pointwise meaning.
fn attach_level(
    files: &Vec<ParquetFile>,
    incl: Vec<bool>,
    level: CompactionLevel,
    lo: i64,
    hi: i64,
    n: usize,
) -> (r: Vec<bool>)
    requires
        n <= files@.len(),
        incl@.len() == files@.len(),
    ensures
        r@ == spec_attach(files@, incl@, level, lo as int, hi as int, n as int),
        r@.len() == files@.len(),
        forall|i: int|
            0 <= i < n ==> r@[i] == (incl@[i] || ((#[trigger] files@[i]).level == level
                && files@[i].overlaps_range(lo as int, hi as int))),
        forall|i: int| n <= i < files@.len() ==> r@[i] == incl@[i],
    decreases n,
{
    if n == 0 {
        incl
    } else {
        let pre = attach_level(files, incl, level, lo, hi, n - 1);
        let f = &files[n - 1];
        if f.level == level && f.min_time <= hi && lo <= f.max_time {
            let mut r = pre;
            r.set(n - 1, true);
            r
        } else {
            pre
        }
    }
}

/// Hull `[lo, hi]` of the files selected by the mask among the first `n`
/// entries, or `None` when nothing is selected.
pub open spec fn spec_mask_hull(s: Seq<ParquetFile>, m: Seq<bool>, n: int) -> Option<(int, int)>
    decreases n,
{
    if n <= 0 {
        None
    } else {
        let pre = spec_mask_hull(s, m, n - 1);
        if m[n - 1] {
            match pre {
                None => Some((s[n - 1].min_time as int, s[n - 1].max_time as int)),
                Some((lo, hi)) => Some(
                    (
                        if s[n - 1].min_time < lo {
                            s[n - 1].min_time as int
                        } else {
                            lo
                        },
                        if s[n - 1].max_time > hi {
                            s[n - 1].max_time as int
                        } else {
                            hi
                        },
                    ),
                ),
            }
        } else {
            pre
        }
    }
}

/// Executable twin of `spec_mask_hull`, together with the witness facts:
/// every selected file lies inside the hull and both hull ends are attained.
fn mask_hull(files: &Vec<ParquetFile>, m: &Vec<bool>, n: usize) -> (r: Option<(i64, i64)>)
    requires
        n <= files@.len(),
        m@.len() == files@.len(),
    ensures
        match r {
            None => {
                &&& spec_mask_hull(files@, m@, n as int) is None
                &&& forall|i: int| 0 <= i < n ==> !m@[i]
            },
            Some((lo, hi)) => {
                &&& spec_mask_hull(files@, m@, n as int) == Some((lo as int, hi as int))
                &&& forall|i: int|
                    0 <= i < n && m@[i] ==> lo <= (#[trigger] files@[i]).min_time
                        && files@[i].max_time <= hi
                &&& exists|a: int| 0 <= a < n && m@[a] && (#[trigger] files@[a]).min_time == lo
                &&& exists|b: int| 0 <= b < n && m@[b] && (#[trigger] files@[b]).max_time == hi
            },
        },
    decreases n,
{
    if n == 0 {
        None
    } else {
        let pre = mask_hull(files, m, n - 1);
        if m[n - 1] {
            let f = &files[n - 1];
            match pre {
                None => Some((f.min_time, f.max_time)),
                Some((lo, hi)) => Some(
                    (
                        if f.min_time < lo {
                            f.min_time
                        } else {
                            lo
                        },
                        if f.max_time > hi {
                            f.max_time
                        } else {
                            hi
                        },
                    ),
                ),
            }
        } else {
            pre
        }
    }
}

/// Total bytes of the files selected by the mask among the first `n` entries.
pub open spec fn spec_mask_sum(s: Seq<ParquetFile>, m: Seq<bool>, n: int) -> int
    decreases n,
{
    if n <= 0 {
        0
    } else {
        spec_mask_sum(s, m, n - 1) + if m[n - 1] {
            s[n - 1].file_size_bytes as int
        } else {
            0int
        }
    }
}

/// Executable twin of `spec_mask_sum`. The accumulator is wide enough that
/// no file count reachable in memory can overflow it.
fn mask_sum(files: &Vec<ParquetFile>, m: &Vec<bool>, n: usize) -> (r: u128)
    requires
        n <= files@.len(),
        m@.len() == files@.len(),
    ensures
        r == spec_mask_sum(files@, m@, n as int),
        r <= n * (u64::MAX as int),
    decreases n,
{
    if n == 0 {
        0
    } else {
        let pre = mask_sum(files, m, n - 1);
        proof {
            assert((n - 1) * (u64::MAX as int) + (u64::MAX as int) == n * (u64::MAX as int))
                by (nonlinear_arith);
            assert(n * (u64::MAX as int) < u128::MAX) by (nonlinear_arith)
                requires
                    n <= usize::MAX,
            ;
        }
        if m[n - 1] {
            pre + files[n - 1].file_size_bytes as u128
        } else {
            pre
        }
    }
}

/// Number of files selected by the mask among the first `n` entries.
pub open spec fn spec_mask_count(s: Seq<ParquetFile>, m: Seq<bool>, n: int) -> int
    decreases n,
{
    if n <= 0 {
        0
    } else {
        spec_mask_count(s, m, n - 1) + if m[n - 1] {
            1int
        } else {
            0int
        }
    }
}

/// Executable twin of `spec_mask_count`.
fn mask_count(files: &Vec<ParquetFile>, m: &Vec<bool>, n: usize) -> (r: usize)
    requires
        n <= files@.len(),
        m@.len() == files@.len(),
    ensures
        r == spec_mask_count(files@, m@, n as int),
        r <= n,
    decreases n,
{
    if n == 0 {
        0
    } else {
        let pre = mask_count(files, m, n - 1);
        if m[n - 1] {
            pre + 1
        } else {
            pre
        }
    }
}

/// The files selected by the mask among the first `n` entries, in index
/// order.
pub open spec fn mask_seq(s: Seq<ParquetFile>, m: Seq<bool>, n: int) -> Seq<ParquetFile>
    decreases n,
{
    if n <= 0 {
        Seq::empty()
    } else {
        let pre = mask_seq(s, m, n - 1);
        if m[n - 1] {
            pre.push(s[n - 1])
        } else {
            pre
        }
    }
}

/// Executable twin of `mask_seq`.
fn collect_mask(files: &Vec<ParquetFile>, m: &Vec<bool>, n: usize) -> (r: Vec<ParquetFile>)
    requires
        n <= files@.len(),
        m@.len() == files@.len(),
    ensures
        r@ == mask_seq(files@, m@, n as int),
    decreases n,
{
    if n == 0 {
        Vec::new()
    } else {
        let mut pre = collect_mask(files, m, n - 1);
        if m[n - 1] {
            pre.push(files[n - 1]);
        }
        pre
    }
}

/// Every collected file comes from a selected index.
pub proof fn lemma_mask_seq_provenance(s: Seq<ParquetFile>, m: Seq<bool>, n: int, k: int)
    requires
        n <= s.len(),
        n <= m.len(),
        0 <= k < mask_seq(s, m, n).len(),
    ensures
        exists|j: int| 0 <= j < n && m[j] && #[trigger] mask_seq(s, m, n)[k] == s[j],
    decreases n,
{
    let pre = mask_seq(s, m, n - 1);
    let cur = mask_seq(s, m, n);
    if k < pre.len() {
        lemma_mask_seq_provenance(s, m, n - 1, k);
        let j = choose|j: int| 0 <= j < n - 1 && m[j] && #[trigger] pre[k] == s[j];
        assert(cur[k] == s[j]);
    } else {
        assert(m[n - 1] && cur[k] == s[n - 1]);
    }
}

/// Every selected file appears among the collected ones.
pub proof fn lemma_mask_seq_contains(s: Seq<ParquetFile>, m: Seq<bool>, n: int, j: int)
    requires
        0 <= j < n <= s.len(),
        n <= m.len(),
        m[j],
    ensures
        mask_seq(s, m, n).contains(s[j]),
    decreases n,
{
    let pre = mask_seq(s, m, n - 1);
    let cur = mask_seq(s, m, n);
    if j == n - 1 {
        assert(cur[cur.len() - 1] == s[j]);
    } else {
        lemma_mask_seq_contains(s, m, n - 1, j);
        let k = choose|k: int| 0 <= k < pre.len() && pre[k] == s[j];
        assert(cur[k] == s[j]);
    }
}

/// Collecting preserves id uniqueness.
pub proof fn lemma_mask_seq_ids_unique(s: Seq<ParquetFile>, m: Seq<bool>, n: int)
    requires
        n <= s.len(),
        n <= m.len(),
        ids_unique(s),
    ensures
        ids_unique(mask_seq(s, m, n)),
    decreases n,
{
    if n > 0 {
        lemma_mask_seq_ids_unique(s, m, n - 1);
        let pre = mask_seq(s, m, n - 1);
        let cur = mask_seq(s, m, n);
        if m[n - 1] {
            assert forall|p: int, q: int| 0 <= p < q < cur.len() implies (#[trigger] cur[p]).id != (
            #[trigger] cur[q]).id by {
                if q == cur.len() - 1 {
                    lemma_mask_seq_provenance(s, m, n - 1, p);
                    let j = choose|j: int| 0 <= j < n - 1 && m[j] && #[trigger] pre[p] == s[j];
                    assert(s[j].id != s[n - 1].id);
                }
            }
        }
    }
}

/// The collected total equals the mask total.
pub proof fn lemma_mask_seq_sum(s: Seq<ParquetFile>, m: Seq<bool>, n: int)
    requires
        n <= s.len(),
        n <= m.len(),
    ensures
        sum_sizes(mask_seq(s, m, n)) == spec_mask_sum(s, m, n),
    decreases n,
{
    if n > 0 {
        lemma_mask_seq_sum(s, m, n - 1);
        if m[n - 1] {
            crate::view::lemma_sum_sizes_push(mask_seq(s, m, n - 1), s[n - 1]);
        }
    }
}

/// The collected count equals the mask count.
pub proof fn lemma_mask_seq_len(s: Seq<ParquetFile>, m: Seq<bool>, n: int)
    requires
        n <= s.len(),
        n <= m.len(),
    ensures
        mask_seq(s, m, n).len() == spec_mask_count(s, m, n),
    decreases n,
{
    if n > 0 {
        lemma_mask_seq_len(s, m, n - 1);
    }
}

/// A mask sum is never negative.
proof fn lemma_mask_sum_nonneg(s: Seq<ParquetFile>, m: Seq<bool>, n: int)
    ensures
        spec_mask_sum(s, m, n) >= 0,
    decreases n,
{
    if n > 0 {
        lemma_mask_sum_nonneg(s, m, n - 1);
    }
}

/// A selected file's size bounds the mask sum from below.
proof fn lemma_mask_sum_lower(s: Seq<ParquetFile>, m: Seq<bool>, n: int, a: int)
    requires
        0 <= a < n,
    ensures
        spec_mask_sum(s, m, n) >= if m[a] {
            s[a].file_size_bytes as int
        } else {
            0int
        },
    decreases n,
{
    if a == n - 1 {
        lemma_mask_sum_nonneg(s, m, n - 1);
    } else {
        lemma_mask_sum_lower(s, m, n - 1, a);
    }
}

/// Index of the newest included file: greatest ingest stamp, id as
/// tie-breaker. This is the file the budget guard sheds first.
pub open spec fn spec_newest_included(s: Seq<ParquetFile>, m: Seq<bool>, n: int) -> Option<int>
    decreases n,
{
    if n <= 0 {
        None
    } else {
        let prev = spec_newest_included(s, m, n - 1);
        match prev {
            None => if m[n - 1] {
                Some(n - 1)
            } else {
                None
            },
            Some(i) => if m[n - 1] && s[i].older_than(s[n - 1]) {
                Some(n - 1)
            } else {
                Some(i)
            },
        }
    }
}

/// Executable twin of `spec_newest_included`.
fn newest_included(files: &Vec<ParquetFile>, m: &Vec<bool>, n: usize) -> (r: Option<usize>)
    requires
        n <= files@.len(),
        m@.len() == files@.len(),
    ensures
        match r {
            None => spec_newest_included(files@, m@, n as int) is None,
            Some(i) => {
                &&& spec_newest_included(files@, m@, n as int) == Some(i as int)
                &&& i < n
                &&& m@[i as int]
            },
        },
    decreases n,
{
    if n == 0 {
        None
    } else {
        let prev = newest_included(files, m, n - 1);
        match prev {
            None => if m[n - 1] {
                Some(n - 1)
            } else {
                None
            },
            Some(i) => if m[n - 1] && files[i].older_than_exec(&files[n - 1]) {
                Some(n - 1)
            } else {
                Some(i)
            },
        }
    }
}

/// A mask selecting exactly index `a`.
fn single_mask(len: usize, a: usize) -> (r: Vec<bool>)
    requires
        a < len,
    ensures
        r@ == Seq::new(len as nat, |i: int| i == a as int),
        count_true(r@) == 1,
    decreases len,
{
    let mut r: Vec<bool> = Vec::new();
    let mut i: usize = 0;
    while i < len
        invariant
            i <= len,
            a < len,
            r@ =~= Seq::new(i as nat, |k: int| k == a as int),
            count_true(r@) == if i > a {
                1int
            } else {
                0int
            },
        decreases len - i,
    {
        proof {
            let pre = r@;
            let post = r@.push(i == a);
            assert(post.drop_last() =~= pre);
        }
        r.push(i == a);
        i = i + 1;
        proof {
            assert(r@ =~= Seq::new(i as nat, |k: int| k == a as int));
        }
    }
    r
}

/// A mask selecting every index.
fn full_mask(len: usize) -> (r: Vec<bool>)
    ensures
        r@ == Seq::new(len as nat, |i: int| true),
        count_true(r@) == len,
{
    let mut r: Vec<bool> = Vec::new();
    let mut i: usize = 0;
    while i < len
        invariant
            i <= len,
            r@ =~= Seq::new(i as nat, |k: int| true),
            count_true(r@) == i,
        decreases len - i,
    {
        proof {
            let post = r@.push(true);
            assert(post.drop_last() =~= r@);
        }
        r.push(true);
        i = i + 1;
        proof {
            assert(r@ =~= Seq::new(i as nat, |k: int| true));
        }
    }
    r
}

/// The mask of all files at `level`.
fn make_level_mask(files: &Vec<ParquetFile>, level: CompactionLevel) -> (r: Vec<bool>)
    ensures
        r@ == Seq::new(files@.len(), |i: int| files@[i].level == level),
{
    let len = files.len();
    let mut r: Vec<bool> = Vec::new();
    let mut i: usize = 0;
    while i < len
        invariant
            i <= len,
            len == files@.len(),
            r@ =~= Seq::new(i as nat, |k: int| files@[k].level == level),
        decreases len - i,
    {
        r.push(files[i].level == level);
        i = i + 1;
        proof {
            assert(r@ =~= Seq::new(i as nat, |k: int| files@[k].level == level));
        }
    }
    r
}

/// Why a partition is given up on rather than compacted.
#[derive(Clone, Copy, Debug, PartialEq, Eq, Structural)]
pub enum AbortReason {
    /// The table holds more columns than the policy allows.
    TooManyColumns,
}

/// What the planner asks the executor to do next.
#[derive(Clone, Debug)]
pub enum Action {
    /// Merge `inputs`, cut the result at `split_times`, and write the pieces
    /// at `target_level`.
    CompactAndSplit { inputs: Vec<ParquetFile>, split_times: Vec<i64>, target_level: CompactionLevel },
    /// The partition is already in its final shape (or nothing fits the
    /// budget this cycle).
    Noop,
    /// The partition cannot be compacted; mark it skipped.
    Abort { reason: AbortReason },
}

/// Mathematical counterpart of `Action`, the value the planner model
/// computes.
pub ghost enum SpecAction {
    Compact { inputs: Seq<ParquetFile>, splits: Seq<i64>, target: CompactionLevel },
    Noop,
    Abort { reason: AbortReason },
}

impl Action {
    /// The action seen as its mathematical counterpart.
    pub open spec fn view_action(self) -> SpecAction {
        match self {
            Action::CompactAndSplit { inputs, split_times, target_level } => SpecAction::Compact {
                inputs: inputs@,
                splits: split_times@,
                target: target_level,
            },
            Action::Noop => SpecAction::Noop,
            Action::Abort { reason } => SpecAction::Abort { reason },
        }
    }
}

/// Hull of a sequence of files: the least interval containing every range.
pub open spec fn inputs_hull(s: Seq<ParquetFile>) -> Option<(int, int)>
    decreases s.len(),
{
    if s.len() == 0 {
        None
    } else {
        let f = s.last();
        match inputs_hull(s.drop_last()) {
            None => Some((f.min_time as int, f.max_time as int)),
            Some((lo, hi)) => Some(
                (
                    if f.min_time < lo {
                        f.min_time as int
                    } else {
                        lo
                    },
                    if f.max_time > hi {
                        f.max_time as int
                    } else {
                        hi
                    },
                ),
            ),
        }
    }
}

/// The mask hull equals the hull of the collected files.
pub proof fn lemma_mask_hull_seq(s: Seq<ParquetFile>, m: Seq<bool>, n: int)
    requires
        n <= s.len(),
        n <= m.len(),
    ensures
        spec_mask_hull(s, m, n) == inputs_hull(mask_seq(s, m, n)),
    decreases n,
{
    if n > 0 {
        lemma_mask_hull_seq(s, m, n - 1);
        if m[n - 1] {
            assert(mask_seq(s, m, n).drop_last() =~= mask_seq(s, m, n - 1));
        }
    }
}

/// What a `Some` mask hull means: nothing selected sticks out, both ends are
/// attained, and something is selected at all.
pub proof fn lemma_mask_hull_facts(s: Seq<ParquetFile>, m: Seq<bool>, n: int)
    requires
        n <= s.len(),
        n <= m.len(),
    ensures
        match spec_mask_hull(s, m, n) {
            None => forall|i: int| 0 <= i < n ==> !m[i],
            Some((lo, hi)) => {
                &&& forall|i: int|
                    0 <= i < n && m[i] ==> lo <= (#[trigger] s[i]).min_time && s[i].max_time <= hi
                &&& exists|a: int| 0 <= a < n && m[a] && (#[trigger] s[a]).min_time == lo
                &&& exists|b: int| 0 <= b < n && m[b] && (#[trigger] s[b]).max_time == hi
            },
        },
    decreases n,
{
    if n > 0 {
        lemma_mask_hull_facts(s, m, n - 1);
    }
}

/// Lifts gap-free coverage of the core interval to the full hull of the
/// selected files: whatever the hull adds beyond the core is covered by the
/// very files that attain the hull ends.
pub proof fn lemma_cover_hull(s: Seq<ParquetFile>, m: Seq<bool>, lo: int, hi: int)
    requires
        m.len() == s.len(),
        mask_covers(s, m, lo, hi),
        forall|i: int|
            0 <= i < s.len() && m[i] ==> (#[trigger] s[i]).min_time <= hi && lo <= s[i].max_time,
        spec_mask_hull(s, m, s.len() as int) is Some,
    ensures
        ({
            let (flo, fhi) = spec_mask_hull(s, m, s.len() as int)->Some_0;
            covers_interval(mask_seq(s, m, s.len() as int), flo, fhi)
        }),
{
    let n = s.len() as int;
    let (flo, fhi) = spec_mask_hull(s, m, n)->Some_0;
    lemma_mask_hull_facts(s, m, n);
    let ins = mask_seq(s, m, n);
    assert forall|t: int| flo <= t <= fhi implies #[trigger] covered(ins, t) by {
        if lo <= t <= hi {
            assert(mask_covered(s, m, t));
            let i = choose|i: int| 0 <= i < s.len() && m[i] && (#[trigger] s[i]).covers(t);
            lemma_mask_seq_contains(s, m, n, i);
            let k = choose|k: int| 0 <= k < ins.len() && ins[k] == s[i];
            assert(ins[k].covers(t));
        } else if t > hi {
            let b = choose|b: int| 0 <= b < n && m[b] && (#[trigger] s[b]).max_time == fhi;
            assert(s[b].covers(t));
            lemma_mask_seq_contains(s, m, n, b);
            let k = choose|k: int| 0 <= k < ins.len() && ins[k] == s[b];
            assert(ins[k].covers(t));
        } else {
            let a = choose|a: int| 0 <= a < n && m[a] && (#[trigger] s[a]).min_time == flo;
            assert(s[a].covers(t));
            lemma_mask_seq_contains(s, m, n, a);
            let k = choose|k: int| 0 <= k < ins.len() && ins[k] == s[a];
            assert(ins[k].covers(t));
        }
    }
}

/// The closure property behind level non-overlap: once the selected files
/// cover their hull, and every file of `target` level that intersects the
/// core is selected, no unselected `target`-level file can intersect the
/// hull at all.
pub proof fn lemma_closure(
    s: Seq<ParquetFile>,
    m: Seq<bool>,
    target: CompactionLevel,
    lo: int,
    hi: int,
)
    requires
        m.len() == s.len(),
        crate::view::all_wf(s),
        crate::view::level_nonoverlapping(s, target),
        // every selected file lies in the core or is itself at target level
        forall|j: int|
            0 <= j < s.len() && m[j] ==> ((lo <= (#[trigger] s[j]).min_time && s[j].max_time <= hi)
                || s[j].level == target),
        // every target-level file intersecting the core is selected
        forall|j: int|
            0 <= j < s.len() && (#[trigger] s[j]).level == target && s[j].overlaps_range(lo, hi)
                ==> m[j],
        spec_mask_hull(s, m, s.len() as int) is Some,
        ({
            let (flo, fhi) = spec_mask_hull(s, m, s.len() as int)->Some_0;
            covers_interval(mask_seq(s, m, s.len() as int), flo, fhi)
        }),
    ensures
        ({
            let (flo, fhi) = spec_mask_hull(s, m, s.len() as int)->Some_0;
            forall|i: int|
                0 <= i < s.len() && (#[trigger] s[i]).level == target && s[i].overlaps_range(
                    flo,
                    fhi,
                ) ==> mask_seq(s, m, s.len() as int).contains(s[i])
        }),
{
    let n = s.len() as int;
    let (flo, fhi) = spec_mask_hull(s, m, n)->Some_0;
    let ins = mask_seq(s, m, n);
    lemma_mask_hull_facts(s, m, n);
    assert(flo <= fhi) by {
        let a = choose|a: int| 0 <= a < n && m[a] && (#[trigger] s[a]).min_time == flo;
        assert(s[a].wf());
    }
    assert forall|i: int|
        0 <= i < s.len() && (#[trigger] s[i]).level == target && s[i].overlaps_range(
            flo,
            fhi,
        ) implies ins.contains(s[i]) by {
        let t = if s[i].min_time >= flo {
            s[i].min_time as int
        } else {
            flo
        };
        assert(s[i].covers(t) && flo <= t <= fhi);
        assert(covered(ins, t));
        let k = choose|k: int| 0 <= k < ins.len() && (#[trigger] ins[k]).covers(t);
        lemma_mask_seq_provenance(s, m, n, k);
        let j = choose|j: int| 0 <= j < n && m[j] && #[trigger] ins[k] == s[j];
        if lo <= s[j].min_time && s[j].max_time <= hi {
            // the covering file sits in the core, so `s[i]` reaches into the
            // core and must have been selected there
            assert(s[i].overlaps_range(lo, hi));
            lemma_mask_seq_contains(s, m, n, i);
        } else {
            // the covering file is itself at target level; two target-level
            // files sharing the instant `t` must be the same file
            assert(s[j].level == target);
            if i != j {
                assert(s[i].overlaps(s[j]));
                assert(false);
            }
            assert(ins.contains(s[i]));
        }
    }
}

/// Lowest index `< n` of an L1 file, not yet selected, whose range starts
/// exactly at `want` — the next link of an adjacent chain.
pub open spec fn spec_first_adjacent(s: Seq<ParquetFile>, m: Seq<bool>, want: int, n: int) -> Option<
    int,
>
    decreases n,
{
    if n <= 0 {
        None
    } else {
        match spec_first_adjacent(s, m, want, n - 1) {
            Some(i) => Some(i),
            None => if !m[n - 1] && s[n - 1].level is L1 && s[n - 1].min_time == want {
                Some(n - 1)
            } else {
                None
            },
        }
    }
}

/// Executable twin of `spec_first_adjacent`.
fn first_adjacent(files: &Vec<ParquetFile>, m: &Vec<bool>, want: i64, n: usize) -> (r: Option<
    usize,
>)
    requires
        n <= files@.len(),
        m@.len() == files@.len(),
    ensures
        match r {
            None => spec_first_adjacent(files@, m@, want as int, n as int) is None,
            Some(i) => {
                &&& spec_first_adjacent(files@, m@, want as int, n as int) == Some(i as int)
                &&& i < n
                &&& !m@[i as int]
                &&& files@[i as int].level is L1
                &&& files@[i as int].min_time == want
            },
        },
    decreases n,
{
    if n == 0 {
        None
    } else {
        match first_adjacent(files, m, want, n - 1) {
            Some(i) => Some(i),
            None => {
                let f = &files[n - 1];
                if !m[n - 1] && matches!(f.level, CompactionLevel::L1) && f.min_time == want {
                    Some(n - 1)
                } else {
                    None
                }
            },
        }
    }
}

/// Extends an L1 run rightwards, one adjacent file at a time, up to `cap`
/// members. `last` is the index of the run's rightmost member.
pub open spec fn spec_extend_run(
    s: Seq<ParquetFile>,
    m: Seq<bool>,
    last: int,
    cnt: int,
    cap: int,
    fuel: nat,
) -> (Seq<bool>, int)
    decreases fuel,
{
    if fuel == 0 || cnt >= cap {
        (m, last)
    } else {
        match spec_first_adjacent(s, m, s[last].max_time + 1, s.len() as int) {
            None => (m, last),
            Some(j) => spec_extend_run(s, m.update(j, true), j, cnt + 1, cap, (fuel - 1) as nat),
        }
    }
}

/// Executable twin of `spec_extend_run`. `lo0` is the fixed left end of the
/// run (the anchor's `min_time`); the run files keep covering
/// `[lo0, s[last].max_time]` without gaps and stay inside it.
fn extend_run(
    files: &Vec<ParquetFile>,
    m: Vec<bool>,
    last: usize,
    cnt: usize,
    cap: usize,
    fuel: usize,
    lo0: i64,
) -> (r: (Vec<bool>, usize))
    requires
        m@.len() == files@.len(),
        last < files@.len(),
        crate::view::all_wf(files@),
        m@[last as int],
        -crate::files::MAX_NANO <= lo0 <= files@[last as int].max_time,
        mask_covers(files@, m@, lo0 as int, files@[last as int].max_time as int),
        mask_within(files@, m@, lo0 as int, files@[last as int].max_time as int),
    ensures
        (r.0@, r.1 as int) == spec_extend_run(files@, m@, last as int, cnt as int, cap as int,
            fuel as nat),
        r.0@.len() == files@.len(),
        r.1 < files@.len(),
        r.0@[r.1 as int],
        files@[last as int].max_time <= files@[r.1 as int].max_time,
        forall|i: int| 0 <= i < files@.len() && m@[i] ==> r.0@[i],
        forall|i: int|
            0 <= i < files@.len() && r.0@[i] && !m@[i] ==> (#[trigger] files@[i]).level is L1,
        mask_covers(files@, r.0@, lo0 as int, files@[r.1 as int].max_time as int),
        mask_within(files@, r.0@, lo0 as int, files@[r.1 as int].max_time as int),
    decreases fuel,
{
    if fuel == 0 || cnt >= cap {
        (m, last)
    } else {
        let hi = files[last].max_time;
        match first_adjacent(files, &m, hi + 1, files.len()) {
            None => (m, last),
            Some(j) => {
                let mut m2 = m;
                m2.set(j, true);
                proof {
                    let new_hi = files@[j as int].max_time as int;
                    assert(files@[j as int].wf());
                    assert forall|t: int| lo0 as int <= t <= new_hi implies #[trigger] mask_covered(
                        files@,
                        m2@,
                        t,
                    ) by {
                        if t <= hi as int {
                            assert(mask_covered(files@, m@, t));
                            let k = choose|k: int|
                                0 <= k < files@.len() && m@[k] && (#[trigger] files@[k]).covers(t);
                            assert(m2@[k] && files@[k].covers(t));
                        } else {
                            assert(files@[j as int].covers(t));
                        }
                    }
                }
                let r = extend_run(files, m2, j, cnt + 1, cap, fuel - 1, lo0);
                proof {
                    assert forall|i: int| 0 <= i < files@.len() && m@[i] implies r.0@[i] by {
                        assert(m2@[i]);
                    }
                    assert forall|i: int|
                        0 <= i < files@.len() && r.0@[i] && !m@[i] implies (
                    #[trigger] files@[i]).level is L1 by {
                        if m2@[i] {
                            assert(i == j as int);
                        }
                    }
                }
                r
            },
        }
    }
}

/// The structural guarantees a `CompactAndSplit` action gives its executor
/// and committer: the inputs are live distinct files within policy limits,
/// they cover their own time hull without gaps, the cuts partition that
/// hull, the target level only ever rises, and every file of the target
/// level that intersects the hull is among the inputs.
pub open spec fn compact_action_sound(
    view: Seq<ParquetFile>,
    cfg: CompactorConfig,
    ins: Seq<ParquetFile>,
    cuts: Seq<i64>,
    target: CompactionLevel,
) -> bool {
    &&& ins.len() >= 1
    &&& ins.len() <= cfg.max_num_files_per_plan
    &&& sum_sizes(ins) <= cfg.max_input_bytes_per_round
    &&& cuts.len() <= sum_sizes(ins)
    &&& forall|k: int| 0 <= k < ins.len() ==> view.contains(#[trigger] ins[k])
    &&& ids_unique(ins)
    &&& (target is L1 || target is L2)
    &&& (target is L1 ==> (exists|k: int| 0 <= k < ins.len() && (#[trigger] ins[k]).level is L0) && (
    forall|k: int|
        0 <= k < ins.len() ==> ((#[trigger] ins[k]).level is L0 || ins[k].level is L1)))
    &&& (target is L2 ==> (exists|k: int| 0 <= k < ins.len() && (#[trigger] ins[k]).level is L1) && (
    forall|k: int|
        0 <= k < ins.len() ==> ((#[trigger] ins[k]).level is L1 || ins[k].level is L2)))
    &&& match inputs_hull(ins) {
        None => false,
        Some((lo, hi)) => {
            &&& covers_interval(ins, lo, hi)
            &&& crate::split::splits_wf(cuts, lo, hi)
            &&& forall|i: int|
                0 <= i < view.len() && (#[trigger] view[i]).level == target
                    && view[i].overlaps_range(lo, hi) ==> ins.contains(view[i])
        },
    }
}

/// The L0 round, spec level: anchor at the oldest active L0 file, absorb
/// every overlapping L0 into a cluster, attach every L1 file the cluster
/// hull touches, and, if the set blows the budget, shed the newest cluster
/// member and start over.
pub open spec fn spec_plan_l0(
    s: Seq<ParquetFile>,
    cfg: CompactorConfig,
    act: Seq<bool>,
    fuel: nat,
) -> SpecAction
    decreases fuel,
{
    if fuel == 0 {
        SpecAction::Noop
    } else {
        match spec_oldest_upto(s, act, CompactionLevel::L0, s.len() as int) {
            None => SpecAction::Noop,
            Some(a) => {
                let incl0 = Seq::new(s.len(), |i: int| i == a);
                let grown = spec_grow(
                    s,
                    act,
                    incl0,
                    s[a].min_time as int,
                    s[a].max_time as int,
                    s.len(),
                );
                let (cl, lo, hi) = grown;
                let with_l1 = spec_attach(s, cl, CompactionLevel::L1, lo, hi, s.len() as int);
                let total = spec_mask_sum(s, with_l1, s.len() as int);
                let cnt = spec_mask_count(s, with_l1, s.len() as int);
                if total <= cfg.max_input_bytes_per_round && cnt
                    <= cfg.max_num_files_per_plan as int {
                    match spec_mask_hull(s, with_l1, s.len() as int) {
                        None => SpecAction::Noop,
                        Some((flo, fhi)) => SpecAction::Compact {
                            inputs: mask_seq(s, with_l1, s.len() as int),
                            splits: crate::split::spec_split_times(flo, fhi, total, cfg, cnt),
                            target: CompactionLevel::L1,
                        },
                    }
                } else {
                    match spec_newest_included(s, cl, s.len() as int) {
                        None => SpecAction::Noop,
                        Some(w) => spec_plan_l0(s, cfg, act.update(w, false), (fuel - 1) as nat),
                    }
                }
            },
        }
    }
}

/// Executable twin of `spec_plan_l0`.
fn plan_l0(files: &Vec<ParquetFile>, cfg: &CompactorConfig, act: Vec<bool>, fuel: usize) -> (r:
    Action)
    requires
        act@.len() == files@.len(),
        crate::view::all_wf(files@),
        ids_unique(files@),
        crate::view::level_nonoverlapping(files@, CompactionLevel::L1),
        cfg.wf(),
        fuel >= 1 + count_true(act@),
    ensures
        r.view_action() == spec_plan_l0(files@, *cfg, act@, fuel as nat),
        match r {
            Action::CompactAndSplit { inputs, split_times, target_level } => {
                &&& compact_action_sound(files@, *cfg, inputs@, split_times@, target_level)
                &&& target_level is L1
            },
            Action::Noop => true,
            Action::Abort { .. } => false,
        },
    decreases fuel,
{
    proof {
        lemma_count_true_le_len(act@);
    }
    let n = files.len();
    match oldest_upto(files, &act, CompactionLevel::L0, n) {
        None => Action::Noop,
        Some(a) => {
            let anchor = files[a];
            let incl0 = single_mask(n, a);
            let ghost incl0_view = incl0@;
            proof {
                assert(anchor.wf());
                assert forall|t: int|
                    anchor.min_time as int <= t <= anchor.max_time as int implies #[trigger]
                mask_covered(files@, incl0_view, t) by {
                    assert(incl0_view[a as int] && files@[a as int].covers(t));
                }
            }
            let grown = grow_cluster(files, &act, incl0, anchor.min_time, anchor.max_time, n);
            let (cl, lo, hi) = grown;
            let ghost cl_view = cl@;
            let newest_opt = newest_included(files, &cl, n);
            let with_l1 = attach_level(files, cl, CompactionLevel::L1, lo, hi, n);
            let total = mask_sum(files, &with_l1, n);
            let cnt = mask_count(files, &with_l1, n);
            if total <= cfg.max_input_bytes_per_round as u128 && cnt <= cfg.max_num_files_per_plan {
                proof {
                    assert(with_l1@[a as int]);
                    lemma_mask_hull_facts(files@, with_l1@, n as int);
                }
                match mask_hull(files, &with_l1, n) {
                    None => Action::Noop,
                    Some((flo, fhi)) => {
                        let inputs = collect_mask(files, &with_l1, n);
                        proof {
                            lemma_mask_sum_lower(files@, with_l1@, n as int, a as int);
                            lemma_mask_seq_sum(files@, with_l1@, n as int);
                            lemma_mask_seq_len(files@, with_l1@, n as int);
                            lemma_mask_seq_ids_unique(files@, with_l1@, n as int);
                            lemma_mask_hull_seq(files@, with_l1@, n as int);
                            // the hull stays inside the supported window
                            let wa = choose|wa: int|
                                0 <= wa < n && with_l1@[wa] && (#[trigger] files@[wa]).min_time
                                    == flo as int;
                            let wb = choose|wb: int|
                                0 <= wb < n && with_l1@[wb] && (#[trigger] files@[wb]).max_time
                                    == fhi as int;
                            assert(files@[wa].wf() && files@[wb].wf());
                            // every selected file intersects the cluster core
                            assert forall|i: int| 0 <= i < n && with_l1@[i] implies (
                            #[trigger] files@[i]).min_time <= hi && lo <= files@[i].max_time by {
                                assert(files@[i].wf());
                                if !cl_view[i] {
                                    assert(files@[i].overlaps_range(lo as int, hi as int));
                                }
                            }
                            // core coverage survives widening the mask
                            assert forall|t: int| lo as int <= t <= hi as int implies #[trigger]
                            mask_covered(files@, with_l1@, t) by {
                                assert(mask_covered(files@, cl_view, t));
                                let k = choose|k: int|
                                    0 <= k < files@.len() && cl_view[k] && (
                                    #[trigger] files@[k]).covers(t);
                                assert(with_l1@[k] && files@[k].covers(t));
                            }
                            lemma_cover_hull(files@, with_l1@, lo as int, hi as int);
                            lemma_closure(files@, with_l1@, CompactionLevel::L1, lo as int,
                                hi as int);
                            // provenance: inputs are view files, at level L0 or L1
                            assert forall|k: int| 0 <= k < inputs@.len() implies files@.contains(
                                #[trigger] inputs@[k],
                            ) && ((#[trigger] inputs@[k]).level is L0 || inputs@[k].level
                                is L1) by {
                                lemma_mask_seq_provenance(files@, with_l1@, n as int, k);
                                let j = choose|j: int|
                                    0 <= j < n && with_l1@[j] && #[trigger] mask_seq(
                                        files@,
                                        with_l1@,
                                        n as int,
                                    )[k] == files@[j];
                                assert(files@[j] == files@.index(j));
                                if !cl_view[j] {
                                    assert(files@[j].level is L1);
                                } else if !incl0_view[j] {
                                    assert(files@[j].level is L0);
                                } else {
                                    assert(j == a as int);
                                }
                            }
                            lemma_mask_seq_contains(files@, with_l1@, n as int, a as int);
                            assert(inputs@.contains(files@[a as int]));
                            let ka = choose|ka: int|
                                0 <= ka < inputs@.len() && inputs@[ka] == files@[a as int];
                            assert(inputs@[ka].level is L0);
                        }
                        let split_times = crate::split::compute_split_times(
                            flo,
                            fhi,
                            total as u64,
                            cfg,
                            cnt,
                        );
                        Action::CompactAndSplit {
                            inputs,
                            split_times,
                            target_level: CompactionLevel::L1,
                        }
                    },
                }
            } else {
                match newest_opt {
                    None => Action::Noop,
                    Some(w) => {
                        proof {
                            // the shed file was active, so deactivating it
                            // strictly shrinks the active set
                            if !incl0_view[w as int] {
                                assert(act@[w as int]);
                            } else {
                                assert(w == a);
                            }
                            let act2 = act@.update(w as int, false);
                            assert(act2.update(w as int, true) =~= act@);
                            lemma_count_true_update(act2, w as int);
                        }
                        let mut act2 = act;
                        act2.set(w, false);
                        plan_l0(files, cfg, act2, fuel - 1)
                    },
                }
            }
        },
    }
}

/// The L1 promotion round, spec level: anchor at the oldest L1 file, extend
/// the run rightwards over adjacent L1 files (up to `cap` members), attach
/// every L2 file the run hull touches, and retry with a shorter run when the
/// set blows the budget.
pub open spec fn spec_plan_l1(s: Seq<ParquetFile>, cfg: CompactorConfig, cap: int) -> SpecAction
    decreases cap,
{
    if cap <= 0 {
        SpecAction::Noop
    } else {
        match spec_oldest_upto(
            s,
            Seq::new(s.len(), |i: int| true),
            CompactionLevel::L1,
            s.len() as int,
        ) {
            None => SpecAction::Noop,
            Some(a) => {
                let m0 = Seq::new(s.len(), |i: int| i == a);
                let run = spec_extend_run(s, m0, a, 1, cap, s.len());
                let (rm, last) = run;
                let with_l2 = spec_attach(
                    s,
                    rm,
                    CompactionLevel::L2,
                    s[a].min_time as int,
                    s[last].max_time as int,
                    s.len() as int,
                );
                let total = spec_mask_sum(s, with_l2, s.len() as int);
                let cnt = spec_mask_count(s, with_l2, s.len() as int);
                if total <= cfg.max_input_bytes_per_round && cnt
                    <= cfg.max_num_files_per_plan as int {
                    match spec_mask_hull(s, with_l2, s.len() as int) {
                        None => SpecAction::Noop,
                        Some((flo, fhi)) => SpecAction::Compact {
                            inputs: mask_seq(s, with_l2, s.len() as int),
                            splits: crate::split::spec_split_times(flo, fhi, total, cfg, cnt),
                            target: CompactionLevel::L2,
                        },
                    }
                } else {
                    spec_plan_l1(s, cfg, cap - 1)
                }
            },
        }
    }
}

/// Executable twin of `spec_plan_l1`.
fn plan_l1(files: &Vec<ParquetFile>, cfg: &CompactorConfig, cap: usize) -> (r: Action)
    requires
        crate::view::all_wf(files@),
        ids_unique(files@),
        crate::view::level_nonoverlapping(files@, CompactionLevel::L2),
        cfg.wf(),
    ensures
        r.view_action() == spec_plan_l1(files@, *cfg, cap as int),
        match r {
            Action::CompactAndSplit { inputs, split_times, target_level } => {
                &&& compact_action_sound(files@, *cfg, inputs@, split_times@, target_level)
                &&& target_level is L2
            },
            Action::Noop => true,
            Action::Abort { .. } => false,
        },
    decreases cap,
{
    let n = files.len();
    if cap == 0 {
        return Action::Noop;
    }
    let full = full_mask(n);
    match oldest_upto(files, &full, CompactionLevel::L1, n) {
        None => Action::Noop,
        Some(a) => {
            let anchor = files[a];
            let m0 = single_mask(n, a);
            let ghost m0_view = m0@;
            proof {
                assert(anchor.wf());
                assert forall|t: int|
                    anchor.min_time as int <= t <= anchor.max_time as int implies #[trigger]
                mask_covered(files@, m0_view, t) by {
                    assert(m0_view[a as int] && files@[a as int].covers(t));
                }
            }
            let run = extend_run(files, m0, a, 1, cap, n, anchor.min_time);
            let (rm, last) = run;
            let ghost rm_view = rm@;
            let lo = anchor.min_time;
            let hi = files[last].max_time;
            let with_l2 = attach_level(files, rm, CompactionLevel::L2, lo, hi, n);
            let total = mask_sum(files, &with_l2, n);
            let cnt = mask_count(files, &with_l2, n);
            if total <= cfg.max_input_bytes_per_round as u128 && cnt <= cfg.max_num_files_per_plan {
                proof {
                    assert(with_l2@[a as int]);
                    lemma_mask_hull_facts(files@, with_l2@, n as int);
                }
                match mask_hull(files, &with_l2, n) {
                    None => Action::Noop,
                    Some((flo, fhi)) => {
                        let inputs = collect_mask(files, &with_l2, n);
                        proof {
                            lemma_mask_sum_lower(files@, with_l2@, n as int, a as int);
                            lemma_mask_seq_sum(files@, with_l2@, n as int);
                            lemma_mask_seq_len(files@, with_l2@, n as int);
                            lemma_mask_seq_ids_unique(files@, with_l2@, n as int);
                            lemma_mask_hull_seq(files@, with_l2@, n as int);
                            let wa = choose|wa: int|
                                0 <= wa < n && with_l2@[wa] && (#[trigger] files@[wa]).min_time
                                    == flo as int;
                            let wb = choose|wb: int|
                                0 <= wb < n && with_l2@[wb] && (#[trigger] files@[wb]).max_time
                                    == fhi as int;
                            assert(files@[wa].wf() && files@[wb].wf());
                            // every selected file intersects the run core
                            assert forall|i: int| 0 <= i < n && with_l2@[i] implies (
                            #[trigger] files@[i]).min_time <= hi && lo <= files@[i].max_time by {
                                assert(files@[i].wf());
                                if !rm_view[i] {
                                    assert(files@[i].overlaps_range(lo as int, hi as int));
                                }
                            }
                            // core coverage survives widening the mask
                            assert forall|t: int| lo as int <= t <= hi as int implies #[trigger]
                            mask_covered(files@, with_l2@, t) by {
                                assert(mask_covered(files@, rm_view, t));
                                let k = choose|k: int|
                                    0 <= k < files@.len() && rm_view[k] && (
                                    #[trigger] files@[k]).covers(t);
                                assert(with_l2@[k] && files@[k].covers(t));
                            }
                            lemma_cover_hull(files@, with_l2@, lo as int, hi as int);
                            lemma_closure(files@, with_l2@, CompactionLevel::L2, lo as int,
                                hi as int);
                            // provenance: inputs are view files, at level L1 or L2
                            assert forall|k: int| 0 <= k < inputs@.len() implies files@.contains(
                                #[trigger] inputs@[k],
                            ) && ((#[trigger] inputs@[k]).level is L1 || inputs@[k].level
                                is L2) by {
                                lemma_mask_seq_provenance(files@, with_l2@, n as int, k);
                                let j = choose|j: int|
                                    0 <= j < n && with_l2@[j] && #[trigger] mask_seq(
                                        files@,
                                        with_l2@,
                                        n as int,
                                    )[k] == files@[j];
                                assert(files@[j] == files@.index(j));
                                if !rm_view[j] {
                                    assert(files@[j].level is L2);
                                } else if !m0_view[j] {
                                    assert(files@[j].level is L1);
                                } else {
                                    assert(j == a as int);
                                }
                            }
                            lemma_mask_seq_contains(files@, with_l2@, n as int, a as int);
                            assert(inputs@.contains(files@[a as int]));
                            let ka = choose|ka: int|
                                0 <= ka < inputs@.len() && inputs@[ka] == files@[a as int];
                            assert(inputs@[ka].level is L1);
                        }
                        let split_times = crate::split::compute_split_times(
                            flo,
                            fhi,
                            total as u64,
                            cfg,
                            cnt,
                        );
                        Action::CompactAndSplit {
                            inputs,
                            split_times,
                            target_level: CompactionLevel::L2,
                        }
                    },
                }
            } else {
                plan_l1(files, cfg, cap - 1)
            }
        },
    }
}

/// One round of planning, spec level. Priority order: schema guard, then L0
/// clustering, then L1 promotion once the L1 tier is crowded or heavy, else
/// nothing to do.
pub open spec fn spec_plan_round(
    s: Seq<ParquetFile>,
    column_count: int,
    cfg: CompactorConfig,
) -> SpecAction {
    if column_count > cfg.max_num_columns_per_table as int {
        SpecAction::Abort { reason: AbortReason::TooManyColumns }
    } else {
        let full = Seq::new(s.len(), |i: int| true);
        if spec_oldest_upto(s, full, CompactionLevel::L0, s.len() as int) is Some {
            spec_plan_l0(s, cfg, full, (s.len() + 1) as nat)
        } else {
            let l1 = Seq::new(s.len(), |i: int| s[i].level == CompactionLevel::L1);
            if spec_mask_count(s, l1, s.len() as int) >= cfg.min_num_l1_files_to_compact as int
                || spec_mask_sum(s, l1, s.len() as int) >= cfg.max_desired_file_size_bytes as int {
                spec_plan_l1(
                    s,
                    cfg,
                    if cfg.max_num_files_per_plan <= s.len() {
                        cfg.max_num_files_per_plan as int
                    } else {
                        s.len() as int
                    },
                )
            } else {
                SpecAction::Noop
            }
        }
    }
}

/// Plans the next action for one partition.
///
/// The result is exactly `spec_plan_round` of the snapshot — a mathematical
/// function of the inputs, which makes the planner deterministic — and any
/// `CompactAndSplit` it emits satisfies `compact_action_sound`. A round that
/// targets L2 is only ever planned when the partition holds no L0 file.
pub fn plan_round(v: &crate::view::PartitionView, cfg: &CompactorConfig) -> (r: Action)
    requires
        v.tidy(),
        cfg.wf(),
        v.files@.len() < usize::MAX,
    ensures
        r.view_action() == spec_plan_round(v.files@, v.column_count as int, *cfg),
        match r {
            Action::CompactAndSplit { inputs, split_times, target_level } => {
                &&& compact_action_sound(v.files@, *cfg, inputs@, split_times@, target_level)
                &&& (target_level is L1 || target_level is L2)
                &&& (target_level is L2 ==> forall|i: int|
                    0 <= i < v.files@.len() ==> !((#[trigger] v.files@[i]).level is L0))
            },
            Action::Noop => true,
            Action::Abort { reason } => v.column_count > cfg.max_num_columns_per_table,
        },
{
    if v.column_count > cfg.max_num_columns_per_table {
        return Action::Abort { reason: AbortReason::TooManyColumns };
    }
    let n = v.files.len();
    let full = full_mask(n);
    let has_l0 = oldest_upto(&v.files, &full, CompactionLevel::L0, n);
    match has_l0 {
        Some(_) => plan_l0(&v.files, cfg, full, n + 1),
        None => {
            let l1 = make_level_mask(&v.files, CompactionLevel::L1);
            let l1_cnt = mask_count(&v.files, &l1, n);
            let l1_bytes = mask_sum(&v.files, &l1, n);
            if l1_cnt >= cfg.min_num_l1_files_to_compact || l1_bytes
                >= cfg.max_desired_file_size_bytes as u128 {
                let cap = if cfg.max_num_files_per_plan <= n {
                    cfg.max_num_files_per_plan
                } else {
                    n
                };
                let r = plan_l1(&v.files, cfg, cap);
                proof {
                    if r is CompactAndSplit {
                        assert forall|i: int| 0 <= i < v.files@.len() implies !((
                        #[trigger] v.files@[i]).level is L0) by {
                            assert(!(full@[i] && v.files@[i].level == CompactionLevel::L0));
                        }
                    }
                }
                r
            } else {
                Action::Noop
            }
        },
    }
}

/// The planner is a pure function of the snapshot: two snapshots holding the
/// same files and column count are planned identically, whatever else they
/// were built from.
pub proof fn lemma_plan_deterministic(
    s1: Seq<ParquetFile>,
    c1: int,
    s2: Seq<ParquetFile>,
    c2: int,
    cfg: CompactorConfig,
)
    requires
        s1 == s2,
        c1 == c2,
    ensures
        spec_plan_round(s1, c1, cfg) == spec_plan_round(s2, c2, cfg),
{
}

} // verus!
