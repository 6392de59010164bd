//! Split-time selection: where a round's output is cut so that each piece
//! stays near the configured target size, assuming bytes are spread uniformly
//! over the combined time range.

use vstd::prelude::*;

use crate::config::CompactorConfig;
use crate::files::MAX_NANO;

verus! {

/// Number of outputs a round of `total` bytes aims for: `ceil(total / cap)`.
pub open spec fn spec_num_outputs(total: int, cap: int) -> int {
    (total + cap - 1) / cap
}

/// Interpolated cut point `j` of `k`: the timestamp where cumulative bytes
/// (spread uniformly over `[lo, hi]`) reach `j × cap`.
pub open spec fn spec_cut_at(lo: int, hi: int, total: int, cap: int, j: int) -> int {
    lo + (hi - lo) * (j * cap) / total
}

/// The cut points `j .. k-1`, keeping only those that strictly advance past
/// `last` (cuts that collapse onto the same nanosecond are merged).
pub open spec fn spec_cut_points(
    lo: int,
    hi: int,
    total: int,
    cap: int,
    k: int,
    j: int,
    last: int,
    acc: Seq<i64>,
) -> Seq<i64>
    decreases k - j,
{
    if j >= k {
        acc
    } else {
        let t = spec_cut_at(lo, hi, total, cap, j);
        if t > last {
            spec_cut_points(lo, hi, total, cap, k, j + 1, t, acc.push(t as i64))
        } else {
            spec_cut_points(lo, hi, total, cap, k, j + 1, last, acc)
        }
    }
}

/// The split timestamps for a round over hull `[lo, hi]` holding `total`
/// input bytes.
///
/// At or below the ceiling a round of two or more files is cut once at the
/// configured percentage of the range — the common "large head, small tail"
/// shape of steady ingest; the planner's rounds always grow from a
/// single-level core, which may have absorbed the upper-level files its
/// hull touches. A lone input passes through whole, and so does a range too
/// narrow to cut strictly inside. Above the ceiling the range is cut where
/// cumulative bytes reach each multiple of the target size.
pub open spec fn spec_split_times(
    lo: int,
    hi: int,
    total: int,
    cfg: CompactorConfig,
    n_inputs: int,
) -> Seq<i64> {
    if total <= cfg.spec_max_compact_size() {
        let cut = lo + (hi - lo) * cfg.split_percentage / 100;
        if n_inputs >= 2 && lo < hi && lo < cut {
            seq![cut as i64]
        } else {
            Seq::empty()
        }
    } else if lo == hi {
        Seq::empty()
    } else {
        spec_cut_points(
            lo,
            hi,
            total,
            cfg.max_desired_file_size_bytes as int,
            spec_num_outputs(total, cfg.max_desired_file_size_bytes as int),
            1,
            lo,
            Seq::empty(),
        )
    }
}

/// `cuts` is strictly increasing and stays strictly inside `(lo, hi)` — so
/// the output ranges `[lo, c_1], [c_1+1, c_2], …, [c_m+1, hi]` are non-empty
/// and partition the hull.
pub open spec fn splits_wf(cuts: Seq<i64>, lo: int, hi: int) -> bool {
    &&& forall|p: int| 0 <= p < cuts.len() ==> lo < #[trigger] cuts[p] < hi
    &&& forall|p: int, q: int| 0 <= p < q < cuts.len() ==> #[trigger] cuts[p] < #[trigger] cuts[q]
}

/// Executable twin of `spec_split_times`.
pub fn compute_split_times(
    lo: i64,
    hi: i64,
    total: u64,
    cfg: &CompactorConfig,
    n_inputs: usize,
) -> (r: Vec<i64>)
    requires
        cfg.wf(),
        -MAX_NANO <= lo <= hi <= MAX_NANO,
        0 < total <= crate::config::MAX_SIZE_TARGET,
    ensures
        r@ == spec_split_times(lo as int, hi as int, total as u64 as int, *cfg, n_inputs as int),
        splits_wf(r@, lo as int, hi as int),
        r@.len() <= total,
{
    let ceiling = cfg.max_compact_size();
    if total <= ceiling {
        if n_inputs >= 2 && lo < hi {
            proof {
                let rr = hi as int - lo as int;
                let p = cfg.split_percentage as int;
                assert(0 <= rr * p <= rr * 99 < 0x8000_0000_0000_0000_0000) by (nonlinear_arith)
                    requires
                        1 <= rr <= 2 * MAX_NANO,
                        1 <= p <= 99,
                ;
                assert(0 <= rr * p / 100 < rr) by (nonlinear_arith)
                    requires
                        1 <= rr,
                        1 <= p <= 99,
                ;
            }
            let r128: i128 = (hi as i128 - lo as i128) * (cfg.split_percentage as i128) / 100;
            let t: i64 = lo + (r128 as i64);
            if t > lo {
                let mut v: Vec<i64> = Vec::new();
                v.push(t);
                proof {
                    assert(v@ =~= seq![(lo as int + (hi as int - lo as int) * cfg.split_percentage
                        / 100) as i64]);
                }
                v
            } else {
                Vec::new()
            }
        } else {
            Vec::new()
        }
    } else if lo == hi {
        Vec::new()
    } else {
        let cap = cfg.max_desired_file_size_bytes;
        let k: u64 = (total + cap - 1) / cap;
        let ghost fin = spec_cut_points(
            lo as int,
            hi as int,
            total as int,
            cap as int,
            k as int,
            1,
            lo as int,
            Seq::empty(),
        );
        let mut acc: Vec<i64> = Vec::new();
        let mut last: i64 = lo;
        let mut j: u64 = 1;
        proof {
            assert((k - 1) * cap < total) by (nonlinear_arith)
                requires
                    k == (total + cap - 1) as int / cap as int,
                    0 < cap,
                    0 < total,
            ;
            assert(k <= total) by (nonlinear_arith)
                requires
                    k == (total + cap - 1) as int / cap as int,
                    0 < cap,
                    0 < total,
            ;
        }
        while j < k
            invariant
                1 <= j <= k || (k < 1 && j == 1),
                cfg.wf(),
                -MAX_NANO <= lo < hi <= MAX_NANO,
                0 < total <= crate::config::MAX_SIZE_TARGET,
                cap == cfg.max_desired_file_size_bytes,
                k as int == (total as int + cap as int - 1) / (cap as int),
                (k - 1) * cap < total,
                lo <= last < hi,
                k <= total,
                acc@.len() <= j - 1,
                acc@.len() == 0 ==> last == lo,
                acc@.len() > 0 ==> last == acc@.last(),
                splits_wf(acc@, lo as int, hi as int),
                spec_cut_points(
                    lo as int,
                    hi as int,
                    total as int,
                    cap as int,
                    k as int,
                    j as int,
                    last as int,
                    acc@,
                ) == fin,
            decreases k - j,
        {
            proof {
                let rr = hi as int - lo as int;
                let jc = j as int * (cap as int);
                assert(0 <= j as int * (cap as int) <= (k as int - 1) * (cap as int))
                    by (nonlinear_arith)
                    requires
                        1 <= j as int <= k as int - 1,
                        0 < cap as int,
                ;
                assert(rr * jc < 0x8000_0000_0000_0000_0000_0000_0000_0000) by (nonlinear_arith)
                    requires
                        0 < rr <= MAX_NANO * 2,
                        0 <= jc <= crate::config::MAX_SIZE_TARGET,
                ;
                assert(0 <= rr * jc / (total as int) < rr) by (nonlinear_arith)
                    requires
                        0 < rr,
                        0 <= jc < total as int,
                        0 < total,
                ;
            }
            let jc128: u128 = (j as u128) * (cap as u128);
            let rr64: i64 = hi - lo;
            let num: u128 = (rr64 as u128) * jc128;
            let t128: u128 = num / (total as u128);
            let t: i64 = lo + (t128 as i64);
            proof {
                assert(t as int == spec_cut_at(lo as int, hi as int, total as int, cap as int,
                    j as int));
            }
            if t > last {
                acc.push(t);
                last = t;
            }
            j = j + 1;
        }
        acc
    }
}

} // verus!
