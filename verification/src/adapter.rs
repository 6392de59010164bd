//! Executor adapter model: what a compaction round's outputs look like.
//!
//! Given the chosen inputs and split timestamps, the executor merges the
//! rows and cuts the result at the split points. This module models the
//! outputs' descriptors: their ranges partition the input hull exactly at
//! the cuts, their ingest stamp is the maximum over the inputs, and their
//! sizes follow the uniform-bytes estimate that also guided the cut
//! selection. Sizes are estimates (the executor reports real ones); ranges,
//! levels and stamps are exact.

use vstd::prelude::*;

use crate::files::{CompactionLevel, ParquetFile, MAX_NANO};
use crate::split::splits_wf;
use crate::view::sum_sizes;

verus! {

/// Descriptor of an output file before the catalog has assigned it an id.
#[derive(Clone, Copy, Debug, PartialEq, Eq, Structural)]
pub struct FileParams {
    pub level: CompactionLevel,
    pub min_time: i64,
    pub max_time: i64,
    pub file_size_bytes: u64,
    pub max_l0_created_at: i64,
}

impl FileParams {
    /// Same well-formedness as a catalogued file.
    pub open spec fn wf(self) -> bool {
        &&& -MAX_NANO <= self.min_time <= self.max_time <= MAX_NANO
        &&& self.file_size_bytes > 0
    }
}

/// Greatest ingest stamp among the files.
pub open spec fn spec_max_stamp(s: Seq<ParquetFile>) -> int
    decreases s.len(),
{
    if s.len() == 0 {
        0
    } else {
        let rest = spec_max_stamp(s.drop_last());
        if s.last().max_l0_created_at as int > rest {
            s.last().max_l0_created_at as int
        } else {
            rest
        }
    }
}

/// Executable twin of `spec_max_stamp`.
pub fn max_stamp(files: &Vec<ParquetFile>, n: usize) -> (r: i64)
    requires
        n <= files@.len(),
    ensures
        r as int == spec_max_stamp(files@.take(n as int)),
    decreases n,
{
    if n == 0 {
        0
    } else {
        let rest = max_stamp(files, n - 1);
        proof {
            assert(files@.take(n as int).drop_last() =~= files@.take(n as int - 1));
            assert(files@.take(n as int).last() == files@[n as int - 1]);
        }
        if files[n - 1].max_l0_created_at > rest {
            files[n - 1].max_l0_created_at
        } else {
            rest
        }
    }
}

/// Hull of the first `n` files (least enclosing interval), or `None` for an
/// empty prefix. Executable twin of `planner::inputs_hull`.
pub fn hull_of(files: &Vec<ParquetFile>, n: usize) -> (r: Option<(i64, i64)>)
    requires
        n <= files@.len(),
    ensures
        match r {
            None => crate::planner::inputs_hull(files@.take(n as int)) is None,
            Some((lo, hi)) => crate::planner::inputs_hull(files@.take(n as int)) == Some(
                (lo as int, hi as int),
            ),
        },
    decreases n,
{
    if n == 0 {
        None
    } else {
        let pre = hull_of(files, n - 1);
        proof {
            assert(files@.take(n as int).drop_last() =~= files@.take(n as int - 1));
            assert(files@.take(n as int).last() == files@[n as int - 1]);
        }
        let f = &files[n - 1];
        match pre {
            None => Some((f.min_time, f.max_time)),
            Some((lo, hi)) => Some(
                (
                    if f.min_time < lo {
                        f.min_time
                    } else {
                        lo
                    },
                    if f.max_time > hi {
                        f.max_time
                    } else {
                        hi
                    },
                ),
            ),
        }
    }
}

/// Total bytes of the first `n` files.
pub fn sum_of(files: &Vec<ParquetFile>, n: usize) -> (r: u128)
    requires
        n <= files@.len(),
    ensures
        r == sum_sizes(files@.take(n as int)),
        r <= n * (u64::MAX as int),
    decreases n,
{
    if n == 0 {
        0
    } else {
        let pre = sum_of(files, n - 1);
        proof {
            assert(files@.take(n as int).drop_last() =~= files@.take(n as int - 1));
            assert(files@.take(n as int).last() == files@[n as int - 1]);
            assert((n - 1) * (u64::MAX as int) + (u64::MAX as int) == n * (u64::MAX as int))
                by (nonlinear_arith);
            assert(n * (u64::MAX as int) < u128::MAX) by (nonlinear_arith)
                requires
                    n <= usize::MAX,
            ;
        }
        pre + files[n - 1].file_size_bytes as u128
    }
}

/// Left end of output `j`: the hull's start, or one past the previous cut.
pub open spec fn spec_out_min(lo: int, cuts: Seq<i64>, j: int) -> int {
    if j == 0 {
        lo
    } else {
        cuts[j - 1] + 1
    }
}

/// Right end of output `j`: the cut at `j`, or the hull's end for the tail.
pub open spec fn spec_out_max(hi: int, cuts: Seq<i64>, j: int) -> int {
    if j == cuts.len() {
        hi
    } else {
        cuts[j] as int
    }
}

/// Cumulative-estimate offset of output `j`'s left boundary: zero for the
/// head, the cut before `j` otherwise.
pub open spec fn spec_cut_lo(lo: int, cuts: Seq<i64>, j: int) -> int {
    if j == 0 {
        0
    } else {
        cuts[j - 1] - lo
    }
}

/// Estimated size of output `j` under the uniform-bytes model: the
/// difference of the cumulative estimate at the output's two boundaries,
/// floored at one byte. A round that is not split carries all bytes.
pub open spec fn spec_out_size(lo: int, hi: int, total: int, cuts: Seq<i64>, j: int) -> int {
    if cuts.len() == 0 {
        total
    } else {
        let d = total * (spec_out_max(hi, cuts, j) - lo) / (hi - lo) - total * spec_cut_lo(
            lo,
            cuts,
            j,
        ) / (hi - lo);
        if d < 1 {
            1
        } else {
            d
        }
    }
}

/// Descriptor of output `j` of a round over hull `[lo, hi]`.
pub open spec fn spec_output_at(
    lo: int,
    hi: int,
    total: int,
    stamp: i64,
    target: CompactionLevel,
    cuts: Seq<i64>,
    j: int,
) -> FileParams {
    FileParams {
        level: target,
        min_time: spec_out_min(lo, cuts, j) as i64,
        max_time: spec_out_max(hi, cuts, j) as i64,
        file_size_bytes: spec_out_size(lo, hi, total, cuts, j) as u64,
        max_l0_created_at: stamp,
    }
}

/// The full list of outputs: one per cut, plus the tail.
pub open spec fn spec_outputs(
    lo: int,
    hi: int,
    total: int,
    stamp: i64,
    target: CompactionLevel,
    cuts: Seq<i64>,
) -> Seq<FileParams> {
    Seq::new((cuts.len() + 1) as nat, |j: int| spec_output_at(lo, hi, total, stamp, target, cuts, j))
}

/// Materialises a `CompactAndSplit` action into the descriptors of its
/// outputs. The ranges are consecutive — each output starts one nanosecond
/// after its predecessor ends — so together they cover the input hull
/// exactly, and no two of them overlap.
/// Builds output `j` of a round over hull `[lo, hi]` holding `total` bytes.
#[verifier::rlimit(80)]
fn make_output(
    lo: i64,
    hi: i64,
    total: u128,
    stamp: i64,
    target: CompactionLevel,
    cuts: &Vec<i64>,
    j: usize,
) -> (out: FileParams)
    requires
        j <= cuts@.len(),
        -MAX_NANO <= lo as int <= hi as int <= MAX_NANO,
        splits_wf(cuts@, lo as int, hi as int),
        0 < total as int <= crate::config::MAX_SIZE_TARGET,
    ensures
        out == spec_output_at(lo as int, hi as int, total as int, stamp, target, cuts@, j as int),
        out.wf(),
        out.level == target,
        out.max_l0_created_at == stamp,
        out.min_time as int == spec_out_min(lo as int, cuts@, j as int),
        out.max_time as int == spec_out_max(hi as int, cuts@, j as int),
{
    let ghost gl = lo as int;
    let ghost gh = hi as int;
    let ghost gt = total as int;
    let k = cuts.len();
    let omin: i64 = if j == 0 {
        lo
    } else {
        cuts[j - 1] + 1
    };
    let omax: i64 = if j == k {
        hi
    } else {
        cuts[j]
    };
    proof {
        if j > 0 {
            assert(gl <= cuts@[j - 1] < gh);
        }
        if j < k {
            assert(gl <= cuts@[j as int] < gh);
            if j > 0 {
                assert(cuts@[j - 1] < cuts@[j as int]);
            }
        }
        assert(gl <= omin as int <= omax as int <= gh);
    }
    let osize: u64 = if k == 0 {
        total as u64
    } else {
        proof {
            let rr = gh - gl;
            let xa = omax as int - gl;
            let xb = spec_cut_lo(gl, cuts@, j as int);
            assert(0 < rr) by {
                assert(gl <= cuts@[0] < gh);
            }
            assert(0 <= xb <= xa <= rr);
            assert(0 <= gt * xb <= gt * xa <= gt * rr < 0x8000_0000_0000_0000_0000_0000_0000_0000)
                by (nonlinear_arith)
                requires
                    0 < gt <= crate::config::MAX_SIZE_TARGET,
                    0 <= xb <= xa <= rr,
                    rr <= 2 * MAX_NANO,
            ;
            assert(gt * xb / rr <= gt * xa / rr <= gt * rr / rr == gt) by (nonlinear_arith)
                requires
                    0 <= gt * xb <= gt * xa <= gt * rr,
                    0 < rr,
                    0 < gt,
            ;
        }
        let rr = (hi - lo) as u128;
        let xb64: u128 = if j == 0 {
            0
        } else {
            (cuts[j - 1] - lo) as u128
        };
        let da: u128 = (total * ((omax - lo) as u128)) / rr;
        let db: u128 = (total * xb64) / rr;
        let d = da - db;
        proof {
            assert(da >= db) by (nonlinear_arith)
                requires
                    da == gt * (omax as int - gl) / (gh - gl),
                    db == gt * spec_cut_lo(gl, cuts@, j as int) / (gh - gl),
                    gt * spec_cut_lo(gl, cuts@, j as int) <= gt * (omax as int - gl),
                    0 < gh - gl,
            ;
        }
        if d < 1 {
            1
        } else {
            d as u64
        }
    };
    FileParams {
        level: target,
        min_time: omin,
        max_time: omax,
        file_size_bytes: osize,
        max_l0_created_at: stamp,
    }
}

#[verifier::rlimit(80)]
pub fn simulate_outputs(
    inputs: &Vec<ParquetFile>,
    cuts: &Vec<i64>,
    target: CompactionLevel,
) -> (r: Vec<FileParams>)
    requires
        inputs@.len() >= 1,
        crate::view::all_wf(inputs@),
        0 < sum_sizes(inputs@) <= crate::config::MAX_SIZE_TARGET,
        crate::planner::inputs_hull(inputs@) is Some,
        splits_wf(
            cuts@,
            crate::planner::inputs_hull(inputs@)->Some_0.0,
            crate::planner::inputs_hull(inputs@)->Some_0.1,
        ),
    ensures
        ({
            let (lo, hi) = crate::planner::inputs_hull(inputs@)->Some_0;
            let total = sum_sizes(inputs@);
            let stamp = spec_max_stamp(inputs@);
            &&& r@ == spec_outputs(lo, hi, total, stamp as i64, target, cuts@)
            &&& r@.len() == cuts@.len() + 1
            &&& forall|j: int| 0 <= j < r@.len() ==> (#[trigger] r@[j]).wf()
            &&& forall|j: int| 0 <= j < r@.len() ==> (#[trigger] r@[j]).level == target
            &&& forall|j: int| 0 <= j < r@.len() ==> (#[trigger] r@[j]).max_l0_created_at == stamp
            &&& r@[0].min_time == lo
            &&& r@[r@.len() - 1].max_time == hi
            &&& forall|j: int|
                1 <= j < r@.len() ==> (#[trigger] r@[j]).min_time == r@[j - 1].max_time + 1
        }),
{
    let n = inputs.len();
    let hull = hull_of(inputs, n);
    proof {
        assert(inputs@.take(n as int) =~= inputs@);
    }
    let (lo, hi) = match hull {
        Some(p) => p,
        None => {
            proof {
                assert(false);
            }
            (0, 0)
        },
    };
    let total = sum_of(inputs, n);
    let stamp = max_stamp(inputs, n);
    proof {
        lemma_hull_within(inputs@);
    }
    let k = cuts.len();
    let mut r: Vec<FileParams> = Vec::new();
    let mut j: usize = 0;
    let ghost gl = lo as int;
    let ghost gh = hi as int;
    let ghost gt = sum_sizes(inputs@);
    while j < k
        invariant
            j <= k,
            k == cuts@.len(),
            gl == lo as int,
            gh == hi as int,
            gt == total as int,
            0 < gt <= crate::config::MAX_SIZE_TARGET,
            -MAX_NANO <= lo as int <= hi as int <= MAX_NANO,
            splits_wf(cuts@, gl, gh),
            r@ =~= Seq::new(j as nat, |p: int| spec_output_at(gl, gh, gt, stamp, target, cuts@, p)),
            forall|p: int|
                0 <= p < j ==> (#[trigger] r@[p]).wf() && r@[p].level == target
                    && r@[p].max_l0_created_at == stamp,
            forall|p: int| 1 <= p < j ==> (#[trigger] r@[p]).min_time == r@[p - 1].max_time + 1,
            j > 0 ==> r@[0].min_time == lo,
        decreases k - j,
    {
        let out = make_output(lo, hi, total, stamp, target, cuts, j);
        proof {
            assert(r@.push(out) =~= Seq::new(
                (j + 1) as nat,
                |p: int| spec_output_at(gl, gh, gt, stamp, target, cuts@, p),
            ));
        }
        r.push(out);
        j = j + 1;
    }
    let tail = make_output(lo, hi, total, stamp, target, cuts, k);
    proof {
        assert(r@.push(tail) =~= Seq::new(
            (k + 1) as nat,
            |p: int| spec_output_at(gl, gh, gt, stamp, target, cuts@, p),
        ));
    }
    r.push(tail);
    proof {
        assert(r@ =~= spec_outputs(gl, gh, gt, stamp, target, cuts@));
    }
    r
}

/// A non-empty well-formed sequence keeps its hull inside the supported
/// window.
proof fn lemma_hull_within(s: Seq<ParquetFile>)
    requires
        s.len() >= 1,
        crate::view::all_wf(s),
    ensures
        match crate::planner::inputs_hull(s) {
            None => false,
            Some((lo, hi)) => -MAX_NANO <= lo <= hi <= MAX_NANO,
        },
    decreases s.len(),
{
    if s.len() == 1 {
        assert(s[0].wf());
    } else {
        lemma_hull_within(s.drop_last());
        assert(s.last().wf());
    }
}

} // verus!
