//! The round invariants, proved once and for all over the commit result:
//! upper-level non-overlap is preserved, covered time is conserved, and
//! every committed round strictly shrinks the partition's backlog measure.

use vstd::prelude::*;

use crate::adapter::FileParams;
use crate::commit::{created_seq, ids_of, keep_mask, survivors};
use crate::config::CompactorConfig;
use crate::files::{CompactionLevel, ParquetFile, MAX_NANO};
use crate::planner::{compact_action_sound, inputs_hull, mask_seq};
use crate::view::{all_wf, covered, ids_unique, level_count, level_nonoverlapping};

verus! {

/// The outputs of a round form an adjacent chain over `[lo, hi]`: the head
/// starts at `lo`, the tail ends at `hi`, each output starts right after its
/// predecessor, and all are well formed at the target level.
pub open spec fn output_chain(
    outs: Seq<FileParams>,
    lo: int,
    hi: int,
    target: CompactionLevel,
) -> bool {
    &&& outs.len() >= 1
    &&& forall|j: int| 0 <= j < outs.len() ==> (#[trigger] outs[j]).wf()
    &&& forall|j: int| 0 <= j < outs.len() ==> (#[trigger] outs[j]).level == target
    &&& outs[0].min_time == lo
    &&& outs[outs.len() - 1].max_time == hi
    &&& forall|j: int| 1 <= j < outs.len() ==> (#[trigger] outs[j]).min_time == outs[j - 1].max_time + 1
}

/// Along a chain, later outputs start strictly after earlier ones end.
proof fn lemma_chain_ordered(outs: Seq<FileParams>, lo: int, hi: int, target: CompactionLevel, p: int, q: int)
    requires
        output_chain(outs, lo, hi, target),
        0 <= p < q < outs.len(),
    ensures
        outs[p].max_time < outs[q].min_time,
    decreases q - p,
{
    if q == p + 1 {
    } else {
        lemma_chain_ordered(outs, lo, hi, target, p, q - 1);
    }
}

/// Every chain output stays inside `[lo, hi]`.
proof fn lemma_chain_bounds(outs: Seq<FileParams>, lo: int, hi: int, target: CompactionLevel, j: int)
    requires
        output_chain(outs, lo, hi, target),
        0 <= j < outs.len(),
    ensures
        lo <= outs[j].min_time,
        outs[j].max_time <= hi,
{
    if j > 0 {
        lemma_chain_min_ge(outs, lo, hi, target, j);
    }
    if j < outs.len() - 1 {
        lemma_chain_ordered(outs, lo, hi, target, j, outs.len() - 1);
    }
}

/// The chain's left ends never precede `lo`.
proof fn lemma_chain_min_ge(outs: Seq<FileParams>, lo: int, hi: int, target: CompactionLevel, j: int)
    requires
        output_chain(outs, lo, hi, target),
        0 <= j < outs.len(),
    ensures
        lo <= outs[j].min_time,
    decreases j,
{
    if j > 0 {
        lemma_chain_min_ge(outs, lo, hi, target, j - 1);
    }
}

/// From any link whose left end has been passed, the chain reaches `t`.
proof fn lemma_chain_covers_from(
    outs: Seq<FileParams>,
    lo: int,
    hi: int,
    target: CompactionLevel,
    t: int,
    j: int,
)
    requires
        output_chain(outs, lo, hi, target),
        0 <= j < outs.len(),
        outs[j].min_time <= t <= hi,
    ensures
        exists|p: int|
            0 <= p < outs.len() && (#[trigger] outs[p]).min_time <= t && t <= outs[p].max_time,
    decreases outs.len() - j,
{
    if t <= outs[j].max_time {
        assert(outs[j].min_time <= t && t <= outs[j].max_time);
    } else {
        assert(j < outs.len() - 1) by {
            if j == outs.len() - 1 {
                assert(outs[j].max_time == hi);
            }
        }
        assert(outs[j + 1].min_time == outs[j].max_time + 1 <= t);
        lemma_chain_covers_from(outs, lo, hi, target, t, j + 1);
    }
}

/// The chain covers every instant of `[lo, hi]`.
proof fn lemma_chain_covers(outs: Seq<FileParams>, lo: int, hi: int, target: CompactionLevel, t: int)
    requires
        output_chain(outs, lo, hi, target),
        lo <= t <= hi,
    ensures
        exists|j: int|
            0 <= j < outs.len() && (#[trigger] outs[j]).min_time <= t && t <= outs[j].max_time,
{
    lemma_chain_covers_from(outs, lo, hi, target, t, 0);
}

/// Every input file lies inside the input hull, which is attained at both
/// ends.
pub proof fn lemma_inputs_hull_facts(s: Seq<ParquetFile>)
    ensures
        match inputs_hull(s) {
            None => s.len() == 0,
            Some((lo, hi)) => {
                &&& forall|k: int|
                    0 <= k < s.len() ==> lo <= (#[trigger] s[k]).min_time && s[k].max_time <= hi
                &&& exists|a: int| 0 <= a < s.len() && (#[trigger] s[a]).min_time == lo
                &&& exists|b: int| 0 <= b < s.len() && (#[trigger] s[b]).max_time == hi
            },
        },
    decreases s.len(),
{
    if s.len() > 0 {
        lemma_inputs_hull_facts(s.drop_last());
        let last = s.last();
        assert(s[s.len() - 1] == last);
        match inputs_hull(s.drop_last()) {
            None => {
                assert(s.len() == 1);
            },
            Some((plo, phi)) => {
                let (lo, hi) = inputs_hull(s)->Some_0;
                assert forall|k: int| 0 <= k < s.len() implies lo <= (#[trigger] s[k]).min_time
                    && s[k].max_time <= hi by {
                    if k < s.len() - 1 {
                        assert(s.drop_last()[k] == s[k]);
                    }
                }
                if lo == plo {
                    let a = choose|a: int|
                        0 <= a < s.drop_last().len() && (#[trigger] s.drop_last()[a]).min_time
                            == plo;
                    assert(s[a].min_time == lo);
                }
                if hi == phi {
                    let b = choose|b: int|
                        0 <= b < s.drop_last().len() && (#[trigger] s.drop_last()[b]).max_time
                            == phi;
                    assert(s[b].max_time == hi);
                }
            },
        }
    }
}

/// An input file equal by id to a view file is that view file.
proof fn lemma_input_is_view_file(view: Seq<ParquetFile>, ins: Seq<ParquetFile>, k: int, i: int)
    requires
        ids_unique(view),
        forall|p: int| 0 <= p < ins.len() ==> view.contains(#[trigger] ins[p]),
        0 <= k < ins.len(),
        0 <= i < view.len(),
        ins[k].id == view[i].id,
    ensures
        ins[k] == view[i],
{
    let j = choose|j: int| 0 <= j < view.len() && view[j] == ins[k];
    assert(view[j].id == view[i].id);
}

/// After a committed round, the target level — and every other level — is
/// still internally non-overlapping. The survivors of the target level
/// cannot touch the outputs: any such file would have intersected the input
/// hull and therefore been an input itself.
#[verifier::rlimit(80)]
pub proof fn lemma_round_preserves_nonoverlap(
    view: Seq<ParquetFile>,
    cfg: CompactorConfig,
    ins: Seq<ParquetFile>,
    cuts: Seq<i64>,
    target: CompactionLevel,
    outs: Seq<FileParams>,
    base: u64,
    lam: CompactionLevel,
)
    requires
        all_wf(view),
        ids_unique(view),
        level_nonoverlapping(view, lam),
        compact_action_sound(view, cfg, ins, cuts, target),
        output_chain(
            outs,
            inputs_hull(ins)->Some_0.0,
            inputs_hull(ins)->Some_0.1,
            target,
        ),
        ids_unique(survivors(view, ids_of(ins)) + created_seq(outs, base)),
    ensures
        level_nonoverlapping(survivors(view, ids_of(ins)) + created_seq(outs, base), lam),
{
    let (lo, hi) = inputs_hull(ins)->Some_0;
    let gone = ids_of(ins);
    let km = keep_mask(view, gone);
    let sv = survivors(view, gone);
    let cr = created_seq(outs, base);
    let merged = sv + cr;
    assert forall|p: int, q: int|
        0 <= p < merged.len() && 0 <= q < merged.len() && p != q && (#[trigger] merged[p]).level
            == lam && (#[trigger] merged[q]).level == lam implies !merged[p].overlaps(
        merged[q],
    ) by {
        if merged[p].overlaps(merged[q]) {
            if p < sv.len() && q < sv.len() {
                assert(merged[p] == sv[p] && merged[q] == sv[q]);
                crate::planner::lemma_mask_seq_provenance(view, km, view.len() as int, p);
                crate::planner::lemma_mask_seq_provenance(view, km, view.len() as int, q);
                let jp = choose|j: int| 0 <= j < view.len() && km[j] && #[trigger] sv[p] == view[j];
                let jq = choose|j: int| 0 <= j < view.len() && km[j] && #[trigger] sv[q] == view[j];
                if jp == jq {
                    assert(merged[p].id == merged[q].id);
                    assert(false);
                }
                assert(!view[jp].overlaps(view[jq]));
                assert(false);
            } else if p >= sv.len() && q >= sv.len() {
                let a = p - sv.len();
                let b = q - sv.len();
                assert(merged[p] == cr[a] && merged[q] == cr[b]);
                if a < b {
                    lemma_chain_ordered(outs, lo, hi, target, a, b);
                } else {
                    lemma_chain_ordered(outs, lo, hi, target, b, a);
                }
                assert(false);
            } else {
                let (si, ci) = if p < sv.len() {
                    (p, q - sv.len())
                } else {
                    (q, p - sv.len())
                };
                assert(merged[if p < sv.len() {
                    p
                } else {
                    q
                }] == sv[si]);
                assert(sv[si].level == lam && cr[ci].level == lam);
                assert(outs[ci].level == target);
                assert(lam == target);
                crate::planner::lemma_mask_seq_provenance(view, km, view.len() as int, si);
                let js = choose|j: int| 0 <= j < view.len() && km[j] && #[trigger] sv[si] == view[j];
                lemma_chain_bounds(outs, lo, hi, target, ci);
                assert(sv[si].overlaps(cr[ci]));
                assert(view[js].overlaps_range(lo, hi));
                assert(ins.contains(view[js]));
                let k = choose|k: int| 0 <= k < ins.len() && ins[k] == view[js];
                assert(gone[k] == view[js].id);
                assert(gone.contains(view[js].id));
                assert(!km[js]);
                assert(false);
            }
        }
    }
}

/// After a committed round the same instants are covered as before: the
/// outputs cover exactly the input hull, the inputs covered all of it, and
/// everything else survives untouched.
#[verifier::rlimit(80)]
pub proof fn lemma_round_conserves_coverage(
    view: Seq<ParquetFile>,
    cfg: CompactorConfig,
    ins: Seq<ParquetFile>,
    cuts: Seq<i64>,
    target: CompactionLevel,
    outs: Seq<FileParams>,
    base: u64,
    t: int,
)
    requires
        all_wf(view),
        ids_unique(view),
        compact_action_sound(view, cfg, ins, cuts, target),
        output_chain(
            outs,
            inputs_hull(ins)->Some_0.0,
            inputs_hull(ins)->Some_0.1,
            target,
        ),
    ensures
        covered(survivors(view, ids_of(ins)) + created_seq(outs, base), t) == covered(view, t),
{
    let (lo, hi) = inputs_hull(ins)->Some_0;
    let gone = ids_of(ins);
    let km = keep_mask(view, gone);
    let sv = survivors(view, gone);
    let cr = created_seq(outs, base);
    let merged = sv + cr;
    lemma_inputs_hull_facts(ins);
    if covered(view, t) {
        let i = choose|i: int| 0 <= i < view.len() && (#[trigger] view[i]).covers(t);
        if km[i] {
            crate::planner::lemma_mask_seq_contains(view, km, view.len() as int, i);
            let k = choose|k: int| 0 <= k < sv.len() && sv[k] == view[i];
            assert(merged[k].covers(t));
            assert(covered(merged, t));
        } else {
            assert(gone.contains(view[i].id));
            let k = choose|k: int| 0 <= k < gone.len() && gone[k] == view[i].id;
            lemma_input_is_view_file(view, ins, k, i);
            assert(ins[k].covers(t));
            assert(lo <= t <= hi);
            lemma_chain_covers(outs, lo, hi, target, t);
            let j = choose|j: int|
                0 <= j < outs.len() && (#[trigger] outs[j]).min_time <= t && t <= outs[j].max_time;
            assert(merged[sv.len() + j].covers(t));
            assert(covered(merged, t));
        }
    }
    if covered(merged, t) {
        let k = choose|k: int| 0 <= k < merged.len() && (#[trigger] merged[k]).covers(t);
        if k < sv.len() {
            crate::planner::lemma_mask_seq_provenance(view, km, view.len() as int, k);
            let j = choose|j: int| 0 <= j < view.len() && km[j] && #[trigger] sv[k] == view[j];
            assert(view[j].covers(t));
            assert(covered(view, t));
        } else {
            let j = k - sv.len();
            assert(merged[k] == cr[j]);
            lemma_chain_bounds(outs, lo, hi, target, j);
            assert(lo <= t <= hi);
            assert(covered(ins, t));
            let p = choose|p: int| 0 <= p < ins.len() && (#[trigger] ins[p]).covers(t);
            assert(view.contains(ins[p]));
            let q = choose|q: int| 0 <= q < view.len() && view[q] == ins[p];
            assert(view[q].covers(t));
            assert(covered(view, t));
        }
    }
}

/// Counting a level distributes over concatenation.
proof fn lemma_level_count_add(a: Seq<ParquetFile>, b: Seq<ParquetFile>, lam: CompactionLevel)
    ensures
        level_count(a + b, lam) == level_count(a, lam) + level_count(b, lam),
{
    broadcast use vstd::seq_lib::group_seq_lib_default;

    Seq::filter_distributes_over_add(a, b, |f: ParquetFile| f.level == lam);
}

/// A sequence whose files all sit at one level counts fully there and not
/// at all elsewhere.
proof fn lemma_level_count_uniform(s: Seq<ParquetFile>, target: CompactionLevel, lam: CompactionLevel)
    requires
        forall|i: int| 0 <= i < s.len() ==> (#[trigger] s[i]).level == target,
    ensures
        level_count(s, lam) == if lam == target {
            s.len() as int
        } else {
            0int
        },
    decreases s.len(),
{
    reveal_with_fuel(Seq::filter, 2);
    if s.len() > 0 {
        assert(s.drop_last()[s.len() - 2] == s[s.len() - 2] || s.len() == 1);
        lemma_level_count_uniform(s.drop_last(), target, lam);
    }
}

/// A sequence without files at a level counts zero there.
proof fn lemma_level_count_none(s: Seq<ParquetFile>, lam: CompactionLevel)
    requires
        forall|i: int| 0 <= i < s.len() ==> (#[trigger] s[i]).level != lam,
    ensures
        level_count(s, lam) == 0,
    decreases s.len(),
{
    reveal_with_fuel(Seq::filter, 2);
    if s.len() > 0 {
        lemma_level_count_none(s.drop_last(), lam);
    }
}

/// Keeping a subset never raises a level count.
proof fn lemma_mask_level_count_le(s: Seq<ParquetFile>, m: Seq<bool>, n: int, lam: CompactionLevel)
    requires
        n <= s.len(),
        n <= m.len(),
    ensures
        level_count(mask_seq(s, m, n), lam) <= level_count(s.take(n), lam),
    decreases n,
{
    reveal_with_fuel(Seq::filter, 2);
    if n > 0 {
        lemma_mask_level_count_le(s, m, n - 1, lam);
        assert(s.take(n).drop_last() =~= s.take(n - 1));
        let pre = mask_seq(s, m, n - 1);
        if m[n - 1] {
            assert(mask_seq(s, m, n).drop_last() =~= pre);
        }
    }
}

/// Dropping a file of the level strictly lowers its count.
proof fn lemma_mask_level_count_lt(
    s: Seq<ParquetFile>,
    m: Seq<bool>,
    n: int,
    lam: CompactionLevel,
    w: int,
)
    requires
        n <= s.len(),
        n <= m.len(),
        0 <= w < n,
        !m[w],
        s[w].level == lam,
    ensures
        level_count(mask_seq(s, m, n), lam) < level_count(s.take(n), lam),
    decreases n,
{
    reveal_with_fuel(Seq::filter, 2);
    assert(s.take(n).drop_last() =~= s.take(n - 1));
    let pre = mask_seq(s, m, n - 1);
    if w == n - 1 {
        lemma_mask_level_count_le(s, m, n - 1, lam);
    } else {
        lemma_mask_level_count_lt(s, m, n - 1, lam, w);
        if m[n - 1] {
            assert(mask_seq(s, m, n).drop_last() =~= pre);
        }
    }
}

/// Every committed round strictly shrinks the partition's backlog, in the
/// lexicographic measure (number of L0 files, number of L1 files): an L1
/// round consumes at least one L0 file and creates none, and an L2 round
/// runs only in partitions without L0 files and consumes at least one L1
/// file while creating only L2 files. A run of rounds without fresh ingest
/// therefore reaches `Noop` after finitely many commits.
pub proof fn lemma_round_decreases_backlog(
    view: Seq<ParquetFile>,
    cfg: CompactorConfig,
    ins: Seq<ParquetFile>,
    cuts: Seq<i64>,
    target: CompactionLevel,
    outs: Seq<FileParams>,
    base: u64,
)
    requires
        all_wf(view),
        ids_unique(view),
        compact_action_sound(view, cfg, ins, cuts, target),
        forall|j: int| 0 <= j < outs.len() ==> (#[trigger] outs[j]).level == target,
        target is L2 ==> forall|i: int| 0 <= i < view.len() ==> !((#[trigger] view[i]).level is L0),
    ensures
        ({
            let merged = survivors(view, ids_of(ins)) + created_seq(outs, base);
            &&& (target is L1 ==> level_count(merged, CompactionLevel::L0) < level_count(
                view,
                CompactionLevel::L0,
            ))
            &&& (target is L2 ==> level_count(merged, CompactionLevel::L0) == 0 && level_count(
                merged,
                CompactionLevel::L1,
            ) < level_count(view, CompactionLevel::L1))
        }),
{
    let gone = ids_of(ins);
    let km = keep_mask(view, gone);
    let sv = survivors(view, gone);
    let cr = created_seq(outs, base);
    let merged = sv + cr;
    let n = view.len() as int;
    assert(view.take(n) =~= view);
    assert forall|j: int| 0 <= j < cr.len() implies (#[trigger] cr[j]).level == target by {
        assert(cr[j].level == outs[j].level);
    }
    lemma_level_count_add(sv, cr, CompactionLevel::L0);
    lemma_level_count_add(sv, cr, CompactionLevel::L1);
    lemma_level_count_uniform(cr, target, CompactionLevel::L0);
    lemma_level_count_uniform(cr, target, CompactionLevel::L1);
    if target is L1 {
        let k = choose|k: int| 0 <= k < ins.len() && (#[trigger] ins[k]).level is L0;
        let i = choose|i: int| 0 <= i < view.len() && view[i] == ins[k];
        assert(gone[k] == view[i].id);
        assert(gone.contains(view[i].id));
        assert(!km[i]);
        lemma_mask_level_count_lt(view, km, n, CompactionLevel::L0, i);
    } else {
        assert(target is L2);
        lemma_mask_level_count_le(view, km, n, CompactionLevel::L0);
        lemma_level_count_none(view, CompactionLevel::L0);
        crate::view::lemma_sum_sizes_nonneg(
            mask_seq(view, km, n).filter(|f: ParquetFile| f.level == CompactionLevel::L0),
        );
        let k = choose|k: int| 0 <= k < ins.len() && (#[trigger] ins[k]).level is L1;
        let i = choose|i: int| 0 <= i < view.len() && view[i] == ins[k];
        assert(gone[k] == view[i].id);
        assert(gone.contains(view[i].id));
        assert(!km[i]);
        lemma_mask_level_count_lt(view, km, n, CompactionLevel::L1, i);
    }
}

/// No output is estimated above the round's own total: the cumulative
/// estimate is monotone and tops out at the input bytes. In particular
/// every output of a round at or below the size ceiling stays within the
/// ceiling.
pub proof fn lemma_size_within_total(lo: int, hi: int, total: int, cuts: Seq<i64>, j: int)
    requires
        0 < total,
        lo <= hi,
        crate::split::splits_wf(cuts, lo, hi),
        0 <= j <= cuts.len(),
    ensures
        crate::adapter::spec_out_size(lo, hi, total, cuts, j) <= total,
{
    if cuts.len() == 0 {
    } else {
        let rr = hi - lo;
        let xa = crate::adapter::spec_out_max(hi, cuts, j) - lo;
        let xb = crate::adapter::spec_cut_lo(lo, cuts, j);
        assert(0 < rr) by {
            assert(lo <= cuts[0] < hi);
        }
        assert(0 <= xb <= xa <= rr) by {
            if j > 0 {
                assert(lo <= cuts[j - 1] < hi);
                if j < cuts.len() {
                    assert(cuts[j - 1] < cuts[j]);
                }
            }
            if j < cuts.len() {
                assert(lo <= cuts[j] < hi);
            }
        }
        assert(total * xb / rr >= 0 && total * xa / rr <= total * rr / rr == total)
            by (nonlinear_arith)
            requires
                0 <= xb <= xa <= rr,
                0 < rr,
                0 < total,
        ;
    }
}

/// Division distributes super-additively over a sum of non-negatives.
proof fn lemma_div_add_ge(a: int, b: int, d: int)
    requires
        a >= 0,
        b >= 0,
        d > 0,
    ensures
        (a + b) / d >= a / d + b / d,
{
    broadcast use vstd::arithmetic::div_mod::group_div_basics;

    vstd::arithmetic::div_mod::lemma_fundamental_div_mod(a, d);
    vstd::arithmetic::div_mod::lemma_fundamental_div_mod(b, d);
    let qa = a / d;
    let qb = b / d;
    let ra = a % d;
    let rb = b % d;
    assert(a + b == (ra + rb) + (qa + qb) * d) by (nonlinear_arith)
        requires
            a == d * qa + ra,
            b == d * qb + rb,
    ;
    vstd::arithmetic::div_mod::lemma_hoist_over_denominator(ra + rb, qa + qb, d as nat);
    vstd::arithmetic::div_mod::lemma_div_pos_is_pos(ra + rb, d);
}

/// Dividing the product `d·m` by `d` gives back `m`.
proof fn lemma_div_mul_exact(m: int, d: int)
    requires
        d > 0,
    ensures
        d * m / d == m,
{
    vstd::arithmetic::div_mod::lemma_div_multiples_vanish(m, d);
}

/// Consecutive interpolation points are strictly apart once each target
/// slice spans at least one nanosecond.
proof fn lemma_cut_strict(rr: int, total: int, cap: int, j: int)
    requires
        0 < total,
        0 < cap,
        0 < rr,
        rr * cap >= total,
        j >= 1,
    ensures
        rr * (j * cap) / total >= rr * ((j - 1) * cap) / total + 1,
{
    let a = rr * ((j - 1) * cap);
    let b = rr * cap;
    assert(a >= 0 && a + b == rr * (j * cap)) by (nonlinear_arith)
        requires
            0 < rr,
            0 < cap,
            j >= 1,
            a == rr * ((j - 1) * cap),
            b == rr * cap,
    ;
    lemma_div_add_ge(a, b, total);
    vstd::arithmetic::div_mod::lemma_div_is_ordered(total, b, total);
    vstd::arithmetic::div_mod::lemma_div_by_self(total);
}

/// With strictly advancing interpolation points, the merged-cut recursion
/// collapses to the plain list of points `j .. k-1`.
proof fn lemma_cut_points_plain(
    lo: int,
    hi: int,
    total: int,
    cap: int,
    k: int,
    j: int,
    last: int,
    acc: Seq<i64>,
)
    requires
        0 < total,
        0 < cap,
        lo < hi,
        -MAX_NANO <= lo <= hi <= MAX_NANO,
        total <= crate::config::MAX_SIZE_TARGET,
        (hi - lo) * cap >= total,
        1 <= j <= k,
        (k - 1) * cap < total,
        last == crate::split::spec_cut_at(lo, hi, total, cap, j - 1),
    ensures
        crate::split::spec_cut_points(lo, hi, total, cap, k, j, last, acc) == acc + Seq::new(
            (k - j) as nat,
            |p: int| crate::split::spec_cut_at(lo, hi, total, cap, j + p) as i64,
        ),
    decreases k - j,
{
    let rr = hi - lo;
    if j == k {
        assert(acc + Seq::new(0, |p: int| crate::split::spec_cut_at(lo, hi, total, cap, j + p) as i64)
            =~= acc);
    } else {
        let t = crate::split::spec_cut_at(lo, hi, total, cap, j);
        assert(rr * (j * cap) >= 0) by (nonlinear_arith)
            requires
                0 < rr,
                0 < cap,
                1 <= j,
        ;
        vstd::arithmetic::div_mod::lemma_div_pos_is_pos(rr * (j * cap), total);
        lemma_cut_strict(rr, total, cap, j);
        assert(t > last);
        // the pushed point stays strictly inside the hull
        assert(j * cap <= (k - 1) * cap) by (nonlinear_arith)
            requires
                j <= k - 1,
                0 < cap,
        ;
        assert(rr * (j * cap) < total * rr) by (nonlinear_arith)
            requires
                0 < rr,
                0 <= j * cap < total,
        ;
        vstd::arithmetic::div_mod::lemma_multiply_divide_lt(rr * (j * cap), total, rr);
        assert(lo <= t < hi);
        lemma_cut_points_plain(lo, hi, total, cap, k, j + 1, t, acc.push(t as i64));
        let f = |p: int| crate::split::spec_cut_at(lo, hi, total, cap, j + p) as i64;
        let g = |p: int| crate::split::spec_cut_at(lo, hi, total, cap, j + 1 + p) as i64;
        assert(acc.push(t as i64) + Seq::new((k - j - 1) as nat, g) =~= acc + Seq::new(
            (k - j) as nat,
            f,
        ));
    }
}

/// Across the upper tiers, newer data sits lower: an L1 file overlapping an
/// L2 file carries a strictly greater ingest stamp.
pub open spec fn stamps_ordered(s: Seq<ParquetFile>) -> bool {
    forall|i: int, j: int|
        0 <= i < s.len() && 0 <= j < s.len() && (#[trigger] s[i]).level is L1 && (
        #[trigger] s[j]).level is L2 && s[i].overlaps(s[j]) ==> s[i].max_l0_created_at
            > s[j].max_l0_created_at
}

/// Freshly ingested files carry newer data than the final tier they land
/// on: an L0 file overlapping an L2 file has a strictly greater ingest
/// stamp. This is the ingester's obligation, not the planner's — stamps
/// grow with ingest time — and it is what lets a round carry the ordering
/// forward.
pub open spec fn l0_stamps_fresh(s: Seq<ParquetFile>) -> bool {
    forall|i: int, j: int|
        0 <= i < s.len() && 0 <= j < s.len() && (#[trigger] s[i]).level is L0 && (
        #[trigger] s[j]).level is L2 && s[i].overlaps(s[j]) ==> s[i].max_l0_created_at
            > s[j].max_l0_created_at
}

/// The greatest stamp bounds each file's own stamp.
proof fn lemma_max_stamp_ge(s: Seq<ParquetFile>, k: int)
    requires
        0 <= k < s.len(),
    ensures
        crate::adapter::spec_max_stamp(s) >= s[k].max_l0_created_at,
    decreases s.len(),
{
    if k < s.len() - 1 {
        assert(s.drop_last()[k] == s[k]);
        lemma_max_stamp_ge(s.drop_last(), k);
    }
}

/// A round into L1 keeps newer data below: every output carries the newest
/// input stamp, and whatever L2 file an output touches was already
/// overlapped — and outdated — by some input.
///
/// Stated for L1 rounds, whose premises the steady state supplies: the
/// partition already orders L1 over L2, and fresh L0 files outdate the L2
/// files they overlap (the ingester's obligation). An L2 round preserves
/// the ordering only when no surviving L1 file intersects its hull — true
/// of the gap-free chains earlier rounds produce, but not of an arbitrary
/// seeded backlog — so no claim is made for it here.
#[verifier::rlimit(80)]
pub proof fn lemma_round_preserves_stamp_order(
    view: Seq<ParquetFile>,
    cfg: CompactorConfig,
    ins: Seq<ParquetFile>,
    cuts: Seq<i64>,
    outs: Seq<FileParams>,
    base: u64,
)
    requires
        all_wf(view),
        ids_unique(view),
        stamps_ordered(view),
        l0_stamps_fresh(view),
        compact_action_sound(view, cfg, ins, cuts, CompactionLevel::L1),
        output_chain(
            outs,
            inputs_hull(ins)->Some_0.0,
            inputs_hull(ins)->Some_0.1,
            CompactionLevel::L1,
        ),
        forall|j: int|
            0 <= j < outs.len() ==> (#[trigger] outs[j]).max_l0_created_at
                == crate::adapter::spec_max_stamp(ins),
    ensures
        stamps_ordered(survivors(view, ids_of(ins)) + created_seq(outs, base)),
{
    let (lo, hi) = inputs_hull(ins)->Some_0;
    let gone = ids_of(ins);
    let km = keep_mask(view, gone);
    let sv = survivors(view, gone);
    let cr = created_seq(outs, base);
    let merged = sv + cr;
    assert forall|i: int, j: int|
        0 <= i < merged.len() && 0 <= j < merged.len() && (#[trigger] merged[i]).level is L1 && (
        #[trigger] merged[j]).level is L2 && merged[i].overlaps(merged[j]) implies merged[
        i
    ].max_l0_created_at > merged[j].max_l0_created_at by {
        // L2 files are never created by an L1 round
        assert(j < sv.len()) by {
            if j >= sv.len() {
                assert(merged[j] == cr[j - sv.len()]);
                assert(outs[j - sv.len()].level is L1);
            }
        }
        crate::planner::lemma_mask_seq_provenance(view, km, view.len() as int, j);
        let jj = choose|p: int| 0 <= p < view.len() && km[p] && #[trigger] sv[j] == view[p];
        if i < sv.len() {
            crate::planner::lemma_mask_seq_provenance(view, km, view.len() as int, i);
            let ji = choose|p: int| 0 <= p < view.len() && km[p] && #[trigger] sv[i] == view[p];
            assert(view[ji].level is L1 && view[jj].level is L2);
            assert(view[ji].overlaps(view[jj]));
        } else {
            // a created L1 output: find the input that covers the shared
            // instant; it already outdates the surviving L2 file
            let f1 = merged[i];
            let f2 = merged[j];
            let ci = i - sv.len();
            assert(f1 == cr[ci]);
            lemma_chain_bounds(outs, lo, hi, CompactionLevel::L1, ci);
            assert(view[jj].wf());
            let t = if f1.min_time >= f2.min_time {
                f1.min_time as int
            } else {
                f2.min_time as int
            };
            assert(f1.min_time <= t <= f1.max_time && f2.min_time <= t <= f2.max_time) by {
                assert(outs[ci].wf());
            }
            assert(lo <= t <= hi);
            assert(covered(ins, t));
            let k = choose|k: int| 0 <= k < ins.len() && (#[trigger] ins[k]).covers(t);
            let g = ins[k];
            assert(view.contains(g));
            let jg = choose|p: int| 0 <= p < view.len() && view[p] == g;
            assert(view[jg].overlaps(view[jj]));
            assert(g.level is L0 || g.level is L1);
            assert(view[jg].max_l0_created_at > view[jj].max_l0_created_at);
            lemma_max_stamp_ge(ins, k);
            assert(f1.max_l0_created_at == crate::adapter::spec_max_stamp(ins));
        }
    }
}

/// Including files never lowers a mask sum.
proof fn lemma_mask_sum_le_total(s: Seq<ParquetFile>, m: Seq<bool>, n: int)
    requires
        0 <= n <= s.len(),
        n <= m.len(),
    ensures
        crate::planner::spec_mask_sum(s, m, n) <= crate::view::sum_sizes(s.take(n)),
    decreases n,
{
    if n > 0 {
        lemma_mask_sum_le_total(s, m, n - 1);
        assert(s.take(n).drop_last() =~= s.take(n - 1));
        assert(s.take(n).last() == s[n - 1]);
    }
}

/// A mask count never exceeds the prefix length.
proof fn lemma_mask_count_le_n(s: Seq<ParquetFile>, m: Seq<bool>, n: int)
    requires
        0 <= n,
    ensures
        crate::planner::spec_mask_count(s, m, n) <= n,
    decreases n,
{
    if n > 0 {
        lemma_mask_count_le_n(s, m, n - 1);
    }
}

/// A found growable index lies inside the prefix.
proof fn lemma_first_growable_bounds(
    s: Seq<ParquetFile>,
    act: Seq<bool>,
    incl: Seq<bool>,
    lo: int,
    hi: int,
    n: int,
)
    requires
        crate::planner::spec_first_growable(s, act, incl, lo, hi, n) is Some,
    ensures
        0 <= crate::planner::spec_first_growable(s, act, incl, lo, hi, n)->Some_0 < n,
    decreases n,
{
    if n > 0 {
        if crate::planner::spec_first_growable(s, act, incl, lo, hi, n - 1) is Some {
            lemma_first_growable_bounds(s, act, incl, lo, hi, n - 1);
        }
    }
}

/// Growing a cluster only ever adds members and keeps the mask's length.
proof fn lemma_grow_monotone(
    s: Seq<ParquetFile>,
    act: Seq<bool>,
    incl: Seq<bool>,
    lo: int,
    hi: int,
    fuel: nat,
    i: int,
)
    requires
        incl.len() == s.len(),
        0 <= i < incl.len(),
        incl[i],
    ensures
        ({
            let (res, _, _) = crate::planner::spec_grow(s, act, incl, lo, hi, fuel);
            &&& res.len() == s.len()
            &&& res[i]
        }),
    decreases fuel,
{
    if fuel > 0 {
        match crate::planner::spec_first_growable(s, act, incl, lo, hi, s.len() as int) {
            None => {},
            Some(g) => {
                lemma_first_growable_bounds(s, act, incl, lo, hi, s.len() as int);
                lemma_grow_monotone(
                    s,
                    act,
                    incl.update(g, true),
                    if s[g].min_time < lo {
                        s[g].min_time as int
                    } else {
                        lo
                    },
                    if s[g].max_time > hi {
                        s[g].max_time as int
                    } else {
                        hi
                    },
                    (fuel - 1) as nat,
                    i,
                );
            },
        }
    }
}

/// Attaching a level only ever adds members and keeps the mask's length.
proof fn lemma_attach_monotone(
    s: Seq<ParquetFile>,
    incl: Seq<bool>,
    level: CompactionLevel,
    lo: int,
    hi: int,
    n: int,
    i: int,
)
    requires
        0 <= n <= incl.len(),
        0 <= i < incl.len(),
        incl[i],
    ensures
        ({
            let res = crate::planner::spec_attach(s, incl, level, lo, hi, n);
            res.len() == incl.len() && res[i]
        }),
    decreases n,
{
    if n > 0 {
        lemma_attach_monotone(s, incl, level, lo, hi, n - 1, i);
    }
}

/// What `Noop` means for a partition whose whole file set fits one round:
/// the planner stands down exactly when no L0 file is left and the L1 tier
/// is below both promotion thresholds. Together with the strictly
/// shrinking backlog measure this pins the loop's final shape: it ends at
/// `Noop`, and then the partition holds no L0 files at all.
pub proof fn lemma_noop_shape(s: Seq<ParquetFile>, column_count: int, cfg: CompactorConfig)
    requires
        cfg.wf(),
        column_count <= cfg.max_num_columns_per_table as int,
        crate::view::sum_sizes(s) <= cfg.max_input_bytes_per_round as int,
        s.len() <= cfg.max_num_files_per_plan as int,
    ensures
        crate::planner::spec_plan_round(s, column_count, cfg) is Noop <==> {
            let l1 = Seq::new(s.len(), |i: int| s[i].level == CompactionLevel::L1);
            &&& forall|i: int| 0 <= i < s.len() ==> !((#[trigger] s[i]).level is L0)
            &&& crate::planner::spec_mask_count(s, l1, s.len() as int)
                < cfg.min_num_l1_files_to_compact as int
            &&& crate::planner::spec_mask_sum(s, l1, s.len() as int)
                < cfg.max_desired_file_size_bytes as int
        },
{
    let n = s.len() as int;
    let full = Seq::new(s.len(), |i: int| true);
    let l1 = Seq::new(s.len(), |i: int| s[i].level == CompactionLevel::L1);
    assert(s.take(n) =~= s);
    match crate::planner::spec_oldest_upto(s, full, CompactionLevel::L0, n) {
        Some(a) => {
            // an L0 file exists: the first L0 iteration fits and compacts
            lemma_oldest_facts(s, full, CompactionLevel::L0, n);
            let incl0 = Seq::new(s.len(), |i: int| i == a);
            let grown = crate::planner::spec_grow(
                s,
                full,
                incl0,
                s[a].min_time as int,
                s[a].max_time as int,
                s.len(),
            );
            let (cl, lo, hi) = grown;
            let with_l1 = crate::planner::spec_attach(s, cl, CompactionLevel::L1, lo, hi, n);
            lemma_grow_monotone(
                s,
                full,
                incl0,
                s[a].min_time as int,
                s[a].max_time as int,
                s.len(),
                a,
            );
            lemma_attach_monotone(s, cl, CompactionLevel::L1, lo, hi, n, a);
            lemma_mask_sum_le_total(s, with_l1, n);
            lemma_mask_count_le_n(s, with_l1, n);
            crate::planner::lemma_mask_hull_facts(s, with_l1, n);
            assert(!(crate::planner::spec_mask_hull(s, with_l1, n) is None));
            assert(!(crate::planner::spec_plan_round(s, column_count, cfg) is Noop));
            assert(s[a].level is L0);
        },
        None => {
            lemma_oldest_none(s, full, CompactionLevel::L0, n);
            if crate::planner::spec_mask_count(s, l1, n) >= cfg.min_num_l1_files_to_compact as int
                || crate::planner::spec_mask_sum(s, l1, n)
                >= cfg.max_desired_file_size_bytes as int {
                // the L1 tier is due: the first promotion attempt fits
                let cap = if cfg.max_num_files_per_plan <= s.len() {
                    cfg.max_num_files_per_plan as int
                } else {
                    s.len() as int
                };
                lemma_l1_count_positive(s, l1, n);
                assert(cap >= 1);
                match crate::planner::spec_oldest_upto(s, full, CompactionLevel::L1, n) {
                    None => {
                        lemma_oldest_none(s, full, CompactionLevel::L1, n);
                        lemma_l1_mask_empty(s, l1, n);
                        assert(false);
                    },
                    Some(a) => {
                        lemma_oldest_facts(s, full, CompactionLevel::L1, n);
                        let m0 = Seq::new(s.len(), |i: int| i == a);
                        let run = crate::planner::spec_extend_run(s, m0, a, 1, cap, s.len());
                        let (rm, last) = run;
                        lemma_extend_monotone(s, m0, a, 1, cap, s.len(), a);
                        let with_l2 = crate::planner::spec_attach(
                            s,
                            rm,
                            CompactionLevel::L2,
                            s[a].min_time as int,
                            s[last].max_time as int,
                            n,
                        );
                        lemma_attach_monotone(
                            s,
                            rm,
                            CompactionLevel::L2,
                            s[a].min_time as int,
                            s[last].max_time as int,
                            n,
                            a,
                        );
                        lemma_mask_sum_le_total(s, with_l2, n);
                        lemma_mask_count_le_n(s, with_l2, n);
                        crate::planner::lemma_mask_hull_facts(s, with_l2, n);
                        assert(!(crate::planner::spec_mask_hull(s, with_l2, n) is None));
                        assert(!(crate::planner::spec_plan_round(s, column_count, cfg) is Noop));
                    },
                }
            }
        },
    }
}

/// The oldest-file scan reports a real file of the level.
proof fn lemma_oldest_facts(s: Seq<ParquetFile>, act: Seq<bool>, level: CompactionLevel, n: int)
    requires
        crate::planner::spec_oldest_upto(s, act, level, n) is Some,
    ensures
        ({
            let a = crate::planner::spec_oldest_upto(s, act, level, n)->Some_0;
            &&& 0 <= a < n
            &&& act[a]
            &&& s[a].level == level
        }),
    decreases n,
{
    if n > 0 {
        if crate::planner::spec_oldest_upto(s, act, level, n - 1) is Some {
            lemma_oldest_facts(s, act, level, n - 1);
        }
    }
}

/// When the scan finds nothing, no active file of the level exists.
proof fn lemma_oldest_none(s: Seq<ParquetFile>, act: Seq<bool>, level: CompactionLevel, n: int)
    requires
        crate::planner::spec_oldest_upto(s, act, level, n) is None,
    ensures
        forall|i: int| 0 <= i < n ==> !(act[i] && (#[trigger] s[i]).level == level),
    decreases n,
{
    if n > 0 {
        lemma_oldest_none(s, act, level, n - 1);
    }
}

/// A positive L1 count or byte total needs at least one L1 file.
proof fn lemma_l1_count_positive(s: Seq<ParquetFile>, l1: Seq<bool>, n: int)
    ensures
        crate::planner::spec_mask_count(s, l1, n) >= 0,
    decreases n,
{
    if n > 0 {
        lemma_l1_count_positive(s, l1, n - 1);
    }
}

/// Without L1 files, the L1 mask selects nothing.
proof fn lemma_l1_mask_empty(s: Seq<ParquetFile>, l1: Seq<bool>, n: int)
    requires
        0 <= n <= s.len(),
        l1 == Seq::new(s.len(), |i: int| s[i].level == CompactionLevel::L1),
        forall|i: int| 0 <= i < s.len() ==> !((#[trigger] s[i]).level is L1),
    ensures
        crate::planner::spec_mask_count(s, l1, n) == 0,
        crate::planner::spec_mask_sum(s, l1, n) == 0,
    decreases n,
{
    if n > 0 {
        lemma_l1_mask_empty(s, l1, n - 1);
    }
}

/// A found adjacent index lies inside the prefix.
proof fn lemma_first_adjacent_bounds(s: Seq<ParquetFile>, m: Seq<bool>, want: int, n: int)
    requires
        crate::planner::spec_first_adjacent(s, m, want, n) is Some,
    ensures
        0 <= crate::planner::spec_first_adjacent(s, m, want, n)->Some_0 < n,
    decreases n,
{
    if n > 0 {
        if crate::planner::spec_first_adjacent(s, m, want, n - 1) is Some {
            lemma_first_adjacent_bounds(s, m, want, n - 1);
        }
    }
}

/// Extending a run only ever adds members and keeps the mask's length.
proof fn lemma_extend_monotone(
    s: Seq<ParquetFile>,
    m: Seq<bool>,
    last: int,
    cnt: int,
    cap: int,
    fuel: nat,
    i: int,
)
    requires
        m.len() == s.len(),
        0 <= i < m.len(),
        m[i],
    ensures
        ({
            let (res, _) = crate::planner::spec_extend_run(s, m, last, cnt, cap, fuel);
            res.len() == s.len() && res[i]
        }),
    decreases fuel,
{
    if fuel > 0 && cnt < cap {
        match crate::planner::spec_first_adjacent(s, m, s[last].max_time + 1, s.len() as int) {
            None => {},
            Some(j) => {
                lemma_first_adjacent_bounds(s, m, s[last].max_time + 1, s.len() as int);
                lemma_extend_monotone(s, m.update(j, true), j, cnt + 1, cap, (fuel - 1) as nat, i);
            },
        }
    }
}

/// A round above the ceiling, whose bytes spread at most one target slice
/// per nanosecond, is cut into exactly `ceil(total / cap)` outputs: no two
/// interpolation points collapse, so none is merged away.
pub proof fn lemma_split_count(lo: int, hi: int, total: int, cfg: CompactorConfig, n_inputs: int)
    requires
        cfg.wf(),
        -MAX_NANO <= lo <= hi <= MAX_NANO,
        0 < total <= crate::config::MAX_SIZE_TARGET,
        total > cfg.spec_max_compact_size(),
        lo < hi,
        total <= (hi - lo) * (cfg.max_desired_file_size_bytes as int),
    ensures
        crate::split::spec_split_times(lo, hi, total, cfg, n_inputs).len() + 1
            == crate::split::spec_num_outputs(total, cfg.max_desired_file_size_bytes as int),
{
    let cap = cfg.max_desired_file_size_bytes as int;
    let pct = cfg.percentage_max_file_size as int;
    let rr = hi - lo;
    let k = (total + cap - 1) / cap;
    vstd::arithmetic::div_mod::lemma_hoist_over_denominator(cap * pct, cap, 100);
    assert(cap * pct / 100 + cap == (cap * pct + cap * 100) / 100);
    assert(cap * pct + cap * 100 == cap * (100 + pct)) by (nonlinear_arith);
    assert(cap * pct >= 0) by (nonlinear_arith)
        requires
            cap > 0,
            pct >= 1,
    ;
    vstd::arithmetic::div_mod::lemma_div_pos_is_pos(cap * pct, 100);
    assert(cfg.spec_max_compact_size() >= cap);
    vstd::arithmetic::div_mod::lemma_fundamental_div_mod(total + cap - 1, cap);
    vstd::arithmetic::div_mod::lemma_mod_division_less_than_divisor(total + cap - 1, cap);
    assert(cap * k >= total && cap * (k - 1) < total) by (nonlinear_arith)
        requires
            total + cap - 1 == cap * k + (total + cap - 1) % cap,
            0 <= (total + cap - 1) % cap < cap,
    ;
    assert(k >= 2) by (nonlinear_arith)
        requires
            cap * k >= total,
            total > cfg.spec_max_compact_size(),
            cfg.spec_max_compact_size() >= cap,
            0 < cap,
    ;
    assert(crate::split::spec_cut_at(lo, hi, total, cap, 0) == lo) by {
        assert(rr * (0 * cap) == 0) by (nonlinear_arith);
        vstd::arithmetic::div_mod::lemma_div_of0(total);
    }
    lemma_cut_points_plain(lo, hi, total, cap, k, 1, lo, Seq::empty());
    let plain = Seq::new(
        (k - 1) as nat,
        |p: int| crate::split::spec_cut_at(lo, hi, total, cap, 1 + p) as i64,
    );
    assert(crate::split::spec_split_times(lo, hi, total, cfg, n_inputs) =~= plain);
}

/// The size ceiling: no output of a round is estimated above
/// `target × (100 + headroom) / 100`.
///
/// A round at or below the ceiling passes its bytes through whole or as a
/// two-way split, so the bound is its own total. A round above the ceiling
/// is cut where the uniform estimate reaches each multiple of the target;
/// the bound then needs the round's bytes to be spread thinly enough that
/// no single nanosecond carries more than the headroom — the premises
/// below. (A round whose bytes crowd into too few nanoseconds cannot be
/// cut at whole-nanosecond boundaries into pieces of the target size.)
#[verifier::rlimit(100)]
pub proof fn lemma_size_ceiling(
    lo: int,
    hi: int,
    total: int,
    cfg: CompactorConfig,
    n_inputs: int,
    j: int,
)
    requires
        cfg.wf(),
        -MAX_NANO <= lo <= hi <= MAX_NANO,
        0 < total <= crate::config::MAX_SIZE_TARGET,
        0 <= j <= crate::split::spec_split_times(lo, hi, total, cfg, n_inputs).len(),
        total > cfg.spec_max_compact_size() ==> {
            let cap = cfg.max_desired_file_size_bytes as int;
            let pct = cfg.percentage_max_file_size as int;
            &&& lo < hi
            &&& total <= (hi - lo) * cap
            &&& total <= (hi - lo) * (cap * pct / 100 - 1)
        },
    ensures
        crate::adapter::spec_out_size(
            lo,
            hi,
            total,
            crate::split::spec_split_times(lo, hi, total, cfg, n_inputs),
            j,
        ) <= cfg.spec_max_compact_size(),
{
    let cuts = crate::split::spec_split_times(lo, hi, total, cfg, n_inputs);
    let ceiling = cfg.spec_max_compact_size();
    let cap = cfg.max_desired_file_size_bytes as int;
    let pct = cfg.percentage_max_file_size as int;
    let rr = hi - lo;
    vstd::arithmetic::div_mod::lemma_hoist_over_denominator(cap * pct, cap, 100);
    assert(cap * pct / 100 + cap == (cap * pct + cap * 100) / 100);
    assert(cap * pct + cap * 100 == cap * (100 + pct)) by (nonlinear_arith);
    assert(ceiling == cap + cap * pct / 100);
    if total <= ceiling {
        if n_inputs >= 2 && lo < hi {
            let t = lo + rr * cfg.split_percentage / 100;
            assert(0 <= rr * cfg.split_percentage / 100 < rr) by (nonlinear_arith)
                requires
                    1 <= rr,
                    1 <= cfg.split_percentage <= 99,
            ;
            assert(crate::split::splits_wf(cuts, lo, hi));
            lemma_size_within_total(lo, hi, total, cuts, j);
        } else {
            lemma_size_within_total(lo, hi, total, cuts, j);
        }
    } else {
        let k = (total + cap - 1) / cap;
        vstd::arithmetic::div_mod::lemma_fundamental_div_mod(total + cap - 1, cap);
        vstd::arithmetic::div_mod::lemma_mod_division_less_than_divisor(total + cap - 1, cap);
        assert(cap * k >= total && cap * (k - 1) < total) by (nonlinear_arith)
            requires
                total + cap - 1 == cap * k + (total + cap - 1) % cap,
                0 <= (total + cap - 1) % cap < cap,
        ;
        assert(k >= 2) by (nonlinear_arith)
            requires
                cap * k >= total,
                total > ceiling,
                ceiling >= cap,
                0 < cap,
        ;
        assert(crate::split::spec_cut_at(lo, hi, total, cap, 0) == lo) by {
            assert(rr * (0 * cap) == 0) by (nonlinear_arith);
            vstd::arithmetic::div_mod::lemma_div_of0(total);
        }
        lemma_cut_points_plain(lo, hi, total, cap, k, 1, lo, Seq::empty());
        let plain = Seq::new(
            (k - 1) as nat,
            |p: int| crate::split::spec_cut_at(lo, hi, total, cap, 1 + p) as i64,
        );
        assert(cuts =~= plain);
        assert(cuts.len() == k - 1);
        let xa = crate::adapter::spec_out_max(hi, cuts, j) - lo;
        let xb = crate::adapter::spec_cut_lo(lo, cuts, j);
        // upper bound: the estimate at the right boundary stays under (j+1)·cap
        assert(total * xa / rr <= (j + 1) * cap) by {
            if j < k - 1 {
                lemma_cut_in_range(lo, hi, total, cap, k, j + 1);
                assert(cuts[j] as int == crate::split::spec_cut_at(lo, hi, total, cap, j + 1));
                assert(xa == rr * ((j + 1) * cap) / total);
                lemma_estimate_upper(rr, total, (j + 1) * cap);
            } else {
                assert(xa == rr);
                lemma_div_mul_exact(total, rr);
                assert(total * rr == rr * total) by (nonlinear_arith);
                assert(total * xa / rr == total);
                assert(total <= cap * k == (j + 1) * cap) by (nonlinear_arith)
                    requires
                        cap * k >= total,
                        j == k - 2 + 1 || j == k - 1,
                        j == k - 1,
                ;
            }
        }
        if j == 0 {
            assert(total * xb / rr == 0) by {
                assert(xb == 0);
                assert(total * 0 == 0) by (nonlinear_arith);
            }
            assert(total * xa / rr <= 1 * cap <= ceiling) by (nonlinear_arith)
                requires
                    total * xa / rr <= (j + 1) * cap,
                    j == 0,
                    cap <= ceiling,
            ;
        } else {
            // lower bound: the estimate at the left boundary has passed j·cap
            // minus the per-nanosecond slack
            lemma_cut_in_range(lo, hi, total, cap, k, j);
            assert(cuts[j - 1] as int == crate::split::spec_cut_at(lo, hi, total, cap, j));
            assert(xb == rr * (j * cap) / total);
            lemma_estimate_lower(rr, total, j * cap);
            assert(total * xb / rr >= j * cap - total / rr - 1);
            // the density premise turns the slack into the headroom
            vstd::arithmetic::div_mod::lemma_div_is_ordered(total, rr * (cap * pct / 100 - 1), rr);
            vstd::arithmetic::div_mod::lemma_div_multiples_vanish(cap * pct / 100 - 1, rr);
            assert(total / rr <= cap * pct / 100 - 1);
            assert((j + 1) * cap - (j * cap - total / rr - 1) <= cap + cap * pct / 100)
                by (nonlinear_arith)
                requires
                    total / rr <= cap * pct / 100 - 1,
            ;
        }
        assert(ceiling >= 1);
    }
}

/// The interpolation point `q` of `k` lies strictly inside the hull.
proof fn lemma_cut_in_range(lo: int, hi: int, total: int, cap: int, k: int, q: int)
    requires
        0 < total,
        0 < cap,
        lo < hi,
        1 <= q <= k - 1,
        cap * (k - 1) < total,
    ensures
        lo <= crate::split::spec_cut_at(lo, hi, total, cap, q) < hi,
{
    let rr = hi - lo;
    assert(0 <= q * cap <= (k - 1) * cap) by (nonlinear_arith)
        requires
            1 <= q <= k - 1,
            0 < cap,
    ;
    assert((k - 1) * cap == cap * (k - 1)) by (nonlinear_arith);
    assert(rr * (q * cap) >= 0) by (nonlinear_arith)
        requires
            0 < rr,
            0 <= q * cap,
    ;
    vstd::arithmetic::div_mod::lemma_div_pos_is_pos(rr * (q * cap), total);
    assert(rr * (q * cap) < total * rr) by (nonlinear_arith)
        requires
            0 < rr,
            0 <= q * cap < total,
    ;
    vstd::arithmetic::div_mod::lemma_multiply_divide_lt(rr * (q * cap), total, rr);
}

/// Multiplying back a floored estimate never overshoots: from
/// `x = rr·m / total` follows `total·x / rr ≤ m`.
proof fn lemma_estimate_upper(rr: int, total: int, m: int)
    requires
        0 < rr,
        0 < total,
        0 <= m,
    ensures
        total * (rr * m / total) / rr <= m,
{
    let x = rr * m / total;
    vstd::arithmetic::div_mod::lemma_fundamental_div_mod(rr * m, total);
    vstd::arithmetic::div_mod::lemma_mod_division_less_than_divisor(rr * m, total);
    assert(total * x <= rr * m) by (nonlinear_arith)
        requires
            rr * m == total * x + (rr * m) % total,
            (rr * m) % total >= 0,
    ;
    vstd::arithmetic::div_mod::lemma_div_is_ordered(total * x, rr * m, rr);
    assert(rr * m == m * rr) by (nonlinear_arith);
    vstd::arithmetic::div_mod::lemma_div_multiples_vanish(m, rr);
}

/// Multiplying back a floored estimate loses at most one target slice plus
/// the per-nanosecond density: from `x = rr·m / total` follows
/// `total·x / rr ≥ m − total/rr − 1`.
proof fn lemma_estimate_lower(rr: int, total: int, m: int)
    requires
        0 < rr,
        0 < total,
        0 <= m,
    ensures
        total * (rr * m / total) / rr >= m - total / rr - 1,
{
    let x = rr * m / total;
    vstd::arithmetic::div_mod::lemma_fundamental_div_mod(rr * m, total);
    vstd::arithmetic::div_mod::lemma_mod_division_less_than_divisor(rr * m, total);
    assert(total * x >= rr * m - total + 1) by (nonlinear_arith)
        requires
            rr * m == total * x + (rr * m) % total,
            (rr * m) % total < total,
    ;
    vstd::arithmetic::div_mod::lemma_div_is_ordered(rr * m - total + 1, total * x, rr);
    // rr·m − total + 1 over rr is at least m − total/rr − 1
    let q = total / rr;
    vstd::arithmetic::div_mod::lemma_fundamental_div_mod(total, rr);
    vstd::arithmetic::div_mod::lemma_mod_division_less_than_divisor(total, rr);
    assert(rr * m - total + 1 >= rr * (m - q - 1) + 1) by (nonlinear_arith)
        requires
            total == rr * q + total % rr,
            total % rr < rr,
    ;
    vstd::arithmetic::div_mod::lemma_div_is_ordered(rr * (m - q - 1), rr * m - total + 1, rr);
    vstd::arithmetic::div_mod::lemma_div_multiples_vanish(m - q - 1, rr);
}

/// All round invariants in one statement, for the driver to invoke after a
/// successful commit: both upper tiers stay non-overlapping, coverage is
/// conserved, and the backlog measure shrinks.
#[verifier::rlimit(100)]
pub proof fn lemma_round_invariants(
    view: Seq<ParquetFile>,
    cfg: CompactorConfig,
    ins: Seq<ParquetFile>,
    cuts: Seq<i64>,
    target: CompactionLevel,
    outs: Seq<FileParams>,
    base: u64,
)
    requires
        all_wf(view),
        ids_unique(view),
        level_nonoverlapping(view, CompactionLevel::L1),
        level_nonoverlapping(view, CompactionLevel::L2),
        compact_action_sound(view, cfg, ins, cuts, target),
        output_chain(
            outs,
            inputs_hull(ins)->Some_0.0,
            inputs_hull(ins)->Some_0.1,
            target,
        ),
        ids_unique(survivors(view, ids_of(ins)) + created_seq(outs, base)),
        target is L2 ==> forall|i: int| 0 <= i < view.len() ==> !((#[trigger] view[i]).level is L0),
    ensures
        ({
            let merged = survivors(view, ids_of(ins)) + created_seq(outs, base);
            &&& level_nonoverlapping(merged, CompactionLevel::L1)
            &&& level_nonoverlapping(merged, CompactionLevel::L2)
            &&& forall|t: int| covered(merged, t) == covered(view, t)
            &&& (target is L1 ==> level_count(merged, CompactionLevel::L0) < level_count(
                view,
                CompactionLevel::L0,
            ))
            &&& (target is L2 ==> level_count(merged, CompactionLevel::L0) == 0 && level_count(
                merged,
                CompactionLevel::L1,
            ) < level_count(view, CompactionLevel::L1))
        }),
{
    let merged = survivors(view, ids_of(ins)) + created_seq(outs, base);
    lemma_round_preserves_nonoverlap(view, cfg, ins, cuts, target, outs, base, CompactionLevel::L1);
    lemma_round_preserves_nonoverlap(view, cfg, ins, cuts, target, outs, base, CompactionLevel::L2);
    assert forall|t: int| covered(merged, t) == covered(view, t) by {
        lemma_round_conserves_coverage(view, cfg, ins, cuts, target, outs, base, t);
    }
    lemma_round_decreases_backlog(view, cfg, ins, cuts, target, outs, base);
}

} // verus!
