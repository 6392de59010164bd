//! In-memory snapshot of one partition's live files, with the predicates and
//! aggregates the planner reads off it.

use vstd::prelude::*;

use crate::files::{CompactionLevel, ParquetFile};

verus! {

/// Sum of the sizes of a sequence of files, as a mathematical integer.
pub open spec fn sum_sizes(s: Seq<ParquetFile>) -> int
    decreases s.len(),
{
    if s.len() == 0 {
        0
    } else {
        sum_sizes(s.drop_last()) + s.last().file_size_bytes
    }
}

/// Every file in the sequence is well formed.
pub open spec fn all_wf(s: Seq<ParquetFile>) -> bool {
    forall|i: int| 0 <= i < s.len() ==> (#[trigger] s[i]).wf()
}

/// No two files of the sequence share an id.
pub open spec fn ids_unique(s: Seq<ParquetFile>) -> bool {
    forall|i: int, j: int| 0 <= i < j < s.len() ==> (#[trigger] s[i]).id != (#[trigger] s[j]).id
}

/// No two files of level `level` in the sequence have intersecting time
/// ranges.
pub open spec fn level_nonoverlapping(s: Seq<ParquetFile>, level: CompactionLevel) -> bool {
    forall|i: int, j: int|
        0 <= i < s.len() && 0 <= j < s.len() && i != j && (#[trigger] s[i]).level == level && (
        #[trigger] s[j]).level == level ==> !s[i].overlaps(s[j])
}

/// Number of files of `level` in the sequence.
pub open spec fn level_count(s: Seq<ParquetFile>, level: CompactionLevel) -> int {
    s.filter(|f: ParquetFile| f.level == level).len() as int
}

/// Total bytes held by files of `level` in the sequence.
pub open spec fn level_bytes(s: Seq<ParquetFile>, level: CompactionLevel) -> int {
    sum_sizes(s.filter(|f: ParquetFile| f.level == level))
}

/// The instant `t` lies inside some file of the sequence.
pub open spec fn covered(s: Seq<ParquetFile>, t: int) -> bool {
    exists|i: int| 0 <= i < s.len() && (#[trigger] s[i]).covers(t)
}

/// Every instant of the inclusive interval `[lo, hi]` lies inside some file
/// of the sequence: the files cover the interval without gaps.
pub open spec fn covers_interval(s: Seq<ParquetFile>, lo: int, hi: int) -> bool {
    forall|t: int| lo <= t <= hi ==> #[trigger] covered(s, t)
}

/// Appending a file adds its size to the running total.
pub proof fn lemma_sum_sizes_push(s: Seq<ParquetFile>, f: ParquetFile)
    ensures
        sum_sizes(s.push(f)) == sum_sizes(s) + f.file_size_bytes,
{
    assert(s.push(f).drop_last() =~= s);
}

/// A non-empty list of well-formed files holds at least one byte.
pub proof fn lemma_sum_sizes_pos(s: Seq<ParquetFile>)
    requires
        s.len() >= 1,
        all_wf(s),
    ensures
        sum_sizes(s) >= 1,
{
    assert(s[s.len() - 1].wf());
    lemma_sum_sizes_nonneg(s.drop_last());
}

/// A sum of sizes is never negative.
pub proof fn lemma_sum_sizes_nonneg(s: Seq<ParquetFile>)
    ensures
        sum_sizes(s) >= 0,
    decreases s.len(),
{
    if s.len() > 0 {
        lemma_sum_sizes_nonneg(s.drop_last());
    }
}

/// Transient snapshot of one partition at the start of a round: its live
/// files plus the table's column count (for the schema guard).
#[derive(Clone, Debug)]
pub struct PartitionView {
    pub files: Vec<ParquetFile>,
    pub column_count: usize,
}

impl PartitionView {
    /// The snapshot seen as a sequence of descriptors.
    pub open spec fn view_seq(self) -> Seq<ParquetFile> {
        self.files@
    }

    /// Basic well-formedness: every descriptor ordered and non-empty, all
    /// ids distinct.
    pub open spec fn wf(self) -> bool {
        &&& all_wf(self.files@)
        &&& ids_unique(self.files@)
    }

    /// The shape every committed round preserves: well-formed, and the two
    /// upper tiers are internally non-overlapping.
    pub open spec fn tidy(self) -> bool {
        &&& self.wf()
        &&& level_nonoverlapping(self.files@, CompactionLevel::L1)
        &&& level_nonoverlapping(self.files@, CompactionLevel::L2)
    }

    /// Builds a snapshot, accepting exactly the file lists whose descriptors
    /// are well formed with distinct ids.
    pub fn new(files: Vec<ParquetFile>, column_count: usize) -> (r: Result<
        PartitionView,
        ViewError,
    >)
        ensures
            match r {
                Ok(v) => v.wf() && v.files@ == files@ && v.column_count == column_count,
                Err(ViewError::MalformedFile) => !all_wf(files@),
                Err(ViewError::DuplicateId) => all_wf(files@) && !ids_unique(files@),
            },
    {
        let n = files.len();
        let mut i: usize = 0;
        while i < n
            invariant
                i <= n,
                n == files@.len(),
                forall|k: int| 0 <= k < i ==> (#[trigger] files@[k]).wf(),
            decreases n - i,
        {
            let f = &files[i];
            if !(-crate::files::MAX_NANO <= f.min_time && f.min_time <= f.max_time
                && f.max_time <= crate::files::MAX_NANO && f.file_size_bytes > 0) {
                return Err(ViewError::MalformedFile);
            }
            i = i + 1;
        }
        let mut i: usize = 0;
        while i < n
            invariant
                i <= n,
                n == files@.len(),
                all_wf(files@),
                forall|p: int, q: int|
                    0 <= p < q < files@.len() && p < i ==> (#[trigger] files@[p]).id != (
                    #[trigger] files@[q]).id,
            decreases n - i,
        {
            let mut j: usize = i + 1;
            while j < n
                invariant
                    i < j <= n,
                    n == files@.len(),
                    all_wf(files@),
                    forall|q: int| i < q < j ==> (#[trigger] files@[q]).id != files@[i as int].id,
                decreases n - j,
            {
                if files[j].id == files[i].id {
                    return Err(ViewError::DuplicateId);
                }
                j = j + 1;
            }
            i = i + 1;
        }
        Ok(PartitionView { files, column_count })
    }

    /// Number of live files at `level`.
    pub fn count_at_level(&self, level: CompactionLevel) -> (r: usize)
        ensures
            r == level_count(self.files@, level),
    {
        let mut count: usize = 0;
        let n = self.files.len();
        let mut i: usize = 0;
        proof {
            assert(self.files@.take(0int).filter(|f: ParquetFile| f.level == level) =~= Seq::<
                ParquetFile,
            >::empty());
        }
        while i < n
            invariant
                i <= n,
                n == self.files@.len(),
                count == self.files@.take(i as int).filter(|f: ParquetFile| f.level == level).len(),
                count <= i,
            decreases n - i,
        {
            proof {
                let pre = self.files@.take(i as int);
                let post = self.files@.take(i as int + 1);
                assert(post.drop_last() =~= pre);
                reveal_with_fuel(Seq::filter, 2);
            }
            if self.files[i].level == level {
                count = count + 1;
            }
            i = i + 1;
        }
        proof {
            assert(self.files@.take(n as int) =~= self.files@);
        }
        count
    }

    /// Total bytes at `level`. The caller keeps total sizes inside `u64`;
    /// the snapshot builder used by the driver guarantees it.
    pub fn bytes_at_level(&self, level: CompactionLevel) -> (r: u64)
        requires
            sum_sizes(self.files@.filter(|f: ParquetFile| f.level == level)) <= u64::MAX,
        ensures
            r == level_bytes(self.files@, level),
    {
        let mut total: u64 = 0;
        let n = self.files.len();
        let mut i: usize = 0;
        proof {
            assert(self.files@.take(0int).filter(|f: ParquetFile| f.level == level) =~= Seq::<
                ParquetFile,
            >::empty());
        }
        while i < n
            invariant
                i <= n,
                n == self.files@.len(),
                total == sum_sizes(
                    self.files@.take(i as int).filter(|f: ParquetFile| f.level == level),
                ),
                sum_sizes(self.files@.filter(|f: ParquetFile| f.level == level)) <= u64::MAX,
            decreases n - i,
        {
            proof {
                let pre = self.files@.take(i as int);
                let post = self.files@.take(i as int + 1);
                assert(post.drop_last() =~= pre);
                reveal_with_fuel(Seq::filter, 2);
                let fl = |f: ParquetFile| f.level == level;
                if post.last().level == level {
                    assert(post.filter(fl) == pre.filter(fl).push(post.last()));
                    lemma_sum_sizes_push(pre.filter(fl), post.last());
                }
                lemma_filter_take_prefix_sum(self.files@, fl, i as int + 1);
            }
            if self.files[i].level == level {
                total = total + self.files[i].file_size_bytes;
            }
            i = i + 1;
        }
        proof {
            assert(self.files@.take(n as int) =~= self.files@);
        }
        total
    }
}

/// Why a file list was rejected when building a snapshot.
#[derive(Clone, Copy, Debug, PartialEq, Eq, Structural)]
pub enum ViewError {
    /// Some descriptor has `min_time > max_time` or zero size.
    MalformedFile,
    /// Two descriptors share an id.
    DuplicateId,
}

/// The filtered prefix sum never exceeds the filtered total: sizes are
/// non-negative, and filtering a prefix yields a prefix of the filtered
/// sequence.
proof fn lemma_filter_take_prefix_sum(
    s: Seq<ParquetFile>,
    pred: spec_fn(ParquetFile) -> bool,
    i: int,
)
    requires
        0 <= i <= s.len(),
    ensures
        sum_sizes(s.take(i).filter(pred)) <= sum_sizes(s.filter(pred)),
    decreases s.len() - i,
{
    if i == s.len() {
        assert(s.take(i) =~= s);
    } else {
        let pre = s.take(i);
        let post = s.take(i + 1);
        assert(post.drop_last() =~= pre);
        reveal_with_fuel(Seq::filter, 2);
        if post.last().level == post.last().level && pred(post.last()) {
            assert(post.filter(pred) == pre.filter(pred).push(post.last()));
            lemma_sum_sizes_push(pre.filter(pred), post.last());
        }
        lemma_filter_take_prefix_sum(s, pred, i + 1);
    }
}

} // verus!
