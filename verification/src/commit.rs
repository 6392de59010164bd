//! The commit transaction: one atomic catalog call per round that
//! soft-deletes the round's inputs and creates its outputs, with ids the
//! catalog assigns strictly above every id it has ever handed out.

use vstd::prelude::*;

use crate::adapter::FileParams;
use crate::files::ParquetFile;
use crate::planner::mask_seq;
use crate::view::{all_wf, ids_unique};

verus! {

/// The ids of a sequence of files, in order.
pub open spec fn ids_of(s: Seq<ParquetFile>) -> Seq<u64> {
    Seq::new(s.len(), |k: int| s[k].id)
}

/// The keep-mask of a deletion: selects the files whose id is not deleted.
pub open spec fn keep_mask(s: Seq<ParquetFile>, gone: Seq<u64>) -> Seq<bool> {
    Seq::new(s.len(), |i: int| !gone.contains(s[i].id))
}

/// The files that survive deleting the ids `gone`.
pub open spec fn survivors(s: Seq<ParquetFile>, gone: Seq<u64>) -> Seq<ParquetFile> {
    mask_seq(s, keep_mask(s, gone), s.len() as int)
}

/// The catalogued file made of output parameters and a fresh id.
pub open spec fn file_of(p: FileParams, id: u64) -> ParquetFile {
    ParquetFile {
        id,
        level: p.level,
        min_time: p.min_time,
        max_time: p.max_time,
        file_size_bytes: p.file_size_bytes,
        max_l0_created_at: p.max_l0_created_at,
    }
}

/// The created files of a round: consecutive ids from `base` upward.
pub open spec fn created_seq(c: Seq<FileParams>, base: u64) -> Seq<ParquetFile> {
    Seq::new(c.len(), |j: int| file_of(c[j], (base + j) as u64))
}

/// Some file of the sequence carries this id.
pub open spec fn has_id(s: Seq<ParquetFile>, id: u64) -> bool {
    exists|k: int| 0 <= k < s.len() && (#[trigger] s[k]).id == id
}

/// Why a commit was refused.
#[derive(Clone, Copy, Debug, PartialEq, Eq, Structural)]
pub enum CommitError {
    /// Some input file was already deleted by a concurrent actor; the round
    /// is discarded and the caller re-plans from a fresh snapshot.
    Conflict,
}

/// The durable per-partition state: the live files and the next id the
/// catalog will assign.
#[derive(Debug)]
pub struct CatalogPartition {
    pub files: Vec<ParquetFile>,
    pub next_id: u64,
}

impl CatalogPartition {
    /// Catalog sanity: well-formed distinct files, ids all below `next_id`.
    pub open spec fn wf(self) -> bool {
        &&& all_wf(self.files@)
        &&& ids_unique(self.files@)
        &&& forall|i: int| 0 <= i < self.files@.len() ==> (#[trigger] self.files@[i]).id < self.next_id
    }

    /// An empty partition; ids start at one.
    pub fn new() -> (r: CatalogPartition)
        ensures
            r.wf(),
            r.files@.len() == 0,
            r.next_id == 1,
    {
        CatalogPartition { files: Vec::new(), next_id: 1 }
    }

    /// Seeds a partition from a list of files, accepting exactly the lists
    /// whose descriptors are well formed with distinct ids below `next_id`.
    pub fn from_files(files: Vec<ParquetFile>, next_id: u64) -> (r: Result<
        CatalogPartition,
        crate::view::ViewError,
    >)
        ensures
            match r {
                Ok(c) => c.wf() && c.files@ == files@ && c.next_id == next_id,
                Err(_) => !(all_wf(files@) && ids_unique(files@) && forall|i: int|
                    0 <= i < files@.len() ==> (#[trigger] files@[i]).id < next_id),
            },
    {
        let n = files.len();
        let mut i: usize = 0;
        while i < n
            invariant
                i <= n,
                n == files@.len(),
                forall|k: int| 0 <= k < i ==> (#[trigger] files@[k]).id < next_id,
            decreases n - i,
        {
            if files[i].id >= next_id {
                return Err(crate::view::ViewError::MalformedFile);
            }
            i = i + 1;
        }
        match crate::view::PartitionView::new(files, 0) {
            Ok(v) => Ok(CatalogPartition { files: v.files, next_id }),
            Err(e) => Err(e),
        }
    }

    /// The live files, as a fresh list.
    pub fn list_files(&self) -> (r: Vec<ParquetFile>)
        ensures
            r@ == self.files@,
    {
        let n = self.files.len();
        let mut r: Vec<ParquetFile> = Vec::new();
        let mut i: usize = 0;
        while i < n
            invariant
                i <= n,
                n == self.files@.len(),
                r@ =~= self.files@.take(i as int),
            decreases n - i,
        {
            r.push(self.files[i]);
            proof {
                assert(r@ =~= self.files@.take(i as int + 1));
            }
            i = i + 1;
        }
        proof {
            assert(self.files@.take(n as int) =~= self.files@);
        }
        r
    }

    /// Atomically deletes the files named by `delete_ids` and creates one
    /// file per entry of `create`, assigning consecutive fresh ids.
    ///
    /// If any named file is no longer live the commit fails with `Conflict`
    /// and the state is untouched. On success every new id is strictly
    /// greater than every id the partition held before — in particular
    /// greater than every deleted id.
    pub fn commit(&mut self, delete_ids: &Vec<u64>, create: &Vec<FileParams>) -> (r: Result<
        Vec<u64>,
        CommitError,
    >)
        requires
            old(self).wf(),
            forall|j: int| 0 <= j < create@.len() ==> (#[trigger] create@[j]).wf(),
            old(self).next_id + create@.len() <= u64::MAX,
        ensures
            match r {
                Err(CommitError::Conflict) => {
                    &&& *final(self) == *old(self)
                    &&& exists|i: int|
                        0 <= i < delete_ids@.len() && !has_id(
                            old(self).files@,
                            #[trigger] delete_ids@[i],
                        )
                },
                Ok(new_ids) => {
                    &&& forall|i: int|
                        0 <= i < delete_ids@.len() ==> has_id(
                            old(self).files@,
                            #[trigger] delete_ids@[i],
                        )
                    &&& new_ids@.len() == create@.len()
                    &&& forall|j: int|
                        0 <= j < new_ids@.len() ==> #[trigger] new_ids@[j] == old(self).next_id + j
                    &&& final(self).next_id == old(self).next_id + create@.len()
                    &&& final(self).files@ == survivors(old(self).files@, delete_ids@)
                        + created_seq(create@, old(self).next_id)
                    &&& final(self).wf()
                    &&& forall|j: int, i: int|
                        0 <= j < new_ids@.len() && 0 <= i < old(self).files@.len()
                            ==> #[trigger] new_ids@[j] > (#[trigger] old(self).files@[i]).id
                },
            },
    {
        let n = self.files.len();
        // conflict check: every named id must still be live
        let mut i: usize = 0;
        while i < delete_ids.len()
            invariant
                i <= delete_ids@.len(),
                n == self.files@.len(),
                *self == *old(self),
                forall|p: int|
                    0 <= p < i ==> has_id(self.files@, #[trigger] delete_ids@[p]),
            decreases delete_ids@.len() - i,
        {
            let want = delete_ids[i];
            let mut j: usize = 0;
            let mut found = false;
            while j < n
                invariant
                    j <= n,
                    n == self.files@.len(),
                    *self == *old(self),
                    found ==> has_id(self.files@, want),
                    !found ==> forall|q: int|
                        0 <= q < j ==> (#[trigger] self.files@[q]).id != want,
                decreases n - j,
            {
                if self.files[j].id == want {
                    found = true;
                }
                j = j + 1;
            }
            if !found {
                return Err(CommitError::Conflict);
            }
            i = i + 1;
        }
        // survivors: keep every file whose id is not being deleted
        let ghost km = keep_mask(self.files@, delete_ids@);
        let mut kept: Vec<ParquetFile> = Vec::new();
        let mut j: usize = 0;
        while j < n
            invariant
                j <= n,
                n == self.files@.len(),
                *self == *old(self),
                km == keep_mask(self.files@, delete_ids@),
                kept@ =~= mask_seq(self.files@, km, j as int),
            decreases n - j,
        {
            let f = self.files[j];
            let mut gone = false;
            let mut p: usize = 0;
            while p < delete_ids.len()
                invariant
                    p <= delete_ids@.len(),
                    *self == *old(self),
                    j < n == self.files@.len(),
                    f == self.files@[j as int],
                    gone ==> delete_ids@.contains(f.id),
                    !gone ==> forall|q: int| 0 <= q < p ==> #[trigger] delete_ids@[q] != f.id,
                decreases delete_ids@.len() - p,
            {
                if delete_ids[p] == f.id {
                    gone = true;
                }
                p = p + 1;
            }
            if !gone {
                kept.push(f);
            }
            j = j + 1;
        }
        // created files take consecutive fresh ids
        let base = self.next_id;
        let mut new_ids: Vec<u64> = Vec::new();
        let mut out: Vec<ParquetFile> = kept;
        let ghost surv = out@;
        let mut c: usize = 0;
        while c < create.len()
            invariant
                c <= create@.len(),
                *self == *old(self),
                base == old(self).next_id,
                base + create@.len() <= u64::MAX,
                new_ids@ =~= Seq::new(c as nat, |q: int| (base + q) as u64),
                out@ =~= surv + created_seq(create@, base).take(c as int),
            decreases create@.len() - c,
        {
            let id = base + (c as u64);
            new_ids.push(id);
            out.push(
                ParquetFile {
                    id,
                    level: create[c].level,
                    min_time: create[c].min_time,
                    max_time: create[c].max_time,
                    file_size_bytes: create[c].file_size_bytes,
                    max_l0_created_at: create[c].max_l0_created_at,
                },
            );
            c = c + 1;
            proof {
                assert(new_ids@ =~= Seq::new(c as nat, |q: int| (base + q) as u64));
                assert(out@ =~= surv + created_seq(create@, base).take(c as int));
            }
        }
        proof {
            assert(created_seq(create@, base).take(create@.len() as int) =~= created_seq(
                create@,
                base,
            ));
            assert(out@ =~= survivors(old(self).files@, delete_ids@) + created_seq(create@, base));
            lemma_commit_result_wf(old(self).files@, delete_ids@, create@, base, old(self).next_id);
        }
        self.files = out;
        self.next_id = base + (create.len() as u64);
        Ok(new_ids)
    }
}

/// The committed file list is well formed again: survivors keep their old
/// ids below `base`, created files take distinct ids from `base` on.
proof fn lemma_commit_result_wf(
    s: Seq<ParquetFile>,
    gone: Seq<u64>,
    create: Seq<FileParams>,
    base: u64,
    next_id: u64,
)
    requires
        all_wf(s),
        ids_unique(s),
        forall|i: int| 0 <= i < s.len() ==> (#[trigger] s[i]).id < next_id,
        forall|j: int| 0 <= j < create.len() ==> (#[trigger] create[j]).wf(),
        base == next_id,
        base + create.len() <= u64::MAX,
    ensures
        ({
            let merged = survivors(s, gone) + created_seq(create, base);
            &&& all_wf(merged)
            &&& ids_unique(merged)
            &&& forall|i: int|
                0 <= i < merged.len() ==> (#[trigger] merged[i]).id < base + create.len()
        }),
{
    let km = keep_mask(s, gone);
    let sv = survivors(s, gone);
    let cr = created_seq(create, base);
    let merged = sv + cr;
    crate::planner::lemma_mask_seq_ids_unique(s, km, s.len() as int);
    assert forall|i: int| 0 <= i < sv.len() implies (#[trigger] sv[i]).wf() && sv[i].id
        < base by {
        crate::planner::lemma_mask_seq_provenance(s, km, s.len() as int, i);
        let j = choose|j: int| 0 <= j < s.len() && km[j] && #[trigger] sv[i] == s[j];
        assert(s[j].wf());
    }
    assert forall|i: int| 0 <= i < merged.len() implies (#[trigger] merged[i]).wf() && merged[i].id
        < base + create.len() by {
        if i < sv.len() {
            assert(merged[i] == sv[i]);
        } else {
            assert(merged[i] == cr[i - sv.len()]);
            assert(create[i - sv.len()].wf());
        }
    }
    assert forall|p: int, q: int| 0 <= p < q < merged.len() implies (#[trigger] merged[p]).id != (
    #[trigger] merged[q]).id by {
        if q < sv.len() {
            assert(merged[p] == sv[p] && merged[q] == sv[q]);
        } else if p >= sv.len() {
            assert(merged[p] == cr[p - sv.len()] && merged[q] == cr[q - sv.len()]);
        } else {
            assert(merged[p] == sv[p] && merged[q] == cr[q - sv.len()]);
            assert(sv[p].id < base);
            assert(cr[q - sv.len()].id >= base);
        }
    }
}

} // verus!
