//! Batch export bookkeeping: deterministic output naming and a manifest
//! with partial-failure isolation. One clip's failure is recorded and the
//! batch moves on to the next clip; nothing aborts the run.
use vstd::prelude::*;
use vstd::string::StringExecFns;

use crate::numbers::dec_str;
use crate::numbers::pad3_str;
use crate::numbers::push_decimal;
use crate::numbers::push_pad3;

verus! {

/// A clip-index rendering with at least three digits, as batch output names
/// carry it.
pub open spec fn clip_index_str(n: int) -> Seq<char> {
    if n < 1000 {
        pad3_str(n)
    } else {
        dec_str(n)
    }
}

/// The deterministic output path of the clip at `index` (counted from 0):
/// `<dir>/clip_<index + 1, three digits>.mp4`.
pub fn clip_output_path(output_dir: &str, index: usize) -> (r: String)
    requires
        index < usize::MAX,
    ensures
        r@ == output_dir@ + "/clip_"@ + clip_index_str(index as int + 1) + ".mp4"@,
{
    let mut r = String::from_str(output_dir);
    r.append("/clip_");
    let n: u64 = (index + 1) as u64;
    if n < 1000 {
        push_pad3(&mut r, n);
    } else {
        push_decimal(&mut r, n);
    }
    r.append(".mp4");
    r
}

/// One clip the batch could not export.
pub struct ClipFailure {
    /// Position of the clip in the batch, counted from 0.
    pub index: usize,
    /// The error text recorded for it.
    pub error: String,
}

/// What a batch run produced: output paths of the clips that exported, and
/// a record per clip that failed.
pub struct ExportManifest {
    /// Paths of the successfully exported clips, in batch order.
    pub outputs: Vec<String>,
    /// The failed clips, in batch order.
    pub failures: Vec<ClipFailure>,
}

/// The paths of the successful results, in order.
pub open spec fn ok_paths(rs: Seq<Result<String, String>>) -> Seq<Seq<char>>
    decreases rs.len(),
{
    if rs.len() == 0 {
        Seq::empty()
    } else {
        (match rs[0] {
            Ok(p) => seq![p@],
            Err(_) => Seq::<Seq<char>>::empty(),
        }) + ok_paths(rs.drop_first())
    }
}

/// The failed results with their batch indices, counted from `base`.
pub open spec fn failure_records(rs: Seq<Result<String, String>>, base: int) -> Seq<(int, Seq<
    char,
>)>
    decreases rs.len(),
{
    if rs.len() == 0 {
        Seq::empty()
    } else {
        (match rs[0] {
            Ok(_) => Seq::<(int, Seq<char>)>::empty(),
            Err(e) => seq![(base, e@)],
        }) + failure_records(rs.drop_first(), base + 1)
    }
}

/// Every clip of a batch is accounted for: each result lands either in the
/// outputs or in the failure records, never both and never neither.
pub proof fn lemma_batch_accounts_for_all(rs: Seq<Result<String, String>>, base: int)
    ensures
        ok_paths(rs).len() + failure_records(rs, base).len() == rs.len(),
    decreases rs.len(),
{
    if rs.len() > 0 {
        lemma_batch_accounts_for_all(rs.drop_first(), base + 1);
    }
}

/// The views of a manifest's fields.
pub open spec fn output_views(outputs: Seq<String>) -> Seq<Seq<char>> {
    outputs.map_values(|s: String| s@)
}

/// The views of a manifest's failure records.
pub open spec fn failure_views(failures: Seq<ClipFailure>) -> Seq<(int, Seq<char>)> {
    failures.map_values(|f: ClipFailure| (f.index as int, f.error@))
}

impl ExportManifest {
    /// An empty manifest.
    pub fn new() -> (m: ExportManifest)
        ensures
            m.outputs@ == Seq::<String>::empty(),
            m.failures@ == Seq::<ClipFailure>::empty(),
    {
        ExportManifest { outputs: Vec::new(), failures: Vec::new() }
    }

    /// Records one exported clip's output path.
    pub fn record_success(&mut self, path: String)
        ensures
            final(self).outputs@ == old(self).outputs@.push(path),
            final(self).failures@ == old(self).failures@,
    {
        self.outputs.push(path);
    }

    /// Records one clip's failure and lets the batch continue.
    pub fn record_failure(&mut self, index: usize, error: String)
        ensures
            final(self).outputs@ == old(self).outputs@,
            final(self).failures@ == old(self).failures@.push(ClipFailure { index, error }),
    {
        self.failures.push(ClipFailure { index, error });
    }
}

/// Folds per-clip results into a manifest: outputs hold exactly the
/// successful paths in order, failures hold exactly the failed indices with
/// their error text. No result aborts the fold.
#[verifier::loop_isolation(false)]
pub fn collect_manifest(results: Vec<Result<String, String>>) -> (m: ExportManifest)
    ensures
        output_views(m.outputs@) == ok_paths(results@),
        failure_views(m.failures@) == failure_records(results@, 0),
{
    let ghost all = results@;
    let mut m = ExportManifest::new();
    let mut rest = results;
    let total: usize = rest.len();
    let mut index: usize = 0;
    proof {
        assert(all.skip(0) =~= all);
        assert(output_views(Seq::<String>::empty()) =~= Seq::<Seq<char>>::empty());
        assert(failure_views(Seq::<ClipFailure>::empty()) =~= Seq::<(int, Seq<char>)>::empty());
        assert(Seq::<Seq<char>>::empty() + ok_paths(all) =~= ok_paths(all));
        assert(Seq::<(int, Seq<char>)>::empty() + failure_records(all, 0) =~= failure_records(
            all,
            0,
        ));
    }
    while rest.len() > 0
        invariant
            all.len() == total,
            index == all.len() - rest@.len(),
            rest@ == all.skip(index as int),
            ok_paths(all) =~= output_views(m.outputs@) + ok_paths(rest@),
            failure_records(all, 0) =~= failure_views(m.failures@) + failure_records(
                rest@,
                index as int,
            ),
        decreases rest@.len(),
    {
        let ghost rest0 = rest@;
        let r = rest.remove(0);
        proof {
            assert(rest@ =~= rest0.drop_first());
            assert(all.skip(index as int + 1) =~= rest0.drop_first());
        }
        match r {
            Ok(path) => {
                let ghost m0 = m.outputs@;
                m.record_success(path);
                proof {
                    assert(output_views(m.outputs@) =~= output_views(m0).push(rest0[0]->Ok_0@));
                    assert(output_views(m0) + (seq![rest0[0]->Ok_0@] + ok_paths(rest0.drop_first()))
                        =~= (output_views(m0) + seq![rest0[0]->Ok_0@]) + ok_paths(
                        rest0.drop_first(),
                    ));
                    assert(output_views(m0).push(rest0[0]->Ok_0@) =~= output_views(m0) + seq![
                        rest0[0]->Ok_0@,
                    ]);
                    assert(failure_views(m.failures@) + (Seq::<(int, Seq<char>)>::empty()
                        + failure_records(rest0.drop_first(), index as int + 1)) =~= failure_views(
                        m.failures@,
                    ) + failure_records(rest0.drop_first(), index as int + 1));
                }
            },
            Err(error) => {
                let ghost f0 = m.failures@;
                m.record_failure(index, error);
                proof {
                    let rec = (index as int, rest0[0]->Err_0@);
                    assert(failure_views(m.failures@) =~= failure_views(f0).push(rec));
                    assert(failure_views(f0) + (seq![rec] + failure_records(
                        rest0.drop_first(),
                        index as int + 1,
                    )) =~= (failure_views(f0) + seq![rec]) + failure_records(
                        rest0.drop_first(),
                        index as int + 1,
                    ));
                    assert(failure_views(f0).push(rec) =~= failure_views(f0) + seq![rec]);
                    assert(output_views(m.outputs@) + (Seq::<Seq<char>>::empty() + ok_paths(
                        rest0.drop_first(),
                    )) =~= output_views(m.outputs@) + ok_paths(rest0.drop_first()));
                }
            },
        }
        index = index + 1;
    }
    proof {
        assert(rest@ =~= Seq::<Result<String, String>>::empty());
        assert(ok_paths(rest@) =~= Seq::<Seq<char>>::empty());
        assert(failure_records(rest@, index as int) =~= Seq::<(int, Seq<char>)>::empty());
        assert(output_views(m.outputs@) + Seq::<Seq<char>>::empty() =~= output_views(m.outputs@));
        assert(failure_views(m.failures@) + Seq::<(int, Seq<char>)>::empty() =~= failure_views(
            m.failures@,
        ));
    }
    m
}

} // verus!
