//! Whether the counts of results fit the machine's integers, as the renderers of summaries
//! and tables require: a caller tests this before it renders.

use vstd::prelude::*;
use crate::model::{file_views, DiffResult, DiffResultView, FileDiff, FileDiffView};
use crate::summary::{changes, max_digits, max_path, sum_deletions, sum_insertions, summary_fits};
use crate::table::{
    byte_len, deletions_of, insertions_of, lemma_sum_prefix, result_views, sum_nat,
    table_fits, total_added, total_deletions, total_insertions, total_modified, total_removed,
};
use crate::text::decimal;

verus! {

/// Machine numbers as natural numbers.
pub open spec fn nats(xs: Seq<usize>) -> Seq<nat> {
    xs.map_values(|x: usize| x as nat)
}

/// No element exceeds the sum.
proof fn lemma_element_le_sum(xs: Seq<nat>, i: int)
    requires
        0 <= i < xs.len(),
    ensures
        xs[i] <= sum_nat(xs),
    decreases xs.len(),
{
    if i < xs.len() - 1 {
        lemma_element_le_sum(xs.drop_last(), i);
    }
}

/// The sum of the numbers, when it fits in a `usize`.
fn checked_sum(xs: &Vec<usize>) -> (r: Option<usize>)
    ensures
        match r {
            Some(s) => s as nat == sum_nat(nats(xs@)),
            None => sum_nat(nats(xs@)) > usize::MAX,
        },
{
    let ghost ns = nats(xs@);
    let mut s: usize = 0;
    let mut i: usize = 0;
    while i < xs.len()
        invariant
            i <= xs.len(),
            ns == nats(xs@),
            s as nat == sum_nat(ns.take(i as int)),
        decreases xs.len() - i,
    {
        assert(ns.take(i + 1).drop_last() =~= ns.take(i as int));
        assert(ns.take(i + 1).last() == xs@[i as int] as nat);
        match s.checked_add(xs[i]) {
            Some(t) => {
                s = t;
            },
            None => {
                proof {
                    lemma_sum_prefix(ns, i + 1);
                }
                return None;
            },
        }
        i += 1;
    }
    assert(ns.take(xs.len() as int) =~= ns);
    Some(s)
}

/// The number of decimal digits of `n`.
fn decimal_len(n: u128) -> (k: u128)
    ensures
        k as nat == decimal(n as nat).len(),
        k as nat <= n as nat + 1,
{
    let mut m = n;
    let mut k: u128 = 1;
    while m >= 10
        invariant
            k >= 1,
            k as nat + m as nat <= n as nat + 1,
            decimal(n as nat).len() == decimal(m as nat).len() + k - 1,
        decreases m,
    {
        assert(decimal(m as nat) == decimal((m / 10) as nat).push(
            crate::text::digit_char((m % 10) as nat),
        ));
        m = m / 10;
        k += 1;
    }
    k
}

/// The insertion and deletion counts of some files, in order.
fn file_counts(files: &Vec<FileDiff>) -> (r: (Vec<usize>, Vec<usize>))
    ensures
        nats(r.0@) == file_views(files@).map_values(|f: FileDiffView| f.insertions),
        nats(r.1@) == file_views(files@).map_values(|f: FileDiffView| f.deletions),
{
    let ghost fv = file_views(files@);
    let mut ins: Vec<usize> = Vec::new();
    let mut del: Vec<usize> = Vec::new();
    let mut i: usize = 0;
    while i < files.len()
        invariant
            i <= files.len(),
            fv == file_views(files@),
            nats(ins@) == fv.take(i as int).map_values(|f: FileDiffView| f.insertions),
            nats(del@) == fv.take(i as int).map_values(|f: FileDiffView| f.deletions),
        decreases files.len() - i,
    {
        let ghost oi = ins@;
        let ghost od = del@;
        ins.push(files[i].insertions);
        del.push(files[i].deletions);
        assert(fv[i as int] == files@[i as int]@);
        assert(nats(ins@) =~= nats(oi).push(files@[i as int].insertions as nat));
        assert(nats(del@) =~= nats(od).push(files@[i as int].deletions as nat));
        assert(fv.take(i + 1).map_values(|f: FileDiffView| f.insertions) =~= fv.take(i as int).map_values(
            |f: FileDiffView| f.insertions,
        ).push(fv[i as int].insertions));
        assert(fv.take(i + 1).map_values(|f: FileDiffView| f.deletions) =~= fv.take(i as int).map_values(
            |f: FileDiffView| f.deletions,
        ).push(fv[i as int].deletions));
        assert(nats(ins@) =~= fv.take(i + 1).map_values(|f: FileDiffView| f.insertions));
        assert(nats(del@) =~= fv.take(i + 1).map_values(|f: FileDiffView| f.deletions));
        i += 1;
    }
    assert(fv.take(files.len() as int) =~= fv);
    (ins, del)
}

/// Whether the counts of a result fit, as the diffstat summary requires.
pub fn summary_counts_fit(result: &DiffResult) -> (b: bool)
    ensures
        b == summary_fits(result@.files),
{
    let ghost fs = result@.files;
    let (ins, del) = file_counts(&result.files);
    if checked_sum(&ins).is_none() || checked_sum(&del).is_none() {
        return false;
    }
    let files = &result.files;
    let mut mp: usize = 0;
    let mut md: u128 = 0;
    let mut changes_fit = true;
    let mut i: usize = 0;
    while i < files.len()
        invariant
            i <= files.len(),
            fs == result@.files,
            fs == file_views(files@),
            mp as nat == max_path(fs.take(i as int)),
            md as nat == max_digits(fs.take(i as int)),
            md as nat <= 2 * (usize::MAX as nat) + 1,
            changes_fit == forall|j: int| 0 <= j < i ==> #[trigger] changes(fs[j]) <= usize::MAX,
        decreases files.len() - i,
    {
        let f = &files[i];
        assert(fs[i as int] == f@);
        assert(fs.take(i + 1).drop_last() =~= fs.take(i as int));
        assert(fs.take(i + 1).last() == f@);
        let pl = f.path.as_str().len();
        assert(pl as nat == byte_len(f@.path));
        if pl > mp {
            mp = pl;
        }
        let c: u128 = f.insertions as u128 + f.deletions as u128;
        assert(c as nat == changes(f@));
        let dl = decimal_len(c);
        if dl > md {
            md = dl;
        }
        changes_fit = changes_fit && c <= usize::MAX as u128;
        i += 1;
    }
    assert(fs.take(files.len() as int) =~= fs);
    changes_fit && (mp as u128) + md + 9 <= usize::MAX as u128
}

/// A result's version texts are shorter than the longest a `usize` can count.
pub open spec fn version_fits(r: DiffResultView) -> bool {
    &&& byte_len(r.plugin_version) < usize::MAX
    &&& match r.latest_version {
        Some(lv) => byte_len(lv) < usize::MAX,
        None => true,
    }
}

/// Whether the counts of the results fit, as the summary table over them (with `clean`
/// plugins unchanged and `unmatched` not compared) requires.
pub fn table_counts_fit(results: &[DiffResult], clean: usize, unmatched: usize) -> (b: bool)
    ensures
        b == table_fits(result_views(results@), clean as nat, unmatched as nat),
{
    let ghost rv = result_views(results@);
    let mut added: Vec<usize> = Vec::new();
    let mut removed: Vec<usize> = Vec::new();
    let mut modified: Vec<usize> = Vec::new();
    let mut ins_tot: Vec<usize> = Vec::new();
    let mut del_tot: Vec<usize> = Vec::new();
    let mut versions_ok = true;
    let mut i: usize = 0;
    while i < results.len()
        invariant
            i <= results.len(),
            rv == result_views(results@),
            nats(added@) == rv.take(i as int).map_values(|r: DiffResultView| r.added),
            nats(removed@) == rv.take(i as int).map_values(|r: DiffResultView| r.removed),
            nats(modified@) == rv.take(i as int).map_values(|r: DiffResultView| r.modified),
            nats(ins_tot@) == rv.take(i as int).map_values(|r: DiffResultView| insertions_of(r)),
            nats(del_tot@) == rv.take(i as int).map_values(|r: DiffResultView| deletions_of(r)),
            versions_ok == forall|j: int| 0 <= j < i ==> version_fits(#[trigger] rv[j]),
        decreases results.len() - i,
    {
        let r = &results[i];
        assert(rv[i as int] == r@);
        let (ins, del) = file_counts(&r.files);
        let si = checked_sum(&ins);
        let sd = checked_sum(&del);
        if si.is_none() || sd.is_none() {
            proof {
                let xi = rv.map_values(|r: DiffResultView| insertions_of(r));
                let xd = rv.map_values(|r: DiffResultView| deletions_of(r));
                lemma_element_le_sum(xi, i as int);
                lemma_element_le_sum(xd, i as int);
            }
            return false;
        }
        let ghost oa = added@;
        let ghost or = removed@;
        let ghost om = modified@;
        let ghost oi = ins_tot@;
        let ghost od = del_tot@;
        added.push(r.summary.added);
        removed.push(r.summary.removed);
        modified.push(r.summary.modified);
        ins_tot.push(si.unwrap());
        del_tot.push(sd.unwrap());
        proof {
            let t = rv.take(i + 1);
            assert(t.drop_last() =~= rv.take(i as int));
            assert(t.last() == r@);
            assert(nats(added@) =~= nats(oa).push(r@.added));
            assert(nats(removed@) =~= nats(or).push(r@.removed));
            assert(nats(modified@) =~= nats(om).push(r@.modified));
            assert(nats(ins_tot@) =~= nats(oi).push(insertions_of(r@)));
            assert(nats(del_tot@) =~= nats(od).push(deletions_of(r@)));
            assert(t.map_values(|r: DiffResultView| r.added) =~= rv.take(i as int).map_values(
                |r: DiffResultView| r.added,
            ).push(r@.added));
            assert(t.map_values(|r: DiffResultView| r.removed) =~= rv.take(i as int).map_values(
                |r: DiffResultView| r.removed,
            ).push(r@.removed));
            assert(t.map_values(|r: DiffResultView| r.modified) =~= rv.take(i as int).map_values(
                |r: DiffResultView| r.modified,
            ).push(r@.modified));
            assert(t.map_values(|r: DiffResultView| insertions_of(r)) =~= rv.take(i as int).map_values(
                |r: DiffResultView| insertions_of(r),
            ).push(insertions_of(r@)));
            assert(t.map_values(|r: DiffResultView| deletions_of(r)) =~= rv.take(i as int).map_values(
                |r: DiffResultView| deletions_of(r),
            ).push(deletions_of(r@)));
        }
        let vlen = r.plugin_version.as_str().len();
        assert(vlen as nat == byte_len(r@.plugin_version));
        let lat_ok = match &r.latest_version {
            Some(lv) => {
                let llen = lv.as_str().len();
                assert(llen as nat == byte_len(lv@));
                assert(rv[i as int].latest_version == Some(lv@));
                llen < usize::MAX
            },
            None => true,
        };
        assert((vlen < usize::MAX && lat_ok) == version_fits(rv[i as int]));
        versions_ok = versions_ok && vlen < usize::MAX && lat_ok;
        i += 1;
    }
    assert(rv.take(results.len() as int) =~= rv);
    assert(versions_ok == ((forall|j: int| 0 <= j < rv.len() ==> byte_len(#[trigger] rv[j].plugin_version) < usize::MAX) && (forall|j: int|
        0 <= j < rv.len() ==> match #[trigger] rv[j].latest_version {
            Some(lv) => byte_len(lv) < usize::MAX,
            None => true,
        }))) by {
        if !versions_ok {
            let j = choose|j: int| 0 <= j < rv.len() && !version_fits(rv[j]);
            assert(!version_fits(rv[j]));
        } else {
            assert forall|j: int| 0 <= j < rv.len() implies byte_len(#[trigger] rv[j].plugin_version) < usize::MAX by {
                assert(version_fits(rv[j]));
            }
            assert forall|j: int| 0 <= j < rv.len() implies match #[trigger] rv[j].latest_version {
                Some(lv) => byte_len(lv) < usize::MAX,
                None => true,
            } by {
                assert(version_fits(rv[j]));
            }
        }
    }
    let count_ok = (results.len() as u128) + (clean as u128) + (unmatched as u128) <= usize::MAX as u128;
    versions_ok && count_ok && checked_sum(&added).is_some() && checked_sum(&removed).is_some()
        && checked_sum(&modified).is_some() && checked_sum(&ins_tot).is_some() && checked_sum(
        &del_tot,
    ).is_some()
}

} // verus!
