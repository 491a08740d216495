//! What the statements of the index do to its table, and the laws of a
//! sync proved over that model.
//!
//! The table maps a module path to its row. A sync with nonce `n` runs the
//! verify probes over the crawled files, upserts the analyses of the files
//! that no probe matched, and deletes every row not stamped with `n`.

use vstd::prelude::*;
use crate::analysis::InfoModel;
use crate::crawl::FileModel;
use crate::db::{bins_column, colon, exact_results, fuzzy_in_row, fuzzy_results, stale_by_count};
use crate::text::{lemma_split_join, occurs_in, split_spec};

verus! {

/// One row of the modules table.
pub ghost struct RowModel {
    pub code: Seq<char>,
    pub nonce: u32,
    pub hash: Option<u32>,
    pub bins: Seq<char>,
}

/// The probe `UPDATE .. WHERE path=? AND hash=?` matches the row at the
/// module's path when its digest is known and equal to the row's (a NULL
/// digest equals nothing).
pub open spec fn is_current(t: Map<Seq<char>, RowModel>, f: FileModel) -> bool {
    f.hash is Some && t.contains_key(f.path) && t[f.path].hash == f.hash
}

/// The table after the probe of one module.
pub open spec fn probe(t: Map<Seq<char>, RowModel>, f: FileModel, n: u32) -> Map<Seq<char>, RowModel> {
    if is_current(t, f) {
        t.insert(f.path, RowModel { code: f.code, nonce: n, ..t[f.path] })
    } else {
        t
    }
}

/// The verify phase over `fs` in order: the table after all probes, and the
/// modules whose probe changed no row.
pub open spec fn verify_phase(t: Map<Seq<char>, RowModel>, fs: Seq<FileModel>, n: u32) -> (
    Map<Seq<char>, RowModel>,
    Seq<FileModel>,
)
    decreases fs.len(),
{
    if fs.len() == 0 {
        (t, seq![])
    } else {
        let v = verify_phase(t, fs.drop_last(), n);
        if is_current(v.0, fs.last()) {
            (probe(v.0, fs.last(), n), v.1)
        } else {
            (v.0, v.1.push(fs.last()))
        }
    }
}

/// The row that the upsert writes for an analysed module.
pub open spec fn row_of(a: InfoModel, n: u32) -> RowModel {
    RowModel { code: a.file.code, nonce: n, hash: a.file.hash, bins: bins_column(a.bins) }
}

/// The upserts of the analysed modules, in order.
pub open spec fn upsert_phase(t: Map<Seq<char>, RowModel>, infos: Seq<InfoModel>, n: u32) -> Map<
    Seq<char>,
    RowModel,
>
    decreases infos.len(),
{
    if infos.len() == 0 {
        t
    } else {
        upsert_phase(t, infos.drop_last(), n).insert(infos.last().file.path, row_of(infos.last(), n))
    }
}

/// The rows stamped with `n`: what the orphan phase keeps.
pub open spec fn orphan_phase(t: Map<Seq<char>, RowModel>, n: u32) -> Map<Seq<char>, RowModel> {
    Map::new(|p: Seq<char>| t.contains_key(p) && t[p].nonce == n, |p: Seq<char>| t[p])
}

/// The analyses of the stale modules; `bins_of` gives a module's commands,
/// or `None` where its file could not be read, which drops it.
pub open spec fn analyzed(stale: Seq<FileModel>, bins_of: spec_fn(FileModel) -> Option<Seq<Seq<char>>>) -> Seq<
    InfoModel,
>
    decreases stale.len(),
{
    if stale.len() == 0 {
        seq![]
    } else {
        let rest = analyzed(stale.drop_last(), bins_of);
        match bins_of(stale.last()) {
            Some(b) => rest.push(InfoModel { file: stale.last(), bins: b }),
            None => rest,
        }
    }
}

/// A whole sync with nonce `n` over the crawled modules `fs`.
pub open spec fn sync_model(
    t: Map<Seq<char>, RowModel>,
    fs: Seq<FileModel>,
    bins_of: spec_fn(FileModel) -> Option<Seq<Seq<char>>>,
    n: u32,
) -> Map<Seq<char>, RowModel> {
    let v = verify_phase(t, fs, n);
    orphan_phase(upsert_phase(v.0, analyzed(v.1, bins_of), n), n)
}

pub open spec fn has_path(fs: Seq<FileModel>, p: Seq<char>) -> bool {
    exists|j: int| 0 <= j < fs.len() && (#[trigger] fs[j]).path == p
}

pub open spec fn unique_paths(fs: Seq<FileModel>) -> bool {
    forall|i: int, j: int|
        0 <= i < fs.len() && 0 <= j < fs.len() && i != j ==> (#[trigger] fs[i]).path != (#[trigger] fs[j]).path
}

pub open spec fn info_has_path(a: Seq<InfoModel>, p: Seq<char>) -> bool {
    exists|j: int| 0 <= j < a.len() && (#[trigger] a[j]).file.path == p
}

pub open spec fn unique_info_paths(a: Seq<InfoModel>) -> bool {
    forall|i: int, j: int|
        0 <= i < a.len() && 0 <= j < a.len() && i != j ==> (#[trigger] a[i]).file.path != (#[trigger] a[j]).file.path
}

/// The verify phase keeps the set of paths, every digest and every command
/// list, and leaves the rows of paths outside `fs` as they were.
pub proof fn lemma_verify_frame(t: Map<Seq<char>, RowModel>, fs: Seq<FileModel>, n: u32)
    ensures
        verify_phase(t, fs, n).0.dom() == t.dom(),
        forall|p: Seq<char>| #[trigger] t.contains_key(p) ==> verify_phase(t, fs, n).0[p].hash == t[p].hash
            && verify_phase(t, fs, n).0[p].bins == t[p].bins,
        forall|p: Seq<char>| t.contains_key(p) && !has_path(fs, p) ==> #[trigger] verify_phase(t, fs, n).0[p] == t[p],
        forall|f: FileModel| #[trigger] is_current(verify_phase(t, fs, n).0, f) == is_current(t, f),
    decreases fs.len(),
{
    if fs.len() > 0 {
        let d = fs.drop_last();
        lemma_verify_frame(t, d, n);
        let v = verify_phase(t, d, n);
        assert forall|p: Seq<char>| t.contains_key(p) && !has_path(fs, p) implies #[trigger] verify_phase(t, fs, n).0[p] == t[p] by {
            if has_path(d, p) {
                let j = choose|j: int| 0 <= j < d.len() && (#[trigger] d[j]).path == p;
                assert(fs[j] == d[j]);
            }
            assert(fs[fs.len() - 1] == fs.last());
        }
        if is_current(v.0, fs.last()) {
            assert(verify_phase(t, fs, n).0.dom() =~= t.dom());
        }
    }
}

/// The stale modules are exactly those of `fs`, in order, whose probe
/// cannot match the table as it stood before the phase.
pub proof fn lemma_verify_stale(t: Map<Seq<char>, RowModel>, fs: Seq<FileModel>, n: u32)
    ensures
        forall|k: int| 0 <= k < verify_phase(t, fs, n).1.len() ==> exists|j: int|
            0 <= j < fs.len() && fs[j] == #[trigger] verify_phase(t, fs, n).1[k] && !is_current(t, fs[j]),
        forall|j: int| 0 <= j < fs.len() && !is_current(t, #[trigger] fs[j]) ==> verify_phase(t, fs, n).1.contains(fs[j]),
        unique_paths(fs) ==> unique_paths(verify_phase(t, fs, n).1),
    decreases fs.len(),
{
    if fs.len() > 0 {
        let d = fs.drop_last();
        lemma_verify_stale(t, d, n);
        lemma_verify_frame(t, d, n);
        let v = verify_phase(t, d, n);
        let s = verify_phase(t, fs, n).1;
        assert forall|k: int| 0 <= k < s.len() implies exists|j: int|
            0 <= j < fs.len() && fs[j] == #[trigger] s[k] && !is_current(t, fs[j]) by {
            if k < v.1.len() {
                assert(s[k] == v.1[k]);
                let j = choose|j: int| 0 <= j < d.len() && d[j] == #[trigger] v.1[k] && !is_current(t, d[j]);
                assert(fs[j] == d[j]);
            } else {
                assert(fs[fs.len() - 1] == fs.last());
            }
        }
        assert forall|j: int| 0 <= j < fs.len() && !is_current(t, #[trigger] fs[j]) implies s.contains(fs[j]) by {
            if j < d.len() {
                assert(d[j] == fs[j]);
                assert(v.1.contains(d[j]));
                let k = choose|k: int| 0 <= k < v.1.len() && v.1[k] == d[j];
                assert(s[k] == v.1[k]);
            } else {
                assert(s[s.len() - 1] == fs.last());
            }
        }
        if unique_paths(fs) {
            assert(unique_paths(d)) by {
                assert forall|i: int, j: int| 0 <= i < d.len() && 0 <= j < d.len() && i != j implies (#[trigger] d[i]).path != (#[trigger] d[j]).path by {
                    assert(d[i] == fs[i] && d[j] == fs[j]);
                }
            }
            if !is_current(v.0, fs.last()) {
                assert forall|i: int, j: int| 0 <= i < s.len() && 0 <= j < s.len() && i != j implies (#[trigger] s[i]).path != (#[trigger] s[j]).path by {
                    if i < v.1.len() && j < v.1.len() {
                        assert(s[i] == v.1[i] && s[j] == v.1[j]);
                    } else if i < v.1.len() {
                        assert(s[i] == v.1[i]);
                        let q = choose|q: int| 0 <= q < d.len() && d[q] == #[trigger] v.1[i] && !is_current(t, d[q]);
                        assert(fs[q] == d[q]);
                        assert(fs[fs.len() - 1] == s[j]);
                    } else if j < v.1.len() {
                        assert(s[j] == v.1[j]);
                        let q = choose|q: int| 0 <= q < d.len() && d[q] == #[trigger] v.1[j] && !is_current(t, d[q]);
                        assert(fs[q] == d[q]);
                        assert(fs[fs.len() - 1] == s[i]);
                    }
                }
            }
        }
    }
}

/// With distinct paths, a module whose probe matches ends with its row
/// stamped with `n` and its code, digest and commands kept.
pub proof fn lemma_verify_at(t: Map<Seq<char>, RowModel>, fs: Seq<FileModel>, n: u32, i: int)
    requires
        unique_paths(fs),
        0 <= i < fs.len(),
        is_current(t, fs[i]),
    ensures
        verify_phase(t, fs, n).0.contains_key(fs[i].path),
        verify_phase(t, fs, n).0[fs[i].path] == (RowModel { code: fs[i].code, nonce: n, ..t[fs[i].path] }),
    decreases fs.len(),
{
    let d = fs.drop_last();
    lemma_verify_frame(t, d, n);
    let v = verify_phase(t, d, n);
    if i == fs.len() - 1 {
        assert(fs.last() == fs[i]);
        lemma_verify_frame(t, d, n);
        if has_path(d, fs[i].path) {
            let j = choose|j: int| 0 <= j < d.len() && (#[trigger] d[j]).path == fs[i].path;
            assert(fs[j] == d[j]);
        }
    } else {
        assert(unique_paths(d)) by {
            assert forall|a: int, b: int| 0 <= a < d.len() && 0 <= b < d.len() && a != b implies (#[trigger] d[a]).path != (#[trigger] d[b]).path by {
                assert(d[a] == fs[a] && d[b] == fs[b]);
            }
        }
        assert(d[i] == fs[i]);
        lemma_verify_at(t, d, n, i);
        assert(fs[fs.len() - 1] == fs.last());
    }
}

/// Every analysis comes from a stale module whose file was read, every such
/// module has its analysis, and distinct paths stay distinct.
pub proof fn lemma_analyzed(s: Seq<FileModel>, bins_of: spec_fn(FileModel) -> Option<Seq<Seq<char>>>)
    ensures
        forall|k: int| 0 <= k < analyzed(s, bins_of).len() ==> exists|j: int|
            0 <= j < s.len() && s[j] == (#[trigger] analyzed(s, bins_of)[k]).file && bins_of(s[j])
                == Some(analyzed(s, bins_of)[k].bins),
        forall|j: int| 0 <= j < s.len() && (#[trigger] bins_of(s[j])) is Some ==> analyzed(s, bins_of).contains(
            InfoModel { file: s[j], bins: bins_of(s[j])->0 },
        ),
        unique_paths(s) ==> unique_info_paths(analyzed(s, bins_of)),
    decreases s.len(),
{
    if s.len() > 0 {
        let d = s.drop_last();
        lemma_analyzed(d, bins_of);
        let r = analyzed(d, bins_of);
        let a = analyzed(s, bins_of);
        assert forall|k: int| 0 <= k < a.len() implies exists|j: int|
            0 <= j < s.len() && s[j] == (#[trigger] a[k]).file && bins_of(s[j]) == Some(a[k].bins) by {
            if k < r.len() {
                assert(a[k] == r[k]);
                let j = choose|j: int| 0 <= j < d.len() && d[j] == (#[trigger] r[k]).file && bins_of(d[j]) == Some(r[k].bins);
                assert(s[j] == d[j]);
            } else {
                assert(s[s.len() - 1] == s.last());
            }
        }
        assert forall|j: int| 0 <= j < s.len() && (#[trigger] bins_of(s[j])) is Some implies a.contains(
            InfoModel { file: s[j], bins: bins_of(s[j])->0 },
        ) by {
            if j < d.len() {
                assert(d[j] == s[j]);
                assert(bins_of(d[j]) is Some);
                let x = InfoModel { file: s[j], bins: bins_of(s[j])->0 };
                assert(r.contains(x));
                let k = choose|k: int| 0 <= k < r.len() && r[k] == x;
                assert(a[k] == r[k]);
            } else {
                assert(s.last() == s[j]);
                assert(a[a.len() - 1] == InfoModel { file: s[j], bins: bins_of(s[j])->0 });
            }
        }
        if unique_paths(s) {
            assert(unique_paths(d)) by {
                assert forall|x: int, y: int| 0 <= x < d.len() && 0 <= y < d.len() && x != y implies (#[trigger] d[x]).path != (#[trigger] d[y]).path by {
                    assert(d[x] == s[x] && d[y] == s[y]);
                }
            }
            if bins_of(s.last()) is Some {
                assert forall|x: int, y: int| 0 <= x < a.len() && 0 <= y < a.len() && x != y implies (#[trigger] a[x]).file.path != (#[trigger] a[y]).file.path by {
                    if x < r.len() && y < r.len() {
                        assert(a[x] == r[x] && a[y] == r[y]);
                    } else if x < r.len() {
                        assert(a[x] == r[x]);
                        let q = choose|q: int| 0 <= q < d.len() && d[q] == (#[trigger] r[x]).file && bins_of(d[q]) == Some(r[x].bins);
                        assert(s[q] == d[q]);
                        assert(s[s.len() - 1] == a[y].file);
                    } else if y < r.len() {
                        assert(a[y] == r[y]);
                        let q = choose|q: int| 0 <= q < d.len() && d[q] == (#[trigger] r[y]).file && bins_of(d[q]) == Some(r[y].bins);
                        assert(s[q] == d[q]);
                        assert(s[s.len() - 1] == a[x].file);
                    }
                }
            }
        }
    }
}

/// The upserts add rows and leave those of other paths as they were.
pub proof fn lemma_upsert_frame(t: Map<Seq<char>, RowModel>, infos: Seq<InfoModel>, n: u32)
    ensures
        t.dom().subset_of(upsert_phase(t, infos, n).dom()),
        forall|p: Seq<char>| !info_has_path(infos, p) ==> (#[trigger] upsert_phase(t, infos, n).contains_key(p)
            == t.contains_key(p)),
        forall|p: Seq<char>| !info_has_path(infos, p) && t.contains_key(p) ==> #[trigger] upsert_phase(t, infos, n)[p]
            == t[p],
        forall|p: Seq<char>| #[trigger] upsert_phase(t, infos, n).contains_key(p) ==> t.contains_key(p)
            || info_has_path(infos, p),
    decreases infos.len(),
{
    if infos.len() > 0 {
        let d = infos.drop_last();
        lemma_upsert_frame(t, d, n);
        assert(infos[infos.len() - 1] == infos.last());
        assert forall|p: Seq<char>| !info_has_path(infos, p) implies !info_has_path(d, p) by {
            if info_has_path(d, p) {
                let j = choose|j: int| 0 <= j < d.len() && (#[trigger] d[j]).file.path == p;
                assert(infos[j] == d[j]);
            }
        }
        assert forall|p: Seq<char>| #[trigger] upsert_phase(t, infos, n).contains_key(p) implies t.contains_key(p)
            || info_has_path(infos, p) by {
            if info_has_path(d, p) {
                let j = choose|j: int| 0 <= j < d.len() && (#[trigger] d[j]).file.path == p;
                assert(infos[j] == d[j]);
            }
        }
    }
}

/// With distinct paths, each analysed module ends with the row of its analysis.
pub proof fn lemma_upsert_at(t: Map<Seq<char>, RowModel>, infos: Seq<InfoModel>, n: u32, k: int)
    requires
        unique_info_paths(infos),
        0 <= k < infos.len(),
    ensures
        upsert_phase(t, infos, n).contains_key(infos[k].file.path),
        upsert_phase(t, infos, n)[infos[k].file.path] == row_of(infos[k], n),
    decreases infos.len(),
{
    let d = infos.drop_last();
    if k < infos.len() - 1 {
        assert(unique_info_paths(d)) by {
            assert forall|a: int, b: int| 0 <= a < d.len() && 0 <= b < d.len() && a != b implies (#[trigger] d[a]).file.path != (#[trigger] d[b]).file.path by {
                assert(d[a] == infos[a] && d[b] == infos[b]);
            }
        }
        assert(d[k] == infos[k]);
        lemma_upsert_at(t, d, n, k);
        assert(infos[infos.len() - 1] == infos.last());
    } else {
        assert(infos.last() == infos[k]);
    }
}

/// The verify probes report, for each module, whether they changed a row;
/// the modules whose probe changed none are those of the model's verify phase.
pub proof fn lemma_probe_counts(t: Map<Seq<char>, RowModel>, fs: Seq<FileModel>, counts: Seq<usize>, n: u32)
    requires
        counts.len() == fs.len(),
        forall|j: int| 0 <= j < fs.len() ==> (#[trigger] counts[j] >= 1 <==> is_current(t, fs[j])),
    ensures
        stale_by_count(fs, counts) == verify_phase(t, fs, n).1,
    decreases fs.len(),
{
    if fs.len() > 0 {
        let d = fs.drop_last();
        let c = counts.drop_last();
        assert forall|j: int| 0 <= j < d.len() implies (#[trigger] c[j] >= 1 <==> is_current(t, d[j])) by {
            assert(c[j] == counts[j] && d[j] == fs[j]);
        }
        lemma_probe_counts(t, d, c, n);
        lemma_verify_frame(t, d, n);
        assert(counts.last() == counts[fs.len() - 1] && fs.last() == fs[fs.len() - 1]);
    }
}

/// Nonce closure: right after a sync with nonce `n`, every row carries `n`.
pub proof fn lemma_nonce_closure(
    t: Map<Seq<char>, RowModel>,
    fs: Seq<FileModel>,
    bins_of: spec_fn(FileModel) -> Option<Seq<Seq<char>>>,
    n: u32,
)
    ensures
        forall|p: Seq<char>| #[trigger] sync_model(t, fs, bins_of, n).contains_key(p) ==> sync_model(
            t,
            fs,
            bins_of,
            n,
        )[p].nonce == n,
{
}

proof fn lemma_infos_from_fs(
    t: Map<Seq<char>, RowModel>,
    fs: Seq<FileModel>,
    bins_of: spec_fn(FileModel) -> Option<Seq<Seq<char>>>,
    n: u32,
    p: Seq<char>,
)
    requires
        !has_path(fs, p),
    ensures
        !info_has_path(analyzed(verify_phase(t, fs, n).1, bins_of), p),
{
    let st = verify_phase(t, fs, n).1;
    let a = analyzed(st, bins_of);
    lemma_verify_stale(t, fs, n);
    lemma_analyzed(st, bins_of);
    if info_has_path(a, p) {
        let k = choose|k: int| 0 <= k < a.len() && (#[trigger] a[k]).file.path == p;
        let j = choose|j: int| 0 <= j < st.len() && st[j] == (#[trigger] a[k]).file && bins_of(st[j]) == Some(a[k].bins);
        let q = choose|q: int| 0 <= q < fs.len() && fs[q] == #[trigger] st[j] && !is_current(t, fs[q]);
        assert(fs[q].path == p);
    }
}

/// Orphan removal: a path that the crawl no longer finds has no row after
/// the sync, provided no row carried the sync's nonce before it.
pub proof fn lemma_orphan_removal(
    t: Map<Seq<char>, RowModel>,
    fs: Seq<FileModel>,
    bins_of: spec_fn(FileModel) -> Option<Seq<Seq<char>>>,
    n: u32,
    p: Seq<char>,
)
    requires
        forall|q: Seq<char>| #[trigger] t.contains_key(q) ==> t[q].nonce != n,
        !has_path(fs, p),
    ensures
        !sync_model(t, fs, bins_of, n).contains_key(p),
{
    let v = verify_phase(t, fs, n);
    lemma_verify_frame(t, fs, n);
    lemma_infos_from_fs(t, fs, bins_of, n, p);
    lemma_upsert_frame(v.0, analyzed(v.1, bins_of), n);
}

/// Refresh: with distinct paths, a module whose digest no longer matches its
/// row (or that has no row) is among the modules re-analysed, which are
/// exactly those; once analysed, its row holds its new digest and commands.
pub proof fn lemma_refresh(
    t: Map<Seq<char>, RowModel>,
    fs: Seq<FileModel>,
    bins_of: spec_fn(FileModel) -> Option<Seq<Seq<char>>>,
    n: u32,
    i: int,
)
    requires
        unique_paths(fs),
        0 <= i < fs.len(),
        !is_current(t, fs[i]),
    ensures
        verify_phase(t, fs, n).1.contains(fs[i]),
        forall|k: int| 0 <= k < verify_phase(t, fs, n).1.len() ==> !is_current(
            t,
            #[trigger] verify_phase(t, fs, n).1[k],
        ),
        bins_of(fs[i]) is Some ==> {
            &&& sync_model(t, fs, bins_of, n).contains_key(fs[i].path)
            &&& sync_model(t, fs, bins_of, n)[fs[i].path] == row_of(
                InfoModel { file: fs[i], bins: bins_of(fs[i])->0 },
                n,
            )
        },
{
    let v = verify_phase(t, fs, n);
    lemma_verify_stale(t, fs, n);
    assert forall|k: int| 0 <= k < v.1.len() implies !is_current(t, #[trigger] v.1[k]) by {
        let j = choose|j: int| 0 <= j < fs.len() && fs[j] == #[trigger] v.1[k] && !is_current(t, fs[j]);
    }
    if bins_of(fs[i]) is Some {
        let a = analyzed(v.1, bins_of);
        let x = InfoModel { file: fs[i], bins: bins_of(fs[i])->0 };
        let j = choose|j: int| 0 <= j < v.1.len() && v.1[j] == fs[i];
        lemma_analyzed(v.1, bins_of);
        assert(bins_of(v.1[j]) is Some);
        assert(a.contains(x));
        let k = choose|k: int| 0 <= k < a.len() && a[k] == x;
        lemma_upsert_at(v.0, a, n, k);
    }
}

/// Idempotence: with distinct paths, known digests and readable files, a
/// second sync over the same files re-analyses nothing and keeps every row's
/// path, code, digest and commands, provided the first nonce was fresh.
pub proof fn lemma_idempotence(
    t: Map<Seq<char>, RowModel>,
    fs: Seq<FileModel>,
    bins_of: spec_fn(FileModel) -> Option<Seq<Seq<char>>>,
    n1: u32,
    n2: u32,
)
    requires
        unique_paths(fs),
        forall|j: int| 0 <= j < fs.len() ==> (#[trigger] fs[j]).hash is Some,
        forall|j: int| 0 <= j < fs.len() ==> (#[trigger] bins_of(fs[j])) is Some,
        forall|q: Seq<char>| #[trigger] t.contains_key(q) ==> t[q].nonce != n1,
    ensures
        verify_phase(sync_model(t, fs, bins_of, n1), fs, n2).1.len() == 0,
        sync_model(sync_model(t, fs, bins_of, n1), fs, bins_of, n2).dom() == sync_model(
            t,
            fs,
            bins_of,
            n1,
        ).dom(),
        forall|p: Seq<char>| #[trigger] sync_model(t, fs, bins_of, n1).contains_key(p) ==> {
            let a = sync_model(t, fs, bins_of, n1)[p];
            let b = sync_model(sync_model(t, fs, bins_of, n1), fs, bins_of, n2)[p];
            a.code == b.code && a.hash == b.hash && a.bins == b.bins
        },
{
    let v = verify_phase(t, fs, n1);
    let infos = analyzed(v.1, bins_of);
    let u = upsert_phase(v.0, infos, n1);
    let t1 = sync_model(t, fs, bins_of, n1);
    lemma_verify_frame(t, fs, n1);
    lemma_verify_stale(t, fs, n1);
    lemma_analyzed(v.1, bins_of);
    lemma_upsert_frame(v.0, infos, n1);
    // every crawled module has a row with its code and digest
    assert forall|j: int| 0 <= j < fs.len() implies #[trigger] t1.contains_key(fs[j].path) && t1[fs[j].path].hash
        == fs[j].hash && t1[fs[j].path].code == fs[j].code by {
        let p = fs[j].path;
        if is_current(t, fs[j]) {
            lemma_verify_at(t, fs, n1, j);
            if info_has_path(infos, p) {
                let k = choose|k: int| 0 <= k < infos.len() && (#[trigger] infos[k]).file.path == p;
                let q = choose|q: int| 0 <= q < v.1.len() && v.1[q] == (#[trigger] infos[k]).file && bins_of(v.1[q]) == Some(infos[k].bins);
                let r = choose|r: int| 0 <= r < fs.len() && fs[r] == #[trigger] v.1[q] && !is_current(t, fs[r]);
                assert(fs[r].path == fs[j].path);
            }
        } else {
            let x = InfoModel { file: fs[j], bins: bins_of(fs[j])->0 };
            assert(v.1.contains(fs[j]));
            let q = choose|q: int| 0 <= q < v.1.len() && v.1[q] == fs[j];
            assert(bins_of(v.1[q]) is Some);
            assert(infos.contains(x));
            let k = choose|k: int| 0 <= k < infos.len() && infos[k] == x;
            lemma_upsert_at(v.0, infos, n1, k);
        }
    }
    // every row belongs to a crawled module
    assert forall|p: Seq<char>| #[trigger] t1.contains_key(p) implies has_path(fs, p) by {
        if !has_path(fs, p) {
            lemma_infos_from_fs(t, fs, bins_of, n1, p);
        }
    }
    let v2 = verify_phase(t1, fs, n2);
    lemma_verify_stale(t1, fs, n2);
    lemma_verify_frame(t1, fs, n2);
    assert forall|j: int| 0 <= j < fs.len() implies is_current(t1, #[trigger] fs[j]) by {
        assert(t1.contains_key(fs[j].path));
    }
    if v2.1.len() > 0 {
        let j = choose|j: int| 0 <= j < fs.len() && fs[j] == #[trigger] v2.1[0] && !is_current(t1, fs[j]);
        assert(is_current(t1, fs[j]));
    }
    assert(analyzed(v2.1, bins_of) =~= seq![]);
    let t2 = sync_model(t1, fs, bins_of, n2);
    assert forall|p: Seq<char>| #[trigger] t1.contains_key(p) implies t2.contains_key(p) && t1[p].code
        == t2[p].code && t1[p].hash == t2[p].hash && t1[p].bins == t2[p].bins by {
        let j = choose|j: int| 0 <= j < fs.len() && (#[trigger] fs[j]).path == p;
        assert(is_current(t1, fs[j]));
        lemma_verify_at(t1, fs, n2, j);
    }
    assert(t2.dom() =~= t1.dom());
}

/// The verify phase over shards, one after another, with the stale lists
/// written one after another.
pub open spec fn verify_shards(t: Map<Seq<char>, RowModel>, shards: Seq<Seq<FileModel>>, n: u32) -> (
    Map<Seq<char>, RowModel>,
    Seq<FileModel>,
)
    decreases shards.len(),
{
    if shards.len() == 0 {
        (t, seq![])
    } else {
        let a = verify_shards(t, shards.drop_last(), n);
        let b = verify_phase(a.0, shards.last(), n);
        (b.0, a.1 + b.1)
    }
}

/// The analyse-and-upsert phase over shards of the stale list, one after another.
pub open spec fn upsert_shards(
    t: Map<Seq<char>, RowModel>,
    shards: Seq<Seq<FileModel>>,
    bins_of: spec_fn(FileModel) -> Option<Seq<Seq<char>>>,
    n: u32,
) -> Map<Seq<char>, RowModel>
    decreases shards.len(),
{
    if shards.len() == 0 {
        t
    } else {
        upsert_phase(upsert_shards(t, shards.drop_last(), bins_of, n), analyzed(shards.last(), bins_of), n)
    }
}

proof fn lemma_verify_concat(t: Map<Seq<char>, RowModel>, a: Seq<FileModel>, b: Seq<FileModel>, n: u32)
    ensures
        verify_phase(t, a + b, n) == ({
            let x = verify_phase(t, a, n);
            let y = verify_phase(x.0, b, n);
            (y.0, x.1 + y.1)
        }),
    decreases b.len(),
{
    if b.len() == 0 {
        assert(a + b =~= a);
        assert(verify_phase(t, a, n).1 + seq![] =~= verify_phase(t, a, n).1);
    } else {
        lemma_verify_concat(t, a, b.drop_last(), n);
        assert((a + b).drop_last() =~= a + b.drop_last());
        assert((a + b).last() == b.last());
        let x = verify_phase(t, a, n);
        let y = verify_phase(x.0, b.drop_last(), n);
        assert((x.1 + y.1).push(b.last()) =~= x.1 + y.1.push(b.last()));
    }
}

proof fn lemma_upsert_concat(t: Map<Seq<char>, RowModel>, a: Seq<InfoModel>, b: Seq<InfoModel>, n: u32)
    ensures
        upsert_phase(t, a + b, n) == upsert_phase(upsert_phase(t, a, n), b, n),
    decreases b.len(),
{
    if b.len() == 0 {
        assert(a + b =~= a);
    } else {
        lemma_upsert_concat(t, a, b.drop_last(), n);
        assert((a + b).drop_last() =~= a + b.drop_last());
        assert((a + b).last() == b.last());
    }
}

proof fn lemma_analyzed_concat(
    a: Seq<FileModel>,
    b: Seq<FileModel>,
    bins_of: spec_fn(FileModel) -> Option<Seq<Seq<char>>>,
)
    ensures
        analyzed(a + b, bins_of) == analyzed(a, bins_of) + analyzed(b, bins_of),
    decreases b.len(),
{
    if b.len() == 0 {
        assert(a + b =~= a);
        assert(analyzed(a, bins_of) + seq![] =~= analyzed(a, bins_of));
    } else {
        lemma_analyzed_concat(a, b.drop_last(), bins_of);
        assert((a + b).drop_last() =~= a + b.drop_last());
        assert((a + b).last() == b.last());
        let x = analyzed(a, bins_of);
        let y = analyzed(b.drop_last(), bins_of);
        match bins_of(b.last()) {
            Some(c) => {
                assert((x + y).push(InfoModel { file: b.last(), bins: c }) =~= x + y.push(
                    InfoModel { file: b.last(), bins: c },
                ));
            },
            None => {},
        }
    }
}

proof fn lemma_verify_shards(t: Map<Seq<char>, RowModel>, shards: Seq<Seq<FileModel>>, n: u32)
    ensures
        verify_shards(t, shards, n) == verify_phase(t, crate::text::concat_all(shards), n),
    decreases shards.len(),
{
    if shards.len() > 0 {
        lemma_verify_shards(t, shards.drop_last(), n);
        lemma_verify_concat(t, crate::text::concat_all(shards.drop_last()), shards.last(), n);
    }
}

proof fn lemma_upsert_shards(
    t: Map<Seq<char>, RowModel>,
    shards: Seq<Seq<FileModel>>,
    bins_of: spec_fn(FileModel) -> Option<Seq<Seq<char>>>,
    n: u32,
)
    ensures
        upsert_shards(t, shards, bins_of, n) == upsert_phase(
            t,
            analyzed(crate::text::concat_all(shards), bins_of),
            n,
        ),
    decreases shards.len(),
{
    if shards.len() > 0 {
        let d = shards.drop_last();
        lemma_upsert_shards(t, d, bins_of, n);
        lemma_analyzed_concat(crate::text::concat_all(d), shards.last(), bins_of);
        lemma_upsert_concat(
            t,
            analyzed(crate::text::concat_all(d), bins_of),
            analyzed(shards.last(), bins_of),
            n,
        );
    } else {
        assert(analyzed(crate::text::concat_all(shards), bins_of) =~= seq![]);
    }
}

/// Partition safety: verifying the crawled modules in contiguous shards, and
/// analysing the stale ones in contiguous shards, leaves the same table as a
/// single worker running the whole sync.
pub proof fn lemma_partition_safety(
    t: Map<Seq<char>, RowModel>,
    fs: Seq<FileModel>,
    vshards: Seq<Seq<FileModel>>,
    ashards: Seq<Seq<FileModel>>,
    bins_of: spec_fn(FileModel) -> Option<Seq<Seq<char>>>,
    n: u32,
)
    requires
        crate::text::concat_all(vshards) == fs,
        crate::text::concat_all(ashards) == verify_shards(t, vshards, n).1,
    ensures
        verify_shards(t, vshards, n) == verify_phase(t, fs, n),
        orphan_phase(upsert_shards(verify_shards(t, vshards, n).0, ashards, bins_of, n), n) == sync_model(
            t,
            fs,
            bins_of,
            n,
        ),
{
    lemma_verify_shards(t, vshards, n);
    lemma_upsert_shards(verify_shards(t, vshards, n).0, ashards, bins_of, n);
}

/// Search completeness: a command recorded in a row is found by the exact
/// search with that row's code, and a substring of it finds it by the
/// substring search.
pub proof fn lemma_search_completeness(
    rows: Seq<(Seq<char>, Seq<char>)>,
    i: int,
    bin: Seq<char>,
    part: Seq<char>,
)
    requires
        0 <= i < rows.len(),
        split_spec(rows[i].1, ':').contains(bin),
        occurs_in(part, bin),
    ensures
        exact_results(rows, bin).contains((rows[i].0, bin)),
        fuzzy_results(rows, part).contains((rows[i].0, bin)),
    decreases rows.len(),
{
    let d = rows.drop_last();
    if i < rows.len() - 1 {
        assert(d[i] == rows[i]);
        lemma_search_completeness(d, i, bin, part);
        let e = exact_results(d, bin);
        let k = choose|k: int| 0 <= k < e.len() && e[k] == (rows[i].0, bin);
        assert(exact_results(rows, bin)[k] == e[k]);
        let f = fuzzy_results(d, part);
        let m = choose|m: int| 0 <= m < f.len() && f[m] == (rows[i].0, bin);
        assert(fuzzy_results(rows, part)[m] == f[m]);
    } else {
        assert(rows.last() == rows[i]);
        let e = exact_results(rows, bin);
        assert(e[e.len() - 1] == (rows[i].0, bin));
        let pieces = split_spec(rows[i].1, ':');
        let j = choose|j: int| 0 <= j < pieces.len() && pieces[j] == bin;
        lemma_fuzzy_in_row(rows[i].0, pieces, part, j);
        let g = fuzzy_in_row(rows[i].0, pieces, part);
        let m = choose|m: int| 0 <= m < g.len() && g[m] == (rows[i].0, bin);
        assert(fuzzy_results(rows, part)[fuzzy_results(d, part).len() + m] == g[m]);
    }
}

proof fn lemma_fuzzy_in_row(code: Seq<char>, bins: Seq<Seq<char>>, part: Seq<char>, j: int)
    requires
        0 <= j < bins.len(),
        occurs_in(part, bins[j]),
    ensures
        fuzzy_in_row(code, bins, part).contains((code, bins[j])),
    decreases bins.len(),
{
    let d = bins.drop_last();
    if j < bins.len() - 1 {
        assert(d[j] == bins[j]);
        lemma_fuzzy_in_row(code, d, part, j);
        let g = fuzzy_in_row(code, d, part);
        let m = choose|m: int| 0 <= m < g.len() && g[m] == (code, bins[j]);
        assert(fuzzy_in_row(code, bins, part)[m] == g[m]);
    } else {
        assert(bins.last() == bins[j]);
        let g = fuzzy_in_row(code, bins, part);
        assert(g[g.len() - 1] == (code, bins[j]));
    }
}

/// With distinct paths, a module whose probe cannot match leaves its row as it was.
proof fn lemma_verify_unmatched(t: Map<Seq<char>, RowModel>, fs: Seq<FileModel>, n: u32, i: int)
    requires
        unique_paths(fs),
        0 <= i < fs.len(),
        !is_current(t, fs[i]),
        t.contains_key(fs[i].path),
    ensures
        verify_phase(t, fs, n).0[fs[i].path] == t[fs[i].path],
    decreases fs.len(),
{
    let d = fs.drop_last();
    lemma_verify_frame(t, d, n);
    if i == fs.len() - 1 {
        assert(fs.last() == fs[i]);
        if has_path(d, fs[i].path) {
            let j = choose|j: int| 0 <= j < d.len() && (#[trigger] d[j]).path == fs[i].path;
            assert(fs[j] == d[j]);
        }
    } else {
        assert(unique_paths(d)) by {
            assert forall|a: int, b: int| 0 <= a < d.len() && 0 <= b < d.len() && a != b implies (#[trigger] d[a]).path != (#[trigger] d[b]).path by {
                assert(d[a] == fs[a] && d[b] == fs[b]);
            }
        }
        assert(d[i] == fs[i]);
        lemma_verify_unmatched(t, d, n, i);
        assert(fs[fs.len() - 1] == fs.last());
    }
}

proof fn lemma_verify_same_modules(t: Map<Seq<char>, RowModel>, fs1: Seq<FileModel>, fs2: Seq<FileModel>, n: u32)
    requires
        unique_paths(fs1),
        unique_paths(fs2),
        forall|f: FileModel| fs1.contains(f) <==> fs2.contains(f),
    ensures
        verify_phase(t, fs1, n).0 == verify_phase(t, fs2, n).0,
{
    let v1 = verify_phase(t, fs1, n).0;
    let v2 = verify_phase(t, fs2, n).0;
    lemma_verify_frame(t, fs1, n);
    lemma_verify_frame(t, fs2, n);
    assert forall|p: Seq<char>| #[trigger] v1.contains_key(p) implies v1[p] == v2[p] by {
        if has_path(fs1, p) {
            let j1 = choose|j: int| 0 <= j < fs1.len() && (#[trigger] fs1[j]).path == p;
            assert(fs1.contains(fs1[j1]));
            let j2 = choose|j: int| 0 <= j < fs2.len() && fs2[j] == fs1[j1];
            if is_current(t, fs1[j1]) {
                lemma_verify_at(t, fs1, n, j1);
                lemma_verify_at(t, fs2, n, j2);
            } else {
                lemma_verify_unmatched(t, fs1, n, j1);
                lemma_verify_unmatched(t, fs2, n, j2);
            }
        } else if has_path(fs2, p) {
            let j2 = choose|j: int| 0 <= j < fs2.len() && (#[trigger] fs2[j]).path == p;
            assert(fs2.contains(fs2[j2]));
            let j1 = choose|j: int| 0 <= j < fs1.len() && fs1[j] == fs2[j2];
            assert(fs1[j1].path == p);
        }
    }
    assert(v1 =~= v2);
}

proof fn lemma_upsert_same_infos(t: Map<Seq<char>, RowModel>, a1: Seq<InfoModel>, a2: Seq<InfoModel>, n: u32)
    requires
        unique_info_paths(a1),
        unique_info_paths(a2),
        forall|x: InfoModel| a1.contains(x) <==> a2.contains(x),
    ensures
        upsert_phase(t, a1, n) == upsert_phase(t, a2, n),
{
    let u1 = upsert_phase(t, a1, n);
    let u2 = upsert_phase(t, a2, n);
    lemma_upsert_frame(t, a1, n);
    lemma_upsert_frame(t, a2, n);
    assert forall|p: Seq<char>| info_has_path(a1, p) <==> info_has_path(a2, p) by {
        if info_has_path(a1, p) {
            let k1 = choose|k: int| 0 <= k < a1.len() && (#[trigger] a1[k]).file.path == p;
            assert(a1.contains(a1[k1]));
            let k2 = choose|k: int| 0 <= k < a2.len() && a2[k] == a1[k1];
            assert(a2[k2].file.path == p);
        }
        if info_has_path(a2, p) {
            let k2 = choose|k: int| 0 <= k < a2.len() && (#[trigger] a2[k]).file.path == p;
            assert(a2.contains(a2[k2]));
            let k1 = choose|k: int| 0 <= k < a1.len() && a1[k] == a2[k2];
            assert(a1[k1].file.path == p);
        }
    }
    assert forall|p: Seq<char>| info_has_path(a1, p) implies #[trigger] u1.contains_key(p) && u2.contains_key(p)
        && u1[p] == u2[p] by {
        let k1 = choose|k: int| 0 <= k < a1.len() && (#[trigger] a1[k]).file.path == p;
        assert(a1.contains(a1[k1]));
        let k2 = choose|k: int| 0 <= k < a2.len() && a2[k] == a1[k1];
        lemma_upsert_at(t, a1, n, k1);
        lemma_upsert_at(t, a2, n, k2);
    }
    assert forall|p: Seq<char>| #[trigger] u1.contains_key(p) <==> u2.contains_key(p) by {
        if info_has_path(a1, p) {
            assert(u1.contains_key(p) && u2.contains_key(p));
        }
    }
    assert(u1 =~= u2);
}

/// Order independence: syncs over two lists that hold the same modules, each
/// path once, leave the same table; so the order in which the worker shards
/// commit does not matter.
pub proof fn lemma_order_independence(
    t: Map<Seq<char>, RowModel>,
    fs1: Seq<FileModel>,
    fs2: Seq<FileModel>,
    bins_of: spec_fn(FileModel) -> Option<Seq<Seq<char>>>,
    n: u32,
)
    requires
        unique_paths(fs1),
        unique_paths(fs2),
        forall|f: FileModel| fs1.contains(f) <==> fs2.contains(f),
    ensures
        sync_model(t, fs1, bins_of, n) == sync_model(t, fs2, bins_of, n),
{
    let v1 = verify_phase(t, fs1, n);
    let v2 = verify_phase(t, fs2, n);
    lemma_verify_same_modules(t, fs1, fs2, n);
    lemma_verify_stale(t, fs1, n);
    lemma_verify_stale(t, fs2, n);
    assert forall|f: FileModel| v1.1.contains(f) <==> v2.1.contains(f) by {
        if v1.1.contains(f) {
            let k = choose|k: int| 0 <= k < v1.1.len() && v1.1[k] == f;
            let j = choose|j: int| 0 <= j < fs1.len() && fs1[j] == #[trigger] v1.1[k] && !is_current(t, fs1[j]);
            assert(fs1.contains(fs1[j]));
            let j2 = choose|j2: int| 0 <= j2 < fs2.len() && fs2[j2] == fs1[j];
        }
        if v2.1.contains(f) {
            let k = choose|k: int| 0 <= k < v2.1.len() && v2.1[k] == f;
            let j = choose|j: int| 0 <= j < fs2.len() && fs2[j] == #[trigger] v2.1[k] && !is_current(t, fs2[j]);
            assert(fs2.contains(fs2[j]));
            let j1 = choose|j1: int| 0 <= j1 < fs1.len() && fs1[j1] == fs2[j];
        }
    }
    let a1 = analyzed(v1.1, bins_of);
    let a2 = analyzed(v2.1, bins_of);
    lemma_analyzed(v1.1, bins_of);
    lemma_analyzed(v2.1, bins_of);
    assert forall|x: InfoModel| a1.contains(x) <==> a2.contains(x) by {
        if a1.contains(x) {
            let k = choose|k: int| 0 <= k < a1.len() && a1[k] == x;
            let j = choose|j: int| 0 <= j < v1.1.len() && v1.1[j] == (#[trigger] a1[k]).file && bins_of(v1.1[j]) == Some(a1[k].bins);
            assert(v1.1.contains(v1.1[j]));
            let j2 = choose|j2: int| 0 <= j2 < v2.1.len() && v2.1[j2] == v1.1[j];
            assert(bins_of(v2.1[j2]) is Some);
        }
        if a2.contains(x) {
            let k = choose|k: int| 0 <= k < a2.len() && a2[k] == x;
            let j = choose|j: int| 0 <= j < v2.1.len() && v2.1[j] == (#[trigger] a2[k]).file && bins_of(v2.1[j]) == Some(a2[k].bins);
            assert(v2.1.contains(v2.1[j]));
            let j1 = choose|j1: int| 0 <= j1 < v1.1.len() && v1.1[j1] == v2.1[j];
            assert(bins_of(v1.1[j1]) is Some);
        }
    }
    lemma_upsert_same_infos(v1.0, a1, a2, n);
}

/// Search completeness for what the upsert stores: when a row's commands
/// column was written from a non-empty list of commands without `:`, every
/// command of the list is found by the exact search with the row's code, and
/// by the substring search with any part of it.
pub proof fn lemma_recorded_bins_found(
    rows: Seq<(Seq<char>, Seq<char>)>,
    i: int,
    bins: Seq<Seq<char>>,
    j: int,
    part: Seq<char>,
)
    requires
        0 <= i < rows.len(),
        rows[i].1 == bins_column(bins),
        bins.len() >= 1,
        forall|k: int| 0 <= k < bins.len() ==> !(#[trigger] bins[k]).contains(':'),
        0 <= j < bins.len(),
        occurs_in(part, bins[j]),
    ensures
        exact_results(rows, bins[j]).contains((rows[i].0, bins[j])),
        fuzzy_results(rows, part).contains((rows[i].0, bins[j])),
{
    lemma_split_join(bins, ':');
    assert(colon() == seq![':']);
    assert(bins.contains(bins[j]));
    lemma_search_completeness(rows, i, bins[j], part);
}

} // verus!
