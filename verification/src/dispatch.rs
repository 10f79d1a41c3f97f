//! Entry dispatch: classifies every entry of the unpacked tree and routes
//! it — directories are mirrored, recognized images go to conversion,
//! everything else is copied verbatim — and summarizes per-entry outcomes
//! with entry-level failures contained.

use vstd::prelude::*;

use crate::job::Conversion;
use crate::paths::{
    spec_is_image, spec_join, spec_strip_prefix, spec_with_extension,
};

verus! {

/// How one entry of the unpacked tree is routed.
pub enum EntryDisposition {
    /// Mirror the directory at `dest` in the output root.
    MakeDir { dest: Vec<u8> },
    /// Copy the file at `src` verbatim to `dest`.
    CopyOpaque { src: Vec<u8>, dest: Vec<u8> },
    /// Convert the image at `src`, writing the result to `dest`.
    ConvertImage { src: Vec<u8>, dest: Vec<u8> },
    /// Leave the entry alone: it does not lie under the source root.
    Skip { path: Vec<u8> },
}

/// The disposition planned for an entry mirrors the classification rules:
/// entries outside the source root are skipped, directories are mirrored,
/// images are converted with the configured extension at the mirrored
/// path, and everything else is copied to the mirrored path.
pub open spec fn dispatch_ok(
    a: EntryDisposition,
    path: Seq<u8>,
    is_dir: bool,
    source_root: Seq<u8>,
    target_root: Seq<u8>,
    ext: Seq<u8>,
) -> bool {
    match a {
        EntryDisposition::Skip { path: p } => {
            &&& p@ == path
            &&& spec_strip_prefix(path, source_root) is None
        },
        EntryDisposition::MakeDir { dest } => {
            &&& is_dir
            &&& spec_strip_prefix(path, source_root) matches Some(rel) && dest@ == spec_join(
                target_root,
                rel,
            )
        },
        EntryDisposition::CopyOpaque { src, dest } => {
            &&& !is_dir
            &&& src@ == path
            &&& spec_strip_prefix(path, source_root) matches Some(rel) && !spec_is_image(rel)
                && dest@ == spec_join(target_root, rel)
        },
        EntryDisposition::ConvertImage { src, dest } => {
            &&& !is_dir
            &&& src@ == path
            &&& spec_strip_prefix(path, source_root) matches Some(rel) && spec_is_image(rel)
                && dest@ == spec_with_extension(spec_join(target_root, rel), ext)
        },
    }
}

/// Routes one entry of the unpacked tree.
pub fn dispatch_entry(
    path: &[u8],
    is_dir: bool,
    source_root: &[u8],
    target_root: &[u8],
    cfg: &Conversion,
) -> (a: EntryDisposition)
    ensures
        dispatch_ok(a, path@, is_dir, source_root@, target_root@, cfg.extension@),
{
    let rel = match crate::paths::strip_prefix(path, source_root) {
        None => {
            return EntryDisposition::Skip { path: crate::text::dup_bytes(path) };
        },
        Some(rel) => rel,
    };
    if is_dir {
        let dest = crate::paths::join_path(target_root, rel.as_slice());
        return EntryDisposition::MakeDir { dest };
    }
    if crate::paths::is_image_path(rel.as_slice()) {
        let mirrored = crate::paths::join_path(target_root, rel.as_slice());
        let dest = crate::paths::with_extension(mirrored.as_slice(), cfg.extension.as_slice());
        EntryDisposition::ConvertImage { src: crate::text::dup_bytes(path), dest }
    } else {
        let dest = crate::paths::join_path(target_root, rel.as_slice());
        EntryDisposition::CopyOpaque { src: crate::text::dup_bytes(path), dest }
    }
}

/// Routes a whole entry listing, in order.
pub fn plan_entries(
    entries: &Vec<(Vec<u8>, bool)>,
    source_root: &[u8],
    target_root: &[u8],
    cfg: &Conversion,
) -> (acts: Vec<EntryDisposition>)
    ensures
        acts@.len() == entries@.len(),
        forall|i: int|
            0 <= i < acts@.len() ==> dispatch_ok(
                acts@[i],
                entries@[i].0@,
                entries@[i].1,
                source_root@,
                target_root@,
                cfg.extension@,
            ),
{
    let mut acts: Vec<EntryDisposition> = Vec::new();
    let mut i: usize = 0;
    while i < entries.len()
        invariant
            0 <= i <= entries@.len(),
            acts@.len() == i,
            forall|j: int|
                0 <= j < i ==> dispatch_ok(
                    acts@[j],
                    entries@[j].0@,
                    entries@[j].1,
                    source_root@,
                    target_root@,
                    cfg.extension@,
                ),
        decreases entries@.len() - i,
    {
        let a = dispatch_entry(
            entries[i].0.as_slice(),
            entries[i].1,
            source_root,
            target_root,
            cfg,
        );
        acts.push(a);
        i += 1;
    }
    acts
}

/// An entry listing (paths and directory flags) in ascending lexicographic
/// path order.
pub open spec fn entries_sorted(es: Seq<(Seq<u8>, bool)>) -> bool {
    forall|i: int, j: int| 0 <= i < j < es.len() ==> crate::text::lex_le(es[i].0, es[j].0)
}

/// The plan routes, in order, the entries of some lexicographically sorted
/// listing.
pub open spec fn plan_of_sorted_listing(
    acts: Seq<EntryDisposition>,
    source_root: Seq<u8>,
    target_root: Seq<u8>,
    ext: Seq<u8>,
) -> bool {
    exists|es: Seq<(Seq<u8>, bool)>|
        {
            &&& #[trigger] es.len() == acts.len()
            &&& entries_sorted(es)
            &&& forall|i: int|
                0 <= i < acts.len() ==> dispatch_ok(
                    acts[i],
                    es[i].0,
                    es[i].1,
                    source_root,
                    target_root,
                    ext,
                )
        }
}

/// Walks the unpacked tree, sorts what it found lexicographically by path,
/// and routes every entry in that order. Since every ancestor directory's
/// path sorts strictly before the paths beneath it (see
/// `lemma_sorted_listing_parents_first`), each directory is planned no
/// later than any of its descendants. What the walk yields depends on the
/// disk, so the plan is only known to route some sorted listing.
pub fn plan_processing(source_root: &[u8], target_root: &[u8], cfg: &Conversion) -> (r: Result<
    Vec<EntryDisposition>,
    crate::errors::PipelineError,
>)
    ensures
        match r {
            Ok(acts) => plan_of_sorted_listing(
                acts@,
                source_root@,
                target_root@,
                cfg.extension@,
            ),
            Err(e) => e is Filesystem,
        },
{
    let mut entries = match crate::walk::walk_tree(source_root) {
        Ok(entries) => entries,
        Err(m) => {
            return Err(crate::errors::PipelineError::Filesystem { message: m });
        },
    };
    crate::text::sort_entries(&mut entries);
    let acts = plan_entries(&entries, source_root, target_root, cfg);
    proof {
        let es = Seq::new(entries@.len(), |i: int| (entries@[i].0@, entries@[i].1));
        assert(es.len() == acts@.len());
        assert(entries_sorted(es));
        assert forall|i: int|
            0 <= i < acts@.len() implies dispatch_ok(
            acts@[i],
            es[i].0,
            es[i].1,
            source_root@,
            target_root@,
            cfg.extension@,
        ) by {
            assert(es[i].0 == entries@[i].0@);
            assert(es[i].1 == entries@[i].1);
        }
        assert(plan_of_sorted_listing(acts@, source_root@, target_root@, cfg.extension@));
    }
    Ok(acts)
}

/// LAW (parents first): in a lexicographically sorted listing an entry
/// stands strictly before every entry whose path lies beneath its own, so
/// a directory's creation is planned before anything under it is written.
pub proof fn lemma_sorted_listing_parents_first(
    es: Seq<(Seq<u8>, bool)>,
    i: int,
    j: int,
    rest: Seq<u8>,
)
    requires
        entries_sorted(es),
        0 <= i < es.len(),
        0 <= j < es.len(),
        es[j].0 == es[i].0 + seq![crate::pattern::SEP] + rest,
    ensures
        i < j,
{
    crate::text::lemma_lex_le_prefix(es[i].0, seq![crate::pattern::SEP] + rest);
    assert(es[i].0 + (seq![crate::pattern::SEP] + rest) =~= es[j].0);
    assert(es[j].0.len() > es[i].0.len());
    if j < i {
        crate::text::lemma_lex_antisym(es[j].0, es[i].0);
        assert(false);
    }
    if j == i {
        assert(false);
    }
}

/// Whether a disposition produces an output file when it succeeds, and at
/// which path.
pub open spec fn action_output(a: EntryDisposition) -> Option<Seq<u8>> {
    match a {
        EntryDisposition::CopyOpaque { src, dest } => Some(dest@),
        EntryDisposition::ConvertImage { src, dest } => Some(dest@),
        EntryDisposition::MakeDir { dest } => None,
        EntryDisposition::Skip { path } => None,
    }
}

/// The output files of the dispositions whose outcome succeeded, in plan
/// order.
pub open spec fn produced_files(acts: Seq<EntryDisposition>, ok: Seq<bool>) -> Seq<Seq<u8>>
    decreases acts.len(),
{
    if acts.len() == 0 {
        Seq::empty()
    } else {
        let head = produced_files(acts.drop_last(), ok.drop_last());
        match action_output(acts.last()) {
            Some(dest) => if ok.len() > 0 && ok.last() {
                head.push(dest)
            } else {
                head
            },
            None => head,
        }
    }
}

/// How many file-producing dispositions failed.
pub open spec fn failure_count(acts: Seq<EntryDisposition>, ok: Seq<bool>) -> int
    decreases acts.len(),
{
    if acts.len() == 0 {
        0
    } else {
        let head = failure_count(acts.drop_last(), ok.drop_last());
        match action_output(acts.last()) {
            Some(dest) => if ok.len() > 0 && !ok.last() {
                head + 1
            } else {
                head
            },
            None => head,
        }
    }
}

/// What one job run produced and how many entries failed on the way.
pub struct JobReport {
    /// Paths of the output files that were produced.
    pub produced: Vec<Vec<u8>>,
    /// How many per-entry failures were reported; none of them aborts the
    /// job.
    pub failures: usize,
}

/// Summarizes the per-entry outcomes of one job: every failure is counted,
/// none aborts the job, and the produced set holds exactly the outputs of
/// the successful file-producing dispositions.
pub fn summarize_outcomes(acts: &Vec<EntryDisposition>, ok: &Vec<bool>) -> (rep: JobReport)
    requires
        ok@.len() == acts@.len(),
    ensures
        rep.produced@.map_values(|v: Vec<u8>| v@) == produced_files(acts@, ok@),
        rep.failures as int == failure_count(acts@, ok@),
{
    let mut produced: Vec<Vec<u8>> = Vec::new();
    let mut failures: usize = 0;
    let mut i: usize = 0;
    proof {
        assert(acts@.take(0) =~= Seq::<EntryDisposition>::empty());
        assert(produced@.map_values(|v: Vec<u8>| v@) =~= Seq::<Seq<u8>>::empty());
    }
    while i < acts.len()
        invariant
            ok@.len() == acts@.len(),
            0 <= i <= acts@.len(),
            failures <= i,
            produced@.map_values(|v: Vec<u8>| v@) == produced_files(
                acts@.take(i as int),
                ok@.take(i as int),
            ),
            failures as int == failure_count(acts@.take(i as int), ok@.take(i as int)),
        decreases acts@.len() - i,
    {
        let ghost pre = produced@;
        proof {
            assert(acts@.take(i + 1).drop_last() =~= acts@.take(i as int));
            assert(ok@.take(i + 1).drop_last() =~= ok@.take(i as int));
            assert(acts@.take(i + 1).last() == acts@[i as int]);
            assert(ok@.take(i + 1).last() == ok@[i as int]);
        }
        let succeeded = ok[i];
        match &acts[i] {
            EntryDisposition::CopyOpaque { src, dest } => {
                if succeeded {
                    produced.push(crate::text::dup_bytes(dest.as_slice()));
                    proof {
                        assert(produced@.map_values(|v: Vec<u8>| v@) =~= pre.map_values(
                            |v: Vec<u8>| v@,
                        ).push(produced@.last()@));
                    }
                } else {
                    failures += 1;
                }
            },
            EntryDisposition::ConvertImage { src, dest } => {
                if succeeded {
                    produced.push(crate::text::dup_bytes(dest.as_slice()));
                    proof {
                        assert(produced@.map_values(|v: Vec<u8>| v@) =~= pre.map_values(
                            |v: Vec<u8>| v@,
                        ).push(produced@.last()@));
                    }
                } else {
                    failures += 1;
                }
            },
            EntryDisposition::MakeDir { dest } => {},
            EntryDisposition::Skip { path } => {},
        }
        i += 1;
    }
    proof {
        assert(acts@.take(acts@.len() as int) =~= acts@);
        assert(ok@.take(ok@.len() as int) =~= ok@);
    }
    JobReport { produced, failures }
}

/// LAW (opaque-entry fidelity): a file routed to a verbatim copy keeps its
/// relative path — the planned destination lies under the target root at
/// exactly the path the source had under the source root.
pub proof fn lemma_opaque_copy_keeps_relative_path(
    a: EntryDisposition,
    path: Seq<u8>,
    source_root: Seq<u8>,
    target_root: Seq<u8>,
    ext: Seq<u8>,
    rel: Seq<u8>,
)
    requires
        dispatch_ok(a, path, false, source_root, target_root, ext),
        a is CopyOpaque,
        spec_strip_prefix(path, source_root) == Some(rel),
        target_root.len() > 0,
        target_root[target_root.len() - 1] != crate::pattern::SEP,
    ensures
        a matches EntryDisposition::CopyOpaque { src, dest } && spec_strip_prefix(
            dest@,
            target_root,
        ) == Some(rel),
{
    crate::paths::lemma_join_strip_inverse(target_root, rel);
}

/// Field-wise equality of two dispositions.
pub open spec fn disposition_eq(a: EntryDisposition, b: EntryDisposition) -> bool {
    match (a, b) {
        (EntryDisposition::Skip { path: p1 }, EntryDisposition::Skip { path: p2 }) => p1@ == p2@,
        (EntryDisposition::MakeDir { dest: d1 }, EntryDisposition::MakeDir { dest: d2 }) => d1@
            == d2@,
        (
            EntryDisposition::CopyOpaque { src: s1, dest: d1 },
            EntryDisposition::CopyOpaque { src: s2, dest: d2 },
        ) => s1@ == s2@ && d1@ == d2@,
        (
            EntryDisposition::ConvertImage { src: s1, dest: d1 },
            EntryDisposition::ConvertImage { src: s2, dest: d2 },
        ) => s1@ == s2@ && d1@ == d2@,
        _ => false,
    }
}

/// LAW: dispatch is a function of its declared inputs alone — two
/// dispositions planned for the same entry under the same roots and
/// configuration are equal — so re-running a job over the same extracted
/// tree plans the same entry set again.
pub proof fn lemma_dispatch_deterministic(
    a: EntryDisposition,
    b: EntryDisposition,
    path: Seq<u8>,
    is_dir: bool,
    source_root: Seq<u8>,
    target_root: Seq<u8>,
    ext: Seq<u8>,
)
    requires
        dispatch_ok(a, path, is_dir, source_root, target_root, ext),
        dispatch_ok(b, path, is_dir, source_root, target_root, ext),
    ensures
        disposition_eq(a, b),
{
}

} // verus!
