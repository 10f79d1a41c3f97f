//! Unpack planning: turns an archive's entry listing into the filesystem
//! actions that populate the scratch tree, rejecting entries whose names
//! would resolve outside it.

use vstd::prelude::*;

use crate::errors::PipelineError;
use crate::paths::{has_dotdot, safe_rel, spec_join};
use crate::pattern::SEP;
use crate::text::{dup_bytes, take_bytes};

verus! {

/// One entry of the source archive, as its name bytes and its stored POSIX
/// permission bits, when the archive holds any.
pub struct ArchiveEntry {
    /// The entry's name within the archive.
    pub name: Vec<u8>,
    /// The stored POSIX permission bits, if present.
    pub mode: Option<u32>,
}

/// One filesystem action of an unpack plan; `rel` is always relative to
/// the extraction root, and `index` names the archive entry it came from.
pub enum UnpackAction {
    /// Create the directory `rel` (and its ancestors) under the root.
    MakeDir { index: usize, rel: Vec<u8>, mode: Option<u32> },
    /// Write the bytes of archive entry `index` to `rel` under the root,
    /// creating ancestor directories as needed.
    WriteFile { index: usize, rel: Vec<u8>, mode: Option<u32> },
}

/// An entry denotes a directory exactly when its name ends with the
/// separator.
pub open spec fn entry_is_dir(name: Seq<u8>) -> bool {
    name.len() > 0 && name[name.len() - 1] == SEP
}

/// The path an entry materializes at, relative to the extraction root: its
/// name without the trailing separator of a directory entry.
pub open spec fn entry_rel(name: Seq<u8>) -> Seq<u8> {
    if entry_is_dir(name) {
        name.take(name.len() - 1)
    } else {
        name
    }
}

/// An entry is safe exactly when the path it materializes at is a safe
/// relative path.
pub open spec fn entry_safe(name: Seq<u8>) -> bool {
    safe_rel(entry_rel(name))
}

/// The action planned for entry `i` mirrors that entry: same index, the
/// entry's relative path, its permission bits, and its kind.
pub open spec fn unpack_action_ok(a: UnpackAction, name: Seq<u8>, mode: Option<u32>, i: int) -> bool {
    match a {
        UnpackAction::MakeDir { index, rel, mode: m } => {
            &&& entry_is_dir(name)
            &&& index == i
            &&& rel@ == entry_rel(name)
            &&& m == mode
            &&& safe_rel(rel@)
        },
        UnpackAction::WriteFile { index, rel, mode: m } => {
            &&& !entry_is_dir(name)
            &&& index == i
            &&& rel@ == entry_rel(name)
            &&& m == mode
            &&& safe_rel(rel@)
        },
    }
}

/// Plans the unpacking of an archive: one action per entry, in archive
/// order. Fails with `UnsafeArchiveEntry`, planning nothing, exactly when
/// some entry's name would resolve outside the extraction root.
pub fn plan_unpack(entries: &Vec<ArchiveEntry>) -> (r: Result<Vec<UnpackAction>, PipelineError>)
    ensures
        (match r {
            Ok(_) => true,
            Err(_) => false,
        }) <==> (forall|i: int| 0 <= i < entries@.len() ==> entry_safe(entries@[i].name@)),
        match r {
            Ok(acts) => {
                &&& acts@.len() == entries@.len()
                &&& forall|i: int|
                    0 <= i < acts@.len() ==> unpack_action_ok(
                        acts@[i],
                        entries@[i].name@,
                        entries@[i].mode,
                        i,
                    )
            },
            Err(e) => e is UnsafeArchiveEntry,
        },
{
    let mut acts: Vec<UnpackAction> = Vec::new();
    let mut i: usize = 0;
    while i < entries.len()
        invariant
            0 <= i <= entries@.len(),
            acts@.len() == i,
            forall|j: int| 0 <= j < i ==> entry_safe(entries@[j].name@),
            forall|j: int|
                0 <= j < i ==> unpack_action_ok(acts@[j], entries@[j].name@, entries@[j].mode, j),
        decreases entries@.len() - i,
    {
        let name = &entries[i].name;
        let is_dir = name.len() > 0 && name[name.len() - 1] == SEP;
        let rel = if is_dir {
            take_bytes(name.as_slice(), name.len() - 1)
        } else {
            dup_bytes(name.as_slice())
        };
        if !crate::paths::is_safe_rel(rel.as_slice()) {
            return Err(PipelineError::UnsafeArchiveEntry { name: dup_bytes(name.as_slice()) });
        }
        let mode = entries[i].mode;
        if is_dir {
            acts.push(UnpackAction::MakeDir { index: i, rel, mode });
        } else {
            acts.push(UnpackAction::WriteFile { index: i, rel, mode });
        }
        i += 1;
    }
    Ok(acts)
}

/// LAW: a safe relative path joined under a root stays strictly below that
/// root: the joined path extends the root with a separator, the remainder
/// is the relative path itself, and no parent-directory component follows
/// the root.
pub proof fn lemma_safe_join_stays_under(root: Seq<u8>, rel: Seq<u8>)
    requires
        safe_rel(rel),
        root.len() > 0,
        root[root.len() - 1] != SEP,
    ensures
        spec_join(root, rel).len() > root.len() + 1,
        spec_join(root, rel).take(root.len() as int) == root,
        spec_join(root, rel)[root.len() as int] == SEP,
        spec_join(root, rel).skip(root.len() as int + 1) == rel,
        !has_dotdot(spec_join(root, rel).skip(root.len() as int + 1)),
{
    let full = spec_join(root, rel);
    assert(full == root + seq![SEP] + rel);
    assert(full.take(root.len() as int) =~= root);
    assert(full.skip(root.len() as int + 1) =~= rel);
}

} // verus!
