//! Trusted boundary to the filesystem walker of the `globwalk` crate.
//!
//! What a walk yields depends on the disk at the moment of the walk, so the
//! items here promise nothing of the entries; the callers state what holds
//! whatever comes back.

use vstd::prelude::*;

verus! {

/// Relies on `globwalk::glob_builder` and the walker it builds: returns the
/// paths of the plain files matching `pattern`, in walk order, skipping
/// entries the walker could not read and paths that are not valid Unicode.
#[verifier::external_body]
pub fn walk_matched_files(pattern: &[u8]) -> (r: Result<Vec<Vec<u8>>, Vec<u8>>) {
    let pat = std::str::from_utf8(pattern).map_err(|e| format!("{}", e).into_bytes())?;
    let builder = globwalk::glob_builder(pat).file_type(globwalk::FileType::FILE);
    let walker = builder.build().map_err(|e| format!("{}", e).into_bytes())?;
    let mut out: Vec<Vec<u8>> = Vec::new();
    for entry in walker.filter_map(Result::ok) {
        if let Some(s) = entry.path().to_str() {
            out.push(s.as_bytes().to_vec());
        }
    }
    Ok(out)
}

/// Relies on `globwalk::GlobWalkerBuilder::from_patterns` with the
/// match-everything pattern and the walker it builds: returns every entry
/// under `root` as its path bytes paired with whether it is a directory,
/// parents listed before their contents, skipping entries the walker could
/// not read and paths that are not valid Unicode.
#[verifier::external_body]
pub fn walk_tree(root: &[u8]) -> (r: Result<Vec<(Vec<u8>, bool)>, Vec<u8>>) {
    let base = std::str::from_utf8(root).map_err(|e| format!("{}", e).into_bytes())?;
    let builder = globwalk::GlobWalkerBuilder::from_patterns(base, &["**/*"]).file_type(
        globwalk::FileType::FILE | globwalk::FileType::DIR,
    ).contents_first(false);
    let walker = builder.build().map_err(|e| format!("{}", e).into_bytes())?;
    let mut out: Vec<(Vec<u8>, bool)> = Vec::new();
    for entry in walker.filter_map(Result::ok) {
        if let Some(s) = entry.path().to_str() {
            out.push((s.as_bytes().to_vec(), entry.file_type().is_dir()));
        }
    }
    Ok(out)
}

} // verus!
