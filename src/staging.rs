//! Which mod folders are staged for packaging, what a copy skips, and when
//! script sources need compiling.
use vstd::prelude::*;
use crate::path::{ends_with, same_text, text_ends_with};

verus! {

/// A mod folder is staged when it has a manifest and no ignore marker.
pub fn should_stage(has_ignore_marker: bool, has_manifest: bool) -> (r: bool)
    ensures
        r == (!has_ignore_marker && has_manifest),
{
    !has_ignore_marker && has_manifest
}

/// Copying a mod folder leaves out version-control directories.
pub fn skips_directory(name: &str) -> (r: bool)
    ensures
        r == (name@ == ".git"@),
{
    same_text(name, ".git")
}

/// A mod needs its script sources compiled when some source among
/// `ts_paths` is not a declaration file (ending in `.d.ts`).
pub fn needs_compile(ts_paths: &Vec<String>) -> (r: bool)
    ensures
        r == exists|i: int| 0 <= i < ts_paths@.len() && !ends_with(#[trigger] ts_paths@[i]@, ".d.ts"@),
{
    let mut i: usize = 0;
    while i < ts_paths.len()
        invariant
            i <= ts_paths@.len(),
            forall|j: int| 0 <= j < i ==> ends_with(#[trigger] ts_paths@[j]@, ".d.ts"@),
        decreases ts_paths@.len() - i,
    {
        if !text_ends_with(ts_paths[i].as_str(), ".d.ts") {
            return true;
        }
        i = i + 1;
    }
    false
}

} // verus!
