//! The version gate and the version marker: deciding whether a run must
//! update, and where the marker lives inside the destination tree.

use crate::paths::path_view;
use crate::tree::TreeModel;
use vstd::prelude::*;
use vstd::string::StringSliceAdditionalSpecFns;

verus! {

/// Returns true iff the local marker is absent or differs byte-for-byte from
/// the declared version. No normalization is applied; equal values mean the
/// destination is up to date.
pub fn needs_update(local_marker: Option<&String>, declared_version: &String) -> (r: bool)
    ensures
        local_marker is None ==> r,
        local_marker matches Some(m) ==> r == (m@ != declared_version@),
{
    match local_marker {
        None => true,
        Some(m) => !m.eq(declared_version),
    }
}

/// The marker's path inside the destination tree: `version.txt` at the root.
pub open spec fn marker_path() -> Seq<Seq<u8>> {
    seq!["version.txt".spec_bytes()]
}

/// The bytes that a committed marker holds for version `v`: exactly the
/// token's UTF-8 bytes, nothing appended.
pub open spec fn version_bytes(v: Seq<char>) -> Seq<u8> {
    vstd::utf8::encode_utf8(v)
}

/// The destination already records `v`: the marker file is present and holds
/// exactly the version's bytes.
pub open spec fn marker_current(m: TreeModel, v: Seq<char>) -> bool {
    m.files.contains_key(marker_path()) && m.files[marker_path()] == version_bytes(v)
}

/// The destination after committing version `v`: the marker file is written
/// with truncate semantics, everything else untouched.
pub open spec fn committed(m: TreeModel, v: Seq<char>) -> TreeModel {
    TreeModel { files: m.files.insert(marker_path(), version_bytes(v)), dirs: m.dirs }
}

/// The marker path as a concrete segment vector.
pub fn marker_path_vec() -> (r: Vec<Vec<u8>>)
    ensures
        path_view(r) == marker_path(),
{
    let seg = vstd::slice::slice_to_vec("version.txt".as_bytes());
    let mut r: Vec<Vec<u8>> = Vec::new();
    r.push(seg);
    proof {
        assert(path_view(r) =~= marker_path());
    }
    r
}

} // verus!
