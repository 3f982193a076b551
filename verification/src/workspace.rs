//! Workspace and target directories.

use vstd::prelude::*;
use vstd::string::*;
use vstd::utf8::{encode_utf8, is_ascii_chars};
use crate::path_laws::lemma_parent_drops_the_last_component;
use crate::paths::{components, file_name, file_name_of, join, joined, parent, parent_path};
use crate::text::{bytes_of, is_text};

verus! {

/// Whether a crate lies directly below a directory called `crates`.
pub open spec fn is_workspace_member(manifest_dir: Seq<u8>) -> bool {
    parent_path(manifest_dir) matches Some(directory) && file_name_of(directory) == Some(
        encode_utf8("crates"@),
    )
}

/// Resolve the workspace root from a crate manifest directory.
pub fn workspace_root_for(crate_manifest_dir: &str) -> (root: Vec<u8>)
    ensures
        root@ == ({
            let manifest_dir = encode_utf8(crate_manifest_dir@);
            if is_workspace_member(manifest_dir) {
                parent_path(parent_path(manifest_dir)->0)->0
            } else {
                manifest_dir
            }
        }),
{
    let manifest_dir = bytes_of(crate_manifest_dir);
    if let Some(directory) = parent(manifest_dir.as_slice()) {
        if let Some(name) = file_name(directory.as_slice()) {
            if is_text(name.as_slice(), "crates") {
                assert(components(directory@).last() == name@);
                assert(parent_path(directory@) is Some);
                if let Some(root) = parent(directory.as_slice()) {
                    return root;
                }
            }
        }
    }
    manifest_dir
}

/// Return a stable target directory for host-side wasm test artifacts.
pub fn test_target_dir(workspace_root: &[u8], name: &str) -> (path: Vec<u8>)
    ensures
        path@ == joined(joined(workspace_root@, encode_utf8("target"@)), encode_utf8(name@)),
{
    let target = join(workspace_root, "target".as_bytes());
    join(target.as_slice(), name.as_bytes())
}

/// A crate below `crates` belongs to the workspace that holds that directory.
pub proof fn lemma_workspace_holds_crates(manifest_dir: Seq<u8>)
    ensures
        is_workspace_member(manifest_dir) ==> {
            let all = components(manifest_dir);
            &&& all.len() >= 2
            &&& all[all.len() - 2] == encode_utf8("crates"@)
            &&& parent_path(parent_path(manifest_dir)->0) is Some
            &&& components(parent_path(parent_path(manifest_dir)->0)->0) == all.take(all.len() - 2)
        },
        components(manifest_dir).len() >= 2 && components(manifest_dir).last() != seq![47u8]
            && components(manifest_dir)[components(manifest_dir).len() - 2] == encode_utf8(
            "crates"@,
        ) ==> is_workspace_member(manifest_dir),
{
    let all = components(manifest_dir);
    lemma_parent_drops_the_last_component(manifest_dir);
    let name = "crates"@;
    reveal_strlit("crates");
    assert(is_ascii_chars(name));
    vstd::utf8::is_ascii_chars_encode_utf8(name);
    assert(encode_utf8(name).len() == 6);
    if parent_path(manifest_dir) is Some {
        let directory = parent_path(manifest_dir)->0;
        lemma_parent_drops_the_last_component(directory);
        if is_workspace_member(manifest_dir) {
            assert(components(directory).last() == all[all.len() - 2]);
            assert(all.drop_last().drop_last() =~= all.take(all.len() - 2));
        }
        if all.len() >= 2 && all[all.len() - 2] == encode_utf8(name) {
            assert(components(directory).last() == encode_utf8(name));
        }
    }
}

} // verus!
