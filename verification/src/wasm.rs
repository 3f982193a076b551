//! Compiled Wasm artifacts below a Cargo target directory.

use vstd::prelude::*;
use vstd::string::*;
use vstd::utf8::encode_utf8;
use crate::paths::{join, joined};
use crate::text::texts;
use crate::tree::byte_strings;

verus! {

/// Where a crate's Wasm artifact lies.
pub open spec fn wasm_location(
    target_dir: Seq<u8>,
    crate_name: Seq<char>,
    profile_target_dir: Seq<char>,
) -> Seq<u8> {
    joined(
        joined(
            joined(target_dir, encode_utf8("wasm32-unknown-unknown"@)),
            encode_utf8(profile_target_dir),
        ),
        encode_utf8(crate_name + ".wasm"@),
    )
}

/// Resolve one crate's Wasm artifact under a caller-selected Cargo target directory.
pub fn wasm_path(target_dir: &[u8], crate_name: &str, profile_target_dir: &str) -> (path: Vec<u8>)
    ensures
        path@ == wasm_location(target_dir@, crate_name@, profile_target_dir@),
{
    let mut file = crate_name.to_owned();
    file.append(".wasm");
    let target = join(target_dir, "wasm32-unknown-unknown".as_bytes());
    let profile = join(target.as_slice(), profile_target_dir.as_bytes());
    join(profile.as_slice(), file.as_str().as_bytes())
}

/// Where the Wasm artifacts of all crates lie.
pub open spec fn wasm_locations(
    target_dir: Seq<u8>,
    crate_names: Seq<Seq<char>>,
    profile_target_dir: Seq<char>,
) -> Seq<Seq<u8>> {
    crate_names.map_values(
        |crate_name: Seq<char>| wasm_location(target_dir, crate_name, profile_target_dir),
    )
}

/// The Wasm artifacts that have to be regular files for all crates to be ready.
pub fn wasm_paths(
    target_dir: &[u8],
    canisters: &Vec<String>,
    profile_target_dir: &str,
) -> (paths: Vec<Vec<u8>>)
    ensures
        byte_strings(paths@) == wasm_locations(
            target_dir@,
            texts(canisters@),
            profile_target_dir@,
        ),
{
    let ghost all = wasm_locations(target_dir@, texts(canisters@), profile_target_dir@);
    let mut paths: Vec<Vec<u8>> = Vec::new();
    let mut at: usize = 0;
    assert(byte_strings(paths@) =~= all.take(0));
    while at < canisters.len()
        invariant
            at <= canisters@.len(),
            all == wasm_locations(target_dir@, texts(canisters@), profile_target_dir@),
            byte_strings(paths@) == all.take(at as int),
        decreases canisters.len() - at,
    {
        let ghost before = paths@;
        assert(texts(canisters@)[at as int] == canisters@[at as int]@);
        paths.push(wasm_path(target_dir, canisters[at].as_str(), profile_target_dir));
        proof {
            assert(byte_strings(paths@) =~= byte_strings(before).push(all[at as int]));
            assert(all.take(at + 1) =~= all.take(at as int).push(all[at as int]));
        }
        at = at + 1;
    }
    assert(all.take(at as int) =~= all);
    paths
}

/// Check whether every requested Wasm artifact is a regular file.
///
/// `is_file` tells of each path of [`wasm_paths`] whether it is one.
pub fn wasm_artifacts_ready(is_file: &Vec<bool>) -> (ready: bool)
    ensures
        ready == (forall|i: int| 0 <= i < is_file@.len() ==> #[trigger] is_file@[i]),
{
    let mut at: usize = 0;
    while at < is_file.len()
        invariant
            at <= is_file@.len(),
            forall|i: int| 0 <= i < at ==> #[trigger] is_file@[i],
        decreases is_file.len() - at,
    {
        if !is_file[at] {
            return false;
        }
        at = at + 1;
    }
    true
}

/// Every crate has its own location, in order: `<name>.wasm` in the directory of its profile.
pub proof fn lemma_every_crate_has_a_location(
    target_dir: Seq<u8>,
    crate_names: Seq<Seq<char>>,
    profile_target_dir: Seq<char>,
)
    ensures
        wasm_locations(target_dir, crate_names, profile_target_dir).len() == crate_names.len(),
        forall|i: int| #![trigger crate_names[i]]
            0 <= i < crate_names.len() ==> wasm_locations(
                target_dir,
                crate_names,
                profile_target_dir,
            )[i] == joined(
                joined(
                    joined(target_dir, encode_utf8("wasm32-unknown-unknown"@)),
                    encode_utf8(profile_target_dir),
                ),
                encode_utf8(crate_names[i] + ".wasm"@),
            ),
{
}

} // verus!
