//! Where a transactional cache keeps its entries, staging directories and locks.

use vstd::prelude::*;
use vstd::string::*;
use vstd::utf8::{encode_utf8, is_ascii_chars, valid_utf8};
use super::spec::ArtifactCacheSpec;
use crate::cache_fs::{is_hex_byte, is_sha256_directory, is_sha256_name};
use crate::digest::{digest_bytes, digest_of, field, hex, lemma_hex_text, InputDigest};
use crate::paths::{join, joined};
use crate::text::{
    decimal, decimal_text, has_prefix, is_utf8, lemma_decimal_digits, lemma_padded_injective,
    lossy, lossy_text, padded, padded_text,
};

verus! {

/// Name of the manifest inside a committed entry.
pub const MANIFEST_FILE: &'static str = "manifest.ic-testkit";

/// Directory of output files inside a staging directory or an entry.
pub const OUTPUTS_DIRECTORY: &'static str = "outputs";

/// Hexadecimal digest that stands for an identifier in file names.
pub open spec fn identifier_name(domain: Seq<char>, identifier: Seq<char>) -> Seq<char> {
    hex(digest_of(domain, seq![field("content"@, encode_utf8(identifier))]))
}

/// Hexadecimal digest that stands for an identifier in file names.
pub fn identifier_digest(domain: &str, identifier: &str) -> (name: String)
    ensures
        name@ == identifier_name(domain@, identifier@),
{
    digest_bytes(domain, identifier.as_bytes()).to_hex()
}

fn below(base: &[u8], directory: &str, name: &str, suffix: &str) -> (path: Vec<u8>)
    ensures
        path@ == joined(joined(base@, encode_utf8(directory@)), encode_utf8(name@ + suffix@)),
{
    let mut file = name.to_owned();
    file.append(suffix);
    join(join(base, directory.as_bytes()).as_slice(), file.as_str().as_bytes())
}

/// Directory of a namespace.
pub open spec fn namespace_path(cache_root: Seq<u8>, namespace: Seq<char>) -> Seq<u8> {
    joined(
        joined(cache_root, encode_utf8(".ic-testkit/artifact-sets/namespaces"@)),
        encode_utf8(identifier_name("artifact-cache-namespace-v1"@, namespace)),
    )
}

/// Directory of a namespace.
pub fn namespace_directory_for(cache_root: &[u8], namespace: &str) -> (path: Vec<u8>)
    ensures
        path@ == namespace_path(cache_root@, namespace@),
{
    let name = identifier_digest("artifact-cache-namespace-v1", namespace);
    join(
        join(cache_root, ".ic-testkit/artifact-sets/namespaces".as_bytes()).as_slice(),
        name.as_str().as_bytes(),
    )
}

/// Directory of the namespace of a description.
pub fn namespace_directory(spec: &ArtifactCacheSpec) -> (path: Vec<u8>)
    ensures
        path@ == namespace_path(spec@.cache_root, spec@.namespace),
{
    namespace_directory_for(spec.cache_root(), spec.namespace())
}

/// Directory of the committed entries of a namespace.
pub open spec fn entries_path(namespace: Seq<u8>) -> Seq<u8> {
    joined(namespace, encode_utf8("entries"@))
}

/// Directory of the committed entries of a namespace.
pub fn entries_directory(namespace: &[u8]) -> (path: Vec<u8>)
    ensures
        path@ == entries_path(namespace@),
{
    join(namespace, "entries".as_bytes())
}

/// Directory of the committed entry of a content key.
pub open spec fn entry_path(namespace: Seq<u8>, key: Seq<u8>) -> Seq<u8> {
    joined(entries_path(namespace), encode_utf8(hex(key)))
}

/// Directory of the committed entry of a content key.
pub fn entry_directory(namespace: &[u8], key: InputDigest) -> (path: Vec<u8>)
    ensures
        path@ == entry_path(namespace@, key@),
{
    join(entries_directory(namespace).as_slice(), key.to_hex().as_str().as_bytes())
}

/// Directory of the staging directories of a namespace.
pub open spec fn staging_root_path(namespace: Seq<u8>) -> Seq<u8> {
    joined(namespace, encode_utf8("staging"@))
}

/// Directory of the staging directories of a namespace.
pub fn staging_root(namespace: &[u8]) -> (path: Vec<u8>)
    ensures
        path@ == staging_root_path(namespace@),
{
    join(namespace, "staging".as_bytes())
}

/// Lock that serializes recipes sharing a coordination scope.
pub open spec fn coordination_lock_file(cache_root: Seq<u8>, scope: Seq<char>) -> Seq<u8> {
    joined(
        joined(cache_root, encode_utf8(".ic-testkit/artifact-sets/locks/coordination"@)),
        encode_utf8(identifier_name("artifact-cache-coordination-v1"@, scope) + ".lock"@),
    )
}

/// Lock that serializes recipes sharing the coordination scope of a description.
pub fn coordination_lock_path(spec: &ArtifactCacheSpec) -> (path: Vec<u8>)
    ensures
        path@ == coordination_lock_file(spec@.cache_root, spec@.coordination_scope),
{
    let name = identifier_digest("artifact-cache-coordination-v1", spec.coordination_scope());
    below(
        spec.cache_root(),
        ".ic-testkit/artifact-sets/locks/coordination",
        name.as_str(),
        ".lock",
    )
}

/// Lock of everything that has to do with one content key.
pub open spec fn content_lock_file(cache_root: Seq<u8>, key: Seq<char>) -> Seq<u8> {
    joined(
        joined(cache_root, encode_utf8(".ic-testkit/artifact-sets/locks/content"@)),
        encode_utf8(key + ".lock"@),
    )
}

/// Lock of the content key with the given hexadecimal text.
pub fn content_lock_path_for_key(cache_root: &[u8], key: &str) -> (path: Vec<u8>)
    ensures
        path@ == content_lock_file(cache_root@, key@),
{
    below(cache_root, ".ic-testkit/artifact-sets/locks/content", key, ".lock")
}

/// Lock of everything that has to do with one content key.
pub fn content_lock_path(spec: &ArtifactCacheSpec, key: InputDigest) -> (path: Vec<u8>)
    ensures
        path@ == content_lock_file(spec@.cache_root, hex(key@)),
{
    content_lock_path_for_key(spec.cache_root(), key.to_hex().as_str())
}

/// Lock of short mutations of a namespace.
pub open spec fn namespace_lock_file(cache_root: Seq<u8>, namespace: Seq<char>) -> Seq<u8> {
    joined(
        joined(cache_root, encode_utf8(".ic-testkit/artifact-sets/locks/namespaces"@)),
        encode_utf8(identifier_name("artifact-cache-namespace-v1"@, namespace) + ".lock"@),
    )
}

/// Lock of short mutations of a namespace.
pub fn namespace_lock_path_for(cache_root: &[u8], namespace: &str) -> (path: Vec<u8>)
    ensures
        path@ == namespace_lock_file(cache_root@, namespace@),
{
    let name = identifier_digest("artifact-cache-namespace-v1", namespace);
    below(cache_root, ".ic-testkit/artifact-sets/locks/namespaces", name.as_str(), ".lock")
}

/// Lock of short mutations of the namespace of a description.
pub fn namespace_lock_path(spec: &ArtifactCacheSpec) -> (path: Vec<u8>)
    ensures
        path@ == namespace_lock_file(spec@.cache_root, spec@.namespace),
{
    namespace_lock_path_for(spec.cache_root(), spec.namespace())
}

/// File name of the output at `index`: four digits or more.
pub open spec fn output_file(index: nat) -> Seq<char> {
    padded(index) + ".artifact"@
}

/// File name of the output at `index`.
pub fn format_output_index(index: usize) -> (name: String)
    ensures
        name@ == output_file(index as nat),
{
    let mut name = padded_text(index as u128);
    name.append(".artifact");
    name
}

/// Different outputs have different file names.
pub proof fn lemma_output_file_injective(left: nat, right: nat)
    requires
        output_file(left) == output_file(right),
    ensures
        left == right,
{
    let (a, b) = (padded(left), padded(right));
    let tail = ".artifact"@;
    assert(a =~= output_file(left).take(output_file(left).len() - tail.len()));
    assert(b =~= output_file(right).take(output_file(right).len() - tail.len()));
    lemma_padded_injective(left, right);
}

/// Directory of the output files below `root`.
pub open spec fn outputs_path(root: Seq<u8>) -> Seq<u8> {
    joined(root, encode_utf8(OUTPUTS_DIRECTORY@))
}

/// Path of the output at `index` below `root`.
pub open spec fn output_location(root: Seq<u8>, index: nat) -> Seq<u8> {
    joined(outputs_path(root), encode_utf8(output_file(index)))
}

/// Directory of the output files below `root`.
pub fn outputs_directory(root: &[u8]) -> (path: Vec<u8>)
    ensures
        path@ == outputs_path(root@),
{
    join(root, OUTPUTS_DIRECTORY.as_bytes())
}

/// Path of the output at `index` below `root`.
pub fn staged_output_path(root: &[u8], index: usize) -> (path: Vec<u8>)
    ensures
        path@ == output_location(root@, index as nat),
{
    let name = format_output_index(index);
    join(outputs_directory(root).as_slice(), name.as_str().as_bytes())
}

/// Name of a staging directory: the content key, then what tells attempts apart.
pub open spec fn staging_name(key: Seq<u8>, process: nat, sequence: nat) -> Seq<char> {
    hex(key) + "-"@ + decimal(process) + "-"@ + decimal(sequence)
}

/// Path of a new staging directory.
pub fn staging_directory_for(namespace: &[u8], key: InputDigest, process: u32, sequence: u64) -> (path: Vec<
    u8,
>)
    ensures
        path@ == joined(
            staging_root_path(namespace@),
            encode_utf8(staging_name(key@, process as nat, sequence as nat)),
        ),
{
    let mut name = key.to_hex();
    name.append("-");
    name.append(decimal_text(process as u128).as_str());
    name.append("-");
    name.append(decimal_text(sequence as u128).as_str());
    join(staging_root(namespace).as_slice(), name.as_str().as_bytes())
}

/// Whether a directory below the staging root belongs to a content key.
pub open spec fn is_staging_of(name: Seq<u8>, key: Seq<u8>) -> bool {
    (hex(key) + "-"@).is_prefix_of(lossy_text(name))
}

/// Whether a directory below the staging root belongs to a content key, so that a new transaction
/// for the key removes it.
pub fn is_same_key_staging(name: &[u8], key: InputDigest) -> (same: bool)
    ensures
        same == is_staging_of(name@, key@),
{
    let mut prefix = key.to_hex();
    prefix.append("-");
    has_prefix(lossy(name).as_str(), prefix.as_str())
}

/// The hexadecimal content key with which the name of a staging directory starts.
pub open spec fn staging_key(name: Seq<u8>) -> Option<Seq<u8>> {
    if valid_utf8(name) && name.len() > 65 && name[64] == 45 && is_sha256_name(name.take(64)) {
        Some(name.take(64))
    } else {
        None
    }
}

/// The hexadecimal content key with which the name of a staging directory starts.
///
/// Directories without one are never removed as abandoned staging.
pub fn staging_content_key(name: &[u8]) -> (key: Option<Vec<u8>>)
    ensures
        match (key, staging_key(name@)) {
            (Some(found), Some(expected)) => found@ == expected,
            (None, None) => true,
            _ => false,
        },
{
    if name.len() <= 65 || !is_utf8(name) || name[64] != 45 {
        return None;
    }
    let key = vstd::slice::slice_subrange(name, 0, 64);
    assert(key@ =~= name@.take(64));
    if is_sha256_directory(key) {
        Some(vstd::slice::slice_to_vec(key))
    } else {
        None
    }
}

/// The content key can be read back from the name of every staging directory.
pub proof fn lemma_staging_key_round_trip(key: Seq<u8>, process: nat, sequence: nat)
    requires
        key.len() == 32,
    ensures
        staging_key(encode_utf8(staging_name(key, process, sequence))) == Some(
            encode_utf8(hex(key)),
        ),
{
    broadcast use vstd::utf8::encode_utf8_valid_utf8;

    let name = staging_name(key, process, sequence);
    lemma_hex_text(key);
    lemma_decimal_digits(process);
    lemma_decimal_digits(sequence);
    reveal_strlit("-");
    assert("-"@ =~= seq!['-']);
    let text = hex(key);
    assert forall|i: int| 0 <= i < name.len() implies (#[trigger] name[i]) as nat <= 127 by {
        if i < 64 {
            assert(name[i] == text[i]);
        } else if i == 64 {
            assert(name[i] == '-');
        } else if i < 65 + decimal(process).len() {
            assert(name[i] == decimal(process)[i - 65]);
        } else if i == 65 + decimal(process).len() {
            assert(name[i] == '-');
        } else {
            assert(name[i] == decimal(sequence)[i - 66 - decimal(process).len()]);
        }
    }
    assert(is_ascii_chars(name));
    vstd::utf8::is_ascii_chars_encode_utf8(name);
    assert forall|i: int| 0 <= i < text.len() implies (#[trigger] text[i]) as nat <= 127 by {}
    assert(is_ascii_chars(text));
    vstd::utf8::is_ascii_chars_encode_utf8(text);
    let bytes = encode_utf8(name);
    assert forall|i: int| 0 <= i < 64 implies bytes[i] == encode_utf8(text)[i] by {
        assert(name[i] == text[i]);
    }
    assert(bytes.take(64) =~= encode_utf8(text));
    assert(bytes[64] == 45) by {
        assert(name[64] == '-');
    }
    assert forall|i: int| 0 <= i < 64 implies is_hex_byte(#[trigger] bytes.take(64)[i]) by {
        assert(name[i] == text[i]);
        assert(bytes[i] as int == name[i] as int);
    }
}

/// A staging directory is told by a content key of sixty-four hexadecimal digits, a dash and at
/// least one further character.
pub proof fn lemma_names_of_staging(name: Seq<u8>)
    ensures
        staging_key(name) is Some <==> {
            &&& valid_utf8(name)
            &&& name.len() >= 66
            &&& name[64] == 45
            &&& forall|i: int|
                0 <= i < 64 ==> (48 <= #[trigger] name[i] <= 57 || 97 <= name[i] <= 102 || 65
                    <= name[i] <= 70)
        },
        staging_key(name) matches Some(key) ==> key == name.subrange(0, 64),
{
    let key = name.take(64);
    if name.len() >= 66 {
        assert(key =~= name.subrange(0, 64));
        assert forall|i: int| 0 <= i < 64 implies #[trigger] key[i] == name[i] by {}
        if is_sha256_name(key) {
            assert forall|i: int| 0 <= i < 64 implies (48 <= #[trigger] name[i] <= 57 || 97
                <= name[i] <= 102 || 65 <= name[i] <= 70) by {
                assert(crate::cache_fs::is_hex_byte(key[i]));
            }
        }
        if forall|i: int|
            0 <= i < 64 ==> (48 <= #[trigger] name[i] <= 57 || 97 <= name[i] <= 102 || 65
                <= name[i] <= 70) {
            assert forall|i: int| 0 <= i < 64 implies crate::cache_fs::is_hex_byte(
                #[trigger] key[i],
            ) by {
                assert(key[i] == name[i]);
            }
        }
    }
}

} // verus!
