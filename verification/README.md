# ic_testkit

Verified building blocks for Internet Computer test artifacts: content-addressed
Wasm builds, transactional artifact sets, freshness stamps, benchmark markers
and reports, and deterministic principals.

- `src/` is the library. Its logic is verified with Verus: what is hashed and
  in which order, which entry of a cache may be reused, what a pruning pass
  removes, how an acquisition moves from lock to lock, how markers are read,
  paired and reported. Where a decision needs the file system, a process or a
  clock, the library says what to look at next and takes the answer as a plain
  value.
- `tests/` runs the library on concrete values, with a file system in memory.
- `app/` is ordinary Rust around the library: files, locks, processes, clocks
  and floating point.

The proofs rest on the contracts of a few calls that Verus does not look into,
each stated beside the call:

- SHA-256 (`sha2`), in `digest`;
- reading JSON (`serde_json`) and TOML (`toml`), and writing JSON, in
  `document`;
- `Principal::from_slice` (`candid`), in `fake`;
- `String::push`, `String::from_utf8_lossy`, `str::from_utf8` and the `Debug`
  text of `Duration`, in `text` and `timing`.

That SHA-256 has no collisions is nowhere assumed: where a law could fail
through one, it says so.

Paths and environment values are byte strings, as on Unix. Times are whole
nanoseconds.
