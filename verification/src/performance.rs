//! Benchmark markers of a canister.

use vstd::prelude::*;
use vstd::string::*;
use crate::benchmark::markers::{format_marker, marker_text, BenchmarkCounters, DEFAULT_PREFIX};

verus! {

/// Bytes of one Wasm page.
pub const WASM_PAGE_BYTES: u128 = 65_536;

/// Benchmark markers of a canister.
pub struct Performance;

impl Performance {
    /// The marker that a canister prints at `label` for its counters.
    pub fn measure(label: &str, counters: BenchmarkCounters) -> (marker: String)
        ensures
            marker@ == marker_text(DEFAULT_PREFIX@, label@, counters),
    {
        format_marker(DEFAULT_PREFIX, label, counters)
    }

    /// The counters of a canister that has executed `instructions` in the current call context
    /// and holds `heap_pages` of Wasm memory and `stable_pages` of stable memory.
    pub fn counters(instructions: u64, heap_pages: u64, stable_pages: u64) -> (counters:
        BenchmarkCounters)
        ensures
            counters.instructions == instructions,
            counters.heap_bytes == heap_pages * 65_536,
            counters.memory_bytes == stable_pages * 65_536,
            counters.total_allocation == 0,
    {
        BenchmarkCounters {
            instructions: instructions as u128,
            heap_bytes: heap_pages as u128 * WASM_PAGE_BYTES,
            memory_bytes: stable_pages as u128 * WASM_PAGE_BYTES,
            total_allocation: 0,
        }
    }
}

} // verus!
