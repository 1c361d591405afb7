//! Which physical memory there is to give away.

use crate::megapage::{page_floor, round_down, MEGAPAGE_SIZE};
use vstd::prelude::*;

verus! {

/// Where the megapages reserved for the kernel image and the user code end.
pub const GENERAL_MEMORY_BASE: u64 = 0x8060_0000;

/// The end of memory on the default machine, for when the device tree cannot
/// be read.
pub const GENERAL_MEMORY_END: u64 = 0x8800_0000;

/// Where the end of memory is known from.
#[derive(Clone, Copy, PartialEq, Eq, Structural, Debug)]
pub enum MemorySource {
    /// The device tree reports memory from `base` up to `end`.
    DeviceTree { base: u64, end: u64 },
    /// The device tree cannot be read.
    Fallback { end: u64 },
}

/// What the device tree's region, if there is one, says about memory. A region
/// that runs past the address range ends with it.
pub open spec fn memory_source_of(region: Option<(u64, u64)>) -> MemorySource {
    match region {
        Some((base, size)) => MemorySource::DeviceTree {
            base,
            end: if base + size <= u64::MAX {
                (base + size) as u64
            } else {
                u64::MAX
            },
        },
        None => MemorySource::Fallback { end: GENERAL_MEMORY_END },
    }
}

/// The end of memory.
pub open spec fn end_of(source: MemorySource) -> u64 {
    match source {
        MemorySource::DeviceTree { base, end } => end,
        MemorySource::Fallback { end } => end,
    }
}

/// How much memory from [`GENERAL_MEMORY_BASE`] on is given away when memory
/// ends at `mem_end`: whole megapages, and never less than one.
pub open spec fn general_memory_size(mem_end: int) -> int {
    let end = if mem_end >= GENERAL_MEMORY_BASE + MEGAPAGE_SIZE {
        mem_end
    } else {
        GENERAL_MEMORY_BASE + MEGAPAGE_SIZE
    };
    page_floor(end) - GENERAL_MEMORY_BASE
}

/// Takes the end of memory from the device tree's region, or falls back.
pub fn memory_source(region: Option<(u64, u64)>) -> (source: MemorySource)
    ensures
        source == memory_source_of(region),
{
    match region {
        Some((base, size)) => MemorySource::DeviceTree { base, end: base.saturating_add(size) },
        None => MemorySource::Fallback { end: GENERAL_MEMORY_END },
    }
}

/// The end of memory.
pub fn memory_end(source: &MemorySource) -> (end: u64)
    ensures
        end == end_of(*source),
{
    match source {
        MemorySource::DeviceTree { base: _, end } => *end,
        MemorySource::Fallback { end } => *end,
    }
}

/// How much memory from [`GENERAL_MEMORY_BASE`] on there is to give away.
pub fn general_memory(mem_end: u64) -> (size: u64)
    ensures
        size == general_memory_size(mem_end as int),
{
    let end: u64 = if mem_end >= GENERAL_MEMORY_BASE + MEGAPAGE_SIZE {
        mem_end
    } else {
        GENERAL_MEMORY_BASE + MEGAPAGE_SIZE
    };
    round_down(end, MEGAPAGE_SIZE) - GENERAL_MEMORY_BASE
}

/// What is given away is whole, aligned megapages, at least one, and lies
/// below the end of memory wherever memory reaches that far.
pub proof fn law_general_memory_is_whole_megapages(mem_end: int)
    requires
        mem_end <= u64::MAX,
    ensures
        GENERAL_MEMORY_BASE % MEGAPAGE_SIZE == 0,
        general_memory_size(mem_end) % (MEGAPAGE_SIZE as int) == 0,
        general_memory_size(mem_end) >= MEGAPAGE_SIZE,
        mem_end >= GENERAL_MEMORY_BASE + MEGAPAGE_SIZE ==> GENERAL_MEMORY_BASE
            + general_memory_size(mem_end) <= mem_end < GENERAL_MEMORY_BASE + general_memory_size(
            mem_end,
        ) + MEGAPAGE_SIZE,
{
}

} // verus!
