//! Paging metadata of ARMv7 (AArch32) translation tables.
use vstd::prelude::*;

verus! {

/// Metadata of AArch32 page tables.
#[derive(Clone, Copy)]
pub struct A32PagingMetaData;

/// A virtual address is valid when the bits above the low `VA_MAX_BITS`
/// bits are all clear, or equal to `0xffff`.
pub open spec fn vaddr_valid(vaddr: usize) -> bool {
    let top_bits = vaddr >> 20usize;
    top_bits == 0 || top_bits == 0xffff
}

impl A32PagingMetaData {
    /// Number of translation table levels.
    pub const LEVELS: usize = 2;
    /// Number of significant bits of a physical address.
    pub const PA_MAX_BITS: usize = 20;
    /// Number of significant bits of a virtual address.
    pub const VA_MAX_BITS: usize = 20;

    /// Whether `vaddr` is a valid virtual address.
    pub fn vaddr_is_valid(vaddr: usize) -> (r: bool)
        ensures
            r == vaddr_valid(vaddr),
    {
        let top_bits = vaddr >> Self::VA_MAX_BITS;
        top_bits == 0 || top_bits == 0xffff
    }
}

} // verus!
