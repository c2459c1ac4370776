//! Register arithmetic behind ARMv7 CPU control: the interrupt mask bits of
//! the CPSR, the base address field of TTBR0, and the operand of a TLB
//! invalidation by address.  Reading and writing the registers is left to
//! the caller.
use vstd::prelude::*;

verus! {

/// CPSR bit `I`: IRQs are masked.
pub const CPSR_IRQ_MASK: usize = 0x80;
/// CPSR bits `I` and `F`: IRQs and FIQs are masked.
pub const CPSR_IRQ_FIQ_MASK: usize = 0xc0;
/// Bits of TTBR0 that hold the translation table base, which is 16 KiB
/// aligned.
pub const TTBR0_BASE_MASK: usize = 0xFFFF_C000;
/// Bits of a virtual address that name its 4 KiB page.
pub const PAGE_MVA_MASK: usize = 0xFFFF_F000;

/// IRQs are enabled under the CPSR value `cpsr`.
pub open spec fn irqs_enabled_spec(cpsr: usize) -> bool {
    cpsr & CPSR_IRQ_MASK == 0
}

/// Whether the CPU responds to IRQs under the CPSR value `cpsr`.
pub fn irqs_enabled_in(cpsr: usize) -> (r: bool)
    ensures
        r == irqs_enabled_spec(cpsr),
{
    cpsr & CPSR_IRQ_MASK == 0
}

/// The CPSR value that allows IRQs and FIQs: `cpsr` with the `I` and `F`
/// bits cleared and every other bit kept.
pub fn cpsr_irqs_enabled(cpsr: usize) -> (r: usize)
    ensures
        r == cpsr & !CPSR_IRQ_FIQ_MASK,
        r & CPSR_IRQ_FIQ_MASK == 0,
        r | CPSR_IRQ_FIQ_MASK == cpsr | CPSR_IRQ_FIQ_MASK,
        irqs_enabled_spec(r),
{
    let r = cpsr & !CPSR_IRQ_FIQ_MASK;
    proof {
        assert(r == cpsr & !0xc0usize ==> r & 0xc0 == 0 && r | 0xc0 == cpsr | 0xc0 && r & 0x80
            == 0) by (bit_vector);
    }
    r
}

/// The CPSR value that ignores IRQs and FIQs: `cpsr` with the `I` and `F`
/// bits set and every other bit kept.
pub fn cpsr_irqs_disabled(cpsr: usize) -> (r: usize)
    ensures
        r == cpsr | CPSR_IRQ_FIQ_MASK,
        r & !CPSR_IRQ_FIQ_MASK == cpsr & !CPSR_IRQ_FIQ_MASK,
        !irqs_enabled_spec(r),
{
    let r = cpsr | CPSR_IRQ_FIQ_MASK;
    proof {
        assert(r == cpsr | 0xc0usize ==> r & !0xc0usize == cpsr & !0xc0usize && r & 0x80 != 0)
            by (bit_vector);
    }
    r
}

/// The CPSR value that masks IRQs only: `cpsr` with the `I` bit set and
/// every other bit kept.  Restoring the saved `cpsr` undoes it.
pub fn cpsr_irq_masked(cpsr: usize) -> (r: usize)
    ensures
        r == cpsr | CPSR_IRQ_MASK,
        r & !CPSR_IRQ_MASK == cpsr & !CPSR_IRQ_MASK,
        !irqs_enabled_spec(r),
{
    let r = cpsr | CPSR_IRQ_MASK;
    proof {
        assert(r == cpsr | 0x80usize ==> r & !0x80usize == cpsr & !0x80usize && r & 0x80 != 0)
            by (bit_vector);
    }
    r
}

/// The physical address of the translation table that the TTBR0 value
/// `ttbr0` points to.
pub fn page_table_root_of(ttbr0: usize) -> (r: usize)
    ensures
        r == ttbr0 & TTBR0_BASE_MASK,
        r % 0x4000 == 0,
        r <= ttbr0,
{
    let r = ttbr0 & TTBR0_BASE_MASK;
    proof {
        assert(r == ttbr0 & 0xFFFF_C000usize ==> r % 0x4000 == 0 && r <= ttbr0) by (bit_vector);
    }
    r
}

/// The operand of a TLB invalidation for the page that holds `vaddr`: the
/// address of that 4 KiB page.
pub fn tlb_flush_operand(vaddr: usize) -> (r: usize)
    ensures
        r == vaddr & PAGE_MVA_MASK,
        r % 0x1000 == 0,
        r <= vaddr,
        vaddr < 0x1_0000_0000 ==> vaddr - r < 0x1000,
{
    let r = vaddr & PAGE_MVA_MASK;
    proof {
        assert(r == vaddr & 0xFFFF_F000usize ==> r % 0x1000 == 0 && r <= vaddr && (vaddr
            < 0x1_0000_0000 ==> vaddr - r < 0x1000)) by (bit_vector);
    }
    r
}

/// Whether installing the page table root `new_root` over `old_root`
/// writes TTBR0 and flushes the TLB: only when the root changes.
pub fn root_switch_needed(old_root: usize, new_root: usize) -> (r: bool)
    ensures
        r == (old_root != new_root),
{
    old_root != new_root
}

} // verus!
