//! ARMv7-A (VMSAv7, short-descriptor format) translation table entries.
//!
//! A descriptor is a 32-bit word: bits 12..31 hold the physical frame
//! address and bits 0..11 hold the attributes described by
//! [`DescriptorAttr`].  The generic, architecture-independent permissions of
//! a mapping are described by [`MappingFlags`].
use vstd::prelude::*;

verus! {

/// Generic permission and memory-type flags of a mapping.
#[derive(Debug, Clone, Copy)]
pub struct MappingFlags {
    bits: usize,
}

/// The memory type a descriptor selects through its attribute index field.
#[derive(Debug, Clone, Copy, PartialEq, Eq, Structural)]
pub enum MemType {
    Device,
    Normal,
}

/// Attribute bits of a descriptor.
///
/// Layout (bit positions inside the 32-bit word):
/// - bit 0: `PT` / `VALID`, the descriptor is valid (points to a page table
///   or maps memory);
/// - bit 1: `NON_BLOCK`, the descriptor is not a block (huge) mapping;
/// - bits 2..4: `ATTR_INDX`, the memory attribute index: `0` for device
///   memory, `1` for normal memory; the `NS` bit lies inside it, at bit 3,
///   and no descriptor this library builds sets it;
/// - bit 5: `UXN`, unprivileged execute-never;
/// - bit 6: `AP_EL0`, accessible from user mode;
/// - bit 7: `AP_RO`, read-only;
/// - bit 8: `INNER`, bit 9: `SHAREABLE`;
/// - bit 10: `AF`, the access flag;
/// - bit 11: `PXN`, privileged execute-never.
#[derive(Debug, Clone, Copy)]
pub struct DescriptorAttr {
    bits: u32,
}

/// A VMSAv7 short-descriptor translation table entry.
///
/// The attribute index field (bits 2..4) is `0` for device memory and `1`
/// for normal memory.
#[derive(Clone, Copy)]
pub struct A32PTE(u32);

/// Bit value of a generic mapping flag.
pub const READ: usize = 1 << 0;
pub const WRITE: usize = 1 << 1;
pub const EXECUTE: usize = 1 << 2;
pub const USER: usize = 1 << 3;
pub const DEVICE: usize = 1 << 4;
/// Union of all generic mapping flags.
pub const ALL_MAPPING_FLAGS: usize = 0x1f;

/// Whether the descriptor is a page table pointer.
pub const PT: u32 = 0b01 << 0;
/// Whether the descriptor is valid.
pub const VALID: u32 = 1 << 0;
/// The descriptor is not a block mapping.
pub const NON_BLOCK: u32 = 1 << 1;
/// The memory attribute index field.
pub const ATTR_INDX: u32 = 0b111 << 2;
/// Privileged execute-never.
pub const PXN: u32 = 1 << 11;
/// Non-secure bit.
pub const NS: u32 = 1 << 3;
/// Unprivileged execute-never.
pub const UXN: u32 = 1 << 5;
/// Accessible from user mode.
pub const AP_EL0: u32 = 1 << 6;
/// Read-only.
pub const AP_RO: u32 = 1 << 7;
/// Inner cacheable.
pub const INNER: u32 = 1 << 8;
/// Shareable.
pub const SHAREABLE: u32 = 1 << 9;
/// Access flag.
pub const AF: u32 = 1 << 10;
/// Attribute bits that select normal memory: attribute index `1`, inner
/// cacheable and shareable.
pub const NORMAL_MEM_ATTR: u32 = (1 << 2) | INNER | SHAREABLE;
/// Union of all attribute bits.
pub const ALL_ATTR_BITS: u32 = 0xfff;
/// The memory attribute index field, bits 2..4.
pub const ATTR_INDEX_MASK: u32 = 0b111_00;
/// The physical address field of a descriptor, bits 12..31.
pub const PHYS_ADDR_MASK: usize = 0xffff_f000;

/// `flag` is set in the generic flag word `bits`.
pub open spec fn flag_set(bits: usize, flag: usize) -> bool {
    bits & flag == flag
}

/// `flag` is set in the attribute word `bits`.
pub open spec fn attr_set(bits: u32, flag: u32) -> bool {
    bits & flag == flag
}

/// The attribute index field of an attribute word.
pub open spec fn attr_index(bits: u32) -> u32 {
    (bits & ATTR_INDEX_MASK) >> 2
}

/// Attribute bits that select a memory type.
pub open spec fn mem_type_bits(m: MemType) -> u32 {
    match m {
        MemType::Device => 0,
        MemType::Normal => NORMAL_MEM_ATTR,
    }
}

/// Attribute word that describes the generic flags `flags`.
pub open spec fn descriptor_bits_of(flags: usize) -> u32 {
    let mem: u32 = if flag_set(flags, DEVICE) { 0 } else { NORMAL_MEM_ATTR };
    let read: u32 = if flag_set(flags, READ) { VALID } else { 0 };
    let ro: u32 = if !flag_set(flags, WRITE) { AP_RO } else { 0 };
    let exec: u32 = if flag_set(flags, USER) {
        AP_EL0 | PXN | (if !flag_set(flags, EXECUTE) { UXN } else { 0 })
    } else {
        UXN | (if !flag_set(flags, EXECUTE) { PXN } else { 0 })
    };
    mem | read | ro | exec
}

/// Generic flags described by the attribute word `attr`.
pub open spec fn mapping_bits_of(attr: u32) -> usize {
    let read: usize = if attr_set(attr, VALID) { READ } else { 0 };
    let write: usize = if !attr_set(attr, AP_RO) { WRITE } else { 0 };
    let user_exec: usize = if attr_set(attr, AP_EL0) {
        USER | (if !attr_set(attr, UXN) { EXECUTE } else { 0 })
    } else if attr & PXN == 0 {
        EXECUTE
    } else {
        0
    };
    let device: usize = if attr_index(attr) == 0 { DEVICE } else { 0 };
    read | write | user_exec | device
}

impl View for MappingFlags {
    type V = usize;

    closed spec fn view(&self) -> usize {
        self.bits
    }
}

impl MappingFlags {
    /// The empty flag set.
    pub fn empty() -> (r: Self)
        ensures
            r@ == 0,
    {
        MappingFlags { bits: 0 }
    }

    /// The flags of `bits`, with the bits that name no flag dropped.
    pub fn from_bits_truncate(bits: usize) -> (r: Self)
        ensures
            r@ == bits & ALL_MAPPING_FLAGS,
    {
        MappingFlags { bits: bits & ALL_MAPPING_FLAGS }
    }

    /// The raw flag word.
    pub fn bits(&self) -> (r: usize)
        ensures
            r == self@,
    {
        self.bits
    }

    /// Whether every bit of `flag` is set.
    pub fn contains(&self, flag: usize) -> (r: bool)
        ensures
            r == flag_set(self@, flag),
    {
        self.bits & flag == flag
    }

    /// Sets the bits of `flag`.
    pub fn insert(&mut self, flag: usize)
        ensures
            final(self)@ == old(self)@ | flag,
    {
        self.bits = self.bits | flag;
    }

    /// The generic flags that the descriptor attributes `attr` grant.
    ///
    /// `attr` must select device or normal memory.
    pub fn from_attr(attr: DescriptorAttr) -> (r: Self)
        requires
            attr_index(attr@) <= 1,
        ensures
            r@ == mapping_bits_of(attr@),
    {
        let read: usize = if attr.contains(VALID) { READ } else { 0 };
        let write: usize = if !attr.contains(AP_RO) { WRITE } else { 0 };
        let user_exec: usize = if attr.contains(AP_EL0) {
            USER | (if !attr.contains(UXN) { EXECUTE } else { 0 })
        } else if !attr.intersects(PXN) {
            EXECUTE
        } else {
            0
        };
        let device: usize = match attr.mem_type() {
            MemType::Device => DEVICE,
            MemType::Normal => 0,
        };
        MappingFlags { bits: read | write | user_exec | device }
    }
}

impl View for DescriptorAttr {
    type V = u32;

    closed spec fn view(&self) -> u32 {
        self.bits
    }
}

impl DescriptorAttr {
    /// The attributes of `bits`, with the bits that name no attribute dropped.
    pub fn from_bits_truncate(bits: u32) -> (r: Self)
        ensures
            r@ == bits & ALL_ATTR_BITS,
    {
        DescriptorAttr { bits: bits & ALL_ATTR_BITS }
    }

    /// The raw attribute word.
    pub fn bits(&self) -> (r: u32)
        ensures
            r == self@,
    {
        self.bits
    }

    /// Whether every bit of `flag` is set.
    pub fn contains(&self, flag: u32) -> (r: bool)
        ensures
            r == attr_set(self@, flag),
    {
        self.bits & flag == flag
    }

    /// Whether some bit of `flag` is set.
    pub fn intersects(&self, flag: u32) -> (r: bool)
        ensures
            r == (self@ & flag != 0),
    {
        self.bits & flag != 0
    }

    /// Sets the bits of `flag`.
    pub fn insert(&mut self, flag: u32)
        ensures
            final(self)@ == old(self)@ | flag,
    {
        self.bits = self.bits | flag;
    }

    /// The attributes that select the memory type `mem_type`: the attribute
    /// index, and for normal memory inner-cacheable and shareable.
    pub fn from_mem_type(mem_type: MemType) -> (r: Self)
        ensures
            r@ == mem_type_bits(mem_type),
    {
        let index: u32 = match mem_type {
            MemType::Device => 0,
            MemType::Normal => 1,
        };
        let mut bits: u32 = index << 2;
        if matches!(mem_type, MemType::Normal) {
            bits = bits | INNER | SHAREABLE;
        }
        let r = Self::from_bits_truncate(bits);
        proof {
            let b = bits;
            match mem_type {
                MemType::Device => {
                    assert(b == 0u32 << 2 ==> b & ALL_ATTR_BITS == 0) by (bit_vector);
                },
                MemType::Normal => {
                    assert(b == (1u32 << 2) | INNER | SHAREABLE ==> b & ALL_ATTR_BITS
                        == NORMAL_MEM_ATTR) by (bit_vector);
                },
            }
        }
        r
    }

    /// The memory type selected by the attribute index field.
    ///
    /// The index must be `0` (device) or `1` (normal).
    pub fn mem_type(&self) -> (r: MemType)
        requires
            attr_index(self@) <= 1,
        ensures
            r == (if attr_index(self@) == 0 { MemType::Device } else { MemType::Normal }),
    {
        let idx = (self.bits & ATTR_INDEX_MASK) >> 2;
        if idx == 0 {
            MemType::Device
        } else {
            MemType::Normal
        }
    }

    /// The attributes that describe the generic flags `flags`.
    pub fn from_flags(flags: MappingFlags) -> (r: Self)
        ensures
            r@ == descriptor_bits_of(flags@),
    {
        let mut attr = if flags.contains(DEVICE) {
            Self::from_mem_type(MemType::Device)
        } else {
            Self::from_mem_type(MemType::Normal)
        };
        let read: u32 = if flags.contains(READ) { VALID } else { 0 };
        let ro: u32 = if !flags.contains(WRITE) { AP_RO } else { 0 };
        let exec: u32 = if flags.contains(USER) {
            AP_EL0 | PXN | (if !flags.contains(EXECUTE) { UXN } else { 0 })
        } else {
            UXN | (if !flags.contains(EXECUTE) { PXN } else { 0 })
        };
        attr.insert(read);
        attr.insert(ro);
        attr.insert(exec);
        attr
    }
}

/// Raw descriptor written by `A32PTE::new_page`.
pub open spec fn new_page_bits(paddr: usize, flags: usize, is_huge: bool) -> u32 {
    descriptor_bits_of(flags) | AF | (if !is_huge { NON_BLOCK } else { 0 }) | ((paddr
        & PHYS_ADDR_MASK) as u32)
}

/// Raw descriptor written by `A32PTE::new_table`.
pub open spec fn new_table_bits(paddr: usize) -> u32 {
    (NON_BLOCK | VALID) | ((paddr & PHYS_ADDR_MASK) as u32)
}

/// Physical address that the raw descriptor `raw` points to.
pub open spec fn pte_paddr(raw: u32) -> usize {
    (raw as usize) & PHYS_ADDR_MASK
}

/// Generic flags of the raw descriptor `raw`.
pub open spec fn pte_flags(raw: u32) -> usize {
    mapping_bits_of(raw & ALL_ATTR_BITS)
}

/// Whether the raw descriptor `raw` is valid.
pub open spec fn pte_is_present(raw: u32) -> bool {
    attr_set(raw & ALL_ATTR_BITS, VALID)
}

/// Whether the raw descriptor `raw` is a block (huge) mapping.
pub open spec fn pte_is_huge(raw: u32) -> bool {
    !attr_set(raw & ALL_ATTR_BITS, NON_BLOCK)
}

proof fn lemma_descriptor_bits_low(flags: usize)
    by (bit_vector)
    ensures
        attr_index(descriptor_bits_of(flags)) == (if flag_set(flags, DEVICE) { 0u32 } else { 1u32 }),
        descriptor_bits_of(flags) < 0x1000,
{
}

proof fn lemma_descriptor_word_index(attr: u32, paddr: usize)
    by (bit_vector)
    requires
        attr < 0x1000,
    ensures
        attr_index(attr | ((paddr & PHYS_ADDR_MASK) as u32)) == attr_index(attr),
{
}

/// The memory type chosen by `from_mem_type` is the one `mem_type` reads back.
pub proof fn lemma_mem_type_round_trip(m: MemType)
    ensures
        attr_index(mem_type_bits(m)) <= 1,
        (if attr_index(mem_type_bits(m)) == 0 { MemType::Device } else { MemType::Normal }) == m,
{
    match m {
        MemType::Device => {
            assert(attr_index(0) == 0) by (bit_vector);
        },
        MemType::Normal => {
            assert(attr_index(NORMAL_MEM_ATTR) == 1) by (bit_vector);
        },
    }
}

/// Converting generic flags to descriptor attributes and back gives the same
/// flags.
pub proof fn lemma_flags_round_trip(flags: usize)
    requires
        flags & ALL_MAPPING_FLAGS == flags,
    ensures
        mapping_bits_of(descriptor_bits_of(flags)) == flags,
{
    assert(flags & ALL_MAPPING_FLAGS == flags ==> mapping_bits_of(descriptor_bits_of(flags))
        == flags) by (bit_vector);
}

/// The descriptor attributes of generic flags already lie within the
/// attribute bits.
proof fn lemma_descriptor_bits_truncate(flags: usize)
    ensures
        descriptor_bits_of(flags) & ALL_ATTR_BITS == descriptor_bits_of(flags),
{
    assert(descriptor_bits_of(flags) & ALL_ATTR_BITS == descriptor_bits_of(flags))
        by (bit_vector);
}

/// A page descriptor points to the frame it was made with: the frame
/// address rounded down to 4 KiB.
pub proof fn lemma_new_page_paddr(paddr: usize, flags: usize, is_huge: bool)
    ensures
        pte_paddr(new_page_bits(paddr, flags, is_huge)) == paddr & PHYS_ADDR_MASK,
{
    lemma_descriptor_bits_low(flags);
    let d = descriptor_bits_of(flags);
    assert(d < 0x1000 ==> (((d | AF | (if !is_huge { NON_BLOCK } else { 0 }) | ((paddr
        & PHYS_ADDR_MASK) as u32)) as usize) & PHYS_ADDR_MASK == paddr & PHYS_ADDR_MASK))
        by (bit_vector);
}

/// A page descriptor is in use, is present exactly when the mapping is
/// readable, and is a block mapping exactly when it was made as one.
pub proof fn lemma_new_page_kind(paddr: usize, flags: usize, is_huge: bool)
    ensures
        new_page_bits(paddr, flags, is_huge) != 0,
        pte_is_present(new_page_bits(paddr, flags, is_huge)) == flag_set(flags, READ),
        pte_is_huge(new_page_bits(paddr, flags, is_huge)) == is_huge,
{
    lemma_descriptor_bits_low(flags);
    let d = descriptor_bits_of(flags);
    let w = new_page_bits(paddr, flags, is_huge);
    assert(d < 0x1000 && w == d | AF | (if !is_huge { NON_BLOCK } else { 0 }) | ((paddr
        & PHYS_ADDR_MASK) as u32) ==> w != 0 && attr_set(w & ALL_ATTR_BITS, VALID) == attr_set(
        d,
        VALID,
    ) && attr_set(w & ALL_ATTR_BITS, NON_BLOCK) == (!is_huge || attr_set(d, NON_BLOCK)))
        by (bit_vector);
    assert(attr_set(d, VALID) == flag_set(flags, READ) && !attr_set(d, NON_BLOCK))
        by (bit_vector)
        requires
            d == descriptor_bits_of(flags),
    ;
}

/// The flags of a page descriptor are the flags it was made with.
pub proof fn lemma_new_page_flags(paddr: usize, flags: usize, is_huge: bool)
    requires
        flags & ALL_MAPPING_FLAGS == flags,
    ensures
        pte_flags(new_page_bits(paddr, flags, is_huge)) == flags,
{
    lemma_flags_round_trip(flags);
    lemma_descriptor_bits_low(flags);
    lemma_descriptor_bits_truncate(flags);
    let d = descriptor_bits_of(flags);
    let w = new_page_bits(paddr, flags, is_huge);
    assert(d < 0x1000 && d & ALL_ATTR_BITS == d && w == d | AF | (if !is_huge { NON_BLOCK } else { 0 }) | ((paddr
        & PHYS_ADDR_MASK) as u32) ==> mapping_bits_of(w & ALL_ATTR_BITS) == mapping_bits_of(d))
        by (bit_vector);
}

/// The attribute index of a page descriptor is `0` for device memory and `1`
/// for normal memory.
pub proof fn lemma_new_page_mem_type(paddr: usize, flags: usize, is_huge: bool)
    ensures
        attr_index(new_page_bits(paddr, flags, is_huge)) == (if flag_set(flags, DEVICE) {
            0u32
        } else {
            1u32
        }),
{
    lemma_descriptor_bits_low(flags);
    let d = descriptor_bits_of(flags);
    let w = new_page_bits(paddr, flags, is_huge);
    assert(d < 0x1000 && w == d | AF | (if !is_huge { NON_BLOCK } else { 0 }) | ((paddr
        & PHYS_ADDR_MASK) as u32) ==> attr_index(w) == attr_index(d)) by (bit_vector);
}

/// A table descriptor is present, is no block mapping, and points to the
/// table it was made with.
pub proof fn lemma_new_table(paddr: usize)
    ensures
        pte_is_present(new_table_bits(paddr)),
        !pte_is_huge(new_table_bits(paddr)),
        pte_paddr(new_table_bits(paddr)) == paddr & PHYS_ADDR_MASK,
{
    assert(pte_is_present(new_table_bits(paddr)) && !pte_is_huge(new_table_bits(paddr))
        && pte_paddr(new_table_bits(paddr)) == paddr & PHYS_ADDR_MASK) by (bit_vector);
}

/// What each attribute of a descriptor built from generic flags `flags`
/// means:
/// - `VALID` is set exactly when the mapping is readable;
/// - `AP_RO` is set exactly when it is not writable;
/// - `AP_EL0` is set exactly when it is a user mapping;
/// - `PXN` is set for every user mapping, and for a kernel mapping exactly
///   when it is not executable: the kernel may run its own executable pages
///   but never user pages;
/// - `UXN` is set for every kernel mapping, and for a user mapping exactly
///   when it is not executable;
/// - the attribute index is `0` for device memory and `1` for normal
///   memory, which is also exactly when `INNER` and `SHAREABLE` are set;
/// - no other bit is set: not `AF`, not `NON_BLOCK`, no address bit.
pub proof fn lemma_descriptor_attributes(flags: usize)
    ensures
        attr_set(descriptor_bits_of(flags), VALID) == flag_set(flags, READ),
        attr_set(descriptor_bits_of(flags), AP_RO) == !flag_set(flags, WRITE),
        attr_set(descriptor_bits_of(flags), AP_EL0) == flag_set(flags, USER),
        attr_set(descriptor_bits_of(flags), PXN) == (flag_set(flags, USER) || !flag_set(
            flags,
            EXECUTE,
        )),
        attr_set(descriptor_bits_of(flags), UXN) == (!flag_set(flags, USER) || !flag_set(
            flags,
            EXECUTE,
        )),
        attr_index(descriptor_bits_of(flags)) == (if flag_set(flags, DEVICE) { 0u32 } else { 1u32 }),
        attr_set(descriptor_bits_of(flags), INNER) == !flag_set(flags, DEVICE),
        attr_set(descriptor_bits_of(flags), SHAREABLE) == !flag_set(flags, DEVICE),
        descriptor_bits_of(flags) & !(VALID | AP_RO | AP_EL0 | PXN | UXN | ATTR_INDX | INNER
            | SHAREABLE) == 0,
{
    assert({
        let d = descriptor_bits_of(flags);
        &&& attr_set(d, VALID) == flag_set(flags, READ)
        &&& attr_set(d, AP_RO) == !flag_set(flags, WRITE)
        &&& attr_set(d, AP_EL0) == flag_set(flags, USER)
        &&& attr_set(d, PXN) == (flag_set(flags, USER) || !flag_set(flags, EXECUTE))
        &&& attr_set(d, UXN) == (!flag_set(flags, USER) || !flag_set(flags, EXECUTE))
        &&& attr_index(d) == (if flag_set(flags, DEVICE) { 0u32 } else { 1u32 })
        &&& attr_set(d, INNER) == !flag_set(flags, DEVICE)
        &&& attr_set(d, SHAREABLE) == !flag_set(flags, DEVICE)
        &&& d & !(VALID | AP_RO | AP_EL0 | PXN | UXN | ATTR_INDX | INNER | SHAREABLE) == 0
    }) by (bit_vector);
}

/// What generic flags the attribute word `attr` grants, for a word whose
/// attribute index selects device or normal memory:
/// - readable exactly when `VALID` is set;
/// - writable exactly when `AP_RO` is clear;
/// - a user mapping exactly when `AP_EL0` is set;
/// - executable, for a user mapping, exactly when `UXN` is clear, and for a
///   kernel mapping exactly when `PXN` is clear;
/// - device memory exactly when the attribute index is `0`;
/// - no other flag.
pub proof fn lemma_mapping_flags_meaning(attr: u32)
    requires
        attr_index(attr) <= 1,
    ensures
        flag_set(mapping_bits_of(attr), READ) == attr_set(attr, VALID),
        flag_set(mapping_bits_of(attr), WRITE) == !attr_set(attr, AP_RO),
        flag_set(mapping_bits_of(attr), USER) == attr_set(attr, AP_EL0),
        flag_set(mapping_bits_of(attr), EXECUTE) == (if attr_set(attr, AP_EL0) {
            !attr_set(attr, UXN)
        } else {
            !attr_set(attr, PXN)
        }),
        flag_set(mapping_bits_of(attr), DEVICE) == (attr_index(attr) == 0),
        mapping_bits_of(attr) & !ALL_MAPPING_FLAGS == 0,
{
    assert(attr_index(attr) <= 1 ==> {
        let f = mapping_bits_of(attr);
        &&& flag_set(f, READ) == attr_set(attr, VALID)
        &&& flag_set(f, WRITE) == !attr_set(attr, AP_RO)
        &&& flag_set(f, USER) == attr_set(attr, AP_EL0)
        &&& flag_set(f, EXECUTE) == (if attr_set(attr, AP_EL0) {
            !attr_set(attr, UXN)
        } else {
            !attr_set(attr, PXN)
        })
        &&& flag_set(f, DEVICE) == (attr_index(attr) == 0)
        &&& f & !ALL_MAPPING_FLAGS == 0
    }) by (bit_vector);
}

/// A page descriptor made from generic flags: its attributes are those of
/// `lemma_descriptor_attributes`, plus the access flag, plus `NON_BLOCK`
/// exactly when it is no block mapping; its other bits hold the frame
/// address.
pub proof fn lemma_new_page_attributes(paddr: usize, flags: usize, is_huge: bool)
    ensures
        new_page_bits(paddr, flags, is_huge) & ALL_ATTR_BITS == descriptor_bits_of(flags) | AF | (
        if is_huge {
            0
        } else {
            NON_BLOCK
        }),
        attr_set(new_page_bits(paddr, flags, is_huge), AF),
        attr_set(new_page_bits(paddr, flags, is_huge), NON_BLOCK) == !is_huge,
        attr_set(new_page_bits(paddr, flags, is_huge), PXN) == (flag_set(flags, USER)
            || !flag_set(flags, EXECUTE)),
        attr_set(new_page_bits(paddr, flags, is_huge), UXN) == (!flag_set(flags, USER)
            || !flag_set(flags, EXECUTE)),
        attr_set(new_page_bits(paddr, flags, is_huge), AP_EL0) == flag_set(flags, USER),
        attr_set(new_page_bits(paddr, flags, is_huge), AP_RO) == !flag_set(flags, WRITE),
        attr_set(new_page_bits(paddr, flags, is_huge), VALID) == flag_set(flags, READ),
        (new_page_bits(paddr, flags, is_huge) as usize) & PHYS_ADDR_MASK == paddr & PHYS_ADDR_MASK,
{
    lemma_descriptor_attributes(flags);
    lemma_descriptor_bits_low(flags);
    let d = descriptor_bits_of(flags);
    let w = new_page_bits(paddr, flags, is_huge);
    assert(d < 0x1000 && w == d | AF | (if !is_huge { NON_BLOCK } else { 0 }) | ((paddr
        & PHYS_ADDR_MASK) as u32) ==> {
        &&& w & ALL_ATTR_BITS == d | AF | (if is_huge { 0 } else { NON_BLOCK })
        &&& attr_set(w, AF)
        &&& attr_set(w, NON_BLOCK) == (!is_huge || attr_set(d, NON_BLOCK))
        &&& attr_set(w, PXN) == attr_set(d, PXN)
        &&& attr_set(w, UXN) == attr_set(d, UXN)
        &&& attr_set(w, AP_EL0) == attr_set(d, AP_EL0)
        &&& attr_set(w, AP_RO) == attr_set(d, AP_RO)
        &&& attr_set(w, VALID) == attr_set(d, VALID)
        &&& (w as usize) & PHYS_ADDR_MASK == paddr & PHYS_ADDR_MASK
    }) by (bit_vector);
    assert(d & !(VALID | AP_RO | AP_EL0 | PXN | UXN | ATTR_INDX | INNER | SHAREABLE) == 0
        ==> !attr_set(d, NON_BLOCK)) by (bit_vector);
}

/// A table descriptor carries no attribute but `NON_BLOCK` and `VALID`, its
/// other bits hold the table address, and it reads back as a readable,
/// writable, executable device mapping.
pub proof fn lemma_new_table_attributes(paddr: usize)
    ensures
        new_table_bits(paddr) & ALL_ATTR_BITS == NON_BLOCK | VALID,
        (new_table_bits(paddr) as usize) & PHYS_ADDR_MASK == paddr & PHYS_ADDR_MASK,
        pte_flags(new_table_bits(paddr)) == READ | WRITE | EXECUTE | DEVICE,
{
    let w = new_table_bits(paddr);
    assert(w == (NON_BLOCK | VALID) | ((paddr & PHYS_ADDR_MASK) as u32) ==> {
        &&& w & ALL_ATTR_BITS == NON_BLOCK | VALID
        &&& (w as usize) & PHYS_ADDR_MASK == paddr & PHYS_ADDR_MASK
    }) by (bit_vector);
    assert({
        let a = NON_BLOCK | VALID;
        &&& attr_index(a) == 0
        &&& attr_set(a, VALID)
        &&& !attr_set(a, AP_RO)
        &&& !attr_set(a, AP_EL0)
        &&& !attr_set(a, PXN)
    }) by (bit_vector);
    lemma_mapping_flags_meaning(NON_BLOCK | VALID);
    let f = pte_flags(w);
    assert(f & !ALL_MAPPING_FLAGS == 0 && flag_set(f, READ) && flag_set(f, WRITE) && !flag_set(
        f,
        USER,
    ) && flag_set(f, EXECUTE) && flag_set(f, DEVICE) ==> f == READ | WRITE | EXECUTE | DEVICE)
        by (bit_vector);
}

impl View for A32PTE {
    type V = u32;

    closed spec fn view(&self) -> u32 {
        self.0
    }
}

impl A32PTE {
    /// The attribute index of a descriptor selects device or normal memory.
    #[verifier::type_invariant]
    spec fn inv(self) -> bool {
        attr_index(self.0) <= 1
    }

    /// Creates an empty descriptor with all bits set to zero.
    pub fn empty() -> (r: Self)
        ensures
            r@ == 0,
    {
        proof {
            assert(attr_index(0) == 0) by (bit_vector);
        }
        A32PTE(0)
    }

    /// A descriptor that maps the frame at `paddr` with the permissions
    /// `flags`, as a block mapping when `is_huge`.
    pub fn new_page(paddr: usize, flags: MappingFlags, is_huge: bool) -> (r: Self)
        ensures
            r@ == new_page_bits(paddr, flags@, is_huge),
    {
        let mut attr = DescriptorAttr::from_flags(flags);
        attr.insert(AF);
        if !is_huge {
            attr.insert(NON_BLOCK);
        }
        let raw: u32 = attr.bits() | ((paddr & PHYS_ADDR_MASK) as u32);
        proof {
            let d = descriptor_bits_of(flags@);
            lemma_descriptor_bits_low(flags@);
            let a = attr@;
            assert(attr_index(d) <= 1 && d < 0x1000 ==> attr_index(d | AF) <= 1 && (d | AF)
                < 0x1000 && attr_index(d | AF | NON_BLOCK) <= 1 && (d | AF | NON_BLOCK) < 0x1000)
                by (bit_vector);
            lemma_descriptor_word_index(a, paddr);
            assert(forall|x: u32| #[trigger] (x | 0u32) == x) by (bit_vector);
        }
        A32PTE(raw)
    }

    /// A descriptor that points to the next-level table at `paddr`.
    pub fn new_table(paddr: usize) -> (r: Self)
        ensures
            r@ == new_table_bits(paddr),
    {
        let raw: u32 = (NON_BLOCK | VALID) | ((paddr & PHYS_ADDR_MASK) as u32);
        proof {
            assert(attr_index(NON_BLOCK | VALID) == 0 && (NON_BLOCK | VALID) < 0x1000)
                by (bit_vector);
            lemma_descriptor_word_index(NON_BLOCK | VALID, paddr);
        }
        A32PTE(raw)
    }

    /// The physical address that the descriptor points to.
    pub fn paddr(&self) -> (r: usize)
        ensures
            r == pte_paddr(self@),
    {
        self.0 as usize & PHYS_ADDR_MASK
    }

    /// The generic flags of the descriptor.
    pub fn flags(&self) -> (r: MappingFlags)
        ensures
            r@ == pte_flags(self@),
    {
        proof {
            use_type_invariant(self);
            let raw = self.0;
            assert(attr_index(raw) <= 1 ==> attr_index(raw & ALL_ATTR_BITS) <= 1)
                by (bit_vector);
        }
        MappingFlags::from_attr(DescriptorAttr::from_bits_truncate(self.0))
    }

    /// Whether all bits of the descriptor are zero.
    pub fn is_unused(&self) -> (r: bool)
        ensures
            r == (self@ == 0),
    {
        self.0 == 0
    }

    /// Whether the descriptor is valid.
    pub fn is_present(&self) -> (r: bool)
        ensures
            r == pte_is_present(self@),
    {
        DescriptorAttr::from_bits_truncate(self.0).contains(VALID)
    }

    /// Whether the descriptor is a block (huge) mapping.
    pub fn is_huge(&self) -> (r: bool)
        ensures
            r == pte_is_huge(self@),
    {
        !DescriptorAttr::from_bits_truncate(self.0).contains(NON_BLOCK)
    }

    /// Sets all bits of the descriptor to zero.
    pub fn clear(&mut self)
        ensures
            final(self)@ == 0,
    {
        *self = Self::empty();
    }
}

} // verus!
