use arceos_arm::page_table::A32PagingMetaData;
use arceos_arm::page_table_entry::{
    A32PTE, DescriptorAttr, MappingFlags, MemType, AF, ATTR_INDX, AP_EL0, DEVICE, EXECUTE, NON_BLOCK, NS,
    PXN, READ, USER, UXN, VALID, WRITE,
};

#[test]
fn empty_entry_is_unused() {
    let pte = A32PTE::empty();
    assert!(pte.is_unused());
    assert!(!pte.is_present());
    assert_eq!(pte.paddr(), 0);
}

#[test]
fn kernel_rw_page_round_trips() {
    let flags = MappingFlags::from_bits_truncate(READ | WRITE);
    let pte = A32PTE::new_page(0x1234_5678, flags, false);
    assert!(!pte.is_unused());
    assert!(pte.is_present());
    assert!(!pte.is_huge());
    assert_eq!(pte.paddr(), 0x1234_5000);
    assert_eq!(pte.flags().bits(), READ | WRITE);
}

#[test]
fn user_rwx_page_round_trips() {
    let flags = MappingFlags::from_bits_truncate(READ | WRITE | EXECUTE | USER);
    let pte = A32PTE::new_page(0x4000_0000, flags, true);
    assert!(pte.is_huge());
    assert!(pte.is_present());
    assert_eq!(pte.paddr(), 0x4000_0000);
    assert_eq!(pte.flags().bits(), READ | WRITE | EXECUTE | USER);
}

#[test]
fn user_read_only_page_round_trips() {
    let flags = MappingFlags::from_bits_truncate(READ | USER);
    let pte = A32PTE::new_page(0x7000, flags, false);
    assert_eq!(pte.flags().bits(), READ | USER);
}

#[test]
fn kernel_executable_normal_page_round_trips() {
    let flags = MappingFlags::from_bits_truncate(READ | WRITE | EXECUTE);
    let pte = A32PTE::new_page(0x1000, flags, false);
    assert_eq!(pte.flags().bits(), READ | WRITE | EXECUTE);
}

#[test]
fn kernel_device_page_round_trips() {
    let flags = MappingFlags::from_bits_truncate(READ | WRITE | DEVICE);
    let pte = A32PTE::new_page(0x1000, flags, false);
    assert_eq!(pte.flags().bits(), READ | WRITE | DEVICE);
}

#[test]
fn user_device_page_round_trips() {
    let flags = MappingFlags::from_bits_truncate(READ | USER | DEVICE);
    let pte = A32PTE::new_page(0x1000, flags, true);
    assert_eq!(pte.flags().bits(), READ | USER | DEVICE);
}

#[test]
fn device_pages_select_device_memory() {
    for extra in [0, WRITE, EXECUTE, USER, USER | EXECUTE, WRITE | USER] {
        let attr = DescriptorAttr::from_flags(MappingFlags::from_bits_truncate(READ | DEVICE | extra));
        assert_eq!(attr.bits() & ATTR_INDX, 0);
        assert_eq!(attr.mem_type(), MemType::Device);
        let attr = DescriptorAttr::from_flags(MappingFlags::from_bits_truncate(READ | extra));
        assert_eq!(attr.bits() & ATTR_INDX, 1 << 2);
        assert_eq!(attr.mem_type(), MemType::Normal);
    }
}

#[test]
fn kernel_executable_device_page_round_trips() {
    let flags = MappingFlags::from_bits_truncate(READ | EXECUTE | DEVICE);
    let pte = A32PTE::new_page(0x2000, flags, false);
    assert_eq!(pte.flags().bits(), READ | EXECUTE | DEVICE);
}

#[test]
fn unreadable_page_is_not_present() {
    let flags = MappingFlags::from_bits_truncate(WRITE);
    let pte = A32PTE::new_page(0x3000, flags, false);
    assert!(!pte.is_present());
    assert!(!pte.is_unused());
}

#[test]
fn table_entry_points_to_table() {
    let pte = A32PTE::new_table(0x8000_0abc);
    assert!(pte.is_present());
    assert!(!pte.is_huge());
    assert_eq!(pte.paddr(), 0x8000_0000);
}

#[test]
fn cleared_entry_is_unused() {
    let mut pte = A32PTE::new_table(0x8000_0000);
    pte.clear();
    assert!(pte.is_unused());
}

#[test]
fn descriptor_attr_bits_of_kernel_rw_flags() {
    let attr = DescriptorAttr::from_flags(MappingFlags::from_bits_truncate(READ | WRITE));
    // normal memory (index 1, inner, shareable), valid, UXN and PXN
    assert_eq!(attr.bits(), 0xb25);
    assert!(attr.contains(VALID));
    assert!(attr.contains(UXN));
    assert!(attr.contains(PXN));
    assert!(!attr.contains(AP_EL0));
    assert!(!attr.contains(AF));
    assert!(!attr.contains(NON_BLOCK));
}

#[test]
fn mem_type_round_trips() {
    assert_eq!(DescriptorAttr::from_mem_type(MemType::Device).mem_type(), MemType::Device);
    assert_eq!(DescriptorAttr::from_mem_type(MemType::Normal).mem_type(), MemType::Normal);
    assert_eq!(DescriptorAttr::from_mem_type(MemType::Device).bits(), 0);
    assert_eq!(DescriptorAttr::from_mem_type(MemType::Normal).bits(), 0x304);
}

#[test]
fn truncation_drops_unnamed_bits() {
    assert_eq!(DescriptorAttr::from_bits_truncate(0xffff_ffff).bits(), 0xfff);
    assert_eq!(MappingFlags::from_bits_truncate(0xff).bits(), 0x1f);
    assert!(DescriptorAttr::from_bits_truncate(NS).intersects(NS));
}

#[test]
fn mapping_flags_from_user_attr() {
    let attr = DescriptorAttr::from_bits_truncate(VALID | AP_EL0 | UXN | 0b100);
    let flags = MappingFlags::from_attr(attr);
    assert_eq!(flags.bits(), READ | WRITE | USER);
}

#[test]
fn mapping_flags_insert_and_contains() {
    let mut flags = MappingFlags::empty();
    assert_eq!(flags.bits(), 0);
    flags.insert(READ);
    flags.insert(USER);
    assert!(flags.contains(READ));
    assert!(flags.contains(READ | USER));
    assert!(!flags.contains(READ | WRITE));
}

#[test]
fn paging_metadata_constants() {
    assert_eq!(A32PagingMetaData::LEVELS, 2);
    assert_eq!(A32PagingMetaData::PA_MAX_BITS, 20);
    assert_eq!(A32PagingMetaData::VA_MAX_BITS, 20);
}

#[test]
fn vaddr_validity() {
    assert!(A32PagingMetaData::vaddr_is_valid(0));
    assert!(A32PagingMetaData::vaddr_is_valid(0xf_ffff));
    assert!(!A32PagingMetaData::vaddr_is_valid(0x10_0000));
    assert!(!A32PagingMetaData::vaddr_is_valid(0xffff_ffff));
}


#[test]
fn vaddr_validity_of_high_half() {
    assert!(A32PagingMetaData::vaddr_is_valid(0xf_fff0_0000));
    assert!(A32PagingMetaData::vaddr_is_valid(0xf_ffff_ffff));
    assert!(!A32PagingMetaData::vaddr_is_valid(0x10_0000_0000));
}
