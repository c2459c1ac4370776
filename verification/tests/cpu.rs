use arceos_arm::cpu::{
    cpsr_irq_masked, cpsr_irqs_disabled, cpsr_irqs_enabled, irqs_enabled_in, page_table_root_of,
    root_switch_needed, tlb_flush_operand,
};

#[test]
fn irq_mask_bit_decides_whether_irqs_are_enabled() {
    assert!(irqs_enabled_in(0x1d3 & !0x80));
    assert!(!irqs_enabled_in(0x1d3));
    assert!(irqs_enabled_in(0x40));
}

#[test]
fn enabling_clears_i_and_f_only() {
    assert_eq!(cpsr_irqs_enabled(0x6000_01d3), 0x6000_0113);
    assert!(irqs_enabled_in(cpsr_irqs_enabled(0xffff_ffff)));
}

#[test]
fn disabling_sets_i_and_f_only() {
    assert_eq!(cpsr_irqs_disabled(0x6000_0013), 0x6000_00d3);
    assert!(!irqs_enabled_in(cpsr_irqs_disabled(0)));
}

#[test]
fn saving_masks_irqs_and_restoring_gives_back_the_saved_value() {
    let saved = 0x6000_0113;
    let masked = cpsr_irq_masked(saved);
    assert_eq!(masked, 0x6000_0193);
    assert!(!irqs_enabled_in(masked));
    assert!(irqs_enabled_in(saved));
}

#[test]
fn page_table_root_is_16k_aligned_base() {
    assert_eq!(page_table_root_of(0x8000_405b), 0x8000_4000);
    assert_eq!(page_table_root_of(0x3fff), 0);
}

#[test]
fn tlb_operand_is_page_address() {
    assert_eq!(tlb_flush_operand(0xc012_3abc), 0xc012_3000);
    assert_eq!(tlb_flush_operand(0xfff), 0);
}

#[test]
fn root_switch_only_when_root_changes() {
    assert!(root_switch_needed(0x8000_0000, 0x8000_4000));
    assert!(!root_switch_needed(0x8000_4000, 0x8000_4000));
}
