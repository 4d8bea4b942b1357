use brainix_kernel::x86_paging::{
    clear_writable_flag_in_level_one_page_table_entry, compute_direct_map_page_flags,
    compute_huge_page_count, compute_intermediate_page_table_flags,
    compute_kernel_code_page_flags, compute_kernel_data_page_flags,
    compute_kernel_read_only_data_page_flags, describe_mapping_error,
    extract_page_directory_index, extract_page_directory_pointer_table_index,
    extract_page_map_level_4_index, extract_page_table_index,
    validate_page_table_flags_enforce_write_xor_execute, MappingError, NO_EXECUTE, PRESENT,
    WRITABLE,
};

#[test]
fn test_clear_writable_flag_removes_writable_bit() {
    const PRESENT_BIT: u64 = 1;
    const WRITABLE_BIT: u64 = 1 << 1;
    let mut entry_value: u64 = PRESENT_BIT | WRITABLE_BIT | 0x1000;
    clear_writable_flag_in_level_one_page_table_entry(&mut entry_value);
    let writable_bit_is_clear = (entry_value & WRITABLE_BIT) == 0;
    assert!(writable_bit_is_clear, "writable bit must be cleared after protection");
}

#[test]
fn test_clear_writable_flag_preserves_other_bits() {
    const WRITABLE_BIT: u64 = 1 << 1;
    let original_value: u64 = 0xFFFF_FFFF_FFFF_FFFF;
    let mut entry_value = original_value;
    clear_writable_flag_in_level_one_page_table_entry(&mut entry_value);
    let expected_value = original_value & !WRITABLE_BIT;
    assert_eq!(entry_value, expected_value, "only writable bit must be cleared");
}

#[test]
fn test_clear_writable_flag_is_idempotent() {
    const PRESENT_BIT: u64 = 1;
    let mut entry_value: u64 = PRESENT_BIT | 0x1000;
    let value_after_first_call = {
        clear_writable_flag_in_level_one_page_table_entry(&mut entry_value);
        entry_value
    };
    clear_writable_flag_in_level_one_page_table_entry(&mut entry_value);
    assert_eq!(entry_value, value_after_first_call, "second call must not change value");
}

#[test]
fn test_writable_and_executable_flags_are_rejected() {
    let writable_and_executable_flags = PRESENT | WRITABLE;
    let result = validate_page_table_flags_enforce_write_xor_execute(writable_and_executable_flags);
    assert_eq!(result, Err(MappingError::WritableAndExecutableViolation));
}

#[test]
fn test_writable_with_no_execute_is_accepted() {
    let writable_non_executable_flags = PRESENT | WRITABLE | NO_EXECUTE;
    let result = validate_page_table_flags_enforce_write_xor_execute(writable_non_executable_flags);
    assert_eq!(result, Ok(()));
}

#[test]
fn test_executable_without_writable_is_accepted() {
    let executable_read_only_flags = PRESENT;
    let result = validate_page_table_flags_enforce_write_xor_execute(executable_read_only_flags);
    assert_eq!(result, Ok(()));
}

#[test]
fn test_kernel_code_flags_are_not_writable() {
    let code_flags = compute_kernel_code_page_flags();
    let is_writable = code_flags & WRITABLE == WRITABLE;
    assert!(!is_writable, "Kernel code flags must not include WRITABLE");
}

#[test]
fn test_kernel_data_flags_have_no_execute() {
    let data_flags = compute_kernel_data_page_flags();
    let has_no_execute = data_flags & NO_EXECUTE == NO_EXECUTE;
    assert!(has_no_execute, "Kernel data flags must include NO_EXECUTE");
}

#[test]
fn every_kernel_flag_set_passes_write_xor_execute() {
    for flags in [
        compute_kernel_code_page_flags(),
        compute_kernel_data_page_flags(),
        compute_kernel_read_only_data_page_flags(),
        compute_direct_map_page_flags(),
    ] {
        assert_eq!(validate_page_table_flags_enforce_write_xor_execute(flags), Ok(()));
    }
    assert_eq!(compute_kernel_read_only_data_page_flags(), PRESENT | NO_EXECUTE);
    assert_eq!(compute_intermediate_page_table_flags() & (PRESENT | WRITABLE), PRESENT | WRITABLE);
}

#[test]
fn page_table_indices_of_a_higher_half_address() {
    let address: u64 = 0xFFFF_8000_4020_3000;
    assert_eq!(extract_page_map_level_4_index(address), 256);
    assert_eq!(extract_page_directory_pointer_table_index(address), 1);
    assert_eq!(extract_page_directory_index(address), 1);
    assert_eq!(extract_page_table_index(address), 3);
}

#[test]
fn huge_page_count_rounds_up() {
    assert_eq!(compute_huge_page_count(0), 0);
    assert_eq!(compute_huge_page_count(1), 1);
    assert_eq!(compute_huge_page_count(0x20_0000), 1);
    assert_eq!(compute_huge_page_count(0x20_0001), 2);
    assert_eq!(compute_huge_page_count(0x4000_0000), 512);
}

#[test]
fn mapping_errors_have_distinct_descriptions() {
    let violation = describe_mapping_error(MappingError::WritableAndExecutableViolation);
    let allocation = describe_mapping_error(MappingError::AllocationFailure);
    let invalid = describe_mapping_error(MappingError::InvalidAddress);
    assert_ne!(violation, allocation);
    assert_ne!(allocation, invalid);
    assert_ne!(violation, invalid);
}
