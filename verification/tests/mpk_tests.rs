use pangea_kernel::cpu::protected_cr4;
use pangea_kernel::mpk::{cr4_with_pks, next_table, page_table_indices, set_key_rights, tag_entry, WalkError};

#[test]
fn set_key_rights_sets_only_that_key() {
    assert_eq!(set_key_rights(0, 0, true, false), 0b01);
    assert_eq!(set_key_rights(0, 0, false, true), 0b10);
    assert_eq!(set_key_rights(0, 3, true, true), 0b11 << 6);
    assert_eq!(set_key_rights(u64::MAX, 15, false, false), !(0b11u64 << 30));
    assert_eq!(set_key_rights(0b1111, 1, false, false), 0b0011);
}

#[test]
fn cr4_pks_bit() {
    assert_eq!(cr4_with_pks(0), 1 << 24);
    assert_eq!(cr4_with_pks(0x20), 0x20 | (1 << 24));
}

#[test]
fn cr4_protection_features() {
    assert_eq!(protected_cr4(0), 0x70_0000);
    assert_eq!(protected_cr4(0x20), 0x70_0020);
    assert_eq!(protected_cr4(0x10_0000), 0x70_0000);
}

#[test]
fn tag_entry_replaces_key_bits() {
    let entry = 0x8000_0000_1234_5003u64 | (0b1010 << 59);
    let tagged = tag_entry(entry, 0b0101).unwrap();
    assert_eq!((tagged >> 59) & 0xf, 0b0101);
    assert_eq!(tagged & !(0xf << 59), entry & !(0xf << 59));
    assert_eq!(tag_entry(0x1000, 3), Err(WalkError::NotPresent(1)));
}

#[test]
fn next_table_checks_presence_and_huge_pages() {
    assert_eq!(next_table(0x0000_0000_0020_0003, 4), Ok(0x20_0000));
    assert_eq!(next_table(0x8000_0000_0020_0083, 4), Ok(0x20_0000));
    assert_eq!(next_table(0x83, 3), Err(WalkError::HugePage(3)));
    assert_eq!(next_table(0x83, 2), Err(WalkError::HugePage(2)));
    assert_eq!(next_table(0x2000, 2), Err(WalkError::NotPresent(2)));
    assert_eq!(next_table(0xfff0_0000_0000_1001, 3), Ok(0x1000));
}

#[test]
fn indices_of_an_address() {
    let addr: u64 = (3 << 39) | (5 << 30) | (7 << 21) | (9 << 12) | 0x123;
    assert_eq!(page_table_indices(addr), [3, 5, 7, 9]);
    assert_eq!(page_table_indices(0xffff_ffff_ffff_f000), [511, 511, 511, 511]);
    assert_eq!(page_table_indices(0x4444_4444_0000), [136, 273, 34, 64]);
}
