use taskcore::config::{page_ceil, page_floor, MAXVA, PAGE_SIZE};
use taskcore::mm::flags::{
    MapPermission, PageTableEntry, PERM_R, PERM_U, PERM_W, PERM_X, PTE_V,
};

#[test]
fn page_numbers_round_down_and_up() {
    assert_eq!(page_floor(0), 0);
    assert_eq!(page_floor(PAGE_SIZE - 1), 0);
    assert_eq!(page_floor(PAGE_SIZE), 1);
    assert_eq!(page_floor(0x12345), 0x12);
    assert_eq!(page_ceil(0), 0);
    assert_eq!(page_ceil(1), 1);
    assert_eq!(page_ceil(PAGE_SIZE), 1);
    assert_eq!(page_ceil(PAGE_SIZE + 1), 2);
    assert_eq!(page_ceil(usize::MAX), usize::MAX / PAGE_SIZE + 1);
}

#[test]
fn address_space_ceiling_is_page_aligned() {
    assert_eq!(MAXVA % PAGE_SIZE, 0);
    assert_eq!(PAGE_SIZE, 4096);
}

#[test]
fn from_bits_truncate_drops_foreign_bits() {
    assert_eq!(MapPermission::from_bits_truncate(0xff).bits, 0x1e);
    assert_eq!(MapPermission::from_bits_truncate(PTE_V).bits, 0);
    assert_eq!(MapPermission::from_bits_truncate(PERM_R | PERM_W).bits, 6);
    assert_eq!(MapPermission::empty().bits, 0);
}

#[test]
fn union_and_contains() {
    let rw: MapPermission = MapPermission { bits: PERM_R }.union(MapPermission { bits: PERM_W });
    assert_eq!(rw.bits, 6);
    assert!(rw.contains(MapPermission { bits: PERM_R }));
    assert!(rw.contains(MapPermission { bits: PERM_W }));
    assert!(!rw.contains(MapPermission { bits: PERM_X }));
    assert!(rw.contains(MapPermission::empty()));
}

#[test]
fn port_bits_become_user_rights() {
    assert_eq!(MapPermission::from_port(1).bits, PERM_R | PERM_U);
    assert_eq!(MapPermission::from_port(2).bits, PERM_W | PERM_U);
    assert_eq!(MapPermission::from_port(4).bits, PERM_X | PERM_U);
    assert_eq!(MapPermission::from_port(3).bits, PERM_R | PERM_W | PERM_U);
    assert_eq!(MapPermission::from_port(7).bits, PERM_R | PERM_W | PERM_X | PERM_U);
}

#[test]
fn entry_for_permission_is_valid_and_grants_it() {
    let entry: PageTableEntry = PageTableEntry::for_perm(MapPermission { bits: PERM_R | PERM_U });
    assert_eq!(entry.flags, PERM_R | PERM_U | PTE_V);
    assert!(entry.is_valid());
    assert!(entry.readable());
    assert!(!entry.writable());
    assert!(!entry.executable());
    assert!(entry.user());
}

#[test]
fn entry_without_valid_bit_is_not_valid() {
    let entry: PageTableEntry = PageTableEntry { flags: PERM_W | PERM_X };
    assert!(!entry.is_valid());
    assert!(!entry.readable());
    assert!(entry.writable());
    assert!(entry.executable());
    assert!(!entry.user());
}
