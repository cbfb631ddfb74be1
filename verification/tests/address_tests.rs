use dwarf_varloc::address::{get_addr, has_numeric_value, Address, AddressTable};

#[test]
fn zero_address_keeps_index_zero() {
    let mut table = AddressTable::new();
    let index = table.add(Address::Constant(0));
    assert_eq!(index, 0);
    assert_eq!(table.len(), 0);
    assert_eq!(table.get(index), Address::Constant(0));
}

#[test]
fn added_address_is_found_again() {
    let mut table = AddressTable::new();
    let a = Address::Symbol { symbol: 3, addend: 0x40 };
    let b = Address::Constant(0x1234);
    let ia = table.add(a);
    let ib = table.add(b);
    assert_eq!(ia, 1);
    assert_eq!(ib, 2);
    assert_eq!(table.get(ia), a);
    assert_eq!(table.get(ib), b);
    assert_eq!(table.get(0), Address::Constant(0));
}

#[test]
fn same_address_twice_gets_two_indices() {
    let mut table = AddressTable::new();
    let a = Address::Constant(7);
    assert_eq!(table.add(a), 1);
    assert_eq!(table.add(a), 2);
    assert_eq!(table.get(1), table.get(2));
}

#[test]
fn lookup_outside_the_table_finds_nothing() {
    let mut table = AddressTable::new();
    table.add(Address::Constant(9));
    assert_eq!(table.lookup(0), Some(Address::Constant(0)));
    assert_eq!(table.lookup(1), Some(Address::Constant(9)));
    assert_eq!(table.lookup(2), None);
}

#[test]
fn numeric_value_of_addresses() {
    assert!(has_numeric_value(Address::Constant(0x99)));
    assert_eq!(get_addr(Address::Constant(0x99)), 0x99);
    assert!(has_numeric_value(Address::Symbol { symbol: 1, addend: 16 }));
    assert_eq!(get_addr(Address::Symbol { symbol: 1, addend: 16 }), 16);
    assert_eq!(get_addr(Address::Symbol { symbol: 7, addend: 16 }), 16);
    assert!(has_numeric_value(Address::Symbol { symbol: 1, addend: 0 }));
    assert!(!has_numeric_value(Address::Symbol { symbol: 1, addend: -1 }));
}
