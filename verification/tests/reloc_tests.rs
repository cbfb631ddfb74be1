use dwarf_varloc::address::{Address, AddressTable};
use dwarf_varloc::reloc::{
    check_symbols, get_section, is_rewrite_dwarf_section, link, write_address, write_eh_pointer,
    write_offset, LinkError, LinkedRelocation, OffsetIndex, PointerApplication, PointerFormat,
    ReadRelocation, Relocation, RelocationKind, RelocationTarget, SectionData, SectionId,
    SectionRelocation,
};
use dwarf_varloc::report::{get_print_value, summarize};
use std::collections::HashMap;

fn listed(
    offset: u64,
    kind: RelocationKind,
    target: RelocationTarget,
    addend: i64,
    implicit_addend: bool,
    symbol_address: Option<u64>,
) -> SectionRelocation {
    SectionRelocation {
        offset,
        relocation: ReadRelocation { kind, target, addend, implicit_addend },
        symbol_address,
    }
}

#[test]
fn section_is_loaded_with_usable_relocations_only() {
    let sym = RelocationTarget::Symbol(3);
    let section = SectionData {
        data: vec![1, 2, 3],
        relocations: vec![
            listed(0, RelocationKind::Absolute, sym, 8, false, Some(0x100)),
            listed(4, RelocationKind::Other, sym, 8, false, Some(0x100)),
            listed(8, RelocationKind::Relative, RelocationTarget::Other, 8, false, Some(0x100)),
            listed(12, RelocationKind::Relative, sym, 8, false, None),
            listed(16, RelocationKind::Relative, sym, -1, true, Some(0)),
            listed(0, RelocationKind::Absolute, sym, -0x20, false, Some(0x100)),
        ],
    };
    let (data, map) = get_section(Some(section));
    assert_eq!(data, vec![1, 2, 3]);
    assert_eq!(
        map.get(0),
        Some(ReadRelocation {
            kind: RelocationKind::Absolute,
            target: sym,
            addend: 0xe0,
            implicit_addend: false,
        })
    );
    assert_eq!(map.get(4), None);
    assert_eq!(map.get(8), None);
    assert_eq!(map.get(12), None);
    assert_eq!(map.get(16).map(|r| r.addend), Some(-1));
    let (data, map) = get_section(None);
    assert!(data.is_empty());
    assert_eq!(map.get(0), None);
}

#[test]
fn values_are_relocated_by_absolute_relocations() {
    let sym = RelocationTarget::Symbol(3);
    let section = SectionData {
        data: Vec::new(),
        relocations: vec![
            listed(0, RelocationKind::Absolute, sym, 8, false, Some(0x100)),
            listed(4, RelocationKind::Absolute, sym, 8, true, Some(0x100)),
            listed(8, RelocationKind::Relative, sym, 8, false, Some(0x100)),
            listed(12, RelocationKind::Absolute, sym, -1, true, Some(0)),
        ],
    };
    let (_, map) = get_section(Some(section));
    assert_eq!(map.relocate(0, 5), 0x108);
    assert_eq!(map.relocate(4, 5), 0x10d);
    assert_eq!(map.relocate(8, 5), 5);
    assert_eq!(map.relocate(12, 5), 4);
    assert_eq!(map.relocate(99, 5), 5);
    assert_eq!(map.relocate_offset(0, 5), Some(0x108));
    assert_eq!(map.relocate_address(0, 5), Some(Address::Symbol { symbol: 3, addend: 0x108 }));
    assert_eq!(map.relocate_address(4, 5), Some(Address::Symbol { symbol: 3, addend: 0x10d }));
    assert_eq!(map.relocate_address(8, 5), Some(Address::Symbol { symbol: 3, addend: 0x108 }));
    assert_eq!(map.relocate_address(99, 5), None);
}

#[test]
fn addresses_read_get_indices() {
    let sym = RelocationTarget::Symbol(3);
    let section = SectionData {
        data: Vec::new(),
        relocations: vec![listed(0, RelocationKind::Absolute, sym, 8, false, Some(0x100))],
    };
    let (_, map) = get_section(Some(section));
    let mut table = AddressTable::new();
    let mut seen = OffsetIndex::new();
    assert_eq!(map.read_address(&mut seen, &mut table, 90, 0), 0);
    assert_eq!(map.read_address(&mut seen, &mut table, 94, 0x44), 1);
    assert_eq!(map.read_address(&mut seen, &mut table, 0, 0x44), 2);
    assert_eq!(table.get(1), Address::Constant(0x44));
    assert_eq!(table.get(2), Address::Symbol { symbol: 3, addend: 0x108 });
    assert_eq!(seen.get(94), Some(1));
    assert_eq!(seen.get(95), None);
}

#[test]
fn same_offset_read_twice_gets_the_same_index() {
    let sym = RelocationTarget::Symbol(3);
    let section = SectionData {
        data: Vec::new(),
        relocations: vec![listed(8, RelocationKind::Absolute, sym, 8, false, Some(0x100))],
    };
    let (_, map) = get_section(Some(section));
    let mut table = AddressTable::new();
    let mut seen = OffsetIndex::new();
    let first = map.read_address(&mut seen, &mut table, 8, 0x44);
    let other = map.read_address(&mut seen, &mut table, 16, 0x44);
    let again = map.read_address(&mut seen, &mut table, 8, 0x44);
    assert_eq!(first, 1);
    assert_eq!(other, 2);
    assert_eq!(again, first);
    assert_eq!(table.len(), 2);
    assert_eq!(table.get(1), Address::Symbol { symbol: 3, addend: 0x108 });
    // two sections share the table and remember their own offsets
    let mut elsewhere = OffsetIndex::new();
    assert_eq!(map.read_address(&mut elsewhere, &mut table, 8, 0x44), 3);
    assert_eq!(table.get(3), table.get(1));
}

#[test]
fn written_addresses_and_offsets_leave_relocations() {
    assert_eq!(write_address(Address::Constant(0x77), 16, 4), (None, 0x77));
    assert_eq!(
        write_address(Address::Symbol { symbol: 2, addend: 0x1_0000_0005 }, 16, 4),
        (
            Some(Relocation::Symbol {
                offset: 16,
                symbol: 2,
                addend: 5,
                kind: RelocationKind::Absolute,
                size: 4,
            }),
            0
        )
    );
    assert_eq!(
        write_offset(8, 0x30, SectionId::DebugStr, 4),
        Relocation::Section { offset: 8, section: SectionId::DebugStr, addend: 0x30, size: 4 }
    );
}

#[test]
fn recorded_relocations_are_tied_to_symbols() {
    let section_symbols = vec![(SectionId::DebugInfo, 10), (SectionId::DebugStr, 11)];
    let mut symbols = HashMap::new();
    symbols.insert(2usize, 20usize);
    let relocations = vec![
        Relocation::Section { offset: 0, section: SectionId::DebugStr, addend: 4, size: 4 },
        Relocation::Section { offset: 4, section: SectionId::DebugLoc, addend: 4, size: 4 },
        Relocation::Symbol {
            offset: 8,
            symbol: 2,
            addend: -4,
            kind: RelocationKind::Relative,
            size: 8,
        },
    ];
    assert_eq!(
        link(&section_symbols, &symbols, &relocations),
        Ok(vec![
            LinkedRelocation {
                offset: 0,
                size: 32,
                kind: RelocationKind::Absolute,
                symbol: 11,
                addend: 4,
            },
            LinkedRelocation {
                offset: 8,
                size: 64,
                kind: RelocationKind::Absolute,
                symbol: 20,
                addend: -4,
            },
        ])
    );
    assert!(check_symbols(&symbols, &relocations));
    let unknown = vec![Relocation::Symbol {
        offset: 8,
        symbol: 3,
        addend: 0,
        kind: RelocationKind::Absolute,
        size: 4,
    }];
    assert!(!check_symbols(&symbols, &unknown));
    let wide =
        vec![Relocation::Section { offset: 0, section: SectionId::DebugStr, addend: 0, size: 32 }];
    assert_eq!(link(&section_symbols, &symbols, &wide), Err(LinkError::SizeOverflow));
}

#[test]
fn pointers_of_exception_handling_data() {
    let absolute = PointerApplication::Absolute;
    let relative = PointerApplication::PcRelative;
    let sdata4 = PointerFormat::Sdata4;
    assert_eq!(
        write_eh_pointer(Address::Constant(0x1_0000_0007), absolute, sdata4, 12),
        Some((None, 7))
    );
    assert_eq!(
        write_eh_pointer(Address::Symbol { symbol: 5, addend: -8 }, relative, sdata4, 12),
        Some((
            Some(Relocation::Symbol {
                offset: 12,
                symbol: 5,
                addend: -8,
                kind: RelocationKind::Relative,
                size: 4,
            }),
            0
        ))
    );
    assert_eq!(write_eh_pointer(Address::Constant(7), relative, sdata4, 12), None);
    assert_eq!(
        write_eh_pointer(Address::Symbol { symbol: 5, addend: 0 }, absolute, sdata4, 12),
        None
    );
    assert_eq!(
        write_eh_pointer(Address::Constant(7), absolute, PointerFormat::Other, 12),
        None
    );
    assert_eq!(
        write_eh_pointer(Address::Constant(7), PointerApplication::Other, sdata4, 12),
        None
    );
}

#[test]
fn rewritten_sections_by_name() {
    for name in [
        ".debug_aranges",
        ".debug_abbrev",
        ".debug_addr",
        ".debug_info",
        ".debug_line",
        ".debug_line_str",
        ".debug_loc",
        ".debug_loclists",
        ".debug_pubnames",
        ".debug_pubtypes",
        ".debug_ranges",
        ".debug_rnglists",
        ".debug_str",
        ".debug_str_offsets",
    ] {
        assert!(is_rewrite_dwarf_section(name));
    }
    assert!(!is_rewrite_dwarf_section(".debug_types"));
    assert!(!is_rewrite_dwarf_section(".debug_"));
    assert!(!is_rewrite_dwarf_section(".text"));
    assert!(!is_rewrite_dwarf_section(".eh_frame"));
    assert!(!is_rewrite_dwarf_section(""));
}

#[test]
fn counts_are_shown_in_decimal_or_as_a_dash() {
    assert_eq!(get_print_value(0), "-");
    assert_eq!(get_print_value(7), "7");
    assert_eq!(get_print_value(1230), "1230");
}

#[test]
fn figures_of_the_report_line() {
    let s = summarize(10, 4, 2, 9, 20, 25);
    assert_eq!(s.total_pcs, 10);
    assert_eq!(s.improved_or_missing_pcs, 4);
    assert_eq!(s.improved_or_missing_vars, 2);
    assert_eq!(s.before_actual_count, 20);
    assert_eq!(s.after_delta, 5);
    assert_eq!(s.extra, 4);
    let s = summarize(10, 4, 2, 3, 25, 20);
    assert_eq!(s.after_delta, 0);
    assert_eq!(s.extra, 3);
    let s = summarize(10, 4, 2, 3, 20, 30);
    assert_eq!(s.after_delta, 10);
    assert_eq!(s.extra, 0);
}
