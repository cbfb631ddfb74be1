use dwarf_varloc::coverage::CoverageError;
use dwarf_varloc::die::{DieRecord, DieTag, LocationAttr, LocationEntry};
use dwarf_varloc::evaluate::{find_tail, read_dwarf, read_dwarf_with, ReadError};
use dwarf_varloc::expr::Encoding;
use dwarf_varloc::insnmap::InsnMapError;
use dwarf_varloc::interval::Interval;

const ENC: Encoding = Encoding { address_size: 4, dwarf64: false, version: 4 };

// push %ebp; mov %esp,%ebp; pop %ebp; ret
const CODE: [u8; 5] = [0x55, 0x89, 0xe5, 0x5d, 0xc3];

fn die(delta: i64, tag: DieTag, name: Option<&str>) -> DieRecord {
    DieRecord {
        delta,
        tag,
        name: name.map(|n| n.as_bytes().to_vec()),
        low_pc: None,
        high_pc: None,
        ranges: None,
        location: LocationAttr::Absent,
        const_value: None,
    }
}

fn unit() -> Vec<DieRecord> {
    let mut f = die(1, DieTag::Subprogram, Some("f"));
    f.low_pc = Some(0);
    f.high_pc = Some(5);
    let mut x = die(1, DieTag::Variable, Some("x"));
    x.location = LocationAttr::List(vec![LocationEntry {
        begin: 1,
        end: 5,
        expr: vec![0x75, 0x00],
    }]);
    vec![die(0, DieTag::Other, None), f, x]
}

#[test]
fn function_is_measured_against_its_disassembly() {
    let map = "=insn_pcs\n0:0x0\n1:0x1\n2:0x3\n3:0x4\n=End\n";
    let m = read_dwarf(&unit(), ENC, &CODE, "f", map).unwrap();
    assert_eq!(m.pcs, vec![0, 1, 3, 4]);
    assert_eq!(m.total, 3);
    // the run reaches the last program counter and ends behind the one-byte `ret`
    assert_eq!(
        m.map.get(b"x"),
        Some(&vec![Interval { begin: 1, end: 5, is_const: false }])
    );
}

#[test]
fn lengths_of_instructions_come_from_the_disassembly() {
    // without the last instruction in the map, the run ends behind the two-byte `mov`
    let map = "=insn_pcs\n0:0x0\n1:0x1\n=End\n";
    let m = read_dwarf(&unit(), ENC, &CODE, "f", map).unwrap();
    assert_eq!(
        m.map.get(b"x"),
        Some(&vec![Interval { begin: 1, end: 3, is_const: false }])
    );
}

#[test]
fn measuring_fails_for_its_reasons() {
    let map = "=insn_pcs\n0:0x0\n1:0x1\n=End\n";
    let fails = |dies: &Vec<DieRecord>, name: &str, map: &str| {
        read_dwarf_with(dies, ENC, &vec![(0, 1), (1, 2)], name, map).err()
    };
    assert_eq!(fails(&unit(), "g", map), Some(ReadError::NoFunction));
    let mut dies = unit();
    dies[1].high_pc = None;
    assert_eq!(fails(&dies, "f", map), Some(ReadError::NoRange));
    dies[1].low_pc = Some(u64::MAX);
    dies[1].high_pc = Some(1);
    assert_eq!(fails(&dies, "f", map), Some(ReadError::RangeOverflow));
    assert_eq!(
        fails(&unit(), "f", "=insn_pcs\nx\n"),
        Some(ReadError::InsnMap(InsnMapError::MissingColon))
    );
    // the instruction at the last program counter is not among those given
    assert_eq!(
        fails(&unit(), "f", "=insn_pcs\n0:0x1\n1:0x4\n"),
        Some(ReadError::Coverage(CoverageError::TailUnknown))
    );
}

#[test]
fn end_of_the_last_instruction() {
    let instructions = vec![(0, 1), (1, 2), (3, 1), (3, 4), (9, 1)];
    assert_eq!(find_tail(&vec![0, 1, 3], &instructions, 0, 8), Some(7));
    assert_eq!(find_tail(&vec![0, 1], &instructions, 0, 8), Some(3));
    assert_eq!(find_tail(&vec![0, 9], &instructions, 0, 8), None);
    assert_eq!(find_tail(&vec![0, 2], &instructions, 0, 8), None);
    assert_eq!(find_tail(&vec![], &instructions, 0, 8), None);
}
