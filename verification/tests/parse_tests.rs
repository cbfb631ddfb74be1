use dwarf_varloc::insnmap::{parse_insn_map, parse_pc_line, InsnMapError};
use dwarf_varloc::script::{parse_line, parse_script, ScriptError, ScriptLine};

#[test]
fn instruction_map_is_read_into_an_ordered_set() {
    let text = "=insn_pcs\n0:0x18\n1:0x10\n2:0x7fffffff\n3:0x14\n4:0x10\n=End\n5:0x99\n";
    assert_eq!(parse_insn_map(text), Ok(vec![0x10, 0x14, 0x18]));
    assert_eq!(parse_insn_map("=insn_pcs\n"), Ok(vec![]));
    assert_eq!(parse_insn_map("=insn_pcs"), Ok(vec![]));
    assert_eq!(parse_insn_map("=insn_pcs\r\n 7 : 0x0x1F \r\n"), Ok(vec![0x1f]));
}

#[test]
fn instruction_map_errors() {
    assert_eq!(parse_insn_map(""), Err(InsnMapError::MissingHeader));
    assert_eq!(parse_insn_map("=insn\n0:0x10\n"), Err(InsnMapError::MissingHeader));
    assert_eq!(parse_insn_map("=insn_pcs\n0x10\n"), Err(InsnMapError::MissingColon));
    assert_eq!(parse_insn_map("=insn_pcs\n0:0x1g\n"), Err(InsnMapError::BadPc));
    assert_eq!(parse_insn_map("=insn_pcs\n0:\n"), Err(InsnMapError::BadPc));
    assert_eq!(parse_insn_map("=insn_pcs\n\n=End\n"), Err(InsnMapError::MissingColon));
    assert_eq!(parse_pc_line(b"3:0xffffffffffffffff"), Ok(u64::MAX));
    assert_eq!(parse_pc_line(b"3:0x10000000000000000"), Err(InsnMapError::BadPc));
    assert_eq!(parse_pc_line(b"3:0x10:rest"), Ok(0x10));
}

const SCRIPT: &str = "=ZeroAddress\n0x1000\n=TotalPCs\n12\n=Function\nmain\n=Expressions\n\
x=%ebp 8 -\t0x1100->0x1110\ny.field=%eax\t0x1110->0x1120\n";

#[test]
fn script_is_read() {
    let script = parse_script(SCRIPT).unwrap();
    assert_eq!(script.zero_address, 0x1000);
    assert_eq!(script.total_pcs, 12);
    assert_eq!(script.function, b"main".to_vec());
    assert_eq!(
        script.lines,
        vec![
            ScriptLine {
                name: b"x".to_vec(),
                expr: b"%ebp 8 -".to_vec(),
                begin: Some(0x1100),
                end: Some(0x1110),
            },
            ScriptLine {
                name: b"y.field".to_vec(),
                expr: b"%eax".to_vec(),
                begin: Some(0x1110),
                end: Some(0x1120),
            },
        ]
    );
}

#[test]
fn script_header_errors() {
    assert!(matches!(parse_script(""), Err(ScriptError::BadHeader)));
    assert!(matches!(parse_script("=ZeroAddress"), Err(ScriptError::BadHeader)));
    assert!(matches!(parse_script("=ZeroAddress\nzz\n"), Err(ScriptError::BadZeroAddress)));
    assert!(matches!(parse_script("=ZeroAddress\n0x10\n=Total\n"), Err(ScriptError::BadHeader)));
    assert!(matches!(
        parse_script("=ZeroAddress\n0x10\n=TotalPCs\n-1\n"),
        Err(ScriptError::BadTotal)
    ));
    assert!(matches!(
        parse_script("=ZeroAddress\n0x10\n=TotalPCs\n4294967296\n"),
        Err(ScriptError::BadTotal)
    ));
    assert!(matches!(
        parse_script("=ZeroAddress\n0x10\n=TotalPCs\n1\n=Function\nf\n"),
        Err(ScriptError::BadHeader)
    ));
    assert!(matches!(
        parse_script("=ZeroAddress\n0x10\n=TotalPCs\n1\n=Function\nf\n=Expression\n"),
        Err(ScriptError::BadHeader)
    ));
    let empty = parse_script("=ZeroAddress\n0x10\n=TotalPCs\n1\n=Function\nf\n=Expressions\n");
    assert!(empty.unwrap().lines.is_empty());
}

#[test]
fn script_line_shapes() {
    assert!(matches!(parse_line(b"x=%eax 0x10->0x20"), Err(ScriptError::MissingTab)));
    assert!(matches!(parse_line(b""), Err(ScriptError::MissingTab)));
    assert!(matches!(parse_line(b"x\t0x10->0x20"), Err(ScriptError::MissingEquals)));
    let line = parse_line(b"x=a=b\t0x10->zz->0x30\textra").unwrap();
    assert_eq!(line.name, b"x".to_vec());
    assert_eq!(line.expr, b"a".to_vec());
    assert_eq!(line.begin, Some(0x10));
    assert_eq!(line.end, None);
    let line = parse_line(b"x=1\t0x10").unwrap();
    assert_eq!(line.begin, Some(0x10));
    assert_eq!(line.end, None);
    let line = parse_line(b"=\t->").unwrap();
    assert_eq!(line.name, Vec::<u8>::new());
    assert_eq!(line.expr, Vec::<u8>::new());
    assert_eq!(line.begin, None);
    assert_eq!(line.end, None);
}
