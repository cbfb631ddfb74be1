use dwarf_varloc::expr::{
    create_dwarf_expr, get_arith_dwop, get_register_mapping, is_arith_op, parse_location_expr,
    LocOp, SimpleOp,
};

#[test]
fn parser_reads_register_constant_and_operator() {
    let ops = parse_location_expr("%ebp 16 -");
    assert_eq!(
        ops,
        vec![
            LocOp::Breg { register: 5, offset: 0 },
            LocOp::Consts(16),
            LocOp::Simple(SimpleOp::Minus),
            LocOp::Simple(SimpleOp::StackValue),
        ]
    );
}

#[test]
fn built_expression_matches_direct_construction() {
    let built = create_dwarf_expr("%ebp 16 -");
    let mut expected = gimli::write::Expression::new();
    expected.op_breg(gimli::Register(5), 0);
    expected.op_consts(16);
    expected.op(gimli::constants::DW_OP_minus);
    expected.op(gimli::constants::DW_OP_stack_value);
    assert_eq!(built, expected);
}

#[test]
fn lone_percent_sign_is_the_modulo_operator() {
    assert_eq!(
        parse_location_expr("7 3 %"),
        vec![
            LocOp::Consts(7),
            LocOp::Consts(3),
            LocOp::Simple(SimpleOp::Mod),
            LocOp::Simple(SimpleOp::StackValue),
        ]
    );
    let mut expected = gimli::write::Expression::new();
    expected.op_consts(7);
    expected.op_consts(3);
    expected.op(gimli::constants::DW_OP_mod);
    expected.op(gimli::constants::DW_OP_stack_value);
    assert_eq!(create_dwarf_expr("7 3 %"), expected);
}

#[test]
fn words_are_read_in_order() {
    assert_eq!(
        parse_location_expr("%eax %xmm2 -4 + * / - junk %nosuch"),
        vec![
            LocOp::Breg { register: 0, offset: 0 },
            LocOp::Breg { register: 23, offset: 0 },
            LocOp::Consts(-4),
            LocOp::Simple(SimpleOp::Plus),
            LocOp::Simple(SimpleOp::Mul),
            LocOp::Simple(SimpleOp::Div),
            LocOp::Simple(SimpleOp::Minus),
            LocOp::Breg { register: 255, offset: 0 },
            LocOp::Simple(SimpleOp::StackValue),
        ]
    );
    assert_eq!(parse_location_expr(""), vec![LocOp::Simple(SimpleOp::StackValue)]);
}

#[test]
fn register_numbers() {
    assert_eq!(get_register_mapping("eax"), 0);
    assert_eq!(get_register_mapping("edi"), 7);
    assert_eq!(get_register_mapping("es"), 40);
    assert_eq!(get_register_mapping("gs"), 45);
    assert_eq!(get_register_mapping("xmm0"), 21);
    assert_eq!(get_register_mapping("xmm7"), 28);
    assert_eq!(get_register_mapping("rax"), 255);
    assert_eq!(get_register_mapping("xmm"), 255);
    assert_eq!(get_register_mapping("xmm65535"), 255);
}

#[test]
fn arithmetic_operators() {
    assert!(is_arith_op("+"));
    assert!(is_arith_op("%"));
    assert!(!is_arith_op("++"));
    assert!(!is_arith_op(""));
    assert_eq!(get_arith_dwop("/"), Some(SimpleOp::Div));
    assert_eq!(get_arith_dwop("x"), None);
}
