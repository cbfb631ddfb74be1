use dwarf_varloc::coverage::{measure, tally_entry, CoverageError};
use dwarf_varloc::covmap::CoverageMap;
use dwarf_varloc::die::{
    get_func_entry_offset, subtree_end, DieRecord, DieTag, LocationAttr, LocationEntry, Scope,
};
use dwarf_varloc::diff::diff;
use dwarf_varloc::expr::{is_const_expression, Encoding};
use dwarf_varloc::interval::{insert_interval, insert_pc, Interval};

const ENC: Encoding = Encoding { address_size: 4, dwarf64: false, version: 4 };

// DW_OP_lit5, DW_OP_stack_value
const CONST_EXPR: [u8; 2] = [0x35, 0x9f];
// DW_OP_breg5 0
const REAL_EXPR: [u8; 2] = [0x75, 0x00];

fn die(delta: i64, tag: DieTag, name: Option<&str>) -> DieRecord {
    DieRecord {
        delta,
        tag,
        name: name.map(|n| n.as_bytes().to_vec()),
        low_pc: None,
        high_pc: None,
        ranges: None,
        location: LocationAttr::Absent,
        const_value: None,
    }
}

fn function(name: &str, low: u64, len: u64) -> DieRecord {
    let mut f = die(1, DieTag::Subprogram, Some(name));
    f.low_pc = Some(low);
    f.high_pc = Some(len);
    f
}

fn listed(name: &str, entries: &[(u64, u64, &[u8])]) -> DieRecord {
    let mut v = die(1, DieTag::Variable, Some(name));
    v.location = LocationAttr::List(
        entries
            .iter()
            .map(|(b, e, x)| LocationEntry { begin: *b, end: *e, expr: x.to_vec() })
            .collect(),
    );
    v
}

fn iv(begin: u64, end: u64, is_const: bool) -> Interval {
    Interval { begin, end, is_const }
}

#[test]
fn classification_looks_at_two_operations() {
    assert!(is_const_expression(&CONST_EXPR, ENC));
    // DW_OP_consts 7, DW_OP_stack_value
    assert!(is_const_expression(&[0x11, 0x07, 0x9f], ENC));
    // DW_OP_constu 7, DW_OP_stack_value, DW_OP_piece 4
    assert!(is_const_expression(&[0x10, 0x07, 0x9f, 0x93, 0x04], ENC));
    assert!(!is_const_expression(&REAL_EXPR, ENC));
    // a constant alone
    assert!(!is_const_expression(&[0x35], ENC));
    // a constant followed by something else
    assert!(!is_const_expression(&[0x35, 0x22], ENC));
    // DW_OP_stack_value first
    assert!(!is_const_expression(&[0x9f, 0x35], ENC));
    // nothing, and something that does not decode
    assert!(!is_const_expression(&[], ENC));
    assert!(!is_const_expression(&[0x11], ENC));
}

#[test]
fn piece_operation_is_never_decoded() {
    // DW_OP_piece with an operand of 2^61, whose size in bits fits no u64
    let huge = [0x93, 0x80, 0x80, 0x80, 0x80, 0x80, 0x80, 0x80, 0x80, 0x20];
    assert!(!is_const_expression(&huge, ENC));
    // the same behind DW_OP_lit0
    let mut second = vec![0x30];
    second.extend_from_slice(&huge);
    assert!(!is_const_expression(&second, ENC));
    // a piece whose operand is cut off
    assert!(!is_const_expression(&[0x93], ENC));
    assert!(!is_const_expression(&[0x35, 0x93], ENC));
    // a piece behind a constant and DW_OP_stack_value is not looked at
    let mut third = vec![0x35, 0x9f];
    third.extend_from_slice(&huge);
    assert!(is_const_expression(&third, ENC));
}

#[test]
fn const_location_becomes_real_location() {
    let insns = vec![0x10, 0x14, 0x18];
    let tail = Some(0x18 + 4);
    let before = vec![
        die(0, DieTag::Other, None),
        function("f", 0x10, 0xc),
        listed("x", &[(0x10, 0x1c, &CONST_EXPR)]),
    ];
    let after = vec![
        die(0, DieTag::Other, None),
        function("f", 0x10, 0xc),
        listed("x", &[(0x10, 0x1c, &REAL_EXPR)]),
    ];
    let b = measure(&before, 1, &insns, tail, ENC).unwrap();
    let a = measure(&after, 1, &insns, tail, ENC).unwrap();
    assert_eq!(b.map.get(b"x"), Some(&vec![iv(0x10, 0x1c, true)]));
    assert_eq!(a.map.get(b"x"), Some(&vec![iv(0x10, 0x1c, false)]));
    assert_eq!(b.total, 3);
    assert_eq!(a.total, 3);
    let report = diff(&b.map, &a.map, &insns);
    assert_eq!(report.improved_pcs, vec![0x10, 0x14, 0x18]);
    assert_eq!(report.const_to_non_const_count, 3);
    assert_eq!(report.improv_var_cnt, 1);
    assert_eq!(report.missing_count, 0);
    assert!(report.missing_pcs.is_empty());
    assert_eq!(report.improved_or_missing_pcs, vec![0x10, 0x14, 0x18]);
    assert_eq!(report.improved_or_missing_vars, 1);
    assert_eq!(report.improved_or_missing_pc_var_pairs, 3);
}

#[test]
fn variable_unknown_before_is_missing() {
    let insns = vec![0x20, 0x24];
    let before = CoverageMap::new();
    assert_eq!(before.len(), 0);
    assert_eq!(before.get(b"x"), None);
    let mut after = CoverageMap::new();
    after.insert(b"x".to_vec(), vec![iv(0x20, 0x28, false)]);
    let report = diff(&before, &after, &insns);
    assert_eq!(report.missing_pcs, vec![0x20, 0x24]);
    assert_eq!(report.missing_count, 2);
    assert_eq!(report.missing_var_cnt, 1);
    assert_eq!(report.const_to_non_const_count, 0);
    assert!(report.improved_pcs.is_empty());
    assert_eq!(report.improved_or_missing_pc_var_pairs, 2);
    assert_eq!(report.missing_vars, vec![true]);
    assert_eq!(report.improved_vars, vec![false]);
}

#[test]
fn uncovered_program_counter_of_known_variable_is_missing() {
    let insns = vec![0x10, 0x14, 0x18];
    let mut before = CoverageMap::new();
    before.insert(b"x".to_vec(), vec![iv(0x10, 0x14, true)]);
    let mut after = CoverageMap::new();
    after.insert(b"x".to_vec(), vec![iv(0x10, 0x1c, false)]);
    let report = diff(&before, &after, &insns);
    assert_eq!(report.improved_pcs, vec![0x10]);
    assert_eq!(report.missing_pcs, vec![0x14, 0x18]);
    assert_eq!(report.improved_or_missing_pcs, vec![0x10, 0x14, 0x18]);
    assert_eq!(report.const_to_non_const_count, 1);
    assert_eq!(report.missing_count, 2);
    assert_eq!(report.improved_or_missing_vars, 1);
}

#[test]
fn more_coverage_after_never_lowers_the_pair_count() {
    let insns = vec![0x10, 0x14, 0x18, 0x1c];
    let mut before = CoverageMap::new();
    before.insert(b"x".to_vec(), vec![iv(0x10, 0x14, true)]);
    let mut after = CoverageMap::new();
    after.insert(b"x".to_vec(), vec![iv(0x10, 0x18, false)]);
    let fewer = diff(&before, &after, &insns).improved_or_missing_pc_var_pairs;
    after.insert(b"x".to_vec(), vec![iv(0x10, 0x18, false), iv(0x18, 0x20, false)]);
    let more = diff(&before, &after, &insns).improved_or_missing_pc_var_pairs;
    after.insert(b"y".to_vec(), vec![iv(0x10, 0x14, true)]);
    let most = diff(&before, &after, &insns).improved_or_missing_pc_var_pairs;
    assert_eq!(fewer, 2);
    assert_eq!(more, 4);
    assert_eq!(most, 5);
}

#[test]
fn runs_end_at_the_next_program_counter() {
    let dies = vec![die(0, DieTag::Other, None)];
    let insns = vec![0x10, 0x14, 0x18, 0x1c, 0x20];
    let scope = Scope::Range { begin: 0x10, end: 0x19 };
    let mut set = Vec::new();
    let mut total = 0i64;
    // the entry reaches 0x20, the scope only up to 0x18
    let r = tally_entry(&dies, scope, &insns, Some(0x22), 0x10, 0x21, false, &mut set, &mut total);
    assert_eq!(r, Ok(()));
    assert_eq!(set, vec![iv(0x10, 0x1c, false)]);
    assert_eq!(total, 3);
}

#[test]
fn scope_with_a_gap_gives_two_runs() {
    let mut holder = die(0, DieTag::Other, None);
    holder.ranges = Some(vec![(0x10, 0x15), (0x1c, 0x30)]);
    let dies = vec![holder];
    let insns = vec![0x10, 0x14, 0x18, 0x1c, 0x20];
    let mut set = Vec::new();
    let mut total = 0i64;
    let r = tally_entry(
        &dies,
        Scope::ListOf { die: 0 },
        &insns,
        Some(0x24),
        0x0,
        0x100,
        true,
        &mut set,
        &mut total,
    );
    assert_eq!(r, Ok(()));
    assert_eq!(set, vec![iv(0x10, 0x18, true), iv(0x1c, 0x24, true)]);
    assert_eq!(total, 4);
}

#[test]
fn last_run_needs_the_end_of_the_last_instruction() {
    let dies = vec![die(0, DieTag::Other, None)];
    let insns = vec![0x10, 0x14];
    let scope = Scope::Range { begin: 0x10, end: 0x18 };
    let mut set = Vec::new();
    let mut total = 0i64;
    let r = tally_entry(&dies, scope, &insns, None, 0x10, 0x18, false, &mut set, &mut total);
    assert_eq!(r, Err(CoverageError::TailUnknown));
    // a run that stops before the last program counter does not need it
    let mut set = Vec::new();
    let r = tally_entry(&dies, scope, &insns, None, 0x10, 0x14, false, &mut set, &mut total);
    assert_eq!(r, Ok(()));
    assert_eq!(set, vec![iv(0x10, 0x14, false)]);
}

#[test]
fn count_that_does_not_fit_is_an_error() {
    let dies = vec![die(0, DieTag::Other, None)];
    let insns = vec![0x10, 0x14];
    let scope = Scope::Range { begin: 0x10, end: 0x18 };
    let mut set = Vec::new();
    let mut total = i64::MAX - 1;
    let r = tally_entry(&dies, scope, &insns, Some(0x18), 0x10, 0x18, false, &mut set, &mut total);
    assert_eq!(r, Err(CoverageError::CountOverflow));
    let mut set = Vec::new();
    let mut total = i64::MAX - 2;
    let r = tally_entry(&dies, scope, &insns, Some(0x18), 0x10, 0x18, false, &mut set, &mut total);
    assert_eq!(r, Ok(()));
    assert_eq!(total, i64::MAX);
}

#[test]
fn single_expression_and_constant_value_use_the_scope() {
    let mut with_expr = die(1, DieTag::FormalParameter, Some("p"));
    with_expr.location = LocationAttr::Expr(REAL_EXPR.to_vec());
    let mut with_const = die(0, DieTag::Variable, Some("c"));
    with_const.const_value = Some(7);
    let mut unscoped = die(0, DieTag::Variable, Some("u"));
    unscoped.location = LocationAttr::Unsupported;
    let dies = vec![
        die(0, DieTag::Other, None),
        function("f", 0x100, 0x20),
        with_expr,
        with_const,
        unscoped,
        function("g", 0x200, 0x10),
    ];
    let mut g = dies[5].clone();
    g.delta = -1;
    let mut dies = dies;
    dies[5] = g;
    let insns = vec![0x100, 0x108, 0x110];
    let c = measure(&dies, 1, &insns, Some(0x114), ENC).unwrap();
    assert_eq!(c.map.get(b"p"), Some(&vec![iv(0x100, 0x120, false)]));
    assert_eq!(c.map.get(b"c"), Some(&vec![iv(0x100, 0x120, true)]));
    assert_eq!(c.map.get(b"u"), None);
    assert_eq!(c.map.len(), 2);
    assert_eq!(c.total, 6);
}

#[test]
fn variable_outside_any_scope_is_passed_over() {
    let mut block = die(1, DieTag::LexicalBlock, None);
    block.ranges = Some(Vec::new());
    let mut v = die(1, DieTag::Variable, Some("v"));
    v.const_value = Some(1);
    let w = listed("w", &[(0x100, 0x110, &REAL_EXPR)]);
    let mut w = w;
    w.delta = 0;
    let dies = vec![die(0, DieTag::Other, None), function("f", 0x100, 0x20), block, v, w];
    let insns = vec![0x100, 0x108];
    let c = measure(&dies, 1, &insns, Some(0x10c), ENC).unwrap();
    // without a scope a variable is passed over, whatever location it has
    assert_eq!(c.map.get(b"v"), None);
    assert_eq!(c.map.get(b"w"), None);
    assert_eq!(c.map.len(), 0);
    assert_eq!(c.total, 0);
}

#[test]
fn later_variable_of_the_same_name_wins() {
    let first = listed("x", &[(0x100, 0x108, &CONST_EXPR)]);
    let mut second = listed("x", &[(0x108, 0x110, &REAL_EXPR)]);
    second.delta = 0;
    let dies = vec![die(0, DieTag::Other, None), function("f", 0x100, 0x20), first, second];
    let insns = vec![0x100, 0x108];
    let c = measure(&dies, 1, &insns, Some(0x10c), ENC).unwrap();
    assert_eq!(c.map.len(), 1);
    assert_eq!(c.map.get(b"x"), Some(&vec![iv(0x108, 0x10c, false)]));
    assert_eq!(c.total, 2);
}

#[test]
fn scope_that_does_not_fit_is_an_error() {
    let dies = vec![die(0, DieTag::Other, None), function("f", u64::MAX, 2)];
    let r = measure(&dies, 1, &vec![], None, ENC);
    assert!(matches!(r, Err(CoverageError::ScopeOverflow)));
}

#[test]
fn function_is_found_below_the_root_only() {
    let mut nested = function("f", 0x300, 0x10);
    nested.delta = 1;
    let mut top = function("f", 0x100, 0x20);
    top.delta = -1;
    let dies = vec![die(0, DieTag::Other, None), function("g", 0x0, 0x10), nested, top];
    let found = get_func_entry_offset(&dies, b"f").unwrap();
    assert_eq!(found.index, 3);
    assert_eq!(found.low_pc, Some(0x100));
    assert_eq!(found.high_pc, Some(0x20));
    assert_eq!(get_func_entry_offset(&dies, b"h"), None);
    assert_eq!(subtree_end(&dies, 1), 3);
    assert_eq!(subtree_end(&dies, 3), 4);
    assert_eq!(subtree_end(&dies, 0), 4);
}

#[test]
fn ordered_sets_take_each_element_once() {
    let mut pcs = Vec::new();
    for pc in [0x18u64, 0x10, 0x14, 0x10, 0x18] {
        insert_pc(&mut pcs, pc);
    }
    assert_eq!(pcs, vec![0x10, 0x14, 0x18]);
    let mut set = Vec::new();
    for x in [iv(2, 3, true), iv(1, 9, false), iv(2, 3, false), iv(1, 4, true), iv(2, 3, true)] {
        insert_interval(&mut set, x);
    }
    assert_eq!(set, vec![iv(1, 4, true), iv(1, 9, false), iv(2, 3, false), iv(2, 3, true)]);
}

#[test]
fn intervals_of_a_variable_are_sorted_and_disjoint() {
    let block = {
        let mut b = die(1, DieTag::LexicalBlock, None);
        b.ranges = Some(vec![(0x100, 0x10c), (0x118, 0x130)]);
        b
    };
    let x = listed(
        "x",
        &[(0x120, 0x130, &REAL_EXPR), (0x100, 0x110, &CONST_EXPR), (0x110, 0x120, &REAL_EXPR)],
    );
    let dies = vec![die(0, DieTag::Other, None), function("f", 0x100, 0x30), block, x];
    let insns = vec![0x100, 0x104, 0x108, 0x10c, 0x110, 0x118, 0x11c, 0x120, 0x128];
    let c = measure(&dies, 1, &insns, Some(0x12c), ENC).unwrap();
    let set = c.map.get(b"x").unwrap();
    assert_eq!(
        set,
        &vec![
            iv(0x100, 0x10c, true),
            iv(0x118, 0x120, false),
            iv(0x120, 0x12c, false),
        ]
    );
    for pair in set.windows(2) {
        assert!(pair[0].begin <= pair[1].begin);
        assert!(pair[0].end <= pair[1].begin);
    }
    assert_eq!(c.total, 7);
}
