use dwarf_varloc::address::{Address, AddressTable};
use dwarf_varloc::die::{DieRecord, DieTag, LocationAttr, LocationEntry};
use dwarf_varloc::record::{read_existing_location_lists, LocationRecord, ScopedRecord};
use dwarf_varloc::rewrite::{
    choose_record, clamp, excluded, locations_of, rewrite_entry, zero_for_function, Choice, Edit,
    Outcome, RewriteError, RewriteState, SkipReason,
};
use dwarf_varloc::rewriter::{rewrite_dwarf, RewriteFailure};
use dwarf_varloc::script::ScriptError;
use dwarf_varloc::splice::{ExprRef, Location};
use dwarf_varloc::tree::{DieTree, Hit, TreeNode};

fn die(delta: i64, tag: DieTag, name: Option<&str>) -> DieRecord {
    DieRecord {
        delta,
        tag,
        name: name.map(|n| n.as_bytes().to_vec()),
        low_pc: None,
        high_pc: None,
        ranges: None,
        location: LocationAttr::Absent,
        const_value: None,
    }
}

fn node(tag: DieTag, name: Option<&str>, children: &[usize]) -> TreeNode {
    TreeNode {
        tag,
        name: name.map(|n| n.as_bytes().to_vec()),
        low_pc: None,
        high_pc: None,
        children: children.to_vec(),
    }
}

fn loc(begin: Address, end: Address, expr: ExprRef) -> Location {
    Location { begin, end, expr }
}

fn c(value: u64) -> Address {
    Address::Constant(value)
}

/// A unit with the function `f` at 0x200..0x210 and the variable `x` in it.
fn unit(x: DieRecord) -> (AddressTable, Vec<DieRecord>, DieTree) {
    let mut table = AddressTable::new();
    let low = table.add(Address::Constant(0x200)) as u64;
    let mut f = die(1, DieTag::Subprogram, Some("f"));
    f.low_pc = Some(low);
    f.high_pc = Some(0x10);
    let dies = vec![die(0, DieTag::Other, None), f, x];
    let mut func = node(DieTag::Subprogram, Some("f"), &[2]);
    func.low_pc = Some(0x200);
    func.high_pc = Some(0x10);
    let tree = DieTree {
        nodes: vec![node(DieTag::Other, None, &[1]), func, node(DieTag::Variable, Some("x"), &[])],
        root: 0,
    };
    (table, dies, tree)
}

fn script(lines: &str) -> String {
    format!("=ZeroAddress\n0x1000\n=TotalPCs\n4\n=Function\nf\n=Expressions\n{}", lines)
}

#[test]
fn constant_value_is_split_around_the_new_range() {
    let mut x = die(1, DieTag::Variable, Some("x"));
    x.const_value = Some(7);
    let (table, dies, tree) = unit(x);
    // ranges are counted from 0x1000 - 0x200
    let text = script("x=%ebp 8 -\t0x1004->0x1008\n");
    let done = rewrite_dwarf(&dies, &tree, &table, 0, &text).unwrap();
    assert_eq!(
        done.outcomes,
        vec![Outcome::Edited(Edit {
            var: 2,
            parent: 1,
            list: 0,
            delete_const_value: true,
            delete_parent_ranges: false,
        })]
    );
    assert_eq!(
        done.lists,
        vec![vec![
            loc(c(0x200), c(0x204), ExprRef::Const(7)),
            loc(c(0x208), c(0x210), ExprRef::Const(7)),
            loc(c(0x204), c(0x208), ExprRef::Script { entry: 0 }),
        ]]
    );
}

#[test]
fn second_entry_edits_the_list_of_the_first() {
    let mut x = die(1, DieTag::Variable, Some("x"));
    x.location = LocationAttr::Expr(vec![0x75, 0x00]);
    let (table, dies, tree) = unit(x);
    let text = script("x=%eax\t0x1000->0x1008\nx=%ebx\t0x1004->0x100c\n");
    let done = rewrite_dwarf(&dies, &tree, &table, 0, &text).unwrap();
    let read = ExprRef::Read { die: 2, entry: 0 };
    assert_eq!(done.lists.len(), 2);
    assert_eq!(
        done.lists[0],
        vec![
            loc(c(0x208), c(0x210), read),
            loc(c(0x200), c(0x208), ExprRef::Script { entry: 0 }),
        ]
    );
    // the record of the first rewrite kept the scope of the record it replaced,
    // so the second entry finds it and edits its list
    assert_eq!(
        done.lists[1],
        vec![
            loc(c(0x20c), c(0x210), read),
            loc(c(0x200), c(0x204), ExprRef::Script { entry: 0 }),
            loc(c(0x204), c(0x20c), ExprRef::Script { entry: 1 }),
        ]
    );
    assert_eq!(
        done.outcomes,
        vec![
            Outcome::Edited(Edit {
                var: 2,
                parent: 1,
                list: 0,
                delete_const_value: false,
                delete_parent_ranges: false,
            }),
            Outcome::Edited(Edit {
                var: 2,
                parent: 1,
                list: 1,
                delete_const_value: false,
                delete_parent_ranges: false,
            }),
        ]
    );
}

#[test]
fn location_list_keeps_symbolic_endpoints() {
    let mut table = AddressTable::new();
    let low = table.add(Address::Symbol { symbol: 4, addend: 0x200 }) as u64;
    let b = table.add(Address::Symbol { symbol: 4, addend: 0x200 }) as u64;
    let e = table.add(Address::Symbol { symbol: 4, addend: 0x210 }) as u64;
    let unit_low_pc = 100;
    let mut f = die(1, DieTag::Subprogram, Some("f"));
    f.low_pc = Some(low);
    f.high_pc = Some(0x10);
    let mut x = die(1, DieTag::FormalParameter, Some("x"));
    x.location = LocationAttr::List(vec![LocationEntry {
        begin: b + unit_low_pc,
        end: e + unit_low_pc,
        expr: vec![0x50],
    }]);
    let dies = vec![die(0, DieTag::Other, None), f, x];
    let mut func = node(DieTag::Subprogram, Some("f"), &[2]);
    func.low_pc = Some(0x200);
    func.high_pc = Some(0x10);
    let tree = DieTree {
        nodes: vec![
            node(DieTag::Other, None, &[1]),
            func,
            node(DieTag::FormalParameter, Some("x"), &[]),
        ],
        root: 0,
    };
    let text = script("x=%esi\t0x1008->0x1010\n");
    let done = rewrite_dwarf(&dies, &tree, &table, unit_low_pc, &text).unwrap();
    assert_eq!(
        done.lists,
        vec![vec![
            loc(
                Address::Symbol { symbol: 4, addend: 0x200 },
                c(0x208),
                ExprRef::Read { die: 2, entry: 0 }
            ),
            loc(c(0x208), c(0x210), ExprRef::Script { entry: 0 }),
        ]]
    );
}

#[test]
fn entries_are_skipped_for_their_reasons() {
    let mut x = die(1, DieTag::Variable, Some("x"));
    x.const_value = Some(7);
    let (table, dies, tree) = unit(x);
    let text = script(
        "%tmp=1\t0x1004->0x1008\nf(x)=1\t0x1004->0x1008\nx.phi=1\t0x1004->0x1008\n\
symbol3=1\t0x1004->0x1008\ninput.src.a=1\t0x1004->0x1008\ninput.dst.a=1\t0x1004->0x1008\n\
y=1\t0x1004->0x1008\nx=1\t0x1300->0x1308\n",
    );
    let done = rewrite_dwarf(&dies, &tree, &table, 0, &text).unwrap();
    let passed_over = Outcome::Skipped(SkipReason::ExcludedName);
    assert_eq!(
        done.outcomes,
        vec![
            passed_over,
            passed_over,
            passed_over,
            passed_over,
            passed_over,
            passed_over,
            Outcome::Skipped(SkipReason::UnknownVariable),
            Outcome::Skipped(SkipReason::NoFittingVariable),
        ]
    );
    assert!(done.lists.is_empty());
    assert!(excluded_name("a(b"));
    assert!(!excluded_name("plain"));
}

fn excluded_name(name: &str) -> bool {
    excluded(name.as_bytes())
}

#[test]
fn function_missing_from_the_tree_skips_every_entry() {
    let mut x = die(1, DieTag::Variable, Some("x"));
    x.const_value = Some(7);
    let (table, dies, mut tree) = unit(x);
    tree.nodes[1].name = Some(b"g".to_vec());
    let done = rewrite_dwarf(&dies, &tree, &table, 0, &script("x=1\t0x1004->0x1008\n")).unwrap();
    assert_eq!(done.outcomes, vec![Outcome::Skipped(SkipReason::NoFunction)]);
}

#[test]
fn failures_of_a_whole_rewrite() {
    let mut x = die(1, DieTag::Variable, Some("x"));
    x.const_value = Some(7);
    let (table, dies, tree) = unit(x);
    let fails = |text: &str| rewrite_dwarf(&dies, &tree, &table, 0, text).err();
    assert_eq!(fails("nonsense"), Some(RewriteFailure::Script(ScriptError::BadHeader)));
    assert_eq!(
        fails("=ZeroAddress\n0x1000\n=TotalPCs\n4\n=Function\nnone\n=Expressions\n"),
        Some(RewriteFailure::NoFunction)
    );
    assert_eq!(
        fails("=ZeroAddress\n0x100\n=TotalPCs\n4\n=Function\nf\n=Expressions\n"),
        Some(RewriteFailure::Zero(RewriteError::Underflow))
    );
    assert_eq!(
        fails(&script("x=1\t0x1004->oops\n")),
        Some(RewriteFailure::Entry { line: 0, error: RewriteError::BadRange })
    );
    assert_eq!(
        fails(&script("x=1\t0x1004->0x1008\nx=1\t0x10->0x20\n")),
        Some(RewriteFailure::Entry { line: 1, error: RewriteError::Underflow })
    );
    assert_eq!(
        fails(&script("x=1\t0x1008->0x1004\n")),
        Some(RewriteFailure::Entry { line: 0, error: RewriteError::EmptyRange })
    );
    let mut without_low_pc = dies.clone();
    without_low_pc[1].low_pc = None;
    assert_eq!(
        rewrite_dwarf(&without_low_pc, &tree, &table, 0, &script("")).err(),
        Some(RewriteFailure::NoLowPc)
    );
    let broken = DieTree { nodes: vec![node(DieTag::Other, None, &[0])], root: 0 };
    assert_eq!(
        rewrite_dwarf(&dies, &broken, &table, 0, &script("")).err(),
        Some(RewriteFailure::MalformedTree)
    );
}

#[test]
fn variable_outside_scope_drops_the_ranges_of_its_block() {
    let mut table = AddressTable::new();
    let low = table.add(Address::Constant(0x200)) as u64;
    let mut f = die(1, DieTag::Subprogram, Some("f"));
    f.low_pc = Some(low);
    f.high_pc = Some(0x10);
    let mut block = die(1, DieTag::LexicalBlock, None);
    block.ranges = Some(Vec::new());
    let mut x = die(1, DieTag::Variable, Some("x"));
    x.const_value = Some(1);
    let dies = vec![die(0, DieTag::Other, None), f, block, x];
    let mut func = node(DieTag::Subprogram, Some("f"), &[2]);
    func.low_pc = Some(0x200);
    func.high_pc = Some(0x10);
    let tree = DieTree {
        nodes: vec![
            node(DieTag::Other, None, &[1]),
            func,
            node(DieTag::LexicalBlock, None, &[3]),
            node(DieTag::Variable, Some("x"), &[]),
        ],
        root: 0,
    };
    let vars = read_existing_location_lists(&dies, 1);
    assert_eq!(vars.last_seen_outside_scope(b"x"), Some(true));
    assert_eq!(vars.last_seen_outside_scope(b"f"), None);
    let mut state = RewriteState { vars, lists: Vec::new() };
    let zero = zero_for_function(&table, 0x1000, low).unwrap();
    assert_eq!(zero, 0xe00);
    let r = rewrite_entry(
        &mut state,
        &table,
        &dies,
        &tree,
        Some(1),
        0,
        zero,
        b"x",
        Some(0x1004),
        Some(0x1008),
        5,
    );
    assert_eq!(
        r,
        Ok(Outcome::Edited(Edit {
            var: 3,
            parent: 2,
            list: 0,
            delete_const_value: true,
            delete_parent_ranges: true,
        }))
    );
    assert_eq!(state.vars.record_count(b"x"), 1);
    assert_eq!(
        state.vars.record(b"x", 0),
        ScopedRecord {
            record: LocationRecord::Rewritten { list: 0 },
            low_pc: Some(low),
            high_pc: Some(0x10),
        }
    );
}

#[test]
fn records_are_collected_per_name() {
    let mut table = AddressTable::new();
    let low = table.add(Address::Constant(0x200)) as u64;
    let mut f = die(1, DieTag::Subprogram, Some("f"));
    f.low_pc = Some(low);
    f.high_pc = Some(0x10);
    let mut a = die(1, DieTag::Variable, Some("a"));
    a.location = LocationAttr::Expr(vec![0x50]);
    let mut b = die(0, DieTag::Variable, Some("a"));
    b.location = LocationAttr::List(vec![LocationEntry { begin: 1, end: 2, expr: vec![0x51] }]);
    let plain = die(0, DieTag::Variable, Some("p"));
    let dies = vec![die(0, DieTag::Other, None), f, a, b, plain];
    let vars = read_existing_location_lists(&dies, 1);
    let scoped = |record| ScopedRecord { record, low_pc: Some(low), high_pc: Some(0x10) };
    assert_eq!(vars.record_count(b"a"), 2);
    assert_eq!(
        vars.record(b"a", 0),
        scoped(LocationRecord::ReadSingle { die: 2, begin: low, end: 0x10 })
    );
    assert_eq!(vars.record(b"a", 1), scoped(LocationRecord::ReadLocList { die: 3 }));
    assert_eq!(vars.record(b"p", 0), scoped(LocationRecord::Empty { begin: low, end: 0x10 }));
    // only variables and parameters yield records
    assert!(!vars.has_records(b"f"));
    assert!(!vars.has_records(b"q"));
    assert_eq!(vars.last_seen_outside_scope(b"a"), Some(false));
}

#[test]
fn tightest_scope_is_chosen() {
    let mut table = AddressTable::new();
    let outer = table.add(Address::Constant(0x100)) as u64;
    let inner = table.add(Address::Constant(0x110)) as u64;
    let other = table.add(Address::Constant(0x105)) as u64;
    let mut vars = read_existing_location_lists(&vec![die(0, DieTag::Other, None)], 0);
    let record = LocationRecord::Empty { begin: 0, end: 0 };
    vars.push_record(b"x", ScopedRecord { record, low_pc: Some(outer), high_pc: Some(0x100) });
    vars.push_record(b"x", ScopedRecord { record, low_pc: None, high_pc: Some(0x100) });
    vars.push_record(b"x", ScopedRecord { record, low_pc: Some(inner), high_pc: Some(0x20) });
    vars.push_record(b"x", ScopedRecord { record, low_pc: Some(other), high_pc: Some(0x40) });
    // all three scopes hold the range; the second narrows the first, the third does not
    // lie within the second
    assert_eq!(
        choose_record(&table, &vars, b"x", 0x118, 0x120),
        Ok(Some(Choice { position: 2, low: 0x110, len: 0x20 }))
    );
    assert_eq!(
        choose_record(&table, &vars, b"x", 0x100, 0x104),
        Ok(Some(Choice { position: 0, low: 0x100, len: 0x100 }))
    );
    assert_eq!(choose_record(&table, &vars, b"x", 0x300, 0x304), Ok(None));
    vars.push_record(b"x", ScopedRecord { record, low_pc: Some(99), high_pc: Some(1) });
    assert_eq!(choose_record(&table, &vars, b"x", 0x300, 0x304), Err(RewriteError::BadIndex));
}

#[test]
fn smaller_scope_wins_without_nesting() {
    let mut table = AddressTable::new();
    let first = table.add(Address::Constant(0x100)) as u64;
    let second = table.add(Address::Constant(0x120)) as u64;
    let record = LocationRecord::Empty { begin: 0, end: 0 };
    let mut vars = read_existing_location_lists(&vec![die(0, DieTag::Other, None)], 0);
    vars.push_record(b"x", ScopedRecord { record, low_pc: Some(first), high_pc: Some(0x30) });
    vars.push_record(b"x", ScopedRecord { record, low_pc: Some(second), high_pc: Some(0x20) });
    vars.push_record(b"x", ScopedRecord { record, low_pc: Some(first), high_pc: Some(0x40) });
    // 0x100..0x130 and 0x120..0x140 overlap without nesting; the smaller one is taken
    assert_eq!(
        choose_record(&table, &vars, b"x", 0x124, 0x128),
        Ok(Some(Choice { position: 1, low: 0x120, len: 0x20 }))
    );
    // of two scopes of one size the later one is taken
    vars.push_record(b"x", ScopedRecord { record, low_pc: Some(second), high_pc: Some(0x20) });
    assert_eq!(
        choose_record(&table, &vars, b"x", 0x124, 0x128),
        Ok(Some(Choice { position: 3, low: 0x120, len: 0x20 }))
    );
}

#[test]
fn range_is_cut_down_to_the_scope() {
    let mut table = AddressTable::new();
    let low = table.add(Address::Constant(0x200)) as u64;
    let bad = table.add(Address::Symbol { symbol: 1, addend: -1 }) as u64;
    let record = LocationRecord::Empty { begin: 0, end: 0 };
    let only = ScopedRecord { record, low_pc: Some(low), high_pc: Some(0x10) };
    assert_eq!(clamp(&table, only, 0x1f0, 0x208), Ok((0x200, 0x208)));
    assert_eq!(clamp(&table, only, 0x204, 0x300), Ok((0x204, 0x210)));
    assert_eq!(clamp(&table, only, 0x210, 0x300), Err(RewriteError::EmptyRange));
    let unscoped = ScopedRecord { record, low_pc: Some(low), high_pc: None };
    assert_eq!(clamp(&table, unscoped, 0x204, 0x208), Err(RewriteError::NoScope));
    let unresolved = ScopedRecord { record, low_pc: Some(bad), high_pc: Some(4) };
    assert_eq!(clamp(&table, unresolved, 0, 4), Err(RewriteError::UnresolvedAddress));
}

#[test]
fn locations_of_each_kind_of_record() {
    let mut table = AddressTable::new();
    let low = table.add(Address::Constant(0x200)) as u64;
    let dies = vec![die(0, DieTag::Other, None)];
    let lists = vec![vec![loc(c(1), c(2), ExprRef::Const(3))]];
    let of = |record| locations_of(&table, &dies, &lists, 0, record);
    assert_eq!(
        of(LocationRecord::ReadSingle { die: 9, begin: low, end: 0x10 }),
        Ok(vec![loc(c(0x200), c(0x210), ExprRef::Read { die: 9, entry: 0 })])
    );
    assert_eq!(
        of(LocationRecord::ConstAttr { value: -2, begin: low, end: 0x10 }),
        Ok(vec![loc(c(0x200), c(0x210), ExprRef::Const(-2))])
    );
    assert_eq!(of(LocationRecord::Empty { begin: low, end: 0x10 }), Ok(vec![]));
    assert_eq!(of(LocationRecord::Rewritten { list: 0 }), Ok(lists[0].clone()));
    assert_eq!(of(LocationRecord::Rewritten { list: 1 }), Err(RewriteError::BadIndex));
    assert_eq!(of(LocationRecord::ReadLocList { die: 0 }), Err(RewriteError::BadIndex));
    assert_eq!(
        of(LocationRecord::ReadSingle { die: 0, begin: low, end: u64::MAX }),
        Err(RewriteError::Overflow)
    );
}

#[test]
fn deepest_variable_wins_among_several() {
    let mut func = node(DieTag::Subprogram, Some("f"), &[2, 3]);
    func.low_pc = Some(0x100);
    func.high_pc = Some(0x100);
    let mut block = node(DieTag::LexicalBlock, None, &[4]);
    block.low_pc = Some(0x120);
    block.high_pc = Some(0x20);
    let tree = DieTree {
        nodes: vec![
            node(DieTag::Other, None, &[1]),
            func,
            node(DieTag::Variable, Some("x"), &[]),
            block,
            node(DieTag::Variable, Some("x"), &[]),
        ],
        root: 0,
    };
    assert!(tree.check());
    assert_eq!(tree.get_func_id(b"f"), Some(1));
    assert_eq!(tree.get_func_id(b"g"), None);
    // several variables: the range must lie within the scope, and depth decides
    assert_eq!(
        tree.get_var(1, b"x", (0x124, 0x128), false),
        Some(Hit { var: 4, parent: 3, depth: 2 })
    );
    assert_eq!(
        tree.get_var(1, b"x", (0x104, 0x108), false),
        Some(Hit { var: 2, parent: 1, depth: 1 })
    );
    assert_eq!(tree.get_var(1, b"x", (0xf0, 0x108), false), None);
    // a single variable: any overlap will do, and the first one found is taken
    assert_eq!(
        tree.get_var(1, b"x", (0xf0, 0x108), true),
        Some(Hit { var: 2, parent: 1, depth: 1 })
    );
    assert_eq!(tree.get_var(1, b"x", (0x300, 0x308), true), None);
    assert_eq!(tree.get_var(1, b"y", (0x104, 0x108), true), None);
}

#[test]
fn earlier_variable_wins_at_equal_depth() {
    let mut func = node(DieTag::Subprogram, Some("f"), &[2, 4, 6]);
    func.low_pc = Some(0x100);
    func.high_pc = Some(0x100);
    let mut first = node(DieTag::LexicalBlock, None, &[3]);
    first.low_pc = Some(0x110);
    first.high_pc = Some(0x40);
    let mut second = node(DieTag::LexicalBlock, None, &[5]);
    second.low_pc = Some(0x140);
    second.high_pc = Some(0x30);
    let mut third = node(DieTag::LexicalBlock, None, &[7]);
    third.low_pc = Some(0x180);
    third.high_pc = Some(0x20);
    let mut inner = node(DieTag::LexicalBlock, None, &[8]);
    inner.low_pc = Some(0x188);
    inner.high_pc = Some(0x10);
    let tree = DieTree {
        nodes: vec![
            node(DieTag::Other, None, &[1]),
            func,
            first,
            node(DieTag::Variable, Some("x"), &[]),
            second,
            node(DieTag::Variable, Some("x"), &[]),
            third,
            inner,
            node(DieTag::FormalParameter, Some("x"), &[]),
        ],
        root: 0,
    };
    assert!(tree.check());
    // both blocks contain the range: the one that is visited first is taken
    assert_eq!(
        tree.get_var(1, b"x", (0x144, 0x148), false),
        Some(Hit { var: 3, parent: 2, depth: 2 })
    );
    // only the second block contains the range, or only the first
    assert_eq!(
        tree.get_var(1, b"x", (0x150, 0x160), false),
        Some(Hit { var: 5, parent: 4, depth: 2 })
    );
    assert_eq!(
        tree.get_var(1, b"x", (0x114, 0x118), false),
        Some(Hit { var: 3, parent: 2, depth: 2 })
    );
    // the deepest one, though it is visited last
    assert_eq!(
        tree.get_var(1, b"x", (0x18a, 0x18c), false),
        Some(Hit { var: 8, parent: 7, depth: 3 })
    );
    // with a single variable the first whose block overlaps the range
    assert_eq!(
        tree.get_var(1, b"x", (0x13c, 0x190), true),
        Some(Hit { var: 3, parent: 2, depth: 2 })
    );
    assert_eq!(
        tree.get_var(1, b"x", (0x172, 0x190), true),
        Some(Hit { var: 8, parent: 7, depth: 3 })
    );
    // a search that begins deeper counts the depth from where it is told
    assert_eq!(
        tree.get_var_depth(6, b"x", 4, (0x18a, 0x18c), (Some(0x180), Some(0x20)), false),
        Some(Hit { var: 8, parent: 7, depth: 6 })
    );
    assert_eq!(tree.get_var(1, b"x", (0x200, 0x208), false), None);
}

#[test]
fn last_function_of_a_name_is_taken() {
    let tree = DieTree {
        nodes: vec![
            node(DieTag::Other, None, &[1, 2, 3]),
            node(DieTag::Subprogram, Some("f"), &[]),
            node(DieTag::Variable, Some("f"), &[]),
            node(DieTag::Subprogram, Some("f"), &[]),
        ],
        root: 0,
    };
    assert_eq!(tree.get_func_id(b"f"), Some(3));
}
