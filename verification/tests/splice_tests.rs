use dwarf_varloc::address::Address;
use dwarf_varloc::splice::{splice_list, ExprRef, Location, SpliceError};

fn prior(begin: u64, end: u64) -> Location {
    Location {
        begin: Address::Constant(begin),
        end: Address::Constant(end),
        expr: ExprRef::Read { die: 0, entry: 0 },
    }
}

fn fresh(begin: u64, end: u64) -> Location {
    Location {
        begin: Address::Constant(begin),
        end: Address::Constant(end),
        expr: ExprRef::Script { entry: 0 },
    }
}

fn splice(existing: &[Location], start: u64, end: u64) -> Vec<Location> {
    splice_list(&existing.to_vec(), start, end, ExprRef::Script { entry: 0 }).unwrap()
}

#[test]
fn new_range_at_the_start_leaves_the_rest() {
    let out = splice(&[prior(0x100, 0x120)], 0x100, 0x110);
    assert_eq!(out, vec![prior(0x110, 0x120), fresh(0x100, 0x110)]);
}

#[test]
fn covering_range_removes_the_entry() {
    let out = splice(&[prior(0x100, 0x120)], 0x100, 0x120);
    assert_eq!(out, vec![fresh(0x100, 0x120)]);
    let out = splice(&[prior(0x100, 0x120)], 0xf0, 0x130);
    assert_eq!(out, vec![fresh(0xf0, 0x130)]);
}

#[test]
fn range_in_the_middle_splits_in_two() {
    let out = splice(&[prior(0x200, 0x210)], 0x204, 0x208);
    assert_eq!(out, vec![prior(0x200, 0x204), prior(0x208, 0x210), fresh(0x204, 0x208)]);
}

#[test]
fn range_at_the_end_leaves_the_start() {
    let out = splice(&[prior(0x100, 0x120)], 0x118, 0x120);
    assert_eq!(out, vec![prior(0x100, 0x118), fresh(0x118, 0x120)]);
}

#[test]
fn overlap_from_below_and_from_above() {
    let out = splice(&[prior(0x100, 0x120)], 0xf0, 0x108);
    assert_eq!(out, vec![prior(0x108, 0x120), fresh(0xf0, 0x108)]);
    let out = splice(&[prior(0x100, 0x120)], 0x110, 0x140);
    assert_eq!(out, vec![prior(0x100, 0x110), fresh(0x110, 0x140)]);
}

#[test]
fn untouched_entries_stay() {
    let list = [prior(0x100, 0x110), prior(0x120, 0x130)];
    let out = splice(&list, 0x110, 0x120);
    assert_eq!(out, vec![prior(0x100, 0x110), prior(0x120, 0x130), fresh(0x110, 0x120)]);
}

#[test]
fn symbolic_endpoints_are_kept_where_not_cut() {
    let entry = Location {
        begin: Address::Symbol { symbol: 2, addend: 0x10 },
        end: Address::Symbol { symbol: 2, addend: 0x30 },
        expr: ExprRef::Const(5),
    };
    let out = splice(&[entry], 0x18, 0x20);
    assert_eq!(
        out,
        vec![
            Location { begin: entry.begin, end: Address::Constant(0x18), expr: ExprRef::Const(5) },
            Location { begin: Address::Constant(0x20), end: entry.end, expr: ExprRef::Const(5) },
            fresh(0x18, 0x20),
        ]
    );
}

#[test]
fn splicing_twice_changes_nothing() {
    let once = splice(&[prior(0x100, 0x120), prior(0x130, 0x140)], 0x110, 0x138);
    let twice = splice(&once, 0x110, 0x138);
    assert_eq!(once, twice);
}

#[test]
fn disjoint_splices_commute_up_to_the_new_entries() {
    let list = vec![prior(0x100, 0x200)];
    let a = ExprRef::Script { entry: 1 };
    let b = ExprRef::Script { entry: 2 };
    let ab = splice_list(&splice_list(&list, 0x110, 0x120, a).unwrap(), 0x150, 0x160, b).unwrap();
    let ba = splice_list(&splice_list(&list, 0x150, 0x160, b).unwrap(), 0x110, 0x120, a).unwrap();
    assert_eq!(ab.len(), 5);
    assert_eq!(ab[..3], ba[..3]);
    assert_eq!(ab[3], ba[4]);
    assert_eq!(ab[4], ba[3]);
}

#[test]
fn empty_range_is_refused() {
    let list = vec![prior(0x100, 0x120)];
    assert_eq!(
        splice_list(&list, 0x110, 0x110, ExprRef::Const(0)),
        Err(SpliceError::EmptyRange)
    );
    assert_eq!(
        splice_list(&list, 0x118, 0x110, ExprRef::Const(0)),
        Err(SpliceError::EmptyRange)
    );
}

#[test]
fn unresolved_endpoint_is_refused() {
    let list = vec![Location {
        begin: Address::Symbol { symbol: 1, addend: -4 },
        end: Address::Constant(0x20),
        expr: ExprRef::Const(0),
    }];
    assert_eq!(
        splice_list(&list, 0x10, 0x18, ExprRef::Const(0)),
        Err(SpliceError::UnresolvedAddress)
    );
}

#[test]
fn spliced_list_is_disjoint_and_covers_the_union() {
    let list = [prior(0x100, 0x110), prior(0x118, 0x130), prior(0x140, 0x150)];
    let out = splice(&list, 0x108, 0x144);
    assert_eq!(
        out,
        vec![prior(0x100, 0x108), prior(0x144, 0x150), fresh(0x108, 0x144)]
    );
    let value = |a: Address| match a {
        Address::Constant(v) => v,
        Address::Symbol { addend, .. } => addend as u64,
    };
    let covers = |list: &[Location], pc: u64| {
        list.iter().filter(|l| value(l.begin) <= pc && pc < value(l.end)).count()
    };
    for pc in 0xf0..0x160u64 {
        let before = covers(&list, pc) > 0 || (0x108 <= pc && pc < 0x144);
        assert_eq!(covers(&out, pc), if before { 1 } else { 0 });
    }
}
