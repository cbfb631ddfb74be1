//! What holds of every coverage measurement: the intervals of a variable
//! are sorted, and they do not overlap when the debug information they stem
//! from does not.

use vstd::prelude::*;
use crate::coverage::{
    counted, die_tally, list_tally, measured, runs, runs_from, scope_tally, tail_or_zero,
    walk_state,
};
use crate::die::{
    scope_ranges, walk_end, walk_end_bounds, DieRecord, LocationAttr, LocationEntry, Scope,
};
use crate::expr::{is_const, Encoding};
use crate::interval::{
    ascending, increasing, insert_all, insert_all_facts, interval_lt, pairwise_apart, set_insert,
    set_insert_facts, sorted_by_begin, Interval,
};

verus! {

/// The range `(b, e)` is that of the run of the entry `[lb, le)` that
/// begins at position `s`: the program counter there is `b`, it counts and
/// has no counting neighbour before it, every program counter in the range
/// counts, and the range ends at the first program counter behind `s` that
/// does not count, or at `tail` if all behind `s` count.
pub open spec fn run_begins_at(
    insns: Seq<u64>,
    ranges: Seq<(u64, u64)>,
    lb: u64,
    le: u64,
    tail: u64,
    b: u64,
    e: u64,
    s: int,
) -> bool {
    &&& 0 <= s < insns.len()
    &&& insns[s] == b
    &&& counted(insns, ranges, lb, le, s)
    &&& (s == 0 || !counted(insns, ranges, lb, le, s - 1))
    &&& forall|j: int|
        0 <= j < insns.len() && b <= #[trigger] insns[j] < e ==> counted(insns, ranges, lb, le, j)
    &&& run_ends_at(insns, ranges, lb, le, tail, e, s)
}

/// The run that begins at position `s` ends at `e`: at the first program
/// counter behind `s` that does not count, or at `tail` if all count.
pub open spec fn run_ends_at(
    insns: Seq<u64>,
    ranges: Seq<(u64, u64)>,
    lb: u64,
    le: u64,
    tail: u64,
    e: u64,
    s: int,
) -> bool {
    ||| (e == tail && forall|j: int|
        s <= j < insns.len() ==> #[trigger] counted(insns, ranges, lb, le, j))
    ||| exists|t: int| #[trigger] run_stops_at(insns, ranges, lb, le, e, s, t)
}

/// The program counter at position `t`, behind `s`, is `e` and does not
/// count.
pub open spec fn run_stops_at(
    insns: Seq<u64>,
    ranges: Seq<(u64, u64)>,
    lb: u64,
    le: u64,
    e: u64,
    s: int,
    t: int,
) -> bool {
    s < t < insns.len() && insns[t] == e && !counted(insns, ranges, lb, le, t)
}

/// `(b, e)` is the range of a run of the entry `[lb, le)`.
pub open spec fn is_run(
    insns: Seq<u64>,
    ranges: Seq<(u64, u64)>,
    lb: u64,
    le: u64,
    tail: u64,
    b: u64,
    e: u64,
) -> bool {
    exists|s: int| #[trigger] run_begins_at(insns, ranges, lb, le, tail, b, e, s)
}

/// Every range that the scan yields from position `i` on is the range of a
/// run.
proof fn runs_from_are_runs(
    insns: Seq<u64>,
    ranges: Seq<(u64, u64)>,
    lb: u64,
    le: u64,
    tail: u64,
    i: int,
    start: int,
    k: int,
)
    requires
        increasing(insns),
        0 <= i <= insns.len(),
        start >= 0 ==> start < i && (forall|j: int|
            start <= j < i ==> #[trigger] counted(insns, ranges, lb, le, j)) && (start == 0
            || !counted(insns, ranges, lb, le, start - 1)),
        start < 0 ==> i == 0 || !counted(insns, ranges, lb, le, i - 1),
        0 <= k < runs_from(insns, ranges, lb, le, tail, i, start).len(),
    ensures
        is_run(
            insns,
            ranges,
            lb,
            le,
            tail,
            runs_from(insns, ranges, lb, le, tail, i, start)[k].0,
            runs_from(insns, ranges, lb, le, tail, i, start)[k].1,
        ),
    decreases insns.len() - i,
{
    let all = runs_from(insns, ranges, lb, le, tail, i, start);
    if i >= insns.len() {
        let b = insns[start];
        assert(all[k] == (b, tail));
        assert forall|j: int| 0 <= j < insns.len() && b <= #[trigger] insns[j] < tail implies counted(
            insns,
            ranges,
            lb,
            le,
            j,
        ) by {
            if j < start {
                assert(insns[j] < insns[start]);
            }
        }
        assert(run_begins_at(insns, ranges, lb, le, tail, b, tail, start));
    } else if counted(insns, ranges, lb, le, i) {
        let next = if start >= 0 {
            start
        } else {
            i
        };
        runs_from_are_runs(insns, ranges, lb, le, tail, i + 1, next, k);
    } else {
        let rest = runs_from(insns, ranges, lb, le, tail, i + 1, -1);
        if start >= 0 {
            if k == 0 {
                let b = insns[start];
                let e = insns[i];
                assert(all[0] == (b, e));
                assert forall|j: int|
                    0 <= j < insns.len() && b <= #[trigger] insns[j] < e implies counted(
                    insns,
                    ranges,
                    lb,
                    le,
                    j,
                ) by {
                    if j < start {
                        assert(insns[j] < insns[start]);
                    }
                    if j > i {
                        assert(insns[i] < insns[j]);
                    }
                }
                assert(run_stops_at(insns, ranges, lb, le, e, start, i));
                assert(run_begins_at(insns, ranges, lb, le, tail, b, e, start));
            } else {
                assert(all[k] == rest[k - 1]);
                runs_from_are_runs(insns, ranges, lb, le, tail, i + 1, -1, k - 1);
            }
        } else {
            assert(all =~= rest);
            runs_from_are_runs(insns, ranges, lb, le, tail, i + 1, -1, k);
        }
    }
}

/// A run begins at a program counter of its entry.
proof fn run_begins_inside(
    insns: Seq<u64>,
    ranges: Seq<(u64, u64)>,
    lb: u64,
    le: u64,
    tail: u64,
    b: u64,
    e: u64,
)
    requires
        is_run(insns, ranges, lb, le, tail, b, e),
    ensures
        lb <= b < le,
{
    let s = choose|s: int| #[trigger] run_begins_at(insns, ranges, lb, le, tail, b, e, s);
}

/// Of two runs that begin at different program counters, the one that
/// begins first ends before the other begins, provided that their entries
/// do not overlap or are the same.
proof fn earlier_run_ends_first(
    insns: Seq<u64>,
    ranges: Seq<(u64, u64)>,
    tail: u64,
    lb1: u64,
    le1: u64,
    b1: u64,
    e1: u64,
    lb2: u64,
    le2: u64,
    b2: u64,
    e2: u64,
)
    requires
        increasing(insns),
        is_run(insns, ranges, lb1, le1, tail, b1, e1),
        is_run(insns, ranges, lb2, le2, tail, b2, e2),
        (le1 <= lb2 || le2 <= lb1) || (lb1 == lb2 && le1 == le2),
        b1 < b2,
    ensures
        e1 <= b2,
{
    let s1 = choose|s: int| #[trigger] run_begins_at(insns, ranges, lb1, le1, tail, b1, e1, s);
    let s2 = choose|s: int| #[trigger] run_begins_at(insns, ranges, lb2, le2, tail, b2, e2, s);
    if b2 < e1 {
        // the begin of the second run lies in the first run, so it counts for
        // the entry of the first
        assert(insns[s2] == b2);
        assert(counted(insns, ranges, lb1, le1, s2));
        if lb1 == lb2 && le1 == le2 {
            // and so does its neighbour before it, which the second run rules out
            if s2 <= s1 {
                if s2 < s1 {
                    assert(insns[s2] < insns[s1]);
                }
            }
            if s1 < s2 - 1 {
                assert(insns[s1] < insns[s2 - 1]);
            }
            assert(insns[s2 - 1] < insns[s2]);
            assert(b1 <= insns[s2 - 1] < e1);
            assert(counted(insns, ranges, lb1, le1, s2 - 1));
        }
    }
}

/// Two runs of entries that do not overlap lie apart, and so do two runs of
/// the same entry that begin at different program counters.
proof fn runs_lie_apart(
    insns: Seq<u64>,
    ranges: Seq<(u64, u64)>,
    tail: u64,
    lb1: u64,
    le1: u64,
    b1: u64,
    e1: u64,
    lb2: u64,
    le2: u64,
    b2: u64,
    e2: u64,
)
    requires
        increasing(insns),
        is_run(insns, ranges, lb1, le1, tail, b1, e1),
        is_run(insns, ranges, lb2, le2, tail, b2, e2),
        (le1 <= lb2 || le2 <= lb1) || (lb1 == lb2 && le1 == le2 && b1 != b2),
    ensures
        e1 <= b2 || e2 <= b1,
{
    run_begins_inside(insns, ranges, lb1, le1, tail, b1, e1);
    run_begins_inside(insns, ranges, lb2, le2, tail, b2, e2);
    if b1 < b2 {
        earlier_run_ends_first(insns, ranges, tail, lb1, le1, b1, e1, lb2, le2, b2, e2);
    } else if b2 < b1 {
        earlier_run_ends_first(insns, ranges, tail, lb2, le2, b2, e2, lb1, le1, b1, e1);
    }
}

/// Two runs of one entry that begin at the same program counter end at the
/// same one.
proof fn run_end_is_fixed(
    insns: Seq<u64>,
    ranges: Seq<(u64, u64)>,
    lb: u64,
    le: u64,
    tail: u64,
    b: u64,
    e1: u64,
    e2: u64,
)
    requires
        increasing(insns),
        is_run(insns, ranges, lb, le, tail, b, e1),
        is_run(insns, ranges, lb, le, tail, b, e2),
    ensures
        e1 == e2,
{
    let s1 = choose|s: int| #[trigger] run_begins_at(insns, ranges, lb, le, tail, b, e1, s);
    let s2 = choose|s: int| #[trigger] run_begins_at(insns, ranges, lb, le, tail, b, e2, s);
    if s1 < s2 {
        assert(insns[s1] < insns[s2]);
    }
    if s2 < s1 {
        assert(insns[s2] < insns[s1]);
    }
    assert(s1 == s2);
    let stops1 = exists|t: int| #[trigger] run_stops_at(insns, ranges, lb, le, e1, s1, t);
    let stops2 = exists|t: int| #[trigger] run_stops_at(insns, ranges, lb, le, e2, s2, t);
    if stops1 {
        let t1 = choose|t: int| #[trigger] run_stops_at(insns, ranges, lb, le, e1, s1, t);
        assert(insns[s1] < insns[t1]);
        if stops2 {
            let t2 = choose|t: int| #[trigger] run_stops_at(insns, ranges, lb, le, e2, s2, t);
            assert(insns[s2] < insns[t2]);
            if t1 < t2 {
                assert(insns[t1] < insns[t2]);
                assert(b <= insns[t1] < e2);
            }
            if t2 < t1 {
                assert(insns[t2] < insns[t1]);
                assert(b <= insns[t2] < e1);
            }
        } else {
            assert(counted(insns, ranges, lb, le, t1));
        }
    } else if stops2 {
        let t2 = choose|t: int| #[trigger] run_stops_at(insns, ranges, lb, le, e2, s2, t);
        assert(counted(insns, ranges, lb, le, t2));
    }
}

/// The interval `y` stems from one of the first `n` entries of a location
/// list: it is the range of a run of that entry.
pub open spec fn stems_from(
    insns: Seq<u64>,
    ranges: Seq<(u64, u64)>,
    tail: u64,
    encoding: Encoding,
    entries: Seq<LocationEntry>,
    n: int,
    y: Interval,
) -> bool {
    exists|m: int|
        0 <= m < n && y.is_const == is_const((#[trigger] entries[m]).expr@, encoding) && is_run(
            insns,
            ranges,
            entries[m].begin,
            entries[m].end,
            tail,
            y.begin,
            y.end,
        )
}

/// The intervals of a location list are in strictly ascending order, and
/// each stems from an entry of the list.
proof fn list_tally_facts(
    insns: Seq<u64>,
    ranges: Seq<(u64, u64)>,
    tail: Option<u64>,
    encoding: Encoding,
    entries: Seq<LocationEntry>,
    n: int,
    total: int,
)
    requires
        0 <= n <= entries.len(),
        list_tally(insns, ranges, tail, encoding, entries, n, total).is_ok(),
    ensures
        ascending(list_tally(insns, ranges, tail, encoding, entries, n, total).unwrap().0),
        increasing(insns) ==> forall|y: Interval|
            #[trigger] list_tally(insns, ranges, tail, encoding, entries, n, total).unwrap().0.contains(
                y,
            ) ==> stems_from(insns, ranges, tail_or_zero(tail), encoding, entries, n, y),
    decreases n,
{
    if n > 0 {
        let prev = list_tally(insns, ranges, tail, encoding, entries, n - 1, total);
        list_tally_facts(insns, ranges, tail, encoding, entries, n - 1, total);
        let (set, t) = prev.unwrap();
        let lb = entries[n - 1].begin;
        let le = entries[n - 1].end;
        let constant = is_const(entries[n - 1].expr@, encoding);
        let items = runs(insns, ranges, lb, le, tail_or_zero(tail));
        let out = insert_all(set, items, constant);
        insert_all_facts(set, items, constant);
        assert(list_tally(insns, ranges, tail, encoding, entries, n, total).unwrap().0 == out);
        assert forall|y: Interval| increasing(insns) && #[trigger] out.contains(y) implies stems_from(
            insns,
            ranges,
            tail_or_zero(tail),
            encoding,
            entries,
            n,
            y,
        ) by {
            if set.contains(y) {
                let m = choose|m: int|
                    0 <= m < n - 1 && y.is_const == is_const(
                        (#[trigger] entries[m]).expr@,
                        encoding,
                    ) && is_run(
                        insns,
                        ranges,
                        entries[m].begin,
                        entries[m].end,
                        tail_or_zero(tail),
                        y.begin,
                        y.end,
                    );
                assert(is_run(
                    insns,
                    ranges,
                    entries[m].begin,
                    entries[m].end,
                    tail_or_zero(tail),
                    y.begin,
                    y.end,
                ));
            } else {
                let k = choose|k: int| 0 <= k < items.len() && items[k] == (y.begin, y.end);
                runs_from_are_runs(insns, ranges, lb, le, tail_or_zero(tail), 0, -1, k);
                assert(is_run(
                    insns,
                    ranges,
                    entries[n - 1].begin,
                    entries[n - 1].end,
                    tail_or_zero(tail),
                    y.begin,
                    y.end,
                ));
            }
        }
    }
}

/// The entries of a location list cover ranges that do not overlap.
pub open spec fn entries_apart(entries: Seq<LocationEntry>) -> bool {
    forall|i: int, j: int|
        0 <= i < j < entries.len() ==> (#[trigger] entries[i]).end <= (#[trigger] entries[j]).begin
            || entries[j].end <= entries[i].begin
}

/// The ranges of a scope do not overlap.
pub open spec fn ranges_apart(ranges: Seq<(u64, u64)>) -> bool {
    forall|i: int, j: int|
        0 <= i < j < ranges.len() ==> (#[trigger] ranges[i]).1 <= (#[trigger] ranges[j]).0
            || ranges[j].1 <= ranges[i].0
}

/// The intervals of a variable with a single location are in strictly
/// ascending order, and each is a range of the scope.
proof fn scope_tally_facts(
    insns: Seq<u64>,
    ranges: Seq<(u64, u64)>,
    constant: bool,
    n: int,
    total: int,
)
    requires
        0 <= n <= ranges.len(),
        scope_tally(insns, ranges, constant, n, total).is_ok(),
    ensures
        ascending(scope_tally(insns, ranges, constant, n, total).unwrap().0),
        forall|y: Interval|
            #[trigger] scope_tally(insns, ranges, constant, n, total).unwrap().0.contains(y)
                ==> exists|m: int| 0 <= m < n && #[trigger] ranges[m] == (y.begin, y.end),
    decreases n,
{
    if n > 0 {
        scope_tally_facts(insns, ranges, constant, n - 1, total);
        let set = scope_tally(insns, ranges, constant, n - 1, total).unwrap().0;
        let x = Interval { begin: ranges[n - 1].0, end: ranges[n - 1].1, is_const: constant };
        let out = set_insert(set, x);
        set_insert_facts(set, x);
        assert(scope_tally(insns, ranges, constant, n, total).unwrap().0 == out);
        assert forall|y: Interval| #[trigger] out.contains(y) implies exists|m: int|
            0 <= m < n && #[trigger] ranges[m] == (y.begin, y.end) by {
            if set.contains(y) {
                let m = choose|m: int| 0 <= m < n - 1 && #[trigger] ranges[m] == (y.begin, y.end);
                assert(ranges[m] == (y.begin, y.end));
            } else {
                assert(ranges[n - 1] == (y.begin, y.end));
            }
        }
    }
}

/// The intervals that a scope yields for a variable with a single location
/// are sorted by begin; they do not overlap when the ranges of the scope do
/// not.
pub proof fn scope_intervals_sorted_and_apart(
    insns: Seq<u64>,
    ranges: Seq<(u64, u64)>,
    constant: bool,
    total: int,
)
    requires
        scope_tally(insns, ranges, constant, ranges.len() as int, total).is_ok(),
    ensures
        ascending(scope_tally(insns, ranges, constant, ranges.len() as int, total).unwrap().0),
        sorted_by_begin(scope_tally(insns, ranges, constant, ranges.len() as int, total).unwrap().0),
        ranges_apart(ranges) ==> pairwise_apart(
            scope_tally(insns, ranges, constant, ranges.len() as int, total).unwrap().0,
        ),
{
    let n = ranges.len() as int;
    let set = scope_tally(insns, ranges, constant, n, total).unwrap().0;
    scope_tally_facts(insns, ranges, constant, n, total);
    if ranges_apart(ranges) {
        assert forall|i: int, j: int| 0 <= i < j < set.len() implies (#[trigger] set[i]).apart_from(
            #[trigger] set[j],
        ) by {
            let x = set[i];
            let y = set[j];
            assert(set.contains(x));
            assert(set.contains(y));
            assert(interval_lt(set[i], set[j]));
            let m1 = choose|m: int| 0 <= m < n && #[trigger] ranges[m] == (x.begin, x.end);
            let m2 = choose|m: int| 0 <= m < n && #[trigger] ranges[m] == (y.begin, y.end);
            if m1 < m2 {
                assert(ranges[m1].1 <= ranges[m2].0 || ranges[m2].1 <= ranges[m1].0);
            } else if m2 < m1 {
                assert(ranges[m2].1 <= ranges[m1].0 || ranges[m1].1 <= ranges[m2].0);
            } else {
                // The same range twice can only differ in the constant flag,
                // which is the same for all intervals of one variable.
                scope_tally_flags(insns, ranges, constant, n, total, x);
                scope_tally_flags(insns, ranges, constant, n, total, y);
            }
        }
    }
}

/// All intervals of a variable with a single location carry the same
/// constant flag.
proof fn scope_tally_flags(
    insns: Seq<u64>,
    ranges: Seq<(u64, u64)>,
    constant: bool,
    n: int,
    total: int,
    y: Interval,
)
    requires
        0 <= n <= ranges.len(),
        scope_tally(insns, ranges, constant, n, total).is_ok(),
        scope_tally(insns, ranges, constant, n, total).unwrap().0.contains(y),
    ensures
        y.is_const == constant,
    decreases n,
{
    if n > 0 {
        let set = scope_tally(insns, ranges, constant, n - 1, total).unwrap().0;
        let x = Interval { begin: ranges[n - 1].0, end: ranges[n - 1].1, is_const: constant };
        scope_tally_facts(insns, ranges, constant, n - 1, total);
        set_insert_facts(set, x);
        assert(scope_tally(insns, ranges, constant, n, total).unwrap().0 == set_insert(set, x));
        if set.contains(y) {
            scope_tally_flags(insns, ranges, constant, n - 1, total, y);
        }
    } else {
        let none = Seq::<Interval>::empty();
        assert(scope_tally(insns, ranges, constant, n, total).unwrap().0 == none);
        let k = choose|k: int| 0 <= k < none.len() && none[k] == y;
    }
}

/// Every location list of the unit has entries that do not overlap, and
/// every range list has ranges that do not overlap.
pub open spec fn unit_apart(dies: Seq<DieRecord>) -> bool {
    forall|i: int|
        0 <= i < dies.len() ==> {
            &&& (#[trigger] dies[i]).location matches LocationAttr::List(entries) ==> entries_apart(
                entries@,
            )
            &&& dies[i].ranges matches Some(list) ==> ranges_apart(list@)
        }
}

/// What one entry contributes is sorted, and free of overlaps when the unit
/// is.
proof fn die_tally_facts(
    dies: Seq<DieRecord>,
    insns: Seq<u64>,
    tail: Option<u64>,
    encoding: Encoding,
    scope: Scope,
    index: int,
    total: int,
)
    requires
        0 <= index < dies.len(),
        die_tally(dies, insns, tail, encoding, scope, index, total) matches Ok((Some(_), _)),
    ensures
        ascending(die_tally(dies, insns, tail, encoding, scope, index, total).unwrap().0.unwrap()),
        increasing(insns) && unit_apart(dies) ==> pairwise_apart(
            die_tally(dies, insns, tail, encoding, scope, index, total).unwrap().0.unwrap(),
        ),
{
    let die = dies[index];
    let ranges = scope_ranges(dies, scope);
    if unit_apart(dies) {
        match scope {
            Scope::ListOf { die } => {
                if 0 <= die < dies.len() && dies[die as int].ranges.is_some() {
                    assert(dies[die as int].ranges matches Some(list) ==> ranges_apart(list@));
                }
            },
            _ => {},
        }
        assert(ranges_apart(ranges));
    }
    match die.location {
        LocationAttr::List(entries) => {
            list_intervals_sorted_and_apart(insns, ranges, tail, encoding, entries@, total);
        },
        LocationAttr::Expr(bytes) => {
            scope_intervals_sorted_and_apart(insns, ranges, is_const(bytes@, encoding), total);
        },
        _ => {
            scope_intervals_sorted_and_apart(insns, ranges, true, total);
        },
    }
}

/// Every variable of the map after `n` steps of a walk has sorted
/// intervals, free of overlaps when the unit is.
proof fn walk_state_facts(
    dies: Seq<DieRecord>,
    insns: Seq<u64>,
    tail: Option<u64>,
    encoding: Encoding,
    start: int,
    n: int,
    name: Seq<u8>,
)
    requires
        0 <= start,
        start + n <= dies.len(),
        walk_state(dies, insns, tail, encoding, start, n).is_ok(),
        walk_state(dies, insns, tail, encoding, start, n).unwrap().2.dom().contains(name),
    ensures
        ascending(walk_state(dies, insns, tail, encoding, start, n).unwrap().2[name]),
        increasing(insns) && unit_apart(dies) ==> pairwise_apart(
            walk_state(dies, insns, tail, encoding, start, n).unwrap().2[name],
        ),
    decreases n,
{
    if n > 0 {
        let (scope, total, map) = walk_state(dies, insns, tail, encoding, start, n - 1).unwrap();
        let index = start + n - 1;
        let (found, t) = die_tally(dies, insns, tail, encoding, scope, index, total).unwrap();
        if found.is_some() && dies[index].name.is_some() && dies[index].name.unwrap()@ == name {
            die_tally_facts(dies, insns, tail, encoding, scope, index, total);
        } else {
            walk_state_facts(dies, insns, tail, encoding, start, n - 1, name);
        }
    }
}

/// In every measurement the intervals of each variable are in strictly
/// ascending order, hence sorted by begin. They are pairwise disjoint
/// whenever the program counters are given in ascending order and no
/// location list and no range list of the unit overlaps itself.
pub proof fn measured_sorted_and_apart(
    dies: Seq<DieRecord>,
    insns: Seq<u64>,
    tail: Option<u64>,
    encoding: Encoding,
    start: int,
    name: Seq<u8>,
)
    requires
        0 <= start < dies.len(),
        measured(dies, insns, tail, encoding, start).is_ok(),
        measured(dies, insns, tail, encoding, start).unwrap().1.dom().contains(name),
    ensures
        ascending(measured(dies, insns, tail, encoding, start).unwrap().1[name]),
        sorted_by_begin(measured(dies, insns, tail, encoding, start).unwrap().1[name]),
        increasing(insns) && unit_apart(dies) ==> pairwise_apart(
            measured(dies, insns, tail, encoding, start).unwrap().1[name],
        ),
{
    walk_end_bounds(dies, start + 1, 0);
    walk_state_facts(dies, insns, tail, encoding, start, walk_end(dies, start) - start, name);
}

/// The intervals that a location list yields for a variable are sorted by
/// begin; they do not overlap when the program counters are given in
/// ascending order and the entries of the list do not overlap.
pub proof fn list_intervals_sorted_and_apart(
    insns: Seq<u64>,
    ranges: Seq<(u64, u64)>,
    tail: Option<u64>,
    encoding: Encoding,
    entries: Seq<LocationEntry>,
    total: int,
)
    requires
        list_tally(insns, ranges, tail, encoding, entries, entries.len() as int, total).is_ok(),
    ensures
        ascending(
            list_tally(insns, ranges, tail, encoding, entries, entries.len() as int, total).unwrap().0,
        ),
        sorted_by_begin(
            list_tally(insns, ranges, tail, encoding, entries, entries.len() as int, total).unwrap().0,
        ),
        increasing(insns) && entries_apart(entries) ==> pairwise_apart(
            list_tally(insns, ranges, tail, encoding, entries, entries.len() as int, total).unwrap().0,
        ),
{
    let n = entries.len() as int;
    let set = list_tally(insns, ranges, tail, encoding, entries, n, total).unwrap().0;
    let t = tail_or_zero(tail);
    list_tally_facts(insns, ranges, tail, encoding, entries, n, total);
    if increasing(insns) && entries_apart(entries) {
        assert forall|i: int, j: int| 0 <= i < j < set.len() implies (#[trigger] set[i]).apart_from(
            #[trigger] set[j],
        ) by {
            let x = set[i];
            let y = set[j];
            assert(set.contains(x));
            assert(set.contains(y));
            let m1 = choose|m: int|
                0 <= m < n && x.is_const == is_const((#[trigger] entries[m]).expr@, encoding)
                    && is_run(insns, ranges, entries[m].begin, entries[m].end, t, x.begin, x.end);
            let m2 = choose|m: int|
                0 <= m < n && y.is_const == is_const((#[trigger] entries[m]).expr@, encoding)
                    && is_run(insns, ranges, entries[m].begin, entries[m].end, t, y.begin, y.end);
            run_begins_inside(insns, ranges, entries[m1].begin, entries[m1].end, t, x.begin, x.end);
            run_begins_inside(insns, ranges, entries[m2].begin, entries[m2].end, t, y.begin, y.end);
            if m1 == m2 {
                if x.begin == y.begin {
                    run_end_is_fixed(
                        insns,
                        ranges,
                        entries[m1].begin,
                        entries[m1].end,
                        t,
                        x.begin,
                        x.end,
                        y.end,
                    );
                    // The same run of the same entry: one interval, which
                    // cannot stand at two places of an ascending sequence.
                    assert(x == y);
                    assert(interval_lt(set[i], set[j]));
                } else {
                    runs_lie_apart(
                        insns,
                        ranges,
                        t,
                        entries[m1].begin,
                        entries[m1].end,
                        x.begin,
                        x.end,
                        entries[m2].begin,
                        entries[m2].end,
                        y.begin,
                        y.end,
                    );
                }
            } else {
                if m1 < m2 {
                    assert(entries[m1].end <= entries[m2].begin || entries[m2].end
                        <= entries[m1].begin);
                } else {
                    assert(entries[m2].end <= entries[m1].begin || entries[m1].end
                        <= entries[m2].begin);
                }
                runs_lie_apart(
                    insns,
                    ranges,
                    t,
                    entries[m1].begin,
                    entries[m1].end,
                    x.begin,
                    x.end,
                    entries[m2].begin,
                    entries[m2].end,
                    y.begin,
                    y.end,
                );
            }
        }
    }
}

} // verus!
