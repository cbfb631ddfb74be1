//! Ordered sets of program counters and of location intervals, kept as
//! strictly ascending vectors.

use vstd::prelude::*;

verus! {

/// A range `[begin, end)` of program counters over which a variable has a
/// location, and whether that location is only a constant.
#[derive(Clone, Copy, Debug, PartialEq, Eq, Structural)]
pub struct Interval {
    pub begin: u64,
    pub end: u64,
    pub is_const: bool,
}

impl Interval {
    /// Whether the interval holds at `pc`.
    pub open spec fn covers(self, pc: u64) -> bool {
        self.begin <= pc < self.end
    }

    /// Whether the two intervals have no program counter in common.
    pub open spec fn apart_from(self, other: Interval) -> bool {
        self.end <= other.begin || other.end <= self.begin
    }
}

/// The order of intervals: by begin, then by end, then constant-only last.
pub open spec fn interval_lt(a: Interval, b: Interval) -> bool {
    a.begin < b.begin || (a.begin == b.begin && (a.end < b.end || (a.end == b.end && !a.is_const
        && b.is_const)))
}

/// Executable form of [`interval_lt`].
pub fn interval_before(a: &Interval, b: &Interval) -> (r: bool)
    ensures
        r == interval_lt(*a, *b),
{
    a.begin < b.begin || (a.begin == b.begin && (a.end < b.end || (a.end == b.end && !a.is_const
        && b.is_const)))
}

/// The intervals stand in strictly ascending order, so none occurs twice.
pub open spec fn ascending(s: Seq<Interval>) -> bool {
    forall|i: int, j: int| 0 <= i < j < s.len() ==> interval_lt(#[trigger] s[i], #[trigger] s[j])
}

/// The intervals begin in ascending order.
pub open spec fn sorted_by_begin(s: Seq<Interval>) -> bool {
    forall|i: int, j: int| 0 <= i < j < s.len() ==> (#[trigger] s[i]).begin <= (#[trigger] s[j]).begin
}

/// No two different positions hold intervals with a program counter in
/// common.
pub open spec fn pairwise_apart(s: Seq<Interval>) -> bool {
    forall|i: int, j: int| 0 <= i < j < s.len() ==> (#[trigger] s[i]).apart_from(#[trigger] s[j])
}

/// Intervals in strictly ascending order begin in ascending order.
pub proof fn ascending_is_sorted_by_begin(s: Seq<Interval>)
    requires
        ascending(s),
    ensures
        sorted_by_begin(s),
{
}

/// The ordered set `s` with `x` added: `s` itself if it holds `x`, else `s`
/// with `x` at its place in the order.
pub open spec fn set_insert(s: Seq<Interval>, x: Interval) -> Seq<Interval>
    decreases s.len(),
{
    if s.len() == 0 {
        seq![x]
    } else if s.last() == x {
        s
    } else if interval_lt(s.last(), x) {
        s.push(x)
    } else {
        set_insert(s.drop_last(), x).push(s.last())
    }
}

/// Adding to an ordered set keeps it ordered, keeps what it held, and adds
/// nothing but the new interval.
pub proof fn set_insert_facts(s: Seq<Interval>, x: Interval)
    requires
        ascending(s),
    ensures
        ascending(set_insert(s, x)),
        forall|y: Interval| #[trigger] set_insert(s, x).contains(y) <==> s.contains(y) || y == x,
    decreases s.len(),
{
    let out = set_insert(s, x);
    if s.len() == 0 {
        assert(out[0] == x);
        assert forall|y: Interval| out.contains(y) <==> s.contains(y) || y == x by {
            if out.contains(y) {
                let k = choose|k: int| 0 <= k < out.len() && out[k] == y;
            }
        }
    } else if s.last() == x {
        assert(s[s.len() - 1] == x);
    } else if interval_lt(s.last(), x) {
        assert forall|i: int, j: int| 0 <= i < j < out.len() implies interval_lt(
            #[trigger] out[i],
            #[trigger] out[j],
        ) by {
            if j == s.len() {
                if i < s.len() - 1 {
                    assert(interval_lt(s[i], s[s.len() - 1]));
                }
            }
        }
        assert forall|y: Interval| out.contains(y) <==> s.contains(y) || y == x by {
            if out.contains(y) {
                let k = choose|k: int| 0 <= k < out.len() && out[k] == y;
                if k < s.len() {
                    assert(s[k] == y);
                }
            }
            if s.contains(y) {
                let k = choose|k: int| 0 <= k < s.len() && s[k] == y;
                assert(out[k] == y);
            }
            if y == x {
                assert(out[s.len() as int] == x);
            }
        }
    } else {
        let init = s.drop_last();
        let mid = set_insert(init, x);
        set_insert_facts(init, x);
        assert forall|i: int, j: int| 0 <= i < j < out.len() implies interval_lt(
            #[trigger] out[i],
            #[trigger] out[j],
        ) by {
            if j == mid.len() {
                assert(mid.contains(mid[i]));
                if init.contains(mid[i]) {
                    let k = choose|k: int| 0 <= k < init.len() && init[k] == mid[i];
                    assert(interval_lt(s[k], s[s.len() - 1]));
                }
            }
        }
        assert forall|y: Interval| out.contains(y) <==> s.contains(y) || y == x by {
            if out.contains(y) {
                let k = choose|k: int| 0 <= k < out.len() && out[k] == y;
                if k < mid.len() {
                    assert(mid.contains(y));
                    if init.contains(y) {
                        let m = choose|m: int| 0 <= m < init.len() && init[m] == y;
                        assert(s[m] == y);
                    }
                } else {
                    assert(s[s.len() - 1] == y);
                }
            }
            if s.contains(y) {
                let k = choose|k: int| 0 <= k < s.len() && s[k] == y;
                if k < init.len() {
                    assert(init[k] == y);
                    assert(init.contains(y));
                    assert(mid.contains(y));
                    let m = choose|m: int| 0 <= m < mid.len() && mid[m] == y;
                    assert(out[m] == y);
                } else {
                    assert(out[mid.len() as int] == y);
                }
            }
            if y == x {
                assert(mid.contains(x));
                let m = choose|m: int| 0 <= m < mid.len() && mid[m] == x;
                assert(out[m] == x);
            }
        }
    }
}

/// Where the first interval that is not below `x` stands decides the result
/// of adding `x`.
proof fn set_insert_at(s: Seq<Interval>, x: Interval, pos: int)
    requires
        ascending(s),
        0 <= pos <= s.len(),
        forall|k: int| 0 <= k < pos ==> interval_lt(#[trigger] s[k], x),
        pos < s.len() ==> !interval_lt(s[pos], x),
    ensures
        pos < s.len() && s[pos] == x ==> set_insert(s, x) == s,
        !(pos < s.len() && s[pos] == x) ==> set_insert(s, x) == s.insert(pos, x),
    decreases s.len(),
{
    if s.len() == 0 {
        assert(s.insert(0, x) =~= seq![x]);
    } else if pos == s.len() {
        assert(interval_lt(s[s.len() - 1], x));
        assert(s.insert(pos, x) =~= s.push(x));
    } else {
        let init = s.drop_last();
        if pos == s.len() - 1 {
            if s[pos] != x {
                // everything below pos is below x, so x goes right before the last
                set_insert_at(init, x, pos);
                assert(init.insert(pos, x) =~= init.push(x));
                assert(s.insert(pos, x) =~= init.push(x).push(s.last()));
                if init.len() > 0 {
                    assert(interval_lt(init[init.len() - 1], x));
                }
            }
        } else {
            // s[pos] is not below x and stands before the last, so the last is above x
            assert(interval_lt(s[pos], s[s.len() - 1]));
            set_insert_at(init, x, pos);
            if s[pos] == x {
                assert(init.push(s.last()) =~= s);
            } else {
                assert(s.insert(pos, x) =~= init.insert(pos, x).push(s.last()));
            }
        }
    }
}

/// Adds `x` to the ordered set `set`.
pub fn insert_interval(set: &mut Vec<Interval>, x: Interval)
    requires
        ascending(old(set)@),
    ensures
        final(set)@ == set_insert(old(set)@, x),
        ascending(final(set)@),
{
    let mut pos: usize = 0;
    while pos < set.len()
        invariant
            pos <= set.len(),
            *set == *old(set),
            forall|k: int| 0 <= k < pos ==> interval_lt(#[trigger] set@[k], x),
        ensures
            pos < set.len() ==> !interval_lt(set@[pos as int], x),
        decreases set.len() - pos,
    {
        if !interval_before(&set[pos], &x) {
            break;
        }
        pos += 1;
    }
    proof {
        set_insert_at(set@, x, pos as int);
        set_insert_facts(set@, x);
    }
    if pos < set.len() && set[pos] == x {
        return;
    }
    set.insert(pos, x);
}

/// The ordered set `s` with all of `items` added, the constant flag of each
/// being `is_const`.
pub open spec fn insert_all(s: Seq<Interval>, items: Seq<(u64, u64)>, is_const: bool) -> Seq<
    Interval,
>
    decreases items.len(),
{
    if items.len() == 0 {
        s
    } else {
        insert_all(
            set_insert(s, Interval { begin: items[0].0, end: items[0].1, is_const }),
            items.skip(1),
            is_const,
        )
    }
}

/// Adding all of `items` keeps an ordered set ordered, and the result holds
/// what the set held and the items, nothing else.
pub proof fn insert_all_facts(s: Seq<Interval>, items: Seq<(u64, u64)>, is_const: bool)
    requires
        ascending(s),
    ensures
        ascending(insert_all(s, items, is_const)),
        forall|y: Interval|
            #[trigger] insert_all(s, items, is_const).contains(y) <==> s.contains(y) || (y.is_const
                == is_const && items.contains((y.begin, y.end))),
    decreases items.len(),
{
    let out = insert_all(s, items, is_const);
    if items.len() == 0 {
        assert forall|y: Interval|
            out.contains(y) <==> s.contains(y) || (y.is_const == is_const && items.contains(
                (y.begin, y.end),
            )) by {
            if items.contains((y.begin, y.end)) {
                let k = choose|k: int| 0 <= k < items.len() && items[k] == (y.begin, y.end);
            }
        }
    } else {
        let first = Interval { begin: items[0].0, end: items[0].1, is_const };
        let next = set_insert(s, first);
        set_insert_facts(s, first);
        insert_all_facts(next, items.skip(1), is_const);
        assert forall|y: Interval|
            out.contains(y) <==> s.contains(y) || (y.is_const == is_const && items.contains(
                (y.begin, y.end),
            )) by {
            let rest = items.skip(1);
            assert(out == insert_all(next, rest, is_const));
            assert(out.contains(y) <==> next.contains(y) || (y.is_const == is_const
                && rest.contains((y.begin, y.end))));
            assert(next.contains(y) <==> s.contains(y) || y == first);
            if y.is_const == is_const && rest.contains((y.begin, y.end)) {
                let k = choose|k: int| 0 <= k < rest.len() && rest[k] == (y.begin, y.end);
                assert(items[k + 1] == (y.begin, y.end));
            }
            if y.is_const == is_const && items.contains((y.begin, y.end)) {
                let k = choose|k: int| 0 <= k < items.len() && items[k] == (y.begin, y.end);
                if k == 0 {
                    assert(y == first);
                } else {
                    assert(rest[k - 1] == (y.begin, y.end));
                }
            }
            if y == first {
                assert(items[0] == (y.begin, y.end));
            }
        }
    }
}

/// The program counters stand in strictly ascending order.
pub open spec fn increasing(s: Seq<u64>) -> bool {
    forall|i: int, j: int| 0 <= i < j < s.len() ==> s[i] < s[j]
}

/// Adds `pc` to the ordered set `set` of program counters: afterwards the
/// set is ordered and holds what it held, and `pc`.
pub fn insert_pc(set: &mut Vec<u64>, pc: u64)
    requires
        increasing(old(set)@),
    ensures
        increasing(final(set)@),
        forall|y: u64| final(set)@.contains(y) <==> old(set)@.contains(y) || y == pc,
{
    let mut pos: usize = 0;
    while pos < set.len()
        invariant
            pos <= set.len(),
            *set == *old(set),
            forall|k: int| 0 <= k < pos ==> set@[k] < pc,
        ensures
            pos < set.len() ==> set@[pos as int] >= pc,
        decreases set.len() - pos,
    {
        if set[pos] >= pc {
            break;
        }
        pos += 1;
    }
    if pos < set.len() && set[pos] == pc {
        assert forall|y: u64| set@.contains(y) <==> old(set)@.contains(y) || y == pc by {
            if y == pc {
                assert(set@[pos as int] == pc);
            }
        }
        return;
    }
    set.insert(pos, pc);
    proof {
        let before = old(set)@;
        let after = set@;
        assert forall|y: u64| after.contains(y) <==> before.contains(y) || y == pc by {
            if after.contains(y) {
                let k = choose|k: int| 0 <= k < after.len() && after[k] == y;
                if k < pos {
                    assert(before[k] == y);
                } else if k > pos {
                    assert(before[k - 1] == y);
                }
            }
            if before.contains(y) {
                let k = choose|k: int| 0 <= k < before.len() && before[k] == y;
                if k < pos {
                    assert(after[k] == y);
                } else {
                    assert(after[k + 1] == y);
                }
            }
            if y == pc {
                assert(after[pos as int] == y);
            }
        }
        assert forall|i: int, j: int| 0 <= i < j < after.len() implies after[i] < after[j] by {
            if i < pos && j > pos {
                assert(before[i] < pc);
                assert(after[j] == before[j - 1]);
            } else if i == pos {
                assert(after[j] == before[j - 1]);
                assert(before[pos as int] <= before[j - 1]) by {
                    if pos < j - 1 {
                    }
                }
            } else if i > pos {
                assert(after[i] == before[i - 1] && after[j] == before[j - 1]);
            }
        }
    }
}

} // verus!
