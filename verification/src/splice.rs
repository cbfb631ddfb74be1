//! Cutting a new range out of a location list.
//!
//! A location list says, for half-open ranges of program counters, which
//! expression gives a variable's location. Splicing a new range `[start, end)`
//! into a list removes that range from every entry that overlaps it, keeps
//! what sticks out on either side, and appends the new entry last.

use vstd::prelude::*;
use crate::address::{get_addr, has_numeric_value, Address};

verus! {

/// Which expression a location uses. A list never looks inside an
/// expression; it only carries the reference along.
#[derive(Clone, Copy, Debug, PartialEq, Eq, Structural)]
pub enum ExprRef {
    /// The expression that stands in the file at entry number `entry` of the
    /// location attribute of the debug-information entry number `die`.
    Read { die: usize, entry: usize },
    /// The expression for a variable whose value is this constant.
    Const(i64),
    /// The expression of script entry number `entry`.
    Script { entry: usize },
}

/// One entry of a location list: the expression `expr` holds from `begin` up
/// to, but not including, `end`.
#[derive(Clone, Copy, Debug, PartialEq, Eq, Structural)]
pub struct Location {
    pub begin: Address,
    pub end: Address,
    pub expr: ExprRef,
}

impl Location {
    /// Both endpoints have a numeric value.
    pub open spec fn resolvable(self) -> bool {
        self.begin.has_value() && self.end.has_value()
    }

    /// The first program counter of the entry.
    pub open spec fn lo(self) -> int {
        self.begin.value()
    }

    /// The first program counter past the entry.
    pub open spec fn hi(self) -> int {
        self.end.value()
    }

    /// The entry is resolvable and not empty.
    pub open spec fn well_formed(self) -> bool {
        self.resolvable() && self.lo() < self.hi()
    }

    /// Whether the entry holds at `pc`.
    pub open spec fn covers(self, pc: int) -> bool {
        self.lo() <= pc < self.hi()
    }

    /// Whether the entry and the range `[start, end)` have no program counter
    /// in common.
    pub open spec fn clear_of(self, start: int, end: int) -> bool {
        end <= self.lo() || start >= self.hi()
    }
}

/// The entry `[start, end)` with constant endpoints and expression `expr`.
pub open spec fn fresh_location(start: u64, end: u64, expr: ExprRef) -> Location {
    Location { begin: Address::Constant(start), end: Address::Constant(end), expr }
}

/// What is left of `loc` once `[start, end)` is cut out of it.
///
/// An entry that the range does not touch stays as it is. Otherwise the part
/// below `start` and the part from `end` on survive, each only if it is not
/// empty; an endpoint made by the cut is a constant, the others are kept.
pub open spec fn spliced_entry(loc: Location, start: u64, end: u64) -> Seq<Location> {
    if loc.clear_of(start as int, end as int) {
        seq![loc]
    } else {
        let left = if loc.lo() < start {
            seq![Location { begin: loc.begin, end: Address::Constant(start), expr: loc.expr }]
        } else {
            Seq::<Location>::empty()
        };
        let right = if end < loc.hi() {
            seq![Location { begin: Address::Constant(end), end: loc.end, expr: loc.expr }]
        } else {
            Seq::<Location>::empty()
        };
        left + right
    }
}

/// What is left of every entry of `list`, in order, once `[start, end)` is
/// cut out.
pub open spec fn spliced(list: Seq<Location>, start: u64, end: u64) -> Seq<Location>
    decreases list.len(),
{
    if list.len() == 0 {
        Seq::<Location>::empty()
    } else {
        spliced(list.drop_last(), start, end) + spliced_entry(list.last(), start, end)
    }
}

/// The list after `[start, end)` with expression `expr` is spliced in: the
/// remains of the old entries, then the new entry.
pub open spec fn spliced_with(list: Seq<Location>, start: u64, end: u64, expr: ExprRef) -> Seq<
    Location,
> {
    spliced(list, start, end).push(fresh_location(start, end, expr))
}

/// Every entry of `list` is resolvable.
pub open spec fn all_resolvable(list: Seq<Location>) -> bool {
    forall|i: int| 0 <= i < list.len() ==> (#[trigger] list[i]).resolvable()
}

/// Every entry of `list` is resolvable and not empty.
pub open spec fn all_well_formed(list: Seq<Location>) -> bool {
    forall|i: int| 0 <= i < list.len() ==> (#[trigger] list[i]).well_formed()
}

/// No program counter is covered by two entries of `list`.
pub open spec fn pairwise_disjoint(list: Seq<Location>) -> bool {
    forall|i: int, j: int|
        0 <= i < j < list.len() ==> (#[trigger] list[i]).hi() <= (#[trigger] list[j]).lo()
            || list[j].hi() <= list[i].lo()
}

/// Some entry of `list` holds at `pc`.
pub open spec fn covered(list: Seq<Location>, pc: int) -> bool {
    exists|i: int| 0 <= i < list.len() && (#[trigger] list[i]).covers(pc)
}

/// The entries of `list` begin in ascending order.
pub open spec fn sorted_by_begin(list: Seq<Location>) -> bool {
    forall|i: int, j: int|
        0 <= i < j < list.len() ==> (#[trigger] list[i]).lo() <= (#[trigger] list[j]).lo()
}

/// Why a splice was refused.
#[derive(Clone, Copy, Debug, PartialEq, Eq, Structural)]
pub enum SpliceError {
    /// The new range is empty or reversed.
    EmptyRange,
    /// An existing entry has an endpoint without a numeric value.
    UnresolvedAddress,
}

/// Appends to `out` what is left of `loc` once `[start, end)` is cut out.
pub fn splice_entry(loc: &Location, start: u64, end: u64, out: &mut Vec<Location>)
    requires
        start < end,
        loc.resolvable(),
    ensures
        final(out)@ == old(out)@ + spliced_entry(*loc, start, end),
{
    let range_begin: u64 = get_addr(loc.begin);
    let range_end: u64 = get_addr(loc.end);
    if end <= range_begin || start >= range_end {
        out.push(*loc);
        assert(out@ =~= old(out)@ + spliced_entry(*loc, start, end));
    } else {
        if range_begin < start {
            out.push(Location { begin: loc.begin, end: Address::Constant(start), expr: loc.expr });
        }
        if end < range_end {
            out.push(Location { begin: Address::Constant(end), end: loc.end, expr: loc.expr });
        }
        assert(out@ =~= old(out)@ + spliced_entry(*loc, start, end));
    }
}

/// Whether every entry of `list` has numeric endpoints.
pub fn check_resolvable(list: &Vec<Location>) -> (ok: bool)
    ensures
        ok == all_resolvable(list@),
{
    let mut i: usize = 0;
    while i < list.len()
        invariant
            i <= list.len(),
            forall|k: int| 0 <= k < i ==> (#[trigger] list@[k]).resolvable(),
        decreases list.len() - i,
    {
        let loc = list[i];
        if !has_numeric_value(loc.begin) || !has_numeric_value(loc.end) {
            return false;
        }
        i += 1;
    }
    true
}

/// Splices `[start, end)` with expression `expr` into `existing`.
///
/// An empty or reversed range is refused, and so is a list with an endpoint
/// that has no numeric value. Otherwise the result holds the remains of the
/// old entries in their old order, followed by the new entry.
pub fn splice_list(existing: &Vec<Location>, start: u64, end: u64, expr: ExprRef) -> (r: Result<
    Vec<Location>,
    SpliceError,
>)
    ensures
        start >= end ==> r == Err::<Vec<Location>, SpliceError>(SpliceError::EmptyRange),
        start < end && !all_resolvable(existing@) ==> r == Err::<Vec<Location>, SpliceError>(
            SpliceError::UnresolvedAddress,
        ),
        start < end && all_resolvable(existing@) ==> r.is_ok() && r.unwrap()@ == spliced_with(
            existing@,
            start,
            end,
            expr,
        ),
{
    if start >= end {
        return Err(SpliceError::EmptyRange);
    }
    if !check_resolvable(existing) {
        return Err(SpliceError::UnresolvedAddress);
    }
    let mut out: Vec<Location> = Vec::new();
    let mut i: usize = 0;
    while i < existing.len()
        invariant
            i <= existing.len(),
            start < end,
            all_resolvable(existing@),
            out@ == spliced(existing@.subrange(0, i as int), start, end),
        decreases existing.len() - i,
    {
        proof {
            let next = existing@.subrange(0, i as int + 1);
            assert(next.drop_last() =~= existing@.subrange(0, i as int));
            assert(next.last() == existing@[i as int]);
        }
        splice_entry(&existing[i], start, end, &mut out);
        i += 1;
    }
    assert(existing@.subrange(0, i as int) =~= existing@);
    out.push(Location { begin: Address::Constant(start), end: Address::Constant(end), expr });
    Ok(out)
}

/// Cutting a range out of a concatenation cuts it out of both parts.
pub proof fn spliced_concat(a: Seq<Location>, b: Seq<Location>, start: u64, end: u64)
    ensures
        spliced(a + b, start, end) == spliced(a, start, end) + spliced(b, start, end),
    decreases b.len(),
{
    if b.len() == 0 {
        assert(a + b =~= a);
        assert(spliced(a, start, end) + spliced(b, start, end) =~= spliced(a, start, end));
    } else {
        assert((a + b).drop_last() =~= a + b.drop_last());
        assert((a + b).last() == b.last());
        spliced_concat(a, b.drop_last(), start, end);
        assert(spliced(a + b, start, end) =~= spliced(a, start, end) + spliced(b, start, end));
    }
}

/// Where an entry of the spliced list comes from: every entry of
/// `spliced(list, start, end)` is a remnant of some entry of `list`.
pub proof fn spliced_origin(list: Seq<Location>, start: u64, end: u64, k: int) -> (i: int)
    requires
        0 <= k < spliced(list, start, end).len(),
    ensures
        0 <= i < list.len(),
        spliced_entry(list[i], start, end).contains(spliced(list, start, end)[k]),
    decreases list.len(),
{
    let head = spliced(list.drop_last(), start, end);
    if k < head.len() {
        let i = spliced_origin(list.drop_last(), start, end, k);
        i
    } else {
        let tail = spliced_entry(list.last(), start, end);
        assert(tail[k - head.len()] == spliced(list, start, end)[k]);
        list.len() - 1
    }
}

/// Every remnant of an entry of `list` is an entry of the spliced list.
pub proof fn spliced_holds(list: Seq<Location>, start: u64, end: u64, i: int, piece: Location)
    requires
        0 <= i < list.len(),
        spliced_entry(list[i], start, end).contains(piece),
    ensures
        spliced(list, start, end).contains(piece),
    decreases list.len(),
{
    let head = spliced(list.drop_last(), start, end);
    let tail = spliced_entry(list.last(), start, end);
    if i == list.len() - 1 {
        let j = choose|j: int| 0 <= j < tail.len() && tail[j] == piece;
        assert(spliced(list, start, end)[head.len() + j] == piece);
    } else {
        spliced_holds(list.drop_last(), start, end, i, piece);
        let j = choose|j: int| 0 <= j < head.len() && head[j] == piece;
        assert(spliced(list, start, end)[j] == piece);
    }
}

/// A remnant of an entry keeps its expression, stays clear of the cut range
/// and begins no earlier than the entry; the remnant of a non-empty entry is
/// not empty and ends no later than the entry.
pub proof fn remnant_facts(loc: Location, start: u64, end: u64, piece: Location)
    requires
        start < end,
        spliced_entry(loc, start, end).contains(piece),
    ensures
        loc.resolvable() ==> piece.resolvable(),
        piece.expr == loc.expr,
        piece.clear_of(start as int, end as int),
        loc.lo() <= piece.lo(),
        loc.lo() < loc.hi() ==> piece.lo() < piece.hi() && piece.hi() <= loc.hi(),
        loc.lo() < loc.hi() <= end ==> piece.lo() == loc.lo() && piece.lo() <= start,
{
    let pieces = spliced_entry(loc, start, end);
    let j = choose|j: int| 0 <= j < pieces.len() && pieces[j] == piece;
    assert(pieces[j] == piece);
}

/// The remnants of an entry cover exactly what the entry covered outside the
/// cut range.
pub proof fn remnants_cover(loc: Location, start: u64, end: u64, pc: int)
    requires
        start < end,
    ensures
        covered(spliced_entry(loc, start, end), pc) <==> loc.covers(pc) && !(start <= pc < end),
{
    let pieces = spliced_entry(loc, start, end);
    if loc.covers(pc) && !(start <= pc < end) {
        if loc.clear_of(start as int, end as int) {
            assert(pieces[0].covers(pc));
        } else if pc < start {
            assert(pieces[0].covers(pc));
        } else {
            assert(pieces[pieces.len() - 1].covers(pc));
        }
    }
    if covered(pieces, pc) {
        let j = choose|j: int| 0 <= j < pieces.len() && (#[trigger] pieces[j]).covers(pc);
        assert(pieces[j].covers(pc));
    }
}

/// Splicing keeps a list resolvable, and well formed if it was.
pub proof fn splice_keeps_well_formed(list: Seq<Location>, start: u64, end: u64, expr: ExprRef)
    requires
        start < end,
        all_resolvable(list),
    ensures
        all_resolvable(spliced_with(list, start, end, expr)),
        all_well_formed(list) ==> all_well_formed(spliced_with(list, start, end, expr)),
{
    let out = spliced_with(list, start, end, expr);
    let body = spliced(list, start, end);
    assert forall|k: int| 0 <= k < out.len() implies (#[trigger] out[k]).resolvable() && (
    all_well_formed(list) ==> out[k].well_formed()) by {
        if k < body.len() {
            let i = spliced_origin(list, start, end, k);
            remnant_facts(list[i], start, end, body[k]);
        }
    }
}

/// The remains of a list without overlaps do not overlap.
proof fn remains_disjoint(list: Seq<Location>, start: u64, end: u64)
    requires
        start < end,
        all_well_formed(list),
        pairwise_disjoint(list),
    ensures
        pairwise_disjoint(spliced(list, start, end)),
    decreases list.len(),
{
    if list.len() > 0 {
        let init = list.drop_last();
        let last = list.last();
        remains_disjoint(init, start, end);
        let head = spliced(init, start, end);
        let tail = spliced_entry(last, start, end);
        let body = spliced(list, start, end);
        assert forall|a: int, b: int| 0 <= a < b < body.len() implies (#[trigger] body[a]).hi()
            <= (#[trigger] body[b]).lo() || body[b].hi() <= body[a].lo() by {
            if b < head.len() {
                assert(body[a] == head[a] && body[b] == head[b]);
            } else if a >= head.len() {
                assert(body[a] == tail[a - head.len()]);
                assert(body[b] == tail[b - head.len()]);
            } else {
                assert(body[a] == head[a]);
                assert(body[b] == tail[b - head.len()]);
                let ia = spliced_origin(init, start, end, a);
                remnant_facts(init[ia], start, end, head[a]);
                remnant_facts(last, start, end, body[b]);
                assert(init[ia] == list[ia]);
                assert(list[ia].hi() <= list[list.len() - 1].lo() || list[list.len() - 1].hi()
                    <= list[ia].lo());
            }
        }
    }
}

/// After a splice no two entries overlap, provided the old entries were not
/// empty and did not overlap.
pub proof fn splice_keeps_disjoint(list: Seq<Location>, start: u64, end: u64, expr: ExprRef)
    requires
        start < end,
        all_well_formed(list),
        pairwise_disjoint(list),
    ensures
        pairwise_disjoint(spliced_with(list, start, end, expr)),
{
    let out = spliced_with(list, start, end, expr);
    let body = spliced(list, start, end);
    remains_disjoint(list, start, end);
    assert forall|a: int, b: int| 0 <= a < b < out.len() implies (#[trigger] out[a]).hi() <= (
    #[trigger] out[b]).lo() || out[b].hi() <= out[a].lo() by {
        if b < body.len() {
            assert(out[a] == body[a] && out[b] == body[b]);
        } else {
            let ia = spliced_origin(list, start, end, a);
            remnant_facts(list[ia], start, end, body[a]);
        }
    }
}

/// After a splice the list covers what it covered before, and the new range.
pub proof fn splice_covers_union(list: Seq<Location>, start: u64, end: u64, expr: ExprRef, pc: int)
    requires
        start < end,
    ensures
        covered(spliced_with(list, start, end, expr), pc) <==> covered(list, pc) || start <= pc
            < end,
{
    let out = spliced_with(list, start, end, expr);
    let body = spliced(list, start, end);
    if covered(out, pc) {
        let k = choose|k: int| 0 <= k < out.len() && (#[trigger] out[k]).covers(pc);
        if k < body.len() {
            let i = spliced_origin(list, start, end, k);
            let pieces = spliced_entry(list[i], start, end);
            let j = choose|j: int| 0 <= j < pieces.len() && pieces[j] == body[k];
            assert(pieces[j].covers(pc));
            remnants_cover(list[i], start, end, pc);
            assert(list[i].covers(pc));
        }
    }
    if start <= pc < end {
        assert(out[out.len() - 1].covers(pc));
    } else if covered(list, pc) {
        let i = choose|i: int| 0 <= i < list.len() && (#[trigger] list[i]).covers(pc);
        remnants_cover(list[i], start, end, pc);
        let pieces = spliced_entry(list[i], start, end);
        let j = choose|j: int| 0 <= j < pieces.len() && (#[trigger] pieces[j]).covers(pc);
        assert(pieces.contains(pieces[j]));
        spliced_holds(list, start, end, i, pieces[j]);
        let k = choose|k: int| 0 <= k < body.len() && body[k] == pieces[j];
        assert(out[k].covers(pc));
    }
}

/// The remains of a sorted list whose entries all end by `end` are sorted,
/// and none begins after `start`.
proof fn remains_sorted(list: Seq<Location>, start: u64, end: u64)
    requires
        start < end,
        all_well_formed(list),
        sorted_by_begin(list),
        forall|i: int| 0 <= i < list.len() ==> (#[trigger] list[i]).hi() <= end,
    ensures
        sorted_by_begin(spliced(list, start, end)),
        forall|k: int|
            0 <= k < spliced(list, start, end).len() ==> (#[trigger] spliced(
                list,
                start,
                end,
            )[k]).lo() <= start,
    decreases list.len(),
{
    if list.len() > 0 {
        let init = list.drop_last();
        let last = list.last();
        remains_sorted(init, start, end);
        let head = spliced(init, start, end);
        let tail = spliced_entry(last, start, end);
        let body = spliced(list, start, end);
        assert(last.well_formed() && last.hi() <= end);
        assert forall|k: int| 0 <= k < body.len() implies (#[trigger] body[k]).lo() <= start by {
            if k < head.len() {
                assert(body[k] == head[k]);
            } else {
                assert(body[k] == tail[k - head.len()]);
                remnant_facts(last, start, end, body[k]);
            }
        }
        assert forall|a: int, b: int| 0 <= a < b < body.len() implies (#[trigger] body[a]).lo()
            <= (#[trigger] body[b]).lo() by {
            if b < head.len() {
                assert(body[a] == head[a] && body[b] == head[b]);
            } else if a >= head.len() {
                assert(body[a] == tail[a - head.len()]);
                assert(body[b] == tail[b - head.len()]);
            } else {
                assert(body[a] == head[a]);
                assert(body[b] == tail[b - head.len()]);
                let ia = spliced_origin(init, start, end, a);
                assert(init[ia] == list[ia]);
                assert(list[ia].well_formed() && list[ia].hi() <= end);
                remnant_facts(init[ia], start, end, head[a]);
                remnant_facts(last, start, end, body[b]);
                assert(list[ia].lo() <= list[list.len() - 1].lo());
            }
        }
    }
}

/// A splice leaves the list sorted by begin when the old list was sorted and
/// none of its entries reaches past the end of the new range. (An entry that
/// does reach past it leaves a remnant that begins at `end`, before which the
/// new entry cannot stand, as the new entry always comes last.)
pub proof fn splice_keeps_sorted(list: Seq<Location>, start: u64, end: u64, expr: ExprRef)
    requires
        start < end,
        all_well_formed(list),
        sorted_by_begin(list),
        forall|i: int| 0 <= i < list.len() ==> (#[trigger] list[i]).hi() <= end,
    ensures
        sorted_by_begin(spliced_with(list, start, end, expr)),
{
    remains_sorted(list, start, end);
    let out = spliced_with(list, start, end, expr);
    let body = spliced(list, start, end);
    assert forall|a: int, b: int| 0 <= a < b < out.len() implies (#[trigger] out[a]).lo() <= (
    #[trigger] out[b]).lo() by {
        assert(out[a] == body[a]);
        if b < body.len() {
            assert(out[b] == body[b]);
        }
    }
}

/// Cutting a range out of entries that are all clear of it changes nothing.
proof fn spliced_clear(list: Seq<Location>, start: u64, end: u64)
    requires
        forall|i: int| 0 <= i < list.len() ==> (#[trigger] list[i]).clear_of(start as int, end as int),
    ensures
        spliced(list, start, end) == list,
    decreases list.len(),
{
    if list.len() > 0 {
        spliced_clear(list.drop_last(), start, end);
        assert(list.last().clear_of(start as int, end as int));
        assert(list.drop_last() + seq![list.last()] =~= list);
    }
}

/// What is left after a cut is clear of the cut range.
proof fn remains_clear(list: Seq<Location>, start: u64, end: u64)
    requires
        start < end,
    ensures
        forall|k: int|
            0 <= k < spliced(list, start, end).len() ==> (#[trigger] spliced(
                list,
                start,
                end,
            )[k]).clear_of(start as int, end as int),
{
    let body = spliced(list, start, end);
    assert forall|k: int| 0 <= k < body.len() implies (#[trigger] body[k]).clear_of(
        start as int,
        end as int,
    ) by {
        let i = spliced_origin(list, start, end, k);
        remnant_facts(list[i], start, end, body[k]);
    }
}

/// Splicing the same range with the same expression a second time changes
/// nothing.
pub proof fn splice_idempotent(list: Seq<Location>, start: u64, end: u64, expr: ExprRef)
    requires
        start < end,
    ensures
        spliced_with(spliced_with(list, start, end, expr), start, end, expr) == spliced_with(
            list,
            start,
            end,
            expr,
        ),
{
    let body = spliced(list, start, end);
    let fresh = fresh_location(start, end, expr);
    remains_clear(list, start, end);
    spliced_clear(body, start, end);
    assert(body.push(fresh) =~= body + seq![fresh]);
    spliced_concat(body, seq![fresh], start, end);
    spliced_short(fresh, fresh, start, end);
    assert(spliced(body.push(fresh), start, end) =~= body);
}

/// Cutting a range out of a list of one or two entries, spelled out.
proof fn spliced_short(x: Location, y: Location, start: u64, end: u64)
    ensures
        spliced(Seq::<Location>::empty(), start, end) == Seq::<Location>::empty(),
        spliced(seq![x], start, end) == spliced_entry(x, start, end),
        spliced(seq![x, y], start, end) == spliced_entry(x, start, end) + spliced_entry(
            y,
            start,
            end,
        ),
{
    let none = Seq::<Location>::empty();
    assert(spliced(none, start, end) =~= none);
    assert(seq![x].drop_last() =~= none);
    assert(seq![x].last() == x);
    assert(spliced(seq![x], start, end) =~= spliced_entry(x, start, end));
    assert(seq![x, y].drop_last() =~= seq![x]);
    assert(seq![x, y].last() == y);
}

/// For one entry, cutting out two ranges that do not overlap gives the same
/// remnants in either order.
proof fn cuts_commute_entry(loc: Location, s1: u64, e1: u64, s2: u64, e2: u64)
    requires
        s1 < e1,
        s2 < e2,
        e1 <= s2 || e2 <= s1,
    ensures
        spliced(spliced_entry(loc, s1, e1), s2, e2) == spliced(spliced_entry(loc, s2, e2), s1, e1),
{
    let a = spliced_entry(loc, s1, e1);
    let b = spliced_entry(loc, s2, e2);
    let l1 = Location { begin: loc.begin, end: Address::Constant(s1), expr: loc.expr };
    let r1 = Location { begin: Address::Constant(e1), end: loc.end, expr: loc.expr };
    let l2 = Location { begin: loc.begin, end: Address::Constant(s2), expr: loc.expr };
    let r2 = Location { begin: Address::Constant(e2), end: loc.end, expr: loc.expr };
    spliced_short(loc, loc, s1, e1);
    spliced_short(loc, loc, s2, e2);
    spliced_short(l1, r1, s2, e2);
    spliced_short(r1, l1, s2, e2);
    spliced_short(l2, r2, s1, e1);
    spliced_short(r2, l2, s1, e1);
    assert(a =~= seq![loc] || a =~= seq![l1, r1] || a =~= seq![l1] || a =~= seq![r1] || a
        =~= Seq::<Location>::empty());
    assert(b =~= seq![loc] || b =~= seq![l2, r2] || b =~= seq![l2] || b =~= seq![r2] || b
        =~= Seq::<Location>::empty());
    assert(spliced(a, s2, e2) =~= spliced(b, s1, e1));
}

/// Cutting two ranges that do not overlap out of a list gives the same
/// remains in either order.
pub proof fn cuts_commute(list: Seq<Location>, s1: u64, e1: u64, s2: u64, e2: u64)
    requires
        s1 < e1,
        s2 < e2,
        e1 <= s2 || e2 <= s1,
    ensures
        spliced(spliced(list, s1, e1), s2, e2) == spliced(spliced(list, s2, e2), s1, e1),
    decreases list.len(),
{
    if list.len() > 0 {
        let init = list.drop_last();
        let last = list.last();
        cuts_commute(init, s1, e1, s2, e2);
        cuts_commute_entry(last, s1, e1, s2, e2);
        spliced_concat(spliced(init, s1, e1), spliced_entry(last, s1, e1), s2, e2);
        spliced_concat(spliced(init, s2, e2), spliced_entry(last, s2, e2), s1, e1);
    }
}

/// Two splices whose ranges do not overlap can be made in either order: both
/// orders leave the same remains of the old entries, followed by the two new
/// entries in the order in which they were spliced.
pub proof fn splices_commute(
    list: Seq<Location>,
    s1: u64,
    e1: u64,
    x1: ExprRef,
    s2: u64,
    e2: u64,
    x2: ExprRef,
)
    requires
        s1 < e1,
        s2 < e2,
        e1 <= s2 || e2 <= s1,
    ensures
        spliced_with(spliced_with(list, s1, e1, x1), s2, e2, x2) == spliced(
            spliced(list, s1, e1),
            s2,
            e2,
        ).push(fresh_location(s1, e1, x1)).push(fresh_location(s2, e2, x2)),
        spliced_with(spliced_with(list, s2, e2, x2), s1, e1, x1) == spliced(
            spliced(list, s1, e1),
            s2,
            e2,
        ).push(fresh_location(s2, e2, x2)).push(fresh_location(s1, e1, x1)),
{
    cuts_commute(list, s1, e1, s2, e2);
    let f1 = fresh_location(s1, e1, x1);
    let f2 = fresh_location(s2, e2, x2);
    let b1 = spliced(list, s1, e1);
    let b2 = spliced(list, s2, e2);
    spliced_short(f1, f1, s2, e2);
    spliced_short(f2, f2, s1, e1);
    assert(b1.push(f1) =~= b1 + seq![f1]);
    assert(b2.push(f2) =~= b2 + seq![f2]);
    spliced_concat(b1, seq![f1], s2, e2);
    spliced_concat(b2, seq![f2], s1, e1);
    assert(spliced(b1.push(f1), s2, e2) =~= spliced(b1, s2, e2).push(f1));
    assert(spliced(b2.push(f2), s1, e1) =~= spliced(b2, s1, e1).push(f2));
}

} // verus!
