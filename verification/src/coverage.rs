//! Measuring coverage: over which of a given set of program counters each
//! variable of a function has a location, and whether that location is
//! only a constant.

use vstd::prelude::*;
use crate::covmap::CoverageMap;
use crate::die::{
    advance_scope, in_ranges, scope_after, scope_contains, scope_ranges, scope_valid, subtree_end,
    walk_end, DieRecord, LocationAttr, LocationEntry, Scope,
};
use crate::expr::{is_const, is_const_expression, Encoding};
use crate::interval::{ascending, insert_all, insert_interval, set_insert, Interval};

verus! {

/// Why a measurement was given up.
#[derive(Clone, Copy, Debug, PartialEq, Eq, Structural)]
pub enum CoverageError {
    /// The end of an entry's own range does not fit in 64 bits.
    ScopeOverflow,
    /// A location reaches up to the last program counter of the set, and
    /// the end of the instruction there is not known.
    TailUnknown,
    /// The count of covered program counters does not fit in 63 bits.
    CountOverflow,
}

/// Whether the program counter at position `k` counts for the location-list
/// entry `[lb, le)` under the scope `ranges`: it lies in the entry and in
/// the scope.
pub open spec fn counted(insns: Seq<u64>, ranges: Seq<(u64, u64)>, lb: u64, le: u64, k: int) -> bool {
    lb <= insns[k] < le && in_ranges(ranges, insns[k])
}

/// The runs of counted program counters from position `i` on, where
/// `start` is the position at which the run around `i` began, or -1 outside
/// a run.
///
/// A run is a maximal stretch of neighbours in `insns` that all count. It
/// yields the range from its first program counter to the next program
/// counter after its last, or to `tail` where the run ends the set.
pub open spec fn runs_from(
    insns: Seq<u64>,
    ranges: Seq<(u64, u64)>,
    lb: u64,
    le: u64,
    tail: u64,
    i: int,
    start: int,
) -> Seq<(u64, u64)>
    decreases insns.len() - i,
{
    if i >= insns.len() {
        if start >= 0 {
            seq![(insns[start], tail)]
        } else {
            Seq::<(u64, u64)>::empty()
        }
    } else if counted(insns, ranges, lb, le, i) {
        runs_from(
            insns,
            ranges,
            lb,
            le,
            tail,
            i + 1,
            if start >= 0 {
                start
            } else {
                i
            },
        )
    } else {
        let done = if start >= 0 {
            seq![(insns[start], insns[i])]
        } else {
            Seq::<(u64, u64)>::empty()
        };
        done + runs_from(insns, ranges, lb, le, tail, i + 1, -1)
    }
}

/// The ranges that the runs of the entry `[lb, le)` yield, in order.
pub open spec fn runs(insns: Seq<u64>, ranges: Seq<(u64, u64)>, lb: u64, le: u64, tail: u64) -> Seq<
    (u64, u64),
> {
    runs_from(insns, ranges, lb, le, tail, 0, -1)
}

/// How many of the first `n` program counters count for the entry.
pub open spec fn counted_total(
    insns: Seq<u64>,
    ranges: Seq<(u64, u64)>,
    lb: u64,
    le: u64,
    n: int,
) -> int
    decreases n,
{
    if n <= 0 {
        0
    } else {
        counted_total(insns, ranges, lb, le, n - 1) + if counted(insns, ranges, lb, le, n - 1) {
            1int
        } else {
            0int
        }
    }
}

/// Whether the last program counter of the set counts for the entry, so
/// that its run needs the end of the last instruction.
pub open spec fn ends_counted(insns: Seq<u64>, ranges: Seq<(u64, u64)>, lb: u64, le: u64) -> bool {
    insns.len() > 0 && counted(insns, ranges, lb, le, insns.len() - 1)
}

/// The given end of the last instruction, or 0 where it is not known.
pub open spec fn tail_or_zero(tail: Option<u64>) -> u64 {
    match tail {
        Some(t) => t,
        None => 0,
    }
}

/// The intervals `set` and the count `total` after one location-list entry
/// is taken in.
pub open spec fn entry_tally(
    insns: Seq<u64>,
    ranges: Seq<(u64, u64)>,
    tail: Option<u64>,
    lb: u64,
    le: u64,
    constant: bool,
    set: Seq<Interval>,
    total: int,
) -> Result<(Seq<Interval>, int), CoverageError> {
    if ends_counted(insns, ranges, lb, le) && tail.is_none() {
        Err(CoverageError::TailUnknown)
    } else if total + counted_total(insns, ranges, lb, le, insns.len() as int) > i64::MAX {
        Err(CoverageError::CountOverflow)
    } else {
        Ok(
            (
                insert_all(set, runs(insns, ranges, lb, le, tail_or_zero(tail)), constant),
                total + counted_total(insns, ranges, lb, le, insns.len() as int),
            ),
        )
    }
}

/// The intervals and the count after the first `n` entries of a location
/// list are taken in, starting from no intervals and the count `total`.
pub open spec fn list_tally(
    insns: Seq<u64>,
    ranges: Seq<(u64, u64)>,
    tail: Option<u64>,
    encoding: Encoding,
    entries: Seq<LocationEntry>,
    n: int,
    total: int,
) -> Result<(Seq<Interval>, int), CoverageError>
    decreases n,
{
    if n <= 0 {
        Ok((Seq::<Interval>::empty(), total))
    } else {
        match list_tally(insns, ranges, tail, encoding, entries, n - 1, total) {
            Err(e) => Err(e),
            Ok((set, t)) => entry_tally(
                insns,
                ranges,
                tail,
                entries[n - 1].begin,
                entries[n - 1].end,
                is_const(entries[n - 1].expr@, encoding),
                set,
                t,
            ),
        }
    }
}

/// How many of the first `n` program counters lie in `[begin, end)`.
pub open spec fn range_count(insns: Seq<u64>, begin: u64, end: u64, n: int) -> int
    decreases n,
{
    if n <= 0 {
        0
    } else {
        range_count(insns, begin, end, n - 1) + if begin <= insns[n - 1] < end {
            1int
        } else {
            0int
        }
    }
}

/// The intervals and the count after the first `n` ranges of a scope are
/// taken in for a variable with a single location: each range becomes an
/// interval, and every program counter in it counts.
pub open spec fn scope_tally(
    insns: Seq<u64>,
    ranges: Seq<(u64, u64)>,
    constant: bool,
    n: int,
    total: int,
) -> Result<(Seq<Interval>, int), CoverageError>
    decreases n,
{
    if n <= 0 {
        Ok((Seq::<Interval>::empty(), total))
    } else {
        match scope_tally(insns, ranges, constant, n - 1, total) {
            Err(e) => Err(e),
            Ok((set, t)) => {
                let more = range_count(
                    insns,
                    ranges[n - 1].0,
                    ranges[n - 1].1,
                    insns.len() as int,
                );
                if t + more > i64::MAX {
                    Err(CoverageError::CountOverflow)
                } else {
                    Ok(
                        (
                            set_insert(
                                set,
                                Interval {
                                    begin: ranges[n - 1].0,
                                    end: ranges[n - 1].1,
                                    is_const: constant,
                                },
                            ),
                            t + more,
                        ),
                    )
                }
            },
        }
    }
}

/// What one entry contributes: the intervals of the variable it describes,
/// if it describes one with a location, and the count after it.
///
/// An entry that is no variable, and a variable that is reached under no
/// scope, contribute nothing. Under a scope, a variable with a location list
/// gets the runs of each list entry; failing that, a variable with a single
/// location expression gets the ranges of the scope; failing that, a
/// variable with a constant value gets the ranges of the scope as
/// constant-only intervals. Any other variable contributes nothing.
pub open spec fn die_tally(
    dies: Seq<DieRecord>,
    insns: Seq<u64>,
    tail: Option<u64>,
    encoding: Encoding,
    scope: Scope,
    index: int,
    total: int,
) -> Result<(Option<Seq<Interval>>, int), CoverageError> {
    let die = dies[index];
    let ranges = scope_ranges(dies, scope);
    let tallied = if !die.is_variable() || scope == Scope::Empty {
        None
    } else {
        match die.location {
            LocationAttr::List(entries) => Some(
                list_tally(insns, ranges, tail, encoding, entries@, entries@.len() as int, total),
            ),
            LocationAttr::Expr(bytes) => Some(
                scope_tally(insns, ranges, is_const(bytes@, encoding), ranges.len() as int, total),
            ),
            _ => if die.const_value.is_some() {
                Some(scope_tally(insns, ranges, true, ranges.len() as int, total))
            } else {
                None
            },
        }
    };
    match tallied {
        None => Ok((None, total)),
        Some(Err(e)) => Err(e),
        Some(Ok((set, t))) => Ok((Some(set), t)),
    }
}

/// The scope, the count and the map after the first `n` entries of the
/// walk that begins at `start`.
pub open spec fn walk_state(
    dies: Seq<DieRecord>,
    insns: Seq<u64>,
    tail: Option<u64>,
    encoding: Encoding,
    start: int,
    n: int,
) -> Result<(Scope, int, Map<Seq<u8>, Seq<Interval>>), CoverageError>
    decreases n,
{
    if n <= 0 {
        Ok((Scope::Empty, 0, Map::<Seq<u8>, Seq<Interval>>::empty()))
    } else {
        match walk_state(dies, insns, tail, encoding, start, n - 1) {
            Err(e) => Err(e),
            Ok((scope, total, map)) => {
                let index = start + n - 1;
                match die_tally(dies, insns, tail, encoding, scope, index, total) {
                    Err(e) => Err(e),
                    Ok((found, t)) => match scope_after(scope, dies, index) {
                        None => Err(CoverageError::ScopeOverflow),
                        Some(next) => Ok(
                            (
                                next,
                                t,
                                if found.is_some() && dies[index].name.is_some() {
                                    map.insert(dies[index].name.unwrap()@, found.unwrap())
                                } else {
                                    map
                                },
                            ),
                        ),
                    },
                }
            },
        }
    }
}

/// The result of measuring the function whose entry stands at `start`: the
/// count of covered program counters and the map of its variables.
pub open spec fn measured(
    dies: Seq<DieRecord>,
    insns: Seq<u64>,
    tail: Option<u64>,
    encoding: Encoding,
    start: int,
) -> Result<(int, Map<Seq<u8>, Seq<Interval>>), CoverageError> {
    match walk_state(dies, insns, tail, encoding, start, walk_end(dies, start) - start) {
        Err(e) => Err(e),
        Ok((_, total, map)) => Ok((total, map)),
    }
}

/// Takes one location-list entry in: adds the ranges of its runs to `set`
/// and the number of program counters that count to `total`.
pub fn tally_entry(
    dies: &Vec<DieRecord>,
    scope: Scope,
    insns: &Vec<u64>,
    tail: Option<u64>,
    lb: u64,
    le: u64,
    constant: bool,
    set: &mut Vec<Interval>,
    total: &mut i64,
) -> (r: Result<(), CoverageError>)
    requires
        scope_valid(dies@, scope),
        ascending(old(set)@),
        *old(total) >= 0,
    ensures
        match entry_tally(
            insns@,
            scope_ranges(dies@, scope),
            tail,
            lb,
            le,
            constant,
            old(set)@,
            *old(total) as int,
        ) {
            Ok((s, t)) => r.is_ok() && final(set)@ == s && *final(total) == t && ascending(
                final(set)@,
            ) && *final(total) >= 0,
            Err(e) => r == Err::<(), CoverageError>(e),
        },
{
    let ghost ranges = scope_ranges(dies@, scope);
    let n: usize = insns.len();
    if n > 0 && tail.is_none() {
        let last: u64 = insns[n - 1];
        if lb <= last && last < le && scope_contains(dies, scope, last) {
            return Err(CoverageError::TailUnknown);
        }
    }
    let end_of_set: u64 = match tail {
        Some(t) => t,
        None => 0,
    };
    let mut i: usize = 0;
    let mut start: Option<usize> = None;
    let mut count: u64 = 0;
    while i < n
        invariant
            n == insns@.len(),
            i <= n,
            ranges == scope_ranges(dies@, scope),
            scope_valid(dies@, scope),
            end_of_set == tail_or_zero(tail),
            start matches Some(s) ==> s < i,
            count == counted_total(insns@, ranges, lb, le, i as int),
            count <= i,
            ascending(set@),
            insert_all(
                set@,
                runs_from(
                    insns@,
                    ranges,
                    lb,
                    le,
                    end_of_set,
                    i as int,
                    match start {
                        Some(s) => s as int,
                        None => -1,
                    },
                ),
                constant,
            ) == insert_all(old(set)@, runs(insns@, ranges, lb, le, end_of_set), constant),
        decreases n - i,
    {
        let pc: u64 = insns[i];
        if lb <= pc && pc < le && scope_contains(dies, scope, pc) {
            if start.is_none() {
                start = Some(i);
            }
            count += 1;
        } else {
            if let Some(s) = start {
                let ghost rest = runs_from(insns@, ranges, lb, le, end_of_set, i as int + 1, -1);
                let ghost all = seq![(insns@[s as int], pc)] + rest;
                assert(all.skip(1) =~= rest);
                assert(all[0] == (insns@[s as int], pc));
                insert_interval(set, Interval { begin: insns[s], end: pc, is_const: constant });
            } else {
                let ghost rest = runs_from(insns@, ranges, lb, le, end_of_set, i as int + 1, -1);
                assert(Seq::<(u64, u64)>::empty() + rest =~= rest);
            }
            start = None;
        }
        i += 1;
    }
    if let Some(s) = start {
        let ghost all = seq![(insns@[s as int], end_of_set)];
        let ghost x = Interval { begin: insns@[s as int], end: end_of_set, is_const: constant };
        let ghost before = set@;
        assert(all.skip(1) =~= Seq::<(u64, u64)>::empty());
        assert(all[0] == (insns@[s as int], end_of_set));
        assert(insert_all(before, all, constant) == insert_all(
            set_insert(before, x),
            all.skip(1),
            constant,
        ));
        assert(insert_all(set_insert(before, x), all.skip(1), constant) == set_insert(before, x));
        insert_interval(set, Interval { begin: insns[s], end: end_of_set, is_const: constant });
    } else {
        assert(insert_all(set@, Seq::<(u64, u64)>::empty(), constant) == set@);
    }
    let sum: i128 = *total as i128 + count as i128;
    if sum > i64::MAX as i128 {
        return Err(CoverageError::CountOverflow);
    }
    *total = sum as i64;
    Ok(())
}

/// How many program counters of `insns` lie in `[begin, end)`.
pub fn count_in_range(insns: &Vec<u64>, begin: u64, end: u64) -> (count: u64)
    ensures
        count == range_count(insns@, begin, end, insns@.len() as int),
{
    let mut i: usize = 0;
    let mut count: u64 = 0;
    while i < insns.len()
        invariant
            i <= insns.len(),
            count == range_count(insns@, begin, end, i as int),
            count <= i,
        decreases insns.len() - i,
    {
        if begin <= insns[i] && insns[i] < end {
            count += 1;
        }
        i += 1;
    }
    count
}

/// Takes one range of the scope in for a variable with a single location.
fn tally_range(
    insns: &Vec<u64>,
    begin: u64,
    end: u64,
    constant: bool,
    set: &mut Vec<Interval>,
    total: &mut i64,
) -> (ok: bool)
    requires
        ascending(old(set)@),
        *old(total) >= 0,
    ensures
        ok == (*old(total) + range_count(insns@, begin, end, insns@.len() as int) <= i64::MAX),
        ok ==> final(set)@ == set_insert(old(set)@, Interval { begin, end, is_const: constant })
            && *final(total) == *old(total) + range_count(
            insns@,
            begin,
            end,
            insns@.len() as int,
        ) && ascending(final(set)@) && *final(total) >= 0,
{
    let count: u64 = count_in_range(insns, begin, end);
    let sum: i128 = *total as i128 + count as i128;
    if sum > i64::MAX as i128 {
        return false;
    }
    insert_interval(set, Interval { begin, end, is_const: constant });
    *total = sum as i64;
    true
}

/// Takes the whole scope in for a variable with a single location.
fn tally_scope(
    dies: &Vec<DieRecord>,
    scope: Scope,
    insns: &Vec<u64>,
    constant: bool,
    total: &mut i64,
) -> (r: Result<Vec<Interval>, CoverageError>)
    requires
        scope_valid(dies@, scope),
        *old(total) >= 0,
    ensures
        match scope_tally(
            insns@,
            scope_ranges(dies@, scope),
            constant,
            scope_ranges(dies@, scope).len() as int,
            *old(total) as int,
        ) {
            Ok((s, t)) => r.is_ok() && r.unwrap()@ == s && ascending(s) && *final(total) == t
                && *final(total) >= 0,
            Err(e) => r == Err::<Vec<Interval>, CoverageError>(e),
        },
{
    let mut set: Vec<Interval> = Vec::new();
    match scope {
        Scope::Empty => Ok(set),
        Scope::Range { begin, end } => {
            let ghost ranges = scope_ranges(dies@, scope);
            assert(scope_tally(insns@, ranges, constant, 0, *old(total) as int) == Ok::<
                (Seq<Interval>, int),
                CoverageError,
            >((Seq::<Interval>::empty(), *old(total) as int)));
            assert(ranges[0] == (begin, end));
            if tally_range(insns, begin, end, constant, &mut set, total) {
                Ok(set)
            } else {
                Err(CoverageError::CountOverflow)
            }
        },
        Scope::ListOf { die } => {
            match &dies[die].ranges {
                Some(list) => {
                    let mut k: usize = 0;
                    while k < list.len()
                        invariant
                            k <= list.len(),
                            list@ == scope_ranges(dies@, scope),
                            ascending(set@),
                            *total >= 0,
                            scope_tally(insns@, list@, constant, k as int, *old(total) as int)
                                == Ok::<(Seq<Interval>, int), CoverageError>(
                                (set@, *total as int),
                            ),
                        decreases list.len() - k,
                    {
                        if !tally_range(insns, list[k].0, list[k].1, constant, &mut set, total) {
                            proof {
                                scope_tally_fails_on(
                                    insns@,
                                    list@,
                                    constant,
                                    k as int + 1,
                                    list@.len() as int,
                                    *old(total) as int,
                                );
                            }
                            return Err(CoverageError::CountOverflow);
                        }
                        k += 1;
                    }
                    Ok(set)
                },
                None => Ok(set),
            }
        },
    }
}

/// Once taking ranges in has failed, it stays failed with the same error.
proof fn scope_tally_fails_on(
    insns: Seq<u64>,
    ranges: Seq<(u64, u64)>,
    constant: bool,
    k: int,
    n: int,
    total: int,
)
    requires
        0 <= k <= n,
        scope_tally(insns, ranges, constant, k, total).is_err(),
    ensures
        scope_tally(insns, ranges, constant, n, total) == scope_tally(
            insns,
            ranges,
            constant,
            k,
            total,
        ),
    decreases n - k,
{
    if k < n {
        scope_tally_fails_on(insns, ranges, constant, k, n - 1, total);
    }
}

/// Once taking list entries in has failed, it stays failed with the same
/// error.
proof fn list_tally_fails_on(
    insns: Seq<u64>,
    ranges: Seq<(u64, u64)>,
    tail: Option<u64>,
    encoding: Encoding,
    entries: Seq<LocationEntry>,
    k: int,
    n: int,
    total: int,
)
    requires
        0 <= k <= n,
        list_tally(insns, ranges, tail, encoding, entries, k, total).is_err(),
    ensures
        list_tally(insns, ranges, tail, encoding, entries, n, total) == list_tally(
            insns,
            ranges,
            tail,
            encoding,
            entries,
            k,
            total,
        ),
    decreases n - k,
{
    if k < n {
        list_tally_fails_on(insns, ranges, tail, encoding, entries, k, n - 1, total);
    }
}

/// Once a walk has failed, it stays failed with the same error.
proof fn walk_fails_on(
    dies: Seq<DieRecord>,
    insns: Seq<u64>,
    tail: Option<u64>,
    encoding: Encoding,
    start: int,
    k: int,
    n: int,
)
    requires
        0 <= k <= n,
        walk_state(dies, insns, tail, encoding, start, k).is_err(),
    ensures
        walk_state(dies, insns, tail, encoding, start, n) == walk_state(
            dies,
            insns,
            tail,
            encoding,
            start,
            k,
        ),
    decreases n - k,
{
    if k < n {
        walk_fails_on(dies, insns, tail, encoding, start, k, n - 1);
    }
}

/// Takes a whole location list in.
fn tally_list(
    dies: &Vec<DieRecord>,
    scope: Scope,
    insns: &Vec<u64>,
    tail: Option<u64>,
    encoding: Encoding,
    entries: &Vec<LocationEntry>,
    total: &mut i64,
) -> (r: Result<Vec<Interval>, CoverageError>)
    requires
        scope_valid(dies@, scope),
        *old(total) >= 0,
    ensures
        match list_tally(
            insns@,
            scope_ranges(dies@, scope),
            tail,
            encoding,
            entries@,
            entries@.len() as int,
            *old(total) as int,
        ) {
            Ok((s, t)) => r.is_ok() && r.unwrap()@ == s && ascending(s) && *final(total) == t
                && *final(total) >= 0,
            Err(e) => r == Err::<Vec<Interval>, CoverageError>(e),
        },
{
    let ghost ranges = scope_ranges(dies@, scope);
    let mut set: Vec<Interval> = Vec::new();
    let mut k: usize = 0;
    while k < entries.len()
        invariant
            k <= entries.len(),
            ranges == scope_ranges(dies@, scope),
            scope_valid(dies@, scope),
            ascending(set@),
            *total >= 0,
            list_tally(insns@, ranges, tail, encoding, entries@, k as int, *old(total) as int)
                == Ok::<(Seq<Interval>, int), CoverageError>((set@, *total as int)),
        decreases entries.len() - k,
    {
        let entry = &entries[k];
        let constant = is_const_expression(entry.expr.as_slice(), encoding);
        match tally_entry(dies, scope, insns, tail, entry.begin, entry.end, constant, &mut set, total) {
            Ok(()) => {},
            Err(e) => {
                proof {
                    list_tally_fails_on(
                        insns@,
                        ranges,
                        tail,
                        encoding,
                        entries@,
                        k as int + 1,
                        entries@.len() as int,
                        *old(total) as int,
                    );
                }
                return Err(e);
            },
        }
        k += 1;
    }
    Ok(set)
}

/// Takes one entry of the walk in; see [`die_tally`].
pub fn tally_die(
    dies: &Vec<DieRecord>,
    insns: &Vec<u64>,
    tail: Option<u64>,
    encoding: Encoding,
    scope: Scope,
    index: usize,
    total: &mut i64,
) -> (r: Result<Option<Vec<Interval>>, CoverageError>)
    requires
        index < dies@.len(),
        scope_valid(dies@, scope),
        *old(total) >= 0,
    ensures
        match die_tally(dies@, insns@, tail, encoding, scope, index as int, *old(total) as int) {
            Ok((found, t)) => r.is_ok() && *final(total) == t && *final(total) >= 0 && (match (
                found,
                r.unwrap(),
            ) {
                (Some(s), Some(v)) => v@ == s && ascending(s),
                (None, None) => true,
                _ => false,
            }),
            Err(e) => r == Err::<Option<Vec<Interval>>, CoverageError>(e),
        },
{
    let die = &dies[index];
    if !die.describes_variable() {
        return Ok(None);
    }
    if let Scope::Empty = scope {
        return Ok(None);
    }
    match &die.location {
        LocationAttr::List(entries) => {
            match tally_list(dies, scope, insns, tail, encoding, entries, total) {
                Ok(set) => Ok(Some(set)),
                Err(e) => Err(e),
            }
        },
        LocationAttr::Expr(bytes) => {
            let constant = is_const_expression(bytes.as_slice(), encoding);
            match tally_scope(dies, scope, insns, constant, total) {
                Ok(set) => Ok(Some(set)),
                Err(e) => Err(e),
            }
        },
        _ => {
            if die.const_value.is_some() {
                match tally_scope(dies, scope, insns, true, total) {
                    Ok(set) => Ok(Some(set)),
                    Err(e) => Err(e),
                }
            } else {
                Ok(None)
            }
        },
    }
}

/// The outcome of a measurement.
#[derive(Clone, Debug)]
pub struct Coverage {
    /// The intervals of each variable.
    pub map: CoverageMap,
    /// How many times a program counter was found covered, summed over all
    /// variables and locations.
    pub total: i64,
}

/// Measures the function whose entry stands at `start` in the unit `dies`
/// against the program counters `insns`.
///
/// `tail` is the end of the instruction at the last program counter, where
/// it is known. The walk covers the function's entry and everything below
/// it. Where two variables have the same name, the later one wins.
pub fn measure(
    dies: &Vec<DieRecord>,
    start: usize,
    insns: &Vec<u64>,
    tail: Option<u64>,
    encoding: Encoding,
) -> (r: Result<Coverage, CoverageError>)
    requires
        start < dies@.len(),
    ensures
        match measured(dies@, insns@, tail, encoding, start as int) {
            Ok((total, map)) => r.is_ok() && r.unwrap().total == total && r.unwrap().map@ == map
                && r.unwrap().map.wf(),
            Err(e) => r matches Err(got) && got == e,
        },
{
    let end: usize = subtree_end(dies, start);
    let mut map = CoverageMap::new();
    let mut total: i64 = 0;
    let mut scope = Scope::Empty;
    let mut i: usize = start;
    while i < end
        invariant
            start <= i <= end <= dies@.len(),
            end == walk_end(dies@, start as int),
            map.wf(),
            total >= 0,
            scope_valid(dies@, scope),
            walk_state(dies@, insns@, tail, encoding, start as int, i - start) == Ok::<
                (Scope, int, Map<Seq<u8>, Seq<Interval>>),
                CoverageError,
            >((scope, total as int, map@)),
        decreases end - i,
    {
        let found = match tally_die(dies, insns, tail, encoding, scope, i, &mut total) {
            Ok(found) => found,
            Err(e) => {
                proof {
                    walk_fails_on(
                        dies@,
                        insns@,
                        tail,
                        encoding,
                        start as int,
                        i - start + 1,
                        end - start,
                    );
                }
                return Err(e);
            },
        };
        scope = match advance_scope(scope, dies, i) {
            Some(next) => next,
            None => {
                proof {
                    walk_fails_on(
                        dies@,
                        insns@,
                        tail,
                        encoding,
                        start as int,
                        i - start + 1,
                        end - start,
                    );
                }
                return Err(CoverageError::ScopeOverflow);
            },
        };
        if let Some(set) = found {
            if let Some(name) = &dies[i].name {
                map.insert(name.clone(), set);
            }
        }
        i += 1;
    }
    Ok(Coverage { map, total })
}

} // verus!
