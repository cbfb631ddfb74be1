//! What is known of each variable's locations while a function is being
//! rewritten: one record per place where the debug information gives the
//! variable a location or a scope.

use vstd::prelude::*;
use crate::die::{subtree_end, walk_end, DieRecord, LocationAttr};
use crate::text::bytes_eq;

verus! {

/// Where the locations of a record come from.
#[derive(Clone, Copy, Debug, PartialEq, Eq, Structural)]
pub enum LocationRecord {
    /// The location list of the entry number `die`, as read.
    ReadLocList { die: usize },
    /// The single location expression of the entry number `die`, which
    /// holds from the address with index `begin` for `end` bytes.
    ReadSingle { die: usize, begin: u64, end: u64 },
    /// The constant `value`, which holds from the address with index
    /// `begin` for `end` bytes.
    ConstAttr { value: i64, begin: u64, end: u64 },
    /// No location; the variable is in scope from the address with index
    /// `begin` for `end` bytes.
    Empty { begin: u64, end: u64 },
    /// The list number `list` among those that earlier rewrites produced.
    Rewritten { list: usize },
}

/// A record together with the scope it was found under: the index of the
/// low pc in the address table and the length in bytes, where known.
#[derive(Clone, Copy, Debug, PartialEq, Eq, Structural)]
pub struct ScopedRecord {
    pub record: LocationRecord,
    pub low_pc: Option<u64>,
    pub high_pc: Option<u64>,
}

/// The state of a walk that collects records: whether a scope is in
/// force, and the last low pc and high pc that an entry gave together.
#[derive(Clone, Copy, Debug, PartialEq, Eq, Structural)]
pub struct WalkScope {
    pub in_scope: bool,
    pub low_pc: Option<u64>,
    pub high_pc: Option<u64>,
}

/// The state before the first entry.
pub open spec fn walk_scope_start() -> WalkScope {
    WalkScope { in_scope: false, low_pc: None, high_pc: None }
}

/// The state after an entry: a low pc and high pc given together replace
/// the pair and open a scope; a range list opens a scope if it has ranges
/// and closes it if it has none.
pub open spec fn walk_scope_after(prev: WalkScope, die: DieRecord) -> WalkScope {
    let pair = die.low_pc.is_some() && die.high_pc.is_some();
    WalkScope {
        in_scope: if die.ranges.is_some() {
            die.ranges.unwrap()@.len() > 0
        } else {
            pair || prev.in_scope
        },
        low_pc: if pair {
            die.low_pc
        } else {
            prev.low_pc
        },
        high_pc: if pair {
            die.high_pc
        } else {
            prev.high_pc
        },
    }
}

/// The state before entry number `n` of the walk that begins at `start`.
pub open spec fn walk_scope_at(dies: Seq<DieRecord>, start: int, n: int) -> WalkScope
    decreases n,
{
    if n <= 0 {
        walk_scope_start()
    } else {
        walk_scope_after(walk_scope_at(dies, start, n - 1), dies[start + n - 1])
    }
}

/// The record that a named variable or parameter yields under the state
/// `after` that holds once its entry is taken in, if it yields one.
///
/// An entry with a location list that is not empty yields that list. Any
/// other entry yields a record only where a low pc and a high pc are known:
/// its single expression if it has one, else its constant value if it has
/// one, else an empty record.
pub open spec fn record_of(die: DieRecord, index: int, after: WalkScope) -> Option<ScopedRecord> {
    let listed = die.location matches LocationAttr::List(entries) && entries@.len() > 0;
    if listed {
        Some(
            ScopedRecord {
                record: LocationRecord::ReadLocList { die: index as usize },
                low_pc: after.low_pc,
                high_pc: after.high_pc,
            },
        )
    } else if after.low_pc.is_some() && after.high_pc.is_some() {
        let begin = after.low_pc.unwrap();
        let end = after.high_pc.unwrap();
        let record = if die.location is Expr {
            LocationRecord::ReadSingle { die: index as usize, begin, end }
        } else if die.const_value.is_some() {
            LocationRecord::ConstAttr { value: die.const_value.unwrap(), begin, end }
        } else {
            LocationRecord::Empty { begin, end }
        };
        Some(ScopedRecord { record, low_pc: after.low_pc, high_pc: after.high_pc })
    } else {
        None
    }
}

/// The records that the variables and parameters called `name` among the
/// first `n` entries of the walk from `start` yield, in walking order.
pub open spec fn records_of(dies: Seq<DieRecord>, start: int, n: int, name: Seq<u8>) -> Seq<
    ScopedRecord,
>
    decreases n,
{
    if n <= 0 {
        Seq::<ScopedRecord>::empty()
    } else {
        let index = start + n - 1;
        let earlier = records_of(dies, start, n - 1, name);
        let found = record_of(dies[index], index, walk_scope_at(dies, start, n));
        if dies[index].is_variable() && dies[index].is_named(name) && found.is_some() {
            earlier.push(found.unwrap())
        } else {
            earlier
        }
    }
}

/// Whether the variable called `name` was last seen outside any scope
/// among the first `n` entries of the walk, or `None` if no variable of
/// that name was seen.
pub open spec fn empty_scope_of(dies: Seq<DieRecord>, start: int, n: int, name: Seq<u8>) -> Option<
    bool,
>
    decreases n,
{
    if n <= 0 {
        None
    } else {
        let index = start + n - 1;
        if dies[index].is_variable() && dies[index].is_named(name) {
            Some(!walk_scope_at(dies, start, n - 1).in_scope)
        } else {
            empty_scope_of(dies, start, n - 1, name)
        }
    }
}

/// The records and scope flags of all variables of a function, by name.
#[derive(Clone, Debug)]
pub struct VarTable {
    names: Vec<Vec<u8>>,
    records: Vec<Vec<ScopedRecord>>,
    flags: Vec<Option<bool>>,
}

impl VarTable {
    /// The three vectors go together, and no name occurs twice.
    pub closed spec fn wf(&self) -> bool {
        &&& self.names@.len() == self.records@.len()
        &&& self.names@.len() == self.flags@.len()
        &&& forall|i: int, j: int|
            0 <= i < j < self.names@.len() ==> self.names@[i]@ != self.names@[j]@
    }

    /// Whether the table knows `name`.
    pub closed spec fn knows(&self, name: Seq<u8>) -> bool {
        exists|i: int| 0 <= i < self.names@.len() && #[trigger] self.names@[i]@ == name
    }

    /// Where `name` stands in the table.
    pub closed spec fn slot(&self, name: Seq<u8>) -> int {
        choose|i: int| 0 <= i < self.names@.len() && #[trigger] self.names@[i]@ == name
    }

    /// The records of `name`, oldest first; none for a name that the table
    /// does not know.
    pub closed spec fn records(&self, name: Seq<u8>) -> Seq<ScopedRecord> {
        if self.knows(name) {
            self.records@[self.slot(name)]@
        } else {
            Seq::<ScopedRecord>::empty()
        }
    }

    /// Whether `name` was last seen outside any scope, if it was seen as a
    /// variable at all.
    pub closed spec fn empty_scope(&self, name: Seq<u8>) -> Option<bool> {
        if self.knows(name) {
            self.flags@[self.slot(name)]
        } else {
            None
        }
    }

    proof fn slot_is(&self, i: int)
        requires
            self.wf(),
            0 <= i < self.names@.len(),
        ensures
            self.knows(self.names@[i]@),
            self.slot(self.names@[i]@) == i,
    {
        let name = self.names@[i]@;
        assert(self.names@[i]@ == name);
        let s = self.slot(name);
        if s < i {
            assert(self.names@[s]@ != self.names@[i]@);
        } else if i < s {
            assert(self.names@[i]@ != self.names@[s]@);
        }
    }

    /// A table that knows no name.
    pub fn new() -> (table: VarTable)
        ensures
            table.wf(),
            forall|name: Seq<u8>| #[trigger] table.records(name) == Seq::<ScopedRecord>::empty(),
            forall|name: Seq<u8>| (#[trigger] table.empty_scope(name)).is_none(),
    {
        VarTable { names: Vec::new(), records: Vec::new(), flags: Vec::new() }
    }

    fn find(&self, name: &[u8]) -> (r: Option<usize>)
        requires
            self.wf(),
        ensures
            r.is_some() == self.knows(name@),
            r matches Some(i) ==> i == self.slot(name@) && i < self.names@.len(),
    {
        let mut i: usize = 0;
        while i < self.names.len()
            invariant
                self.wf(),
                i <= self.names.len(),
                forall|k: int| 0 <= k < i ==> self.names@[k]@ != name@,
            decreases self.names.len() - i,
        {
            if bytes_eq(self.names[i].as_slice(), name) {
                proof {
                    self.slot_is(i as int);
                }
                return Some(i);
            }
            i += 1;
        }
        None
    }

    /// The slot of `name`, which is added with no records if the table
    /// does not know it yet.
    fn slot_for(&mut self, name: &[u8]) -> (i: usize)
        requires
            old(self).wf(),
        ensures
            final(self).wf(),
            i < final(self).names@.len(),
            final(self).knows(name@),
            i == final(self).slot(name@),
            final(self).records(name@) == old(self).records(name@),
            final(self).empty_scope(name@) == old(self).empty_scope(name@),
            forall|other: Seq<u8>|
                other != name@ ==> #[trigger] final(self).records(other) == old(self).records(other),
            forall|other: Seq<u8>|
                other != name@ ==> #[trigger] final(self).empty_scope(other) == old(
                    self,
                ).empty_scope(other),
    {
        match self.find(name) {
            Some(i) => i,
            None => {
                let ghost before = *self;
                let n: usize = self.names.len();
                self.names.push(crate::text::copy_range(name, 0, name.len()));
                self.records.push(Vec::new());
                self.flags.push(None);
                proof {
                    let after = *self;
                    assert(name@.subrange(0, name@.len() as int) =~= name@);
                    assert(after.names@[n as int]@ == name@);
                    assert forall|a: int, b: int|
                        0 <= a < b < after.names@.len() implies after.names@[a]@
                        != after.names@[b]@ by {
                        if b == n {
                            assert(before.names@[a]@ == after.names@[a]@);
                        } else {
                            assert(before.names@[a]@ != before.names@[b]@);
                        }
                    }
                    assert(after.wf());
                    after.slot_is(n as int);
                    assert(!before.knows(name@));
                    assert forall|other: Seq<u8>| other != name@ implies after.records(other)
                        == before.records(other) && after.empty_scope(other) == before.empty_scope(
                        other,
                    ) by {
                        if before.knows(other) {
                            let s = before.slot(other);
                            assert(after.names@[s]@ == other);
                            after.slot_is(s);
                        }
                        if after.knows(other) {
                            let s = after.slot(other);
                            assert(before.names@[s]@ == other);
                            before.slot_is(s);
                        }
                    }
                }
                n
            },
        }
    }

    /// Whether the table has a record for `name`.
    pub fn has_records(&self, name: &[u8]) -> (r: bool)
        requires
            self.wf(),
        ensures
            r == (self.records(name@).len() > 0),
    {
        match self.find(name) {
            Some(i) => self.records[i].len() > 0,
            None => false,
        }
    }

    /// The number of records of `name`.
    pub fn record_count(&self, name: &[u8]) -> (n: usize)
        requires
            self.wf(),
        ensures
            n == self.records(name@).len(),
    {
        match self.find(name) {
            Some(i) => self.records[i].len(),
            None => 0,
        }
    }

    /// The record number `k` of `name`.
    pub fn record(&self, name: &[u8], k: usize) -> (r: ScopedRecord)
        requires
            self.wf(),
            k < self.records(name@).len(),
        ensures
            r == self.records(name@)[k as int],
    {
        let i: usize = self.find(name).unwrap();
        self.records[i][k]
    }

    /// Whether `name` was last seen outside any scope.
    pub fn last_seen_outside_scope(&self, name: &[u8]) -> (r: Option<bool>)
        requires
            self.wf(),
        ensures
            r == self.empty_scope(name@),
    {
        match self.find(name) {
            Some(i) => self.flags[i],
            None => None,
        }
    }

    /// Adds `record` behind the records of `name`.
    pub fn push_record(&mut self, name: &[u8], record: ScopedRecord)
        requires
            old(self).wf(),
        ensures
            final(self).wf(),
            final(self).records(name@) == old(self).records(name@).push(record),
            final(self).empty_scope(name@) == old(self).empty_scope(name@),
            forall|other: Seq<u8>|
                other != name@ ==> #[trigger] final(self).records(other) == old(self).records(other),
            forall|other: Seq<u8>|
                other != name@ ==> #[trigger] final(self).empty_scope(other) == old(
                    self,
                ).empty_scope(other),
    {
        let i: usize = self.slot_for(name);
        let ghost mid = *self;
        let mut list: Vec<ScopedRecord> = Vec::new();
        std::mem::swap(&mut list, &mut self.records[i]);
        list.push(record);
        self.records.set(i, list);
        proof {
            self.same_names(mid, i as int);
        }
    }

    /// Takes record number `k` of `name` out of the table.
    pub fn remove_record(&mut self, name: &[u8], k: usize)
        requires
            old(self).wf(),
            k < old(self).records(name@).len(),
        ensures
            final(self).wf(),
            final(self).records(name@) == old(self).records(name@).remove(k as int),
            final(self).empty_scope(name@) == old(self).empty_scope(name@),
            forall|other: Seq<u8>|
                other != name@ ==> #[trigger] final(self).records(other) == old(self).records(other),
            forall|other: Seq<u8>|
                other != name@ ==> #[trigger] final(self).empty_scope(other) == old(
                    self,
                ).empty_scope(other),
    {
        let i: usize = self.slot_for(name);
        let ghost mid = *self;
        let mut list: Vec<ScopedRecord> = Vec::new();
        std::mem::swap(&mut list, &mut self.records[i]);
        list.remove(k);
        self.records.set(i, list);
        proof {
            self.same_names(mid, i as int);
        }
    }

    /// Notes whether the variable `name` was seen outside any scope.
    pub fn set_empty_scope(&mut self, name: &[u8], outside: bool)
        requires
            old(self).wf(),
        ensures
            final(self).wf(),
            final(self).records(name@) == old(self).records(name@),
            final(self).empty_scope(name@) == Some(outside),
            forall|other: Seq<u8>|
                other != name@ ==> #[trigger] final(self).records(other) == old(self).records(other),
            forall|other: Seq<u8>|
                other != name@ ==> #[trigger] final(self).empty_scope(other) == old(
                    self,
                ).empty_scope(other),
    {
        let i: usize = self.slot_for(name);
        let ghost mid = *self;
        self.flags.set(i, Some(outside));
        proof {
            self.same_names(mid, i as int);
        }
    }

    /// A table with the names of `mid` that differs from it in slot `i` at
    /// most is well formed and agrees with it on all other names.
    proof fn same_names(&self, mid: VarTable, i: int)
        requires
            mid.wf(),
            0 <= i < mid.names@.len(),
            self.names@ == mid.names@,
            self.records@.len() == mid.records@.len(),
            self.flags@.len() == mid.flags@.len(),
            forall|j: int|
                0 <= j < mid.names@.len() && j != i ==> self.records@[j] == mid.records@[j]
                    && self.flags@[j] == mid.flags@[j],
        ensures
            self.wf(),
            self.knows(mid.names@[i]@),
            self.slot(mid.names@[i]@) == i,
            self.records(mid.names@[i]@) == self.records@[i]@,
            self.empty_scope(mid.names@[i]@) == self.flags@[i],
            forall|other: Seq<u8>|
                other != mid.names@[i]@ ==> #[trigger] self.records(other) == mid.records(other),
            forall|other: Seq<u8>|
                other != mid.names@[i]@ ==> #[trigger] self.empty_scope(other) == mid.empty_scope(
                    other,
                ),
    {
        assert(self.wf());
        self.slot_is(i);
        assert forall|other: Seq<u8>| other != mid.names@[i]@ implies self.records(other)
            == mid.records(other) && self.empty_scope(other) == mid.empty_scope(other) by {
            assert(self.knows(other) == mid.knows(other));
            if mid.knows(other) {
                let s = mid.slot(other);
                mid.slot_is(s);
                self.slot_is(s);
            }
        }
    }
}

/// Executable form of [`walk_scope_after`].
pub fn advance_walk_scope(prev: WalkScope, die: &DieRecord) -> (next: WalkScope)
    ensures
        next == walk_scope_after(prev, *die),
{
    let pair = die.low_pc.is_some() && die.high_pc.is_some();
    let in_scope = match &die.ranges {
        Some(list) => list.len() > 0,
        None => pair || prev.in_scope,
    };
    if pair {
        WalkScope { in_scope, low_pc: die.low_pc, high_pc: die.high_pc }
    } else {
        WalkScope { in_scope, low_pc: prev.low_pc, high_pc: prev.high_pc }
    }
}

/// Executable form of [`record_of`].
pub fn make_record(die: &DieRecord, index: usize, after: WalkScope) -> (r: Option<ScopedRecord>)
    ensures
        r == record_of(*die, index as int, after),
{
    let listed = match &die.location {
        LocationAttr::List(entries) => entries.len() > 0,
        _ => false,
    };
    if listed {
        return Some(
            ScopedRecord {
                record: LocationRecord::ReadLocList { die: index },
                low_pc: after.low_pc,
                high_pc: after.high_pc,
            },
        );
    }
    match (after.low_pc, after.high_pc) {
        (Some(begin), Some(end)) => {
            let single = match &die.location {
                LocationAttr::Expr(_) => true,
                _ => false,
            };
            let record = if single {
                LocationRecord::ReadSingle { die: index, begin, end }
            } else {
                match die.const_value {
                    Some(value) => LocationRecord::ConstAttr { value, begin, end },
                    None => LocationRecord::Empty { begin, end },
                }
            };
            Some(ScopedRecord { record, low_pc: after.low_pc, high_pc: after.high_pc })
        },
        _ => None,
    }
}

/// Collects the records of the function whose entry stands at `start`.
///
/// The walk covers the function's entry and everything below it. Only
/// named variables and parameters are taken in: each may yield a record, and
/// each has it noted whether it was seen outside any scope.
pub fn read_existing_location_lists(dies: &Vec<DieRecord>, start: usize) -> (table: VarTable)
    requires
        start < dies@.len(),
    ensures
        table.wf(),
        forall|name: Seq<u8>|
            #[trigger] table.records(name) == records_of(
                dies@,
                start as int,
                walk_end(dies@, start as int) - start,
                name,
            ),
        forall|name: Seq<u8>|
            #[trigger] table.empty_scope(name) == empty_scope_of(
                dies@,
                start as int,
                walk_end(dies@, start as int) - start,
                name,
            ),
{
    let end: usize = subtree_end(dies, start);
    let mut table = VarTable::new();
    let mut scope = WalkScope { in_scope: false, low_pc: None, high_pc: None };
    let mut i: usize = start;
    while i < end
        invariant
            start <= i <= end <= dies@.len(),
            table.wf(),
            scope == walk_scope_at(dies@, start as int, i - start),
            forall|name: Seq<u8>|
                #[trigger] table.records(name) == records_of(dies@, start as int, i - start, name),
            forall|name: Seq<u8>|
                #[trigger] table.empty_scope(name) == empty_scope_of(
                    dies@,
                    start as int,
                    i - start,
                    name,
                ),
        decreases end - i,
    {
        let die = &dies[i];
        let next = advance_walk_scope(scope, die);
        if let Some(name) = &die.name {
            let ghost before = table;
            if die.describes_variable() {
                table.set_empty_scope(name.as_slice(), !scope.in_scope);
                if let Some(record) = make_record(die, i, next) {
                    table.push_record(name.as_slice(), record);
                }
            }
            proof {
                assert forall|other: Seq<u8>|
                    #[trigger] table.records(other) == records_of(
                        dies@,
                        start as int,
                        i - start + 1,
                        other,
                    ) by {
                    assert(before.records(other) == records_of(
                        dies@,
                        start as int,
                        i - start,
                        other,
                    ));
                }
                assert forall|other: Seq<u8>|
                    #[trigger] table.empty_scope(other) == empty_scope_of(
                        dies@,
                        start as int,
                        i - start + 1,
                        other,
                    ) by {
                    assert(before.empty_scope(other) == empty_scope_of(
                        dies@,
                        start as int,
                        i - start,
                        other,
                    ));
                }
            }
        }
        scope = next;
        i += 1;
    }
    table
}

} // verus!
