//! Carrying out one entry of a rewrite script: finding the variable,
//! choosing which of its records to edit, and splicing the new location in.

use vstd::prelude::*;
use crate::address::{get_addr, has_numeric_value, table_get, table_has, Address, AddressTable};
use crate::die::{DieRecord, DieTag, LocationAttr, LocationEntry};
use crate::record::{LocationRecord, ScopedRecord, VarTable};
use crate::splice::{all_resolvable, splice_list, spliced_with, ExprRef, Location, SpliceError};
use crate::text::{contains, has_infix, has_prefix, index_of, position_of, starts_with};
use crate::tree::{search_node, DieTree, Hit};
use vstd::slice::slice_subrange;
use vstd::string::StringSliceAdditionalSpecFns;

verus! {

/// Why an entry of the script could not be carried out.
#[derive(Clone, Copy, Debug, PartialEq, Eq, Structural)]
pub enum RewriteError {
    /// The range lies below the address that it is to be counted from.
    Underflow,
    /// The only record of the variable has no scope.
    NoScope,
    /// A record names an index that the address table or the unit does not
    /// have.
    BadIndex,
    /// An address that is needed as a number has no numeric value.
    UnresolvedAddress,
    /// The end of a location does not fit in 64 bits.
    Overflow,
    /// The range is empty or reversed, by itself or once it is cut down to
    /// the scope of the variable. Such a range shows a fault in the script
    /// or in the scopes that were collected: this error stands for giving
    /// the whole rewrite up, and whoever gets it is to stop and write
    /// nothing.
    EmptyRange,
    /// An end of the range is not written as a number.
    BadRange,
}

/// Why an entry of the script was passed over.
#[derive(Clone, Copy, Debug, PartialEq, Eq, Structural)]
pub enum SkipReason {
    /// The name does not stand for a variable of the source program.
    ExcludedName,
    /// The unit has no function of the wanted name.
    NoFunction,
    /// No record was collected under the variable's name.
    UnknownVariable,
    /// The function has no variable of that name whose scope fits the range.
    NoFittingVariable,
}

/// Whether a name of the script does not stand for a variable of the source
/// program: it holds a parenthesis or `phi`, or begins with `%`, `symbol`,
/// `input.dst.` or `input.src.`.
pub open spec fn is_excluded(name: Seq<u8>) -> bool {
    ||| has_infix(name, "(".spec_bytes())
    ||| has_infix(name, "phi".spec_bytes())
    ||| has_prefix(name, "symbol".spec_bytes())
    ||| has_prefix(name, "%".spec_bytes())
    ||| has_prefix(name, "input.dst.".spec_bytes())
    ||| has_prefix(name, "input.src.".spec_bytes())
}

/// Executable form of [`is_excluded`].
pub fn excluded(name: &[u8]) -> (r: bool)
    ensures
        r == is_excluded(name@),
{
    let paren = "(".as_bytes();
    let phi = "phi".as_bytes();
    proof {
        reveal_strlit("(");
        reveal_strlit("phi");
        nonempty_literal("(");
        nonempty_literal("phi");
    }
    contains(name, paren) || contains(name, phi)
        || starts_with(name, "symbol".as_bytes()) || starts_with(name, "%".as_bytes())
        || starts_with(name, "input.dst.".as_bytes()) || starts_with(
        name,
        "input.src.".as_bytes(),
    )
}

/// A string literal with at least one character has at least one byte.
proof fn nonempty_literal(s: &str)
    requires
        s@.len() > 0,
    ensures
        s.spec_bytes().len() > 0,
{
    vstd::utf8::encode_utf8_first_scalar(s@);
}

/// The name of the variable that a name of the script refers to: what
/// stands before the first dot.
pub open spec fn base_name(name: Seq<u8>) -> Seq<u8> {
    name.take(index_of(name, 0x2e))
}

/// The numeric value of the address with index `index`.
pub open spec fn index_value(table: Seq<Address>, index: u64) -> Result<u64, RewriteError> {
    if !table_has(table, index as int) {
        Err(RewriteError::BadIndex)
    } else if !table_get(table, index as int).has_value() {
        Err(RewriteError::UnresolvedAddress)
    } else {
        Ok(table_get(table, index as int).value() as u64)
    }
}

/// The address with index `index`, if the table has it.
fn address_at(table: &AddressTable, index: u64) -> (r: Option<Address>)
    ensures
        r.is_some() == table_has(table@, index as int),
        r matches Some(a) ==> a == table_get(table@, index as int),
{
    let len: usize = table.len();
    if index > len as u64 {
        return None;
    }
    table.lookup(index as usize)
}

/// Executable form of [`index_value`].
pub fn value_at(table: &AddressTable, index: u64) -> (r: Result<u64, RewriteError>)
    ensures
        r == index_value(table@, index),
{
    match address_at(table, index) {
        None => Err(RewriteError::BadIndex),
        Some(address) => {
            if has_numeric_value(address) {
                Ok(get_addr(address))
            } else {
                Err(RewriteError::UnresolvedAddress)
            }
        },
    }
}

/// The range of the script moved to the coordinates of the unit: both ends
/// are counted from `zero`.
pub open spec fn rebased(begin: Option<u64>, end: Option<u64>, zero: u64) -> Result<
    (u64, u64),
    RewriteError,
> {
    if begin.is_none() || end.is_none() {
        Err(RewriteError::BadRange)
    } else if begin.unwrap() < zero || end.unwrap() < zero {
        Err(RewriteError::Underflow)
    } else {
        Ok(((begin.unwrap() - zero) as u64, (end.unwrap() - zero) as u64))
    }
}

/// Executable form of [`rebased`].
pub fn rebase(begin: Option<u64>, end: Option<u64>, zero: u64) -> (r: Result<
    (u64, u64),
    RewriteError,
>)
    ensures
        r == rebased(begin, end, zero),
{
    match (begin, end) {
        (Some(b), Some(e)) => {
            if b < zero || e < zero {
                Err(RewriteError::Underflow)
            } else {
                Ok((b - zero, e - zero))
            }
        },
        _ => Err(RewriteError::BadRange),
    }
}

/// The address that the ranges of a script are counted from, once the
/// start of the function is taken off the script's zero address. The
/// function's low pc is given by its index in the address table.
pub open spec fn function_zero(table: Seq<Address>, zero: u64, func_low_pc: u64) -> Result<
    u64,
    RewriteError,
> {
    match index_value(table, func_low_pc) {
        Err(e) => Err(e),
        Ok(value) => if zero < value {
            Err(RewriteError::Underflow)
        } else {
            Ok((zero - value) as u64)
        },
    }
}

/// Executable form of [`function_zero`].
pub fn zero_for_function(table: &AddressTable, zero: u64, func_low_pc: u64) -> (r: Result<
    u64,
    RewriteError,
>)
    ensures
        r == function_zero(table@, zero, func_low_pc),
{
    match value_at(table, func_low_pc) {
        Err(e) => Err(e),
        Ok(value) => if zero < value {
            Err(RewriteError::Underflow)
        } else {
            Ok(zero - value)
        },
    }
}

/// The range `[start, end)` cut down to the scope of the only record of a
/// variable.
pub open spec fn clamped(table: Seq<Address>, only: ScopedRecord, start: u64, end: u64) -> Result<
    (u64, u64),
    RewriteError,
> {
    if only.low_pc.is_none() || only.high_pc.is_none() {
        Err(RewriteError::NoScope)
    } else {
        match index_value(table, only.low_pc.unwrap()) {
            Err(e) => Err(e),
            Ok(low) => {
                let s = if start < low {
                    low
                } else {
                    start
                };
                let e = if end > low + only.high_pc.unwrap() {
                    (low + only.high_pc.unwrap()) as u64
                } else {
                    end
                };
                if s < e {
                    Ok((s, e))
                } else {
                    Err(RewriteError::EmptyRange)
                }
            },
        }
    }
}

/// Executable form of [`clamped`].
pub fn clamp(table: &AddressTable, only: ScopedRecord, start: u64, end: u64) -> (r: Result<
    (u64, u64),
    RewriteError,
>)
    ensures
        r == clamped(table@, only, start, end),
{
    match (only.low_pc, only.high_pc) {
        (Some(low_index), Some(len)) => match value_at(table, low_index) {
            Err(e) => Err(e),
            Ok(low) => {
                let s: u64 = if start < low {
                    low
                } else {
                    start
                };
                let e: u64 = if end as u128 > low as u128 + len as u128 {
                    (low as u128 + len as u128) as u64
                } else {
                    end
                };
                if s < e {
                    Ok((s, e))
                } else {
                    Err(RewriteError::EmptyRange)
                }
            },
        },
        _ => Err(RewriteError::NoScope),
    }
}

/// A record that was chosen for editing: its position, the numeric value of
/// the low pc of its scope, and the length of the scope.
#[derive(Clone, Copy, Debug, PartialEq, Eq, Structural)]
pub struct Choice {
    pub position: usize,
    pub low: u64,
    pub len: u64,
}

/// The record chosen among the first `n` for the range `[start, end)`.
///
/// Only records whose scope is known and contains the range are
/// candidates. The candidate with the smallest scope is chosen, and of
/// several with a scope of that size the last one: the first candidate is
/// taken, and a later candidate takes its place if its scope is no larger.
pub open spec fn chosen(
    table: Seq<Address>,
    records: Seq<ScopedRecord>,
    start: u64,
    end: u64,
    n: int,
) -> Result<Option<Choice>, RewriteError>
    decreases n,
{
    if n <= 0 {
        Ok(None)
    } else {
        match chosen(table, records, start, end, n - 1) {
            Err(e) => Err(e),
            Ok(current) => {
                let record = records[n - 1];
                if record.low_pc.is_some() && record.high_pc.is_some() {
                    match index_value(table, record.low_pc.unwrap()) {
                        Err(e) => Err(e),
                        Ok(low) => {
                            let len = record.high_pc.unwrap();
                            let here = Choice { position: (n - 1) as usize, low, len };
                            if start >= low && end <= low + len {
                                match current {
                                    Some(c) => if len <= c.len {
                                        Ok(Some(here))
                                    } else {
                                        Ok(current)
                                    },
                                    None => Ok(Some(here)),
                                }
                            } else {
                                Ok(current)
                            }
                        },
                    }
                } else {
                    Ok(current)
                }
            },
        }
    }
}

/// Whether record number `j` is a candidate for the range `[start, end)`:
/// its scope is known and holds the range.
pub open spec fn is_candidate(
    table: Seq<Address>,
    records: Seq<ScopedRecord>,
    start: u64,
    end: u64,
    j: int,
) -> bool {
    &&& records[j].low_pc.is_some()
    &&& records[j].high_pc.is_some()
    &&& index_value(table, records[j].low_pc.unwrap()) matches Ok(low)
    &&& start >= low
    &&& end <= low + records[j].high_pc.unwrap()
}

/// The record that is chosen is a candidate, no candidate has a smaller
/// scope, and every candidate behind it has a larger one.
pub proof fn chosen_is_smallest(
    table: Seq<Address>,
    records: Seq<ScopedRecord>,
    start: u64,
    end: u64,
    n: int,
)
    requires
        0 <= n <= records.len(),
        n <= usize::MAX,
        chosen(table, records, start, end, n) matches Ok(Some(_)),
    ensures
        ({
            let c = chosen(table, records, start, end, n).unwrap().unwrap();
            &&& c.position < n
            &&& is_candidate(table, records, start, end, c.position as int)
            &&& records[c.position as int].high_pc == Some(c.len)
            &&& index_value(table, records[c.position as int].low_pc.unwrap()) == Ok::<
                u64,
                RewriteError,
            >(c.low)
            &&& forall|j: int|
                0 <= j < n && is_candidate(table, records, start, end, j) ==> c.len
                    <= (#[trigger] records[j]).high_pc.unwrap()
            &&& forall|j: int|
                c.position < j < n && is_candidate(table, records, start, end, j) ==> c.len
                    < (#[trigger] records[j]).high_pc.unwrap()
        }),
    decreases n,
{
    if n > 0 {
        let before = chosen(table, records, start, end, n - 1);
        if before matches Ok(Some(_)) {
            chosen_is_smallest(table, records, start, end, n - 1);
        } else {
            chosen_none_means_no_candidate(table, records, start, end, n - 1);
        }
    }
}

/// No record is chosen only where there is no candidate.
pub proof fn chosen_none_means_no_candidate(
    table: Seq<Address>,
    records: Seq<ScopedRecord>,
    start: u64,
    end: u64,
    n: int,
)
    requires
        0 <= n <= records.len(),
        chosen(table, records, start, end, n) == Ok::<Option<Choice>, RewriteError>(None),
    ensures
        forall|j: int| 0 <= j < n ==> !is_candidate(table, records, start, end, j),
    decreases n,
{
    if n > 0 {
        chosen_none_means_no_candidate(table, records, start, end, n - 1);
    }
}

/// Once choosing has failed, it stays failed with the same error.
proof fn chosen_fails_on(
    table: Seq<Address>,
    records: Seq<ScopedRecord>,
    start: u64,
    end: u64,
    k: int,
    n: int,
)
    requires
        0 <= k <= n,
        chosen(table, records, start, end, k).is_err(),
    ensures
        chosen(table, records, start, end, n) == chosen(table, records, start, end, k),
    decreases n - k,
{
    if k < n {
        chosen_fails_on(table, records, start, end, k, n - 1);
    }
}

/// Chooses the record of `name` to edit for the range `[start, end)`; see
/// [`chosen`].
pub fn choose_record(table: &AddressTable, vars: &VarTable, name: &[u8], start: u64, end: u64) -> (r:
    Result<Option<Choice>, RewriteError>)
    requires
        vars.wf(),
    ensures
        r == chosen(
            table@,
            vars.records(name@),
            start,
            end,
            vars.records(name@).len() as int,
        ),
{
    let n: usize = vars.record_count(name);
    let ghost records = vars.records(name@);
    let mut current: Option<Choice> = None;
    let mut i: usize = 0;
    while i < n
        invariant
            vars.wf(),
            records == vars.records(name@),
            n == records.len(),
            i <= n,
            chosen(table@, records, start, end, i as int) == Ok::<Option<Choice>, RewriteError>(
                current,
            ),
        decreases n - i,
    {
        let record = vars.record(name, i);
        if let (Some(low_index), Some(len)) = (record.low_pc, record.high_pc) {
            match value_at(table, low_index) {
                Err(e) => {
                    proof {
                        chosen_fails_on(table@, records, start, end, i as int + 1, n as int);
                    }
                    return Err(e);
                },
                Ok(low) => {
                    let here = Choice { position: i, low, len };
                    if start >= low && end as u128 <= low as u128 + len as u128 {
                        match current {
                            Some(c) => {
                                if len <= c.len {
                                    current = Some(here);
                                }
                            },
                            None => {
                                current = Some(here);
                            },
                        }
                    }
                },
            }
        }
        i += 1;
    }
    Ok(current)
}

/// The locations of the first `n` entries of a location list as read,
/// where `unit_low_pc` is taken off both ends of each entry to get the
/// indices of its addresses.
pub open spec fn list_locations(
    table: Seq<Address>,
    entries: Seq<LocationEntry>,
    die: usize,
    unit_low_pc: u64,
    n: int,
) -> Result<Seq<Location>, RewriteError>
    decreases n,
{
    if n <= 0 {
        Ok(Seq::<Location>::empty())
    } else {
        match list_locations(table, entries, die, unit_low_pc, n - 1) {
            Err(e) => Err(e),
            Ok(list) => {
                let entry = entries[n - 1];
                if entry.begin < unit_low_pc || entry.end < unit_low_pc {
                    Err(RewriteError::Underflow)
                } else if !table_has(table, entry.begin - unit_low_pc) || !table_has(
                    table,
                    entry.end - unit_low_pc,
                ) {
                    Err(RewriteError::BadIndex)
                } else {
                    Ok(
                        list.push(
                            Location {
                                begin: table_get(table, entry.begin - unit_low_pc),
                                end: table_get(table, entry.end - unit_low_pc),
                                expr: ExprRef::Read { die, entry: (n - 1) as usize },
                            },
                        ),
                    )
                }
            },
        }
    }
}

/// Once converting a list has failed, it stays failed with the same error.
proof fn list_locations_fail_on(
    table: Seq<Address>,
    entries: Seq<LocationEntry>,
    die: usize,
    unit_low_pc: u64,
    k: int,
    n: int,
)
    requires
        0 <= k <= n,
        list_locations(table, entries, die, unit_low_pc, k).is_err(),
    ensures
        list_locations(table, entries, die, unit_low_pc, n) == list_locations(
            table,
            entries,
            die,
            unit_low_pc,
            k,
        ),
    decreases n - k,
{
    if k < n {
        list_locations_fail_on(table, entries, die, unit_low_pc, k, n - 1);
    }
}

/// The location of a record that holds one expression over a scope: from
/// the address with index `begin` for `len` bytes.
pub open spec fn single_location(table: Seq<Address>, begin: u64, len: u64, expr: ExprRef) -> Result<
    Seq<Location>,
    RewriteError,
> {
    match index_value(table, begin) {
        Err(e) => Err(e),
        Ok(low) => if low + len > u64::MAX {
            Err(RewriteError::Overflow)
        } else {
            Ok(
                seq![
                    Location {
                        begin: table_get(table, begin as int),
                        end: Address::Constant((low + len) as u64),
                        expr,
                    },
                ],
            )
        },
    }
}

/// The locations that `record` stands for.
pub open spec fn record_locations(
    table: Seq<Address>,
    dies: Seq<DieRecord>,
    lists: Seq<Seq<Location>>,
    unit_low_pc: u64,
    record: LocationRecord,
) -> Result<Seq<Location>, RewriteError> {
    match record {
        LocationRecord::ReadLocList { die } => if die < dies.len() {
            match dies[die as int].location {
                LocationAttr::List(entries) => list_locations(
                    table,
                    entries@,
                    die,
                    unit_low_pc,
                    entries@.len() as int,
                ),
                _ => Err(RewriteError::BadIndex),
            }
        } else {
            Err(RewriteError::BadIndex)
        },
        LocationRecord::ReadSingle { die, begin, end } => single_location(
            table,
            begin,
            end,
            ExprRef::Read { die, entry: 0 },
        ),
        LocationRecord::ConstAttr { value, begin, end } => single_location(
            table,
            begin,
            end,
            ExprRef::Const(value),
        ),
        LocationRecord::Empty { .. } => Ok(Seq::<Location>::empty()),
        LocationRecord::Rewritten { list } => if list < lists.len() {
            Ok(lists[list as int])
        } else {
            Err(RewriteError::BadIndex)
        },
    }
}

/// Executable form of [`list_locations`].
fn locations_of_list(
    table: &AddressTable,
    entries: &Vec<LocationEntry>,
    die: usize,
    unit_low_pc: u64,
) -> (r: Result<Vec<Location>, RewriteError>)
    ensures
        match list_locations(table@, entries@, die, unit_low_pc, entries@.len() as int) {
            Ok(list) => r.is_ok() && r.unwrap()@ == list,
            Err(e) => r matches Err(got) && got == e,
        },
{
    let mut out: Vec<Location> = Vec::new();
    let mut k: usize = 0;
    while k < entries.len()
        invariant
            k <= entries.len(),
            list_locations(table@, entries@, die, unit_low_pc, k as int) == Ok::<
                Seq<Location>,
                RewriteError,
            >(out@),
        decreases entries.len() - k,
    {
        let entry = &entries[k];
        if entry.begin < unit_low_pc || entry.end < unit_low_pc {
            proof {
                list_locations_fail_on(
                    table@,
                    entries@,
                    die,
                    unit_low_pc,
                    k as int + 1,
                    entries@.len() as int,
                );
            }
            return Err(RewriteError::Underflow);
        }
        let begin = address_at(table, entry.begin - unit_low_pc);
        let end = address_at(table, entry.end - unit_low_pc);
        match (begin, end) {
            (Some(b), Some(e)) => {
                out.push(Location { begin: b, end: e, expr: ExprRef::Read { die, entry: k } });
            },
            _ => {
                proof {
                    list_locations_fail_on(
                        table@,
                        entries@,
                        die,
                        unit_low_pc,
                        k as int + 1,
                        entries@.len() as int,
                    );
                }
                return Err(RewriteError::BadIndex);
            },
        }
        k += 1;
    }
    Ok(out)
}

/// Executable form of [`single_location`].
fn location_of_single(table: &AddressTable, begin: u64, len: u64, expr: ExprRef) -> (r: Result<
    Vec<Location>,
    RewriteError,
>)
    ensures
        match single_location(table@, begin, len, expr) {
            Ok(list) => r.is_ok() && r.unwrap()@ == list,
            Err(e) => r matches Err(got) && got == e,
        },
{
    match value_at(table, begin) {
        Err(e) => Err(e),
        Ok(low) => {
            if len > u64::MAX - low {
                return Err(RewriteError::Overflow);
            }
            let address = address_at(table, begin).unwrap();
            let mut out: Vec<Location> = Vec::new();
            out.push(Location { begin: address, end: Address::Constant(low + len), expr });
            assert(out@ =~= seq![
                Location {
                    begin: table_get(table@, begin as int),
                    end: Address::Constant((low + len) as u64),
                    expr,
                },
            ]);
            Ok(out)
        },
    }
}

/// A copy of `list`.
fn copy_locations(list: &Vec<Location>) -> (out: Vec<Location>)
    ensures
        out@ == list@,
{
    let mut out: Vec<Location> = Vec::new();
    let mut k: usize = 0;
    while k < list.len()
        invariant
            k <= list.len(),
            out@ == list@.subrange(0, k as int),
        decreases list.len() - k,
    {
        out.push(list[k]);
        assert(list@.subrange(0, k as int + 1) =~= list@.subrange(0, k as int).push(list@[k as int]));
        k += 1;
    }
    assert(list@.subrange(0, k as int) =~= list@);
    out
}

/// The lists that `lists` holds.
pub open spec fn list_views(lists: Seq<Vec<Location>>) -> Seq<Seq<Location>> {
    lists.map_values(|list: Vec<Location>| list@)
}

/// What a rewrite has built up so far.
#[derive(Clone, Debug)]
pub struct RewriteState {
    /// The records of every variable.
    pub vars: VarTable,
    /// The location lists that rewrites have produced, in order.
    pub lists: Vec<Vec<Location>>,
}

/// What is to be done to the tree after an entry of the script was
/// carried out.
#[derive(Clone, Copy, Debug, PartialEq, Eq, Structural)]
pub struct Edit {
    /// Position of the variable's node, whose location attribute is to
    /// refer to the new list.
    pub var: usize,
    /// Position of the parent of the variable's node.
    pub parent: usize,
    /// Number of the new list among the lists of the state.
    pub list: usize,
    /// Whether the constant-value attribute of the variable is to go.
    pub delete_const_value: bool,
    /// Whether the range-list attribute of the parent is to go.
    pub delete_parent_ranges: bool,
}

/// How an entry of the script ended.
#[derive(Clone, Copy, Debug, PartialEq, Eq, Structural)]
pub enum Outcome {
    Skipped(SkipReason),
    Edited(Edit),
}

/// What carrying out an entry of the script comes to, before anything is
/// changed.
pub enum Plan {
    Skip(SkipReason),
    Go {
        /// The variable that was found.
        hit: Hit,
        /// The record that is edited, if one was chosen.
        choice: Option<Choice>,
        /// The new location list.
        list: Seq<Location>,
        /// Whether the edited record stood for a constant value.
        was_const: bool,
        /// Whether the range list of the parent is to go.
        drop_ranges: bool,
    },
}

/// The error of this module that stands for an error of a splice.
pub open spec fn splice_error(e: SpliceError) -> RewriteError {
    match e {
        SpliceError::EmptyRange => RewriteError::EmptyRange,
        SpliceError::UnresolvedAddress => RewriteError::UnresolvedAddress,
    }
}

/// The last steps of a plan, once the variable is found and the range
/// `[start, end)` is settled: choose a record, take its locations, and
/// splice the new range in.
pub open spec fn planned_splice(
    table: Seq<Address>,
    dies: Seq<DieRecord>,
    lists: Seq<Seq<Location>>,
    nodes: Seq<crate::tree::TreeNode>,
    records: Seq<ScopedRecord>,
    outside_scope: Option<bool>,
    unit_low_pc: u64,
    hit: Hit,
    start: u64,
    end: u64,
    entry: usize,
) -> Result<Plan, RewriteError> {
    match chosen(table, records, start, end, records.len() as int) {
        Err(e) => Err(e),
        Ok(choice) => {
            let existing = match choice {
                Some(c) => record_locations(
                    table,
                    dies,
                    lists,
                    unit_low_pc,
                    records[c.position as int].record,
                ),
                None => Ok(Seq::<Location>::empty()),
            };
            match existing {
                Err(e) => Err(e),
                Ok(old) => if start >= end {
                    Err(RewriteError::EmptyRange)
                } else if !all_resolvable(old) {
                    Err(RewriteError::UnresolvedAddress)
                } else {
                    Ok(
                        Plan::Go {
                            hit,
                            choice,
                            list: spliced_with(old, start, end, ExprRef::Script { entry }),
                            was_const: choice.is_some()
                                && records[choice.unwrap().position as int].record is ConstAttr,
                            drop_ranges: outside_scope == Some(true) && hit.parent < nodes.len()
                                && nodes[hit.parent as int].tag == DieTag::LexicalBlock,
                        },
                    )
                },
            }
        },
    }
}

/// What carrying out one entry of the script comes to.
///
/// The entry names a variable `name` and the range `[begin, end)`; `func`
/// is the position of the function in the tree, if the unit has it, and
/// `zero` the address that the range is counted from. `records` and
/// `outside_scope` are what is known of the variable that the name refers
/// to.
pub open spec fn planned(
    table: Seq<Address>,
    dies: Seq<DieRecord>,
    lists: Seq<Seq<Location>>,
    nodes: Seq<crate::tree::TreeNode>,
    records: Seq<ScopedRecord>,
    outside_scope: Option<bool>,
    func: Option<usize>,
    unit_low_pc: u64,
    zero: u64,
    name: Seq<u8>,
    begin: Option<u64>,
    end: Option<u64>,
    entry: usize,
) -> Result<Plan, RewriteError> {
    if is_excluded(name) {
        Ok(Plan::Skip(SkipReason::ExcludedName))
    } else if func.is_none() {
        Ok(Plan::Skip(SkipReason::NoFunction))
    } else {
        match rebased(begin, end, zero) {
            Err(e) => Err(e),
            Ok((s, e)) => if records.len() == 0 {
                Ok(Plan::Skip(SkipReason::UnknownVariable))
            } else {
                let single = records.len() == 1;
                let f = func.unwrap() as int;
                match search_node(
                    nodes,
                    f,
                    0,
                    base_name(name),
                    s,
                    e,
                    (nodes[f].low_pc, nodes[f].high_pc),
                    single,
                ) {
                    None => Ok(Plan::Skip(SkipReason::NoFittingVariable)),
                    Some(hit) => {
                        let range = if single {
                            clamped(table, records[0], s, e)
                        } else {
                            Ok((s, e))
                        };
                        match range {
                            Err(err) => Err(err),
                            Ok((s2, e2)) => planned_splice(
                                table,
                                dies,
                                lists,
                                nodes,
                                records,
                                outside_scope,
                                unit_low_pc,
                                hit,
                                s2,
                                e2,
                                entry,
                            ),
                        }
                    },
                }
            },
        }
    }
}

/// The records of a variable after a record was edited: the chosen record
/// is gone, and a record for the new list stands last, under the scope of
/// the chosen record.
pub open spec fn edited_records(records: Seq<ScopedRecord>, choice: Option<Choice>, list: usize) -> Seq<
    ScopedRecord,
> {
    match choice {
        Some(c) => records.remove(c.position as int).push(
            ScopedRecord {
                record: LocationRecord::Rewritten { list },
                low_pc: records[c.position as int].low_pc,
                high_pc: records[c.position as int].high_pc,
            },
        ),
        None => records.push(
            ScopedRecord { record: LocationRecord::Rewritten { list }, low_pc: None, high_pc: None },
        ),
    }
}

/// Carries out one entry of the script; see [`planned`].
///
/// Where the entry is skipped or fails, the state stays as it is. Where it
/// is carried out, the new list is added to the lists of the state, the
/// chosen record makes way for a record of the new list, and the result
/// says what is to be done to the tree.
pub fn rewrite_entry(
    state: &mut RewriteState,
    table: &AddressTable,
    dies: &Vec<DieRecord>,
    tree: &DieTree,
    func: Option<usize>,
    unit_low_pc: u64,
    zero: u64,
    name: &[u8],
    begin: Option<u64>,
    end: Option<u64>,
    entry: usize,
) -> (r: Result<Outcome, RewriteError>)
    requires
        old(state).vars.wf(),
        tree.wf(),
        func matches Some(f) ==> f < tree.nodes@.len(),
    ensures
        final(state).vars.wf(),
        match planned(
            table@,
            dies@,
            list_views(old(state).lists@),
            tree.nodes@,
            old(state).vars.records(base_name(name@)),
            old(state).vars.empty_scope(base_name(name@)),
            func,
            unit_low_pc,
            zero,
            name@,
            begin,
            end,
            entry,
        ) {
            Err(e) => r == Err::<Outcome, RewriteError>(e) && *final(state) == *old(state),
            Ok(Plan::Skip(reason)) => r == Ok::<Outcome, RewriteError>(Outcome::Skipped(reason))
                && *final(state) == *old(state),
            Ok(Plan::Go { hit, choice, list, was_const, drop_ranges }) => {
                &&& r == Ok::<Outcome, RewriteError>(
                    Outcome::Edited(
                        Edit {
                            var: hit.var,
                            parent: hit.parent,
                            list: old(state).lists@.len() as usize,
                            delete_const_value: was_const,
                            delete_parent_ranges: drop_ranges,
                        },
                    ),
                )
                &&& list_views(final(state).lists@) == list_views(old(state).lists@).push(list)
                &&& final(state).vars.records(base_name(name@)) == edited_records(
                    old(state).vars.records(base_name(name@)),
                    choice,
                    old(state).lists@.len() as usize,
                )
                &&& final(state).vars.empty_scope(base_name(name@)) == old(state).vars.empty_scope(
                    base_name(name@),
                )
                &&& forall|other: Seq<u8>|
                    other != base_name(name@) ==> #[trigger] final(state).vars.records(other)
                        == old(state).vars.records(other)
                &&& forall|other: Seq<u8>|
                    other != base_name(name@) ==> #[trigger] final(state).vars.empty_scope(other)
                        == old(state).vars.empty_scope(other)
            },
        },
{
    proof {
        reveal(planned);
    }
    if excluded(name) {
        return Ok(Outcome::Skipped(SkipReason::ExcludedName));
    }
    let func_id: usize = match func {
        Some(f) => f,
        None => {
            return Ok(Outcome::Skipped(SkipReason::NoFunction));
        },
    };
    let (s, e) = match rebase(begin, end, zero) {
        Ok(range) => range,
        Err(err) => {
            return Err(err);
        },
    };
    let base = slice_subrange(name, 0, position_of(name, 0x2e));
    assert(base@ =~= base_name(name@));
    if !state.vars.has_records(base) {
        return Ok(Outcome::Skipped(SkipReason::UnknownVariable));
    }
    let single = state.vars.record_count(base) == 1;
    let hit = match tree.get_var(func_id, base, (s, e), single) {
        Some(hit) => hit,
        None => {
            return Ok(Outcome::Skipped(SkipReason::NoFittingVariable));
        },
    };
    let (start, stop) = if single {
        match clamp(table, state.vars.record(base, 0), s, e) {
            Ok(range) => range,
            Err(err) => {
                return Err(err);
            },
        }
    } else {
        (s, e)
    };
    let choice = match choose_record(table, &state.vars, base, start, stop) {
        Ok(choice) => choice,
        Err(err) => {
            return Err(err);
        },
    };
    let ghost records = state.vars.records(base@);
    let mut was_const = false;
    let mut low_pc: Option<u64> = None;
    let mut high_pc: Option<u64> = None;
    let existing: Vec<Location> = match choice {
        Some(c) => {
            proof {
                chosen_is_smallest(table@, records, start, stop, records.len() as int);
            }
            let scoped = state.vars.record(base, c.position);
            was_const = match scoped.record {
                LocationRecord::ConstAttr { .. } => true,
                _ => false,
            };
            low_pc = scoped.low_pc;
            high_pc = scoped.high_pc;
            match locations_of(table, dies, &state.lists, unit_low_pc, scoped.record) {
                Ok(list) => list,
                Err(err) => {
                    return Err(err);
                },
            }
        },
        None => Vec::new(),
    };
    let list = match splice_list(&existing, start, stop, ExprRef::Script { entry }) {
        Ok(list) => list,
        Err(SpliceError::EmptyRange) => {
            return Err(RewriteError::EmptyRange);
        },
        Err(SpliceError::UnresolvedAddress) => {
            return Err(RewriteError::UnresolvedAddress);
        },
    };
    let outside = state.vars.last_seen_outside_scope(base);
    let drop_ranges = match outside {
        Some(true) => hit.parent < tree.nodes.len() && (match tree.nodes[hit.parent].tag {
            DieTag::LexicalBlock => true,
            _ => false,
        }),
        _ => false,
    };
    let number: usize = state.lists.len();
    let ghost new_list = list@;
    state.lists.push(list);
    assert(list_views(state.lists@) =~= list_views(old(state).lists@).push(new_list));
    if let Some(c) = choice {
        state.vars.remove_record(base, c.position);
    }
    state.vars.push_record(
        base,
        ScopedRecord { record: LocationRecord::Rewritten { list: number }, low_pc, high_pc },
    );
    Ok(
        Outcome::Edited(
            Edit {
                var: hit.var,
                parent: hit.parent,
                list: number,
                delete_const_value: was_const,
                delete_parent_ranges: drop_ranges,
            },
        ),
    )
}

/// The locations that `record` stands for; see [`record_locations`].
pub fn locations_of(
    table: &AddressTable,
    dies: &Vec<DieRecord>,
    lists: &Vec<Vec<Location>>,
    unit_low_pc: u64,
    record: LocationRecord,
) -> (r: Result<Vec<Location>, RewriteError>)
    ensures
        match record_locations(table@, dies@, list_views(lists@), unit_low_pc, record) {
            Ok(list) => r.is_ok() && r.unwrap()@ == list,
            Err(e) => r matches Err(got) && got == e,
        },
{
    match record {
        LocationRecord::ReadLocList { die } => {
            if die < dies.len() {
                match &dies[die].location {
                    LocationAttr::List(entries) => locations_of_list(table, entries, die, unit_low_pc),
                    _ => Err(RewriteError::BadIndex),
                }
            } else {
                Err(RewriteError::BadIndex)
            }
        },
        LocationRecord::ReadSingle { die, begin, end } => location_of_single(
            table,
            begin,
            end,
            ExprRef::Read { die, entry: 0 },
        ),
        LocationRecord::ConstAttr { value, begin, end } => location_of_single(
            table,
            begin,
            end,
            ExprRef::Const(value),
        ),
        LocationRecord::Empty { .. } => Ok(Vec::new()),
        LocationRecord::Rewritten { list } => {
            if list < lists.len() {
                Ok(copy_locations(&lists[list]))
            } else {
                Err(RewriteError::BadIndex)
            }
        },
    }
}

} // verus!
