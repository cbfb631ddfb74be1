//! The debug-information entries of one compilation unit, as far as
//! variable locations are concerned, and the scope that governs each.
//!
//! A unit is handed over as the sequence of its entries in depth-first
//! order. Each entry carries the change of depth that led to it: 0 for the
//! first entry and for a sibling, 1 for a first child, a negative number when
//! the walk climbs back up.

use vstd::prelude::*;
use crate::text::bytes_eq;

verus! {

/// The kinds of entry that matter here.
#[derive(Clone, Copy, Debug, PartialEq, Eq, Structural)]
pub enum DieTag {
    Subprogram,
    Variable,
    FormalParameter,
    LexicalBlock,
    Other,
}

/// One entry of a location list as it stands in the file.
#[derive(Clone, Debug, PartialEq, Eq)]
pub struct LocationEntry {
    pub begin: u64,
    pub end: u64,
    /// The encoded expression.
    pub expr: Vec<u8>,
}

/// The location attribute of an entry.
#[derive(Clone, Debug, PartialEq, Eq)]
pub enum LocationAttr {
    /// The entry has no location attribute.
    Absent,
    /// A reference to a location list, with the entries of that list.
    List(Vec<LocationEntry>),
    /// A single encoded expression.
    Expr(Vec<u8>),
    /// A location attribute of a form that is not handled.
    Unsupported,
}

/// One debug-information entry.
#[derive(Clone, Debug, PartialEq, Eq)]
pub struct DieRecord {
    /// Change of depth from the entry before.
    pub delta: i64,
    pub tag: DieTag,
    /// The name, where the entry has one in a supported form.
    pub name: Option<Vec<u8>>,
    /// The low pc, where it is given as an address.
    pub low_pc: Option<u64>,
    /// The high pc, where it is given as an offset from the low pc.
    pub high_pc: Option<u64>,
    /// The entries of the range list, where the entry refers to one.
    pub ranges: Option<Vec<(u64, u64)>>,
    pub location: LocationAttr,
    /// The constant value, where the entry has one.
    pub const_value: Option<i64>,
}

impl DieRecord {
    /// Whether the entry describes a variable or a parameter.
    pub open spec fn is_variable(&self) -> bool {
        self.tag == DieTag::Variable || self.tag == DieTag::FormalParameter
    }

    /// Executable form of [`DieRecord::is_variable`].
    pub fn describes_variable(&self) -> (r: bool)
        ensures
            r == self.is_variable(),
    {
        match self.tag {
            DieTag::Variable => true,
            DieTag::FormalParameter => true,
            _ => false,
        }
    }

    /// Whether the entry is called `name`.
    pub open spec fn is_named(&self, name: Seq<u8>) -> bool {
        self.name.is_some() && self.name.unwrap()@ == name
    }

    /// Executable form of [`DieRecord::is_named`].
    pub fn has_name(&self, name: &[u8]) -> (r: bool)
        ensures
            r == self.is_named(name@),
    {
        match &self.name {
            Some(own) => bytes_eq(own.as_slice(), name),
            None => false,
        }
    }
}

/// The scope in force at some point of a walk: the last scope that an entry
/// declared, which holds until another entry declares its own.
#[derive(Clone, Copy, Debug, PartialEq, Eq, Structural)]
pub enum Scope {
    /// No scope: none was declared yet, or the last declaration was an empty
    /// range list.
    Empty,
    /// The single range `[begin, end)`.
    Range { begin: u64, end: u64 },
    /// The range list of the entry at index `die`, which is not empty.
    ListOf { die: usize },
}

/// The ranges that `scope` stands for.
pub open spec fn scope_ranges(dies: Seq<DieRecord>, scope: Scope) -> Seq<(u64, u64)> {
    match scope {
        Scope::Empty => Seq::<(u64, u64)>::empty(),
        Scope::Range { begin, end } => seq![(begin, end)],
        Scope::ListOf { die } => if 0 <= die < dies.len() && dies[die as int].ranges.is_some() {
            dies[die as int].ranges.unwrap()@
        } else {
            Seq::<(u64, u64)>::empty()
        },
    }
}

/// Whether `scope` refers to ranges that `dies` holds.
pub open spec fn scope_valid(dies: Seq<DieRecord>, scope: Scope) -> bool {
    scope matches Scope::ListOf { die } ==> die < dies.len() && dies[die as int].ranges.is_some()
        && dies[die as int].ranges.unwrap()@.len() > 0
}

/// Whether `pc` lies in one of `ranges`.
pub open spec fn in_ranges(ranges: Seq<(u64, u64)>, pc: u64) -> bool {
    exists|k: int| 0 <= k < ranges.len() && (#[trigger] ranges[k]).0 <= pc < ranges[k].1
}

/// Executable form of [`in_ranges`].
pub fn ranges_contain(ranges: &[(u64, u64)], pc: u64) -> (r: bool)
    ensures
        r == in_ranges(ranges@, pc),
{
    let mut k: usize = 0;
    while k < ranges.len()
        invariant
            k <= ranges.len(),
            forall|j: int| 0 <= j < k ==> !((#[trigger] ranges@[j]).0 <= pc < ranges@[j].1),
        decreases ranges.len() - k,
    {
        if ranges[k].0 <= pc && pc < ranges[k].1 {
            return true;
        }
        k += 1;
    }
    false
}

/// What walking past an entry does to the scope, or `None` where the end
/// of the entry's own range does not fit in 64 bits.
///
/// An entry with both a low pc and a high pc declares the single range that
/// begins at the low pc and is as long as the high pc says. An entry with a
/// range list declares that list, an empty list meaning no scope; the list
/// wins over the pair. Any other entry leaves the scope as it is.
pub open spec fn scope_after(prev: Scope, dies: Seq<DieRecord>, index: int) -> Option<Scope> {
    let die = dies[index];
    if die.low_pc.is_some() && die.high_pc.is_some() && die.low_pc.unwrap() + die.high_pc.unwrap()
        > u64::MAX {
        None
    } else if die.ranges.is_some() {
        if die.ranges.unwrap()@.len() == 0 {
            Some(Scope::Empty)
        } else {
            Some(Scope::ListOf { die: index as usize })
        }
    } else if die.low_pc.is_some() && die.high_pc.is_some() {
        Some(
            Scope::Range {
                begin: die.low_pc.unwrap(),
                end: (die.low_pc.unwrap() + die.high_pc.unwrap()) as u64,
            },
        )
    } else {
        Some(prev)
    }
}

/// Executable form of [`scope_after`].
pub fn advance_scope(prev: Scope, dies: &Vec<DieRecord>, index: usize) -> (r: Option<Scope>)
    requires
        index < dies@.len(),
        scope_valid(dies@, prev),
    ensures
        r == scope_after(prev, dies@, index as int),
        r matches Some(next) ==> scope_valid(dies@, next),
{
    let die = &dies[index];
    let pair: Option<(u64, u64)> = match (die.low_pc, die.high_pc) {
        (Some(low), Some(high)) => {
            if high > u64::MAX - low {
                return None;
            }
            Some((low, low + high))
        },
        _ => None,
    };
    match &die.ranges {
        Some(list) => {
            if list.len() == 0 {
                Some(Scope::Empty)
            } else {
                Some(Scope::ListOf { die: index })
            }
        },
        None => match pair {
            Some((begin, end)) => Some(Scope::Range { begin, end }),
            None => Some(prev),
        },
    }
}

/// Whether `pc` lies in `scope`.
pub fn scope_contains(dies: &Vec<DieRecord>, scope: Scope, pc: u64) -> (r: bool)
    requires
        scope_valid(dies@, scope),
    ensures
        r == in_ranges(scope_ranges(dies@, scope), pc),
{
    match scope {
        Scope::Empty => false,
        Scope::Range { begin, end } => {
            let r = begin <= pc && pc < end;
            proof {
                let ranges = scope_ranges(dies@, scope);
                if r {
                    assert(ranges[0].0 <= pc < ranges[0].1);
                }
            }
            r
        },
        Scope::ListOf { die } => {
            match &dies[die].ranges {
                Some(list) => ranges_contain(list.as_slice(), pc),
                None => false,
            }
        },
    }
}

/// The depth of the entry at `index` below the first entry of `dies`.
pub open spec fn depth_at(dies: Seq<DieRecord>, index: int) -> int
    decreases index,
{
    if index <= 0 {
        0
    } else {
        depth_at(dies, index - 1) + dies[index].delta
    }
}

/// Whether the entry at `index` is a function called `name` directly below
/// the root.
pub open spec fn is_function_at(dies: Seq<DieRecord>, name: Seq<u8>, index: int) -> bool {
    0 <= index < dies.len() && depth_at(dies, index) == 1 && dies[index].tag == DieTag::Subprogram
        && dies[index].is_named(name)
}

/// Whether `index` is where the function called `name` is found: the first
/// entry that is a function of that name directly below the root.
pub open spec fn found_at(dies: Seq<DieRecord>, name: Seq<u8>, index: int) -> bool {
    is_function_at(dies, name, index) && forall|k: int|
        0 <= k < index ==> !is_function_at(dies, name, k)
}

/// Where a function was found, and the range it declares.
#[derive(Clone, Copy, Debug, PartialEq, Eq, Structural)]
pub struct FunctionEntry {
    /// Index of the function's entry in the unit.
    pub index: usize,
    /// The function's low pc, where given as an address.
    pub low_pc: Option<u64>,
    /// The function's high pc, where given as an offset.
    pub high_pc: Option<u64>,
}

/// Finds the function called `func_name` among the children of the root of
/// the unit `dies`: the first entry in walking order that is a subprogram
/// directly below the root and has that name.
pub fn get_func_entry_offset(dies: &Vec<DieRecord>, func_name: &[u8]) -> (r: Option<FunctionEntry>)
    ensures
        r matches Some(found) ==> found_at(dies@, func_name@, found.index as int) && found.low_pc
            == dies@[found.index as int].low_pc && found.high_pc
            == dies@[found.index as int].high_pc,
        r.is_none() ==> forall|k: int| !is_function_at(dies@, func_name@, k),
{
    let mut i: usize = 0;
    let mut depth: i128 = 0;
    while i < dies.len()
        invariant
            i <= dies.len(),
            i > 0 ==> depth == depth_at(dies@, i as int - 1),
            i == 0 ==> depth == 0,
            -(i as int) * 0x8000_0000_0000_0000 <= depth <= (i as int) * 0x8000_0000_0000_0000,
            forall|k: int| 0 <= k < i ==> !is_function_at(dies@, func_name@, k),
        decreases dies.len() - i,
    {
        if i > 0 {
            depth = depth + dies[i].delta as i128;
        }
        assert(depth == depth_at(dies@, i as int));
        if depth == 1 {
            if let DieTag::Subprogram = dies[i].tag {
                if dies[i].has_name(func_name) {
                    return Some(
                        FunctionEntry {
                            index: i,
                            low_pc: dies[i].low_pc,
                            high_pc: dies[i].high_pc,
                        },
                    );
                }
            }
        }
        i += 1;
    }
    None
}

/// The index at which a walk that stands before entry `index` at depth
/// `depth` below its starting entry ends: the first entry from `index` on
/// that is not below the starting entry, or the end of the unit.
pub open spec fn walk_end_from(dies: Seq<DieRecord>, index: int, depth: int) -> int
    decreases dies.len() - index,
{
    if index >= dies.len() {
        dies.len() as int
    } else if depth + dies[index].delta <= 0 {
        index
    } else {
        walk_end_from(dies, index + 1, depth + dies[index].delta)
    }
}

/// The index one past the last entry of the subtree rooted at `start`.
pub open spec fn walk_end(dies: Seq<DieRecord>, start: int) -> int {
    walk_end_from(dies, start + 1, 0)
}

/// The walk from `index` ends no earlier than `index` and within the unit.
pub proof fn walk_end_bounds(dies: Seq<DieRecord>, index: int, depth: int)
    requires
        0 <= index <= dies.len(),
    ensures
        index <= walk_end_from(dies, index, depth) <= dies.len(),
    decreases dies.len() - index,
{
    if index < dies.len() && depth + dies[index].delta > 0 {
        walk_end_bounds(dies, index + 1, depth + dies[index].delta);
    }
}

/// The index one past the last entry of the subtree rooted at `start`.
pub fn subtree_end(dies: &Vec<DieRecord>, start: usize) -> (end: usize)
    requires
        start < dies@.len(),
    ensures
        end == walk_end(dies@, start as int),
        start < end <= dies@.len(),
{
    let len: usize = dies.len();
    let mut i: usize = start + 1;
    let mut depth: i128 = 0;
    proof {
        walk_end_bounds(dies@, start as int + 1, 0);
    }
    while i < dies.len()
        invariant
            start < i <= dies.len(),
            walk_end_from(dies@, i as int, depth as int) == walk_end(dies@, start as int),
            -(i as int) * 0x8000_0000_0000_0000 <= depth <= (i as int) * 0x8000_0000_0000_0000,
        decreases dies.len() - i,
    {
        let next: i128 = depth + dies[i].delta as i128;
        if next <= 0 {
            return i;
        }
        depth = next;
        i += 1;
    }
    i
}

} // verus!
