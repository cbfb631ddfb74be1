//! Relocations: those that come with a debug section of the input and
//! decide what an address read from it means, and those that are recorded
//! while sections are written and must be tied to symbols of the output.

use vstd::prelude::*;
use std::collections::HashMap;
use crate::address::{table_add, table_get, table_has, Address, AddressTable};
use crate::text::bytes_eq;
use vstd::string::StringSliceAdditionalSpecFns;

verus! {

broadcast use vstd::std_specs::hash::group_hash_axioms;

/// How the result of a relocation is computed.
#[derive(Clone, Copy, Debug, PartialEq, Eq, Structural)]
pub enum RelocationKind {
    /// Symbol plus addend.
    Absolute,
    /// Symbol plus addend minus place.
    Relative,
    /// Anything else.
    Other,
}

/// What a relocation refers to.
#[derive(Clone, Copy, Debug, PartialEq, Eq, Structural)]
pub enum RelocationTarget {
    /// The symbol with this index.
    Symbol(usize),
    /// Anything else.
    Other,
}

/// A relocation of a section of the input.
#[derive(Clone, Copy, Debug, PartialEq, Eq, Structural)]
pub struct ReadRelocation {
    pub kind: RelocationKind,
    pub target: RelocationTarget,
    pub addend: i64,
    /// Whether the data at the place holds a further addend.
    pub implicit_addend: bool,
}

/// A relocation as a section lists it: the place, the relocation, and the
/// address of the symbol it refers to, where it refers to a symbol that the
/// file can resolve.
#[derive(Clone, Copy, Debug, PartialEq, Eq, Structural)]
pub struct SectionRelocation {
    pub offset: u64,
    pub relocation: ReadRelocation,
    pub symbol_address: Option<u64>,
}

/// A section of the input: its bytes and its relocations, in the order in
/// which the file lists them.
#[derive(Clone, Debug)]
pub struct SectionData {
    pub data: Vec<u8>,
    pub relocations: Vec<SectionRelocation>,
}

/// Whether a relocation is of a kind and target that reading can use.
pub open spec fn usable(relocation: ReadRelocation) -> bool {
    (relocation.kind == RelocationKind::Absolute || relocation.kind == RelocationKind::Relative)
        && relocation.target is Symbol
}

/// What is kept of a listed relocation: nothing, unless its place fits in
/// the machine's address width, its kind is absolute or relative, and its
/// target is a symbol that the file can resolve. Then it is kept under its
/// place, with the address of the symbol folded into the addend; the sum
/// wraps around.
pub open spec fn kept(entry: SectionRelocation) -> Option<(usize, ReadRelocation)> {
    if entry.offset > usize::MAX || !usable(entry.relocation) || entry.symbol_address.is_none() {
        None
    } else {
        Some(
            (
                entry.offset as usize,
                ReadRelocation {
                    kind: entry.relocation.kind,
                    target: entry.relocation.target,
                    addend: entry.symbol_address.unwrap().wrapping_add(
                        entry.relocation.addend as u64,
                    ) as i64,
                    implicit_addend: entry.relocation.implicit_addend,
                },
            ),
        )
    }
}

/// The relocations kept of the first `n` listed; a later one at the same
/// place takes the place of an earlier one.
pub open spec fn loaded(entries: Seq<SectionRelocation>, n: int) -> Map<usize, ReadRelocation>
    decreases n,
{
    if n <= 0 {
        Map::<usize, ReadRelocation>::empty()
    } else {
        match kept(entries[n - 1]) {
            Some((offset, relocation)) => loaded(entries, n - 1).insert(offset, relocation),
            None => loaded(entries, n - 1),
        }
    }
}

/// The relocations of a section, by place.
#[derive(Clone, Debug)]
pub struct ReadRelocationMap {
    map: HashMap<usize, ReadRelocation>,
}

impl View for ReadRelocationMap {
    type V = Map<usize, ReadRelocation>;

    closed spec fn view(&self) -> Map<usize, ReadRelocation> {
        self.map@
    }
}

impl ReadRelocationMap {
    /// Every relocation of the map is usable.
    pub open spec fn wf(&self) -> bool {
        forall|offset: usize| self@.contains_key(offset) ==> usable(#[trigger] self@[offset])
    }

    /// A map without relocations.
    pub fn new() -> (map: ReadRelocationMap)
        ensures
            map.wf(),
            map@ == Map::<usize, ReadRelocation>::empty(),
    {
        ReadRelocationMap { map: HashMap::new() }
    }

    /// The relocation at `offset`, if there is one.
    pub fn get(&self, offset: usize) -> (r: Option<ReadRelocation>)
        ensures
            r.is_some() == self@.contains_key(offset),
            r matches Some(relocation) ==> relocation == self@[offset],
    {
        match self.map.get(&offset) {
            Some(relocation) => Some(*relocation),
            None => None,
        }
    }

    /// The value that was read at `offset`, relocated.
    ///
    /// Only an absolute relocation changes the value: it puts its addend in
    /// the value's place, or adds it to the value where the data holds an
    /// implicit addend; the sum wraps around.
    pub open spec fn relocated(&self, offset: usize, value: u64) -> u64 {
        if self@.contains_key(offset) && self@[offset].kind == RelocationKind::Absolute {
            if self@[offset].implicit_addend {
                value.wrapping_add(self@[offset].addend as u64)
            } else {
                self@[offset].addend as u64
            }
        } else {
            value
        }
    }

    /// The value that was read at `offset`, relocated; see
    /// [`ReadRelocationMap::relocated`].
    pub fn relocate(&self, offset: usize, value: u64) -> (r: u64)
        ensures
            r == self.relocated(offset, value),
    {
        match self.get(offset) {
            Some(relocation) => match relocation.kind {
                RelocationKind::Absolute => {
                    if relocation.implicit_addend {
                        value.wrapping_add(relocation.addend as u64)
                    } else {
                        relocation.addend as u64
                    }
                },
                _ => value,
            },
            None => value,
        }
    }

    /// The offset that was read at `offset`, relocated, or `None` where the
    /// result does not fit in the machine's address width.
    pub fn relocate_offset(&self, offset: usize, value: usize) -> (r: Option<usize>)
        ensures
            r == (if self.relocated(offset, value as u64) <= usize::MAX {
                Some(self.relocated(offset, value as u64) as usize)
            } else {
                None
            }),
    {
        let moved: u64 = self.relocate(offset, value as u64);
        if moved <= usize::MAX as u64 {
            Some(moved as usize)
        } else {
            None
        }
    }

    /// The symbolic address that the value read at `offset` stands for, if
    /// a relocation applies there: the symbol of the relocation, plus its
    /// addend, to which the value is added where the data holds an implicit
    /// addend.
    pub open spec fn relocated_address(&self, offset: usize, value: u64) -> Option<Address> {
        if self@.contains_key(offset) && self@[offset].target is Symbol {
            Some(
                Address::Symbol {
                    symbol: self@[offset].target->Symbol_0,
                    addend: if self@[offset].implicit_addend {
                        value.wrapping_add(self@[offset].addend as u64) as i64
                    } else {
                        self@[offset].addend
                    },
                },
            )
        } else {
            None
        }
    }

    /// The symbolic address that the value read at `offset` stands for; see
    /// [`ReadRelocationMap::relocated_address`].
    pub fn relocate_address(&self, offset: usize, value: u64) -> (r: Option<Address>)
        ensures
            r == self.relocated_address(offset, value),
    {
        match self.get(offset) {
            Some(relocation) => match relocation.target {
                RelocationTarget::Symbol(symbol) => {
                    let addend: i64 = if relocation.implicit_addend {
                        value.wrapping_add(relocation.addend as u64) as i64
                    } else {
                        relocation.addend
                    };
                    Some(Address::Symbol { symbol, addend })
                },
                RelocationTarget::Other => None,
            },
            None => None,
        }
    }

    /// The address that the value read at `offset` stands for: symbolic
    /// where a relocation applies, else the value itself.
    pub open spec fn address_read(&self, offset: usize, value: u64) -> Address {
        match self.relocated_address(offset, value) {
            Some(address) => address,
            None => Address::Constant(value),
        }
    }

    /// Hands out the index of the address that the value read at `offset`
    /// stands for; the index takes the value's place.
    ///
    /// An offset that was read before gets the index it got then, and
    /// nothing changes. At a new offset the address is registered in the
    /// table, and the offset is remembered with the index it got. Where
    /// `seen` remembers indices of `table` only, as it does when both were
    /// empty at first and were always handed over together, the index is an
    /// index of the table, and `seen` goes on remembering such indices only.
    pub fn read_address(
        &self,
        seen: &mut OffsetIndex,
        table: &mut AddressTable,
        offset: usize,
        value: u64,
    ) -> (index: u64)
        ensures
            (final(seen)@, final(table)@, index) == index_read(
                old(seen)@,
                old(table)@,
                offset,
                self.address_read(offset, value),
            ),
            indices_in_table(old(seen)@, old(table)@) ==> table_has(final(table)@, index as int)
                && indices_in_table(final(seen)@, final(table)@),
    {
        match seen.seen.get(&offset) {
            Some(index) => *index,
            None => {
                let address = match self.relocate_address(offset, value) {
                    Some(address) => address,
                    None => Address::Constant(value),
                };
                let index: u64 = table.add(address) as u64;
                seen.seen.insert(offset, index);
                index
            },
        }
    }
}

/// The indices that were handed out for the offsets of one section at which
/// addresses were read.
#[derive(Clone, Debug)]
pub struct OffsetIndex {
    seen: HashMap<usize, u64>,
}

impl View for OffsetIndex {
    type V = Map<usize, u64>;

    /// The index of every offset that was read.
    closed spec fn view(&self) -> Map<usize, u64> {
        self.seen@
    }
}

impl OffsetIndex {
    /// No offset was read yet.
    pub fn new() -> (seen: OffsetIndex)
        ensures
            seen@ == Map::<usize, u64>::empty(),
    {
        OffsetIndex { seen: HashMap::new() }
    }

    /// The index that was handed out for `offset`, if it was read.
    pub fn get(&self, offset: usize) -> (r: Option<u64>)
        ensures
            r == (if self@.contains_key(offset) {
                Some(self@[offset])
            } else {
                None
            }),
    {
        match self.seen.get(&offset) {
            Some(index) => Some(*index),
            None => None,
        }
    }
}

/// What reading the address `address` at `offset` comes to: the
/// remembered offsets, the table and the index afterwards.
pub open spec fn index_read(
    seen: Map<usize, u64>,
    table: Seq<Address>,
    offset: usize,
    address: Address,
) -> (Map<usize, u64>, Seq<Address>, u64) {
    if seen.contains_key(offset) {
        (seen, table, seen[offset])
    } else {
        let (grown, index) = table_add(table, address);
        (seen.insert(offset, index as u64), grown, index as u64)
    }
}

/// Every remembered index is an index of the table.
pub open spec fn indices_in_table(seen: Map<usize, u64>, table: Seq<Address>) -> bool {
    forall|offset: usize|
        seen.contains_key(offset) ==> table_has(table, (#[trigger] seen[offset]) as int)
}

/// Reading the same offset a second time yields the same index and changes
/// nothing, whatever was read in between at other offsets or at this one.
pub proof fn same_offset_same_index(
    seen: Map<usize, u64>,
    table: Seq<Address>,
    offset: usize,
    first: Address,
    second: Address,
)
    ensures
        ({
            let (seen1, table1, index1) = index_read(seen, table, offset, first);
            index_read(seen1, table1, offset, second) == (seen1, table1, index1)
        }),
{
}

/// A read at another offset leaves what is remembered of `offset` alone.
pub proof fn other_offset_keeps_index(
    seen: Map<usize, u64>,
    table: Seq<Address>,
    offset: usize,
    other: usize,
    address: Address,
)
    requires
        seen.contains_key(offset),
    ensures
        index_read(seen, table, other, address).0.contains_key(offset),
        index_read(seen, table, other, address).0[offset] == seen[offset],
{
}

/// In a table whose indices fit in 64 bits, the index that a read yields is
/// an index of the table, at a new offset it names the address that was
/// read, and every remembered index stays an index of the table.
pub proof fn index_read_is_in_table(
    seen: Map<usize, u64>,
    table: Seq<Address>,
    offset: usize,
    address: Address,
)
    requires
        indices_in_table(seen, table),
        table.len() < u64::MAX,
    ensures
        indices_in_table(
            index_read(seen, table, offset, address).0,
            index_read(seen, table, offset, address).1,
        ),
        table_has(
            index_read(seen, table, offset, address).1,
            index_read(seen, table, offset, address).2 as int,
        ),
        !seen.contains_key(offset) ==> table_get(
            index_read(seen, table, offset, address).1,
            index_read(seen, table, offset, address).2 as int,
        ) == address,
{
    let (seen1, table1, index1) = index_read(seen, table, offset, address);
    assert forall|o: usize| seen1.contains_key(o) implies table_has(
        table1,
        (#[trigger] seen1[o]) as int,
    ) by {
        if seen.contains_key(o) {
            assert(table_has(table, seen[o] as int));
        }
    }
}

/// Indices that are remembered for one section stay indices of the table
/// when an address is registered for another.
pub proof fn registration_keeps_indices_in_table(
    seen: Map<usize, u64>,
    table: Seq<Address>,
    address: Address,
)
    requires
        indices_in_table(seen, table),
    ensures
        indices_in_table(seen, table_add(table, address).0),
{
    assert forall|o: usize| seen.contains_key(o) implies table_has(
        table_add(table, address).0,
        (#[trigger] seen[o]) as int,
    ) by {
        assert(table_has(table, seen[o] as int));
    }
}

/// Loads a section: its bytes, and the relocations that reading can use.
/// A section that the file does not have loads as no bytes and no
/// relocations.
pub fn get_section(section: Option<SectionData>) -> (r: (Vec<u8>, ReadRelocationMap))
    ensures
        r.1.wf(),
        match section {
            Some(found) => r.0@ == found.data@ && r.1@ == loaded(
                found.relocations@,
                found.relocations@.len() as int,
            ),
            None => r.0@ == Seq::<u8>::empty() && r.1@ == Map::<usize, ReadRelocation>::empty(),
        },
{
    let mut relocations = ReadRelocationMap::new();
    let found = match section {
        Some(found) => found,
        None => {
            return (Vec::new(), relocations);
        },
    };
    let mut i: usize = 0;
    while i < found.relocations.len()
        invariant
            i <= found.relocations.len(),
            relocations.wf(),
            relocations@ == loaded(found.relocations@, i as int),
        decreases found.relocations.len() - i,
    {
        let entry = found.relocations[i];
        if entry.offset <= usize::MAX as u64 {
            let supported = match (entry.relocation.kind, entry.relocation.target) {
                (RelocationKind::Absolute, RelocationTarget::Symbol(_)) => true,
                (RelocationKind::Relative, RelocationTarget::Symbol(_)) => true,
                _ => false,
            };
            if supported {
                if let Some(address) = entry.symbol_address {
                    let folded = ReadRelocation {
                        kind: entry.relocation.kind,
                        target: entry.relocation.target,
                        addend: address.wrapping_add(entry.relocation.addend as u64) as i64,
                        implicit_addend: entry.relocation.implicit_addend,
                    };
                    relocations.map.insert(entry.offset as usize, folded);
                }
            }
        }
        i += 1;
    }
    (found.data, relocations)
}

/// The debug sections that writing produces.
#[derive(Clone, Copy, Debug, PartialEq, Eq, Structural)]
pub enum SectionId {
    DebugAbbrev,
    DebugAddr,
    DebugAranges,
    DebugFrame,
    EhFrame,
    EhFrameHdr,
    DebugInfo,
    DebugLine,
    DebugLineStr,
    DebugLoc,
    DebugLocLists,
    DebugMacinfo,
    DebugMacro,
    DebugPubNames,
    DebugPubTypes,
    DebugRanges,
    DebugRngLists,
    DebugStr,
    DebugStrOffsets,
    DebugTypes,
}

/// A relocation that was recorded while a section was written.
#[derive(Clone, Copy, Debug, PartialEq, Eq, Structural)]
pub enum Relocation {
    /// The place holds an offset into another debug section.
    Section { offset: u64, section: SectionId, addend: i32, size: u8 },
    /// The place holds an address relative to a symbol of the input.
    Symbol { offset: u64, symbol: usize, addend: i32, kind: RelocationKind, size: u8 },
}

/// What is to be written for an address at `offset`, in `size` bytes: a
/// constant is written as it is; for a symbolic address a relocation is
/// recorded and zero is written, the addend being cut to 32 bits.
pub open spec fn address_written(address: Address, offset: u64, size: u8) -> (Option<Relocation>, u64) {
    match address {
        Address::Constant(value) => (None, value),
        Address::Symbol { symbol, addend } => (
            Some(
                Relocation::Symbol {
                    offset,
                    symbol,
                    addend: addend as i32,
                    kind: RelocationKind::Absolute,
                    size,
                },
            ),
            0,
        ),
    }
}

/// Executable form of [`address_written`].
pub fn write_address(address: Address, offset: u64, size: u8) -> (r: (Option<Relocation>, u64))
    ensures
        r == address_written(address, offset, size),
{
    match address {
        Address::Constant(value) => (None, value),
        Address::Symbol { symbol, addend } => (
            Some(
                Relocation::Symbol {
                    offset,
                    symbol,
                    addend: addend as i32,
                    kind: RelocationKind::Absolute,
                    size,
                },
            ),
            0,
        ),
    }
}

/// What a pointer of exception-handling data is relative to.
#[derive(Clone, Copy, Debug, PartialEq, Eq, Structural)]
pub enum PointerApplication {
    /// Nothing: the pointer is the address itself.
    Absolute,
    /// The place where the pointer stands.
    PcRelative,
    /// Anything else.
    Other,
}

/// How a pointer of exception-handling data is written.
#[derive(Clone, Copy, Debug, PartialEq, Eq, Structural)]
pub enum PointerFormat {
    /// As a signed number of four bytes.
    Sdata4,
    /// Anything else.
    Other,
}

/// What is to be written for a pointer of exception-handling data at
/// `offset`, or `None` for a combination that is not handled.
///
/// A constant address that is taken as it is and written in four bytes is
/// written cut to 32 bits. For a symbolic address relative to its place,
/// written in four bytes, a relative relocation of four bytes is recorded
/// and zero is written, the addend being cut to 32 bits.
pub open spec fn eh_pointer_written(
    address: Address,
    application: PointerApplication,
    format: PointerFormat,
    offset: u64,
) -> Option<(Option<Relocation>, u32)> {
    match (address, application, format) {
        (Address::Constant(value), PointerApplication::Absolute, PointerFormat::Sdata4) => Some(
            (None, value as u32),
        ),
        (
            Address::Symbol { symbol, addend },
            PointerApplication::PcRelative,
            PointerFormat::Sdata4,
        ) => Some(
            (
                Some(
                    Relocation::Symbol {
                        offset,
                        symbol,
                        addend: addend as i32,
                        kind: RelocationKind::Relative,
                        size: 4,
                    },
                ),
                0,
            ),
        ),
        _ => None,
    }
}

/// Executable form of [`eh_pointer_written`].
pub fn write_eh_pointer(
    address: Address,
    application: PointerApplication,
    format: PointerFormat,
    offset: u64,
) -> (r: Option<(Option<Relocation>, u32)>)
    ensures
        r == eh_pointer_written(address, application, format, offset),
{
    match (address, application, format) {
        (Address::Constant(value), PointerApplication::Absolute, PointerFormat::Sdata4) => Some(
            (None, value as u32),
        ),
        (
            Address::Symbol { symbol, addend },
            PointerApplication::PcRelative,
            PointerFormat::Sdata4,
        ) => Some(
            (
                Some(
                    Relocation::Symbol {
                        offset,
                        symbol,
                        addend: addend as i32,
                        kind: RelocationKind::Relative,
                        size: 4,
                    },
                ),
                0,
            ),
        ),
        _ => None,
    }
}

/// The relocation to record for an offset `val` into `section` that is
/// written at `offset` in `size` bytes; zero is written in its place, and
/// the offset is cut to 32 bits.
pub fn write_offset(offset: u64, val: usize, section: SectionId, size: u8) -> (r: Relocation)
    ensures
        r == (Relocation::Section { offset, section, addend: val as i32, size }),
{
    Relocation::Section { offset, section, addend: val as i32, size }
}

/// A relocation tied to a symbol of the output.
#[derive(Clone, Copy, Debug, PartialEq, Eq, Structural)]
pub struct LinkedRelocation {
    pub offset: u64,
    /// Size of the place in bits.
    pub size: u8,
    /// How the result is computed: always absolute.
    pub kind: RelocationKind,
    /// The symbol of the output.
    pub symbol: usize,
    pub addend: i64,
}

/// Why relocations could not be tied to symbols.
#[derive(Clone, Copy, Debug, PartialEq, Eq, Structural)]
pub enum LinkError {
    /// The size of a place in bits does not fit in 8 bits.
    SizeOverflow,
}

/// The symbol of the first pair of `pairs` with the section `section`.
pub open spec fn section_symbol(pairs: Seq<(SectionId, usize)>, section: SectionId) -> Option<usize>
    decreases pairs.len(),
{
    if pairs.len() == 0 {
        None
    } else if pairs[0].0 == section {
        Some(pairs[0].1)
    } else {
        section_symbol(pairs.skip(1), section)
    }
}

/// Executable form of [`section_symbol`].
pub fn find_section_symbol(pairs: &Vec<(SectionId, usize)>, section: SectionId) -> (r: Option<usize>)
    ensures
        r == section_symbol(pairs@, section),
{
    let mut i: usize = 0;
    assert(pairs@.skip(0) =~= pairs@);
    while i < pairs.len()
        invariant
            i <= pairs.len(),
            section_symbol(pairs@, section) == section_symbol(pairs@.skip(i as int), section),
        decreases pairs.len() - i,
    {
        if pairs[i].0 == section {
            return Some(pairs[i].1);
        }
        assert(pairs@.skip(i as int).skip(1) =~= pairs@.skip(i as int + 1));
        i += 1;
    }
    None
}

/// Whether the symbol that `relocation` refers to, if it refers to a symbol
/// of the input, has a counterpart in the output.
pub open spec fn symbol_known(symbols: Map<usize, usize>, relocation: Relocation) -> bool {
    relocation matches Relocation::Symbol { symbol, .. } ==> symbols.contains_key(symbol)
}

/// Whether every symbol of the input that `relocations` refer to has a
/// counterpart in the output.
pub open spec fn symbols_known(symbols: Map<usize, usize>, relocations: Seq<Relocation>) -> bool {
    forall|i: int| 0 <= i < relocations.len() ==> symbol_known(symbols, #[trigger] relocations[i])
}

/// Executable form of [`symbols_known`].
pub fn check_symbols(symbols: &HashMap<usize, usize>, relocations: &Vec<Relocation>) -> (ok: bool)
    ensures
        ok == symbols_known(symbols@, relocations@),
{
    let mut i: usize = 0;
    while i < relocations.len()
        invariant
            i <= relocations.len(),
            forall|k: int| 0 <= k < i ==> symbol_known(symbols@, #[trigger] relocations@[k]),
        decreases relocations.len() - i,
    {
        if let Relocation::Symbol { symbol, .. } = relocations[i] {
            if !symbols.contains_key(&symbol) {
                assert(!symbol_known(symbols@, relocations@[i as int]));
                return false;
            }
        }
        i += 1;
    }
    true
}

/// What one recorded relocation is tied to.
///
/// A relocation against a section is tied to the symbol of that section,
/// and is left out (`Ok(None)`) where the section has no symbol. A
/// relocation against a symbol of the input is tied to its counterpart in
/// the output. Either is attached as an absolute relocation, whatever kind
/// it was recorded with, with its offset and addend, and its size turned
/// from bytes into bits.
pub open spec fn linked_one(
    section_symbols: Seq<(SectionId, usize)>,
    symbols: Map<usize, usize>,
    relocation: Relocation,
) -> Result<Option<LinkedRelocation>, LinkError> {
    let (offset, addend, size, target) = match relocation {
        Relocation::Section { offset, section, addend, size } => (
            offset,
            addend,
            size,
            section_symbol(section_symbols, section),
        ),
        Relocation::Symbol { offset, symbol, addend, kind, size } => (
            offset,
            addend,
            size,
            Some(symbols[symbol]),
        ),
    };
    match target {
        None => Ok(None),
        Some(symbol) => if size * 8 > u8::MAX {
            Err(LinkError::SizeOverflow)
        } else {
            Ok(
                Some(
                    LinkedRelocation {
                        offset,
                        size: (size * 8) as u8,
                        kind: RelocationKind::Absolute,
                        symbol,
                        addend: addend as i64,
                    },
                ),
            )
        },
    }
}

/// What the first `n` recorded relocations are tied to, in order.
pub open spec fn linked(
    section_symbols: Seq<(SectionId, usize)>,
    symbols: Map<usize, usize>,
    relocations: Seq<Relocation>,
    n: int,
) -> Result<Seq<LinkedRelocation>, LinkError>
    decreases n,
{
    if n <= 0 {
        Ok(Seq::<LinkedRelocation>::empty())
    } else {
        match linked(section_symbols, symbols, relocations, n - 1) {
            Err(e) => Err(e),
            Ok(earlier) => match linked_one(section_symbols, symbols, relocations[n - 1]) {
                Err(e) => Err(e),
                Ok(Some(one)) => Ok(earlier.push(one)),
                Ok(None) => Ok(earlier),
            },
        }
    }
}

/// Once tying has failed, it stays failed with the same error.
proof fn linked_fails_on(
    section_symbols: Seq<(SectionId, usize)>,
    symbols: Map<usize, usize>,
    relocations: Seq<Relocation>,
    k: int,
    n: int,
)
    requires
        0 <= k <= n,
        linked(section_symbols, symbols, relocations, k).is_err(),
    ensures
        linked(section_symbols, symbols, relocations, n) == linked(
            section_symbols,
            symbols,
            relocations,
            k,
        ),
    decreases n - k,
{
    if k < n {
        linked_fails_on(section_symbols, symbols, relocations, k, n - 1);
    }
}

/// Whether the first `n` recorded relocations can all be tied: every one
/// against a section finds the symbol of its section, and every size in
/// bits fits in 8 bits.
pub open spec fn all_tied(
    section_symbols: Seq<(SectionId, usize)>,
    relocations: Seq<Relocation>,
    n: int,
) -> bool {
    forall|i: int|
        0 <= i < n ==> match #[trigger] relocations[i] {
            Relocation::Section { section, size, .. } => section_symbol(
                section_symbols,
                section,
            ).is_some() && size * 8 <= u8::MAX,
            Relocation::Symbol { size, .. } => size * 8 <= u8::MAX,
        }
}

/// Where all recorded relocations can be tied, each yields one relocation
/// of the output, in order: absolute, with the offset and the addend of the
/// recorded one, eight times its size, and the symbol of its section or the
/// counterpart of its symbol.
pub proof fn linked_one_for_one(
    section_symbols: Seq<(SectionId, usize)>,
    symbols: Map<usize, usize>,
    relocations: Seq<Relocation>,
    n: int,
)
    requires
        0 <= n <= relocations.len(),
        all_tied(section_symbols, relocations, n),
    ensures
        linked(section_symbols, symbols, relocations, n) matches Ok(list) && list.len() == n
            && forall|i: int|
            0 <= i < n ==> linked_one(section_symbols, symbols, relocations[i]) == Ok::<
                Option<LinkedRelocation>,
                LinkError,
            >(Some(#[trigger] list[i])) && list[i].kind == RelocationKind::Absolute,
    decreases n,
{
    if n > 0 {
        linked_one_for_one(section_symbols, symbols, relocations, n - 1);
        let r = relocations[n - 1];
        assert(linked_one(section_symbols, symbols, r) matches Ok(Some(_)));
    }
}

/// Executable form of [`linked_one`].
pub fn link_one(
    section_symbols: &Vec<(SectionId, usize)>,
    symbols: &HashMap<usize, usize>,
    relocation: Relocation,
) -> (r: Result<Option<LinkedRelocation>, LinkError>)
    requires
        symbol_known(symbols@, relocation),
    ensures
        r == linked_one(section_symbols@, symbols@, relocation),
{
    let (offset, addend, size, target): (u64, i32, u8, Option<usize>) = match relocation {
        Relocation::Section { offset, section, addend, size } => (
            offset,
            addend,
            size,
            find_section_symbol(section_symbols, section),
        ),
        Relocation::Symbol { offset, symbol, addend, kind: _, size } => {
            let out = symbols.get(&symbol);
            (offset, addend, size, Some(*out.unwrap()))
        },
    };
    match target {
        None => Ok(None),
        Some(symbol) => {
            if size > 31 {
                Err(LinkError::SizeOverflow)
            } else {
                Ok(
                    Some(
                        LinkedRelocation {
                            offset,
                            size: size * 8,
                            kind: RelocationKind::Absolute,
                            symbol,
                            addend: addend as i64,
                        },
                    ),
                )
            }
        },
    }
}

/// Ties the relocations recorded for a section to symbols of the output.
///
/// Every symbol of the input that a relocation refers to must have a
/// counterpart in `symbols`; [`check_symbols`] tests that.
pub fn link(
    section_symbols: &Vec<(SectionId, usize)>,
    symbols: &HashMap<usize, usize>,
    relocations: &Vec<Relocation>,
) -> (r: Result<Vec<LinkedRelocation>, LinkError>)
    requires
        symbols_known(symbols@, relocations@),
    ensures
        match linked(section_symbols@, symbols@, relocations@, relocations@.len() as int) {
            Ok(list) => r.is_ok() && r.unwrap()@ == list,
            Err(e) => r matches Err(got) && got == e,
        },
{
    let mut out: Vec<LinkedRelocation> = Vec::new();
    let mut i: usize = 0;
    while i < relocations.len()
        invariant
            i <= relocations.len(),
            symbols_known(symbols@, relocations@),
            linked(section_symbols@, symbols@, relocations@, i as int) == Ok::<
                Seq<LinkedRelocation>,
                LinkError,
            >(out@),
        decreases relocations.len() - i,
    {
        match link_one(section_symbols, symbols, relocations[i]) {
            Err(e) => {
                proof {
                    linked_fails_on(
                        section_symbols@,
                        symbols@,
                        relocations@,
                        i as int + 1,
                        relocations@.len() as int,
                    );
                }
                return Err(e);
            },
            Ok(Some(one)) => {
                out.push(one);
            },
            Ok(None) => {},
        }
        i += 1;
    }
    Ok(out)
}

/// Whether the section called `name` is one of the debug sections that a
/// rewrite produces anew.
pub open spec fn is_rewritten_section(name: Seq<u8>) -> bool {
    ||| name == ".debug_aranges".spec_bytes()
    ||| name == ".debug_abbrev".spec_bytes()
    ||| name == ".debug_addr".spec_bytes()
    ||| name == ".debug_info".spec_bytes()
    ||| name == ".debug_line".spec_bytes()
    ||| name == ".debug_line_str".spec_bytes()
    ||| name == ".debug_loc".spec_bytes()
    ||| name == ".debug_loclists".spec_bytes()
    ||| name == ".debug_pubnames".spec_bytes()
    ||| name == ".debug_pubtypes".spec_bytes()
    ||| name == ".debug_ranges".spec_bytes()
    ||| name == ".debug_rnglists".spec_bytes()
    ||| name == ".debug_str".spec_bytes()
    ||| name == ".debug_str_offsets".spec_bytes()
}

/// Whether `bytes` spell `name`.
fn spells(bytes: &[u8], name: &str) -> (r: bool)
    ensures
        r == (bytes@ == name.spec_bytes()),
{
    bytes_eq(bytes, name.as_bytes())
}

/// Whether the section called `name` is one of the debug sections that a
/// rewrite produces anew.
pub fn is_rewrite_dwarf_section(name: &str) -> (r: bool)
    ensures
        r == is_rewritten_section(name.spec_bytes()),
{
    let b = name.as_bytes();
    spells(b, ".debug_aranges") || spells(b, ".debug_abbrev") || spells(b, ".debug_addr")
        || spells(b, ".debug_info") || spells(b, ".debug_line") || spells(b, ".debug_line_str")
        || spells(b, ".debug_loc") || spells(b, ".debug_loclists") || spells(b, ".debug_pubnames")
        || spells(b, ".debug_pubtypes") || spells(b, ".debug_ranges") || spells(
        b,
        ".debug_rnglists",
    ) || spells(b, ".debug_str") || spells(b, ".debug_str_offsets")
}

} // verus!
