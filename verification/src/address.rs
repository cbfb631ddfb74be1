//! Addresses as they travel through a rewrite, and the table that gives each
//! one a stable index.

use vstd::prelude::*;

verus! {

/// An address in the debug information: either a plain number, or an offset
/// from a symbol whose final position is decided at link time.
#[derive(Clone, Copy, Debug, PartialEq, Eq, Structural)]
pub enum Address {
    /// A fixed address.
    Constant(u64),
    /// `addend` bytes past the start of the symbol with index `symbol`.
    Symbol { symbol: usize, addend: i64 },
}

impl Address {
    /// The canonical zero address, which stands for "no address" in range
    /// and location lists.
    pub open spec fn zero() -> Address {
        Address::Constant(0)
    }

    /// Whether the address has a numeric value: constants always do, symbolic
    /// addresses only when their addend is not negative.
    pub open spec fn has_value(self) -> bool {
        match self {
            Address::Constant(_) => true,
            Address::Symbol { addend, .. } => addend >= 0,
        }
    }

    /// The numeric value of the address: the constant itself, or the addend
    /// of a symbolic address.
    pub open spec fn value(self) -> int {
        match self {
            Address::Constant(v) => v as int,
            Address::Symbol { addend, .. } => addend as int,
        }
    }
}

/// Executable form of [`Address::has_value`].
pub fn has_numeric_value(addr: Address) -> (r: bool)
    ensures
        r == addr.has_value(),
{
    match addr {
        Address::Constant(_) => true,
        Address::Symbol { symbol: _, addend } => addend >= 0,
    }
}

/// The numeric value of `addr`: the constant itself, or the addend of a
/// symbolic address, whatever its symbol. A symbolic address with a negative
/// addend has no numeric value and must not be asked for one.
pub fn get_addr(addr: Address) -> (v: u64)
    requires
        addr.has_value(),
    ensures
        v as int == addr.value(),
{
    match addr {
        Address::Constant(value) => value,
        Address::Symbol { symbol: _, addend } => addend as u64,
    }
}

/// What a table holding `table` holds after `address` is registered, and the
/// index that the registration yields.
pub open spec fn table_add(table: Seq<Address>, address: Address) -> (Seq<Address>, int) {
    if address == Address::zero() {
        (table, 0)
    } else {
        (table.push(address), table.len() as int + 1)
    }
}

/// Whether `index` names an address of a table holding `table`.
pub open spec fn table_has(table: Seq<Address>, index: int) -> bool {
    0 <= index <= table.len()
}

/// The address that `index` names in a table holding `table`.
pub open spec fn table_get(table: Seq<Address>, index: int) -> Address {
    if index == 0 {
        Address::zero()
    } else {
        table[index - 1]
    }
}

/// An append-only table of addresses.
///
/// Index 0 is reserved for [`Address::zero`] and is never stored; index
/// `i > 0` names the `i`-th address that was appended.
#[derive(Clone, Debug)]
pub struct AddressTable {
    addresses: Vec<Address>,
}

impl View for AddressTable {
    type V = Seq<Address>;

    /// The appended addresses, oldest first.
    closed spec fn view(&self) -> Seq<Address> {
        self.addresses@
    }
}

impl AddressTable {
    /// An empty table, in which only index 0 is valid.
    pub fn new() -> (table: AddressTable)
        ensures
            table@ == Seq::<Address>::empty(),
    {
        AddressTable { addresses: Vec::new() }
    }

    /// The number of appended addresses.
    pub fn len(&self) -> (n: usize)
        ensures
            n == self@.len(),
    {
        self.addresses.len()
    }

    /// Registers `address` and returns its index. The zero address is not
    /// stored and always gets index 0; any other address is appended and
    /// gets the new length of the table.
    pub fn add(&mut self, address: Address) -> (index: usize)
        ensures
            (final(self)@, index as int) == table_add(old(self)@, address),
    {
        if address == Address::Constant(0) {
            return 0;
        }
        self.addresses.push(address);
        self.addresses.len()
    }

    /// The address at `index`.
    pub fn get(&self, index: usize) -> (address: Address)
        requires
            table_has(self@, index as int),
        ensures
            address == table_get(self@, index as int),
    {
        if index == 0 {
            Address::Constant(0)
        } else {
            self.addresses[index - 1]
        }
    }

    /// The address at `index`, or `None` when the table has no such index.
    pub fn lookup(&self, index: usize) -> (r: Option<Address>)
        ensures
            r == (if table_has(self@, index as int) {
                Some(table_get(self@, index as int))
            } else {
                None
            }),
    {
        if index <= self.addresses.len() {
            Some(self.get(index))
        } else {
            None
        }
    }
}

/// Looking up the index that a registration returned gives back the address
/// that was registered, the zero address included.
pub proof fn add_then_get(table: Seq<Address>, address: Address)
    ensures
        table_has(table_add(table, address).0, table_add(table, address).1),
        table_get(table_add(table, address).0, table_add(table, address).1) == address,
{
}

/// A registration never moves an address: every index that was valid before
/// stays valid and names the same address.
pub proof fn add_keeps_indices(table: Seq<Address>, address: Address, index: int)
    requires
        table_has(table, index),
    ensures
        table_has(table_add(table, address).0, index),
        table_get(table_add(table, address).0, index) == table_get(table, index),
{
}

} // verus!
