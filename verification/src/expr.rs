//! Location expressions: the postfix notation in which new ones are
//! written, the stack-machine expressions built from it, and the test that
//! tells a constant-only expression from a real location.

use vstd::prelude::*;
use vstd::string::StringSliceAdditionalSpecFns;
use crate::text::{
    bytes_eq, has_prefix, parse_signed_decimal, parse_unsigned, signed_decimal, split_words,
    starts_with, unsigned, views, words,
};
use vstd::slice::slice_subrange;

verus! {

/// A stack-machine operation without operands.
#[derive(Clone, Copy, Debug, PartialEq, Eq, Structural)]
pub enum SimpleOp {
    Plus,
    Minus,
    Mul,
    Div,
    Mod,
    /// The value on top of the stack is the variable's value, not its
    /// address.
    StackValue,
}

/// One operation of a location expression in the postfix notation.
#[derive(Clone, Copy, Debug, PartialEq, Eq, Structural)]
pub enum LocOp {
    /// Push the content of a register plus an offset.
    Breg { register: u16, offset: i64 },
    /// Push a signed constant.
    Consts(i64),
    /// An operation without operands.
    Simple(SimpleOp),
}

/// The register number for names that are not known.
pub const UNKNOWN_REGISTER: u16 = 255;

/// The register number of `xmm0`.
pub const XMM_BASE: u16 = 21;

/// The number of the register called `name`.
///
/// The general registers `eax`, `ecx`, `edx`, `ebx`, `esp`, `ebp`, `esi`,
/// `edi` are 0 to 7, the segment registers `es`, `cs`, `ss`, `ds`, `fs`, `gs`
/// are 40 to 45, and `xmmN` is 21 + N. Every other name, an `xmm` without a
/// number or with one that leaves the 16-bit range included, is 255.
pub open spec fn register_id(name: Seq<u8>) -> u16 {
    if name == "eax".spec_bytes() {
        0
    } else if name == "ecx".spec_bytes() {
        1
    } else if name == "edx".spec_bytes() {
        2
    } else if name == "ebx".spec_bytes() {
        3
    } else if name == "esp".spec_bytes() {
        4
    } else if name == "ebp".spec_bytes() {
        5
    } else if name == "esi".spec_bytes() {
        6
    } else if name == "edi".spec_bytes() {
        7
    } else if name == "es".spec_bytes() {
        40
    } else if name == "cs".spec_bytes() {
        41
    } else if name == "ss".spec_bytes() {
        42
    } else if name == "ds".spec_bytes() {
        43
    } else if name == "fs".spec_bytes() {
        44
    } else if name == "gs".spec_bytes() {
        45
    } else if has_prefix(name, "xmm".spec_bytes()) {
        match unsigned(name.skip("xmm".spec_bytes().len() as int), 10, 0xffff) {
            Some(n) => if XMM_BASE + n <= 0xffff {
                (XMM_BASE + n) as u16
            } else {
                UNKNOWN_REGISTER
            },
            None => UNKNOWN_REGISTER,
        }
    } else {
        UNKNOWN_REGISTER
    }
}

/// The number of the register called `name`, given as bytes.
pub fn register_of(name: &[u8]) -> (id: u16)
    ensures
        id == register_id(name@),
{
    if bytes_eq(name, "eax".as_bytes()) {
        0
    } else if bytes_eq(name, "ecx".as_bytes()) {
        1
    } else if bytes_eq(name, "edx".as_bytes()) {
        2
    } else if bytes_eq(name, "ebx".as_bytes()) {
        3
    } else if bytes_eq(name, "esp".as_bytes()) {
        4
    } else if bytes_eq(name, "ebp".as_bytes()) {
        5
    } else if bytes_eq(name, "esi".as_bytes()) {
        6
    } else if bytes_eq(name, "edi".as_bytes()) {
        7
    } else if bytes_eq(name, "es".as_bytes()) {
        40
    } else if bytes_eq(name, "cs".as_bytes()) {
        41
    } else if bytes_eq(name, "ss".as_bytes()) {
        42
    } else if bytes_eq(name, "ds".as_bytes()) {
        43
    } else if bytes_eq(name, "fs".as_bytes()) {
        44
    } else if bytes_eq(name, "gs".as_bytes()) {
        45
    } else {
        let xmm = "xmm".as_bytes();
        if starts_with(name, xmm) {
            let rest = slice_subrange(name, xmm.len(), name.len());
            assert(rest@ =~= name@.skip(xmm@.len() as int));
            match parse_unsigned(rest, 10, 0xffff) {
                Some(n) => {
                    if n <= 0xffff - XMM_BASE as u64 {
                        XMM_BASE + n as u16
                    } else {
                        UNKNOWN_REGISTER
                    }
                },
                None => UNKNOWN_REGISTER,
            }
        } else {
            UNKNOWN_REGISTER
        }
    }
}

/// The number of the register called `reg_name`; see [`register_id`].
pub fn get_register_mapping(reg_name: &str) -> (id: u16)
    ensures
        id == register_id(reg_name.spec_bytes()),
{
    register_of(reg_name.as_bytes())
}

/// The arithmetic operation that the word `word` stands for, if any:
/// `+`, `-`, `*`, `/` or `%`.
pub open spec fn arith_op(word: Seq<u8>) -> Option<SimpleOp> {
    if word.len() != 1 {
        None
    } else if word[0] == 0x2b {
        Some(SimpleOp::Plus)
    } else if word[0] == 0x2d {
        Some(SimpleOp::Minus)
    } else if word[0] == 0x2a {
        Some(SimpleOp::Mul)
    } else if word[0] == 0x2f {
        Some(SimpleOp::Div)
    } else if word[0] == 0x25 {
        Some(SimpleOp::Mod)
    } else {
        None
    }
}

/// The arithmetic operation that `word` stands for, given as bytes.
pub fn arith_op_of(word: &[u8]) -> (r: Option<SimpleOp>)
    ensures
        r == arith_op(word@),
{
    if word.len() != 1 {
        return None;
    }
    let b: u8 = word[0];
    if b == 0x2b {
        Some(SimpleOp::Plus)
    } else if b == 0x2d {
        Some(SimpleOp::Minus)
    } else if b == 0x2a {
        Some(SimpleOp::Mul)
    } else if b == 0x2f {
        Some(SimpleOp::Div)
    } else if b == 0x25 {
        Some(SimpleOp::Mod)
    } else {
        None
    }
}

/// Whether `s` is one of the arithmetic operators `+`, `-`, `*`, `/`, `%`.
pub fn is_arith_op(s: &str) -> (r: bool)
    ensures
        r == arith_op(s.spec_bytes()).is_some(),
{
    arith_op_of(s.as_bytes()).is_some()
}

/// The arithmetic operation that `s` stands for, if it is an operator.
pub fn get_arith_dwop(s: &str) -> (r: Option<SimpleOp>)
    ensures
        r == arith_op(s.spec_bytes()),
{
    arith_op_of(s.as_bytes())
}

/// The operation that one word of the postfix notation stands for.
///
/// A `%` with a name behind it names a register and pushes its content; a
/// decimal number pushes that constant; an operator, the lone `%` included,
/// stands for itself. Any other word stands for nothing.
pub open spec fn word_op(word: Seq<u8>) -> Option<LocOp> {
    if word.len() > 1 && word[0] == 0x25 {
        Some(LocOp::Breg { register: register_id(word.skip(1)), offset: 0 })
    } else {
        match signed_decimal(word) {
            Some(v) => Some(LocOp::Consts(v as i64)),
            None => match arith_op(word) {
                Some(op) => Some(LocOp::Simple(op)),
                None => None,
            },
        }
    }
}

/// The operations that the first `n` of `list` stand for; words that stand
/// for nothing are passed over.
pub open spec fn word_ops(list: Seq<Seq<u8>>, n: int) -> Seq<LocOp>
    decreases n,
{
    if n <= 0 {
        Seq::<LocOp>::empty()
    } else {
        match word_op(list[n - 1]) {
            Some(op) => word_ops(list, n - 1).push(op),
            None => word_ops(list, n - 1),
        }
    }
}

/// Where every one of the first `n` words stands for an operation, the
/// operations are as many as the words, each that of its word, in order.
pub proof fn word_ops_in_order(list: Seq<Seq<u8>>, n: int)
    requires
        0 <= n <= list.len(),
        forall|i: int| 0 <= i < n ==> (#[trigger] word_op(list[i])).is_some(),
    ensures
        word_ops(list, n).len() == n,
        forall|i: int| 0 <= i < n ==> #[trigger] word_ops(list, n)[i] == word_op(list[i]).unwrap(),
    decreases n,
{
    if n > 0 {
        word_ops_in_order(list, n - 1);
        assert(word_op(list[n - 1]).is_some());
    }
}

/// The expression that the postfix text `text` describes: the operations of
/// its words in the order read, then `StackValue`.
pub open spec fn location_ops(text: Seq<u8>) -> Seq<LocOp> {
    word_ops(words(text), words(text).len() as int).push(LocOp::Simple(SimpleOp::StackValue))
}

/// The operation that `word` stands for; see [`word_op`].
pub fn parse_word(word: &[u8]) -> (r: Option<LocOp>)
    ensures
        r == word_op(word@),
{
    if word.len() > 1 && word[0] == 0x25 {
        let name = slice_subrange(word, 1, word.len());
        assert(name@ =~= word@.skip(1));
        Some(LocOp::Breg { register: register_of(name), offset: 0 })
    } else {
        match parse_signed_decimal(word) {
            Some(v) => Some(LocOp::Consts(v)),
            None => match arith_op_of(word) {
                Some(op) => Some(LocOp::Simple(op)),
                None => None,
            },
        }
    }
}

/// Reads a location expression in the postfix notation.
pub fn parse_location_expr(loc_expr: &str) -> (ops: Vec<LocOp>)
    ensures
        ops@ == location_ops(loc_expr.spec_bytes()),
{
    let list = split_words(loc_expr.as_bytes());
    let mut ops: Vec<LocOp> = Vec::new();
    let mut i: usize = 0;
    while i < list.len()
        invariant
            i <= list.len(),
            views(list@) == words(loc_expr.spec_bytes()),
            ops@ == word_ops(views(list@), i as int),
        decreases list.len() - i,
    {
        assert(views(list@)[i as int] == list@[i as int]@);
        if let Some(op) = parse_word(list[i].as_slice()) {
            ops.push(op);
        }
        i += 1;
    }
    ops.push(LocOp::Simple(SimpleOp::StackValue));
    ops
}

#[verifier::external_type_specification]
#[verifier::external_body]
pub struct ExWriteExpression(gimli::write::Expression);

/// The operations that an expression under construction holds, oldest first.
pub uninterp spec fn expression_ops(e: gimli::write::Expression) -> Seq<LocOp>;

/// `gimli::write::Expression::new`: an expression without operations.
#[verifier::external_body]
fn expression_new() -> (e: gimli::write::Expression)
    ensures
        expression_ops(e) == Seq::<LocOp>::empty(),
{
    gimli::write::Expression::new()
}

/// `gimli::write::Expression::op_breg`: appends one register-plus-offset
/// operation and leaves the earlier operations alone.
#[verifier::external_body]
fn expression_op_breg(e: &mut gimli::write::Expression, register: u16, offset: i64)
    ensures
        expression_ops(*final(e)) == expression_ops(*old(e)).push(
            LocOp::Breg { register, offset },
        ),
{
    e.op_breg(gimli::Register(register), offset)
}

/// `gimli::write::Expression::op_consts`: appends one signed-constant
/// operation and leaves the earlier operations alone.
#[verifier::external_body]
fn expression_op_consts(e: &mut gimli::write::Expression, value: i64)
    ensures
        expression_ops(*final(e)) == expression_ops(*old(e)).push(LocOp::Consts(value)),
{
    e.op_consts(value)
}

/// `gimli::write::Expression::op`: appends the operand-less operation with
/// the opcode that DWARF gives to `op`, and leaves the earlier operations
/// alone.
#[verifier::external_body]
fn expression_op(e: &mut gimli::write::Expression, op: SimpleOp)
    ensures
        expression_ops(*final(e)) == expression_ops(*old(e)).push(LocOp::Simple(op)),
{
    e.op(
        match op {
            SimpleOp::Plus => gimli::constants::DW_OP_plus,
            SimpleOp::Minus => gimli::constants::DW_OP_minus,
            SimpleOp::Mul => gimli::constants::DW_OP_mul,
            SimpleOp::Div => gimli::constants::DW_OP_div,
            SimpleOp::Mod => gimli::constants::DW_OP_mod,
            SimpleOp::StackValue => gimli::constants::DW_OP_stack_value,
        },
    )
}

/// Builds the stack-machine expression that holds `ops`, in order.
pub fn build_expression(ops: &Vec<LocOp>) -> (e: gimli::write::Expression)
    ensures
        expression_ops(e) == ops@,
{
    let mut e = expression_new();
    let mut i: usize = 0;
    while i < ops.len()
        invariant
            i <= ops.len(),
            expression_ops(e) == ops@.subrange(0, i as int),
        decreases ops.len() - i,
    {
        match ops[i] {
            LocOp::Breg { register, offset } => expression_op_breg(&mut e, register, offset),
            LocOp::Consts(value) => expression_op_consts(&mut e, value),
            LocOp::Simple(op) => expression_op(&mut e, op),
        }
        assert(ops@.subrange(0, i as int + 1) =~= ops@.subrange(0, i as int).push(ops@[i as int]));
        i += 1;
    }
    assert(ops@.subrange(0, i as int) =~= ops@);
    e
}

/// Builds the stack-machine expression that the postfix text `loc_expr`
/// describes.
pub fn create_dwarf_expr(loc_expr: &str) -> (e: gimli::write::Expression)
    ensures
        expression_ops(e) == location_ops(loc_expr.spec_bytes()),
{
    let ops = parse_location_expr(loc_expr);
    build_expression(&ops)
}

/// The expression that stands for a variable whose value is the constant
/// `value`: push the constant, then `StackValue`.
pub fn const_value_expression(value: i64) -> (e: gimli::write::Expression)
    ensures
        expression_ops(e) == seq![LocOp::Consts(value), LocOp::Simple(SimpleOp::StackValue)],
{
    let mut e = expression_new();
    expression_op_consts(&mut e, value);
    expression_op(&mut e, SimpleOp::StackValue);
    assert(expression_ops(e) =~= seq![
        LocOp::Consts(value),
        LocOp::Simple(SimpleOp::StackValue),
    ]);
    e
}

/// How an expression is encoded in its unit.
#[derive(Clone, Copy, Debug, PartialEq, Eq, Structural)]
pub struct Encoding {
    /// Size of an address in bytes.
    pub address_size: u8,
    /// Whether the unit uses the 64-bit DWARF format.
    pub dwarf64: bool,
    /// DWARF version of the unit.
    pub version: u16,
}

/// What classification needs to know of a decoded operation.
#[derive(Clone, Copy, Debug, PartialEq, Eq, Structural)]
pub enum OpClass {
    SignedConstant,
    UnsignedConstant,
    StackValue,
    Other,
}

/// The code of the operation that describes a piece of an object by its
/// size in bytes.
pub const OP_PIECE: u8 = 0x93;

/// Whether `bytes` begin with the piece operation.
pub open spec fn begins_with_piece(bytes: Seq<u8>) -> bool {
    bytes.len() > 0 && bytes[0] == OP_PIECE
}

/// Executable form of [`begins_with_piece`].
pub fn begins_piece(bytes: &[u8]) -> (r: bool)
    ensures
        r == begins_with_piece(bytes@),
{
    bytes.len() > 0 && bytes[0] == OP_PIECE
}

/// The class of the operation at the start of `bytes` and the bytes that
/// follow it, or `None` where no operation can be decoded.
pub uninterp spec fn decoded_operation(
    bytes: Seq<u8>,
    address_size: u8,
    dwarf64: bool,
    version: u16,
) -> Option<(OpClass, Seq<u8>)>;

/// `gimli::read::Operation::parse` on little-endian `bytes`: decodes the
/// operation at the start. The result says whether it pushes a signed
/// constant, pushes an unsigned constant, is `StackValue`, or is anything
/// else, and hands back the bytes after the operation, which are a part of
/// `bytes`. `None` stands for every decoding error.
///
/// Bytes that begin with the piece operation are left out: the decoder
/// multiplies its operand by eight and cannot do so for every operand.
#[verifier::external_body]
fn decode_operation<'a>(bytes: &'a [u8], encoding: Encoding) -> (r: Option<(OpClass, &'a [u8])>)
    requires
        !begins_with_piece(bytes@),
    ensures
        r matches Some((class, rest)) ==> decoded_operation(
            bytes@,
            encoding.address_size,
            encoding.dwarf64,
            encoding.version,
        ) == Some((class, rest@)) && rest@.len() <= bytes@.len(),
        r.is_none() ==> decoded_operation(
            bytes@,
            encoding.address_size,
            encoding.dwarf64,
            encoding.version,
        ).is_none(),
{
    let mut reader = gimli::EndianSlice::new(bytes, gimli::LittleEndian);
    let format = if encoding.dwarf64 { gimli::Format::Dwarf64 } else { gimli::Format::Dwarf32 };
    let encoding =
        gimli::Encoding { address_size: encoding.address_size, format, version: encoding.version };
    match gimli::read::Operation::parse(&mut reader, encoding) {
        Ok(gimli::read::Operation::SignedConstant { .. }) => Some((OpClass::SignedConstant, reader.slice())),
        Ok(gimli::read::Operation::UnsignedConstant { .. }) => Some((OpClass::UnsignedConstant, reader.slice())),
        Ok(gimli::read::Operation::StackValue) => Some((OpClass::StackValue, reader.slice())),
        Ok(_) => Some((OpClass::Other, reader.slice())),
        Err(_) => None,
    }
}

/// Whether two leading operations make an expression constant-only: the
/// first pushes a constant and the second is `StackValue`.
pub open spec fn constant_pair(first: Option<OpClass>, second: Option<OpClass>) -> bool {
    (first == Some(OpClass::SignedConstant) || first == Some(OpClass::UnsignedConstant))
        && second == Some(OpClass::StackValue)
}

/// The class of the first operation of an expression, if it decodes. A
/// piece operation is `Other` whatever follows its code: its operand is not
/// looked at.
pub open spec fn first_class(bytes: Seq<u8>, encoding: Encoding) -> Option<OpClass> {
    if begins_with_piece(bytes) {
        Some(OpClass::Other)
    } else {
        match decoded_operation(bytes, encoding.address_size, encoding.dwarf64, encoding.version) {
            Some((class, _)) => Some(class),
            None => None,
        }
    }
}

/// The class of the second operation of an expression, if the first two
/// decode. Nothing is read behind a piece operation.
pub open spec fn second_class(bytes: Seq<u8>, encoding: Encoding) -> Option<OpClass> {
    if begins_with_piece(bytes) {
        None
    } else {
        match decoded_operation(bytes, encoding.address_size, encoding.dwarf64, encoding.version) {
            Some((_, rest)) => first_class(rest, encoding),
            None => None,
        }
    }
}

/// Whether the expression `bytes` is constant-only. Only its first two
/// operations count; an expression whose first two operations do not decode
/// is not constant-only.
pub open spec fn is_const(bytes: Seq<u8>, encoding: Encoding) -> bool {
    constant_pair(first_class(bytes, encoding), second_class(bytes, encoding))
}

/// Executable form of [`constant_pair`].
pub fn classify_pair(first: Option<OpClass>, second: Option<OpClass>) -> (r: bool)
    ensures
        r == constant_pair(first, second),
{
    let first_ok = match first {
        Some(OpClass::SignedConstant) => true,
        Some(OpClass::UnsignedConstant) => true,
        _ => false,
    };
    let second_ok = match second {
        Some(OpClass::StackValue) => true,
        _ => false,
    };
    first_ok && second_ok
}

/// Whether the expression `bytes` is constant-only; see [`is_const`].
pub fn is_const_expression(bytes: &[u8], encoding: Encoding) -> (r: bool)
    ensures
        r == is_const(bytes@, encoding),
{
    if begins_piece(bytes) {
        return false;
    }
    match decode_operation(bytes, encoding) {
        Some((first, rest)) => {
            let second = if begins_piece(rest) {
                Some(OpClass::Other)
            } else {
                match decode_operation(rest, encoding) {
                    Some((class, _)) => Some(class),
                    None => None,
                }
            };
            classify_pair(Some(first), second)
        },
        None => classify_pair(None, None),
    }
}

/// An expression that is classified as constant-only begins with an
/// operation that pushes a constant, directly followed by `StackValue`.
pub proof fn const_begins_with_constant(bytes: Seq<u8>, encoding: Encoding)
    requires
        is_const(bytes, encoding),
    ensures
        first_class(bytes, encoding) == Some(OpClass::SignedConstant) || first_class(
            bytes,
            encoding,
        ) == Some(OpClass::UnsignedConstant),
        second_class(bytes, encoding) == Some(OpClass::StackValue),
{
}

} // verus!
