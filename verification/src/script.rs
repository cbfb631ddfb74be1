//! The rewrite script: the text that says which variable gets which
//! location expression over which range of program counters.
//!
//! ```text
//! =ZeroAddress
//! 0x<hex>
//! =TotalPCs
//! <decimal>
//! =Function
//! <name>
//! =Expressions
//! <variable>=<expression><TAB>0x<begin>->0x<end>
//! ```

use vstd::prelude::*;
use vstd::string::StringSliceAdditionalSpecFns;
use crate::text::{
    after_first_line, bytes_eq, copy_range, first_line, has_prefix, index_of, index_of_facts,
    parse_unsigned, position_of, split_line, starts_with, strip_prefixes, unsigned,
    without_prefixes,
};
use vstd::slice::slice_subrange;

verus! {

/// Why a script could not be read.
#[derive(Clone, Copy, Debug, PartialEq, Eq, Structural)]
pub enum ScriptError {
    /// One of the lines `=ZeroAddress`, `=TotalPCs`, `=Function`,
    /// `=Expressions` is not where it belongs, or the line after one of them
    /// is not there.
    BadHeader,
    /// The zero address is not a hexadecimal number of 64 bits.
    BadZeroAddress,
    /// The number of program counters is not a decimal number of 32 bits.
    BadTotal,
    /// A line of the list has no tab.
    MissingTab,
    /// A line of the list has no equals sign before its first tab.
    MissingEquals,
}

/// One line of the list of expressions.
#[derive(Clone, Debug, PartialEq, Eq)]
pub struct ScriptLine {
    /// The name of the variable, as written.
    pub name: Vec<u8>,
    /// The location expression in postfix notation.
    pub expr: Vec<u8>,
    /// The first program counter of the range, where it is written as a
    /// hexadecimal number.
    pub begin: Option<u64>,
    /// The first program counter past the range, where it is written as a
    /// hexadecimal number.
    pub end: Option<u64>,
}

/// A script.
#[derive(Clone, Debug, PartialEq, Eq)]
pub struct Script {
    /// The address that the ranges of the list are counted from.
    pub zero_address: u64,
    /// The number of program counters that the script was made for.
    pub total_pcs: u32,
    /// The name of the function, as written.
    pub function: Vec<u8>,
    /// The list of expressions.
    pub lines: Vec<ScriptLine>,
}

/// What a line of the list says.
pub struct LineView {
    pub name: Seq<u8>,
    pub expr: Seq<u8>,
    pub begin: Option<u64>,
    pub end: Option<u64>,
}

/// What a script says.
pub struct ScriptView {
    pub zero_address: u64,
    pub total_pcs: u32,
    pub function: Seq<u8>,
    pub lines: Seq<LineView>,
}

impl View for ScriptLine {
    type V = LineView;

    open spec fn view(&self) -> LineView {
        LineView { name: self.name@, expr: self.expr@, begin: self.begin, end: self.end }
    }
}

impl View for Script {
    type V = ScriptView;

    open spec fn view(&self) -> ScriptView {
        ScriptView {
            zero_address: self.zero_address,
            total_pcs: self.total_pcs,
            function: self.function@,
            lines: self.lines@.map_values(|line: ScriptLine| line@),
        }
    }
}

/// The position at which `needle` first occurs in `s`, or the length of
/// `s` if it does not occur.
pub open spec fn first_occurrence(s: Seq<u8>, needle: Seq<u8>) -> int
    decreases s.len(),
{
    if s.len() == 0 || has_prefix(s, needle) {
        0
    } else {
        1 + first_occurrence(s.skip(1), needle)
    }
}

/// Executable form of [`first_occurrence`].
pub fn find_first(bytes: &[u8], needle: &[u8]) -> (at: usize)
    ensures
        at == first_occurrence(bytes@, needle@),
        at <= bytes@.len(),
{
    let mut i: usize = 0;
    assert(bytes@.skip(0) =~= bytes@);
    while i < bytes.len()
        invariant
            i <= bytes.len(),
            first_occurrence(bytes@, needle@) == i + first_occurrence(
                bytes@.skip(i as int),
                needle@,
            ),
        decreases bytes.len() - i,
    {
        let rest = slice_subrange(bytes, i, bytes.len());
        assert(rest@ =~= bytes@.skip(i as int));
        if starts_with(rest, needle) {
            return i;
        }
        assert(bytes@.skip(i as int).skip(1) =~= bytes@.skip(i as int + 1));
        i += 1;
    }
    i
}

/// A program counter as the list writes it: a hexadecimal number behind
/// any number of `0x`.
pub open spec fn hex_pc(text: Seq<u8>) -> Option<u64> {
    match unsigned(without_prefixes(text, "0x".spec_bytes()), 16, u64::MAX as nat) {
        Some(v) => Some(v as u64),
        None => None,
    }
}

/// Executable form of [`hex_pc`].
pub fn parse_hex_pc(text: &[u8]) -> (r: Option<u64>)
    ensures
        r == hex_pc(text@),
{
    parse_unsigned(strip_prefixes(text, "0x".as_bytes()), 16, u64::MAX)
}

/// What the line `line` of the list says.
///
/// The variable and its expression stand before the first tab, with an
/// equals sign between them; the expression ends at a second equals sign, if
/// there is one. The range stands behind the first tab, up to a second tab
/// if there is one: its two ends with `->` between them. An end that is
/// not there or not a number is `None`.
pub open spec fn line_view(line: Seq<u8>) -> Result<LineView, ScriptError> {
    let tab = index_of(line, 0x09);
    if tab >= line.len() {
        Err(ScriptError::MissingTab)
    } else {
        let left = line.take(tab);
        let behind = line.skip(tab + 1);
        let range = behind.take(index_of(behind, 0x09));
        let eq = index_of(left, 0x3d);
        if eq >= left.len() {
            Err(ScriptError::MissingEquals)
        } else {
            let rest = left.skip(eq + 1);
            let arrow = first_occurrence(range, "->".spec_bytes());
            let second = range.skip(arrow + "->".spec_bytes().len());
            Ok(
                LineView {
                    name: left.take(eq),
                    expr: rest.take(index_of(rest, 0x3d)),
                    begin: hex_pc(range.take(arrow)),
                    end: if arrow < range.len() {
                        hex_pc(second.take(first_occurrence(second, "->".spec_bytes())))
                    } else {
                        None
                    },
                },
            )
        }
    }
}

/// What the lines of `s` say, in order.
pub open spec fn lines_view(s: Seq<u8>) -> Result<Seq<LineView>, ScriptError>
    decreases s.len(),
{
    if s.len() == 0 {
        Ok(Seq::<LineView>::empty())
    } else {
        proof {
            index_of_facts(s, 0x0a);
        }
        match line_view(first_line(s)) {
            Err(e) => Err(e),
            Ok(line) => match lines_view(after_first_line(s)) {
                Err(e) => Err(e),
                Ok(rest) => Ok(seq![line] + rest),
            },
        }
    }
}

/// What the script `text` says.
pub open spec fn script_view(text: Seq<u8>) -> Result<ScriptView, ScriptError> {
    let r1 = after_first_line(text);
    let r2 = after_first_line(r1);
    let r3 = after_first_line(r2);
    let r4 = after_first_line(r3);
    let r5 = after_first_line(r4);
    let r6 = after_first_line(r5);
    let r7 = after_first_line(r6);
    if text.len() == 0 || first_line(text) != "=ZeroAddress".spec_bytes() || r1.len() == 0 {
        Err(ScriptError::BadHeader)
    } else {
        match hex_pc(first_line(r1)) {
            None => Err(ScriptError::BadZeroAddress),
            Some(zero_address) => if r2.len() == 0 || first_line(r2) != "=TotalPCs".spec_bytes()
                || r3.len() == 0 {
                Err(ScriptError::BadHeader)
            } else {
                match unsigned(first_line(r3), 10, u32::MAX as nat) {
                    None => Err(ScriptError::BadTotal),
                    Some(total) => if r4.len() == 0 || first_line(r4) != "=Function".spec_bytes()
                        || r5.len() == 0 || r6.len() == 0 || first_line(r6)
                        != "=Expressions".spec_bytes() {
                        Err(ScriptError::BadHeader)
                    } else {
                        match lines_view(r7) {
                            Err(e) => Err(e),
                            Ok(lines) => Ok(
                                ScriptView {
                                    zero_address,
                                    total_pcs: total as u32,
                                    function: first_line(r5),
                                    lines,
                                },
                            ),
                        }
                    },
                }
            },
        }
    }
}

/// Executable form of [`line_view`].
pub fn parse_line(line: &[u8]) -> (r: Result<ScriptLine, ScriptError>)
    ensures
        match line_view(line@) {
            Ok(view) => r.is_ok() && r.unwrap()@ == view,
            Err(e) => r matches Err(got) && got == e,
        },
{
    let tab: usize = position_of(line, 0x09);
    if tab >= line.len() {
        return Err(ScriptError::MissingTab);
    }
    let left = slice_subrange(line, 0, tab);
    assert(left@ =~= line@.take(tab as int));
    let behind = slice_subrange(line, tab + 1, line.len());
    assert(behind@ =~= line@.skip(tab as int + 1));
    let range = slice_subrange(behind, 0, position_of(behind, 0x09));
    assert(range@ =~= behind@.take(index_of(behind@, 0x09)));
    let eq: usize = position_of(left, 0x3d);
    if eq >= left.len() {
        return Err(ScriptError::MissingEquals);
    }
    let rest = slice_subrange(left, eq + 1, left.len());
    assert(rest@ =~= left@.skip(eq as int + 1));
    let stop: usize = position_of(rest, 0x3d);
    let arrow_text = "->".as_bytes();
    let arrow: usize = find_first(range, arrow_text);
    let first = slice_subrange(range, 0, arrow);
    assert(first@ =~= range@.take(arrow as int));
    let begin = parse_hex_pc(first);
    let end = if arrow < range.len() {
        proof {
            arrow_found(range@, arrow_text@);
        }
        let second = slice_subrange(range, arrow + arrow_text.len(), range.len());
        assert(second@ =~= range@.skip(arrow + arrow_text@.len()));
        let upto: usize = find_first(second, arrow_text);
        let field = slice_subrange(second, 0, upto);
        assert(field@ =~= second@.take(upto as int));
        parse_hex_pc(field)
    } else {
        None
    };
    let name = copy_range(left, 0, eq);
    assert(name@ =~= left@.take(eq as int));
    let expr = copy_range(rest, 0, stop);
    assert(expr@ =~= rest@.take(stop as int));
    Ok(ScriptLine { name, expr, begin, end })
}

/// Where a needle is found, it fits.
proof fn arrow_found(s: Seq<u8>, needle: Seq<u8>)
    requires
        first_occurrence(s, needle) < s.len(),
    ensures
        first_occurrence(s, needle) + needle.len() <= s.len(),
    decreases s.len(),
{
    if s.len() > 0 && !has_prefix(s, needle) {
        arrow_found(s.skip(1), needle);
    }
}

/// Executable form of [`lines_view`].
fn parse_lines(text: &[u8]) -> (r: Result<Vec<ScriptLine>, ScriptError>)
    ensures
        match lines_view(text@) {
            Ok(view) => r.is_ok() && r.unwrap()@.map_values(|line: ScriptLine| line@) == view,
            Err(e) => r matches Err(got) && got == e,
        },
{
    let mut lines: Vec<ScriptLine> = Vec::new();
    let mut rest = text;
    let ghost mut read: Seq<LineView> = Seq::empty();
    proof {
        if lines_view(text@).is_ok() {
            assert(read + lines_view(text@).unwrap() =~= lines_view(text@).unwrap());
        }
    }
    while rest.len() > 0
        invariant
            read == lines@.map_values(|line: ScriptLine| line@),
            match lines_view(rest@) {
                Ok(tail) => lines_view(text@) == Ok::<Seq<LineView>, ScriptError>(read + tail),
                Err(e) => lines_view(text@) == Err::<Seq<LineView>, ScriptError>(e),
            },
        decreases rest.len(),
    {
        let (line, next) = split_line(rest);
        match parse_line(line) {
            Err(e) => {
                return Err(e);
            },
            Ok(parsed) => {
                proof {
                    let ghost view = parsed@;
                    if lines_view(next@).is_ok() {
                        assert(read + (seq![view] + lines_view(next@).unwrap()) =~= read.push(view)
                            + lines_view(next@).unwrap());
                    }
                    assert(lines@.push(parsed).map_values(|line: ScriptLine| line@) =~= read.push(
                        view,
                    ));
                    read = read.push(view);
                }
                lines.push(parsed);
            },
        }
        rest = next;
    }
    proof {
        assert(read + Seq::<LineView>::empty() =~= read);
    }
    Ok(lines)
}

/// Reads a script.
pub fn parse_script(text: &str) -> (r: Result<Script, ScriptError>)
    ensures
        match script_view(text.spec_bytes()) {
            Ok(view) => r.is_ok() && r.unwrap()@ == view,
            Err(e) => r matches Err(got) && got == e,
        },
{
    let bytes = text.as_bytes();
    if bytes.len() == 0 {
        return Err(ScriptError::BadHeader);
    }
    let (l0, r1) = split_line(bytes);
    if !bytes_eq(l0, "=ZeroAddress".as_bytes()) || r1.len() == 0 {
        return Err(ScriptError::BadHeader);
    }
    let (l1, r2) = split_line(r1);
    let zero_address: u64 = match parse_hex_pc(l1) {
        Some(v) => v,
        None => {
            return Err(ScriptError::BadZeroAddress);
        },
    };
    if r2.len() == 0 {
        return Err(ScriptError::BadHeader);
    }
    let (l2, r3) = split_line(r2);
    if !bytes_eq(l2, "=TotalPCs".as_bytes()) || r3.len() == 0 {
        return Err(ScriptError::BadHeader);
    }
    let (l3, r4) = split_line(r3);
    let total_pcs: u32 = match parse_unsigned(l3, 10, 0xffff_ffff) {
        Some(v) => v as u32,
        None => {
            return Err(ScriptError::BadTotal);
        },
    };
    if r4.len() == 0 {
        return Err(ScriptError::BadHeader);
    }
    let (l4, r5) = split_line(r4);
    if !bytes_eq(l4, "=Function".as_bytes()) || r5.len() == 0 {
        return Err(ScriptError::BadHeader);
    }
    let (l5, r6) = split_line(r5);
    if r6.len() == 0 {
        return Err(ScriptError::BadHeader);
    }
    let (l6, r7) = split_line(r6);
    if !bytes_eq(l6, "=Expressions".as_bytes()) {
        return Err(ScriptError::BadHeader);
    }
    let lines = match parse_lines(r7) {
        Ok(lines) => lines,
        Err(e) => {
            return Err(e);
        },
    };
    let function = copy_range(l5, 0, l5.len());
    assert(function@ =~= l5@);
    Ok(Script { zero_address, total_pcs, function, lines })
}

} // verus!
