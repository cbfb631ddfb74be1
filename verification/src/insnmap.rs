//! The instruction map: the text that lists the program counters against
//! which coverage is measured.
//!
//! The text begins with the line `=insn_pcs`. Each line after it has the
//! form `<index>:0x<pc>`, up to the line `=End` or the end of the text. The
//! program counter `0x7fffffff` stands for "none" and is left out.

use vstd::prelude::*;
use vstd::string::StringSliceAdditionalSpecFns;
use crate::interval::{increasing, insert_pc};
use crate::text::{
    after_first_line, bytes_eq, first_line, index_of, index_of_facts, parse_unsigned, position_of,
    split_line, strip_prefixes, trim, trimmed, unsigned, without_prefixes,
};
use vstd::slice::slice_subrange;

verus! {

/// Why an instruction map could not be read.
#[derive(Clone, Copy, Debug, PartialEq, Eq, Structural)]
pub enum InsnMapError {
    /// The text does not begin with the line `=insn_pcs`.
    MissingHeader,
    /// A line has no colon.
    MissingColon,
    /// What follows the colon is not a hexadecimal number of 64 bits.
    BadPc,
}

/// The program counter that stands for "none".
pub const NO_PC: u64 = 0x7fff_ffff;

/// The field of `line` that holds the program counter: what stands between
/// the first colon of the trimmed line and the next colon or the end.
pub open spec fn pc_field(line: Seq<u8>) -> Option<Seq<u8>> {
    let t = trimmed(line);
    let colon = index_of(t, 0x3a);
    if colon >= t.len() {
        None
    } else {
        let rest = t.skip(colon + 1);
        Some(rest.take(index_of(rest, 0x3a)))
    }
}

/// The program counter that `line` names: its field, trimmed and without
/// any leading `0x`, read as a hexadecimal number.
pub open spec fn pc_of_line(line: Seq<u8>) -> Result<u64, InsnMapError> {
    match pc_field(line) {
        None => Err(InsnMapError::MissingColon),
        Some(field) => match unsigned(
            without_prefixes(trimmed(field), "0x".spec_bytes()),
            16,
            u64::MAX as nat,
        ) {
            Some(v) => Ok(v as u64),
            None => Err(InsnMapError::BadPc),
        },
    }
}

/// The program counters that the lines of `s` name, in order, up to the
/// line `=End`; the one that stands for "none" is left out.
pub open spec fn listed_pcs(s: Seq<u8>) -> Result<Seq<u64>, InsnMapError>
    decreases s.len(),
{
    if s.len() == 0 || first_line(s) == "=End".spec_bytes() {
        Ok(Seq::<u64>::empty())
    } else {
        proof {
            index_of_facts(s, 0x0a);
        }
        match pc_of_line(first_line(s)) {
            Err(e) => Err(e),
            Ok(pc) => match listed_pcs(after_first_line(s)) {
                Err(e) => Err(e),
                Ok(rest) => Ok(
                    if pc != NO_PC {
                        seq![pc] + rest
                    } else {
                        rest
                    },
                ),
            },
        }
    }
}

/// The program counters that the instruction map `text` names.
pub open spec fn insn_pcs(text: Seq<u8>) -> Result<Seq<u64>, InsnMapError> {
    if text.len() == 0 || first_line(text) != "=insn_pcs".spec_bytes() {
        Err(InsnMapError::MissingHeader)
    } else {
        listed_pcs(after_first_line(text))
    }
}

/// Executable form of [`pc_of_line`].
pub fn parse_pc_line(line: &[u8]) -> (r: Result<u64, InsnMapError>)
    ensures
        r == pc_of_line(line@),
{
    let t = trim(line);
    let colon: usize = position_of(t, 0x3a);
    if colon >= t.len() {
        return Err(InsnMapError::MissingColon);
    }
    let rest = slice_subrange(t, colon + 1, t.len());
    assert(rest@ =~= t@.skip(colon as int + 1));
    let stop: usize = position_of(rest, 0x3a);
    let field = slice_subrange(rest, 0, stop);
    assert(field@ =~= rest@.take(stop as int));
    let digits = strip_prefixes(trim(field), "0x".as_bytes());
    match parse_unsigned(digits, 16, u64::MAX) {
        Some(v) => Ok(v),
        None => Err(InsnMapError::BadPc),
    }
}

/// What a list of program counters comes to once `head` was read and
/// `tail` is what the rest of the text yields.
pub open spec fn joined(head: Seq<u64>, tail: Result<Seq<u64>, InsnMapError>) -> Result<
    Seq<u64>,
    InsnMapError,
> {
    match tail {
        Err(e) => Err(e),
        Ok(rest) => Ok(head + rest),
    }
}

/// Reads an instruction map into the ordered set of its program counters.
///
/// The result is in strictly ascending order and holds exactly the program
/// counters that the text names.
pub fn parse_insn_map(text: &str) -> (r: Result<Vec<u64>, InsnMapError>)
    ensures
        match insn_pcs(text.spec_bytes()) {
            Err(e) => r == Err::<Vec<u64>, InsnMapError>(e),
            Ok(listed) => r.is_ok() && increasing(r.unwrap()@) && forall|pc: u64|
                r.unwrap()@.contains(pc) <==> listed.contains(pc),
        },
{
    let bytes = text.as_bytes();
    if bytes.len() == 0 {
        return Err(InsnMapError::MissingHeader);
    }
    let (header, body) = split_line(bytes);
    if !bytes_eq(header, "=insn_pcs".as_bytes()) {
        return Err(InsnMapError::MissingHeader);
    }
    let mut set: Vec<u64> = Vec::new();
    let mut rest = body;
    let ghost mut read: Seq<u64> = Seq::empty();
    proof {
        if listed_pcs(body@).is_ok() {
            assert(read + listed_pcs(body@).unwrap() =~= listed_pcs(body@).unwrap());
        }
    }
    while rest.len() > 0
        invariant
            text.spec_bytes().len() > 0,
            first_line(text.spec_bytes()) == "=insn_pcs".spec_bytes(),
            body@ == after_first_line(text.spec_bytes()),
            increasing(set@),
            forall|pc: u64| set@.contains(pc) <==> read.contains(pc),
            joined(read, listed_pcs(rest@)) == listed_pcs(body@),
        ensures
            listed_pcs(rest@) == Ok::<Seq<u64>, InsnMapError>(Seq::<u64>::empty()),
        decreases rest.len(),
    {
        let (line, next) = split_line(rest);
        if bytes_eq(line, "=End".as_bytes()) {
            break;
        }
        match parse_pc_line(line) {
            Err(e) => {
                return Err(e);
            },
            Ok(pc) => {
                if pc != NO_PC {
                    let ghost before = set@;
                    let ghost read_before = read;
                    insert_pc(&mut set, pc);
                    proof {
                        read = read.push(pc);
                        assert forall|x: u64| set@.contains(x) <==> read.contains(x) by {
                            if read.contains(x) {
                                let k = choose|k: int| 0 <= k < read.len() && read[k] == x;
                                if k < read_before.len() {
                                    assert(read_before[k] == x);
                                    assert(read_before.contains(x));
                                }
                            }
                            if read_before.contains(x) {
                                let k = choose|k: int|
                                    0 <= k < read_before.len() && read_before[k] == x;
                                assert(read[k] == x);
                            }
                            if x == pc {
                                assert(read[read.len() - 1] == x);
                            }
                        }
                        if listed_pcs(next@).is_ok() {
                            assert(read_before + (seq![pc] + listed_pcs(next@).unwrap()) =~= read
                                + listed_pcs(next@).unwrap());
                        }
                    }
                }
            },
        }
        rest = next;
    }
    proof {
        let tail = listed_pcs(rest@);
        assert(tail == Ok::<Seq<u64>, InsnMapError>(Seq::<u64>::empty()));
        assert(read + Seq::<u64>::empty() =~= read);
    }
    Ok(set)
}

} // verus!
