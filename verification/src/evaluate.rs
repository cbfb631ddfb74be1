//! Measuring one function of one object file: from the entries of its
//! unit, the code of its text section and an instruction map to the
//! coverage of its variables.

use vstd::prelude::*;
use vstd::string::StringSliceAdditionalSpecFns;
use capstone::arch::{BuildsCapstone, BuildsCapstoneSyntax};
use crate::coverage::{measure, measured, CoverageError};
use crate::covmap::CoverageMap;
use crate::die::{found_at, get_func_entry_offset, is_function_at, DieRecord};
use crate::expr::Encoding;
use crate::insnmap::{insn_pcs, parse_insn_map, InsnMapError};
use crate::interval::{increasing, Interval};

verus! {

/// Why a function could not be measured.
#[derive(Clone, Copy, Debug, PartialEq, Eq, Structural)]
pub enum ReadError {
    /// The unit has no function of the wanted name.
    NoFunction,
    /// The function does not say where it begins or how long it is.
    NoRange,
    /// The end of the function does not fit in 64 bits.
    RangeOverflow,
    /// The text section could not be disassembled.
    Disassembly,
    /// The instruction map could not be read.
    InsnMap(InsnMapError),
    /// The measurement was given up.
    Coverage(CoverageError),
}

/// What a measurement yields.
#[derive(Clone, Debug)]
pub struct Measurement {
    /// The intervals of each variable.
    pub map: CoverageMap,
    /// The program counters of the instruction map, ascending.
    pub pcs: Vec<u64>,
    /// How many times a program counter was found covered.
    pub total: i64,
}

/// The instructions of 32-bit x86 code that begins at address 0: for each
/// instruction its address and its length in bytes, in order; `None` where
/// the code cannot be disassembled.
pub uninterp spec fn disassembled(text: Seq<u8>) -> Option<Seq<(u64, u64)>>;

/// `capstone::Capstone::disasm_all` on a disassembler for 32-bit x86 code,
/// with the code placed at address 0: hands out the address and the length
/// of every instruction, in order. `None` stands for a disassembler that
/// could not be set up and for code that it refuses.
#[verifier::external_body]
fn disassemble(text: &[u8]) -> (r: Option<Vec<(u64, u64)>>)
    ensures
        r matches Some(list) ==> disassembled(text@) == Some(list@),
        r.is_none() ==> disassembled(text@).is_none(),
{
    let cs = capstone::Capstone::new()
        .x86()
        .mode(capstone::arch::x86::ArchMode::Mode32)
        .syntax(capstone::arch::x86::ArchSyntax::Att)
        .detail(true)
        .build()
        .ok()?;
    let insns = cs.disasm_all(text, 0).ok()?;
    Some(insns.iter().map(|i| (i.address(), i.bytes().len() as u64)).collect())
}

/// The end of the instruction at `pc` according to the first `n`
/// instructions: its address plus its length. Only instructions within
/// `[low, high)` count, and the last one listed for `pc` decides. `None`
/// where no instruction is listed for `pc` or its end does not fit in 64
/// bits.
pub open spec fn instruction_end(
    instructions: Seq<(u64, u64)>,
    low: u64,
    high: u64,
    pc: u64,
    n: int,
) -> Option<u64>
    decreases n,
{
    if n <= 0 {
        None
    } else {
        let (address, len) = instructions[n - 1];
        if address == pc && low <= address < high {
            if pc + len <= u64::MAX {
                Some((pc + len) as u64)
            } else {
                None
            }
        } else {
            instruction_end(instructions, low, high, pc, n - 1)
        }
    }
}

/// The end of the instruction at the last program counter of `pcs`.
pub open spec fn tail_of(pcs: Seq<u64>, instructions: Seq<(u64, u64)>, low: u64, high: u64) -> Option<
    u64,
> {
    if pcs.len() == 0 {
        None
    } else {
        instruction_end(instructions, low, high, pcs.last(), instructions.len() as int)
    }
}

/// Executable form of [`tail_of`].
pub fn find_tail(pcs: &Vec<u64>, instructions: &Vec<(u64, u64)>, low: u64, high: u64) -> (r: Option<
    u64,
>)
    ensures
        r == tail_of(pcs@, instructions@, low, high),
{
    if pcs.len() == 0 {
        return None;
    }
    let pc: u64 = pcs[pcs.len() - 1];
    let mut n: usize = instructions.len();
    while n > 0
        invariant
            n <= instructions.len(),
            pcs@.len() > 0,
            pc == pcs@.last(),
            tail_of(pcs@, instructions@, low, high) == instruction_end(
                instructions@,
                low,
                high,
                pc,
                n as int,
            ),
        decreases n,
    {
        let (address, len) = instructions[n - 1];
        if address == pc && low <= address && address < high {
            if len <= u64::MAX - pc {
                return Some(pc + len);
            } else {
                return None;
            }
        }
        n -= 1;
    }
    None
}

/// Whether `pcs` is the ordered set of the program counters that the
/// instruction map `insn_map` names.
pub open spec fn is_pc_set(pcs: Seq<u64>, insn_map: Seq<u8>) -> bool {
    insn_pcs(insn_map) matches Ok(listed) && increasing(pcs) && forall|pc: u64|
        pcs.contains(pc) <==> listed.contains(pc)
}

/// What measuring comes to for the function at `index` and the ordered set
/// `pcs` of program counters.
pub open spec fn measured_function(
    dies: Seq<DieRecord>,
    encoding: Encoding,
    instructions: Seq<(u64, u64)>,
    index: int,
    pcs: Seq<u64>,
) -> Result<(int, Map<Seq<u8>, Seq<Interval>>), CoverageError> {
    let low = dies[index].low_pc.unwrap();
    let high = (low + dies[index].high_pc.unwrap()) as u64;
    measured(dies, pcs, tail_of(pcs, instructions, low, high), encoding, index)
}

/// Whether the function at `index` says where it begins and how long it
/// is, with an end that fits in 64 bits.
pub open spec fn has_range(dies: Seq<DieRecord>, index: int) -> Result<(), ReadError> {
    if dies[index].low_pc.is_none() || dies[index].high_pc.is_none() {
        Err(ReadError::NoRange)
    } else if dies[index].low_pc.unwrap() + dies[index].high_pc.unwrap() > u64::MAX {
        Err(ReadError::RangeOverflow)
    } else {
        Ok(())
    }
}

/// Whether `r` is the right outcome of measuring the function called
/// `func_name`, given the instructions of the text section.
///
/// The outcome is `NoFunction` exactly if the unit has no such function,
/// else `NoRange` or `RangeOverflow` exactly if the function's range is not
/// usable, else `InsnMap` exactly if the instruction map cannot be read,
/// else `Coverage` exactly if the measurement is given up. Otherwise it is
/// the measurement of the function against the ordered set of the program
/// counters of the instruction map.
pub open spec fn read_outcome(
    dies: Seq<DieRecord>,
    encoding: Encoding,
    instructions: Seq<(u64, u64)>,
    func_name: Seq<u8>,
    insn_map: Seq<u8>,
    r: Result<Measurement, ReadError>,
) -> bool {
    &&& (forall|k: int| !is_function_at(dies, func_name, k)) ==> fails_with(
        r,
        ReadError::NoFunction,
    )
    &&& forall|k: int|
        found_at(dies, func_name, k) ==> match has_range(dies, k) {
            Err(e) => fails_with(r, e),
            Ok(()) => match insn_pcs(insn_map) {
                Err(e) => fails_with(r, ReadError::InsnMap(e)),
                Ok(_) => match r {
                    Ok(m) => is_pc_set(m.pcs@, insn_map) && m.map.wf() && measured_function(
                        dies,
                        encoding,
                        instructions,
                        k,
                        m.pcs@,
                    ) == Ok::<(int, Map<Seq<u8>, Seq<Interval>>), CoverageError>(
                        (m.total as int, m.map@),
                    ),
                    Err(got) => exists|pcs: Seq<u64>|
                        is_pc_set(pcs, insn_map) && (#[trigger] measured_function(
                            dies,
                            encoding,
                            instructions,
                            k,
                            pcs,
                        )).is_err() && got == ReadError::Coverage(
                            measured_function(dies, encoding, instructions, k, pcs)->Err_0,
                        ),
                },
            },
        }
}

/// Whether `r` is the failure `e`.
pub open spec fn fails_with(r: Result<Measurement, ReadError>, e: ReadError) -> bool {
    match r {
        Ok(_) => false,
        Err(got) => got == e,
    }
}

/// Measures the function called `func_name` of the unit `dies`, given the
/// instructions of the text section; see [`read_outcome`].
pub fn read_dwarf_with(
    dies: &Vec<DieRecord>,
    encoding: Encoding,
    instructions: &Vec<(u64, u64)>,
    func_name: &str,
    insn_map_str: &str,
) -> (r: Result<Measurement, ReadError>)
    ensures
        read_outcome(
            dies@,
            encoding,
            instructions@,
            func_name.spec_bytes(),
            insn_map_str.spec_bytes(),
            r,
        ),
{
    let found = match get_func_entry_offset(dies, func_name.as_bytes()) {
        Some(found) => found,
        None => {
            return Err(ReadError::NoFunction);
        },
    };
    proof {
        assert forall|k: int| found_at(dies@, func_name.spec_bytes(), k) implies k
            == found.index by {
            if k < found.index {
            } else if k > found.index {
                assert(!is_function_at(dies@, func_name.spec_bytes(), found.index as int));
            }
        }
    }
    let (low, len) = match (found.low_pc, found.high_pc) {
        (Some(low), Some(len)) => (low, len),
        _ => {
            return Err(ReadError::NoRange);
        },
    };
    if len > u64::MAX - low {
        return Err(ReadError::RangeOverflow);
    }
    let high: u64 = low + len;
    let pcs = match parse_insn_map(insn_map_str) {
        Ok(pcs) => pcs,
        Err(e) => {
            return Err(ReadError::InsnMap(e));
        },
    };
    let tail = find_tail(&pcs, instructions, low, high);
    match measure(dies, found.index, &pcs, tail, encoding) {
        Ok(coverage) => Ok(Measurement { map: coverage.map, pcs, total: coverage.total }),
        Err(e) => {
            assert(measured_function(dies@, encoding, instructions@, found.index as int, pcs@)
                == Err::<(int, Map<Seq<u8>, Seq<Interval>>), CoverageError>(e));
            Err(ReadError::Coverage(e))
        },
    }
}

/// Measures the function called `func_name` of the unit `dies`, whose code
/// is the text section `text`.
///
/// The text section is disassembled as 32-bit x86 code; where that cannot
/// be done, the result is `Disassembly`. Otherwise the result is that of
/// [`read_dwarf_with`] on the instructions found.
pub fn read_dwarf(
    dies: &Vec<DieRecord>,
    encoding: Encoding,
    text: &[u8],
    func_name: &str,
    insn_map_str: &str,
) -> (r: Result<Measurement, ReadError>)
    ensures
        match disassembled(text@) {
            None => fails_with(r, ReadError::Disassembly),
            Some(instructions) => read_outcome(
                dies@,
                encoding,
                instructions,
                func_name.spec_bytes(),
                insn_map_str.spec_bytes(),
                r,
            ),
        },
{
    match disassemble(text) {
        None => Err(ReadError::Disassembly),
        Some(instructions) => read_dwarf_with(dies, encoding, &instructions, func_name, insn_map_str),
    }
}

} // verus!
