//! Comparing two coverage measurements of the same function.
//!
//! A pair of a variable and a program counter is *improved* when the
//! variable had only a constant there before and has a real location there
//! after. It is *missing* when the variable has a location there after and
//! had none there before, be it that the variable was not known at all or
//! that none of its intervals reached the program counter.

use vstd::prelude::*;
use crate::covmap::CoverageMap;
use crate::interval::Interval;

verus! {

/// Some interval of `set` holds at `pc`.
pub open spec fn covered_at(set: Seq<Interval>, pc: u64) -> bool {
    exists|k: int| 0 <= k < set.len() && (#[trigger] set[k]).covers(pc)
}

/// Some constant-only interval of `set` holds at `pc`.
pub open spec fn const_at(set: Seq<Interval>, pc: u64) -> bool {
    exists|k: int| 0 <= k < set.len() && (#[trigger] set[k]).covers(pc) && set[k].is_const
}

/// Some interval of `set` that is not constant-only holds at `pc`.
pub open spec fn real_at(set: Seq<Interval>, pc: u64) -> bool {
    exists|k: int| 0 <= k < set.len() && (#[trigger] set[k]).covers(pc) && !set[k].is_const
}

/// The variable `name`, which has the intervals `after` in the later
/// measurement, is improved at `pc`.
pub open spec fn improved_at(
    before: Map<Seq<u8>, Seq<Interval>>,
    name: Seq<u8>,
    after: Seq<Interval>,
    pc: u64,
) -> bool {
    before.dom().contains(name) && const_at(before[name], pc) && real_at(after, pc)
}

/// The variable `name`, which has the intervals `after` in the later
/// measurement, is missing from the earlier one at `pc`.
pub open spec fn missing_at(
    before: Map<Seq<u8>, Seq<Interval>>,
    name: Seq<u8>,
    after: Seq<Interval>,
    pc: u64,
) -> bool {
    covered_at(after, pc) && !(before.dom().contains(name) && covered_at(before[name], pc))
}

/// How many of the first `n` variables of `after` are improved at `pc`.
pub open spec fn improved_vars(
    before: Map<Seq<u8>, Seq<Interval>>,
    after: CoverageMap,
    pc: u64,
    n: int,
) -> int
    decreases n,
{
    if n <= 0 {
        0
    } else {
        improved_vars(before, after, pc, n - 1) + if improved_at(
            before,
            after.name_at(n - 1),
            after.set_at(n - 1),
            pc,
        ) {
            1int
        } else {
            0int
        }
    }
}

/// How many of the first `n` variables of `after` are missing at `pc`.
pub open spec fn missing_vars(
    before: Map<Seq<u8>, Seq<Interval>>,
    after: CoverageMap,
    pc: u64,
    n: int,
) -> int
    decreases n,
{
    if n <= 0 {
        0
    } else {
        missing_vars(before, after, pc, n - 1) + if missing_at(
            before,
            after.name_at(n - 1),
            after.set_at(n - 1),
            pc,
        ) {
            1int
        } else {
            0int
        }
    }
}

/// How many pairs of a variable and one of the first `k` program counters
/// are improved.
pub open spec fn improved_pairs(
    before: Map<Seq<u8>, Seq<Interval>>,
    after: CoverageMap,
    insns: Seq<u64>,
    k: int,
) -> int
    decreases k,
{
    if k <= 0 {
        0
    } else {
        improved_pairs(before, after, insns, k - 1) + improved_vars(
            before,
            after,
            insns[k - 1],
            after.spec_len() as int,
        )
    }
}

/// How many pairs of a variable and one of the first `k` program counters
/// are missing.
pub open spec fn missing_pairs(
    before: Map<Seq<u8>, Seq<Interval>>,
    after: CoverageMap,
    insns: Seq<u64>,
    k: int,
) -> int
    decreases k,
{
    if k <= 0 {
        0
    } else {
        missing_pairs(before, after, insns, k - 1) + missing_vars(
            before,
            after,
            insns[k - 1],
            after.spec_len() as int,
        )
    }
}

/// Some variable of `after` is improved at `pc`.
pub open spec fn improved_pc(before: Map<Seq<u8>, Seq<Interval>>, after: CoverageMap, pc: u64) -> bool {
    exists|i: int|
        0 <= i < after.spec_len() && improved_at(
            before,
            #[trigger] after.name_at(i),
            after.set_at(i),
            pc,
        )
}

/// Some variable of `after` is missing at `pc`.
pub open spec fn missing_pc(before: Map<Seq<u8>, Seq<Interval>>, after: CoverageMap, pc: u64) -> bool {
    exists|i: int|
        0 <= i < after.spec_len() && missing_at(
            before,
            #[trigger] after.name_at(i),
            after.set_at(i),
            pc,
        )
}

/// The variable at position `i` of `after` is improved at one of the first
/// `k` program counters.
pub open spec fn improved_var(
    before: Map<Seq<u8>, Seq<Interval>>,
    after: CoverageMap,
    insns: Seq<u64>,
    i: int,
    k: int,
) -> bool {
    exists|j: int|
        0 <= j < k && improved_at(before, after.name_at(i), after.set_at(i), #[trigger] insns[j])
}

/// The variable at position `i` of `after` is missing at one of the first
/// `k` program counters.
pub open spec fn missing_var(
    before: Map<Seq<u8>, Seq<Interval>>,
    after: CoverageMap,
    insns: Seq<u64>,
    i: int,
    k: int,
) -> bool {
    exists|j: int|
        0 <= j < k && missing_at(before, after.name_at(i), after.set_at(i), #[trigger] insns[j])
}

/// How many of the first `n` flags are set.
pub open spec fn flags_set(flags: Seq<bool>, n: int) -> int
    decreases n,
{
    if n <= 0 {
        0
    } else {
        flags_set(flags, n - 1) + if flags[n - 1] {
            1int
        } else {
            0int
        }
    }
}

/// The measurement `more` has everything that `after` has, and possibly
/// more: the same variables at the same positions, each with a location
/// wherever it had one in `after`, and with a real location wherever it had
/// one in `after`; it may have further variables behind them.
pub open spec fn extends(after: CoverageMap, more: CoverageMap) -> bool {
    &&& after.spec_len() <= more.spec_len()
    &&& forall|i: int| 0 <= i < after.spec_len() ==> #[trigger] more.name_at(i) == after.name_at(i)
    &&& forall|i: int, pc: u64|
        0 <= i < after.spec_len() && covered_at(after.set_at(i), pc) ==> #[trigger] covered_at(
            more.set_at(i),
            pc,
        )
    &&& forall|i: int, pc: u64|
        0 <= i < after.spec_len() && real_at(after.set_at(i), pc) ==> #[trigger] real_at(
            more.set_at(i),
            pc,
        )
}

/// At one program counter, a measurement that has more counts no fewer
/// improved and no fewer missing variables.
proof fn vars_are_monotone(
    before: Map<Seq<u8>, Seq<Interval>>,
    after: CoverageMap,
    more: CoverageMap,
    pc: u64,
    n: int,
    m: int,
)
    requires
        extends(after, more),
        0 <= n <= after.spec_len(),
        n <= m <= more.spec_len(),
    ensures
        improved_vars(before, after, pc, n) <= improved_vars(before, more, pc, m),
        missing_vars(before, after, pc, n) <= missing_vars(before, more, pc, m),
    decreases m,
{
    if m > n {
        vars_are_monotone(before, after, more, pc, n, m - 1);
    } else if n > 0 {
        vars_are_monotone(before, after, more, pc, n - 1, m - 1);
        assert(more.name_at(n - 1) == after.name_at(n - 1));
        if real_at(after.set_at(n - 1), pc) {
            assert(real_at(more.set_at(n - 1), pc));
        }
        if covered_at(after.set_at(n - 1), pc) {
            assert(covered_at(more.set_at(n - 1), pc));
        }
    }
}

/// Adding to the later measurement never takes a pair away: a later
/// measurement that has more yields no fewer improved pairs, no fewer
/// missing pairs, and so no fewer pairs that are improved or missing.
pub proof fn diff_is_monotone(
    before: Map<Seq<u8>, Seq<Interval>>,
    after: CoverageMap,
    more: CoverageMap,
    insns: Seq<u64>,
    k: int,
)
    requires
        extends(after, more),
        0 <= k <= insns.len(),
    ensures
        improved_pairs(before, after, insns, k) <= improved_pairs(before, more, insns, k),
        missing_pairs(before, after, insns, k) <= missing_pairs(before, more, insns, k),
        improved_pairs(before, after, insns, k) + missing_pairs(before, after, insns, k)
            <= improved_pairs(before, more, insns, k) + missing_pairs(before, more, insns, k),
    decreases k,
{
    if k > 0 {
        diff_is_monotone(before, after, more, insns, k - 1);
        vars_are_monotone(
            before,
            after,
            more,
            insns[k - 1],
            after.spec_len() as int,
            more.spec_len() as int,
        );
    }
}

/// What the comparison of two measurements yields.
#[derive(Clone, Debug)]
pub struct DiffReport {
    /// The program counters at which some variable is improved, ascending.
    pub improved_pcs: Vec<u64>,
    /// The program counters at which some variable is missing, ascending.
    pub missing_pcs: Vec<u64>,
    /// The program counters at which some variable is improved or missing,
    /// ascending.
    pub improved_or_missing_pcs: Vec<u64>,
    /// For each variable of the later measurement, by position, whether it
    /// is improved somewhere.
    pub improved_vars: Vec<bool>,
    /// For each variable of the later measurement, by position, whether it
    /// is missing somewhere.
    pub missing_vars: Vec<bool>,
    /// The number of variables that are improved or missing somewhere.
    pub improved_or_missing_vars: usize,
    /// The number of variables that are improved somewhere.
    pub improv_var_cnt: usize,
    /// The number of variables that are missing somewhere.
    pub missing_var_cnt: usize,
    /// The number of pairs that are improved or missing.
    pub improved_or_missing_pc_var_pairs: u128,
    /// The number of improved pairs.
    pub const_to_non_const_count: u128,
    /// The number of missing pairs.
    pub missing_count: u128,
}

/// Whether some interval of `set` holds at `pc` and, where `flag` is given,
/// has that constant flag.
fn holds_at(set: &Vec<Interval>, pc: u64, flag: Option<bool>) -> (r: bool)
    ensures
        flag.is_none() ==> r == covered_at(set@, pc),
        flag == Some(true) ==> r == const_at(set@, pc),
        flag == Some(false) ==> r == real_at(set@, pc),
{
    let mut k: usize = 0;
    while k < set.len()
        invariant
            k <= set.len(),
            forall|j: int|
                0 <= j < k ==> !((#[trigger] set@[j]).covers(pc) && (flag matches Some(f)
                    ==> set@[j].is_const == f)),
        decreases set.len() - k,
    {
        let iv = set[k];
        let fits = match flag {
            Some(f) => iv.is_const == f,
            None => true,
        };
        if iv.begin <= pc && pc < iv.end && fits {
            assert(set@[k as int].covers(pc));
            return true;
        }
        k += 1;
    }
    false
}

/// Whether the variable at position `i` of `after` is improved at `pc`, and
/// whether it is missing there.
pub fn compare_at(before: &CoverageMap, after: &CoverageMap, i: usize, pc: u64) -> (r: (bool, bool))
    requires
        before.wf(),
        after.wf(),
        i < after.spec_len(),
    ensures
        r.0 == improved_at(before@, after.name_at(i as int), after.set_at(i as int), pc),
        r.1 == missing_at(before@, after.name_at(i as int), after.set_at(i as int), pc),
        !(r.0 && r.1),
{
    let name = after.name(i);
    let later = after.intervals(i);
    match before.get(name.as_slice()) {
        Some(earlier) => {
            let improved = holds_at(earlier, pc, Some(true)) && holds_at(later, pc, Some(false));
            let missing = holds_at(later, pc, None) && !holds_at(earlier, pc, None);
            proof {
                if const_at(earlier@, pc) {
                    let k = choose|k: int|
                        0 <= k < earlier@.len() && (#[trigger] earlier@[k]).covers(pc)
                            && earlier@[k].is_const;
                    assert(earlier@[k].covers(pc));
                }
            }
            (improved, missing)
        },
        None => (false, holds_at(later, pc, None)),
    }
}

/// The number of set flags.
fn count_flags(flags: &Vec<bool>) -> (n: usize)
    ensures
        n == flags_set(flags@, flags@.len() as int),
{
    let mut n: usize = 0;
    let mut i: usize = 0;
    while i < flags.len()
        invariant
            i <= flags.len(),
            n == flags_set(flags@, i as int),
            n <= i,
        decreases flags.len() - i,
    {
        if flags[i] {
            n += 1;
        }
        i += 1;
    }
    n
}

/// Compares the measurement `after` with the measurement `before` over the
/// program counters `insns`.
pub fn diff(before: &CoverageMap, after: &CoverageMap, insns: &Vec<u64>) -> (report: DiffReport)
    requires
        before.wf(),
        after.wf(),
    ensures
        report.improved_pcs@ == insns@.filter(|pc: u64| improved_pc(before@, *after, pc)),
        report.missing_pcs@ == insns@.filter(|pc: u64| missing_pc(before@, *after, pc)),
        report.improved_or_missing_pcs@ == insns@.filter(
            |pc: u64| improved_pc(before@, *after, pc) || missing_pc(before@, *after, pc),
        ),
        report.improved_vars@.len() == after.spec_len(),
        report.missing_vars@.len() == after.spec_len(),
        forall|i: int|
            0 <= i < after.spec_len() ==> #[trigger] report.improved_vars@[i] == improved_var(
                before@,
                *after,
                insns@,
                i,
                insns@.len() as int,
            ),
        forall|i: int|
            0 <= i < after.spec_len() ==> #[trigger] report.missing_vars@[i] == missing_var(
                before@,
                *after,
                insns@,
                i,
                insns@.len() as int,
            ),
        report.improv_var_cnt == flags_set(report.improved_vars@, after.spec_len() as int),
        report.missing_var_cnt == flags_set(report.missing_vars@, after.spec_len() as int),
        report.improved_or_missing_vars == flags_set(
            Seq::new(
                after.spec_len(),
                |i: int| report.improved_vars@[i] || report.missing_vars@[i],
            ),
            after.spec_len() as int,
        ),
        report.const_to_non_const_count == improved_pairs(
            before@,
            *after,
            insns@,
            insns@.len() as int,
        ),
        report.missing_count == missing_pairs(before@, *after, insns@, insns@.len() as int),
        report.improved_or_missing_pc_var_pairs == report.const_to_non_const_count
            + report.missing_count,
{
    let vars: usize = after.len();
    let pcs: usize = insns.len();
    let mut improved_pcs: Vec<u64> = Vec::new();
    let mut missing_pcs: Vec<u64> = Vec::new();
    let mut either_pcs: Vec<u64> = Vec::new();
    let mut improved_flags: Vec<bool> = Vec::new();
    let mut missing_flags: Vec<bool> = Vec::new();
    let mut i: usize = 0;
    while i < vars
        invariant
            i <= vars,
            improved_flags@.len() == i,
            missing_flags@.len() == i,
            forall|j: int| 0 <= j < i ==> !(#[trigger] improved_flags@[j]),
            forall|j: int| 0 <= j < i ==> !(#[trigger] missing_flags@[j]),
        decreases vars - i,
    {
        improved_flags.push(false);
        missing_flags.push(false);
        i += 1;
    }
    let mut improved_count: u128 = 0;
    let mut missing_count: u128 = 0;
    let mut k: usize = 0;
    proof {
        assert(insns@.subrange(0, 0) =~= Seq::<u64>::empty());
        broadcast use vstd::seq_lib::group_filter_ensures;

    }
    while k < pcs
        invariant
            before.wf(),
            after.wf(),
            vars == after.spec_len(),
            pcs == insns@.len(),
            k <= pcs,
            improved_flags@.len() == vars,
            missing_flags@.len() == vars,
            improved_pcs@ == insns@.subrange(0, k as int).filter(
                |pc: u64| improved_pc(before@, *after, pc),
            ),
            missing_pcs@ == insns@.subrange(0, k as int).filter(
                |pc: u64| missing_pc(before@, *after, pc),
            ),
            either_pcs@ == insns@.subrange(0, k as int).filter(
                |pc: u64| improved_pc(before@, *after, pc) || missing_pc(before@, *after, pc),
            ),
            forall|j: int|
                0 <= j < vars ==> #[trigger] improved_flags@[j] == improved_var(
                    before@,
                    *after,
                    insns@,
                    j,
                    k as int,
                ),
            forall|j: int|
                0 <= j < vars ==> #[trigger] missing_flags@[j] == missing_var(
                    before@,
                    *after,
                    insns@,
                    j,
                    k as int,
                ),
            improved_count == improved_pairs(before@, *after, insns@, k as int),
            missing_count == missing_pairs(before@, *after, insns@, k as int),
            improved_count + missing_count <= k * vars,
        decreases pcs - k,
    {
        let pc: u64 = insns[k];
        let mut improved_here = false;
        let mut missing_here = false;
        let mut here_improved: u128 = 0;
        let mut here_missing: u128 = 0;
        let mut v: usize = 0;
        while v < vars
            invariant
                before.wf(),
                after.wf(),
                vars == after.spec_len(),
                pcs == insns@.len(),
                k < pcs,
                pc == insns@[k as int],
                v <= vars,
                improved_flags@.len() == vars,
                missing_flags@.len() == vars,
                here_improved == improved_vars(before@, *after, pc, v as int),
                here_missing == missing_vars(before@, *after, pc, v as int),
                here_improved + here_missing <= v,
                improved_here == exists|j: int|
                    0 <= j < v && improved_at(
                        before@,
                        #[trigger] after.name_at(j),
                        after.set_at(j),
                        pc,
                    ),
                missing_here == exists|j: int|
                    0 <= j < v && missing_at(
                        before@,
                        #[trigger] after.name_at(j),
                        after.set_at(j),
                        pc,
                    ),
                forall|j: int|
                    0 <= j < vars ==> #[trigger] improved_flags@[j] == improved_var(
                        before@,
                        *after,
                        insns@,
                        j,
                        if j < v {
                            k as int + 1
                        } else {
                            k as int
                        },
                    ),
                forall|j: int|
                    0 <= j < vars ==> #[trigger] missing_flags@[j] == missing_var(
                        before@,
                        *after,
                        insns@,
                        j,
                        if j < v {
                            k as int + 1
                        } else {
                            k as int
                        },
                    ),
            decreases vars - v,
        {
            let (improved, missing) = compare_at(before, after, v, pc);
            proof {
                let name = after.name_at(v as int);
                let set = after.set_at(v as int);
                if improved_var(before@, *after, insns@, v as int, k as int) || improved {
                    if improved {
                        assert(improved_at(before@, name, set, insns@[k as int]));
                    } else {
                        let j = choose|j: int|
                            0 <= j < k && improved_at(before@, name, set, #[trigger] insns@[j]);
                        assert(improved_at(before@, name, set, insns@[j]));
                    }
                    assert(improved_var(before@, *after, insns@, v as int, k as int + 1));
                }
                if improved_var(before@, *after, insns@, v as int, k as int + 1) {
                    let j = choose|j: int|
                        0 <= j < k + 1 && improved_at(before@, name, set, #[trigger] insns@[j]);
                    if j < k {
                        assert(improved_var(before@, *after, insns@, v as int, k as int));
                    }
                }
                if missing_var(before@, *after, insns@, v as int, k as int) || missing {
                    if missing {
                        assert(missing_at(before@, name, set, insns@[k as int]));
                    } else {
                        let j = choose|j: int|
                            0 <= j < k && missing_at(before@, name, set, #[trigger] insns@[j]);
                        assert(missing_at(before@, name, set, insns@[j]));
                    }
                    assert(missing_var(before@, *after, insns@, v as int, k as int + 1));
                }
                if missing_var(before@, *after, insns@, v as int, k as int + 1) {
                    let j = choose|j: int|
                        0 <= j < k + 1 && missing_at(before@, name, set, #[trigger] insns@[j]);
                    if j < k {
                        assert(missing_var(before@, *after, insns@, v as int, k as int));
                    }
                }
            }
            if improved {
                here_improved += 1;
                improved_here = true;
                improved_flags.set(v, true);
            }
            if missing {
                here_missing += 1;
                missing_here = true;
                missing_flags.set(v, true);
            }
            v += 1;
        }
        proof {
            let head = insns@.subrange(0, k as int);
            let next = insns@.subrange(0, k as int + 1);
            assert(next =~= head.push(pc));
            assert(next.drop_last() =~= head);
            reveal(Seq::filter);
            assert(improved_here == improved_pc(before@, *after, pc));
            assert(missing_here == missing_pc(before@, *after, pc));
            assert((k + 1) * vars == k * vars + vars) by (nonlinear_arith);
            assert(k * vars <= 0xffff_ffff_ffff_ffff * 0xffff_ffff_ffff_ffff) by (nonlinear_arith)
                requires
                    0 <= k <= 0xffff_ffff_ffff_ffff,
                    0 <= vars <= 0xffff_ffff_ffff_ffff,
            ;
        }
        if improved_here {
            improved_pcs.push(pc);
        }
        if missing_here {
            missing_pcs.push(pc);
        }
        if improved_here || missing_here {
            either_pcs.push(pc);
        }
        improved_count = improved_count + here_improved;
        missing_count = missing_count + here_missing;
        k += 1;
    }
    assert(insns@.subrange(0, k as int) =~= insns@);
    assert(k * vars <= 0xffff_ffff_ffff_ffff * 0xffff_ffff_ffff_ffff) by (nonlinear_arith)
        requires
            0 <= k <= 0xffff_ffff_ffff_ffff,
            0 <= vars <= 0xffff_ffff_ffff_ffff,
    ;
    let pairs: u128 = improved_count + missing_count;
    let improv_var_cnt: usize = count_flags(&improved_flags);
    let missing_var_cnt: usize = count_flags(&missing_flags);
    let mut either_vars: usize = 0;
    let mut j: usize = 0;
    let ghost either = Seq::new(vars as nat, |i: int| improved_flags@[i] || missing_flags@[i]);
    while j < vars
        invariant
            j <= vars,
            improved_flags@.len() == vars,
            missing_flags@.len() == vars,
            either == Seq::new(vars as nat, |i: int| improved_flags@[i] || missing_flags@[i]),
            either_vars == flags_set(either, j as int),
            either_vars <= j,
        decreases vars - j,
    {
        if improved_flags[j] || missing_flags[j] {
            either_vars += 1;
        }
        j += 1;
    }
    DiffReport {
        improved_pcs,
        missing_pcs,
        improved_or_missing_pcs: either_pcs,
        improved_vars: improved_flags,
        missing_vars: missing_flags,
        improved_or_missing_vars: either_vars,
        improv_var_cnt,
        missing_var_cnt,
        improved_or_missing_pc_var_pairs: pairs,
        const_to_non_const_count: improved_count,
        missing_count,
    }
}

} // verus!
