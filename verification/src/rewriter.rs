//! Carrying out a whole rewrite script on one function.

use vstd::prelude::*;
use vstd::string::StringSliceAdditionalSpecFns;
use crate::address::{Address, AddressTable};
use crate::die::{found_at, get_func_entry_offset, is_function_at, walk_end, DieRecord};
use crate::record::{empty_scope_of, read_existing_location_lists, records_of, ScopedRecord};
use crate::rewrite::{
    base_name, edited_records, function_zero, list_views, planned, rewrite_entry,
    zero_for_function, Edit, Outcome, Plan, RewriteError, RewriteState,
};
use crate::script::{parse_script, script_view, LineView, ScriptError, ScriptLine, ScriptView};
use crate::splice::Location;
use crate::text::{trim, trimmed};
use crate::tree::{DieTree, TreeNode};

verus! {

/// Why a script could not be carried out.
#[derive(Clone, Copy, Debug, PartialEq, Eq, Structural)]
pub enum RewriteFailure {
    /// The script could not be read.
    Script(ScriptError),
    /// The tree of the unit is not well formed.
    MalformedTree,
    /// The entries of the unit hold no function of the wanted name.
    NoFunction,
    /// The function does not say where it begins.
    NoLowPc,
    /// The address that ranges are counted from could not be worked out.
    Zero(RewriteError),
    /// The entry number `line` of the list could not be carried out. The
    /// rewrite is given up at that entry and no list is handed out.
    Entry { line: usize, error: RewriteError },
}

/// What carrying out a script yields.
#[derive(Clone, Debug)]
pub struct Rewrite {
    /// The new location lists, in the order in which they were made.
    pub lists: Vec<Vec<Location>>,
    /// How each entry of the list ended, in order.
    pub outcomes: Vec<Outcome>,
}

/// How far a script has been carried out.
pub struct Progress {
    /// The records of every name.
    pub records: Map<Seq<u8>, Seq<ScopedRecord>>,
    /// The new location lists so far.
    pub lists: Seq<Seq<Location>>,
    /// How the entries so far ended.
    pub outcomes: Seq<Outcome>,
}

/// The records of every name of the function whose entry stands at
/// `start`, as collected before any entry of the script is carried out.
pub open spec fn collected(dies: Seq<DieRecord>, start: int) -> Map<Seq<u8>, Seq<ScopedRecord>> {
    Map::new(
        |name: Seq<u8>| true,
        |name: Seq<u8>| records_of(dies, start, walk_end(dies, start) - start, name),
    )
}

/// The state after the first `k` entries of the list were carried out, or
/// the entry that failed and its error.
pub open spec fn after_lines(
    table: Seq<Address>,
    dies: Seq<DieRecord>,
    nodes: Seq<TreeNode>,
    start: int,
    func: Option<usize>,
    unit_low_pc: u64,
    zero: u64,
    lines: Seq<LineView>,
    k: int,
) -> Result<Progress, (usize, RewriteError)>
    decreases k,
{
    if k <= 0 {
        Ok(
            Progress {
                records: collected(dies, start),
                lists: Seq::<Seq<Location>>::empty(),
                outcomes: Seq::<Outcome>::empty(),
            },
        )
    } else {
        match after_lines(table, dies, nodes, start, func, unit_low_pc, zero, lines, k - 1) {
            Err(e) => Err(e),
            Ok(p) => {
                let line = lines[k - 1];
                let base = base_name(line.name);
                match planned(
                    table,
                    dies,
                    p.lists,
                    nodes,
                    p.records[base],
                    empty_scope_of(dies, start, walk_end(dies, start) - start, base),
                    func,
                    unit_low_pc,
                    zero,
                    line.name,
                    line.begin,
                    line.end,
                    (k - 1) as usize,
                ) {
                    Err(e) => Err(((k - 1) as usize, e)),
                    Ok(Plan::Skip(reason)) => Ok(
                        Progress {
                            records: p.records,
                            lists: p.lists,
                            outcomes: p.outcomes.push(Outcome::Skipped(reason)),
                        },
                    ),
                    Ok(Plan::Go { hit, choice, list, was_const, drop_ranges }) => Ok(
                        Progress {
                            records: p.records.insert(
                                base,
                                edited_records(p.records[base], choice, p.lists.len() as usize),
                            ),
                            lists: p.lists.push(list),
                            outcomes: p.outcomes.push(
                                Outcome::Edited(
                                    Edit {
                                        var: hit.var,
                                        parent: hit.parent,
                                        list: p.lists.len() as usize,
                                        delete_const_value: was_const,
                                        delete_parent_ranges: drop_ranges,
                                    },
                                ),
                            ),
                        },
                    ),
                }
            },
        }
    }
}

/// Once an entry has failed, the script stays failed at that entry.
proof fn after_lines_fails_on(
    table: Seq<Address>,
    dies: Seq<DieRecord>,
    nodes: Seq<TreeNode>,
    start: int,
    func: Option<usize>,
    unit_low_pc: u64,
    zero: u64,
    lines: Seq<LineView>,
    k: int,
    n: int,
)
    requires
        0 <= k <= n,
        after_lines(table, dies, nodes, start, func, unit_low_pc, zero, lines, k).is_err(),
    ensures
        after_lines(table, dies, nodes, start, func, unit_low_pc, zero, lines, n) == after_lines(
            table,
            dies,
            nodes,
            start,
            func,
            unit_low_pc,
            zero,
            lines,
            k,
        ),
    decreases n - k,
{
    if k < n {
        after_lines_fails_on(table, dies, nodes, start, func, unit_low_pc, zero, lines, k, n - 1);
    }
}

/// Whether `r` is the failure `e`.
pub open spec fn fails_with(r: Result<Rewrite, RewriteFailure>, e: RewriteFailure) -> bool {
    match r {
        Ok(_) => false,
        Err(got) => got == e,
    }
}

/// Whether `r` is the right outcome of carrying out the script `script` on
/// the function that it names, found at `index` among the entries.
pub open spec fn carried_out(
    table: Seq<Address>,
    dies: Seq<DieRecord>,
    tree: DieTree,
    unit_low_pc: u64,
    script: ScriptView,
    index: int,
    r: Result<Rewrite, RewriteFailure>,
) -> bool {
    if dies[index].low_pc.is_none() {
        fails_with(r, RewriteFailure::NoLowPc)
    } else {
        match function_zero(table, script.zero_address, dies[index].low_pc.unwrap()) {
            Err(e) => fails_with(r, RewriteFailure::Zero(e)),
            Ok(zero) => match after_lines(
                table,
                dies,
                tree.nodes@,
                index,
                tree.function_id(trimmed(script.function)),
                unit_low_pc,
                zero,
                script.lines,
                script.lines.len() as int,
            ) {
                Err((line, error)) => fails_with(r, RewriteFailure::Entry { line, error }),
                Ok(p) => r matches Ok(done) && list_views(done.lists@) == p.lists && done.outcomes@
                    == p.outcomes,
            },
        }
    }
}

/// Whether `r` is the right outcome of carrying out the script `text`.
///
/// The outcome is `Script` exactly if the script cannot be read, else
/// `MalformedTree` exactly if the tree is not well formed, else
/// `NoFunction` exactly if the entries of the unit hold no function of the
/// name that the script gives. Otherwise it is what carrying out the
/// entries of the list in order comes to; see [`carried_out`].
///
/// Every failure stands for a rewrite that is given up as a whole. An entry
/// whose range is empty or reversed is such a failure, `Entry` with
/// `EmptyRange`: it is not passed over as an entry without a fitting
/// variable is.
pub open spec fn rewrite_outcome(
    table: Seq<Address>,
    dies: Seq<DieRecord>,
    tree: DieTree,
    unit_low_pc: u64,
    text: Seq<u8>,
    r: Result<Rewrite, RewriteFailure>,
) -> bool {
    match script_view(text) {
        Err(e) => fails_with(r, RewriteFailure::Script(e)),
        Ok(script) => if !tree.wf() {
            fails_with(r, RewriteFailure::MalformedTree)
        } else {
            &&& (forall|k: int| !is_function_at(dies, script.function, k)) ==> fails_with(
                r,
                RewriteFailure::NoFunction,
            )
            &&& forall|k: int|
                found_at(dies, script.function, k) ==> carried_out(
                    table,
                    dies,
                    tree,
                    unit_low_pc,
                    script,
                    k,
                    r,
                )
        },
    }
}

/// The views of the lines of a list.
pub open spec fn line_views(lines: Seq<ScriptLine>) -> Seq<LineView> {
    lines.map_values(|line: ScriptLine| line@)
}

/// Carries out the entries `lines` of a list in order, for the function
/// whose entry stands at `start` among the entries of the unit and at
/// `func` in the tree; see [`after_lines`].
pub fn carry_out(
    dies: &Vec<DieRecord>,
    tree: &DieTree,
    table: &AddressTable,
    start: usize,
    func: Option<usize>,
    unit_low_pc: u64,
    zero: u64,
    lines: &Vec<ScriptLine>,
) -> (r: Result<Rewrite, (usize, RewriteError)>)
    requires
        tree.wf(),
        func matches Some(f) ==> f < tree.nodes@.len(),
        start < dies@.len(),
    ensures
        match after_lines(
            table@,
            dies@,
            tree.nodes@,
            start as int,
            func,
            unit_low_pc,
            zero,
            line_views(lines@),
            lines@.len() as int,
        ) {
            Err(e) => r matches Err(got) && got == e,
            Ok(p) => r matches Ok(done) && list_views(done.lists@) == p.lists && done.outcomes@
                == p.outcomes,
        },
{
    let vars = read_existing_location_lists(dies, start);
    let mut state = RewriteState { vars, lists: Vec::new() };
    let mut outcomes: Vec<Outcome> = Vec::new();
    let ghost span = walk_end(dies@, start as int) - start;
    let ghost mut records = collected(dies@, start as int);
    let ghost views = line_views(lines@);
    let mut i: usize = 0;
    assert(list_views(state.lists@) =~= Seq::<Seq<Location>>::empty());
    while i < lines.len()
        invariant
            i <= lines.len(),
            tree.wf(),
            func matches Some(f) ==> f < tree.nodes@.len(),
            views == line_views(lines@),
            span == walk_end(dies@, start as int) - start,
            forall|name: Seq<u8>| records.dom().contains(name),
            state.vars.wf(),
            forall|name: Seq<u8>| #[trigger] state.vars.records(name) == records[name],
            forall|name: Seq<u8>|
                #[trigger] state.vars.empty_scope(name) == empty_scope_of(
                    dies@,
                    start as int,
                    span,
                    name,
                ),
            after_lines(
                table@,
                dies@,
                tree.nodes@,
                start as int,
                func,
                unit_low_pc,
                zero,
                views,
                i as int,
            ) == Ok::<Progress, (usize, RewriteError)>(
                Progress { records, lists: list_views(state.lists@), outcomes: outcomes@ },
            ),
        decreases lines.len() - i,
    {
        let line = &lines[i];
        let ghost view = views[i as int];
        assert(view == line@);
        let ghost base = base_name(view.name);
        let ghost before = state;
        assert(before.vars.records(base) == records[base]);
        assert(before.vars.empty_scope(base) == empty_scope_of(dies@, start as int, span, base));
        let ghost plan = planned(
            table@,
            dies@,
            list_views(before.lists@),
            tree.nodes@,
            records[base],
            empty_scope_of(dies@, start as int, span, base),
            func,
            unit_low_pc,
            zero,
            view.name,
            view.begin,
            view.end,
            i,
        );
        match rewrite_entry(
            &mut state,
            table,
            dies,
            tree,
            func,
            unit_low_pc,
            zero,
            line.name.as_slice(),
            line.begin,
            line.end,
            i,
        ) {
            Err(e) => {
                proof {
                    assert(plan == Err::<Plan, RewriteError>(e));
                    after_lines_fails_on(
                        table@,
                        dies@,
                        tree.nodes@,
                        start as int,
                        func,
                        unit_low_pc,
                        zero,
                        views,
                        i as int + 1,
                        views.len() as int,
                    );
                }
                return Err((i, e));
            },
            Ok(outcome) => {
                proof {
                    match outcome {
                        Outcome::Skipped(_) => {
                            assert(plan is Ok && plan->Ok_0 is Skip);
                        },
                        Outcome::Edited(edit) => {
                            assert(plan is Ok && plan->Ok_0 is Go);
                            let choice = plan->Ok_0->Go_choice;
                            let next = records.insert(
                                base,
                                edited_records(records[base], choice, before.lists@.len() as usize),
                            );
                            assert forall|name: Seq<u8>| #[trigger] state.vars.records(name)
                                == next[name] by {
                                if name != base {
                                    assert(before.vars.records(name) == state.vars.records(name));
                                }
                            }
                            records = next;
                        },
                    }
                }
                outcomes.push(outcome);
            },
        }
        i += 1;
    }
    Ok(Rewrite { lists: state.lists, outcomes })
}

/// Carries out the rewrite script `script_text` on the function that it
/// names.
///
/// `dies` holds the entries of the unit as read, `tree` the tree that is
/// being rewritten, `table` the addresses that reading registered, and
/// `unit_low_pc` the low pc of the unit. Entries of the list that are
/// skipped leave no trace but their outcome; the first entry that fails
/// ends the rewrite. See [`rewrite_outcome`].
///
/// A failure stands for giving the rewrite up: no list is handed out, and
/// the caller is to stop without writing a section. This holds in
/// particular of an entry whose range is empty or reversed once it is
/// counted from the zero address and cut down to the scope of its variable:
/// it ends the rewrite as `Entry` with `EmptyRange`, whatever the entries
/// before it achieved.
pub fn rewrite_dwarf(
    dies: &Vec<DieRecord>,
    tree: &DieTree,
    table: &AddressTable,
    unit_low_pc: u64,
    script_text: &str,
) -> (r: Result<Rewrite, RewriteFailure>)
    ensures
        rewrite_outcome(table@, dies@, *tree, unit_low_pc, script_text.spec_bytes(), r),
{
    let script = match parse_script(script_text) {
        Ok(script) => script,
        Err(e) => {
            return Err(RewriteFailure::Script(e));
        },
    };
    if !tree.check() {
        return Err(RewriteFailure::MalformedTree);
    }
    let found = match get_func_entry_offset(dies, script.function.as_slice()) {
        Some(found) => found,
        None => {
            return Err(RewriteFailure::NoFunction);
        },
    };
    proof {
        assert(found_at(dies@, script@.function, found.index as int));
        assert forall|k: int| found_at(dies@, script@.function, k) implies k == found.index by {
            if k > found.index {
                assert(!is_function_at(dies@, script@.function, found.index as int));
            }
        }
    }
    let low_pc: u64 = match found.low_pc {
        Some(low_pc) => low_pc,
        None => {
            return Err(RewriteFailure::NoLowPc);
        },
    };
    let zero: u64 = match zero_for_function(table, script.zero_address, low_pc) {
        Ok(zero) => zero,
        Err(e) => {
            return Err(RewriteFailure::Zero(e));
        },
    };
    let func = tree.get_func_id(trim(script.function.as_slice()));
    match carry_out(dies, tree, table, found.index, func, unit_low_pc, zero, &script.lines) {
        Ok(done) => Ok(done),
        Err((line, error)) => Err(RewriteFailure::Entry { line, error }),
    }
}

} // verus!
