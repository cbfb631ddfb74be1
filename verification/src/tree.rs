//! Finding a function and its variables in the tree of debug-information
//! entries of a unit that is being rewritten.
//!
//! The tree is kept as a vector of nodes; a node names its children by
//! their positions, and every child stands behind its parent.

use vstd::prelude::*;
use crate::die::DieTag;
use crate::text::bytes_eq;

verus! {

/// One node of the tree.
#[derive(Clone, Debug)]
pub struct TreeNode {
    pub tag: DieTag,
    /// The name, where the node has one in a supported form.
    pub name: Option<Vec<u8>>,
    /// The numeric value of the low pc, where the node gives one as an
    /// address.
    pub low_pc: Option<u64>,
    /// The high pc, where the node gives one as an offset from the low pc.
    pub high_pc: Option<u64>,
    /// Positions of the children, in order.
    pub children: Vec<usize>,
}

/// The tree of a unit.
#[derive(Clone, Debug)]
pub struct DieTree {
    pub nodes: Vec<TreeNode>,
    /// Position of the root.
    pub root: usize,
}

/// A variable that a search found.
#[derive(Clone, Copy, Debug, PartialEq, Eq, Structural)]
pub struct Hit {
    /// Position of the variable's node.
    pub var: usize,
    /// Position of its parent.
    pub parent: usize,
    /// Depth of the variable below the node at which the search began.
    pub depth: usize,
}

/// A range of program counters given by its low pc and its length, either
/// of which may be unknown.
pub type PcRange = (Option<u64>, Option<u64>);

/// Every child of every node stands behind its parent, and the root is a
/// node.
pub open spec fn tree_wf(nodes: Seq<TreeNode>, root: int) -> bool {
    &&& 0 <= root < nodes.len()
    &&& forall|i: int, k: int|
        0 <= i < nodes.len() && 0 <= k < nodes[i].children@.len() ==> i < (
        #[trigger] nodes[i].children@[k]) < nodes.len()
}

/// Whether `node` is a variable or parameter called `name`.
pub open spec fn is_named_variable(node: TreeNode, name: Seq<u8>) -> bool {
    (node.tag == DieTag::Variable || node.tag == DieTag::FormalParameter) && node.name.is_some()
        && node.name.unwrap()@ == name
}

/// Whether the known range `curr` and `[start, end)` overlap.
pub open spec fn range_overlaps(curr: PcRange, start: u64, end: u64) -> bool {
    curr.0.is_some() && curr.1.is_some() && !(curr.0.unwrap() >= end || curr.0.unwrap()
        + curr.1.unwrap() <= start)
}

/// Whether the known range `curr` contains `[start, end)`.
pub open spec fn range_contains(curr: PcRange, start: u64, end: u64) -> bool {
    curr.0.is_some() && curr.1.is_some() && curr.0.unwrap() <= start && curr.0.unwrap()
        + curr.1.unwrap() >= end
}

/// The range that holds below `node`, when `curr` holds at it: the node's
/// own low pc and high pc take the place of the inherited ones, each by
/// itself.
pub open spec fn range_below(node: TreeNode, curr: PcRange) -> PcRange {
    (
        if node.low_pc.is_some() {
            node.low_pc
        } else {
            curr.0
        },
        if node.high_pc.is_some() {
            node.high_pc
        } else {
            curr.1
        },
    )
}

/// The better of two hits when several variables share the name: the
/// deeper one, the earlier one at equal depth.
pub open spec fn deeper(best: Option<Hit>, other: Option<Hit>) -> Option<Hit> {
    match (best, other) {
        (Some(b), Some(o)) => if o.depth > b.depth {
            other
        } else {
            best
        },
        (None, _) => other,
        (_, None) => best,
    }
}

/// The state of a search after the first `k` children of `node` were
/// visited: the best hit so far, and whether the search is over.
///
/// Children are visited in order. A child that is a variable of the wanted
/// name is tested against the range `curr` that holds at `node`. With
/// `single` set, the first such child whose range overlaps `[start, end)`
/// ends the search; otherwise a child whose range contains `[start, end)`
/// is a candidate. Then the subtree of the child is searched, under the
/// range that holds below the child.
pub open spec fn search_children(
    nodes: Seq<TreeNode>,
    node: int,
    k: int,
    depth: int,
    name: Seq<u8>,
    start: u64,
    end: u64,
    curr: PcRange,
    single: bool,
) -> (Option<Hit>, bool)
    decreases nodes.len() - node, 0int, k,
{
    if k <= 0 || node < 0 || node >= nodes.len() {
        (None, false)
    } else {
        let (best, over) = search_children(nodes, node, k - 1, depth, name, start, end, curr, single);
        let child = nodes[node].children@[k - 1] as int;
        if over {
            (best, true)
        } else if !(node < child < nodes.len()) {
            (best, false)
        } else {
            let here = Hit { var: child as usize, parent: node as usize, depth: (depth + 1) as usize };
            let named = is_named_variable(nodes[child], name);
            if named && single && range_overlaps(curr, start, end) {
                (Some(here), true)
            } else {
                let own = if named && !single && range_contains(curr, start, end) {
                    deeper(best, Some(here))
                } else {
                    best
                };
                let below = search_node(
                    nodes,
                    child,
                    depth + 1,
                    name,
                    start,
                    end,
                    range_below(nodes[child], curr),
                    single,
                );
                if below.is_some() && single {
                    (below, true)
                } else {
                    (deeper(own, below), false)
                }
            }
        }
    }
}

/// The variable called `name` that a search below `node` finds for the
/// range `[start, end)`, where `curr` is the range that holds at `node`.
pub open spec fn search_node(
    nodes: Seq<TreeNode>,
    node: int,
    depth: int,
    name: Seq<u8>,
    start: u64,
    end: u64,
    curr: PcRange,
    single: bool,
) -> Option<Hit>
    decreases nodes.len() - node, 1int, 0int,
{
    if node < 0 || node >= nodes.len() {
        None
    } else {
        search_children(
            nodes,
            node,
            nodes[node].children@.len() as int,
            depth,
            name,
            start,
            end,
            curr,
            single,
        ).0
    }
}

/// Whether the known range `curr` and `[start, end)` overlap.
fn overlaps(curr: PcRange, start: u64, end: u64) -> (r: bool)
    ensures
        r == range_overlaps(curr, start, end),
{
    match curr {
        (Some(low), Some(len)) => !(low >= end || low as u128 + len as u128 <= start as u128),
        _ => false,
    }
}

/// Whether the known range `curr` contains `[start, end)`.
fn contains(curr: PcRange, start: u64, end: u64) -> (r: bool)
    ensures
        r == range_contains(curr, start, end),
{
    match curr {
        (Some(low), Some(len)) => low <= start && low as u128 + len as u128 >= end as u128,
        _ => false,
    }
}

/// Executable form of [`deeper`].
fn pick_deeper(best: Option<Hit>, other: Option<Hit>) -> (r: Option<Hit>)
    ensures
        r == deeper(best, other),
{
    match (best, other) {
        (Some(b), Some(o)) => if o.depth > b.depth {
            other
        } else {
            best
        },
        (None, _) => other,
        (_, None) => best,
    }
}

impl TreeNode {
    /// Whether the node is a variable or parameter called `name`.
    pub fn is_variable_named(&self, name: &[u8]) -> (r: bool)
        ensures
            r == is_named_variable(*self, name@),
    {
        let tagged = match self.tag {
            DieTag::Variable => true,
            DieTag::FormalParameter => true,
            _ => false,
        };
        match &self.name {
            Some(own) => tagged && bytes_eq(own.as_slice(), name),
            None => false,
        }
    }

    /// The range that holds below the node; see [`range_below`].
    pub fn scope_below(&self, curr: PcRange) -> (r: PcRange)
        ensures
            r == range_below(*self, curr),
    {
        (
            match self.low_pc {
                Some(low) => Some(low),
                None => curr.0,
            },
            match self.high_pc {
                Some(high) => Some(high),
                None => curr.1,
            },
        )
    }
}

impl DieTree {
    /// Whether the tree is well formed; see [`tree_wf`].
    pub open spec fn wf(&self) -> bool {
        tree_wf(self.nodes@, self.root as int)
    }

    /// Checks that the tree is well formed.
    pub fn check(&self) -> (ok: bool)
        ensures
            ok == self.wf(),
    {
        if self.root >= self.nodes.len() {
            return false;
        }
        let mut i: usize = 0;
        while i < self.nodes.len()
            invariant
                i <= self.nodes.len(),
                forall|a: int, k: int|
                    0 <= a < i && 0 <= k < self.nodes@[a].children@.len() ==> a < (
                    #[trigger] self.nodes@[a].children@[k]) < self.nodes@.len(),
            decreases self.nodes.len() - i,
        {
            let children = &self.nodes[i].children;
            let mut k: usize = 0;
            while k < children.len()
                invariant
                    i < self.nodes.len(),
                    children@ == self.nodes@[i as int].children@,
                    k <= children.len(),
                    forall|j: int|
                        0 <= j < k ==> i < (#[trigger] children@[j]) < self.nodes@.len(),
                decreases children.len() - k,
            {
                if !(i < children[k] && children[k] < self.nodes.len()) {
                    return false;
                }
                k += 1;
            }
            i += 1;
        }
        true
    }

    /// Searches the subtree below `node` for the variable called `var_name`
    /// whose enclosing range fits `expr_rng`; see [`search_children`]. Which
    /// of several fitting variables is found, and that there is a hit
    /// whenever a variable fits, is shown in the module `tree_laws`.
    pub fn get_var_depth(
        &self,
        node: usize,
        var_name: &[u8],
        depth: usize,
        expr_rng: (u64, u64),
        curr_rng: PcRange,
        single: bool,
    ) -> (r: Option<Hit>)
        requires
            self.wf(),
            node < self.nodes@.len(),
            depth + (self.nodes@.len() - node) <= usize::MAX,
        ensures
            r == search_node(
                self.nodes@,
                node as int,
                depth as int,
                var_name@,
                expr_rng.0,
                expr_rng.1,
                curr_rng,
                single,
            ),
        decreases self.nodes@.len() - node,
    {
        let children = &self.nodes[node].children;
        let mut best: Option<Hit> = None;
        let mut k: usize = 0;
        while k < children.len()
            invariant
                self.wf(),
                node < self.nodes@.len(),
                depth + (self.nodes@.len() - node) <= usize::MAX,
                children@ == self.nodes@[node as int].children@,
                k <= children.len(),
                search_children(
                    self.nodes@,
                    node as int,
                    k as int,
                    depth as int,
                    var_name@,
                    expr_rng.0,
                    expr_rng.1,
                    curr_rng,
                    single,
                ) == (best, false),
            decreases children.len() - k,
        {
            let child: usize = children[k];
            assert(node < self.nodes@[node as int].children@[k as int] < self.nodes@.len());
            let here = Hit { var: child, parent: node, depth: depth + 1 };
            let named = self.nodes[child].is_variable_named(var_name);
            if named && single && overlaps(curr_rng, expr_rng.0, expr_rng.1) {
                proof {
                    search_stays_over(
                        self.nodes@,
                        node as int,
                        k as int + 1,
                        children@.len() as int,
                        depth as int,
                        var_name@,
                        expr_rng.0,
                        expr_rng.1,
                        curr_rng,
                        single,
                    );
                }
                return Some(here);
            }
            if named && !single && contains(curr_rng, expr_rng.0, expr_rng.1) {
                best = pick_deeper(best, Some(here));
            }
            let below = self.get_var_depth(
                child,
                var_name,
                depth + 1,
                expr_rng,
                self.nodes[child].scope_below(curr_rng),
                single,
            );
            if below.is_some() && single {
                proof {
                    search_stays_over(
                        self.nodes@,
                        node as int,
                        k as int + 1,
                        children@.len() as int,
                        depth as int,
                        var_name@,
                        expr_rng.0,
                        expr_rng.1,
                        curr_rng,
                        single,
                    );
                }
                return below;
            }
            best = pick_deeper(best, below);
            k += 1;
        }
        best
    }

    /// Finds the variable called `var_name` in the function at `func_id`
    /// for the range `expr_rng`.
    ///
    /// The search begins under the range that the function itself gives by
    /// its low pc and high pc. With `single` set, the first variable of the
    /// name whose enclosing range overlaps `expr_rng` is taken; otherwise
    /// the deepest one whose enclosing range contains `expr_rng`.
    pub fn get_var(&self, func_id: usize, var_name: &[u8], expr_rng: (u64, u64), single: bool) -> (r:
        Option<Hit>)
        requires
            self.wf(),
            func_id < self.nodes@.len(),
        ensures
            r == search_node(
                self.nodes@,
                func_id as int,
                0,
                var_name@,
                expr_rng.0,
                expr_rng.1,
                (self.nodes@[func_id as int].low_pc, self.nodes@[func_id as int].high_pc),
                single,
            ),
    {
        let func = &self.nodes[func_id];
        let len: usize = self.nodes.len();
        assert(self.nodes@.len() == len);
        self.get_var_depth(func_id, var_name, 0, expr_rng, (func.low_pc, func.high_pc), single)
    }

    /// Whether the child number `k` of the root is a function called
    /// `function`.
    pub open spec fn is_function(&self, k: int, function: Seq<u8>) -> bool {
        let child = self.nodes@[self.root as int].children@[k] as int;
        0 <= k < self.nodes@[self.root as int].children@.len() && child < self.nodes@.len()
            && self.nodes@[child].tag == DieTag::Subprogram && self.nodes@[child].name.is_some()
            && self.nodes@[child].name.unwrap()@ == function
    }

    /// Whether the child number `k` of the root is the last child that is a
    /// function called `function`.
    pub open spec fn is_last_function(&self, k: int, function: Seq<u8>) -> bool {
        self.is_function(k, function) && forall|j: int| k < j ==> !self.is_function(j, function)
    }

    /// The position of the function called `function`: the last child of
    /// the root that is a function of that name, if there is one.
    pub open spec fn function_id(&self, function: Seq<u8>) -> Option<usize> {
        if exists|k: int| self.is_last_function(k, function) {
            let k = choose|k: int| self.is_last_function(k, function);
            Some(self.nodes@[self.root as int].children@[k])
        } else {
            None
        }
    }

    /// Finds the function called `function` among the children of the
    /// root; where several have that name, the last one.
    pub fn get_func_id(&self, function: &[u8]) -> (r: Option<usize>)
        requires
            self.wf(),
        ensures
            r == self.function_id(function@),
            r matches Some(id) ==> id < self.nodes@.len(),
    {
        let children = &self.nodes[self.root].children;
        let mut found: Option<usize> = None;
        let ghost mut at: int = -1;
        let mut k: usize = 0;
        while k < children.len()
            invariant
                self.wf(),
                children@ == self.nodes@[self.root as int].children@,
                k <= children.len(),
                found.is_some() == (at >= 0),
                at < k,
                found matches Some(id) ==> self.is_function(at, function@) && id == children@[at],
                forall|j: int| at < j < k ==> !self.is_function(j, function@),
            decreases children.len() - k,
        {
            let child: usize = children[k];
            assert(self.root < self.nodes@[self.root as int].children@[k as int]
                < self.nodes@.len());
            let node = &self.nodes[child];
            let matches = match (&node.tag, &node.name) {
                (DieTag::Subprogram, Some(own)) => bytes_eq(own.as_slice(), function),
                _ => false,
            };
            if matches {
                found = Some(child);
                proof {
                    at = k as int;
                }
            }
            k += 1;
        }
        proof {
            if found.is_some() {
                assert(self.is_last_function(at, function@));
                let c = choose|c: int| self.is_last_function(c, function@);
                if c < at {
                    assert(!self.is_function(at, function@));
                }
                if at < c {
                    assert(!self.is_function(c, function@));
                }
            } else {
                assert forall|c: int| !self.is_last_function(c, function@) by {
                    if self.is_function(c, function@) {
                        assert(at < c < k);
                    }
                }
            }
        }
        found
    }
}

/// Whether `hit` names a variable called `name` together with its parent.
pub open spec fn is_hit(nodes: Seq<TreeNode>, name: Seq<u8>, hit: Hit) -> bool {
    &&& hit.var < nodes.len()
    &&& hit.parent < nodes.len()
    &&& is_named_variable(nodes[hit.var as int], name)
    &&& nodes[hit.parent as int].children@.contains(hit.var)
}

/// Whatever a search of the first `k` children of a node finds is a
/// variable of the wanted name, named together with its parent.
pub proof fn search_children_finds_variable(
    nodes: Seq<TreeNode>,
    node: int,
    k: int,
    depth: int,
    name: Seq<u8>,
    start: u64,
    end: u64,
    curr: PcRange,
    single: bool,
)
    requires
        0 <= node < nodes.len(),
        0 <= k <= nodes[node].children@.len(),
    ensures
        search_children(nodes, node, k, depth, name, start, end, curr, single).0 matches Some(hit)
            ==> is_hit(nodes, name, hit),
    decreases nodes.len() - node, 0int, k,
{
    if k > 0 {
        search_children_finds_variable(nodes, node, k - 1, depth, name, start, end, curr, single);
        let child = nodes[node].children@[k - 1] as int;
        if node < child < nodes.len() {
            assert(nodes[node].children@.contains(child as usize));
            search_finds_variable(
                nodes,
                child,
                depth + 1,
                name,
                start,
                end,
                range_below(nodes[child], curr),
                single,
            );
        }
    }
}

/// Whatever a search below a node finds is a variable of the wanted name,
/// named together with its parent.
pub proof fn search_finds_variable(
    nodes: Seq<TreeNode>,
    node: int,
    depth: int,
    name: Seq<u8>,
    start: u64,
    end: u64,
    curr: PcRange,
    single: bool,
)
    ensures
        search_node(nodes, node, depth, name, start, end, curr, single) matches Some(hit)
            ==> is_hit(nodes, name, hit),
    decreases nodes.len() - node, 1int, 0int,
{
    if 0 <= node < nodes.len() {
        search_children_finds_variable(
            nodes,
            node,
            nodes[node].children@.len() as int,
            depth,
            name,
            start,
            end,
            curr,
            single,
        );
    }
}

/// A search that is over stays over, with the same hit.
proof fn search_stays_over(
    nodes: Seq<TreeNode>,
    node: int,
    k: int,
    n: int,
    depth: int,
    name: Seq<u8>,
    start: u64,
    end: u64,
    curr: PcRange,
    single: bool,
)
    requires
        0 <= node < nodes.len(),
        0 < k <= n,
        search_children(nodes, node, k, depth, name, start, end, curr, single).1,
    ensures
        search_children(nodes, node, n, depth, name, start, end, curr, single) == search_children(
            nodes,
            node,
            k,
            depth,
            name,
            start,
            end,
            curr,
            single,
        ),
    decreases n - k,
{
    if k < n {
        search_stays_over(nodes, node, k, n - 1, depth, name, start, end, curr, single);
    }
}

} // verus!
