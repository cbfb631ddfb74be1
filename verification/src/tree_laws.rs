//! What holds of every search for a variable in the tree of a unit: which of
//! the variables below the node at which the search begins is found.
//!
//! A variable below a node is named by the way that leads to it: the
//! position of a child among the children of the node, then the position of
//! a child among the children of that child, and so on.

use vstd::prelude::*;
use crate::tree::{
    deeper, is_hit, is_named_variable, range_below, range_contains, range_overlaps,
    search_children, search_node, Hit, PcRange, TreeNode,
};

verus! {

/// Whether the known range `curr` fits `[start, end)` for a search: with
/// `single` set it has to overlap `[start, end)`, otherwise to contain it.
pub open spec fn range_fits(curr: PcRange, start: u64, end: u64, single: bool) -> bool {
    if single {
        range_overlaps(curr, start, end)
    } else {
        range_contains(curr, start, end)
    }
}

/// The hit that the way `path` from `node` stands for, if it leads to a
/// candidate of the search: a variable called `name` whose parent lies
/// under a range that fits `[start, end)`. `curr` is the range that holds
/// at `node`, and `depth` the depth of `node`.
pub open spec fn candidate(
    nodes: Seq<TreeNode>,
    node: int,
    depth: int,
    name: Seq<u8>,
    start: u64,
    end: u64,
    curr: PcRange,
    single: bool,
    path: Seq<int>,
) -> Option<Hit>
    decreases path.len(),
{
    if path.len() == 0 || !(0 <= node < nodes.len()) || !(0 <= path[0]
        < nodes[node].children@.len()) {
        None
    } else {
        let child = nodes[node].children@[path[0]] as int;
        if !(node < child < nodes.len()) {
            None
        } else if path.len() == 1 {
            if is_named_variable(nodes[child], name) && range_fits(curr, start, end, single) {
                Some(Hit { var: child as usize, parent: node as usize, depth: (depth + 1) as usize })
            } else {
                None
            }
        } else {
            candidate(
                nodes,
                child,
                depth + 1,
                name,
                start,
                end,
                range_below(nodes[child], curr),
                single,
                path.skip(1),
            )
        }
    }
}

/// Whether a search comes to the end of the way `a` before it comes to the
/// end of the way `b`: a node is visited before the nodes below it, and the
/// children of a node in their order.
pub open spec fn visited_before(a: Seq<int>, b: Seq<int>) -> bool
    decreases a.len(),
{
    if b.len() == 0 {
        false
    } else if a.len() == 0 {
        true
    } else if a[0] != b[0] {
        a[0] < b[0]
    } else {
        visited_before(a.skip(1), b.skip(1))
    }
}

/// Whether a search takes the candidate at the end of `a` rather than the
/// one at the end of `b`: with `single` set the one that is visited first,
/// otherwise the deeper one, and of two at the same depth the one that is
/// visited first.
pub open spec fn preferred(single: bool, a: Seq<int>, b: Seq<int>) -> bool {
    if single {
        visited_before(a, b)
    } else {
        a.len() > b.len() || (a.len() == b.len() && visited_before(a, b))
    }
}

/// A candidate lies below the node at which the search begins, as deep as
/// its way is long, and is a variable of the wanted name, named together
/// with its parent.
pub proof fn candidate_lies_below(
    nodes: Seq<TreeNode>,
    node: int,
    depth: int,
    name: Seq<u8>,
    start: u64,
    end: u64,
    curr: PcRange,
    single: bool,
    path: Seq<int>,
)
    requires
        0 <= depth,
        depth + (nodes.len() - node) <= usize::MAX,
        candidate(nodes, node, depth, name, start, end, curr, single, path).is_some(),
    ensures
        ({
            let hit = candidate(nodes, node, depth, name, start, end, curr, single, path).unwrap();
            &&& path.len() > 0
            &&& node <= hit.parent < hit.var < nodes.len()
            &&& hit.depth == depth + path.len()
            &&& is_hit(nodes, name, hit)
        }),
    decreases path.len(),
{
    let child = nodes[node].children@[path[0]] as int;
    if path.len() == 1 {
        assert(nodes[node].children@.contains(child as usize));
    } else {
        candidate_lies_below(
            nodes,
            child,
            depth + 1,
            name,
            start,
            end,
            range_below(nodes[child], curr),
            single,
            path.skip(1),
        );
    }
}

/// What holds of a search that takes the first fitting variable, once the
/// first `k` children of `node` were visited: it is over exactly if it has
/// a hit, the hit is the candidate at the end of `path`, and no candidate
/// among those children is visited before it.
spec fn first_so_far(
    nodes: Seq<TreeNode>,
    node: int,
    k: int,
    depth: int,
    name: Seq<u8>,
    start: u64,
    end: u64,
    curr: PcRange,
    path: Seq<int>,
) -> bool {
    let (best, over) = search_children(nodes, node, k, depth, name, start, end, curr, true);
    &&& over == best.is_some()
    &&& best.is_some() ==> candidate(nodes, node, depth, name, start, end, curr, true, path) == best
        && path[0] < k
    &&& forall|other: Seq<int>|
        (#[trigger] candidate(nodes, node, depth, name, start, end, curr, true, other)).is_some()
            && other[0] < k ==> best.is_some() && !visited_before(other, path)
}

/// What holds of a search that takes the deepest containing variable, once
/// the first `k` children of `node` were visited: it is not over, its hit
/// is the candidate at the end of `path`, and no candidate among those
/// children is preferred to it.
spec fn deepest_so_far(
    nodes: Seq<TreeNode>,
    node: int,
    k: int,
    depth: int,
    name: Seq<u8>,
    start: u64,
    end: u64,
    curr: PcRange,
    path: Seq<int>,
) -> bool {
    let (best, over) = search_children(nodes, node, k, depth, name, start, end, curr, false);
    &&& !over
    &&& best.is_some() ==> candidate(nodes, node, depth, name, start, end, curr, false, path)
        == best && path[0] < k
    &&& forall|other: Seq<int>|
        (#[trigger] candidate(nodes, node, depth, name, start, end, curr, false, other)).is_some()
            && other[0] < k ==> best.is_some() && !preferred(false, other, path)
}

/// The way to the hit of a search that takes the first fitting variable,
/// after the first `k` children of `node`.
proof fn first_among_children(
    nodes: Seq<TreeNode>,
    node: int,
    k: int,
    depth: int,
    name: Seq<u8>,
    start: u64,
    end: u64,
    curr: PcRange,
) -> (path: Seq<int>)
    requires
        0 <= node < nodes.len(),
        0 <= k <= nodes[node].children@.len(),
    ensures
        first_so_far(nodes, node, k, depth, name, start, end, curr, path),
    decreases nodes.len() - node, 0int, k,
{
    if k <= 0 {
        return Seq::<int>::empty();
    }
    let prev = first_among_children(nodes, node, k - 1, depth, name, start, end, curr);
    let (best0, over0) = search_children(nodes, node, k - 1, depth, name, start, end, curr, true);
    let child = nodes[node].children@[k - 1] as int;
    if over0 || !(node < child < nodes.len()) {
        return prev;
    }
    let here = seq![k - 1];
    if is_named_variable(nodes[child], name) && range_overlaps(curr, start, end) {
        assert(here.skip(1).len() == 0);
        assert forall|other: Seq<int>|
            (#[trigger] candidate(
                nodes,
                node,
                depth,
                name,
                start,
                end,
                curr,
                true,
                other,
            )).is_some() && other[0] < k implies !visited_before(other, here) by {
            assert(best0.is_none());
            assert(other[0] == k - 1);
            assert(!visited_before(other.skip(1), here.skip(1)));
        }
        return here;
    }
    let below = search_node(
        nodes,
        child,
        depth + 1,
        name,
        start,
        end,
        range_below(nodes[child], curr),
        true,
    );
    let sub = first_below(nodes, child, depth + 1, name, start, end, range_below(nodes[child], curr));
    let path = here + sub;
    assert(path.skip(1) =~= sub);
    assert forall|other: Seq<int>|
        (#[trigger] candidate(nodes, node, depth, name, start, end, curr, true, other)).is_some()
            && other[0] < k implies below.is_some() && !visited_before(other, path) by {
        if other[0] == k - 1 {
            assert(candidate(
                nodes,
                child,
                depth + 1,
                name,
                start,
                end,
                range_below(nodes[child], curr),
                true,
                other.skip(1),
            ).is_some());
        }
    }
    path
}

/// The way to the hit of a search below `node` that takes the first
/// fitting variable: no candidate is visited before it, and where there is
/// no hit there is no candidate.
proof fn first_below(
    nodes: Seq<TreeNode>,
    node: int,
    depth: int,
    name: Seq<u8>,
    start: u64,
    end: u64,
    curr: PcRange,
) -> (path: Seq<int>)
    ensures
        ({
            let found = search_node(nodes, node, depth, name, start, end, curr, true);
            &&& found.is_some() ==> candidate(nodes, node, depth, name, start, end, curr, true, path)
                == found
            &&& forall|other: Seq<int>|
                (#[trigger] candidate(
                    nodes,
                    node,
                    depth,
                    name,
                    start,
                    end,
                    curr,
                    true,
                    other,
                )).is_some() ==> found.is_some() && !visited_before(other, path)
        }),
    decreases nodes.len() - node, 1int, 0int,
{
    if 0 <= node < nodes.len() {
        first_among_children(
            nodes,
            node,
            nodes[node].children@.len() as int,
            depth,
            name,
            start,
            end,
            curr,
        )
    } else {
        Seq::<int>::empty()
    }
}

/// The way to the hit of a search that takes the deepest containing
/// variable, after the first `k` children of `node`.
proof fn deepest_among_children(
    nodes: Seq<TreeNode>,
    node: int,
    k: int,
    depth: int,
    name: Seq<u8>,
    start: u64,
    end: u64,
    curr: PcRange,
) -> (path: Seq<int>)
    requires
        0 <= node < nodes.len(),
        0 <= k <= nodes[node].children@.len(),
        0 <= depth,
        depth + (nodes.len() - node) <= usize::MAX,
    ensures
        deepest_so_far(nodes, node, k, depth, name, start, end, curr, path),
    decreases nodes.len() - node, 0int, k,
{
    if k <= 0 {
        return Seq::<int>::empty();
    }
    let prev = deepest_among_children(nodes, node, k - 1, depth, name, start, end, curr);
    let best0 = search_children(nodes, node, k - 1, depth, name, start, end, curr, false).0;
    let child = nodes[node].children@[k - 1] as int;
    if !(node < child < nodes.len()) {
        return prev;
    }
    let below_range = range_below(nodes[child], curr);
    let here = seq![k - 1];
    let fits_here = is_named_variable(nodes[child], name) && range_contains(curr, start, end);
    let own = if fits_here {
        deeper(
            best0,
            Some(Hit { var: child as usize, parent: node as usize, depth: (depth + 1) as usize }),
        )
    } else {
        best0
    };
    let own_path = if fits_here && best0.is_none() {
        here
    } else {
        prev
    };
    assert(here.skip(1).len() == 0);
    if best0.is_some() {
        candidate_lies_below(nodes, node, depth, name, start, end, curr, false, prev);
    }
    assert(own.is_some() ==> candidate(nodes, node, depth, name, start, end, curr, false, own_path)
        == own);
    let below = search_node(nodes, child, depth + 1, name, start, end, below_range, false);
    let sub = deepest_below(nodes, child, depth + 1, name, start, end, below_range);
    let sub_path = here + sub;
    assert(sub_path.skip(1) =~= sub);
    if own.is_some() {
        candidate_lies_below(nodes, node, depth, name, start, end, curr, false, own_path);
    }
    if below.is_some() {
        candidate_lies_below(nodes, child, depth + 1, name, start, end, below_range, false, sub);
        assert(candidate(nodes, node, depth, name, start, end, curr, false, sub_path) == below);
    }
    let takes_below = below.is_some() && (own.is_none() || below.unwrap().depth
        > own.unwrap().depth);
    let path = if takes_below {
        sub_path
    } else {
        own_path
    };
    assert(deeper(own, below).is_some() ==> candidate(
        nodes,
        node,
        depth,
        name,
        start,
        end,
        curr,
        false,
        path,
    ) == deeper(own, below) && path[0] < k);
    assert forall|other: Seq<int>|
        (#[trigger] candidate(nodes, node, depth, name, start, end, curr, false, other)).is_some()
            && other[0] < k implies deeper(own, below).is_some() && !preferred(
        false,
        other,
        path,
    ) by {
        if other[0] < k - 1 {
            assert(!preferred(false, other, prev));
        } else if other.len() == 1 {
            assert(fits_here);
            assert(!visited_before(other.skip(1), here.skip(1)));
        } else {
            assert(candidate(
                nodes,
                child,
                depth + 1,
                name,
                start,
                end,
                below_range,
                false,
                other.skip(1),
            ).is_some());
            assert(!preferred(false, other.skip(1), sub));
        }
    }
    path
}

/// The way to the hit of a search below `node` that takes the deepest
/// containing variable: no candidate is preferred to it, and where there
/// is no hit there is no candidate.
proof fn deepest_below(
    nodes: Seq<TreeNode>,
    node: int,
    depth: int,
    name: Seq<u8>,
    start: u64,
    end: u64,
    curr: PcRange,
) -> (path: Seq<int>)
    requires
        0 <= depth,
        depth + (nodes.len() - node) <= usize::MAX,
    ensures
        ({
            let found = search_node(nodes, node, depth, name, start, end, curr, false);
            &&& found.is_some() ==> candidate(
                nodes,
                node,
                depth,
                name,
                start,
                end,
                curr,
                false,
                path,
            ) == found
            &&& forall|other: Seq<int>|
                (#[trigger] candidate(
                    nodes,
                    node,
                    depth,
                    name,
                    start,
                    end,
                    curr,
                    false,
                    other,
                )).is_some() ==> found.is_some() && !preferred(false, other, path)
        }),
    decreases nodes.len() - node, 1int, 0int,
{
    if 0 <= node < nodes.len() {
        deepest_among_children(
            nodes,
            node,
            nodes[node].children@.len() as int,
            depth,
            name,
            start,
            end,
            curr,
        )
    } else {
        Seq::<int>::empty()
    }
}

/// A search that finds a variable finds a candidate, and the one that it
/// prefers to all others: with `single` set the candidate that is visited
/// first, otherwise the deepest one, and of several at that depth the one
/// that is visited first. The way to it is handed out.
pub proof fn search_finds_the_preferred(
    nodes: Seq<TreeNode>,
    node: int,
    depth: int,
    name: Seq<u8>,
    start: u64,
    end: u64,
    curr: PcRange,
    single: bool,
) -> (path: Seq<int>)
    requires
        0 <= depth,
        depth + (nodes.len() - node) <= usize::MAX,
        search_node(nodes, node, depth, name, start, end, curr, single).is_some(),
    ensures
        candidate(nodes, node, depth, name, start, end, curr, single, path) == search_node(
            nodes,
            node,
            depth,
            name,
            start,
            end,
            curr,
            single,
        ),
        forall|other: Seq<int>|
            (#[trigger] candidate(
                nodes,
                node,
                depth,
                name,
                start,
                end,
                curr,
                single,
                other,
            )).is_some() ==> !preferred(single, other, path),
{
    if single {
        first_below(nodes, node, depth, name, start, end, curr)
    } else {
        deepest_below(nodes, node, depth, name, start, end, curr)
    }
}

/// Where a way leads to a candidate, a search finds a variable: a search
/// finds nothing only if there is no candidate at all. That a search which
/// finds a variable has found a candidate is said by
/// [`search_finds_the_preferred`].
pub proof fn search_fails_without_candidate(
    nodes: Seq<TreeNode>,
    node: int,
    depth: int,
    name: Seq<u8>,
    start: u64,
    end: u64,
    curr: PcRange,
    single: bool,
    path: Seq<int>,
)
    requires
        0 <= depth,
        depth + (nodes.len() - node) <= usize::MAX,
    ensures
        candidate(nodes, node, depth, name, start, end, curr, single, path).is_some() ==> search_node(
            nodes,
            node,
            depth,
            name,
            start,
            end,
            curr,
            single,
        ).is_some(),
{
    if single {
        first_below(nodes, node, depth, name, start, end, curr);
    } else {
        deepest_below(nodes, node, depth, name, start, end, curr);
    }
}

/// The variable that a search finds lies below the node at which the
/// search began, at a depth greater than that of the node, and is a
/// variable of the wanted name, named together with its parent.
pub proof fn search_hit_lies_below(
    nodes: Seq<TreeNode>,
    node: int,
    depth: int,
    name: Seq<u8>,
    start: u64,
    end: u64,
    curr: PcRange,
    single: bool,
)
    requires
        0 <= depth,
        depth + (nodes.len() - node) <= usize::MAX,
        search_node(nodes, node, depth, name, start, end, curr, single).is_some(),
    ensures
        ({
            let hit = search_node(nodes, node, depth, name, start, end, curr, single).unwrap();
            &&& node <= hit.parent < hit.var < nodes.len()
            &&& hit.depth > depth
            &&& is_hit(nodes, name, hit)
        }),
{
    let path = search_finds_the_preferred(nodes, node, depth, name, start, end, curr, single);
    candidate_lies_below(nodes, node, depth, name, start, end, curr, single, path);
}

} // verus!
