//! The propagation tree: validators ordered by stake and placed breadth
//! first, up to three children per node, the rest handed down in chunks.

use crate::crypto::keys_eq;
use vstd::arithmetic::power2::pow2;
use vstd::prelude::*;
use vstd::seq_lib::lemma_multiset_commutative;
use vstd::slice::{slice_subrange, slice_to_vec};

verus! {

/// Children a node takes at most.
pub const FAN_OUT: usize = 3;

/// A validator placed in the tree.
#[derive(Debug)]
pub struct TurbineNode {
    /// Validator public key.
    pub validator: [u8; 32],
    /// Stake.
    pub stake: u64,
    /// Depth in the tree (0 for the root).
    pub depth: u8,
    /// Position in the tree's node list.
    pub index: usize,
    /// Parent index, none for the root.
    pub parent: Option<usize>,
    /// Child indices.
    pub children: Vec<usize>,
}

/// A node as values.
pub struct TurbineNodeView {
    pub validator: [u8; 32],
    pub stake: u64,
    pub depth: u8,
    pub index: usize,
    pub parent: Option<usize>,
    pub children: Seq<usize>,
}

impl View for TurbineNode {
    type V = TurbineNodeView;

    open spec fn view(&self) -> TurbineNodeView {
        TurbineNodeView {
            validator: self.validator,
            stake: self.stake,
            depth: self.depth,
            index: self.index,
            parent: self.parent,
            children: self.children@,
        }
    }
}

/// A copy of a list of indices.
fn copy_indices(v: &Vec<usize>) -> (r: Vec<usize>)
    ensures
        r@ == v@,
{
    let mut r: Vec<usize> = Vec::new();
    let mut i: usize = 0;
    while i < v.len()
        invariant
            i <= v@.len(),
            r@ == v@.take(i as int),
        decreases v@.len() - i,
    {
        r.push(v[i]);
        i = i + 1;
        assert(r@ =~= v@.take(i as int));
    }
    assert(v@.take(i as int) =~= v@);
    r
}

impl Clone for TurbineNode {
    fn clone(&self) -> (r: Self)
        ensures
            r@ == self@,
    {
        TurbineNode {
            validator: self.validator,
            stake: self.stake,
            depth: self.depth,
            index: self.index,
            parent: self.parent,
            children: copy_indices(&self.children),
        }
    }
}

/// The tree of validators.
#[derive(Debug, Clone)]
pub struct Neighborhood {
    /// The root node (the highest stake).
    pub root: TurbineNode,
    /// All nodes, root first.
    pub nodes: Vec<TurbineNode>,
    /// The deepest level reached.
    pub depth: usize,
}

/// A validator key with its stake.
pub type Staked = ([u8; 32], u64);

/// The first position at or after `i` whose stake is below `stake`.
pub open spec fn below_from(s: Seq<Staked>, stake: u64, i: int) -> int
    decreases s.len() - i,
{
    if i < 0 || i >= s.len() || s[i].1 < stake {
        i
    } else {
        below_from(s, stake, i + 1)
    }
}

/// The validators ordered by stake, largest first; equal stakes keep their
/// order.
pub open spec fn stake_order(s: Seq<Staked>) -> Seq<Staked>
    decreases s.len(),
{
    if s.len() == 0 {
        Seq::empty()
    } else {
        let t = stake_order(s.drop_last());
        t.insert(below_from(t, s.last().1, 0), s.last())
    }
}

/// Orders validators by stake, largest first, keeping the order of equal
/// stakes.
fn order_by_stake(items: Vec<Staked>) -> (r: Vec<Staked>)
    ensures
        r@ == stake_order(items@),
{
    let mut sorted: Vec<Staked> = Vec::new();
    let mut i: usize = 0;
    while i < items.len()
        invariant
            i <= items@.len(),
            sorted@ == stake_order(items@.take(i as int)),
        decreases items@.len() - i,
    {
        let x = items[i];
        let mut j: usize = 0;
        while j < sorted.len() && sorted[j].1 >= x.1
            invariant
                j <= sorted@.len(),
                below_from(sorted@, x.1, 0) == below_from(sorted@, x.1, j as int),
            decreases sorted@.len() - j,
        {
            j = j + 1;
        }
        proof {
            assert(items@.take(i + 1).drop_last() =~= items@.take(i as int));
            assert(items@.take(i + 1).last() == x);
        }
        sorted.insert(j, x);
        i = i + 1;
    }
    assert(items@.take(i as int) =~= items@);
    sorted
}

/// The views of a list of nodes.
pub open spec fn node_views(nodes: Seq<TurbineNode>) -> Seq<TurbineNodeView> {
    nodes.map_values(|n: TurbineNode| n@)
}

/// The views of the queue entries.
pub open spec fn queue_views(q: Seq<(usize, Vec<usize>)>) -> Seq<(usize, Seq<usize>)> {
    q.map_values(|e: (usize, Vec<usize>)| (e.0, e.1@))
}

/// The state of the breadth-first placement: the nodes so far, the queue
/// of (parent, validators still to place below it), and the depth reached.
pub struct BfsState {
    pub nodes: Seq<TurbineNodeView>,
    pub queue: Seq<(usize, Seq<usize>)>,
    pub depth: usize,
}

/// The queue's weight: each entry counts its validators plus one.
pub open spec fn queue_weight(q: Seq<(usize, Seq<usize>)>) -> nat
    decreases q.len(),
{
    if q.len() == 0 {
        0
    } else {
        queue_weight(q.drop_last()) + q.last().1.len() + 1
    }
}

/// `a / b` rounded up.
pub open spec fn div_ceil(a: nat, b: nat) -> nat {
    if a % b == 0 {
        a / b
    } else {
        a / b + 1
    }
}

/// The chunks of `next` for the first `i` children, `per` validators each
/// (the last may be shorter); children past the end get none.
pub open spec fn chunk_list(next: Seq<usize>, children: Seq<usize>, per: nat, i: int) -> Seq<(usize, Seq<usize>)>
    decreases i,
{
    if i <= 0 {
        Seq::empty()
    } else {
        let prev = chunk_list(next, children, per, i - 1);
        let start = (i - 1) * per;
        if start < next.len() {
            prev.push(
                (
                    children[i - 1],
                    next.subrange(start, if start + per < next.len() { start + per } else { next.len() as int }),
                ),
            )
        } else {
            prev
        }
    }
}

/// The node placing validator `v` at `index` below `parent`.
pub open spec fn child_node(vals: Seq<Staked>, v: usize, depth: u8, index: nat, parent: usize) -> TurbineNodeView {
    TurbineNodeView {
        validator: vals[v as int].0,
        stake: vals[v as int].1,
        depth,
        index: index as usize,
        parent: Some(parent),
        children: Seq::empty(),
    }
}

/// The nodes after placing `kids` below `parent`, each appended and listed
/// among the parent's children.
pub open spec fn add_children(
    vals: Seq<Staked>,
    nodes: Seq<TurbineNodeView>,
    parent: usize,
    kids: Seq<usize>,
    depth: u8,
) -> Seq<TurbineNodeView>
    decreases kids.len(),
{
    if kids.len() == 0 {
        nodes
    } else {
        let n1 = add_children(vals, nodes, parent, kids.drop_last(), depth);
        let idx = n1.len();
        let n2 = n1.push(child_node(vals, kids.last(), depth, idx, parent));
        n2.update(parent as int, TurbineNodeView { children: n1[parent as int].children.push(idx as usize), ..n1[parent as int] })
    }
}

/// One step of the placement, or nothing when it would index a node that
/// does not exist or a depth that does not fit in a byte.
pub open spec fn bfs_step(vals: Seq<Staked>, max_depth: usize, st: BfsState) -> Option<BfsState> {
    let (p, rem) = st.queue[0];
    let rest = st.queue.drop_first();
    if rem.len() == 0 {
        Some(BfsState { queue: rest, ..st })
    } else if p >= st.nodes.len() {
        None
    } else if st.nodes[p as int].depth >= max_depth {
        Some(BfsState { queue: rest, ..st })
    } else if st.nodes[p as int].depth == 255 {
        None
    } else {
        let cd = (st.nodes[p as int].depth + 1) as u8;
        let nk: int = if rem.len() < FAN_OUT {
            rem.len() as int
        } else {
            FAN_OUT as int
        };
        let kids = rem.take(nk);
        let next = rem.skip(nk);
        let slots = index_range(st.nodes.len() as int, st.nodes.len() + nk);
        let q2 = if next.len() > 0 {
            rest + chunk_list(next, slots, div_ceil(next.len(), kids.len()), kids.len() as int)
        } else {
            rest
        };
        Some(
            BfsState {
                nodes: add_children(vals, st.nodes, p, kids, cd),
                queue: q2,
                depth: if st.depth < cd {
                    cd as usize
                } else {
                    st.depth
                },
            },
        )
    }
}

/// The placement run until the queue is empty, or nothing if a step fails.
pub open spec fn bfs_run(vals: Seq<Staked>, max_depth: usize, st: BfsState) -> Option<BfsState>
    decreases queue_weight(st.queue),
{
    if st.queue.len() == 0 {
        Some(st)
    } else {
        match bfs_step(vals, max_depth, st) {
            None => None,
            Some(s2) => if queue_weight(s2.queue) < queue_weight(st.queue) {
                bfs_run(vals, max_depth, s2)
            } else {
                None
            },
        }
    }
}

/// The validator indices `lo..hi`.
pub open spec fn index_range(lo: int, hi: int) -> Seq<usize> {
    Seq::new((if hi > lo { hi - lo } else { 0 }) as nat, |i: int| (lo + i) as usize)
}

/// The start of the placement: the first validator as root, all others
/// queued below it.
pub open spec fn bfs_start(vals: Seq<Staked>) -> BfsState {
    BfsState {
        nodes: seq![
            TurbineNodeView {
                validator: vals[0].0,
                stake: vals[0].1,
                depth: 0,
                index: 0,
                parent: None,
                children: Seq::empty(),
            },
        ],
        queue: seq![(0usize, index_range(1, vals.len() as int))],
        depth: 0,
    }
}

/// The nodes form a tree: each node knows its own index, a parent comes
/// before its child and is one level up, and children are existing nodes.
#[verifier::opaque]
pub open spec fn tree_ok(nodes: Seq<TurbineNodeView>) -> bool {
    &&& forall|i: int| 0 <= i < nodes.len() ==> (#[trigger] nodes[i]).index == i
    &&& forall|i: int|
        0 <= i < nodes.len() ==> match (#[trigger] nodes[i]).parent {
            Some(p) => p < i && nodes[i].depth == nodes[p as int].depth + 1,
            None => true,
        }
    &&& forall|i: int, j: int|
        0 <= i < nodes.len() && 0 <= j < nodes[i].children.len() ==> #[trigger] nodes[i].children[j] < nodes.len()
}

/// What building the tree gives for the validators: nothing if the
/// placement fails, otherwise the final nodes and depth.
pub open spec fn spec_build(validators: Seq<Staked>, max_depth: usize) -> Option<BfsState> {
    let vals = stake_order(validators);
    if vals.len() == 0 {
        Some(BfsState { nodes: Seq::empty(), queue: Seq::empty(), depth: 0 })
    } else {
        bfs_run(vals, max_depth, bfs_start(vals))
    }
}

/// Every queued validator index names a validator, and every queued parent
/// is below `bound`.
pub open spec fn queue_ok(q: Seq<(usize, Seq<usize>)>, total: int) -> bool {
    forall|e: int, j: int|
        0 <= e < q.len() && 0 <= j < q[e].1.len() ==> #[trigger] q[e].1[j] < total
}

proof fn lemma_queue_weight_append(a: Seq<(usize, Seq<usize>)>, b: Seq<(usize, Seq<usize>)>)
    ensures
        queue_weight(a + b) == queue_weight(a) + queue_weight(b),
    decreases b.len(),
{
    if b.len() == 0 {
        assert(a + b =~= a);
    } else {
        assert((a + b).drop_last() =~= a + b.drop_last());
        lemma_queue_weight_append(a, b.drop_last());
    }
}

proof fn lemma_queue_weight_first(q: Seq<(usize, Seq<usize>)>)
    requires
        q.len() > 0,
    ensures
        queue_weight(q) == q[0].1.len() + 1 + queue_weight(q.drop_first()),
{
    lemma_queue_weight_append(seq![q[0]], q.drop_first());
    assert(seq![q[0]] + q.drop_first() =~= q);
    assert(seq![q[0]].drop_last() =~= Seq::<(usize, Seq<usize>)>::empty());
    assert(queue_weight(Seq::<(usize, Seq<usize>)>::empty()) == 0);
    assert(queue_weight(seq![q[0]]) == q[0].1.len() + 1);
}

proof fn lemma_chunk_weight(next: Seq<usize>, children: Seq<usize>, per: nat, i: int)
    requires
        0 <= i,
    ensures
        queue_weight(chunk_list(next, children, per, i)) <= (if i * per < next.len() {
            i * per
        } else {
            next.len() as int
        }) + i,
        chunk_list(next, children, per, i).len() <= i,
    decreases i,
{
    if i > 0 {
        lemma_chunk_weight(next, children, per, i - 1);
        let start = (i - 1) * per;
        assert(i * per == start + per) by (nonlinear_arith)
            requires
                start == (i - 1) * per,
        ;
        assert(0 <= start) by (nonlinear_arith)
            requires
                start == (i - 1) * per,
                i >= 1,
        ;
        if start < next.len() {
            let prev = chunk_list(next, children, per, i - 1);
            let end = if start + per < next.len() {
                start + per
            } else {
                next.len() as int
            };
            assert(chunk_list(next, children, per, i).drop_last() =~= prev);
        }
    }
}

/// A step takes weight off the queue.
pub proof fn lemma_step_lightens(vals: Seq<Staked>, max_depth: usize, st: BfsState)
    requires
        st.queue.len() > 0,
        bfs_step(vals, max_depth, st) is Some,
    ensures
        queue_weight(bfs_step(vals, max_depth, st)->Some_0.queue) < queue_weight(st.queue),
{
    lemma_queue_weight_first(st.queue);
    let (p, rem) = st.queue[0];
    let rest = st.queue.drop_first();
    let s2 = bfs_step(vals, max_depth, st)->Some_0;
    if rem.len() > 0 && p < st.nodes.len() && st.nodes[p as int].depth < max_depth && st.nodes[p as int].depth
        != 255 {
        let nk: int = if rem.len() < FAN_OUT {
            rem.len() as int
        } else {
            FAN_OUT as int
        };
        let kids = rem.take(nk);
        let next = rem.skip(nk);
        if next.len() > 0 {
            let per = div_ceil(next.len(), kids.len());
            let slots = index_range(st.nodes.len() as int, st.nodes.len() + nk);
            lemma_chunk_weight(next, slots, per, kids.len() as int);
            lemma_queue_weight_append(rest, chunk_list(next, slots, per, kids.len() as int));
        }
    }
}

proof fn lemma_add_children_len(
    vals: Seq<Staked>,
    nodes: Seq<TurbineNodeView>,
    parent: usize,
    kids: Seq<usize>,
    depth: u8,
)
    requires
        parent < nodes.len(),
    ensures
        add_children(vals, nodes, parent, kids, depth).len() == nodes.len() + kids.len(),
    decreases kids.len(),
{
    if kids.len() > 0 {
        lemma_add_children_len(vals, nodes, parent, kids.drop_last(), depth);
    }
}

/// In a tree, a node's parent comes before it.
pub proof fn lemma_tree_parent(nodes: Seq<TurbineNodeView>, i: int)
    requires
        tree_ok(nodes),
        0 <= i < nodes.len(),
    ensures
        nodes[i].parent matches Some(p) ==> p < i,
{
    reveal(tree_ok);
    assert(match nodes[i].parent {
        Some(p) => p < i && nodes[i].depth == nodes[p as int].depth + 1,
        None => true,
    });
}

/// In a tree, children are existing nodes.
pub proof fn lemma_tree_child(nodes: Seq<TurbineNodeView>, i: int, j: int)
    requires
        tree_ok(nodes),
        0 <= i < nodes.len(),
        0 <= j < nodes[i].children.len(),
    ensures
        nodes[i].children[j] < nodes.len(),
{
    reveal(tree_ok);
}

proof fn lemma_add_children_tree(
    vals: Seq<Staked>,
    nodes: Seq<TurbineNodeView>,
    parent: usize,
    kids: Seq<usize>,
    depth: u8,
)
    requires
        tree_ok(nodes),
        parent < nodes.len(),
        depth == nodes[parent as int].depth + 1,
        nodes.len() + kids.len() <= usize::MAX,
    ensures
        tree_ok(add_children(vals, nodes, parent, kids, depth)),
        add_children(vals, nodes, parent, kids, depth).len() == nodes.len() + kids.len(),
        add_children(vals, nodes, parent, kids, depth)[parent as int].depth == nodes[parent as int].depth,
        add_children(vals, nodes, parent, kids, depth)[parent as int].parent == nodes[parent as int].parent,
        forall|i: int|
            0 <= i < nodes.len() ==> (#[trigger] add_children(vals, nodes, parent, kids, depth)[i]).depth
                == nodes[i].depth,
    decreases kids.len(),
{
    reveal(tree_ok);
    if kids.len() > 0 {
        lemma_add_children_tree(vals, nodes, parent, kids.drop_last(), depth);
        let n1 = add_children(vals, nodes, parent, kids.drop_last(), depth);
        let idx = n1.len();
        let n2 = n1.push(child_node(vals, kids.last(), depth, idx, parent));
        let n3 = n2.update(parent as int, TurbineNodeView { children: n1[parent as int].children.push(idx as usize), ..n1[parent as int] });
        assert forall|i: int| 0 <= i < n3.len() implies (#[trigger] n3[i]).index == i by {
            if i < n1.len() && i != parent {
                assert(n3[i] == n1[i]);
            }
        }
        assert forall|i: int| 0 <= i < n3.len() implies match (#[trigger] n3[i]).parent {
            Some(p) => p < i && n3[i].depth == n3[p as int].depth + 1,
            None => true,
        } by {
            if i < n1.len() {
                assert(n3[i].parent == n1[i].parent && n3[i].depth == n1[i].depth);
                match n1[i].parent {
                    Some(p) => {
                        assert(n3[p as int].depth == n1[p as int].depth);
                    },
                    None => {},
                }
            } else {
                assert(n3[i].parent == Some(parent));
                assert(n3[parent as int].depth == n1[parent as int].depth);
            }
        }
        assert forall|i: int, j: int| 0 <= i < n3.len() && 0 <= j < n3[i].children.len() implies #[trigger] n3[i].children[j]
            < n3.len() by {
            if i == parent {
                if j < n1[parent as int].children.len() {
                    assert(n3[i].children[j] == n1[parent as int].children[j]);
                    assert(n1[parent as int].children[j] < n1.len());
                }
            } else if i < n1.len() {
                assert(n3[i] == n1[i]);
                assert(n1[i].children[j] < n1.len());
            } else {
                assert(n3[i].children.len() == 0);
            }
        }
    }
}

/// The indices from the root down to node `i`, following parent links.
pub open spec fn ancestry(nodes: Seq<TurbineNodeView>, i: int) -> Seq<int>
    decreases i,
{
    if i < 0 {
        Seq::empty()
    } else {
        match nodes[i].parent {
            Some(p) => if p < i {
                ancestry(nodes, p as int).push(i)
            } else {
                seq![i]
            },
            None => seq![i],
        }
    }
}

/// The first node of `validator` at or after `i`, if any.
pub open spec fn first_match(nodes: Seq<TurbineNodeView>, validator: [u8; 32], i: int) -> Option<int>
    decreases nodes.len() - i,
{
    if i < 0 || i >= nodes.len() {
        None
    } else if nodes[i].validator == validator {
        Some(i)
    } else {
        first_match(nodes, validator, i + 1)
    }
}

/// The first node of `validator`, if any.
pub open spec fn position_of(nodes: Seq<TurbineNodeView>, validator: [u8; 32]) -> Option<int> {
    first_match(nodes, validator, 0)
}

/// The nodes at `depth`, in order.
pub open spec fn nodes_at_depth(nodes: Seq<TurbineNodeView>, depth: u8) -> Seq<TurbineNodeView>
    decreases nodes.len(),
{
    if nodes.len() == 0 {
        Seq::empty()
    } else {
        let rest = nodes_at_depth(nodes.drop_last(), depth);
        if nodes.last().depth == depth {
            rest.push(nodes.last())
        } else {
            rest
        }
    }
}

/// The total stake of some nodes.
pub open spec fn stake_sum(nodes: Seq<TurbineNodeView>) -> int
    decreases nodes.len(),
{
    if nodes.len() == 0 {
        0
    } else {
        stake_sum(nodes.drop_last()) + nodes.last().stake
    }
}

/// Every prefix of the nodes has at most their total stake.
proof fn lemma_stake_sum_prefixes(s: Seq<TurbineNodeView>)
    ensures
        forall|k: int| 0 <= k <= s.len() ==> #[trigger] stake_sum(s.take(k)) <= stake_sum(s),
    decreases s.len(),
{
    if s.len() > 0 {
        lemma_stake_sum_prefixes(s.drop_last());
        assert forall|k: int| 0 <= k <= s.len() implies #[trigger] stake_sum(s.take(k)) <= stake_sum(s) by {
            if k == s.len() {
                assert(s.take(k) =~= s);
            } else {
                assert(s.take(k) =~= s.drop_last().take(k));
            }
        }
    }
}

/// The position of the first node of `validator`.
fn find_node(nodes: &Vec<TurbineNode>, validator: &[u8; 32]) -> (r: Option<usize>)
    ensures
        r matches Some(i) ==> i < nodes@.len() && node_views(nodes@)[i as int].validator == *validator
            && position_of(node_views(nodes@), *validator) == Some(i as int),
        r is None ==> position_of(node_views(nodes@), *validator) is None,
{
    let ghost v = node_views(nodes@);
    let mut i: usize = 0;
    while i < nodes.len()
        invariant
            v == node_views(nodes@),
            i <= nodes@.len(),
            first_match(v, *validator, 0) == first_match(v, *validator, i as int),
        decreases nodes@.len() - i,
    {
        if keys_eq(&nodes[i].validator, validator) {
            assert(v[i as int].validator == *validator);
            return Some(i);
        }
        i = i + 1;
    }
    None
}

/// The stakes never rise along the list.
pub open spec fn stakes_fall(vals: Seq<Staked>) -> bool {
    forall|a: int, b: int| 0 <= a < b < vals.len() ==> (#[trigger] vals[a]).1 >= (#[trigger] vals[b]).1
}

/// How many validators the queue still holds.
pub open spec fn queued(q: Seq<(usize, Seq<usize>)>) -> nat
    decreases q.len(),
{
    if q.len() == 0 {
        0
    } else {
        queued(q.drop_last()) + q.last().1.len()
    }
}

/// The shape of the propagation tree: a tree whose root alone has no
/// parent, whose nodes have at most `FAN_OUT` children, lie no deeper than
/// `max_depth` and than their own index, and hold no more stake than their
/// parent; a parent and its children list each other, and `depth` is the
/// deepest level.
pub open spec fn tree_shape(nodes: Seq<TurbineNodeView>, max_depth: usize, depth: usize) -> bool {
    &&& tree_ok(nodes)
    &&& forall|i: int| 0 <= i < nodes.len() ==> ((#[trigger] nodes[i]).parent is None <==> i == 0)
    &&& forall|i: int| 0 <= i < nodes.len() ==> (#[trigger] nodes[i]).children.len() <= FAN_OUT
    &&& forall|i: int|
        0 <= i < nodes.len() ==> (#[trigger] nodes[i]).depth <= max_depth && nodes[i].depth <= depth
            && nodes[i].depth <= i
    &&& forall|i: int, j: int|
        0 <= i < nodes.len() && 0 <= j < nodes[i].children.len() ==> nodes[#[trigger] nodes[i].children[j] as int].parent
            == Some(i as usize)
    &&& forall|i: int|
        0 <= i < nodes.len() ==> match (#[trigger] nodes[i]).parent {
            Some(p) => nodes[p as int].children.contains(i as usize) && nodes[i].stake <= nodes[p as int].stake,
            None => true,
        }
    &&& nodes.len() > 0 ==> exists|i: int| 0 <= i < nodes.len() && (#[trigger] nodes[i]).depth == depth
}

/// What the placement keeps of its queue: each queued parent is a node
/// still without children, the parents rise along the queue, and each
/// entry's validators rise, name validators, and hold no more stake than
/// the parent; an entry below a parent at depth `d` holds at most one
/// `2^d`-th of the validators.
pub open spec fn queue_shape(vals: Seq<Staked>, nodes: Seq<TurbineNodeView>, q: Seq<(usize, Seq<usize>)>) -> bool {
    &&& forall|e: int|
        0 <= e < q.len() ==> (#[trigger] q[e]).1.len() * pow2(nodes[q[e].0 as int].depth as nat) <= vals.len()
    &&& forall|e: int|
        0 <= e < q.len() ==> (#[trigger] q[e]).0 < nodes.len() && nodes[q[e].0 as int].children.len() == 0
    &&& forall|e: int, f: int| 0 <= e < f < q.len() ==> (#[trigger] q[e]).0 < (#[trigger] q[f]).0
    &&& forall|e: int, a: int, b: int|
        0 <= e < q.len() && 0 <= a < b < q[e].1.len() ==> (#[trigger] q[e].1[a]) < (#[trigger] q[e].1[b])
    &&& forall|e: int, a: int|
        0 <= e < q.len() && 0 <= a < q[e].1.len() ==> (#[trigger] q[e].1[a]) < vals.len() && vals[q[e].1[a] as int].1
            <= nodes[q[e].0 as int].stake
}

/// The whole state of the placement: the tree's shape, the queue's, and
/// the count of validators placed or queued.
pub open spec fn bfs_shape(vals: Seq<Staked>, max_depth: usize, st: BfsState) -> bool {
    &&& stakes_fall(vals)
    &&& vals.len() <= usize::MAX
    &&& st.nodes.len() > 0
    &&& tree_shape(st.nodes, max_depth, st.depth)
    &&& queue_shape(vals, st.nodes, st.queue)
    &&& st.nodes.len() + queued(st.queue) <= vals.len()
    &&& max_depth >= vals.len() ==> st.nodes.len() + queued(st.queue) == vals.len()
}

proof fn lemma_queued_append(a: Seq<(usize, Seq<usize>)>, b: Seq<(usize, Seq<usize>)>)
    ensures
        queued(a + b) == queued(a) + queued(b),
    decreases b.len(),
{
    if b.len() == 0 {
        assert(a + b =~= a);
    } else {
        assert((a + b).drop_last() =~= a + b.drop_last());
        lemma_queued_append(a, b.drop_last());
    }
}

proof fn lemma_queued_first(q: Seq<(usize, Seq<usize>)>)
    requires
        q.len() > 0,
    ensures
        queued(q) == q[0].1.len() + queued(q.drop_first()),
{
    lemma_queued_append(seq![q[0]], q.drop_first());
    assert(seq![q[0]] + q.drop_first() =~= q);
    assert(seq![q[0]].drop_last() =~= Seq::<(usize, Seq<usize>)>::empty());
    assert(queued(Seq::<(usize, Seq<usize>)>::empty()) == 0);
    assert(queued(seq![q[0]]) == q[0].1.len());
}

/// The chunks of a split: entry `e` goes to child `e` and holds the `e`-th
/// stretch of `per` validators; together they hold the first `i * per`
/// validators, or all of them.
proof fn lemma_chunk_list_shape(next: Seq<usize>, children: Seq<usize>, per: nat, i: int)
    requires
        per >= 1,
        0 <= i,
    ensures
        chunk_list(next, children, per, i).len() <= i,
        i >= 1 && (i - 1) * per < next.len() ==> chunk_list(next, children, per, i).len() == i,
        chunk_list(next, children, per, i).len() >= 1 ==> (chunk_list(next, children, per, i).len() - 1) * per
            < next.len(),
        forall|e: int|
            0 <= e < chunk_list(next, children, per, i).len() ==> #[trigger] chunk_list(
                next,
                children,
                per,
                i,
            )[e] == (
                children[e],
                next.subrange(e * per, if e * per + per < next.len() { e * per + per } else { next.len() as int }),
            ),
        queued(chunk_list(next, children, per, i)) == if i * per < next.len() {
            i * per
        } else {
            next.len() as int
        },
    decreases i,
{
    let cl = chunk_list(next, children, per, i);
    if i == 0 {
        assert(i * per == 0);
        assert(cl.len() == 0);
    } else {
        lemma_chunk_list_shape(next, children, per, i - 1);
        let prev = chunk_list(next, children, per, i - 1);
        let start = (i - 1) * per;
        assert(i * per == start + per) by (nonlinear_arith)
            requires
                start == (i - 1) * per,
        ;
        assert(0 <= start) by (nonlinear_arith)
            requires
                start == (i - 1) * per,
                i >= 1,
        ;
        if start < next.len() {
            if i >= 2 {
                assert((i - 2) * per < next.len()) by (nonlinear_arith)
                    requires
                        start == (i - 1) * per,
                        start < next.len(),
                        per >= 1,
                ;
                assert((i - 2) * per + per == start) by (nonlinear_arith)
                    requires
                        start == (i - 1) * per,
                ;
            }
            assert(prev.len() == i - 1);
            assert(cl.drop_last() =~= prev);
            assert forall|e: int| 0 <= e < cl.len() implies #[trigger] cl[e] == (
                children[e],
                next.subrange(e * per, if e * per + per < next.len() { e * per + per } else { next.len() as int }),
            ) by {
                if e < i - 1 {
                    assert(cl[e] == prev[e]);
                } else {
                    assert(e * per == start);
                }
            }
        } else {
            assert(cl == prev);
            assert forall|e: int| 0 <= e < cl.len() implies #[trigger] cl[e] == (
                children[e],
                next.subrange(e * per, if e * per + per < next.len() { e * per + per } else { next.len() as int }),
            ) by {
                assert(cl[e] == prev[e]);
            }
        }
    }
}

/// The nodes after placing children below `parent`: the nodes before, the
/// parent listing the new indices, and one new node per child.
proof fn lemma_add_children_shape(
    vals: Seq<Staked>,
    nodes: Seq<TurbineNodeView>,
    parent: usize,
    kids: Seq<usize>,
    depth: u8,
)
    requires
        parent < nodes.len(),
    ensures
        add_children(vals, nodes, parent, kids, depth).len() == nodes.len() + kids.len(),
        forall|i: int|
            0 <= i < nodes.len() && i != parent ==> #[trigger] add_children(vals, nodes, parent, kids, depth)[i]
                == nodes[i],
        add_children(vals, nodes, parent, kids, depth)[parent as int] == (TurbineNodeView {
            children: nodes[parent as int].children + index_range(nodes.len() as int, (nodes.len() + kids.len()) as int),
            ..nodes[parent as int]
        }),
        forall|j: int|
            0 <= j < kids.len() ==> #[trigger] add_children(vals, nodes, parent, kids, depth)[nodes.len() + j]
                == child_node(vals, kids[j], depth, (nodes.len() + j) as nat, parent),
    decreases kids.len(),
{
    let l = nodes.len() as int;
    if kids.len() == 0 {
        assert(index_range(l, l) =~= Seq::<usize>::empty());
        assert(nodes[parent as int].children + Seq::<usize>::empty() =~= nodes[parent as int].children);
    } else {
        let k1 = kids.drop_last();
        lemma_add_children_shape(vals, nodes, parent, k1, depth);
        let n1 = add_children(vals, nodes, parent, k1, depth);
        assert(n1[parent as int].children.push(n1.len() as usize) =~= nodes[parent as int].children + index_range(
            l,
            l + kids.len(),
        ));
        let n3 = add_children(vals, nodes, parent, kids, depth);
        assert forall|j: int| 0 <= j < kids.len() implies #[trigger] n3[l + j] == child_node(
            vals,
            kids[j],
            depth,
            (l + j) as nat,
            parent,
        ) by {
            if j < k1.len() {
                assert(n3[l + j] == n1[l + j]);
                assert(k1[j] == kids[j]);
            }
        }
    }
}

/// The start of the placement has the shape.
proof fn lemma_start_shape(vals: Seq<Staked>, max_depth: usize)
    requires
        stakes_fall(vals),
        vals.len() > 0,
        vals.len() <= usize::MAX,
    ensures
        bfs_shape(vals, max_depth, bfs_start(vals)),
        bfs_start(vals).nodes[0].stake == vals[0].1,
{
    reveal(tree_ok);
    let st = bfs_start(vals);
    let n = vals.len() as int;
    let r = index_range(1, n);
    assert(st.queue[0].1 == r);
    assert forall|e: int, a: int, b: int|
        0 <= e < st.queue.len() && 0 <= a < b < st.queue[e].1.len() implies (#[trigger] st.queue[e].1[a])
        < (#[trigger] st.queue[e].1[b]) by {
        assert(e == 0);
    }
    assert forall|e: int, a: int|
        0 <= e < st.queue.len() && 0 <= a < st.queue[e].1.len() implies (#[trigger] st.queue[e].1[a]) < vals.len()
        && vals[st.queue[e].1[a] as int].1 <= st.nodes[st.queue[e].0 as int].stake by {
        assert(e == 0);
        assert(r[a] == a + 1);
        assert(vals[0].1 >= vals[a + 1].1);
    }
    assert(st.queue.drop_last() =~= Seq::<(usize, Seq<usize>)>::empty());
    assert(queued(Seq::<(usize, Seq<usize>)>::empty()) == 0);
    assert(queued(st.queue) == n - 1);
    assert(st.nodes[0].depth == st.depth);
    vstd::arithmetic::power2::lemma2_to64();
    assert forall|e: int| 0 <= e < st.queue.len() implies (#[trigger] st.queue[e]).1.len() * pow2(st.nodes[st.queue[e].0 as int].depth as nat) <= vals.len() by {
        assert(e == 0);
    }
}

/// A step that places children keeps the tree's shape and the root's
/// stake.
#[verifier::spinoff_prover]
#[verifier::rlimit(40)]
proof fn lemma_grow_tree(vals: Seq<Staked>, max_depth: usize, st: BfsState)
    requires
        bfs_shape(vals, max_depth, st),
        st.queue.len() > 0,
        st.queue[0].1.len() > 0,
        st.nodes[st.queue[0].0 as int].depth < max_depth,
        st.nodes[st.queue[0].0 as int].depth != 255,
    ensures
        tree_shape(bfs_step(vals, max_depth, st)->Some_0.nodes, max_depth, bfs_step(vals, max_depth, st)->Some_0.depth),
        bfs_step(vals, max_depth, st)->Some_0.nodes[0].stake == st.nodes[0].stake,
{
    reveal(tree_ok);
    let nodes = st.nodes;
    let q = st.queue;
    let p = q[0].0;
    let rem = q[0].1;
    let s2 = bfs_step(vals, max_depth, st)->Some_0;
    let l = nodes.len() as int;
    lemma_queued_first(q);
    let cd = (nodes[p as int].depth + 1) as u8;
    let nk: int = if rem.len() < FAN_OUT {
        rem.len() as int
    } else {
        FAN_OUT as int
    };
    let kids = rem.take(nk);
    let slots = index_range(l, l + nk);
    let n2 = add_children(vals, nodes, p, kids, cd);
    assert(l + nk <= vals.len());
    lemma_add_children_shape(vals, nodes, p, kids, cd);
    lemma_add_children_tree(vals, nodes, p, kids, cd);
    assert(n2 == s2.nodes);
    assert(n2[p as int].children =~= slots);
    // the tree's shape
    assert forall|i: int| 0 <= i < n2.len() implies ((#[trigger] n2[i]).parent is None <==> i == 0)
        && n2[i].children.len() <= FAN_OUT && n2[i].depth <= max_depth && n2[i].depth <= s2.depth
        && n2[i].depth <= i by {
        if i >= l {
            assert(n2[l + (i - l)] == child_node(vals, kids[i - l], cd, i as nat, p));
        } else if i != p {
            assert(n2[i] == nodes[i]);
        }
    }
    assert forall|i: int, j: int|
        0 <= i < n2.len() && 0 <= j < n2[i].children.len() implies n2[#[trigger] n2[i].children[j] as int].parent
        == Some(i as usize) by {
        if i >= l {
            assert(n2[l + (i - l)] == child_node(vals, kids[i - l], cd, i as nat, p));
        } else if i != p {
            assert(n2[i] == nodes[i]);
            let c = nodes[i].children[j];
            assert(c < l);
            if c != p {
                assert(n2[c as int] == nodes[c as int]);
            }
        } else {
            assert(n2[i].children[j] == (l + j) as usize);
            assert(n2[l + j] == child_node(vals, kids[j], cd, (l + j) as nat, p));
        }
    }
    assert forall|i: int| 0 <= i < n2.len() implies match (#[trigger] n2[i]).parent {
        Some(pp) => n2[pp as int].children.contains(i as usize) && n2[i].stake <= n2[pp as int].stake,
        None => true,
    } by {
        if i >= l {
            let j = i - l;
            assert(n2[l + j] == child_node(vals, kids[j], cd, i as nat, p));
            assert(n2[p as int].children[j] == i as usize);
            assert(kids[j] == q[0].1[j]);
        } else if i != p {
            assert(n2[i] == nodes[i]);
            match nodes[i].parent {
                Some(pp) => {
                    assert(pp < i);
                    if pp == p {
                        assert(nodes[p as int].children.contains(i as usize));
                        assert(false);
                    }
                    assert(n2[pp as int] == nodes[pp as int]);
                },
                None => {},
            }
        } else {
            match nodes[i].parent {
                Some(pp) => {
                    assert(pp < i);
                    assert(n2[pp as int] == nodes[pp as int]);
                },
                None => {},
            }
        }
    }
    if st.depth < cd {
        assert(n2[l + 0] == child_node(vals, kids[0], cd, l as nat, p));
        assert(n2[l].depth == s2.depth);
    } else {
        let w = choose|w: int| 0 <= w < nodes.len() && (#[trigger] nodes[w]).depth == st.depth;
        assert(n2[w].depth == nodes[w].depth);
    }
    assert(tree_shape(n2, max_depth, s2.depth));
    if p == 0 {
        assert(n2[0].stake == nodes[0].stake);
    } else {
        assert(n2[0] == nodes[0]);
    }
}

/// A step that places children keeps each queue entry's share of the
/// validators within its bound.
#[verifier::spinoff_prover]
proof fn lemma_grow_share(vals: Seq<Staked>, max_depth: usize, st: BfsState)
    requires
        bfs_shape(vals, max_depth, st),
        st.queue.len() > 0,
        st.queue[0].1.len() > 0,
        st.nodes[st.queue[0].0 as int].depth < max_depth,
        st.nodes[st.queue[0].0 as int].depth != 255,
    ensures
        forall|e: int|
            0 <= e < bfs_step(vals, max_depth, st)->Some_0.queue.len() ==> (#[trigger] bfs_step(
                vals,
                max_depth,
                st,
            )->Some_0.queue[e]).1.len() * pow2(
                bfs_step(vals, max_depth, st)->Some_0.nodes[bfs_step(vals, max_depth, st)->Some_0.queue[e].0 as int].depth as nat,
            ) <= vals.len(),
{
    let nodes = st.nodes;
    let q = st.queue;
    let p = q[0].0;
    let rem = q[0].1;
    let rest = q.drop_first();
    let s2 = bfs_step(vals, max_depth, st)->Some_0;
    let l = nodes.len() as int;
    lemma_queued_first(q);
    lemma_rest_shape(vals, nodes, q);
    let cd = (nodes[p as int].depth + 1) as u8;
    let nk: int = if rem.len() < FAN_OUT {
        rem.len() as int
    } else {
        FAN_OUT as int
    };
    let kids = rem.take(nk);
    let next = rem.skip(nk);
    let slots = index_range(l, l + nk);
    let n2 = add_children(vals, nodes, p, kids, cd);
    assert(l + nk <= vals.len());
    lemma_add_children_shape(vals, nodes, p, kids, cd);
    lemma_add_children_tree(vals, nodes, p, kids, cd);
    assert(n2 == s2.nodes);
    assert(n2[p as int].children =~= slots);
    let per: nat = if next.len() > 0 {
        div_ceil(next.len(), kids.len())
    } else {
        1
    };
    let cl = if next.len() > 0 {
        chunk_list(next, slots, per, kids.len() as int)
    } else {
        Seq::empty()
    };
    assert(s2.queue =~= rest + cl);
    lemma_queued_append(rest, cl);
    if next.len() > 0 {
        let len = next.len() as int;
        vstd::arithmetic::div_mod::lemma_fundamental_div_mod(len, nk);
        assert(per >= 1 && nk * per >= len) by (nonlinear_arith)
            requires
                nk >= 1,
                len >= 1,
                len == nk * (len / nk) + len % nk,
                0 <= len % nk < nk,
                per == (if len % nk == 0 {
                    len / nk
                } else {
                    len / nk + 1
                }),
        ;
        lemma_chunk_list_shape(next, slots, per, nk);
    }
    assert(queued(cl) == next.len());
    assert(cl.len() <= nk);
    let nq = rest + cl;
    let d = nodes[p as int].depth as nat;
    vstd::arithmetic::power2::lemma_pow2_unfold(cd as nat);
    assert(rem.len() * pow2(d) <= vals.len());
    assert forall|e: int| 0 <= e < nq.len() implies (#[trigger] nq[e]).1.len() * pow2(n2[nq[e].0 as int].depth as nat) <= vals.len() by {
        if e < rest.len() {
            assert(nq[e] == rest[e]);
            assert(rest[e] == q[e + 1]);
            assert(n2[rest[e].0 as int] == nodes[rest[e].0 as int]);
        } else {
            let f = e - rest.len();
            assert(nq[e] == cl[f]);
            assert(cl[f].0 == slots[f]);
            assert(n2[l + f] == child_node(vals, kids[f], cd, (l + f) as nat, p));
            let c = cl[f].1.len();
            assert(f * per <= (cl.len() - 1) * per) by (nonlinear_arith)
                requires
                    0 <= f <= cl.len() - 1,
            ;
            assert(0 <= f * per) by (nonlinear_arith)
                requires
                    0 <= f,
            ;
            assert(c <= per);
            assert(nk == 3);
            let pp = pow2(d);
            let r = rem.len() as int;
            assert(3 * per <= next.len() + 2);
            assert(c * pow2(cd as nat) <= vals.len()) by (nonlinear_arith)
                requires
                    c <= per,
                    3 * per <= r - 1,
                    pow2(cd as nat) == 2 * pp,
                    r * pp <= vals.len(),
                    pp >= 0,
            ;
        }
    }
}

/// A step that places children keeps the queue's shape and the count of
/// validators placed or queued.
#[verifier::spinoff_prover]
#[verifier::rlimit(50)]
proof fn lemma_grow_queue(vals: Seq<Staked>, max_depth: usize, st: BfsState)
    requires
        bfs_shape(vals, max_depth, st),
        st.queue.len() > 0,
        st.queue[0].1.len() > 0,
        st.nodes[st.queue[0].0 as int].depth < max_depth,
        st.nodes[st.queue[0].0 as int].depth != 255,
    ensures
        queue_shape(vals, bfs_step(vals, max_depth, st)->Some_0.nodes, bfs_step(vals, max_depth, st)->Some_0.queue),
        bfs_step(vals, max_depth, st)->Some_0.nodes.len() + queued(bfs_step(vals, max_depth, st)->Some_0.queue)
            == st.nodes.len() + queued(st.queue),
{
    let nodes = st.nodes;
    let q = st.queue;
    let p = q[0].0;
    let rem = q[0].1;
    let rest = q.drop_first();
    let s2 = bfs_step(vals, max_depth, st)->Some_0;
    let l = nodes.len() as int;
    lemma_queued_first(q);
    lemma_rest_shape(vals, nodes, q);
    let cd = (nodes[p as int].depth + 1) as u8;
    let nk: int = if rem.len() < FAN_OUT {
        rem.len() as int
    } else {
        FAN_OUT as int
    };
    let kids = rem.take(nk);
    let next = rem.skip(nk);
    let slots = index_range(l, l + nk);
    let n2 = add_children(vals, nodes, p, kids, cd);
    assert(l + nk <= vals.len());
    lemma_add_children_shape(vals, nodes, p, kids, cd);
    lemma_add_children_tree(vals, nodes, p, kids, cd);
    assert(n2 == s2.nodes);
    assert(n2[p as int].children =~= slots);
    let per: nat = if next.len() > 0 {
        div_ceil(next.len(), kids.len())
    } else {
        1
    };
    let cl = if next.len() > 0 {
        chunk_list(next, slots, per, kids.len() as int)
    } else {
        Seq::empty()
    };
    assert(s2.queue =~= rest + cl);
    lemma_queued_append(rest, cl);
    if next.len() > 0 {
        let len = next.len() as int;
        vstd::arithmetic::div_mod::lemma_fundamental_div_mod(len, nk);
        assert(per >= 1 && nk * per >= len) by (nonlinear_arith)
            requires
                nk >= 1,
                len >= 1,
                len == nk * (len / nk) + len % nk,
                0 <= len % nk < nk,
                per == (if len % nk == 0 {
                    len / nk
                } else {
                    len / nk + 1
                }),
        ;
        lemma_chunk_list_shape(next, slots, per, nk);
    }
    assert(queued(cl) == next.len());
    assert(cl.len() <= nk);
    // the queue's shape
    let nq = rest + cl;
    assert forall|e: int| 0 <= e < nq.len() implies (#[trigger] nq[e]).0 < n2.len() && n2[nq[e].0 as int].children.len() == 0 && (e >= rest.len() ==> nq[e].0 == l + (e - rest.len()) && l + (e - rest.len()) < l + nk) by {
        if e < rest.len() {
            assert(nq[e] == rest[e]);
            assert(n2[rest[e].0 as int] == nodes[rest[e].0 as int]);
        } else {
            let f = e - rest.len();
            assert(nq[e] == cl[f]);
            assert(cl[f].0 == slots[f]);
            assert(n2[l + f] == child_node(vals, kids[f], cd, (l + f) as nat, p));
        }
    }
    assert forall|e: int, f: int| 0 <= e < f < nq.len() implies (#[trigger] nq[e]).0 < (#[trigger] nq[f]).0 by {
        if f < rest.len() {
            assert(nq[e] == rest[e] && nq[f] == rest[f]);
            assert(rest[e] == q[e + 1] && rest[f] == q[f + 1]);
        } else if e < rest.len() {
            assert(nq[e] == rest[e]);
        }
    }
    assert forall|e: int, a: int, b: int|
        0 <= e < nq.len() && 0 <= a < b < nq[e].1.len() implies (#[trigger] nq[e].1[a]) < (#[trigger] nq[e].1[b]) by {
        if e < rest.len() {
            assert(nq[e] == rest[e]);
        } else {
            let f = e - rest.len();
            assert(nq[e] == cl[f]);
            assert(f * per <= (cl.len() - 1) * per) by (nonlinear_arith)
                requires
                    0 <= f <= cl.len() - 1,
            ;
            assert(nq[e].1[a] == rem[nk + f * per + a]);
            assert(nq[e].1[b] == rem[nk + f * per + b]);
        }
    }
    assert forall|e: int, a: int|
        0 <= e < nq.len() && 0 <= a < nq[e].1.len() implies (#[trigger] nq[e].1[a]) < vals.len()
        && vals[nq[e].1[a] as int].1 <= n2[nq[e].0 as int].stake by {
        if e < rest.len() {
            assert(nq[e] == rest[e]);
            assert(n2[rest[e].0 as int] == nodes[rest[e].0 as int]);
        } else {
            let f = e - rest.len();
            assert(nq[e] == cl[f]);
            assert(f * per <= (cl.len() - 1) * per) by (nonlinear_arith)
                requires
                    0 <= f <= cl.len() - 1,
            ;
            assert(0 <= f * per) by (nonlinear_arith)
                requires
                    0 <= f,
            ;
            assert(nq[e].1[a] == rem[nk + f * per + a]);
            assert(n2[l + f] == child_node(vals, kids[f], cd, (l + f) as nat, p));
            assert(kids[f] == rem[f]);
            assert(rem[f] < rem[nk + f * per + a]);
        }
    }
    lemma_grow_share(vals, max_depth, st);
    assert(queue_shape(vals, n2, nq));
}

/// A step of the placement keeps its shape, and the root's stake.
proof fn lemma_step_shape(vals: Seq<Staked>, max_depth: usize, st: BfsState)
    requires
        bfs_shape(vals, max_depth, st),
        st.queue.len() > 0,
        bfs_step(vals, max_depth, st) is Some,
    ensures
        bfs_shape(vals, max_depth, bfs_step(vals, max_depth, st)->Some_0),
        bfs_step(vals, max_depth, st)->Some_0.nodes[0].stake == st.nodes[0].stake,
{
    let nodes = st.nodes;
    let q = st.queue;
    let p = q[0].0;
    let rem = q[0].1;
    let s2 = bfs_step(vals, max_depth, st)->Some_0;
    lemma_queued_first(q);
    assert(nodes[p as int].depth <= p);
    if rem.len() == 0 || nodes[p as int].depth >= max_depth {
        lemma_rest_shape(vals, nodes, q);
        assert(s2 == BfsState { queue: q.drop_first(), ..st });
        if max_depth >= vals.len() && rem.len() > 0 {
            assert(false);
        }
    } else {
        lemma_grow_tree(vals, max_depth, st);
        lemma_grow_queue(vals, max_depth, st);
    }
}

/// The queue without its first entry keeps the queue's shape, and its
/// parents come after the first entry's.
proof fn lemma_rest_shape(vals: Seq<Staked>, nodes: Seq<TurbineNodeView>, q: Seq<(usize, Seq<usize>)>)
    requires
        queue_shape(vals, nodes, q),
        q.len() > 0,
    ensures
        queue_shape(vals, nodes, q.drop_first()),
        forall|e: int| 0 <= e < q.len() - 1 ==> q[0].0 < (#[trigger] q.drop_first()[e]).0,
{
    let rest = q.drop_first();
    assert forall|e: int| 0 <= e < rest.len() implies (#[trigger] rest[e]).0 < nodes.len() && nodes[rest[e].0 as int].children.len() == 0 && q[0].0 < rest[e].0 by {
        assert(rest[e] == q[e + 1]);
    }
    assert forall|e: int, f: int| 0 <= e < f < rest.len() implies (#[trigger] rest[e]).0 < (#[trigger] rest[f]).0 by {
        assert(rest[e] == q[e + 1] && rest[f] == q[f + 1]);
    }
    assert forall|e: int, a: int, b: int|
        0 <= e < rest.len() && 0 <= a < b < rest[e].1.len() implies (#[trigger] rest[e].1[a]) < (
        #[trigger] rest[e].1[b]) by {
        assert(rest[e] == q[e + 1]);
    }
    assert forall|e: int, a: int|
        0 <= e < rest.len() && 0 <= a < rest[e].1.len() implies (#[trigger] rest[e].1[a]) < vals.len()
        && vals[rest[e].1[a] as int].1 <= nodes[rest[e].0 as int].stake by {
        assert(rest[e] == q[e + 1]);
    }
}

/// The placement run to its end keeps its shape and the root's stake, and
/// leaves the queue empty.
proof fn lemma_run_shape(vals: Seq<Staked>, max_depth: usize, st: BfsState)
    requires
        bfs_shape(vals, max_depth, st),
        bfs_run(vals, max_depth, st) is Some,
    ensures
        bfs_shape(vals, max_depth, bfs_run(vals, max_depth, st)->Some_0),
        bfs_run(vals, max_depth, st)->Some_0.queue.len() == 0,
        bfs_run(vals, max_depth, st)->Some_0.nodes[0].stake == st.nodes[0].stake,
    decreases queue_weight(st.queue),
{
    if st.queue.len() > 0 {
        let s2 = bfs_step(vals, max_depth, st)->Some_0;
        lemma_step_shape(vals, max_depth, st);
        lemma_step_lightens(vals, max_depth, st);
        lemma_run_shape(vals, max_depth, s2);
    }
}

/// From a state with the placement's shape no step fails: a parent at
/// depth 255 would hold at most one `2^255`-th of the validators, and so
/// none; the run ends with a result.
proof fn lemma_run_some(vals: Seq<Staked>, max_depth: usize, st: BfsState)
    requires
        bfs_shape(vals, max_depth, st),
    ensures
        bfs_run(vals, max_depth, st) is Some,
    decreases queue_weight(st.queue),
{
    if st.queue.len() > 0 {
        let p = st.queue[0].0;
        let rem = st.queue[0].1;
        assert(p < st.nodes.len());
        if rem.len() > 0 && st.nodes[p as int].depth < max_depth && st.nodes[p as int].depth == 255 {
            vstd::arithmetic::power2::lemma2_to64();
            vstd::arithmetic::power2::lemma_pow2_strictly_increases(64, 255);
            let pp = pow2(255);
            assert(rem.len() * pp <= vals.len());
            assert(rem.len() * pp >= pp) by (nonlinear_arith)
                requires
                    rem.len() >= 1,
                    pp >= 0,
            ;
            assert(false);
        }
        let s2 = bfs_step(vals, max_depth, st)->Some_0;
        lemma_step_shape(vals, max_depth, st);
        lemma_step_lightens(vals, max_depth, st);
        lemma_run_some(vals, max_depth, s2);
    }
}

proof fn lemma_below_from(t: Seq<Staked>, stake: u64, i: int)
    requires
        0 <= i <= t.len(),
    ensures
        i <= below_from(t, stake, i) <= t.len(),
        forall|j: int| i <= j < below_from(t, stake, i) ==> (#[trigger] t[j]).1 >= stake,
        below_from(t, stake, i) < t.len() ==> t[below_from(t, stake, i)].1 < stake,
    decreases t.len() - i,
{
    if i < t.len() && t[i].1 >= stake {
        lemma_below_from(t, stake, i + 1);
    }
}

/// Ordering by stake keeps every validator and leaves the stakes falling.
proof fn lemma_stake_order(s: Seq<Staked>)
    ensures
        stake_order(s).len() == s.len(),
        stakes_fall(stake_order(s)),
        forall|j: int|
            #![trigger s[j]]
            0 <= j < s.len() ==> exists|i: int| 0 <= i < s.len() && #[trigger] stake_order(s)[i] == s[j],
    decreases s.len(),
{
    if s.len() > 0 {
        let s1 = s.drop_last();
        let x = s.last();
        lemma_stake_order(s1);
        let t = stake_order(s1);
        let q = below_from(t, x.1, 0);
        lemma_below_from(t, x.1, 0);
        let u = t.insert(q, x);
        assert(u == stake_order(s));
        assert forall|a: int, b: int| 0 <= a < b < u.len() implies (#[trigger] u[a]).1 >= (#[trigger] u[b]).1 by {
            if b < q {
                assert(u[a] == t[a] && u[b] == t[b]);
            } else if b == q {
                assert(u[a] == t[a]);
            } else if a < q {
                assert(u[a] == t[a] && u[b] == t[b - 1]);
                if a < b - 1 {
                    assert(t[a].1 >= t[b - 1].1);
                }
            } else if a == q {
                assert(u[b] == t[b - 1]);
                assert(t[q].1 < x.1);
                if q < b - 1 {
                    assert(t[q].1 >= t[b - 1].1);
                }
            } else {
                assert(u[a] == t[a - 1] && u[b] == t[b - 1]);
            }
        }
        assert forall|j: int| #![trigger s[j]] 0 <= j < s.len() implies exists|i: int| 0 <= i < s.len() && #[trigger] u[i] == s[j] by {
            if j == s.len() - 1 {
                assert(u[q] == x);
            } else {
                assert(s1[j] == s[j]);
                let i = choose|i: int| 0 <= i < s1.len() && #[trigger] t[i] == s1[j];
                if i < q {
                    assert(u[i] == t[i]);
                } else {
                    assert(u[i + 1] == t[i]);
                }
            }
        }
    }
}

/// The key and stake of each node.
pub open spec fn node_pairs(nodes: Seq<TurbineNodeView>) -> Seq<Staked> {
    nodes.map_values(|n: TurbineNodeView| (n.validator, n.stake))
}

/// The validators that a list of indices names.
pub open spec fn pairs_of(vals: Seq<Staked>, idx: Seq<usize>) -> Seq<Staked> {
    idx.map_values(|v: usize| vals[v as int])
}

/// The validators that the queue holds, entry after entry.
pub open spec fn queue_pairs(vals: Seq<Staked>, q: Seq<(usize, Seq<usize>)>) -> Seq<Staked>
    decreases q.len(),
{
    if q.len() == 0 {
        Seq::empty()
    } else {
        queue_pairs(vals, q.drop_last()) + pairs_of(vals, q.last().1)
    }
}

/// The nodes and the queue together hold each validator once.
pub open spec fn pairs_kept(vals: Seq<Staked>, st: BfsState) -> bool {
    node_pairs(st.nodes).to_multiset().add(queue_pairs(vals, st.queue).to_multiset()) == vals.to_multiset()
}

proof fn lemma_queue_pairs_append(vals: Seq<Staked>, a: Seq<(usize, Seq<usize>)>, b: Seq<(usize, Seq<usize>)>)
    ensures
        queue_pairs(vals, a + b) == queue_pairs(vals, a) + queue_pairs(vals, b),
    decreases b.len(),
{
    if b.len() == 0 {
        assert(a + b =~= a);
        assert(queue_pairs(vals, a) + Seq::<Staked>::empty() =~= queue_pairs(vals, a));
    } else {
        assert((a + b).drop_last() =~= a + b.drop_last());
        lemma_queue_pairs_append(vals, a, b.drop_last());
        assert(queue_pairs(vals, a) + queue_pairs(vals, b.drop_last()) + pairs_of(vals, b.last().1) =~= queue_pairs(
            vals,
            a,
        ) + (queue_pairs(vals, b.drop_last()) + pairs_of(vals, b.last().1)));
    }
}

proof fn lemma_queue_pairs_first(vals: Seq<Staked>, q: Seq<(usize, Seq<usize>)>)
    requires
        q.len() > 0,
    ensures
        queue_pairs(vals, q) == pairs_of(vals, q[0].1) + queue_pairs(vals, q.drop_first()),
{
    lemma_queue_pairs_append(vals, seq![q[0]], q.drop_first());
    assert(seq![q[0]] + q.drop_first() =~= q);
    assert(seq![q[0]].drop_last() =~= Seq::<(usize, Seq<usize>)>::empty());
    assert(queue_pairs(vals, Seq::<(usize, Seq<usize>)>::empty()) == Seq::<Staked>::empty());
    assert(queue_pairs(vals, seq![q[0]]) == Seq::<Staked>::empty() + pairs_of(vals, q[0].1));
    assert(Seq::<Staked>::empty() + pairs_of(vals, q[0].1) =~= pairs_of(vals, q[0].1));
}

/// The chunks of a split hold, in order, the first `i * per` validators of
/// the split, or all of them.
proof fn lemma_chunk_pairs(vals: Seq<Staked>, next: Seq<usize>, children: Seq<usize>, per: nat, i: int)
    requires
        per >= 1,
        0 <= i,
    ensures
        queue_pairs(vals, chunk_list(next, children, per, i)) == pairs_of(
            vals,
            next.take(if i * per < next.len() { i * per } else { next.len() as int }),
        ),
    decreases i,
{
    if i == 0 {
        assert(i * per == 0) by (nonlinear_arith)
            requires
                i == 0,
        ;
        assert(next.take(0) =~= Seq::<usize>::empty());
        assert(pairs_of(vals, Seq::<usize>::empty()) =~= Seq::<Staked>::empty());
    } else {
        lemma_chunk_pairs(vals, next, children, per, i - 1);
        let start = (i - 1) * per;
        assert(i * per == start + per) by (nonlinear_arith)
            requires
                start == (i - 1) * per,
        ;
        assert(0 <= start) by (nonlinear_arith)
            requires
                start == (i - 1) * per,
                i >= 1,
        ;
        let prev = chunk_list(next, children, per, i - 1);
        if start < next.len() {
            let end = if start + per < next.len() {
                start + per
            } else {
                next.len() as int
            };
            assert(start <= end);
            assert(chunk_list(next, children, per, i) == prev.push((children[i - 1], next.subrange(start, end))));
            assert(chunk_list(next, children, per, i).drop_last() =~= prev);
            assert(pairs_of(vals, next.take(start)) + pairs_of(vals, next.subrange(start, end)) =~= pairs_of(
                vals,
                next.take(end),
            ));
        }
    }
}

/// A step keeps each validator held once by the nodes and the queue
/// together, when no node is too deep to take children.
#[verifier::spinoff_prover]
#[verifier::rlimit(40)]
proof fn lemma_step_pairs(vals: Seq<Staked>, max_depth: usize, st: BfsState)
    requires
        bfs_shape(vals, max_depth, st),
        max_depth >= vals.len(),
        pairs_kept(vals, st),
        st.queue.len() > 0,
        bfs_step(vals, max_depth, st) is Some,
    ensures
        pairs_kept(vals, bfs_step(vals, max_depth, st)->Some_0),
{
    let nodes = st.nodes;
    let q = st.queue;
    let p = q[0].0;
    let rem = q[0].1;
    let rest = q.drop_first();
    let s2 = bfs_step(vals, max_depth, st)->Some_0;
    let l = nodes.len() as int;
    lemma_queued_first(q);
    lemma_queue_pairs_first(vals, q);
    lemma_multiset_commutative(pairs_of(vals, rem), queue_pairs(vals, rest));
    assert(nodes[p as int].depth <= p);
    assert(p < l);
    if rem.len() == 0 {
        assert(s2 == BfsState { queue: rest, ..st });
        assert(pairs_of(vals, rem) =~= Seq::<Staked>::empty());
        assert(pairs_of(vals, rem) + queue_pairs(vals, rest) =~= queue_pairs(vals, rest));
    } else {
        assert(nodes[p as int].depth < max_depth);
        let cd = (nodes[p as int].depth + 1) as u8;
        let nk: int = if rem.len() < FAN_OUT {
            rem.len() as int
        } else {
            FAN_OUT as int
        };
        let kids = rem.take(nk);
        let next = rem.skip(nk);
        let slots = index_range(l, l + nk);
        let n2 = add_children(vals, nodes, p, kids, cd);
        lemma_add_children_shape(vals, nodes, p, kids, cd);
        assert(n2 == s2.nodes);
        assert(node_pairs(n2) =~= node_pairs(nodes) + pairs_of(vals, kids)) by {
            assert forall|i: int| 0 <= i < n2.len() implies #[trigger] node_pairs(n2)[i] == (node_pairs(nodes)
                + pairs_of(vals, kids))[i] by {
                if i >= l {
                    assert(n2[l + (i - l)] == child_node(vals, kids[i - l], cd, i as nat, p));
                } else if i != p {
                    assert(n2[i] == nodes[i]);
                }
            }
        }
        assert(pairs_of(vals, rem) =~= pairs_of(vals, kids) + pairs_of(vals, next));
        let per: nat = if next.len() > 0 {
            div_ceil(next.len(), kids.len())
        } else {
            1
        };
        let cl = if next.len() > 0 {
            chunk_list(next, slots, per, kids.len() as int)
        } else {
            Seq::empty()
        };
        assert(s2.queue =~= rest + cl);
        lemma_queue_pairs_append(vals, rest, cl);
        if next.len() > 0 {
            let len = next.len() as int;
            vstd::arithmetic::div_mod::lemma_fundamental_div_mod(len, nk);
            assert(per >= 1 && nk * per >= len) by (nonlinear_arith)
                requires
                    nk >= 1,
                    len >= 1,
                    len == nk * (len / nk) + len % nk,
                    0 <= len % nk < nk,
                    per == (if len % nk == 0 {
                        len / nk
                    } else {
                        len / nk + 1
                    }),
            ;
            lemma_chunk_pairs(vals, next, slots, per, nk);
            assert(next.take(len) =~= next);
        } else {
            assert(pairs_of(vals, next) =~= Seq::<Staked>::empty());
            assert(queue_pairs(vals, cl) =~= Seq::<Staked>::empty());
        }
        assert(queue_pairs(vals, cl) == pairs_of(vals, next));
        lemma_multiset_commutative(node_pairs(nodes), pairs_of(vals, kids));
        lemma_multiset_commutative(pairs_of(vals, kids), pairs_of(vals, next));
        lemma_multiset_commutative(queue_pairs(vals, rest), queue_pairs(vals, cl));
        assert(node_pairs(n2).to_multiset().add(queue_pairs(vals, s2.queue).to_multiset()) =~= vals.to_multiset());
    }
}

/// The placement run to its end keeps each validator held once.
proof fn lemma_run_pairs(vals: Seq<Staked>, max_depth: usize, st: BfsState)
    requires
        bfs_shape(vals, max_depth, st),
        max_depth >= vals.len(),
        pairs_kept(vals, st),
        bfs_run(vals, max_depth, st) is Some,
    ensures
        pairs_kept(vals, bfs_run(vals, max_depth, st)->Some_0),
    decreases queue_weight(st.queue),
{
    if st.queue.len() > 0 {
        let s2 = bfs_step(vals, max_depth, st)->Some_0;
        lemma_step_shape(vals, max_depth, st);
        lemma_step_pairs(vals, max_depth, st);
        lemma_step_lightens(vals, max_depth, st);
        lemma_run_pairs(vals, max_depth, s2);
    }
}

/// The start holds each validator once: the root, then the rest queued.
proof fn lemma_start_pairs(vals: Seq<Staked>)
    requires
        vals.len() > 0,
        vals.len() <= usize::MAX,
    ensures
        pairs_kept(vals, bfs_start(vals)),
{
    let st = bfs_start(vals);
    let n = vals.len() as int;
    assert(node_pairs(st.nodes) =~= seq![vals[0]]);
    assert(st.queue.drop_last() =~= Seq::<(usize, Seq<usize>)>::empty());
    assert(queue_pairs(vals, Seq::<(usize, Seq<usize>)>::empty()) == Seq::<Staked>::empty());
    assert(st.queue.last().1 == index_range(1, n));
    assert(queue_pairs(vals, st.queue) =~= Seq::<Staked>::empty() + pairs_of(vals, index_range(1, n)));
    assert(pairs_of(vals, index_range(1, n)) =~= vals.subrange(1, n));
    assert(seq![vals[0]] + vals.subrange(1, n) =~= vals);
    lemma_multiset_commutative(seq![vals[0]], vals.subrange(1, n));
    assert(Seq::<Staked>::empty() + vals.subrange(1, n) =~= vals.subrange(1, n));
}

/// Ordering by stake keeps the validators, each as often as given.
proof fn lemma_stake_order_multiset(s: Seq<Staked>)
    ensures
        stake_order(s).to_multiset() == s.to_multiset(),
    decreases s.len(),
{
    if s.len() > 0 {
        let s1 = s.drop_last();
        lemma_stake_order_multiset(s1);
        let t = stake_order(s1);
        lemma_stake_order(s1);
        lemma_below_from(t, s.last().1, 0);
        assert(stake_order(s) == t.insert(below_from(t, s.last().1, 0), s.last()));
        vstd::seq_lib::to_multiset_insert(t, below_from(t, s.last().1, 0), s.last());
        vstd::seq_lib::to_multiset_build(s1, s.last());
        assert(s1.push(s.last()) =~= s);
        assert(stake_order(s).to_multiset() == t.to_multiset().insert(s.last()));
        assert(s.to_multiset() =~= s1.to_multiset().insert(s.last()));
    } else {
        assert(s =~= Seq::<Staked>::empty());
    }
}

/// The tree that building gives has the shape of a propagation tree (see
/// `tree_shape`): a tree rooted at node 0, at most `FAN_OUT` children per
/// node, parents and children listing each other, no node deeper than
/// `max_depth`, no node with more stake than its parent, and `depth` the
/// deepest level. The root holds the largest stake, and no more nodes are
/// placed than there are validators. When `max_depth` is at least their
/// number, every validator is placed, each once: the nodes' keys and stakes
/// are the validators, as often as each is given. Building never fails.
pub proof fn lemma_build_tree_shape(validators: Seq<Staked>, max_depth: usize)
    requires
        validators.len() <= usize::MAX,
    ensures
        spec_build(validators, max_depth) is Some,
        ({
            let r = spec_build(validators, max_depth)->Some_0;
            &&& tree_shape(r.nodes, max_depth, r.depth)
            &&& r.nodes.len() <= validators.len()
            &&& max_depth >= validators.len() ==> r.nodes.len() == validators.len()
            &&& max_depth >= validators.len() ==> node_pairs(r.nodes).to_multiset() == validators.to_multiset()
            &&& forall|v: int| 0 <= v < validators.len() ==> (#[trigger] validators[v]).1 <= r.nodes[0].stake
        }),
{
    let vals = stake_order(validators);
    lemma_stake_order(validators);
    let r = spec_build(validators, max_depth)->Some_0;
    if vals.len() == 0 {
        reveal(tree_ok);
        assert(tree_shape(r.nodes, max_depth, r.depth));
        assert(node_pairs(r.nodes) =~= validators);
    } else {
        lemma_start_shape(vals, max_depth);
        lemma_run_some(vals, max_depth, bfs_start(vals));
        lemma_run_shape(vals, max_depth, bfs_start(vals));
        assert(queued(r.queue) == 0);
        if max_depth >= validators.len() {
            lemma_start_pairs(vals);
            lemma_run_pairs(vals, max_depth, bfs_start(vals));
            lemma_stake_order_multiset(validators);
            assert(r.queue =~= Seq::<(usize, Seq<usize>)>::empty());
            assert(queue_pairs(vals, r.queue) =~= Seq::<Staked>::empty());
            lemma_multiset_commutative(node_pairs(r.nodes), Seq::<Staked>::empty());
            assert(node_pairs(r.nodes) + Seq::<Staked>::empty() =~= node_pairs(r.nodes));
        }
        assert forall|v: int| 0 <= v < validators.len() implies (#[trigger] validators[v]).1 <= r.nodes[0].stake by {
            let i = choose|i: int| 0 <= i < validators.len() && #[trigger] vals[i] == validators[v];
            if i > 0 {
                assert(vals[0].1 >= vals[i].1);
            }
        }
    }
}

impl Neighborhood {
    /// Builds the tree: validators ordered by stake (largest first, equal
    /// stakes in order), the first as root, then breadth first each node
    /// takes up to three of the validators queued below it as children and
    /// hands the rest down in equal chunks to those children, no deeper than
    /// `max_depth`. An empty list gives an empty tree with a zero root.
    /// The tree has the shape that `lemma_build_tree_shape` states.
    pub fn build_tree(validators: Vec<Staked>, max_depth: usize) -> (t: Self)
        ensures
            spec_build(validators@, max_depth) is Some,
            ({
                let r = spec_build(validators@, max_depth)->Some_0;
                &&& node_views(t.nodes@) == r.nodes
                &&& tree_ok(r.nodes)
                &&& tree_shape(r.nodes, max_depth, r.depth)
                &&& t.depth == r.depth
                &&& r.nodes.len() > 0 ==> t.root@ == r.nodes[0]
            }),
    {
        let ghost given = validators@;
        let validators = order_by_stake(validators);
        let total = validators.len();
        proof {
            lemma_stake_order(given);
            lemma_build_tree_shape(given, max_depth);
        }
        if total == 0 {
            let root = TurbineNode {
                validator: [0u8; 32],
                stake: 0,
                depth: 0,
                index: 0,
                parent: None,
                children: Vec::new(),
            };
            let nodes: Vec<TurbineNode> = Vec::new();
            assert(node_views(nodes@) =~= Seq::<TurbineNodeView>::empty());
            proof {
                reveal(tree_ok);
            }
            return Neighborhood { root, nodes, depth: 0 };
        }
        let ghost vals = validators@;
        let ghost target = bfs_run(vals, max_depth, bfs_start(vals))->Some_0;
        let mut nodes: Vec<TurbineNode> = Vec::new();
        nodes.push(
            TurbineNode {
                validator: validators[0].0,
                stake: validators[0].1,
                depth: 0,
                index: 0,
                parent: None,
                children: Vec::new(),
            },
        );
        let mut first: Vec<usize> = Vec::new();
        let mut v: usize = 1;
        while v < total
            invariant
                1 <= v <= total,
                first@ == index_range(1, v as int),
            decreases total - v,
        {
            first.push(v);
            v = v + 1;
            assert(first@ =~= index_range(1, v as int));
        }
        let mut queue: Vec<(usize, Vec<usize>)> = Vec::new();
        queue.push((0, first));
        let mut depth: usize = 0;
        proof {
            assert(node_views(nodes@) =~= bfs_start(vals).nodes);
            assert(queue_views(queue@) =~= bfs_start(vals).queue);
            reveal(tree_ok);
            assert(tree_ok(node_views(nodes@)));
        }
        while queue.len() > 0
            invariant
                vals == validators@,
                total == vals.len(),
                bfs_run(vals, max_depth, BfsState { nodes: node_views(nodes@), queue: queue_views(queue@), depth })
                    == Some(target),
                queue_ok(queue_views(queue@), total as int),
                nodes@.len() > 0,
                tree_ok(node_views(nodes@)),
            decreases queue_weight(queue_views(queue@)),
        {
            let ghost st = BfsState { nodes: node_views(nodes@), queue: queue_views(queue@), depth };
            proof {
                lemma_step_lightens(vals, max_depth, st);
            }
            let ghost s2 = bfs_step(vals, max_depth, st)->Some_0;
            let (parent_idx, remaining) = queue.remove(0);
            proof {
                assert(queue_views(queue@) =~= st.queue.drop_first());
                assert(st.queue[0] == (parent_idx, remaining@));
                assert forall|j: int| 0 <= j < remaining@.len() implies #[trigger] remaining@[j] < total by {
                    assert(st.queue[0].1[j] < total);
                }
                assert forall|e: int, j: int|
                    0 <= e < queue_views(queue@).len() && 0 <= j < queue_views(queue@)[e].1.len() implies #[trigger] queue_views(
                    queue@,
                )[e].1[j] < total by {
                    assert(queue_views(queue@)[e] == st.queue[e + 1]);
                }
            }
            if remaining.len() == 0 {
                proof {
                    assert(s2 == BfsState { nodes: node_views(nodes@), queue: queue_views(queue@), depth });
                }
                continue ;
            }
            if nodes[parent_idx].depth as usize >= max_depth {
                proof {
                    assert(s2 == BfsState { nodes: node_views(nodes@), queue: queue_views(queue@), depth });
                }
                continue ;
            }
            let child_depth = nodes[parent_idx].depth + 1;
            if depth < child_depth as usize {
                depth = child_depth as usize;
            }
            let nk: usize = if remaining.len() < FAN_OUT {
                remaining.len()
            } else {
                FAN_OUT
            };
            let children = slice_to_vec(slice_subrange(remaining.as_slice(), 0, nk));
            let next = slice_to_vec(slice_subrange(remaining.as_slice(), nk, remaining.len()));
            proof {
                assert(children@ =~= remaining@.take(nk as int));
                assert(next@ =~= remaining@.skip(nk as int));
                assert(forall|j: int| 0 <= j < children@.len() ==> #[trigger] children@[j] == remaining@[j]);
                assert(forall|j: int| 0 <= j < next@.len() ==> #[trigger] next@[j] == remaining@[nk + j]);
            }
            let ghost nodes0 = node_views(nodes@);
            let base = nodes.len();
            let mut c: usize = 0;
            while c < nk
                invariant
                    c <= nk <= children@.len(),
                    nk == children@.len(),
                    parent_idx < nodes0.len(),
                    nodes0.len() <= node_views(nodes@).len(),
                    node_views(nodes@) == add_children(vals, nodes0, parent_idx, children@.take(c as int), child_depth),
                    forall|j: int| 0 <= j < children@.len() ==> #[trigger] children@[j] < vals.len(),
                    vals == validators@,
                decreases nk - c,
            {
                let child_idx = children[c];
                let new_idx = nodes.len();
                let node = TurbineNode {
                    validator: validators[child_idx].0,
                    stake: validators[child_idx].1,
                    depth: child_depth,
                    index: new_idx,
                    parent: Some(parent_idx),
                    children: Vec::new(),
                };
                let ghost n1 = node_views(nodes@);
                nodes.push(node);
                let mut parent = nodes[parent_idx].clone();
                parent.children.push(new_idx);
                nodes.set(parent_idx, parent);
                proof {
                    assert(children@.take(c + 1).drop_last() =~= children@.take(c as int));
                    assert(children@.take(c + 1).last() == child_idx);
                    assert(node_views(nodes@) =~= n1.push(
                        child_node(vals, child_idx, child_depth, new_idx as nat, parent_idx),
                    ).update(
                        parent_idx as int,
                        TurbineNodeView { children: n1[parent_idx as int].children.push(new_idx), ..n1[parent_idx as int] },
                    ));
                }
                c = c + 1;
            }
            let placed = nodes.len();
            proof {
                assert(children@.take(nk as int) =~= children@);
                assert(node_views(nodes@).len() == nodes@.len());
                assert(placed == nodes@.len());
                lemma_add_children_len(vals, nodes0, parent_idx, children@, child_depth);
                lemma_add_children_tree(vals, nodes0, parent_idx, children@, child_depth);
            }
            if next.len() > 0 && nk > 0 {
                let n = next.len();
                let per = if n % nk == 0 {
                    n / nk
                } else {
                    n / nk + 1
                };
                let ghost rest = queue_views(queue@);
                let mut i: usize = 0;
                while i < nk
                    invariant
                        i <= nk <= 3,
                        nk == children@.len(),
                        n == next@.len(),
                        per == div_ceil(n as nat, nk as nat),
                        queue_views(queue@) == rest + chunk_list(
                            next@,
                            index_range(base as int, base + nk),
                            per as nat,
                            i as int,
                        ),
                        base + nk == placed,
                        queue_ok(queue_views(queue@), total as int),
                        forall|j: int| 0 <= j < next@.len() ==> #[trigger] next@[j] < total,
                        nk > 0,
                        per <= n / nk + 1,
                    decreases nk - i,
                {
                    assert(i * per <= usize::MAX) by (nonlinear_arith)
                        requires
                            i < nk <= 3,
                            nk > 0,
                            per <= n / nk + 1,
                            n <= usize::MAX,
                            usize::MAX >= 0xffff_ffff,
                    ;
                    let start = i * per;
                    if start < n {
                        let end = if per < n - start {
                            start + per
                        } else {
                            n
                        };
                        let chunk = slice_to_vec(slice_subrange(next.as_slice(), start, end));
                        let ghost before = queue_views(queue@);
                        queue.push((base + i, chunk));
                        proof {
                            assert(index_range(base as int, base + nk)[i as int] == (base + i) as usize);
                            assert(queue_views(queue@) =~= before.push(((base + i) as usize, chunk@)));
                            assert forall|j: int| 0 <= j < chunk@.len() implies #[trigger] chunk@[j] < total by {
                                assert(chunk@[j] == next@[start + j]);
                            }
                            assert forall|e: int, j: int|
                                0 <= e < queue_views(queue@).len() && 0 <= j < queue_views(queue@)[e].1.len() implies #[trigger] queue_views(
                                queue@,
                            )[e].1[j] < total by {
                                if e < before.len() {
                                    assert(queue_views(queue@)[e] == before[e]);
                                }
                            }
                        }
                    }
                    i = i + 1;
                }
            }
            proof {
                assert(s2 == BfsState { nodes: node_views(nodes@), queue: queue_views(queue@), depth });
            }
        }
        let root = nodes[0].clone();
        Neighborhood { root, nodes, depth }
    }

    /// The path from the root to the first node of `validator`, or nothing
    /// if no node is that validator's.
    pub fn path_to(&self, validator: &[u8; 32]) -> (r: Option<Vec<&TurbineNode>>)
        requires
            tree_ok(node_views(self.nodes@)),
        ensures
            match position_of(node_views(self.nodes@), *validator) {
                None => r is None,
                Some(i) => r matches Some(path) && path@.len() == ancestry(node_views(self.nodes@), i).len()
                    && forall|j: int|
                    0 <= j < path@.len() ==> (*#[trigger] path@[j])@ == node_views(self.nodes@)[ancestry(
                        node_views(self.nodes@),
                        i,
                    )[j]],
            },
    {
        let ghost v = node_views(self.nodes@);
        let target = match find_node(&self.nodes, validator) {
            Some(t) => t,
            None => return None,
        };
        let mut upward: Vec<&TurbineNode> = Vec::new();
        let mut current: Option<usize> = Some(target);
        let ghost mut idxs: Seq<int> = Seq::empty();
        let ghost anc = ancestry(v, target as int);
        proof {
            assert(idxs.reverse() =~= Seq::<int>::empty());
            assert(anc + Seq::<int>::empty() =~= anc);
        }
        loop
            invariant
                v == node_views(self.nodes@),
                tree_ok(v),
                anc == ancestry(v, target as int),
                upward@.len() == idxs.len(),
                forall|j: int| 0 <= j < idxs.len() ==> 0 <= #[trigger] idxs[j] < v.len(),
                forall|j: int| 0 <= j < upward@.len() ==> (*#[trigger] upward@[j])@ == v[idxs[j]],
                current matches Some(c) ==> c < v.len() && anc == ancestry(v, c as int) + idxs.reverse(),
                current is None ==> anc == idxs.reverse(),
            ensures
                upward@.len() == idxs.len(),
                forall|j: int| 0 <= j < upward@.len() ==> (*#[trigger] upward@[j])@ == v[idxs[j]],
                anc == idxs.reverse(),
            decreases (match current {
                Some(c) => c + 1,
                None => 0,
            }),
        {
            match current {
                Some(idx) => {
                    let ghost before = idxs;
                    upward.push(&self.nodes[idx]);
                    current = self.nodes[idx].parent;
                    proof {
                        idxs = idxs.push(idx as int);
                        assert(idxs.reverse() =~= seq![idx as int] + before.reverse());
                        assert(v[idx as int].parent == self.nodes@[idx as int].parent);
                        lemma_tree_parent(v, idx as int);
                        match v[idx as int].parent {
                            Some(p) => {
                                assert(p < idx);
                                assert(ancestry(v, idx as int) == ancestry(v, p as int).push(idx as int));
                                assert(ancestry(v, p as int).push(idx as int) + before.reverse() =~= ancestry(
                                    v,
                                    p as int,
                                ) + idxs.reverse());
                            },
                            None => {
                                assert(ancestry(v, idx as int) == seq![idx as int]);
                                assert(seq![idx as int] + before.reverse() =~= idxs.reverse());
                            },
                        }
                    }
                },
                None => {
                    break ;
                },
            }
        }
        let mut path: Vec<&TurbineNode> = Vec::new();
        let mut k: usize = upward.len();
        while k > 0
            invariant
                k <= upward@.len(),
                path@.len() == upward@.len() - k,
                forall|j: int| 0 <= j < path@.len() ==> #[trigger] path@[j] == upward@[upward@.len() - 1 - j],
            decreases k,
        {
            k = k - 1;
            path.push(upward[k]);
        }
        proof {
            assert forall|j: int| 0 <= j < path@.len() implies (*#[trigger] path@[j])@ == v[anc[j]] by {
                assert(path@[j] == upward@[upward@.len() - 1 - j]);
                assert(anc[j] == idxs[idxs.len() - 1 - j]);
            }
        }
        Some(path)
    }

    /// The parent and then the children of the first node of `validator`;
    /// nothing if no node is that validator's.
    pub fn neighbors(&self, validator: &[u8; 32]) -> (r: Vec<&TurbineNode>)
        requires
            tree_ok(node_views(self.nodes@)),
        ensures
            match position_of(node_views(self.nodes@), *validator) {
                None => r@.len() == 0,
                Some(i) => {
                    let n = node_views(self.nodes@)[i];
                    let up: int = if n.parent is Some {
                        1
                    } else {
                        0
                    };
                    &&& r@.len() == up + n.children.len()
                    &&& n.parent matches Some(p) ==> (*r@[0])@ == node_views(self.nodes@)[p as int]
                    &&& forall|j: int|
                        up <= j < r@.len() ==> (*#[trigger] r@[j])@ == node_views(self.nodes@)[n.children[j - up] as int]
                },
            },
    {
        let ghost v = node_views(self.nodes@);
        let mut out: Vec<&TurbineNode> = Vec::new();
        let i = match find_node(&self.nodes, validator) {
            Some(i) => i,
            None => return out,
        };
        let node = &self.nodes[i];
        proof {
            lemma_tree_parent(v, i as int);
        }
        match node.parent {
            Some(p) => {
                proof {
                    assert(v[i as int].parent == Some(p));
                }
                out.push(&self.nodes[p]);
            },
            None => {},
        }
        let up = out.len();
        let mut j: usize = 0;
        while j < node.children.len()
            invariant
                v == node_views(self.nodes@),
                tree_ok(v),
                i < v.len(),
                node@ == v[i as int],
                up <= 1,
                j <= node.children@.len(),
                out@.len() == up + j,
                up == 1 ==> (node.parent matches Some(p) && (*out@[0])@ == v[p as int]),
                up == 0 ==> node.parent is None,
                forall|m: int| up <= m < up + j ==> (*#[trigger] out@[m])@ == v[node.children@[m - up] as int],
            decreases node.children@.len() - j,
        {
            let c = node.children[j];
            proof {
                lemma_tree_child(v, i as int, j as int);
            }
            out.push(&self.nodes[c]);
            j = j + 1;
        }
        out
    }

    /// The nodes at `depth`, in order.
    pub fn at_depth(&self, depth: u8) -> (r: Vec<&TurbineNode>)
        ensures
            r@.len() == nodes_at_depth(node_views(self.nodes@), depth).len(),
            forall|j: int| 0 <= j < r@.len() ==> (*#[trigger] r@[j])@ == nodes_at_depth(node_views(self.nodes@), depth)[j],
    {
        let ghost v = node_views(self.nodes@);
        let mut out: Vec<&TurbineNode> = Vec::new();
        let mut i: usize = 0;
        while i < self.nodes.len()
            invariant
                v == node_views(self.nodes@),
                i <= v.len(),
                out@.len() == nodes_at_depth(v.take(i as int), depth).len(),
                forall|j: int| 0 <= j < out@.len() ==> (*#[trigger] out@[j])@ == nodes_at_depth(v.take(i as int), depth)[j],
            decreases v.len() - i,
        {
            proof {
                assert(v.take(i + 1).drop_last() =~= v.take(i as int));
                assert(v.take(i + 1).last() == v[i as int]);
            }
            if self.nodes[i].depth == depth {
                out.push(&self.nodes[i]);
            }
            i = i + 1;
        }
        assert(v.take(i as int) =~= v);
        out
    }

    /// The total stake of the nodes.
    pub fn total_stake(&self) -> (n: u64)
        requires
            stake_sum(node_views(self.nodes@)) <= u64::MAX,
        ensures
            n == stake_sum(node_views(self.nodes@)),
    {
        let ghost v = node_views(self.nodes@);
        proof {
            lemma_stake_sum_prefixes(v);
        }
        let mut total: u64 = 0;
        let mut i: usize = 0;
        while i < self.nodes.len()
            invariant
                v == node_views(self.nodes@),
                i <= v.len(),
                total == stake_sum(v.take(i as int)),
                stake_sum(v) <= u64::MAX,
                forall|k: int| 0 <= k <= v.len() ==> #[trigger] stake_sum(v.take(k)) <= stake_sum(v),
            decreases v.len() - i,
        {
            proof {
                assert(v.take(i + 1).drop_last() =~= v.take(i as int));
                assert(stake_sum(v.take(i + 1)) <= stake_sum(v));
            }
            total = total + self.nodes[i].stake;
            i = i + 1;
        }
        assert(v.take(i as int) =~= v);
        total
    }
}

} // verus!
