//! The layout tree as mathematics: which arrangements of nodes in the slots
//! of an arena form a tree, which nodes lie below a node, and which
//! viewports a walk from a node yields.
//!
//! A tree in an arena has no height of its own to recurse on, so the
//! recursive definitions take a bound on the height. For a well-formed tree
//! every sufficient bound gives the same answer.

use crate::state::viewports::{Division, ViewPort, ViewRect};
use vstd::prelude::*;

verus! {

/// The slots of an arena of nodes.
pub type Slots = Seq<Option<Division>>;

/// Whether slot `i` exists and holds a node.
pub open spec fn live(s: Slots, i: usize) -> bool {
    i < s.len() && s[i as int] is Some
}

/// The node in slot `i`.
pub open spec fn node(s: Slots, i: usize) -> Division {
    s[i as int].unwrap()
}

/// Whether a walk from the node `n` finds every child it looks up, within
/// `height` levels below `n`.
pub open spec fn walkable(s: Slots, n: Division, height: nat) -> bool
    decreases height,
{
    match n {
        Division::Leaf { .. } => true,
        Division::Ratio { direction, a, b, .. } => {
            &&& height > 0
            &&& direction.wf()
            &&& live(s, a)
            &&& live(s, b)
            &&& walkable(s, node(s, a), (height - 1) as nat)
            &&& walkable(s, node(s, b), (height - 1) as nat)
        },
    }
}

/// The viewports of the leaves below `n`, first part before second, when
/// `n` is given the rectangle `rect`.
pub open spec fn leaves(s: Slots, n: Division, rect: ViewRect, height: nat) -> Seq<ViewPort>
    decreases height,
{
    match n {
        Division::Leaf { id, .. } => seq![ViewPort { div_id: id, rect }],
        Division::Ratio { direction, a, b, .. } => {
            if height > 0 {
                let parts = direction.spec_divide(rect);
                leaves(s, node(s, a), parts.0, (height - 1) as nat) + leaves(
                    s,
                    node(s, b),
                    parts.1,
                    (height - 1) as nat,
                )
            } else {
                Seq::empty()
            }
        },
    }
}

/// Whether a walk from `n` comes to an end without missing a node.
pub open spec fn can_walk(s: Slots, n: Division) -> bool {
    exists|height: nat| walkable(s, n, height)
}

/// A height within which a walk from `n` ends.
pub open spec fn walk_height(s: Slots, n: Division) -> nat {
    choose|height: nat| walkable(s, n, height)
}

/// The viewports that a walk from `n` yields for the rectangle `rect`.
pub open spec fn viewports_of(s: Slots, n: Division, rect: ViewRect) -> Seq<ViewPort> {
    leaves(s, n, rect, walk_height(s, n))
}

/// Two sufficient heights give the same viewports.
pub proof fn lemma_leaves_height(s: Slots, n: Division, rect: ViewRect, h1: nat, h2: nat)
    requires
        walkable(s, n, h1),
        walkable(s, n, h2),
    ensures
        leaves(s, n, rect, h1) == leaves(s, n, rect, h2),
    decreases h1,
{
    match n {
        Division::Leaf { .. } => {},
        Division::Ratio { direction, a, b, .. } => {
            let parts = direction.spec_divide(rect);
            lemma_leaves_height(s, node(s, a), parts.0, (h1 - 1) as nat, (h2 - 1) as nat);
            lemma_leaves_height(s, node(s, b), parts.1, (h1 - 1) as nat, (h2 - 1) as nat);
        },
    }
}

/// Any sufficient height gives the viewports of the walk.
pub proof fn lemma_viewports_of(s: Slots, n: Division, rect: ViewRect, height: nat)
    requires
        walkable(s, n, height),
    ensures
        can_walk(s, n),
        leaves(s, n, rect, height) == viewports_of(s, n, rect),
{
    lemma_leaves_height(s, n, rect, height, walk_height(s, n));
}

/// Whether `n` is the root of a tree of at most `height` levels below it:
/// `n` sits in the slot of its id, and the two children of every ratio node
/// are different live nodes that sit in their slots, name the ratio node as
/// their parent, and are roots of trees themselves.
pub open spec fn subtree_wf(s: Slots, n: Division, height: nat) -> bool
    decreases height,
{
    &&& live(s, n.spec_id())
    &&& node(s, n.spec_id()) == n
    &&& match n {
        Division::Leaf { .. } => true,
        Division::Ratio { direction, a, b, id, .. } => {
            &&& height > 0
            &&& direction.wf()
            &&& a != b
            &&& live(s, a)
            &&& node(s, a).spec_id() == a
            &&& node(s, a).spec_parent() == Some(id)
            &&& subtree_wf(s, node(s, a), (height - 1) as nat)
            &&& live(s, b)
            &&& node(s, b).spec_id() == b
            &&& node(s, b).spec_parent() == Some(id)
            &&& subtree_wf(s, node(s, b), (height - 1) as nat)
        },
    }
}

/// The slots of the nodes below `n`, `n` itself not among them.
pub open spec fn descendants(s: Slots, n: Division, height: nat) -> Set<int>
    decreases height,
{
    match n {
        Division::Leaf { .. } => Set::empty(),
        Division::Ratio { a, b, .. } => {
            if height > 0 && live(s, a) && live(s, b) {
                descendants(s, node(s, a), (height - 1) as nat).union(
                    descendants(s, node(s, b), (height - 1) as nat),
                ).insert(a as int).insert(b as int)
            } else {
                Set::empty()
            }
        },
    }
}

/// The nodes below `n` in the order in which a collapse frees them:
/// everything below the first child, everything below the second, then
/// the two children.
pub open spec fn freed_order(s: Slots, n: Division, height: nat) -> Seq<usize>
    decreases height,
{
    match n {
        Division::Leaf { .. } => Seq::empty(),
        Division::Ratio { a, b, .. } => {
            if height > 0 && live(s, a) && live(s, b) {
                freed_order(s, node(s, a), (height - 1) as nat) + freed_order(
                    s,
                    node(s, b),
                    (height - 1) as nat,
                ) + seq![a, b]
            } else {
                Seq::empty()
            }
        },
    }
}

/// Whether `n` is the root of a tree in the slots.
pub open spec fn is_subtree(s: Slots, n: Division) -> bool {
    exists|height: nat| subtree_wf(s, n, height)
}

/// A height that the tree below `n` stays within.
pub open spec fn subtree_height(s: Slots, n: Division) -> nat {
    choose|height: nat| subtree_wf(s, n, height)
}

/// The slots of the nodes below the root `n` of a tree.
pub open spec fn nodes_below(s: Slots, n: Division) -> Set<int> {
    descendants(s, n, subtree_height(s, n))
}

/// The nodes below the root `n` of a tree, in the order in which a
/// collapse frees them.
pub open spec fn freed_below(s: Slots, n: Division) -> Seq<usize> {
    freed_order(s, n, subtree_height(s, n))
}

/// A tree that stays within a height stays within every greater one, with
/// the same nodes below its root.
pub proof fn lemma_subtree_taller(s: Slots, n: Division, h1: nat, h2: nat)
    requires
        subtree_wf(s, n, h1),
        h1 <= h2,
    ensures
        subtree_wf(s, n, h2),
        walkable(s, n, h2),
        descendants(s, n, h2) == descendants(s, n, h1),
        freed_order(s, n, h2) == freed_order(s, n, h1),
    decreases h1,
{
    match n {
        Division::Leaf { .. } => {},
        Division::Ratio { a, b, .. } => {
            lemma_subtree_taller(s, node(s, a), (h1 - 1) as nat, (h2 - 1) as nat);
            lemma_subtree_taller(s, node(s, b), (h1 - 1) as nat, (h2 - 1) as nat);
        },
    }
}

/// Any height that a tree stays within gives the nodes below its root.
pub proof fn lemma_subtree_height(s: Slots, n: Division, height: nat)
    requires
        subtree_wf(s, n, height),
    ensures
        is_subtree(s, n),
        can_walk(s, n),
        descendants(s, n, height) == nodes_below(s, n),
        freed_order(s, n, height) == freed_below(s, n),
{
    let h = subtree_height(s, n);
    if h <= height {
        lemma_subtree_taller(s, n, h, height);
    } else {
        lemma_subtree_taller(s, n, height, h);
    }
    lemma_subtree_taller(s, n, height, height);
}

/// A node below the root of a tree is live, sits in its slot, is the root
/// of a lower tree whose nodes all lie below the first root too, and has
/// for parent that root or another node below it.
pub proof fn lemma_descendant(s: Slots, n: Division, height: nat, x: usize)
    requires
        subtree_wf(s, n, height),
        descendants(s, n, height).contains(x as int),
    ensures
        height > 0,
        live(s, x),
        node(s, x).spec_id() == x,
        subtree_wf(s, node(s, x), (height - 1) as nat),
        descendants(s, node(s, x), (height - 1) as nat).subset_of(descendants(s, n, height)),
        node(s, x).spec_parent() matches Some(q) && (q == n.spec_id() || descendants(
            s,
            n,
            height,
        ).contains(q as int)),
    decreases height,
{
    match n {
        Division::Leaf { .. } => {},
        Division::Ratio { a, b, .. } => {
            let h1 = (height - 1) as nat;
            if x == a || x == b {
            } else {
                let c = if descendants(s, node(s, a), h1).contains(x as int) {
                    a
                } else {
                    b
                };
                lemma_descendant(s, node(s, c), h1, x);
                lemma_subtree_taller(s, node(s, x), (h1 - 1) as nat, h1);
            }
        },
    }
}

/// The root of a tree is not below itself.
pub proof fn lemma_root_not_below(s: Slots, n: Division, height: nat)
    requires
        subtree_wf(s, n, height),
    ensures
        !descendants(s, n, height).contains(n.spec_id() as int),
    decreases height,
{
    if descendants(s, n, height).contains(n.spec_id() as int) {
        lemma_descendant(s, n, height, n.spec_id());
        let h1 = (height - 1) as nat;
        lemma_subtree_taller(s, n, h1, height);
        lemma_root_not_below(s, n, h1);
    }
}

/// Two trees that have a node in common are not apart: the root of one is
/// the root of the other or lies below it.
pub proof fn lemma_shared_node(s: Slots, n: Division, hn: nat, k: Division, hk: nat, x: usize)
    requires
        subtree_wf(s, n, hn),
        subtree_wf(s, k, hk),
        descendants(s, n, hn).contains(x as int),
        x == k.spec_id() || descendants(s, k, hk).contains(x as int),
    ensures
        n.spec_id() == k.spec_id() || descendants(s, k, hk).contains(n.spec_id() as int)
            || descendants(s, n, hn).contains(k.spec_id() as int),
    decreases hn,
{
    match n {
        Division::Leaf { .. } => {},
        Division::Ratio { a, b, .. } => {
            let h1 = (hn - 1) as nat;
            if x == a || x == b {
                if x != k.spec_id() {
                    lemma_descendant(s, k, hk, x);
                }
            } else {
                let c = if descendants(s, node(s, a), h1).contains(x as int) {
                    a
                } else {
                    b
                };
                lemma_shared_node(s, node(s, c), h1, k, hk, x);
                if c != k.spec_id() && descendants(s, k, hk).contains(c as int) {
                    lemma_descendant(s, k, hk, c);
                }
            }
        },
    }
}

/// In a tree the two children of a ratio node head trees that are apart:
/// neither child lies below the other, and no node lies below both.
pub proof fn lemma_siblings_apart(s: Slots, n: Division, height: nat)
    requires
        subtree_wf(s, n, height),
        n is Ratio,
    ensures
        n matches Division::Ratio { a, b, .. } && {
            let below_a = descendants(s, node(s, a), (height - 1) as nat);
            let below_b = descendants(s, node(s, b), (height - 1) as nat);
            &&& !below_a.contains(a as int)
            &&& !below_a.contains(b as int)
            &&& !below_b.contains(a as int)
            &&& !below_b.contains(b as int)
            &&& !below_a.contains(n.spec_id() as int)
            &&& !below_b.contains(n.spec_id() as int)
            &&& n.spec_id() != a
            &&& n.spec_id() != b
            &&& below_a.disjoint(below_b)
        },
{
    match n {
        Division::Leaf { .. } => {},
        Division::Ratio { a, b, .. } => {
            let h1 = (height - 1) as nat;
            let na = node(s, a);
            let nb = node(s, b);
            let below_a = descendants(s, na, h1);
            let below_b = descendants(s, nb, h1);
            lemma_root_not_below(s, n, height);
            lemma_root_not_below(s, na, h1);
            lemma_root_not_below(s, nb, h1);
            if below_a.contains(b as int) {
                lemma_descendant(s, na, h1, b);
            }
            if below_b.contains(a as int) {
                lemma_descendant(s, nb, h1, a);
            }
            assert forall|x: int| !(below_a.contains(x) && below_b.contains(x)) by {
                if below_a.contains(x) && below_b.contains(x) {
                    lemma_descendant_in_range(s, na, h1, x);
                    lemma_shared_node(s, na, h1, nb, h1, x as usize);
                }
            }
        },
    }
}

/// What lies below a node is the index of a slot.
pub proof fn lemma_descendant_in_range(s: Slots, n: Division, height: nat, x: int)
    requires
        descendants(s, n, height).contains(x),
    ensures
        0 <= x < s.len(),
        x <= usize::MAX,
    decreases height,
{
    match n {
        Division::Leaf { .. } => {},
        Division::Ratio { a, b, .. } => {
            let h1 = (height - 1) as nat;
            if x == a || x == b {
            } else if descendants(s, node(s, a), h1).contains(x) {
                lemma_descendant_in_range(s, node(s, a), h1, x);
            } else {
                lemma_descendant_in_range(s, node(s, b), h1, x);
            }
        },
    }
}

/// A tree is untouched by changes elsewhere: where other slots hold the
/// same as before in the root's slot and in every slot below it, the tree
/// is there as before.
pub proof fn lemma_subtree_frame(s: Slots, t: Slots, n: Division, height: nat)
    requires
        subtree_wf(s, n, height),
        s.len() <= t.len(),
        t[n.spec_id() as int] == s[n.spec_id() as int],
        forall|x: int| descendants(s, n, height).contains(x) ==> t[x] == s[x],
    ensures
        subtree_wf(t, n, height),
        descendants(t, n, height) == descendants(s, n, height),
        freed_order(t, n, height) == freed_order(s, n, height),
    decreases height,
{
    match n {
        Division::Leaf { .. } => {},
        Division::Ratio { a, b, .. } => {
            let h1 = (height - 1) as nat;
            assert(descendants(s, n, height).contains(a as int));
            assert(descendants(s, n, height).contains(b as int));
            lemma_subtree_frame(s, t, node(s, a), h1);
            lemma_subtree_frame(s, t, node(s, b), h1);
        },
    }
}

/// Whether the slots hold a tree of at most `height` levels below its root
/// in slot 0, and no node besides.
pub open spec fn rooted(s: Slots, height: nat) -> bool {
    &&& live(s, 0)
    &&& node(s, 0).spec_id() == 0
    &&& node(s, 0).spec_parent() is None
    &&& subtree_wf(s, node(s, 0), height)
    &&& forall|i: int|
        0 <= i < s.len() && (#[trigger] s[i]) is Some ==> i == 0 || descendants(
            s,
            node(s, 0),
            height,
        ).contains(i)
}

/// Whether the slots hold the layout tree: slot 0 holds the root, which has
/// no parent; the children of every ratio node are live and name it as
/// their parent; and every live node is the root or lies below it.
pub open spec fn tree_wf(s: Slots) -> bool {
    exists|height: nat| rooted(s, height)
}

/// The height of a tree shows whatever bound it is measured with.
pub proof fn lemma_rooted_height(s: Slots, height: nat)
    requires
        rooted(s, height),
    ensures
        tree_wf(s),
        is_subtree(s, node(s, 0)),
        can_walk(s, node(s, 0)),
        descendants(s, node(s, 0), height) == nodes_below(s, node(s, 0)),
{
    lemma_subtree_height(s, node(s, 0), height);
}

/// The layout tree has a live root in slot 0, from which a walk can start.
pub proof fn lemma_tree_root(s: Slots)
    requires
        tree_wf(s),
    ensures
        live(s, 0),
        node(s, 0).spec_id() == 0,
        node(s, 0).spec_parent() is None,
        is_subtree(s, node(s, 0)),
        can_walk(s, node(s, 0)),
{
    let height = choose|height: nat| rooted(s, height);
    lemma_rooted_height(s, height);
}

/// Whether the node in slot `x` names a parent that is a live ratio node
/// and lists `x` as one of its two children.
pub open spec fn has_parent(s: Slots, x: usize) -> bool {
    match node(s, x).spec_parent() {
        Some(p) => live(s, p) && match node(s, p) {
            Division::Ratio { a, b, .. } => a == x || b == x,
            Division::Leaf { .. } => false,
        },
        None => false,
    }
}

/// Whether the node in slot `x`, if it is a ratio node, has two different
/// live children that sit in their slots and name `x` as their parent.
pub open spec fn has_children(s: Slots, x: usize) -> bool {
    match node(s, x) {
        Division::Ratio { direction, a, b, .. } => {
            &&& direction.wf()
            &&& a != b
            &&& live(s, a)
            &&& live(s, b)
            &&& node(s, a).spec_id() == a
            &&& node(s, b).spec_id() == b
            &&& node(s, a).spec_parent() == Some(x)
            &&& node(s, b).spec_parent() == Some(x)
        },
        Division::Leaf { .. } => true,
    }
}

/// In the layout tree every live node sits in the slot of its id and is
/// the root of a tree of its own; the two children of every ratio node
/// are live and name it as their parent; and every node but the root, which
/// has no parent, has a live ratio node for parent that lists it as a
/// child.
pub proof fn lemma_tree_node(s: Slots, x: usize)
    requires
        tree_wf(s),
        live(s, x),
    ensures
        is_subtree(s, node(s, x)),
        node(s, x).spec_id() == x,
        has_children(s, x),
        x != 0 ==> has_parent(s, x),
        x == 0 ==> node(s, x).spec_parent() is None,
{
    let height = choose|height: nat| rooted(s, height);
    let root = node(s, 0);
    if x != 0 {
        lemma_parent_lists_child(s, root, height, x);
        lemma_descendant(s, root, height, x);
    }
}

/// Below the root of a tree every node has a parent in the tree that is a
/// ratio node and lists it as a child.
pub proof fn lemma_parent_lists_child(s: Slots, n: Division, height: nat, x: usize)
    requires
        subtree_wf(s, n, height),
        descendants(s, n, height).contains(x as int),
    ensures
        has_parent(s, x),
    decreases height,
{
    match n {
        Division::Leaf { .. } => {},
        Division::Ratio { a, b, .. } => {
            let h1 = (height - 1) as nat;
            if x == a || x == b {
            } else if descendants(s, node(s, a), h1).contains(x as int) {
                lemma_parent_lists_child(s, node(s, a), h1, x);
            } else {
                lemma_parent_lists_child(s, node(s, b), h1, x);
            }
        },
    }
}

} // verus!
