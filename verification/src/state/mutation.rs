//! What dividing a leaf, collapsing a ratio node and changing a selection
//! do to the arena, to the layout tree and to its viewports.

use crate::evec::{next_generation, EvecView};
use crate::state::viewports::{DivDirection, Division, ViewPort, ViewRect};
use crate::state::tree::{
    Slots, descendants, freed_below, is_subtree, leaves, lemma_descendant,
    lemma_descendant_in_range, lemma_leaves_height, lemma_root_not_below, lemma_siblings_apart,
    lemma_subtree_height, lemma_subtree_taller, lemma_tree_node, lemma_viewports_of, live, node,
    nodes_below, rooted, subtree_height, subtree_wf, tree_wf, viewports_of,
};
use vstd::prelude::*;

verus! {

/// The arena after the leaf `leaf` has been divided in the direction `dir`:
/// two new leaves are stored, each showing what `leaf` showed and naming it
/// as parent, and a ratio node over them takes the place of `leaf`.
pub open spec fn divided(
    m: EvecView<Division>,
    leaf: Division,
    dir: DivDirection,
) -> EvecView<Division> {
    let id = leaf.spec_id();
    let selected = leaf.spec_selected().unwrap();
    let a = m.next_available() as usize;
    let with_a = m.push(Division::Leaf { parent: Some(id), id: a, selected });
    let b = with_a.next_available() as usize;
    let with_b = with_a.push(Division::Leaf { parent: Some(id), id: b, selected });
    with_b.replace(
        id as int,
        Division::Ratio { parent: leaf.spec_parent(), id, direction: dir, a, b },
    )
}

/// The arena after the ratio node `split` has been collapsed into a leaf
/// that shows `selected`: every node below `split` is removed, children
/// after what lies below them, which takes their slots to the next
/// generation, and the leaf takes the place of `split`.
pub open spec fn collapsed(
    m: EvecView<Division>,
    split: Division,
    selected: i32,
) -> EvecView<Division> {
    EvecView {
        slots: Seq::new(
            m.slots.len(),
            |i: int|
                if i == split.spec_id() {
                    Some(split.as_leaf(selected))
                } else if nodes_below(m.slots, split).contains(i) {
                    None
                } else {
                    m.slots[i]
                },
        ),
        free: m.free + freed_below(m.slots, split),
        generations: Seq::new(
            m.generations.len(),
            |i: int|
                if nodes_below(m.slots, split).contains(i) {
                    next_generation(m.generations[i])
                } else {
                    m.generations[i]
                },
        ),
    }
}

/// What a division does to a tree that holds the divided leaf or does not.
proof fn lemma_divide_subtree(
    s: Slots,
    t: Slots,
    leaf: Division,
    ratio: Division,
    n: Division,
    height: nat,
)
    requires
        subtree_wf(s, n, height),
        leaf is Leaf,
        live(s, leaf.spec_id()),
        node(s, leaf.spec_id()) == leaf,
        s.len() <= t.len(),
        t[leaf.spec_id() as int] == Some(ratio),
        forall|i: int| 0 <= i < s.len() && s[i] is Some && i != leaf.spec_id() ==> t[i] == s[i],
        ratio matches Division::Ratio { id, parent, direction, a, b } && {
            &&& id == leaf.spec_id()
            &&& parent == leaf.spec_parent()
            &&& direction.wf()
            &&& a != b
            &&& !live(s, a)
            &&& !live(s, b)
            &&& live(t, a)
            &&& live(t, b)
            &&& node(t, a) is Leaf
            &&& node(t, b) is Leaf
            &&& node(t, a).spec_id() == a
            &&& node(t, b).spec_id() == b
            &&& node(t, a).spec_parent() == Some(id)
            &&& node(t, b).spec_parent() == Some(id)
        },
    ensures
        ({
            let n2 = if n.spec_id() == leaf.spec_id() {
                ratio
            } else {
                n
            };
            let before = descendants(s, n, height);
            &&& subtree_wf(t, n2, height + 1)
            &&& descendants(t, n2, height + 1) == if n.spec_id() == leaf.spec_id()
                || before.contains(leaf.spec_id() as int) {
                before.insert(ratio->a as int).insert(ratio->b as int)
            } else {
                before
            }
        }),
    decreases height,
{
    let n2 = if n.spec_id() == leaf.spec_id() {
        ratio
    } else {
        n
    };
    let before = descendants(s, n, height);
    let after = descendants(t, n2, height + 1);
    let new_a = ratio->a;
    let new_b = ratio->b;
    if n.spec_id() == leaf.spec_id() {
        assert(descendants(t, node(t, new_a), height) =~= Set::empty());
        assert(descendants(t, node(t, new_b), height) =~= Set::empty());
        assert(subtree_wf(t, node(t, new_a), height));
        assert(subtree_wf(t, node(t, new_b), height));
        assert(before =~= Set::empty());
        assert(after =~= before.insert(new_a as int).insert(new_b as int));
    } else {
        match n {
            Division::Leaf { .. } => {
                assert(after =~= before);
            },
            Division::Ratio { a, b, .. } => {
                let h1 = (height - 1) as nat;
                lemma_divide_subtree(s, t, leaf, ratio, node(s, a), h1);
                lemma_divide_subtree(s, t, leaf, ratio, node(s, b), h1);
                lemma_root_not_below(s, n, height);
                if before.contains(leaf.spec_id() as int) {
                    assert(after =~= before.insert(new_a as int).insert(new_b as int));
                } else {
                    assert(after =~= before);
                }
            },
        }
    }
}

/// Dividing a leaf of the layout tree leaves a layout tree: the arena
/// stays well formed, the two new leaves take handles that were free, and
/// they are the only new live nodes.
pub proof fn lemma_divide_keeps_tree(m: EvecView<Division>, leaf: Division, dir: DivDirection)
    requires
        m.wf(),
        tree_wf(m.slots),
        leaf is Leaf,
        live(m.slots, leaf.spec_id()),
        node(m.slots, leaf.spec_id()) == leaf,
        dir.wf(),
        divided(m, leaf, dir).slots.len() <= usize::MAX,
    ensures
        divided(m, leaf, dir).wf(),
        tree_wf(divided(m, leaf, dir).slots),
        node(divided(m, leaf, dir).slots, leaf.spec_id()) matches Division::Ratio {
            id,
            parent,
            direction,
            a,
            b,
        } && {
            &&& id == leaf.spec_id()
            &&& parent == leaf.spec_parent()
            &&& direction == dir
            &&& a != b
            &&& !live(m.slots, a)
            &&& !live(m.slots, b)
            &&& node(divided(m, leaf, dir).slots, a) == (Division::Leaf {
                selected: leaf.spec_selected().unwrap(),
                parent: Some(id),
                id: a,
            })
            &&& node(divided(m, leaf, dir).slots, b) == (Division::Leaf {
                selected: leaf.spec_selected().unwrap(),
                parent: Some(id),
                id: b,
            })
            &&& divided(m, leaf, dir).live_set() == m.live_set().insert(a as int).insert(b as int)
        },
        forall|i: int|
            0 <= i < m.slots.len() && m.slots[i] is Some && i != leaf.spec_id() ==> divided(
                m,
                leaf,
                dir,
            ).slots[i] == m.slots[i],
{
    let id = leaf.spec_id();
    let selected = leaf.spec_selected().unwrap();
    let a = m.next_available() as usize;
    let leaf_a = Division::Leaf { parent: Some(id), id: a, selected };
    let with_a = m.push(leaf_a);
    let b = with_a.next_available() as usize;
    let leaf_b = Division::Leaf { parent: Some(id), id: b, selected };
    let with_b = with_a.push(leaf_b);
    let ratio = Division::Ratio { parent: leaf.spec_parent(), id, direction: dir, a, b };
    let after = with_b.replace(id as int, ratio);
    m.lemma_push_gives_fresh_handle(leaf_a);
    with_a.lemma_push_gives_fresh_handle(leaf_b);
    with_b.lemma_replace_keeps_handles(id as int, ratio);
    assert(after == divided(m, leaf, dir));
    assert(m.live_set().contains(id as int));
    assert(with_a.live_set().contains(a as int));
    assert(with_b.live_set().contains(b as int));
    let height = choose|height: nat| rooted(m.slots, height);
    let s = m.slots;
    let t = after.slots;
    let root = node(s, 0);
    lemma_divide_subtree(s, t, leaf, ratio, root, height);
    assert(rooted(t, height + 1)) by {
        assert forall|i: int| 0 <= i < t.len() && (#[trigger] t[i]) is Some implies i == 0
            || descendants(t, node(t, 0), height + 1).contains(i) by {
            if after.live_set().contains(i) {
            }
            if i != a && i != b {
                assert(m.live_set().contains(i));
            }
        }
    }
}

/// What a collapse does to a tree whose root is not among the removed
/// nodes.
proof fn lemma_collapse_subtree(
    s: Slots,
    t: Slots,
    split: Division,
    hk: nat,
    leaf: Division,
    n: Division,
    height: nat,
)
    requires
        subtree_wf(s, split, hk),
        subtree_wf(s, n, height),
        !descendants(s, split, hk).contains(n.spec_id() as int),
        t.len() == s.len(),
        leaf is Leaf,
        leaf.spec_id() == split.spec_id(),
        leaf.spec_parent() == split.spec_parent(),
        forall|i: int|
            0 <= i < s.len() ==> #[trigger] t[i] == if i == split.spec_id() {
                Some(leaf)
            } else if descendants(s, split, hk).contains(i) {
                None
            } else {
                s[i]
            },
    ensures
        ({
            let n2 = if n.spec_id() == split.spec_id() {
                leaf
            } else {
                n
            };
            &&& subtree_wf(t, n2, height)
            &&& descendants(t, n2, height) == descendants(s, n, height).difference(
                descendants(s, split, hk),
            )
        }),
    decreases height,
{
    let n2 = if n.spec_id() == split.spec_id() {
        leaf
    } else {
        n
    };
    let removed = descendants(s, split, hk);
    let before = descendants(s, n, height);
    let after = descendants(t, n2, height);
    if n.spec_id() == split.spec_id() {
        lemma_subtree_height(s, split, hk);
        lemma_subtree_height(s, n, height);
        assert(after =~= before.difference(removed));
    } else {
        match n {
            Division::Leaf { .. } => {
                assert(after =~= before.difference(removed));
            },
            Division::Ratio { a, b, .. } => {
                let h1 = (height - 1) as nat;
                if removed.contains(a as int) {
                    lemma_descendant(s, split, hk, a);
                }
                if removed.contains(b as int) {
                    lemma_descendant(s, split, hk, b);
                }
                lemma_collapse_subtree(s, t, split, hk, leaf, node(s, a), h1);
                lemma_collapse_subtree(s, t, split, hk, leaf, node(s, b), h1);
                assert(t[n.spec_id() as int] == s[n.spec_id() as int]);
                assert(t[a as int] is Some);
                assert(t[b as int] is Some);
                assert(after =~= before.difference(removed));
            },
        }
    }
}

/// Collapsing a ratio node of the layout tree leaves a layout tree: the
/// nodes below it are gone, a leaf stands in its place, and every other
/// node is as it was.
pub proof fn lemma_collapse_keeps_tree(m: EvecView<Division>, split: Division, selected: i32)
    requires
        tree_wf(m.slots),
        split is Ratio,
        live(m.slots, split.spec_id()),
        node(m.slots, split.spec_id()) == split,
    ensures
        is_subtree(m.slots, split),
        tree_wf(collapsed(m, split, selected).slots),
        collapsed(m, split, selected).live_set() == m.live_set().difference(
            nodes_below(m.slots, split),
        ),
        !nodes_below(m.slots, split).contains(split.spec_id() as int),
{
    let s = m.slots;
    let after = collapsed(m, split, selected);
    let t = after.slots;
    let height = choose|height: nat| rooted(s, height);
    let root = node(s, 0);
    lemma_tree_node(s, split.spec_id());
    let hk = subtree_height(s, split);
    let removed = descendants(s, split, hk);
    lemma_root_not_below(s, split, hk);
    if removed.contains(0) {
        lemma_descendant(s, split, hk, 0);
    }
    lemma_collapse_subtree(s, t, split, hk, split.as_leaf(selected), root, height);
    assert forall|i: int| removed.contains(i) implies 0 <= i < s.len() by {
        lemma_descendant_in_range(s, split, hk, i);
    }
    assert(after.live_set() =~= m.live_set().difference(removed));
    assert(rooted(t, height)) by {
        assert forall|i: int| 0 <= i < t.len() && (#[trigger] t[i]) is Some implies i == 0
            || descendants(t, node(t, 0), height).contains(i) by {
            assert(s[i] is Some);
        }
    }
}

/// Dividing a leaf and collapsing the ratio node that stands in its place
/// brings the leaf back under its id, showing what the collapse says, and
/// leaves no node behind: every other live node is as it was, and the live
/// handles are those from before the division.
pub proof fn lemma_divide_then_collapse(
    m: EvecView<Division>,
    leaf: Division,
    dir: DivDirection,
    selected: i32,
)
    requires
        m.wf(),
        leaf is Leaf,
        live(m.slots, leaf.spec_id()),
        node(m.slots, leaf.spec_id()) == leaf,
        dir.wf(),
        divided(m, leaf, dir).slots.len() <= usize::MAX,
    ensures
        ({
            let split = node(divided(m, leaf, dir).slots, leaf.spec_id());
            let back = collapsed(divided(m, leaf, dir), split, selected);
            &&& split is Ratio
            &&& is_subtree(divided(m, leaf, dir).slots, split)
            &&& back.slots[leaf.spec_id() as int] == Some(leaf.as_leaf(selected))
            &&& back.live_set() == m.live_set()
            &&& back.live_count() == m.live_count()
            &&& forall|i: int|
                0 <= i < m.slots.len() && m.slots[i] is Some && i != leaf.spec_id()
                    ==> back.slots[i] == m.slots[i]
        }),
{
    let id = leaf.spec_id();
    let sel = leaf.spec_selected().unwrap();
    let a = m.next_available() as usize;
    let leaf_a = Division::Leaf { parent: Some(id), id: a, selected: sel };
    let with_a = m.push(leaf_a);
    let b = with_a.next_available() as usize;
    let leaf_b = Division::Leaf { parent: Some(id), id: b, selected: sel };
    let with_b = with_a.push(leaf_b);
    let ratio = Division::Ratio { parent: leaf.spec_parent(), id, direction: dir, a, b };
    let mid = with_b.replace(id as int, ratio);
    m.lemma_push_gives_fresh_handle(leaf_a);
    with_a.lemma_push_gives_fresh_handle(leaf_b);
    assert(m.live_set().contains(id as int));
    assert(with_a.live_set().contains(a as int));
    assert(with_b.live_set().contains(b as int));
    assert(mid == divided(m, leaf, dir));
    let t = mid.slots;
    assert(subtree_wf(t, node(t, a), 0));
    assert(subtree_wf(t, node(t, b), 0));
    assert(subtree_wf(t, ratio, 1));
    lemma_subtree_height(t, ratio, 1);
    assert(descendants(t, node(t, a), 0) =~= Set::empty());
    assert(descendants(t, node(t, b), 0) =~= Set::empty());
    assert(descendants(t, ratio, 1) =~= set![a as int, b as int]);
    let back = collapsed(mid, ratio, selected);
    assert(back.live_set() =~= m.live_set());
}

/// What a change of a leaf's selection does to a tree: nothing but that.
proof fn lemma_select_subtree(
    s: Slots,
    leaf: Division,
    selected: i32,
    n: Division,
    rect: ViewRect,
    height: nat,
)
    requires
        subtree_wf(s, n, height),
        leaf is Leaf,
        live(s, leaf.spec_id()),
        node(s, leaf.spec_id()) == leaf,
    ensures
        ({
            let t = s.update(leaf.spec_id() as int, Some(leaf.as_leaf(selected)));
            let n2 = if n.spec_id() == leaf.spec_id() {
                leaf.as_leaf(selected)
            } else {
                n
            };
            &&& subtree_wf(t, n2, height)
            &&& descendants(t, n2, height) == descendants(s, n, height)
            &&& leaves(t, n2, rect, height) == leaves(s, n, rect, height)
        }),
    decreases height,
{
    let t = s.update(leaf.spec_id() as int, Some(leaf.as_leaf(selected)));
    match n {
        Division::Leaf { .. } => {},
        Division::Ratio { direction, a, b, .. } => {
            let h1 = (height - 1) as nat;
            let parts = direction.spec_divide(rect);
            lemma_select_subtree(s, leaf, selected, node(s, a), parts.0, h1);
            lemma_select_subtree(s, leaf, selected, node(s, b), parts.1, h1);
            assert(t[n.spec_id() as int] == s[n.spec_id() as int]);
        },
    }
}

/// Changing what a leaf shows leaves the layout tree a layout tree, with
/// the viewports it had.
pub proof fn lemma_select_keeps_tree(s: Slots, leaf: Division, selected: i32, rect: ViewRect)
    requires
        tree_wf(s),
        leaf is Leaf,
        live(s, leaf.spec_id()),
        node(s, leaf.spec_id()) == leaf,
    ensures
        ({
            let t = s.update(leaf.spec_id() as int, Some(leaf.as_leaf(selected)));
            &&& tree_wf(t)
            &&& viewports_of(t, node(t, 0), rect) == viewports_of(s, node(s, 0), rect)
        }),
{
    let t = s.update(leaf.spec_id() as int, Some(leaf.as_leaf(selected)));
    let height = choose|height: nat| rooted(s, height);
    lemma_select_subtree(s, leaf, selected, node(s, 0), rect, height);
    assert(rooted(t, height));
    lemma_subtree_taller(s, node(s, 0), height, height);
    lemma_subtree_taller(t, node(t, 0), height, height);
    lemma_viewports_of(s, node(s, 0), rect, height);
    lemma_viewports_of(t, node(t, 0), rect, height);
}

/// The list `viewports` after the leaf `id` has been divided: in place of
/// its viewport stand those of the new leaves `a` and `b`, which share its
/// rectangle as `dir` says.
pub open spec fn split_viewport(
    viewports: Seq<ViewPort>,
    id: usize,
    dir: DivDirection,
    a: usize,
    b: usize,
) -> Seq<ViewPort>
    decreases viewports.len(),
{
    if viewports.len() == 0 {
        Seq::empty()
    } else {
        let last = viewports.last();
        let parts = dir.spec_divide(last.rect);
        split_viewport(viewports.drop_last(), id, dir, a, b) + if last.div_id == id {
            seq![ViewPort { div_id: a, rect: parts.0 }, ViewPort { div_id: b, rect: parts.1 }]
        } else {
            seq![last]
        }
    }
}

/// Splitting a viewport in a list that is made of two lists is splitting
/// it in each.
pub proof fn lemma_split_viewport_add(
    first: Seq<ViewPort>,
    second: Seq<ViewPort>,
    id: usize,
    dir: DivDirection,
    a: usize,
    b: usize,
)
    ensures
        split_viewport(first + second, id, dir, a, b) == split_viewport(first, id, dir, a, b)
            + split_viewport(second, id, dir, a, b),
    decreases second.len(),
{
    if second.len() == 0 {
        assert(first + second =~= first);
        assert(split_viewport(second, id, dir, a, b) =~= Seq::<ViewPort>::empty());
        assert(split_viewport(first, id, dir, a, b) + Seq::<ViewPort>::empty() =~= split_viewport(
            first,
            id,
            dir,
            a,
            b,
        ));
    } else {
        assert((first + second).drop_last() =~= first + second.drop_last());
        assert((first + second).last() == second.last());
        lemma_split_viewport_add(first, second.drop_last(), id, dir, a, b);
        let last = second.last();
        let parts = dir.spec_divide(last.rect);
        let tail = if last.div_id == id {
            seq![ViewPort { div_id: a, rect: parts.0 }, ViewPort { div_id: b, rect: parts.1 }]
        } else {
            seq![last]
        };
        assert((split_viewport(first, id, dir, a, b) + split_viewport(
            second.drop_last(),
            id,
            dir,
            a,
            b,
        )) + tail =~= split_viewport(first, id, dir, a, b) + (split_viewport(
            second.drop_last(),
            id,
            dir,
            a,
            b,
        ) + tail));
    }
}

/// What a division does to the viewports of a walk.
proof fn lemma_divide_leaves(
    s: Slots,
    t: Slots,
    leaf: Division,
    ratio: Division,
    n: Division,
    rect: ViewRect,
    height: nat,
)
    requires
        subtree_wf(s, n, height),
        leaf is Leaf,
        live(s, leaf.spec_id()),
        node(s, leaf.spec_id()) == leaf,
        s.len() <= t.len(),
        t[leaf.spec_id() as int] == Some(ratio),
        forall|i: int| 0 <= i < s.len() && s[i] is Some && i != leaf.spec_id() ==> t[i] == s[i],
        ratio matches Division::Ratio { id, a, b, .. } && {
            &&& id == leaf.spec_id()
            &&& !live(s, a)
            &&& !live(s, b)
            &&& live(t, a)
            &&& live(t, b)
            &&& node(t, a) is Leaf
            &&& node(t, b) is Leaf
            &&& node(t, a).spec_id() == a
            &&& node(t, b).spec_id() == b
        },
    ensures
        ({
            let n2 = if n.spec_id() == leaf.spec_id() {
                ratio
            } else {
                n
            };
            leaves(t, n2, rect, height + 1) == split_viewport(
                leaves(s, n, rect, height),
                leaf.spec_id(),
                ratio->direction,
                ratio->a,
                ratio->b,
            )
        }),
    decreases height,
{
    let id = leaf.spec_id();
    let dir = ratio->direction;
    let new_a = ratio->a;
    let new_b = ratio->b;
    let before = leaves(s, n, rect, height);
    match n {
        Division::Leaf { .. } => {
            assert(before.drop_last() =~= Seq::<ViewPort>::empty());
            assert(split_viewport(before.drop_last(), id, dir, new_a, new_b) =~= Seq::<
                ViewPort,
            >::empty());
            if n.spec_id() == id {
                let parts = dir.spec_divide(rect);
                assert(leaves(t, node(t, new_a), parts.0, height) =~= seq![
                    ViewPort { div_id: new_a, rect: parts.0 },
                ]);
                assert(leaves(t, node(t, new_b), parts.1, height) =~= seq![
                    ViewPort { div_id: new_b, rect: parts.1 },
                ]);
                assert(leaves(t, ratio, rect, height + 1) =~= split_viewport(
                    before,
                    id,
                    dir,
                    new_a,
                    new_b,
                ));
            } else {
                assert(leaves(t, n, rect, height + 1) =~= split_viewport(
                    before,
                    id,
                    dir,
                    new_a,
                    new_b,
                ));
            }
        },
        Division::Ratio { direction, a, b, .. } => {
            let h1 = (height - 1) as nat;
            let parts = direction.spec_divide(rect);
            lemma_divide_leaves(s, t, leaf, ratio, node(s, a), parts.0, h1);
            lemma_divide_leaves(s, t, leaf, ratio, node(s, b), parts.1, h1);
            lemma_split_viewport_add(
                leaves(s, node(s, a), parts.0, h1),
                leaves(s, node(s, b), parts.1, h1),
                id,
                dir,
                new_a,
                new_b,
            );
            assert(t[n.spec_id() as int] == s[n.spec_id() as int]);
        },
    }
}

/// Dividing a leaf of the layout tree puts the viewports of the two new
/// leaves in the place of its viewport and leaves every other viewport as
/// it is.
pub proof fn lemma_divide_splits_viewport(
    m: EvecView<Division>,
    leaf: Division,
    dir: DivDirection,
    rect: ViewRect,
)
    requires
        m.wf(),
        tree_wf(m.slots),
        leaf is Leaf,
        live(m.slots, leaf.spec_id()),
        node(m.slots, leaf.spec_id()) == leaf,
        dir.wf(),
        divided(m, leaf, dir).slots.len() <= usize::MAX,
    ensures
        ({
            let after = divided(m, leaf, dir).slots;
            let split = node(after, leaf.spec_id());
            &&& split is Ratio
            &&& viewports_of(after, node(after, 0), rect) == split_viewport(
                viewports_of(m.slots, node(m.slots, 0), rect),
                leaf.spec_id(),
                dir,
                split->a,
                split->b,
            )
        }),
{
    lemma_divide_keeps_tree(m, leaf, dir);
    let s = m.slots;
    let t = divided(m, leaf, dir).slots;
    let ratio = node(t, leaf.spec_id());
    let height = choose|height: nat| rooted(s, height);
    lemma_divide_leaves(s, t, leaf, ratio, node(s, 0), rect, height);
    lemma_divide_subtree(s, t, leaf, ratio, node(s, 0), height);
    lemma_subtree_taller(s, node(s, 0), height, height);
    lemma_viewports_of(s, node(s, 0), rect, height);
    lemma_subtree_taller(t, node(t, 0), height + 1, height + 1);
    lemma_viewports_of(t, node(t, 0), rect, height + 1);
}

/// The list `viewports` after the `count` viewports from place `at` on
/// have been merged into one, which belongs to `id` and has the rectangle
/// `rect`.
pub open spec fn merged_viewports(
    viewports: Seq<ViewPort>,
    at: int,
    count: int,
    id: usize,
    rect: ViewRect,
) -> Seq<ViewPort> {
    viewports.take(at) + seq![ViewPort { div_id: id, rect }] + viewports.skip(at + count)
}

/// What a collapse does to the viewports of a walk: where the walk comes
/// through the collapsed node, which it then gives the rectangle that is
/// returned with the place of the node's first viewport, the viewports
/// below the node are merged into one.
proof fn lemma_collapse_leaves(
    s: Slots,
    t: Slots,
    split: Division,
    hk: nat,
    leaf: Division,
    n: Division,
    rect: ViewRect,
    height: nat,
) -> (found: (int, ViewRect))
    requires
        subtree_wf(s, split, hk),
        subtree_wf(s, n, height),
        !descendants(s, split, hk).contains(n.spec_id() as int),
        t.len() == s.len(),
        leaf is Leaf,
        leaf.spec_id() == split.spec_id(),
        leaf.spec_parent() == split.spec_parent(),
        forall|i: int|
            0 <= i < s.len() ==> #[trigger] t[i] == if i == split.spec_id() {
                Some(leaf)
            } else if descendants(s, split, hk).contains(i) {
                None
            } else {
                s[i]
            },
    ensures
        ({
            let n2 = if n.spec_id() == split.spec_id() {
                leaf
            } else {
                n
            };
            let before = leaves(s, n, rect, height);
            let below = leaves(s, split, found.1, hk);
            if n.spec_id() == split.spec_id() || descendants(s, n, height).contains(
                split.spec_id() as int,
            ) {
                &&& 0 <= found.0
                &&& found.0 + below.len() <= before.len()
                &&& before.subrange(found.0, found.0 + below.len()) == below
                &&& leaves(t, n2, rect, height) == merged_viewports(
                    before,
                    found.0,
                    below.len() as int,
                    split.spec_id(),
                    found.1,
                )
            } else {
                leaves(t, n2, rect, height) == before
            }
        }),
    decreases height,
{
    let id = split.spec_id();
    let before = leaves(s, n, rect, height);
    if n.spec_id() == id {
        lemma_subtree_taller(s, split, hk, hk);
        lemma_subtree_taller(s, n, height, height);
        lemma_leaves_height(s, split, rect, hk, height);
        assert(before.subrange(0, before.len() as int) =~= before);
        assert(leaves(t, leaf, rect, height) =~= merged_viewports(
            before,
            0,
            before.len() as int,
            id,
            rect,
        ));
        (0, rect)
    } else {
        match n {
            Division::Leaf { .. } => (0, rect),
            Division::Ratio { direction, a, b, .. } => {
                let h1 = (height - 1) as nat;
                let parts = direction.spec_divide(rect);
                let removed = descendants(s, split, hk);
                if removed.contains(a as int) {
                    lemma_descendant(s, split, hk, a);
                }
                if removed.contains(b as int) {
                    lemma_descendant(s, split, hk, b);
                }
                let in_a = lemma_collapse_leaves(s, t, split, hk, leaf, node(s, a), parts.0, h1);
                let in_b = lemma_collapse_leaves(s, t, split, hk, leaf, node(s, b), parts.1, h1);
                lemma_siblings_apart(s, n, height);
                lemma_root_not_below(s, split, hk);
                assert(t[n.spec_id() as int] == s[n.spec_id() as int]);
                let first = leaves(s, node(s, a), parts.0, h1);
                let second = leaves(s, node(s, b), parts.1, h1);
                let below_a = descendants(s, node(s, a), h1);
                let below_b = descendants(s, node(s, b), h1);
                if id == a || below_a.contains(id as int) {
                    if id == b || below_b.contains(id as int) {
                        if id != b {
                            if id != a {
                                assert(below_a.disjoint(below_b));
                            }
                        }
                    }
                    let below = leaves(s, split, in_a.1, hk);
                    let count = below.len() as int;
                    assert(before.subrange(in_a.0, in_a.0 + count) =~= first.subrange(
                        in_a.0,
                        in_a.0 + count,
                    ));
                    assert(merged_viewports(first, in_a.0, count, id, in_a.1) + second
                        =~= merged_viewports(before, in_a.0, count, id, in_a.1));
                    in_a
                } else if id == b || below_b.contains(id as int) {
                    let below = leaves(s, split, in_b.1, hk);
                    let count = below.len() as int;
                    let at = first.len() + in_b.0;
                    assert(before.subrange(at, at + count) =~= second.subrange(
                        in_b.0,
                        in_b.0 + count,
                    ));
                    assert(first + merged_viewports(second, in_b.0, count, id, in_b.1)
                        =~= merged_viewports(before, at, count, id, in_b.1));
                    (at, in_b.1)
                } else {
                    (0, rect)
                }
            },
        }
    }
}

/// Collapsing a ratio node of the layout tree merges the viewports below
/// it into one, which has the rectangle that the node had, and leaves every
/// other viewport as it is. The place of the first merged viewport and the
/// rectangle of the node are returned.
pub proof fn lemma_collapse_merges_viewports(
    m: EvecView<Division>,
    split: Division,
    selected: i32,
    rect: ViewRect,
) -> (found: (int, ViewRect))
    requires
        tree_wf(m.slots),
        split is Ratio,
        live(m.slots, split.spec_id()),
        node(m.slots, split.spec_id()) == split,
    ensures
        is_subtree(m.slots, split),
        ({
            let after = collapsed(m, split, selected).slots;
            let before = viewports_of(m.slots, node(m.slots, 0), rect);
            let below = viewports_of(m.slots, split, found.1);
            &&& 0 <= found.0
            &&& found.0 + below.len() <= before.len()
            &&& before.subrange(found.0, found.0 + below.len()) == below
            &&& viewports_of(after, node(after, 0), rect) == merged_viewports(
                before,
                found.0,
                below.len() as int,
                split.spec_id(),
                found.1,
            )
        }),
{
    let s = m.slots;
    let t = collapsed(m, split, selected).slots;
    let height = choose|height: nat| rooted(s, height);
    let root = node(s, 0);
    lemma_tree_node(s, split.spec_id());
    let hk = subtree_height(s, split);
    let removed = descendants(s, split, hk);
    if removed.contains(0) {
        lemma_descendant(s, split, hk, 0);
    }
    let leaf = split.as_leaf(selected);
    let found = lemma_collapse_leaves(s, t, split, hk, leaf, root, rect, height);
    lemma_collapse_subtree(s, t, split, hk, leaf, root, height);
    lemma_subtree_taller(s, root, height, height);
    lemma_subtree_taller(t, node(t, 0), height, height);
    lemma_subtree_taller(s, split, hk, hk);
    lemma_viewports_of(s, root, rect, height);
    lemma_viewports_of(t, node(t, 0), rect, height);
    lemma_viewports_of(s, split, found.1, hk);
    found
}

} // verus!
