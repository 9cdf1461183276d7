//! The viewports of a walk through the layout tree: they partition the
//! rectangle that the walk starts with, and they belong to the leaves of
//! the tree, one to each.

use crate::state::viewports::{Division, ViewPort, ViewRect};
use crate::state::tree::{
    Slots, can_walk, descendants, leaves, lemma_siblings_apart, lemma_subtree_taller,
    lemma_viewports_of, live, node, rooted, subtree_wf, tree_wf, viewports_of, walk_height,
    walkable,
};
use vstd::prelude::*;

verus! {

/// The sum of the areas of the rectangles of `viewports`.
pub open spec fn total_area(viewports: Seq<ViewPort>) -> int
    decreases viewports.len(),
{
    if viewports.len() == 0 {
        0
    } else {
        total_area(viewports.drop_last()) + viewports.last().rect.area()
    }
}

/// The area of two lists of viewports, one after the other, is the sum of
/// their areas.
pub proof fn lemma_total_area_add(first: Seq<ViewPort>, second: Seq<ViewPort>)
    ensures
        total_area(first + second) == total_area(first) + total_area(second),
    decreases second.len(),
{
    if second.len() == 0 {
        assert(first + second =~= first);
    } else {
        assert((first + second).drop_last() =~= first + second.drop_last());
        lemma_total_area_add(first, second.drop_last());
    }
}

/// However a rectangle is split up by a walk, the pieces have together
/// the area of the rectangle.
pub proof fn lemma_leaves_keep_area(s: Slots, n: Division, rect: ViewRect, height: nat)
    requires
        walkable(s, n, height),
    ensures
        total_area(leaves(s, n, rect, height)) == rect.area(),
    decreases height,
{
    match n {
        Division::Leaf { id, .. } => {
            let only = seq![ViewPort { div_id: id, rect }];
            assert(only.drop_last() =~= Seq::<ViewPort>::empty());
            assert(total_area(only.drop_last()) == 0);
        },
        Division::Ratio { direction, a, b, .. } => {
            let h1 = (height - 1) as nat;
            let parts = direction.spec_divide(rect);
            lemma_leaves_keep_area(s, node(s, a), parts.0, h1);
            lemma_leaves_keep_area(s, node(s, b), parts.1, h1);
            lemma_total_area_add(
                leaves(s, node(s, a), parts.0, h1),
                leaves(s, node(s, b), parts.1, h1),
            );
            direction.lemma_divide_keeps_area(rect);
        },
    }
}

/// Every piece that a walk cuts out of a rectangle lies within it.
pub proof fn lemma_leaves_inside(
    s: Slots,
    n: Division,
    rect: ViewRect,
    height: nat,
    i: int,
    x: int,
    y: int,
)
    requires
        walkable(s, n, height),
        0 <= i < leaves(s, n, rect, height).len(),
        leaves(s, n, rect, height)[i].rect.spec_contains(x, y),
    ensures
        rect.spec_contains(x, y),
    decreases height,
{
    match n {
        Division::Leaf { .. } => {},
        Division::Ratio { direction, a, b, .. } => {
            let h1 = (height - 1) as nat;
            let parts = direction.spec_divide(rect);
            let first = leaves(s, node(s, a), parts.0, h1);
            direction.lemma_divide_parts_inside(rect, x, y);
            if i < first.len() {
                lemma_leaves_inside(s, node(s, a), parts.0, h1, i, x, y);
            } else {
                lemma_leaves_inside(s, node(s, b), parts.1, h1, i - first.len(), x, y);
            }
        },
    }
}

/// No two pieces that a walk cuts out of a rectangle overlap: no point is
/// inside both.
pub proof fn lemma_leaves_disjoint(
    s: Slots,
    n: Division,
    rect: ViewRect,
    height: nat,
    i: int,
    j: int,
    x: int,
    y: int,
)
    requires
        walkable(s, n, height),
        0 <= i < j < leaves(s, n, rect, height).len(),
    ensures
        !(leaves(s, n, rect, height)[i].rect.spec_contains(x, y) && leaves(
            s,
            n,
            rect,
            height,
        )[j].rect.spec_contains(x, y)),
    decreases height,
{
    match n {
        Division::Leaf { .. } => {},
        Division::Ratio { direction, a, b, .. } => {
            let h1 = (height - 1) as nat;
            let parts = direction.spec_divide(rect);
            let first = leaves(s, node(s, a), parts.0, h1);
            let second = leaves(s, node(s, b), parts.1, h1);
            if j < first.len() {
                lemma_leaves_disjoint(s, node(s, a), parts.0, h1, i, j, x, y);
            } else if i >= first.len() {
                lemma_leaves_disjoint(
                    s,
                    node(s, b),
                    parts.1,
                    h1,
                    i - first.len(),
                    j - first.len(),
                    x,
                    y,
                );
            } else {
                if first[i].rect.spec_contains(x, y) && second[j - first.len()].rect.spec_contains(
                    x,
                    y,
                ) {
                    lemma_leaves_inside(s, node(s, a), parts.0, h1, i, x, y);
                    lemma_leaves_inside(s, node(s, b), parts.1, h1, j - first.len(), x, y);
                    direction.lemma_divide_parts_disjoint(rect, x, y);
                }
            }
        },
    }
}

/// The viewports of a layout partition its rectangle: their areas add up
/// to its area, each lies within it, and no two of them overlap.
pub proof fn lemma_viewports_partition(s: Slots, n: Division, rect: ViewRect)
    requires
        can_walk(s, n),
    ensures
        total_area(viewports_of(s, n, rect)) == rect.area(),
        forall|i: int, x: int, y: int|
            0 <= i < viewports_of(s, n, rect).len() && #[trigger] viewports_of(
                s,
                n,
                rect,
            )[i].rect.spec_contains(x, y) ==> rect.spec_contains(x, y),
        forall|i: int, j: int, x: int, y: int|
            0 <= i < j < viewports_of(s, n, rect).len() ==> !(#[trigger] viewports_of(
                s,
                n,
                rect,
            )[i].rect.spec_contains(x, y) && #[trigger] viewports_of(s, n, rect)[j].rect.spec_contains(
                x,
                y,
            )),
{
    let height = walk_height(s, n);
    lemma_leaves_keep_area(s, n, rect, height);
    assert forall|i: int, x: int, y: int|
        0 <= i < viewports_of(s, n, rect).len() && #[trigger] viewports_of(
            s,
            n,
            rect,
        )[i].rect.spec_contains(x, y) implies rect.spec_contains(x, y) by {
        lemma_leaves_inside(s, n, rect, height, i, x, y);
    }
    assert forall|i: int, j: int, x: int, y: int|
        0 <= i < j < viewports_of(s, n, rect).len() implies !(#[trigger] viewports_of(
            s,
            n,
            rect,
        )[i].rect.spec_contains(x, y) && #[trigger] viewports_of(s, n, rect)[j].rect.spec_contains(
            x,
            y,
        )) by {
        lemma_leaves_disjoint(s, n, rect, height, i, j, x, y);
    }
}

/// Every viewport of a walk through a tree belongs to a leaf of the tree:
/// a live leaf node in the slot that the viewport names, the root or a node
/// below it.
pub proof fn lemma_leaves_are_leaf_nodes(
    s: Slots,
    n: Division,
    rect: ViewRect,
    height: nat,
    i: int,
)
    requires
        subtree_wf(s, n, height),
        0 <= i < leaves(s, n, rect, height).len(),
    ensures
        ({
            let id = leaves(s, n, rect, height)[i].div_id;
            &&& live(s, id)
            &&& node(s, id) is Leaf
            &&& node(s, id).spec_id() == id
            &&& id == n.spec_id() || descendants(s, n, height).contains(id as int)
        }),
    decreases height,
{
    match n {
        Division::Leaf { .. } => {},
        Division::Ratio { direction, a, b, .. } => {
            let h1 = (height - 1) as nat;
            let parts = direction.spec_divide(rect);
            let first = leaves(s, node(s, a), parts.0, h1);
            if i < first.len() {
                lemma_leaves_are_leaf_nodes(s, node(s, a), parts.0, h1, i);
            } else {
                lemma_leaves_are_leaf_nodes(s, node(s, b), parts.1, h1, i - first.len());
            }
        },
    }
}

/// Every leaf of a tree has a viewport in a walk through the tree.
pub proof fn lemma_leaf_has_viewport(
    s: Slots,
    n: Division,
    rect: ViewRect,
    height: nat,
    id: usize,
) -> (i: int)
    requires
        subtree_wf(s, n, height),
        id == n.spec_id() || descendants(s, n, height).contains(id as int),
        live(s, id),
        node(s, id) is Leaf,
    ensures
        0 <= i < leaves(s, n, rect, height).len(),
        leaves(s, n, rect, height)[i].div_id == id,
    decreases height,
{
    match n {
        Division::Leaf { .. } => 0,
        Division::Ratio { direction, a, b, .. } => {
            let h1 = (height - 1) as nat;
            let parts = direction.spec_divide(rect);
            let first = leaves(s, node(s, a), parts.0, h1);
            if id == a || descendants(s, node(s, a), h1).contains(id as int) {
                lemma_leaf_has_viewport(s, node(s, a), parts.0, h1, id)
            } else {
                first.len() + lemma_leaf_has_viewport(s, node(s, b), parts.1, h1, id)
            }
        },
    }
}

/// No leaf of a tree has two viewports in a walk through the tree.
pub proof fn lemma_leaves_distinct(
    s: Slots,
    n: Division,
    rect: ViewRect,
    height: nat,
    i: int,
    j: int,
)
    requires
        subtree_wf(s, n, height),
        0 <= i < j < leaves(s, n, rect, height).len(),
    ensures
        leaves(s, n, rect, height)[i].div_id != leaves(s, n, rect, height)[j].div_id,
    decreases height,
{
    match n {
        Division::Leaf { .. } => {},
        Division::Ratio { direction, a, b, .. } => {
            let h1 = (height - 1) as nat;
            let parts = direction.spec_divide(rect);
            let first = leaves(s, node(s, a), parts.0, h1);
            if j < first.len() {
                lemma_leaves_distinct(s, node(s, a), parts.0, h1, i, j);
            } else if i >= first.len() {
                lemma_leaves_distinct(
                    s,
                    node(s, b),
                    parts.1,
                    h1,
                    i - first.len(),
                    j - first.len(),
                );
            } else {
                lemma_leaves_are_leaf_nodes(s, node(s, a), parts.0, h1, i);
                lemma_leaves_are_leaf_nodes(s, node(s, b), parts.1, h1, j - first.len());
                lemma_siblings_apart(s, n, height);
            }
        },
    }
}

/// The ids of the leaves that `viewports` belong to.
pub open spec fn leaf_ids(viewports: Seq<ViewPort>) -> Set<usize> {
    Set::new(|id: usize| exists|i: int| 0 <= i < viewports.len() && viewports[i].div_id == id)
}

/// The viewports of the layout tree belong to its leaves, one to each:
/// a slot has a viewport exactly if it holds a live leaf.
pub proof fn lemma_tree_viewports(s: Slots, rect: ViewRect)
    requires
        tree_wf(s),
    ensures
        forall|id: usize|
            leaf_ids(viewports_of(s, node(s, 0), rect)).contains(id) <==> live(s, id) && node(
                s,
                id,
            ) is Leaf,
        forall|i: int, j: int|
            0 <= i < j < viewports_of(s, node(s, 0), rect).len() ==> viewports_of(
                s,
                node(s, 0),
                rect,
            )[i].div_id != viewports_of(s, node(s, 0), rect)[j].div_id,
        node(s, 0) is Leaf ==> viewports_of(s, node(s, 0), rect) == seq![
            ViewPort { div_id: 0, rect },
        ],
        node(s, 0) is Ratio ==> viewports_of(s, node(s, 0), rect).len() >= 2,
{
    let height = choose|height: nat| rooted(s, height);
    let root = node(s, 0);
    lemma_subtree_taller(s, root, height, height);
    lemma_viewports_of(s, root, rect, height);
    let views = leaves(s, root, rect, height);
    assert forall|id: usize| leaf_ids(views).contains(id) <==> live(s, id) && node(
        s,
        id,
    ) is Leaf by {
        if leaf_ids(views).contains(id) {
            let i = choose|i: int| 0 <= i < views.len() && views[i].div_id == id;
            lemma_leaves_are_leaf_nodes(s, root, rect, height, i);
        }
        if live(s, id) && node(s, id) is Leaf {
            let i = lemma_leaf_has_viewport(s, root, rect, height, id);
        }
    }
    assert forall|i: int, j: int| 0 <= i < j < views.len() implies views[i].div_id
        != views[j].div_id by {
        lemma_leaves_distinct(s, root, rect, height, i, j);
    }
    match root {
        Division::Leaf { .. } => {},
        Division::Ratio { direction, a, b, .. } => {
            let h1 = (height - 1) as nat;
            let parts = direction.spec_divide(rect);
            lemma_leaves_nonempty(s, node(s, a), parts.0, h1);
            lemma_leaves_nonempty(s, node(s, b), parts.1, h1);
        },
    }
}

/// A walk yields at least one viewport.
pub proof fn lemma_leaves_nonempty(s: Slots, n: Division, rect: ViewRect, height: nat)
    requires
        walkable(s, n, height),
    ensures
        leaves(s, n, rect, height).len() >= 1,
    decreases height,
{
    match n {
        Division::Leaf { .. } => {},
        Division::Ratio { direction, a, b, .. } => {
            let parts = direction.spec_divide(rect);
            lemma_leaves_nonempty(s, node(s, a), parts.0, (height - 1) as nat);
        },
    }
}

/// Which leaves a walk finds does not depend on the rectangle it is given.
pub proof fn lemma_leaf_ids_any_rect(
    s: Slots,
    n: Division,
    first: ViewRect,
    second: ViewRect,
    height: nat,
)
    requires
        walkable(s, n, height),
    ensures
        leaves(s, n, first, height).len() == leaves(s, n, second, height).len(),
        forall|i: int|
            0 <= i < leaves(s, n, first, height).len() ==> leaves(s, n, first, height)[i].div_id
                == leaves(s, n, second, height)[i].div_id,
        leaf_ids(leaves(s, n, first, height)) == leaf_ids(leaves(s, n, second, height)),
    decreases height,
{
    let one = leaves(s, n, first, height);
    let two = leaves(s, n, second, height);
    match n {
        Division::Leaf { .. } => {},
        Division::Ratio { direction, a, b, .. } => {
            let h1 = (height - 1) as nat;
            let p = direction.spec_divide(first);
            let q = direction.spec_divide(second);
            lemma_leaf_ids_any_rect(s, node(s, a), p.0, q.0, h1);
            lemma_leaf_ids_any_rect(s, node(s, b), p.1, q.1, h1);
        },
    }
    assert forall|id: usize| leaf_ids(one).contains(id) == leaf_ids(two).contains(id) by {
        if leaf_ids(one).contains(id) {
            let i = choose|i: int| 0 <= i < one.len() && one[i].div_id == id;
            assert(two[i].div_id == id);
        }
        if leaf_ids(two).contains(id) {
            let i = choose|i: int| 0 <= i < two.len() && two[i].div_id == id;
            assert(one[i].div_id == id);
        }
    }
    assert(leaf_ids(one) =~= leaf_ids(two));
}

/// One more viewport has these leaves: those of before, and its own.
pub proof fn lemma_leaf_ids_take(viewports: Seq<ViewPort>, i: int)
    requires
        0 <= i < viewports.len(),
    ensures
        forall|k: usize|
            leaf_ids(viewports.take(i + 1)).contains(k) == (k == viewports[i].div_id || leaf_ids(
                viewports.take(i),
            ).contains(k)),
{
    let before = viewports.take(i);
    let now = viewports.take(i + 1);
    assert(now[i].div_id == viewports[i].div_id);
    assert forall|k: usize| leaf_ids(now).contains(k) == (k == viewports[i].div_id || leaf_ids(
        before,
    ).contains(k)) by {
        if leaf_ids(before).contains(k) {
            let j = choose|j: int| 0 <= j < before.len() && before[j].div_id == k;
            assert(now[j].div_id == k);
        }
        if leaf_ids(now).contains(k) && k != viewports[i].div_id {
            let j = choose|j: int| 0 <= j < now.len() && now[j].div_id == k;
            assert(before[j].div_id == k);
        }
    }
}

} // verus!
