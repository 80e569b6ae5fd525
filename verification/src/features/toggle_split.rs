//! Flipping the axis of the split that directly holds the focused pane.

use crate::features::move_window::is_leaf;
use crate::text::same_text;
use crate::tree::{panes, Layout, LayoutView, Node, SplitDirection, Tree};
use vstd::prelude::*;

verus! {

/// `tree` with the axis of the first split (in preorder) that has leaf `id`
/// as a direct child flipped, and whether such a split exists.
pub open spec fn toggled(tree: Tree, id: Seq<char>) -> (Tree, bool)
    decreases tree,
{
    match tree {
        Tree::Pane { .. } => (tree, false),
        Tree::Split { direction, ratio, first, second } => {
            if is_leaf(*first, id) || is_leaf(*second, id) {
                (Tree::Split { direction: direction.spec_flipped(), ratio, first, second }, true)
            } else {
                let (f, changed) = toggled(*first, id);
                if changed {
                    (Tree::Split { direction, ratio, first: Box::new(f), second }, true)
                } else {
                    let (s, changed_second) = toggled(*second, id);
                    (Tree::Split { direction, ratio, first, second: Box::new(s) }, changed_second)
                }
            }
        },
    }
}

/// Flips the direct parent split of pane `pane_id`, in place.
///
/// Returns whether a split was flipped; a lone pane has no parent.
pub fn toggle_parent(node: &mut Node, pane_id: &str) -> (changed: bool)
    ensures
        final(node)@ == toggled(old(node)@, pane_id@).0,
        changed == toggled(old(node)@, pane_id@).1,
{
    let (toggled_node, changed) = toggled_copy(node, pane_id);
    *node = toggled_node;
    changed
}

fn toggled_copy(node: &Node, pane_id: &str) -> (result: (Node, bool))
    ensures
        result.0@ == toggled(node@, pane_id@).0,
        result.1 == toggled(node@, pane_id@).1,
    decreases node,
{
    match node {
        Node::Pane { .. } => (node.copy(), false),
        Node::Split { direction, ratio, first, second } => {
            let first_is_target = match &**first {
                Node::Pane { id } => same_text(id.as_str(), pane_id),
                Node::Split { .. } => false,
            };
            let second_is_target = match &**second {
                Node::Pane { id } => same_text(id.as_str(), pane_id),
                Node::Split { .. } => false,
            };
            proof {
                assert(first_is_target == is_leaf((**first)@, pane_id@));
                assert(second_is_target == is_leaf((**second)@, pane_id@));
                assert(node@->first == Box::new((**first)@));
                assert(node@->second == Box::new((**second)@));
            }
            if first_is_target || second_is_target {
                (
                    Node::Split {
                        direction: direction.flipped(),
                        ratio: *ratio,
                        first: Box::new((**first).copy()),
                        second: Box::new((**second).copy()),
                    },
                    true,
                )
            } else {
                let (f, changed) = toggled_copy(&**first, pane_id);
                if changed {
                    (
                        Node::Split {
                            direction: *direction,
                            ratio: *ratio,
                            first: Box::new(f),
                            second: Box::new((**second).copy()),
                        },
                        true,
                    )
                } else {
                    let (s, changed_second) = toggled_copy(&**second, pane_id);
                    (
                        Node::Split {
                            direction: *direction,
                            ratio: *ratio,
                            first: Box::new((**first).copy()),
                            second: Box::new(s),
                        },
                        changed_second,
                    )
                }
            }
        },
    }
}

/// The tree with every split's axis erased: what toggling leaves untouched.
pub open spec fn same_shape(a: Tree, b: Tree) -> bool
    decreases a,
{
    match (a, b) {
        (Tree::Pane { id: x }, Tree::Pane { id: y }) => x == y,
        (
            Tree::Split { ratio: r1, first: f1, second: s1, .. },
            Tree::Split { ratio: r2, first: f2, second: s2, .. },
        ) => r1 == r2 && same_shape(*f1, *f2) && same_shape(*s1, *s2),
        _ => false,
    }
}

/// Toggling is its own inverse: toggling the same pane twice restores the
/// tree, and both calls report the same outcome. A toggle changes only one
/// axis, so pane order, ratios and children stay as they were, and it
/// changes something exactly when the pane has a parent split.
pub proof fn lemma_toggle_twice_restores(tree: Tree, id: Seq<char>)
    ensures
        toggled(toggled(tree, id).0, id).0 == tree,
        toggled(toggled(tree, id).0, id).1 == toggled(tree, id).1,
        same_shape(toggled(tree, id).0, tree),
        panes(toggled(tree, id).0) == panes(tree),
        toggled(tree, id).1 == (tree is Split && panes(tree).contains(id)),
    decreases tree,
{
    lemma_same_shape_reflexive(tree);
    match tree {
        Tree::Pane { .. } => {},
        Tree::Split { direction, ratio, first, second } => {
            lemma_toggle_twice_restores(*first, id);
            lemma_toggle_twice_restores(*second, id);
            lemma_split_contains_leaf(tree, id);
            let once = toggled(tree, id).0;
            if is_leaf(*first, id) || is_leaf(*second, id) {
                assert(once->first == first && once->second == second);
                assert(direction.spec_flipped().spec_flipped() == direction);
            }
        },
    }
}

proof fn lemma_same_shape_reflexive(tree: Tree)
    ensures
        same_shape(tree, tree),
    decreases tree,
{
    if let Tree::Split { first, second, .. } = tree {
        lemma_same_shape_reflexive(*first);
        lemma_same_shape_reflexive(*second);
    }
}

proof fn lemma_split_contains_leaf(tree: Tree, id: Seq<char>)
    requires
        tree is Split,
    ensures
        panes(tree).contains(id) <==> (panes(*tree->first).contains(id) || panes(
            *tree->second,
        ).contains(id)),
        is_leaf(*tree->first, id) ==> panes(*tree->first).contains(id),
        is_leaf(*tree->second, id) ==> panes(*tree->second).contains(id),
        (*tree->first is Pane && !is_leaf(*tree->first, id)) ==> !panes(*tree->first).contains(id),
        (*tree->second is Pane && !is_leaf(*tree->second, id)) ==> !panes(
            *tree->second,
        ).contains(id),
{
    let a = panes(*tree->first);
    let b = panes(*tree->second);
    assert(panes(tree) == a + b);
    if panes(tree).contains(id) {
        let i = choose|i: int| 0 <= i < (a + b).len() && (a + b)[i] == id;
        if i < a.len() {
            assert(a[i] == id);
        } else {
            assert(b[i - a.len()] == id);
        }
    }
    if a.contains(id) {
        let i = choose|i: int| 0 <= i < a.len() && a[i] == id;
        assert((a + b)[i] == id);
    }
    if b.contains(id) {
        let i = choose|i: int| 0 <= i < b.len() && b[i] == id;
        assert((a + b)[a.len() + i] == id);
    }
    if is_leaf(*tree->first, id) {
        assert(a[0] == id);
    }
    if is_leaf(*tree->second, id) {
        assert(b[0] == id);
    }
    if *tree->first is Pane && a.contains(id) {
        let i = choose|i: int| 0 <= i < a.len() && a[i] == id;
        assert(a.len() == 1);
    }
    if *tree->second is Pane && b.contains(id) {
        let i = choose|i: int| 0 <= i < b.len() && b[i] == id;
        assert(b.len() == 1);
    }
}

} // verus!

verus! {

/// Decides `toggle-split` for the exported tab `original`: the layout with
/// the focused pane's parent split flipped, or `None` when the pane has no
/// parent split.
pub fn toggled_layout(original: &Layout, pane_id: &str) -> (desired: Option<Layout>)
    ensures
        match desired {
            Some(layout) => toggled(original@.root, pane_id@).1 && layout@ == (LayoutView {
                root: toggled(original@.root, pane_id@).0,
                ..original@
            }),
            None => !toggled(original@.root, pane_id@).1,
        },
{
    let mut desired = original.copy();
    if toggle_parent(&mut desired.root, pane_id) {
        Some(desired)
    } else {
        None
    }
}

} // verus!

verus! {

/// `tree` with the axis flipped of every split that has leaf `id` as a
/// direct child, and nothing else changed.
pub open spec fn flipped_parents(tree: Tree, id: Seq<char>) -> Tree
    decreases tree,
{
    match tree {
        Tree::Pane { .. } => tree,
        Tree::Split { direction, ratio, first, second } => Tree::Split {
            direction: if is_leaf(*first, id) || is_leaf(*second, id) {
                direction.spec_flipped()
            } else {
                direction
            },
            ratio,
            first: Box::new(flipped_parents(*first, id)),
            second: Box::new(flipped_parents(*second, id)),
        },
    }
}

proof fn lemma_flip_absent(tree: Tree, id: Seq<char>)
    requires
        !panes(tree).contains(id),
    ensures
        flipped_parents(tree, id) == tree,
    decreases tree,
{
    if let Tree::Split { first, second, .. } = tree {
        lemma_split_contains_leaf(tree, id);
        lemma_flip_absent(*first, id);
        lemma_flip_absent(*second, id);
    }
}

proof fn lemma_parts_distinct(a: Seq<Seq<char>>, b: Seq<Seq<char>>, x: Seq<char>)
    requires
        (a + b).no_duplicates(),
    ensures
        a.no_duplicates(),
        b.no_duplicates(),
        a.contains(x) ==> !b.contains(x),
{
    assert forall|i: int, j: int| 0 <= i < a.len() && 0 <= j < a.len() && i != j implies a[i]
        != a[j] by {
        assert((a + b)[i] == a[i] && (a + b)[j] == a[j]);
    }
    assert forall|i: int, j: int| 0 <= i < b.len() && 0 <= j < b.len() && i != j implies b[i]
        != b[j] by {
        assert((a + b)[a.len() + i] == b[i] && (a + b)[a.len() + j] == b[j]);
    }
    if a.contains(x) && b.contains(x) {
        let i = choose|i: int| 0 <= i < a.len() && a[i] == x;
        let j = choose|j: int| 0 <= j < b.len() && b[j] == x;
        assert((a + b)[i] == (a + b)[a.len() + j]);
    }
}

/// What a toggle does, when pane IDs are distinct: it flips the axis of the
/// split that holds pane `id` as a direct child and changes nothing else;
/// with no such split it changes nothing.
pub proof fn lemma_toggle_flips_only_the_parent(tree: Tree, id: Seq<char>)
    requires
        panes(tree).no_duplicates(),
    ensures
        toggled(tree, id).0 == flipped_parents(tree, id),
    decreases tree,
{
    if let Tree::Split { direction, ratio, first, second } = tree {
        let a = panes(*first);
        let b = panes(*second);
        lemma_parts_distinct(a, b, id);
        lemma_split_contains_leaf(tree, id);
        lemma_toggle_flips_only_the_parent(*first, id);
        lemma_toggle_flips_only_the_parent(*second, id);
        lemma_toggle_twice_restores(*first, id);
        if is_leaf(*first, id) {
            lemma_flip_absent(*second, id);
            assert(flipped_parents(*first, id) == *first);
        } else if is_leaf(*second, id) {
            lemma_parts_distinct(a, b, id);
            if a.contains(id) {
                assert(!b.contains(id));
            }
            lemma_flip_absent(*first, id);
            assert(flipped_parents(*second, id) == *second);
        } else if toggled(*first, id).1 {
            lemma_flip_absent(*second, id);
        } else {
            if a.contains(id) {
                assert(*first is Pane);
            }
            lemma_flip_absent(*first, id);
        }
    }
}

} // verus!
