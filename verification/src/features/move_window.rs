//! Moving the focused pane to its nearest neighbor in a direction, as
//! Hyprland's dwindle layout does with `preserve_split`.
//!
//! Geometry is exact: focal points lie on half cells, so coordinates are kept
//! doubled and distances squared, which orders candidates exactly as the
//! real-valued distances do.

use crate::text::{debug_quoted, join3, quoted, same_text};
use crate::tree::{
    lemma_rects_follow_panes, panes, same_layout, tree_rects, Direction, Layout, LayoutView, Node,
    Ratio, Rect, SplitDirection, Tree,
};
use vstd::multiset::Multiset;
use vstd::prelude::*;

verus! {

/// Whether moving along `movement` out of the first child of a split along
/// `axis` crosses into its sibling.
pub open spec fn moves_forward(axis: SplitDirection, movement: Direction) -> bool {
    (axis == SplitDirection::Right && movement == Direction::Right) || (axis
        == SplitDirection::Down && movement == Direction::Down)
}

/// Whether moving along `movement` out of the second child of a split along
/// `axis` crosses into its sibling.
pub open spec fn moves_backward(axis: SplitDirection, movement: Direction) -> bool {
    (axis == SplitDirection::Right && movement == Direction::Left) || (axis
        == SplitDirection::Down && movement == Direction::Up)
}

/// Whether `tree` is the leaf `id`.
pub open spec fn is_leaf(tree: Tree, id: Seq<char>) -> bool {
    tree matches Tree::Pane { id: leaf } && leaf == id
}

/// `tree` without the first leaf `id` in layout order: the leaf's parent
/// collapses into its sibling. The flag says whether the pane moved across a
/// direct leaf sibling, which forces the insertion direction. `None` when the
/// leaf is absent or is the whole tree.
pub open spec fn removed(tree: Tree, id: Seq<char>, movement: Direction) -> Option<(Tree, bool)>
    decreases tree,
{
    match tree {
        Tree::Pane { .. } => None,
        Tree::Split { direction, ratio, first, second } => {
            if is_leaf(*first, id) {
                Some((*second, (*second is Pane) && moves_forward(direction, movement)))
            } else if is_leaf(*second, id) {
                Some((*first, (*first is Pane) && moves_backward(direction, movement)))
            } else {
                match removed(*first, id, movement) {
                    Some((rest, forced)) => Some(
                        (
                            Tree::Split { direction, ratio, first: Box::new(rest), second },
                            forced,
                        ),
                    ),
                    None => match removed(*second, id, movement) {
                        Some((rest, forced)) => Some(
                            (
                                Tree::Split { direction, ratio, first, second: Box::new(rest) },
                                forced,
                            ),
                        ),
                        None => None,
                    },
                }
            }
        },
    }
}

/// The leaf pair that replaces the target: `moved` beside `target` along
/// `direction`, with an even split.
pub open spec fn beside(target: Seq<char>, moved: Seq<char>, direction: Direction) -> Tree {
    let t = Box::new(Tree::Pane { id: target });
    let m = Box::new(Tree::Pane { id: moved });
    match direction {
        Direction::Left => Tree::Split {
            direction: SplitDirection::Right,
            ratio: 0x3F00_0000,
            first: m,
            second: t,
        },
        Direction::Right => Tree::Split {
            direction: SplitDirection::Right,
            ratio: 0x3F00_0000,
            first: t,
            second: m,
        },
        Direction::Up => Tree::Split {
            direction: SplitDirection::Down,
            ratio: 0x3F00_0000,
            first: m,
            second: t,
        },
        Direction::Down => Tree::Split {
            direction: SplitDirection::Down,
            ratio: 0x3F00_0000,
            first: t,
            second: m,
        },
    }
}

/// `tree` with the first leaf `target` replaced by [`beside`], and whether
/// the target was found.
pub open spec fn inserted(tree: Tree, target: Seq<char>, moved: Seq<char>, direction: Direction) -> (
    Tree,
    bool,
)
    decreases tree,
{
    match tree {
        Tree::Pane { id } => if id == target {
            (beside(target, moved, direction), true)
        } else {
            (tree, false)
        },
        Tree::Split { direction: axis, ratio, first, second } => {
            let (f, found) = inserted(*first, target, moved, direction);
            if found {
                (Tree::Split { direction: axis, ratio, first: Box::new(f), second }, true)
            } else {
                let (s, found_second) = inserted(*second, target, moved, direction);
                (Tree::Split { direction: axis, ratio, first, second: Box::new(s) }, found_second)
            }
        },
    }
}

/// Twice the coordinates of the point one cell past the edge of `rect` that
/// faces `direction`, centered along that edge.
pub open spec fn focal_point(rect: Rect, direction: Direction) -> (int, int) {
    let x = 2 * rect.x;
    let y = 2 * rect.y;
    match direction {
        Direction::Left => (x - 2, y + rect.height),
        Direction::Right => (x + 2 * rect.width + 2, y + rect.height),
        Direction::Up => (x + rect.width, y - 2),
        Direction::Down => (x + rect.width, y + 2 * rect.height + 2),
    }
}

/// `value` clamped into `low..=high`.
pub open spec fn clamp(value: int, low: int, high: int) -> int {
    if value < low {
        low
    } else if value > high {
        high
    } else {
        value
    }
}

/// Four times the squared distance from the (doubled) `focal` point to `rect`.
pub open spec fn distance(rect: Rect, focal: (int, int)) -> int {
    let left = 2 * rect.x;
    let top = 2 * rect.y;
    let dx = focal.0 - clamp(focal.0, left, left + 2 * rect.width);
    let dy = focal.1 - clamp(focal.1, top, top + 2 * rect.height);
    dx * dx + dy * dy
}

/// Whether a rectangle covers at least one cell.
pub open spec fn nonempty(rect: Rect) -> bool {
    rect.width > 0 && rect.height > 0
}

/// Among the first `n` rectangles, the index of the nonempty one nearest to
/// `focal`, the earliest on a tie.
pub open spec fn nearest(rects: Seq<(Seq<char>, Rect)>, focal: (int, int), n: nat) -> Option<int>
    decreases n,
{
    if n == 0 {
        None
    } else {
        let best = nearest(rects, focal, (n - 1) as nat);
        let i = n - 1;
        if nonempty(rects[i].1) && (best is None || distance(rects[i].1, focal) < distance(
            rects[best->0].1,
            focal,
        )) {
            Some(i)
        } else {
            best
        }
    }
}

/// The side of the target on which the moved pane lands: the movement
/// itself when forced, otherwise the side of the target's longer axis that
/// the focal point falls on.
pub open spec fn insertion_side(
    forced: bool,
    movement: Direction,
    focal: (int, int),
    target: Rect,
) -> Direction {
    if forced {
        movement
    } else if target.width > target.height {
        if focal.0 < 2 * target.x + target.width {
            Direction::Left
        } else {
            Direction::Right
        }
    } else if focal.1 < 2 * target.y + target.height {
        Direction::Up
    } else {
        Direction::Down
    }
}

/// The index of the first rectangle of pane `id`, if any.
pub open spec fn position(rects: Seq<(Seq<char>, Rect)>, id: Seq<char>, n: nat) -> Option<int>
    decreases n,
{
    if n == 0 {
        None
    } else {
        match position(rects, id, (n - 1) as nat) {
            Some(i) => Some(i),
            None => if rects[n - 1].0 == id {
                Some(n - 1)
            } else {
                None
            },
        }
    }
}

/// The message for a pane missing from the layout.
pub open spec fn absent_message(pane_id: Seq<char>) -> Seq<char> {
    "pane "@ + debug_quoted(pane_id) + " is absent from the layout"@
}

/// The message for a pane without cells.
pub open spec fn empty_message(pane_id: Seq<char>) -> Seq<char> {
    "pane "@ + debug_quoted(pane_id) + " has an empty layout rectangle"@
}

/// The message for a remaining layout without any cell.
pub open spec fn no_target_message() -> Seq<char> {
    "remaining layout has no nonempty pane rectangle"@
}

/// The layout after moving pane `pane_id` along `movement` inside `area`:
/// `Ok(None)` when nothing changes, an error for an absent or empty source
/// pane or for a remaining layout without cells.
pub open spec fn moved(original: LayoutView, pane_id: Seq<char>, area: Rect, movement: Direction) -> Result<
    Option<LayoutView>,
    Seq<char>,
> {
    let rects = tree_rects(original.root, area);
    match position(rects, pane_id, rects.len()) {
        None => Err(absent_message(pane_id)),
        Some(source_index) => {
            let source = rects[source_index].1;
            if rects.len() == 1 {
                Ok(None)
            } else if !nonempty(source) {
                Err(empty_message(pane_id))
            } else {
                let focal = focal_point(source, movement);
                let (rest, forced) = removed(original.root, pane_id, movement)->0;
                let remaining = tree_rects(rest, area);
                match nearest(remaining, focal, remaining.len()) {
                    None => Err(no_target_message()),
                    Some(t) => {
                        let side = insertion_side(forced, movement, focal, remaining[t].1);
                        let root = inserted(rest, remaining[t].0, pane_id, side).0;
                        let desired = LayoutView { root, ..original };
                        if same_layout(desired, original) {
                            Ok(None)
                        } else {
                            Ok(Some(desired))
                        }
                    },
                }
            }
        },
    }
}

/// The value of a move's outcome.
pub open spec fn outcome_view(result: Result<Option<Layout>, String>) -> Result<
    Option<LayoutView>,
    Seq<char>,
> {
    match result {
        Ok(Some(layout)) => Ok(Some(layout@)),
        Ok(None) => Ok(None),
        Err(message) => Err(message@),
    }
}

fn crosses_forward(axis: SplitDirection, movement: Direction) -> (crosses: bool)
    ensures
        crosses == moves_forward(axis, movement),
{
    match axis {
        SplitDirection::Right => movement == Direction::Right,
        SplitDirection::Down => movement == Direction::Down,
    }
}

fn crosses_backward(axis: SplitDirection, movement: Direction) -> (crosses: bool)
    ensures
        crosses == moves_backward(axis, movement),
{
    match axis {
        SplitDirection::Right => movement == Direction::Left,
        SplitDirection::Down => movement == Direction::Up,
    }
}

fn remove_pane(node: &Node, pane_id: &str, movement: Direction) -> (result: Option<(Node, bool)>)
    ensures
        match (result, removed(node@, pane_id@, movement)) {
            (Some((rest, forced)), Some((model, model_forced))) => rest@ == model && forced
                == model_forced,
            (None, None) => true,
            _ => false,
        },
    decreases node,
{
    match node {
        Node::Pane { .. } => None,
        Node::Split { direction, ratio, first, second } => {
            if let Node::Pane { id } = &**first {
                if same_text(id.as_str(), pane_id) {
                    let sibling_is_leaf = match &**second {
                        Node::Pane { .. } => true,
                        Node::Split { .. } => false,
                    };
                    let forced = sibling_is_leaf && crosses_forward(*direction, movement);
                    proof {
                        assert((**first)@ == Tree::Pane { id: id@ });
                        assert(is_leaf((**first)@, pane_id@));
                        assert(node@->first == Box::new((**first)@));
                    }
                    return Some(((**second).copy(), forced));
                }
            }
            if let Node::Pane { id } = &**second {
                if same_text(id.as_str(), pane_id) {
                    let sibling_is_leaf = match &**first {
                        Node::Pane { .. } => true,
                        Node::Split { .. } => false,
                    };
                    let forced = sibling_is_leaf && crosses_backward(*direction, movement);
                    proof {
                        assert((**second)@ == Tree::Pane { id: id@ });
                        assert(is_leaf((**second)@, pane_id@));
                        assert(node@->second == Box::new((**second)@));
                    }
                    return Some(((**first).copy(), forced));
                }
            }
            match remove_pane(&**first, pane_id, movement) {
                Some((rest, forced)) => Some(
                    (
                        Node::Split {
                            direction: *direction,
                            ratio: *ratio,
                            first: Box::new(rest),
                            second: Box::new((**second).copy()),
                        },
                        forced,
                    ),
                ),
                None => match remove_pane(&**second, pane_id, movement) {
                    Some((rest, forced)) => Some(
                        (
                            Node::Split {
                                direction: *direction,
                                ratio: *ratio,
                                first: Box::new((**first).copy()),
                                second: Box::new(rest),
                            },
                            forced,
                        ),
                    ),
                    None => None,
                },
            }
        },
    }
}


fn insert_beside(node: &Node, target: &str, pane_id: &str, direction: Direction) -> (result: (
    Node,
    bool,
))
    ensures
        result.0@ == inserted(node@, target@, pane_id@, direction).0,
        result.1 == inserted(node@, target@, pane_id@, direction).1,
    decreases node,
{
    match node {
        Node::Pane { id } => {
            if same_text(id.as_str(), target) {
                let existing = Box::new(Node::Pane { id: id.clone() });
                let moved = Box::new(Node::Pane { id: pane_id.to_owned() });
                let half = Ratio::half();
                proof {
                    assert(half.pattern() == 0x3F00_0000);
                    assert((*existing)@ == Tree::Pane { id: target@ });
                    assert((*moved)@ == Tree::Pane { id: pane_id@ });
                }
                let split = match direction {
                    Direction::Left => Node::Split {
                        direction: SplitDirection::Right,
                        ratio: half,
                        first: moved,
                        second: existing,
                    },
                    Direction::Right => Node::Split {
                        direction: SplitDirection::Right,
                        ratio: half,
                        first: existing,
                        second: moved,
                    },
                    Direction::Up => Node::Split {
                        direction: SplitDirection::Down,
                        ratio: half,
                        first: moved,
                        second: existing,
                    },
                    Direction::Down => Node::Split {
                        direction: SplitDirection::Down,
                        ratio: half,
                        first: existing,
                        second: moved,
                    },
                };
                proof {
                    assert(id@ == target@);
                    assert(split@ == beside(target@, pane_id@, direction));
                }
                (split, true)
            } else {
                (node.copy(), false)
            }
        },
        Node::Split { direction: axis, ratio, first, second } => {
            let (f, found) = insert_beside(&**first, target, pane_id, direction);
            if found {
                (
                    Node::Split {
                        direction: *axis,
                        ratio: *ratio,
                        first: Box::new(f),
                        second: Box::new((**second).copy()),
                    },
                    true,
                )
            } else {
                let (s, found_second) = insert_beside(&**second, target, pane_id, direction);
                (
                    Node::Split {
                        direction: *axis,
                        ratio: *ratio,
                        first: Box::new((**first).copy()),
                        second: Box::new(s),
                    },
                    found_second,
                )
            }
        },
    }
}

/// The largest doubled coordinate a focal point or rectangle edge can take.
const COORDINATE_LIMIT: i64 = 0x4_0000;

fn focal_point_exec(rect: Rect, direction: Direction) -> (point: (i64, i64))
    ensures
        point.0 == focal_point(rect, direction).0,
        point.1 == focal_point(rect, direction).1,
        -2 <= point.0 <= COORDINATE_LIMIT,
        -2 <= point.1 <= COORDINATE_LIMIT,
{
    let x = 2 * (rect.x as i64);
    let y = 2 * (rect.y as i64);
    let width = rect.width as i64;
    let height = rect.height as i64;
    match direction {
        Direction::Left => (x - 2, y + height),
        Direction::Right => (x + 2 * width + 2, y + height),
        Direction::Up => (x + width, y - 2),
        Direction::Down => (x + width, y + 2 * height + 2),
    }
}

fn clamp_exec(value: i64, low: i64, high: i64) -> (clamped: i64)
    ensures
        clamped == clamp(value as int, low as int, high as int),
{
    if value < low {
        low
    } else if value > high {
        high
    } else {
        value
    }
}

fn distance_exec(rect: Rect, focal: (i64, i64)) -> (d: i64)
    requires
        -2 <= focal.0 <= COORDINATE_LIMIT,
        -2 <= focal.1 <= COORDINATE_LIMIT,
    ensures
        d == distance(rect, (focal.0 as int, focal.1 as int)),
{
    let left = 2 * (rect.x as i64);
    let top = 2 * (rect.y as i64);
    let dx = focal.0 - clamp_exec(focal.0, left, left + 2 * (rect.width as i64));
    let dy = focal.1 - clamp_exec(focal.1, top, top + 2 * (rect.height as i64));
    assert(-0x10_0000 <= dx <= 0x10_0000);
    assert(-0x10_0000 <= dy <= 0x10_0000);
    assert(dx * dx <= 0x100_0000_0000) by (nonlinear_arith)
        requires
            -0x10_0000 <= dx <= 0x10_0000,
    ;
    assert(dy * dy <= 0x100_0000_0000) by (nonlinear_arith)
        requires
            -0x10_0000 <= dy <= 0x10_0000,
    ;
    assert(dx * dx >= 0 && dy * dy >= 0) by (nonlinear_arith);
    dx * dx + dy * dy
}

fn insertion_side_exec(forced: bool, movement: Direction, focal: (i64, i64), target: Rect) -> (side:
    Direction)
    ensures
        side == insertion_side(forced, movement, (focal.0 as int, focal.1 as int), target),
{
    if forced {
        movement
    } else if target.width > target.height {
        if focal.0 < 2 * (target.x as i64) + target.width as i64 {
            Direction::Left
        } else {
            Direction::Right
        }
    } else if focal.1 < 2 * (target.y as i64) + target.height as i64 {
        Direction::Up
    } else {
        Direction::Down
    }
}

/// A rectangle list whose entries carry the pane IDs and rectangles of `model`.
pub open spec fn mirrors(rects: Seq<(String, Rect)>, model: Seq<(Seq<char>, Rect)>) -> bool {
    &&& rects.len() == model.len()
    &&& forall|i: int|
        0 <= i < rects.len() ==> (#[trigger] rects[i]).0@ == model[i].0 && rects[i].1
            == model[i].1
}

fn nearest_exec(rects: &Vec<(String, Rect)>, model: Ghost<Seq<(Seq<char>, Rect)>>, focal: (i64, i64)) -> (best: Option<usize>)
    requires
        mirrors(rects@, model@),
        -2 <= focal.0 <= COORDINATE_LIMIT,
        -2 <= focal.1 <= COORDINATE_LIMIT,
    ensures
        best matches Some(i) ==> i < rects@.len(),
        match (best, nearest(model@, (focal.0 as int, focal.1 as int), model@.len())) {
            (Some(i), Some(j)) => i == j,
            (None, None) => true,
            _ => false,
        },
{
    let ghost f = (focal.0 as int, focal.1 as int);
    let mut best: Option<usize> = None;
    let mut best_distance: i64 = 0;
    let mut i: usize = 0;
    while i < rects.len()
        invariant
            mirrors(rects@, model@),
            i <= rects@.len(),
            -2 <= focal.0 <= COORDINATE_LIMIT,
            -2 <= focal.1 <= COORDINATE_LIMIT,
            f == (focal.0 as int, focal.1 as int),
            best matches Some(b) ==> b < i,
            match (best, nearest(model@, f, i as nat)) {
                (Some(b), Some(c)) => b == c && best_distance == distance(model@[c].1, f),
                (None, None) => true,
                _ => false,
            },
        decreases rects@.len() - i,
    {
        let rect = rects[i].1;
        if rect.width > 0 && rect.height > 0 {
            let d = distance_exec(rect, focal);
            if best.is_none() || d < best_distance {
                best = Some(i);
                best_distance = d;
            }
        }
        i = i + 1;
    }
    best
}

proof fn lemma_position_found(rects: Seq<(Seq<char>, Rect)>, id: Seq<char>, n: nat)
    requires
        n <= rects.len(),
    ensures
        position(rects, id, n) matches Some(i) ==> 0 <= i < n && rects[i].0 == id,
        position(rects, id, n) is None ==> forall|i: int| 0 <= i < n ==> rects[i].0 != id,
    decreases n,
{
    if n > 0 {
        lemma_position_found(rects, id, (n - 1) as nat);
    }
}

proof fn lemma_removed_present(tree: Tree, id: Seq<char>, movement: Direction)
    requires
        panes(tree).contains(id),
        tree is Split,
    ensures
        removed(tree, id, movement) is Some,
    decreases tree,
{
    let first = *tree->first;
    let second = *tree->second;
    assert(panes(tree) == panes(first) + panes(second));
    if !is_leaf(first, id) && !is_leaf(second, id) {
        let i = choose|i: int| 0 <= i < panes(tree).len() && panes(tree)[i] == id;
        if i < panes(first).len() {
            assert(panes(first)[i] == id);
            match first {
                Tree::Pane { id: leaf } => {
                    assert(panes(first) == seq![leaf]);
                },
                Tree::Split { .. } => {
                    lemma_removed_present(first, id, movement);
                },
            }
        } else {
            assert(panes(second)[i - panes(first).len()] == id);
            match second {
                Tree::Pane { id: leaf } => {
                    assert(panes(second) == seq![leaf]);
                },
                Tree::Split { .. } => {
                    if removed(first, id, movement) is None {
                        lemma_removed_present(second, id, movement);
                    }
                },
            }
        }
    }
}

/// Moves pane `pane_id` to its nearest neighbor along `direction` inside the
/// tab area `area`, keeping every other split's axis and ratio.
///
/// Returns `Ok(None)` when the tab holds a single pane or the move changes
/// nothing.
///
/// # Errors
///
/// Returns an error when the pane is absent, when its rectangle is empty, or
/// when no remaining pane has a nonempty rectangle.
pub fn transform(original: &Layout, pane_id: &str, area: Rect, direction: Direction) -> (result:
    Result<Option<Layout>, String>)
    ensures
        outcome_view(result) == moved(original@, pane_id@, area, direction),
{
    let rects = original.root.pane_rects(area);
    let ghost model = tree_rects(original.root@, area);
    proof {
        lemma_rects_follow_panes(original.root@, area);
    }
    let mut source_index: Option<usize> = None;
    let mut i: usize = 0;
    while i < rects.len()
        invariant
            mirrors(rects@, model),
            i <= rects@.len(),
            match (source_index, position(model, pane_id@, i as nat)) {
                (Some(a), Some(b)) => a == b,
                (None, None) => true,
                _ => false,
            },
        decreases rects@.len() - i,
    {
        if source_index.is_none() && same_text(rects[i].0.as_str(), pane_id) {
            source_index = Some(i);
        }
        i = i + 1;
    }
    let index = match source_index {
        Some(index) => index,
        None => {
            let quoted_id = quoted(pane_id);
            return Err(join3("pane ", quoted_id.as_str(), " is absent from the layout"));
        },
    };
    proof {
        lemma_position_found(model, pane_id@, model.len());
    }
    let source = rects[index].1;
    if rects.len() == 1 {
        return Ok(None);
    }
    if source.width == 0 || source.height == 0 {
        let quoted_id = quoted(pane_id);
        return Err(join3("pane ", quoted_id.as_str(), " has an empty layout rectangle"));
    }
    let focal = focal_point_exec(source, direction);
    proof {
        assert(panes(original.root@)[index as int] == pane_id@);
        assert(panes(original.root@).contains(pane_id@));
        if original.root@ is Pane {
            assert(model.len() == 1);
        }
        lemma_removed_present(original.root@, pane_id@, direction);
    }
    let removal = remove_pane(&original.root, pane_id, direction);
    let (rest, forced) = removal.unwrap();
    let remaining = rest.pane_rects(area);
    let ghost remaining_model = tree_rects(rest@, area);
    let target_index = match nearest_exec(&remaining, Ghost(remaining_model), focal) {
        Some(t) => t,
        None => {
            return Err("remaining layout has no nonempty pane rectangle".to_owned());
        },
    };
    let target = &remaining[target_index];
    let side = insertion_side_exec(forced, direction, focal, target.1);
    let (root, _) = insert_beside(&rest, target.0.as_str(), pane_id, side);
    proof {
        let source_model = position(model, pane_id@, model.len())->0;
        assert(source_model == index);
        assert(source == model[index as int].1);
        let f = focal_point(source, direction);
        let removal_model = removed(original.root@, pane_id@, direction)->0;
        assert(rest@ == removal_model.0 && forced == removal_model.1);
        let t = nearest(remaining_model, f, remaining_model.len())->0;
        assert(t == target_index);
        assert(target.0@ == remaining_model[t].0);
        assert(target.1 == remaining_model[t].1);
        assert(side == insertion_side(forced, direction, f, remaining_model[t].1));
        assert(root@ == inserted(rest@, remaining_model[t].0, pane_id@, side).0);
    }
    let desired = Layout {
        workspace_id: original.workspace_id.clone(),
        tab_id: original.tab_id.clone(),
        zoomed: original.zoomed,
        focused_pane_id: original.focused_pane_id.clone(),
        root,
    };
    if desired.same_as(original) {
        Ok(None)
    } else {
        Ok(Some(desired))
    }
}


proof fn lemma_split_multiset(tree: Tree)
    requires
        tree is Split,
    ensures
        panes(tree).to_multiset() == panes(*tree->first).to_multiset().add(
            panes(*tree->second).to_multiset(),
        ),
{
    vstd::seq_lib::lemma_multiset_commutative(panes(*tree->first), panes(*tree->second));
}

proof fn lemma_leaf_multiset(id: Seq<char>)
    ensures
        panes(Tree::Pane { id }).to_multiset() == Multiset::<Seq<char>>::empty().insert(id),
{
    broadcast use vstd::seq_lib::group_to_multiset_ensures;

    assert(panes(Tree::Pane { id }) == seq![id]);
    assert(seq![id] == Seq::<Seq<char>>::empty().push(id));
    assert(Seq::<Seq<char>>::empty().to_multiset() =~= Multiset::empty());
}

proof fn lemma_removed_multiset(tree: Tree, id: Seq<char>, movement: Direction)
    requires
        removed(tree, id, movement) is Some,
    ensures
        removed(tree, id, movement) matches Some((rest, _)) ==> panes(tree).to_multiset() == panes(
            rest,
        ).to_multiset().insert(id),
    decreases tree,
{
    broadcast use vstd::multiset::group_multiset_axioms;

    let first = *tree->first;
    let second = *tree->second;
    lemma_split_multiset(tree);
    if is_leaf(first, id) {
        lemma_leaf_multiset(id);
        assert(panes(tree).to_multiset() =~= panes(second).to_multiset().insert(id));
    } else if is_leaf(second, id) {
        lemma_leaf_multiset(id);
        assert(panes(tree).to_multiset() =~= panes(first).to_multiset().insert(id));
    } else if removed(first, id, movement) is Some {
        lemma_removed_multiset(first, id, movement);
        let (rest, _) = removed(tree, id, movement)->0;
        lemma_split_multiset(rest);
        assert(panes(tree).to_multiset() =~= panes(rest).to_multiset().insert(id));
    } else {
        lemma_removed_multiset(second, id, movement);
        let (rest, _) = removed(tree, id, movement)->0;
        lemma_split_multiset(rest);
        assert(panes(tree).to_multiset() =~= panes(rest).to_multiset().insert(id));
    }
}

proof fn lemma_inserted_multiset(tree: Tree, target: Seq<char>, moved: Seq<char>, side: Direction)
    ensures
        inserted(tree, target, moved, side).1 == panes(tree).contains(target),
        inserted(tree, target, moved, side).1 ==> panes(inserted(tree, target, moved, side).0).to_multiset()
            == panes(tree).to_multiset().insert(moved),
    decreases tree,
{
    broadcast use vstd::multiset::group_multiset_axioms;

    match tree {
        Tree::Pane { id } => {
            assert(panes(tree) == seq![id]);
            assert(panes(tree).contains(target) ==> seq![id][0] == target);
            if id == target {
                assert(panes(tree)[0] == id);
                let pair = beside(target, moved, side);
                lemma_split_multiset(pair);
                lemma_leaf_multiset(target);
                lemma_leaf_multiset(moved);
                assert(panes(pair).to_multiset() =~= panes(tree).to_multiset().insert(moved));
            }
        },
        Tree::Split { first, second, .. } => {
            lemma_split_contains(tree, target);
            lemma_inserted_multiset(*first, target, moved, side);
            lemma_inserted_multiset(*second, target, moved, side);
            let result = inserted(tree, target, moved, side).0;
            lemma_split_multiset(tree);
            lemma_split_multiset(result);
            if inserted(tree, target, moved, side).1 {
                assert(panes(result).to_multiset() =~= panes(tree).to_multiset().insert(moved));
            }
        },
    }
}

proof fn lemma_split_contains(tree: Tree, id: Seq<char>)
    requires
        tree is Split,
    ensures
        panes(tree).contains(id) <==> (panes(*tree->first).contains(id) || panes(
            *tree->second,
        ).contains(id)),
{
    let a = panes(*tree->first);
    let b = panes(*tree->second);
    assert(panes(tree) == a + b);
    if panes(tree).contains(id) {
        let i = choose|i: int| 0 <= i < (a + b).len() && (a + b)[i] == id;
        if i < a.len() {
            assert(a[i] == id);
        } else {
            assert(b[i - a.len()] == id);
        }
    }
    if a.contains(id) {
        let i = choose|i: int| 0 <= i < a.len() && a[i] == id;
        assert((a + b)[i] == id);
    }
    if b.contains(id) {
        let i = choose|i: int| 0 <= i < b.len() && b[i] == id;
        assert((a + b)[a.len() + i] == id);
    }
}

proof fn lemma_nearest_in_range(rects: Seq<(Seq<char>, Rect)>, focal: (int, int), n: nat)
    ensures
        nearest(rects, focal, n) matches Some(i) ==> 0 <= i < n,
    decreases n,
{
    if n > 0 {
        lemma_nearest_in_range(rects, focal, (n - 1) as nat);
    }
}

/// A move never loses or duplicates a pane: when it changes the layout, the
/// new tree holds the same pane IDs, each as often as before, and the tab,
/// workspace, focus and zoom state are unchanged.
pub proof fn lemma_move_keeps_panes(
    original: LayoutView,
    pane_id: Seq<char>,
    area: Rect,
    movement: Direction,
)
    ensures
        moved(original, pane_id, area, movement) matches Ok(Some(desired)) ==> {
            &&& desired.workspace_id == original.workspace_id
            &&& desired.tab_id == original.tab_id
            &&& desired.zoomed == original.zoomed
            &&& desired.focused_pane_id == original.focused_pane_id
            &&& panes(desired.root).to_multiset() == panes(original.root).to_multiset()
        },
{
    let rects = tree_rects(original.root, area);
    if let Ok(Some(desired)) = moved(original, pane_id, area, movement) {
        lemma_position_found(rects, pane_id, rects.len());
        lemma_rects_follow_panes(original.root, area);
        let index = position(rects, pane_id, rects.len())->0;
        assert(panes(original.root)[index] == pane_id);
        assert(panes(original.root).contains(pane_id));
        if original.root is Pane {
            assert(rects.len() == 1);
        }
        lemma_removed_present(original.root, pane_id, movement);
        lemma_removed_multiset(original.root, pane_id, movement);
        let source = rects[index].1;
        let focal = focal_point(source, movement);
        let (rest, forced) = removed(original.root, pane_id, movement)->0;
        let remaining = tree_rects(rest, area);
        lemma_rects_follow_panes(rest, area);
        lemma_nearest_in_range(remaining, focal, remaining.len());
        let t = nearest(remaining, focal, remaining.len())->0;
        assert(remaining[t].0 == panes(rest)[t]);
        assert(panes(rest).contains(remaining[t].0));
        let side = insertion_side(forced, movement, focal, remaining[t].1);
        lemma_inserted_multiset(rest, remaining[t].0, pane_id, side);
    }
}

} // verus!

verus! {

/// Whether rectangle `t` is the target a move picks among `rects`: it covers
/// a cell, no rectangle that covers a cell is nearer to `focal`, and every
/// earlier one in layout order that covers a cell is farther.
pub open spec fn first_nearest(rects: Seq<(Seq<char>, Rect)>, focal: (int, int), t: int) -> bool {
    &&& 0 <= t < rects.len()
    &&& nonempty(rects[t].1)
    &&& forall|j: int|
        0 <= j < rects.len() && nonempty(#[trigger] rects[j].1) ==> distance(rects[t].1, focal)
            <= distance(rects[j].1, focal)
    &&& forall|j: int|
        0 <= j < t && nonempty(#[trigger] rects[j].1) ==> distance(rects[t].1, focal) < distance(
            rects[j].1,
            focal,
        )
}

proof fn lemma_nearest_prefix(rects: Seq<(Seq<char>, Rect)>, focal: (int, int), n: nat)
    requires
        n <= rects.len(),
    ensures
        match nearest(rects, focal, n) {
            Some(t) => first_nearest(rects.take(n as int), focal, t),
            None => forall|j: int| 0 <= j < n ==> !nonempty(#[trigger] rects[j].1),
        },
    decreases n,
{
    if n > 0 {
        lemma_nearest_prefix(rects, focal, (n - 1) as nat);
        let before = rects.take(n - 1);
        let now = rects.take(n as int);
        assert forall|j: int| 0 <= j < n - 1 implies #[trigger] now[j] == before[j] by {}
        assert(now[n - 1] == rects[n - 1]);
    }
}

/// The target of a move is the first nearest pane: among the rectangles that
/// cover a cell, the one nearest to the focal point, and on a tie the first
/// in layout order; there is none only when no rectangle covers a cell.
pub proof fn lemma_nearest_is_first_closest(rects: Seq<(Seq<char>, Rect)>, focal: (int, int))
    ensures
        match nearest(rects, focal, rects.len()) {
            Some(t) => first_nearest(rects, focal, t),
            None => forall|j: int| 0 <= j < rects.len() ==> !nonempty(#[trigger] rects[j].1),
        },
{
    lemma_nearest_prefix(rects, focal, rects.len());
    assert(rects.take(rects.len() as int) =~= rects);
}

} // verus!

verus! {

/// A move that changes the layout puts the pane beside the first nearest
/// pane of what remains once the pane is taken out: the desired tree is the
/// remaining tree with that target's leaf replaced by the target and the
/// moved pane side by side.
pub proof fn lemma_move_targets_first_nearest(
    original: LayoutView,
    pane_id: Seq<char>,
    area: Rect,
    movement: Direction,
)
    ensures
        moved(original, pane_id, area, movement) matches Ok(Some(desired)) ==> {
            let rects = tree_rects(original.root, area);
            let source = rects[position(rects, pane_id, rects.len())->0].1;
            let focal = focal_point(source, movement);
            let after_removal = removed(original.root, pane_id, movement)->0;
            let rest = after_removal.0;
            let forced = after_removal.1;
            let remaining = tree_rects(rest, area);
            exists|t: int|
                #![trigger remaining[t]]
                first_nearest(remaining, focal, t) && desired.root == inserted(
                    rest,
                    remaining[t].0,
                    pane_id,
                    insertion_side(forced, movement, focal, remaining[t].1),
                ).0
        },
{
    if let Ok(Some(desired)) = moved(original, pane_id, area, movement) {
        let rects = tree_rects(original.root, area);
        let source = rects[position(rects, pane_id, rects.len())->0].1;
        let focal = focal_point(source, movement);
        let after_removal = removed(original.root, pane_id, movement)->0;
        let rest = after_removal.0;
        let remaining = tree_rects(rest, area);
        lemma_nearest_is_first_closest(remaining, focal);
        let t = nearest(remaining, focal, remaining.len())->0;
        assert(first_nearest(remaining, focal, t));
        let _ = remaining[t];
    }
}

} // verus!
