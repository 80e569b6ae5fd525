//! Pure types for the BSP layout tree.

use crate::rounding::{is_unit_interval, scaled_extent, scaled_extent_exec};
use vstd::prelude::*;

verus! {

/// A direction in which to find and move a pane.
#[derive(Clone, Copy, Debug, PartialEq, Eq, Structural)]
pub enum Direction {
    Left,
    Right,
    Up,
    Down,
}

impl Direction {
    /// The lower-case name of the direction.
    pub open spec fn spec_name(self) -> Seq<char> {
        match self {
            Direction::Left => "left"@,
            Direction::Right => "right"@,
            Direction::Up => "up"@,
            Direction::Down => "down"@,
        }
    }

    /// Returns the lower-case name, as Herdr's protocol and messages spell it.
    pub fn name(self) -> (name: &'static str)
        ensures
            name@ == self.spec_name(),
    {
        match self {
            Direction::Left => "left",
            Direction::Right => "right",
            Direction::Up => "up",
            Direction::Down => "down",
        }
    }
}

/// The axis and ordering of a split in Herdr's exported layout.
#[derive(Clone, Copy, Debug, PartialEq, Eq, Structural)]
pub enum SplitDirection {
    Right,
    Down,
}

impl SplitDirection {
    /// The other axis.
    pub open spec fn spec_flipped(self) -> SplitDirection {
        match self {
            SplitDirection::Right => SplitDirection::Down,
            SplitDirection::Down => SplitDirection::Right,
        }
    }

    /// Returns the other axis.
    pub fn flipped(self) -> (other: SplitDirection)
        ensures
            other == self.spec_flipped(),
    {
        match self {
            SplitDirection::Right => SplitDirection::Down,
            SplitDirection::Down => SplitDirection::Right,
        }
    }
}

/// The value a ratio pattern stands for, with both signs of zero as `0`.
pub open spec fn ratio_value(bits: u32) -> u32 {
    if bits == 0x8000_0000 {
        0
    } else {
        bits
    }
}

/// The message that rejects a ratio outside the protocol range.
pub open spec fn ratio_range_message() -> Seq<char> {
    "split ratio must be finite and between 0 and 1"@
}

/// A finite split ratio supplied by Herdr, held as the bit pattern of its
/// single-precision value. Only patterns of values in `0.0..=1.0` exist.
#[derive(Clone, Copy, Debug)]
pub struct Ratio {
    bits: u32,
}

impl Ratio {
    #[verifier::type_invariant]
    spec fn in_unit_interval(self) -> bool {
        is_unit_interval(self.bits)
    }

    /// The single-precision bit pattern of the ratio.
    pub closed spec fn pattern(self) -> u32 {
        self.bits
    }

    /// Creates a ratio from a single-precision bit pattern, rejecting values
    /// outside Herdr's `0.0..=1.0` range (and every non-finite value).
    pub fn new(bits: u32) -> (result: Result<Self, &'static str>)
        ensures
            result is Ok <==> is_unit_interval(bits),
            result matches Ok(ratio) ==> ratio.pattern() == bits,
            result matches Err(message) ==> message@ == ratio_range_message(),
    {
        if bits <= 0x3F80_0000 || bits == 0x8000_0000 {
            Ok(Ratio { bits })
        } else {
            Err("split ratio must be finite and between 0 and 1")
        }
    }

    /// Returns the underlying bit pattern.
    pub fn get(self) -> (bits: u32)
        ensures
            bits == self.pattern(),
    {
        self.bits
    }

    /// The even split, `0.5`.
    pub fn half() -> (ratio: Ratio)
        ensures
            ratio.pattern() == 0x3F00_0000,
    {
        Ratio { bits: 0x3F00_0000 }
    }

    /// Whether two ratios hold the same value (`-0.0` equals `0.0`).
    pub fn same_value(self, other: Ratio) -> (same: bool)
        ensures
            same == (ratio_value(self.pattern()) == ratio_value(other.pattern())),
    {
        let a = if self.bits == 0x8000_0000 {
            0
        } else {
            self.bits
        };
        let b = if other.bits == 0x8000_0000 {
            0
        } else {
            other.bits
        };
        a == b
    }
}

impl PartialEq for Ratio {
    /// Ratios are equal when their values are: `-0.0` equals `0.0`.
    fn eq(&self, other: &Self) -> (equal: bool) {
        self.same_value(*other)
    }
}

impl vstd::std_specs::cmp::PartialEqSpecImpl for Ratio {
    open spec fn obeys_eq_spec() -> bool {
        true
    }

    open spec fn eq_spec(&self, other: &Self) -> bool {
        ratio_value(self.pattern()) == ratio_value(other.pattern())
    }
}

/// A pane or binary split in the active tab.
#[derive(Debug, PartialEq)]
pub enum Node {
    Pane {
        /// Herdr's stable pane identifier.
        id: String,
    },
    Split {
        /// The split axis and second-child direction.
        direction: SplitDirection,
        /// The first child's share of the split.
        ratio: Ratio,
        /// The first child in layout order.
        first: Box<Node>,
        /// The second child in layout order.
        second: Box<Node>,
    },
}

/// The mathematical tree a [`Node`] stands for: pane IDs as character
/// sequences and ratios by their bit patterns, sign of zero included.
#[verifier::ext_equal]
pub enum Tree {
    Pane { id: Seq<char> },
    Split { direction: SplitDirection, ratio: u32, first: Box<Tree>, second: Box<Tree> },
}

impl View for Node {
    type V = Tree;

    open spec fn view(&self) -> Tree
        decreases self,
    {
        match self {
            Node::Pane { id } => Tree::Pane { id: id@ },
            Node::Split { direction, ratio, first, second } => Tree::Split {
                direction: *direction,
                ratio: ratio.pattern(),
                first: Box::new((**first).view()),
                second: Box::new((**second).view()),
            },
        }
    }
}

impl DeepView for Node {
    type V = Tree;

    open spec fn deep_view(&self) -> Tree {
        self@
    }
}

/// Whether two trees are equal as Herdr compares them: the same shape, axes
/// and pane IDs, and ratios of equal value (`-0.0` equals `0.0`).
pub open spec fn same_tree(a: Tree, b: Tree) -> bool
    decreases a,
{
    match a {
        Tree::Pane { id } => b matches Tree::Pane { id: other } && id == other,
        Tree::Split { direction, ratio, first, second } => match b {
            Tree::Split { direction: d, ratio: r, first: f, second: s } => direction == d
                && ratio_value(ratio) == ratio_value(r) && same_tree(*first, *f) && same_tree(
                *second,
                *s,
            ),
            Tree::Pane { .. } => false,
        },
    }
}

/// Every tree is the same as itself.
pub proof fn lemma_same_tree_reflexive(tree: Tree)
    ensures
        same_tree(tree, tree),
    decreases tree,
{
    match tree {
        Tree::Pane { .. } => {},
        Tree::Split { first, second, .. } => {
            lemma_same_tree_reflexive(*first);
            lemma_same_tree_reflexive(*second);
        },
    }
}

/// The pane IDs of a tree in layout order.
pub open spec fn panes(tree: Tree) -> Seq<Seq<char>>
    decreases tree,
{
    match tree {
        Tree::Pane { id } => seq![id],
        Tree::Split { first, second, .. } => panes(*first) + panes(*second),
    }
}

/// The first pane of a tree in layout order.
pub open spec fn first_pane(tree: Tree) -> Seq<char>
    decreases tree,
{
    match tree {
        Tree::Pane { id } => id,
        Tree::Split { first, .. } => first_pane(*first),
    }
}

/// The number of splits in a tree.
pub open spec fn split_count(tree: Tree) -> nat
    decreases tree,
{
    match tree {
        Tree::Pane { .. } => 0,
        Tree::Split { first, second, .. } => 1 + split_count(*first) + split_count(*second),
    }
}

/// A tree holds at least one pane, and its first pane comes first.
pub proof fn lemma_panes_nonempty(tree: Tree)
    ensures
        panes(tree).len() >= 1,
        panes(tree)[0] == first_pane(tree),
        panes(tree).len() == split_count(tree) + 1,
    decreases tree,
{
    match tree {
        Tree::Pane { .. } => {},
        Tree::Split { first, second, .. } => {
            lemma_panes_nonempty(*first);
            lemma_panes_nonempty(*second);
        },
    }
}

impl Node {
    /// Returns a structurally equal copy of the node.
    pub fn copy(&self) -> (copy: Node)
        ensures
            copy@ == self@,
        decreases self,
    {
        match self {
            Node::Pane { id } => Node::Pane { id: id.clone() },
            Node::Split { direction, ratio, first, second } => Node::Split {
                direction: *direction,
                ratio: *ratio,
                first: Box::new((**first).copy()),
                second: Box::new((**second).copy()),
            },
        }
    }

    /// Whether two nodes stand for the same tree, ratios compared by value.
    pub fn same_as(&self, other: &Node) -> (same: bool)
        ensures
            same == same_tree(self@, other@),
        decreases self,
    {
        match (self, other) {
            (Node::Pane { id: a }, Node::Pane { id: b }) => *a == *b,
            (
                Node::Split { direction: d1, ratio: r1, first: f1, second: s1 },
                Node::Split { direction: d2, ratio: r2, first: f2, second: s2 },
            ) => {
                let same_direction = *d1 == *d2;
                let same_ratio = r1.same_value(*r2);
                let same_first = (**f1).same_as(&**f2);
                let same_second = (**s1).same_as(&**s2);
                same_direction && same_ratio && same_first && same_second
            },
            _ => false,
        }
    }

    /// Appends the pane IDs of this node, in layout order, to `pane_ids`.
    pub fn collect_panes(&self, pane_ids: &mut Vec<String>)
        ensures
            final(pane_ids).deep_view() == old(pane_ids).deep_view() + panes(self@),
        decreases self,
    {
        match self {
            Node::Pane { id } => {
                pane_ids.push(id.clone());
                proof {
                    assert(final(pane_ids).deep_view() =~= old(pane_ids).deep_view() + panes(
                        self@,
                    ));
                }
            },
            Node::Split { first, second, .. } => {
                (**first).collect_panes(pane_ids);
                (**second).collect_panes(pane_ids);
                proof {
                    assert(final(pane_ids).deep_view() =~= old(pane_ids).deep_view() + panes(
                        self@,
                    ));
                }
            },
        }
    }

    /// Returns the ID of the first pane in layout order.
    pub fn first_pane(&self) -> (id: &String)
        ensures
            id@ == first_pane(self@),
        decreases self,
    {
        match self {
            Node::Pane { id } => id,
            Node::Split { first, .. } => (**first).first_pane(),
        }
    }
}

/// A validated export of one Herdr tab.
#[derive(Debug, PartialEq)]
pub struct Layout {
    /// Workspace containing the tab.
    pub workspace_id: String,
    /// Tab described by the tree.
    pub tab_id: String,
    /// Whether Herdr had the focused pane zoomed.
    pub zoomed: bool,
    /// Pane to focus after rebuilding.
    pub focused_pane_id: String,
    /// BSP root containing each pane exactly once.
    pub root: Node,
}

/// The mathematical value of a [`Layout`].
#[verifier::ext_equal]
pub struct LayoutView {
    pub workspace_id: Seq<char>,
    pub tab_id: Seq<char>,
    pub zoomed: bool,
    pub focused_pane_id: Seq<char>,
    pub root: Tree,
}

/// Whether two layouts are equal as Herdr compares them: every field equal,
/// and the trees the same by [`same_tree`].
pub open spec fn same_layout(a: LayoutView, b: LayoutView) -> bool {
    &&& a.workspace_id == b.workspace_id
    &&& a.tab_id == b.tab_id
    &&& a.zoomed == b.zoomed
    &&& a.focused_pane_id == b.focused_pane_id
    &&& same_tree(a.root, b.root)
}

impl View for Layout {
    type V = LayoutView;

    open spec fn view(&self) -> LayoutView {
        LayoutView {
            workspace_id: self.workspace_id@,
            tab_id: self.tab_id@,
            zoomed: self.zoomed,
            focused_pane_id: self.focused_pane_id@,
            root: self.root@,
        }
    }
}

impl Layout {
    /// Returns a copy equal in every field.
    pub fn copy(&self) -> (copy: Layout)
        ensures
            copy@ == self@,
    {
        Layout {
            workspace_id: self.workspace_id.clone(),
            tab_id: self.tab_id.clone(),
            zoomed: self.zoomed,
            focused_pane_id: self.focused_pane_id.clone(),
            root: self.root.copy(),
        }
    }

    /// Whether two layouts are equal in every field, ratios compared by
    /// value.
    pub fn same_as(&self, other: &Layout) -> (same: bool)
        ensures
            same == same_layout(self@, other@),
    {
        self.workspace_id == other.workspace_id && self.tab_id == other.tab_id && self.zoomed
            == other.zoomed && self.focused_pane_id == other.focused_pane_id
            && self.root.same_as(&other.root)
    }
}

/// A pane rectangle in terminal cells.
#[derive(Clone, Copy, Debug, PartialEq, Eq, Structural)]
pub struct Rect {
    /// Horizontal offset from the layout origin.
    pub x: u16,
    /// Vertical offset from the layout origin.
    pub y: u16,
    /// Width in terminal cells.
    pub width: u16,
    /// Height in terminal cells.
    pub height: u16,
}

/// `a + b`, capped at `u16::MAX`.
pub open spec fn saturating_sum(a: u16, b: u16) -> u16 {
    if a + b > 0xFFFF {
        0xFFFF
    } else {
        (a + b) as u16
    }
}

/// The two parts of `area` split along `direction`, the first taking the
/// share whose pattern is `ratio`, rounded as Herdr rounds terminal cells.
pub open spec fn split_rect(area: Rect, direction: SplitDirection, ratio: u32) -> (Rect, Rect) {
    match direction {
        SplitDirection::Right => {
            let extent = scaled_extent(area.width as nat, ratio) as u16;
            (
                Rect { width: extent, ..area },
                Rect {
                    x: saturating_sum(area.x, extent),
                    width: (area.width - extent) as u16,
                    ..area
                },
            )
        },
        SplitDirection::Down => {
            let extent = scaled_extent(area.height as nat, ratio) as u16;
            (
                Rect { height: extent, ..area },
                Rect {
                    y: saturating_sum(area.y, extent),
                    height: (area.height - extent) as u16,
                    ..area
                },
            )
        },
    }
}

/// The unzoomed leaf rectangles of `tree` inside `area`, in layout order.
pub open spec fn tree_rects(tree: Tree, area: Rect) -> Seq<(Seq<char>, Rect)>
    decreases tree,
{
    match tree {
        Tree::Pane { id } => seq![(id, area)],
        Tree::Split { direction, ratio, first, second } => {
            let (first_area, second_area) = split_rect(area, direction, ratio);
            tree_rects(*first, first_area) + tree_rects(*second, second_area)
        },
    }
}

/// The leaf rectangles come one per pane, in layout order.
pub proof fn lemma_rects_follow_panes(tree: Tree, area: Rect)
    ensures
        tree_rects(tree, area).len() == panes(tree).len(),
        forall|i: int|
            0 <= i < panes(tree).len() ==> #[trigger] tree_rects(tree, area)[i].0 == panes(
                tree,
            )[i],
    decreases tree,
{
    match tree {
        Tree::Pane { .. } => {},
        Tree::Split { direction, ratio, first, second } => {
            let (a, b) = split_rect(area, direction, ratio);
            lemma_rects_follow_panes(*first, a);
            lemma_rects_follow_panes(*second, b);
            let left = panes(*first);
            assert forall|i: int| 0 <= i < panes(tree).len() implies #[trigger] tree_rects(
                tree,
                area,
            )[i].0 == panes(tree)[i] by {
                if i < left.len() {
                } else {
                    assert(tree_rects(tree, area)[i] == tree_rects(*second, b)[i - left.len()]);
                }
            }
        },
    }
}

impl Rect {
    /// Splits the rectangle along `direction`, matching Herdr's
    /// terminal-cell rounding at each split.
    pub fn split(self, direction: SplitDirection, ratio: Ratio) -> (parts: (Rect, Rect))
        ensures
            parts == split_rect(self, direction, ratio_value(ratio.pattern())),
    {
        proof {
            use_type_invariant(&ratio);
        }
        let bits = ratio.get();
        let mut first = self;
        let mut second = self;
        match direction {
            SplitDirection::Right => {
                first.width = scaled_extent_exec(self.width, bits);
                second.x = self.x.saturating_add(first.width);
                second.width = self.width - first.width;
            },
            SplitDirection::Down => {
                first.height = scaled_extent_exec(self.height, bits);
                second.y = self.y.saturating_add(first.height);
                second.height = self.height - first.height;
            },
        }
        proof {
            assert(scaled_extent(self.width as nat, bits) == scaled_extent(
                self.width as nat,
                ratio_value(bits),
            ));
            assert(scaled_extent(self.height as nat, bits) == scaled_extent(
                self.height as nat,
                ratio_value(bits),
            ));
        }
        (first, second)
    }
}

impl Node {
    /// Computes unzoomed leaf rectangles in tree order, including hidden panes.
    pub fn pane_rects(&self, area: Rect) -> (rects: Vec<(String, Rect)>)
        ensures
            rects@.len() == tree_rects(self@, area).len(),
            forall|i: int|
                0 <= i < rects@.len() ==> (#[trigger] rects@[i]).0@ == tree_rects(
                    self@,
                    area,
                )[i].0 && rects@[i].1 == tree_rects(self@, area)[i].1,
        decreases self,
    {
        match self {
            Node::Pane { id } => {
                let mut rects = Vec::new();
                rects.push((id.clone(), area));
                rects
            },
            Node::Split { direction, ratio, first, second } => {
                let (first_area, second_area) = area.split(*direction, *ratio);
                let mut rects = (**first).pane_rects(first_area);
                let rest = (**second).pane_rects(second_area);
                let ghost left = tree_rects((**first)@, first_area);
                let ghost right = tree_rects((**second)@, second_area);
                let ghost whole = tree_rects(self@, area);
                assert(whole == left + right);
                let mut i: usize = 0;
                while i < rest.len()
                    invariant
                        i <= rest@.len(),
                        rest@.len() == right.len(),
                        whole == left + right,
                        rects@.len() == left.len() + i,
                        forall|j: int|
                            0 <= j < left.len() + i ==> (#[trigger] rects@[j]).0@ == whole[j].0
                                && rects@[j].1 == whole[j].1,
                        forall|j: int|
                            0 <= j < rest@.len() ==> (#[trigger] rest@[j]).0@ == right[j].0
                                && rest@[j].1 == right[j].1,
                    decreases rest@.len() - i,
                {
                    let (id, rect) = &rest[i];
                    rects.push((id.clone(), *rect));
                    proof {
                        assert(rects@[left.len() + i].0@ == right[i as int].0);
                        assert(whole[left.len() + i] == right[i as int]);
                    }
                    i = i + 1;
                }
                rects
            },
        }
    }
}

} // verus!
