//! tmux-style layout presets and the per-tab memory of the last preset.

use crate::paths::{path_components, same_path};
use crate::preset::Preset;
use crate::text::same_text;
use crate::rounding::{count_ratio_exec, count_ratio_pattern, lemma_count_ratio_between_half_and_two_thirds};
use crate::tree::{lemma_panes_nonempty, panes, same_tree, Layout, LayoutView, Node, Ratio, SplitDirection, Tree};
use vstd::prelude::*;

verus! {

/// The index of the first occurrence of `preset` among the first `n` entries.
pub open spec fn first_index(cycle: Seq<Preset>, preset: Preset, n: nat) -> Option<int>
    decreases n,
{
    if n == 0 {
        None
    } else {
        match first_index(cycle, preset, (n - 1) as nat) {
            Some(i) => Some(i),
            None => if cycle[n - 1] == preset {
                Some(n - 1)
            } else {
                None
            },
        }
    }
}

/// The preset after `current` in `cycle`, wrapping around; the cycle's first
/// preset when there is no current preset or it is not in the cycle.
pub open spec fn following(cycle: Seq<Preset>, current: Option<Preset>) -> Preset {
    match current {
        Some(preset) => match first_index(cycle, preset, cycle.len()) {
            Some(i) => cycle[(i + 1) % (cycle.len() as int)],
            None => cycle[0],
        },
        None => cycle[0],
    }
}

/// Picks the preset that follows `current` in the configured cycle.
pub fn next_preset(cycle: &[Preset], current: Option<Preset>) -> (next: Preset)
    requires
        cycle@.len() >= 1,
    ensures
        next == following(cycle@, current),
{
    if let Some(preset) = current {
        let mut i: usize = 0;
        while i < cycle.len()
            invariant
                i <= cycle@.len(),
                current == Some(preset),
                first_index(cycle@, preset, i as nat) is None,
            decreases cycle@.len() - i,
        {
            if cycle[i] == preset {
                proof {
                    assert(first_index(cycle@, preset, (i + 1) as nat) == Some(i as int));
                    lemma_first_index_stable(cycle@, preset, (i + 1) as nat, cycle@.len());
                }
                let next_index = (i + 1) % cycle.len();
                proof {
                    assert(first_index(cycle@, preset, cycle@.len()) == Some(i as int));
                    assert(next_index as int == (i as int + 1) % (cycle@.len() as int));
                    assert(following(cycle@, current) == cycle@[next_index as int]);
                }
                return cycle[next_index];
            }
            i = i + 1;
        }
    }
    cycle[0]
}

proof fn lemma_first_index_stable(cycle: Seq<Preset>, preset: Preset, n: nat, m: nat)
    requires
        n <= m,
        first_index(cycle, preset, n) is Some,
    ensures
        first_index(cycle, preset, m) == first_index(cycle, preset, n),
    decreases m - n,
{
    if n < m {
        lemma_first_index_stable(cycle, preset, n, (m - 1) as nat);
    }
}

/// The preset last applied to one tab of one Herdr server.
#[derive(Debug)]
pub struct LastLayout {
    /// The Herdr socket that names the server.
    pub socket_path: String,
    /// The tab on that server.
    pub tab_id: String,
    /// The preset last applied to the tab.
    pub preset: Preset,
}

/// The remembered preset of every tab, scoped by socket and tab.
#[derive(Debug, Default)]
pub struct State {
    /// One entry per tab, in the order first seen.
    pub last_layouts: Vec<LastLayout>,
}

/// The value of a remembered entry.
pub open spec fn entry_view(entry: LastLayout) -> (Seq<char>, Seq<char>, Preset) {
    (entry.socket_path@, entry.tab_id@, entry.preset)
}

/// Whether a remembered entry is the one for the tab: its socket path names
/// the same location and its tab ID is the same.
pub open spec fn names_tab(
    entry: (Seq<char>, Seq<char>, Preset),
    socket_path: Seq<char>,
    tab_id: Seq<char>,
) -> bool {
    path_components(entry.0) == path_components(socket_path) && entry.1 == tab_id
}

/// The index of the first entry for the tab, among the first `n`.
pub open spec fn entry_index(
    entries: Seq<(Seq<char>, Seq<char>, Preset)>,
    socket_path: Seq<char>,
    tab_id: Seq<char>,
    n: nat,
) -> Option<int>
    decreases n,
{
    if n == 0 {
        None
    } else {
        match entry_index(entries, socket_path, tab_id, (n - 1) as nat) {
            Some(i) => Some(i),
            None => if names_tab(entries[n - 1], socket_path, tab_id) {
                Some(n - 1)
            } else {
                None
            },
        }
    }
}

/// The preset remembered for the tab, from its first entry.
pub open spec fn lookup(
    entries: Seq<(Seq<char>, Seq<char>, Preset)>,
    socket_path: Seq<char>,
    tab_id: Seq<char>,
) -> Option<Preset> {
    match entry_index(entries, socket_path, tab_id, entries.len()) {
        Some(i) => Some(entries[i].2),
        None => None,
    }
}

/// The entries after remembering `preset` for the tab: its first entry keeps
/// its socket path and tab ID and takes the preset, or a new entry is
/// appended.
pub open spec fn remembered(
    entries: Seq<(Seq<char>, Seq<char>, Preset)>,
    socket_path: Seq<char>,
    tab_id: Seq<char>,
    preset: Preset,
) -> Seq<(Seq<char>, Seq<char>, Preset)> {
    match entry_index(entries, socket_path, tab_id, entries.len()) {
        Some(i) => entries.update(i, (entries[i].0, entries[i].1, preset)),
        None => entries.push((socket_path, tab_id, preset)),
    }
}

impl View for State {
    type V = Seq<(Seq<char>, Seq<char>, Preset)>;

    open spec fn view(&self) -> Seq<(Seq<char>, Seq<char>, Preset)> {
        self.last_layouts@.map_values(|entry: LastLayout| entry_view(entry))
    }
}

fn same_tab(entry: &LastLayout, socket_path: &str, tab_id: &str) -> (same: bool)
    ensures
        same == names_tab(entry_view(*entry), socket_path@, tab_id@),
{
    same_path(entry.socket_path.as_str(), socket_path) && same_text(entry.tab_id.as_str(), tab_id)
}

impl State {
    /// The first entry index for the tab, if any.
    fn find(&self, socket_path: &str, tab_id: &str) -> (index: Option<usize>)
        ensures
            match (index, entry_index(self@, socket_path@, tab_id@, self@.len())) {
                (Some(i), Some(j)) => i == j,
                (None, None) => true,
                _ => false,
            },
            index matches Some(i) ==> i < self@.len(),
    {
        let mut i: usize = 0;
        while i < self.last_layouts.len()
            invariant
                i <= self@.len(),
                self@.len() == self.last_layouts@.len(),
                entry_index(self@, socket_path@, tab_id@, i as nat) is None,
            decreases self@.len() - i,
        {
            proof {
                assert(self@[i as int] == entry_view(self.last_layouts@[i as int]));
            }
            if same_tab(&self.last_layouts[i], socket_path, tab_id) {
                proof {
                    lemma_entry_index_stable(self@, socket_path@, tab_id@, (i + 1) as nat, self@.len());
                }
                return Some(i);
            }
            i = i + 1;
        }
        None
    }

    /// The preset last applied to the tab, if any.
    pub fn get(&self, socket_path: &str, tab_id: &str) -> (preset: Option<Preset>)
        ensures
            preset == lookup(self@, socket_path@, tab_id@),
    {
        match self.find(socket_path, tab_id) {
            Some(i) => Some(self.last_layouts[i].preset),
            None => None,
        }
    }

    /// Remembers `preset` for the tab.
    pub fn set(&mut self, socket_path: &str, tab_id: &str, preset: Preset)
        ensures
            final(self)@ == remembered(old(self)@, socket_path@, tab_id@, preset),
    {
        match self.find(socket_path, tab_id) {
            Some(i) => {
                let entry = LastLayout {
                    socket_path: self.last_layouts[i].socket_path.clone(),
                    tab_id: self.last_layouts[i].tab_id.clone(),
                    preset,
                };
                self.last_layouts.set(i, entry);
            },
            None => {
                self.last_layouts.push(
                    LastLayout {
                        socket_path: socket_path.to_owned(),
                        tab_id: tab_id.to_owned(),
                        preset,
                    },
                );
            },
        }
        proof {
            assert(self@ =~= remembered(old(self)@, socket_path@, tab_id@, preset));
        }
    }
}

proof fn lemma_entry_index_stable(
    entries: Seq<(Seq<char>, Seq<char>, Preset)>,
    socket_path: Seq<char>,
    tab_id: Seq<char>,
    n: nat,
    m: nat,
)
    requires
        n <= m,
        entry_index(entries, socket_path, tab_id, n) is Some,
    ensures
        entry_index(entries, socket_path, tab_id, m) == entry_index(entries, socket_path, tab_id, n),
    decreases m - n,
{
    if n < m {
        lemma_entry_index_stable(entries, socket_path, tab_id, n, (m - 1) as nat);
    }
}

proof fn lemma_entry_index_found(
    entries: Seq<(Seq<char>, Seq<char>, Preset)>,
    socket_path: Seq<char>,
    tab_id: Seq<char>,
    n: nat,
)
    requires
        n <= entries.len(),
    ensures
        entry_index(entries, socket_path, tab_id, n) matches Some(i) ==> 0 <= i < n
            && names_tab(entries[i], socket_path, tab_id) && forall|j: int|
            0 <= j < i ==> !names_tab(entries[j], socket_path, tab_id),
        entry_index(entries, socket_path, tab_id, n) is None ==> forall|j: int|
            0 <= j < n ==> !names_tab(entries[j], socket_path, tab_id),
    decreases n,
{
    if n > 0 {
        lemma_entry_index_found(entries, socket_path, tab_id, (n - 1) as nat);
    }
}

proof fn lemma_entry_index_unique(
    entries: Seq<(Seq<char>, Seq<char>, Preset)>,
    socket_path: Seq<char>,
    tab_id: Seq<char>,
    i: int,
)
    requires
        0 <= i < entries.len(),
        names_tab(entries[i], socket_path, tab_id),
        forall|j: int| 0 <= j < i ==> !names_tab(entries[j], socket_path, tab_id),
    ensures
        entry_index(entries, socket_path, tab_id, entries.len()) == Some(i),
{
    lemma_entry_index_found(entries, socket_path, tab_id, entries.len());
    let found = entry_index(entries, socket_path, tab_id, entries.len());
    if found is None {
        assert(!(names_tab(entries[i], socket_path, tab_id)));
    }
}

/// Reading back what was remembered: after remembering a preset for a tab,
/// that tab's lookup gives the preset, and every other tab (on a socket path
/// that names another location, or another tab of the same server) keeps
/// its lookup.
pub proof fn lemma_remember_then_lookup(
    entries: Seq<(Seq<char>, Seq<char>, Preset)>,
    socket_path: Seq<char>,
    tab_id: Seq<char>,
    preset: Preset,
    other_socket: Seq<char>,
    other_tab: Seq<char>,
)
    ensures
        lookup(remembered(entries, socket_path, tab_id, preset), socket_path, tab_id) == Some(
            preset,
        ),
        !names_tab((other_socket, other_tab, preset), socket_path, tab_id) ==> lookup(
            remembered(entries, socket_path, tab_id, preset),
            other_socket,
            other_tab,
        ) == lookup(entries, other_socket, other_tab),
{
    let after = remembered(entries, socket_path, tab_id, preset);
    lemma_entry_index_found(entries, socket_path, tab_id, entries.len());
    lemma_entry_index_found(entries, other_socket, other_tab, entries.len());
    lemma_entry_index_found(after, other_socket, other_tab, after.len());
    match entry_index(entries, socket_path, tab_id, entries.len()) {
        Some(i) => {
            lemma_entry_index_unique(after, socket_path, tab_id, i);
        },
        None => {
            lemma_entry_index_unique(after, socket_path, tab_id, entries.len() as int);
        },
    }
    if !names_tab((other_socket, other_tab, preset), socket_path, tab_id) {
        match entry_index(entries, other_socket, other_tab, entries.len()) {
            Some(k) => {
                lemma_entry_index_unique(after, other_socket, other_tab, k);
            },
            None => {
                assert(forall|j: int|
                    0 <= j < after.len() ==> !names_tab(after[j], other_socket, other_tab));
            },
        }
    }
}

/// One leaf per pane ID, in order.
pub open spec fn leaves(ids: Seq<Seq<char>>) -> Seq<Tree> {
    ids.map_values(|id: Seq<char>| Tree::Pane { id })
}

/// The ratio of an even split whose first part holds `first` of `total`
/// items: the single-precision quotient `first / total`.
pub open spec fn even_ratio(first: nat, total: nat) -> u32 {
    count_ratio_pattern(first, total) as u32
}

/// The size of the first half of `count` items: the larger half.
pub open spec fn first_half(count: nat) -> nat {
    count / 2 + count % 2
}

/// `nodes` arranged as a balanced chain of splits along `direction`, each
/// split sized by the share of items on its first side.
pub open spec fn even_tree(nodes: Seq<Tree>, direction: SplitDirection) -> Tree
    decreases nodes.len(),
{
    if nodes.len() <= 1 {
        nodes[0]
    } else {
        let count = nodes.len();
        let k = first_half(count);
        Tree::Split {
            direction,
            ratio: even_ratio(k, count),
            first: Box::new(even_tree(nodes.take(k as int), direction)),
            second: Box::new(even_tree(nodes.skip(k as int), direction)),
        }
    }
}

/// The first node as the main pane along `direction` at `ratio`, beside the
/// rest arranged evenly across the other axis.
pub open spec fn main_tree(nodes: Seq<Tree>, direction: SplitDirection, ratio: u32) -> Tree {
    Tree::Split {
        direction,
        ratio,
        first: Box::new(nodes[0]),
        second: Box::new(even_tree(nodes.skip(1), direction.spec_flipped())),
    }
}

/// tmux's tiled grid growth: add a row, then a column if the grid is still
/// too small, until `rows * columns` cells hold `count` panes.
pub open spec fn grid_from(rows: nat, columns: nat, count: nat) -> (nat, nat)
    decreases (if rows * columns < count {
        count - rows * columns
    } else {
        0
    }),
{
    if rows * columns >= count || columns == 0 {
        (rows, columns)
    } else {
        proof {
            assert((rows + 1) * columns == rows * columns + columns) by (nonlinear_arith);
            assert((rows + 1) * (columns + 1) == (rows + 1) * columns + rows + 1)
                by (nonlinear_arith);
        }
        if (rows + 1) * columns < count {
            grid_from(rows + 1, columns + 1, count)
        } else {
            grid_from(rows + 1, columns, count)
        }
    }
}

/// The rows and columns of the tiled grid for `count` panes.
pub open spec fn grid(count: nat) -> (nat, nat) {
    grid_from(1, 1, count)
}

/// The items of row `row` of a grid with `columns` columns.
pub open spec fn grid_row(nodes: Seq<Tree>, columns: nat, row: int) -> Seq<Tree> {
    let start = row * columns;
    let end = if (row + 1) * columns < nodes.len() {
        (row + 1) * columns
    } else {
        nodes.len() as int
    };
    nodes.subrange(start, end)
}

/// Each grid row's items spread rightward.
pub open spec fn row_trees(nodes: Seq<Tree>, rows: nat, columns: nat) -> Seq<Tree> {
    Seq::new(rows, |r: int| even_tree(grid_row(nodes, columns, r), SplitDirection::Right))
}

/// The nodes as grid rows stacked downward, each row spread rightward.
pub open spec fn tiled_tree(nodes: Seq<Tree>) -> Tree {
    let (rows, columns) = grid(nodes.len());
    even_tree(row_trees(nodes, rows, columns), SplitDirection::Down)
}

/// The tree a preset builds from pane IDs in layout order; `main_ratio` sizes
/// the main pane of the main presets.
pub open spec fn built(preset: Preset, ids: Seq<Seq<char>>, main_ratio: u32) -> Tree {
    let nodes = leaves(ids);
    if ids.len() == 1 {
        nodes[0]
    } else {
        match preset {
            Preset::EvenHorizontal => even_tree(nodes, SplitDirection::Right),
            Preset::EvenVertical => even_tree(nodes, SplitDirection::Down),
            Preset::MainHorizontal => main_tree(nodes, SplitDirection::Down, main_ratio),
            Preset::MainVertical => main_tree(nodes, SplitDirection::Right, main_ratio),
            Preset::Tiled => tiled_tree(nodes),
        }
    }
}

fn split(direction: SplitDirection, ratio: Ratio, first: Node, second: Node) -> (node: Node)
    ensures
        node@ == (Tree::Split {
            direction,
            ratio: ratio.pattern(),
            first: Box::new(first@),
            second: Box::new(second@),
        }),
{
    Node::Split { direction, ratio, first: Box::new(first), second: Box::new(second) }
}

fn even(nodes: Vec<Node>, direction: SplitDirection) -> (node: Node)
    requires
        nodes@.len() >= 1,
    ensures
        node@ == even_tree(nodes.deep_view(), direction),
    decreases nodes@.len(),
{
    let mut nodes = nodes;
    let ghost model = nodes.deep_view();
    let count = nodes.len();
    if count == 1 {
        let node = nodes.pop().unwrap();
        proof {
            assert(model[0] == node@);
        }
        return node;
    }
    let k = count / 2 + count % 2;
    let second = nodes.split_off(k);
    let bits = count_ratio_exec(k, count);
    let ratio = Ratio::new(bits).unwrap();
    proof {
        assert(nodes.deep_view() =~= model.take(k as int));
        assert(second.deep_view() =~= model.skip(k as int));
        assert(ratio.pattern() == even_ratio(k as nat, count as nat));
    }
    let first_node = even(nodes, direction);
    let second_node = even(second, direction);
    split(direction, ratio, first_node, second_node)
}

fn main(panes: Vec<Node>, direction: SplitDirection, main_ratio: Ratio) -> (node: Node)
    requires
        panes@.len() >= 2,
    ensures
        node@ == main_tree(panes.deep_view(), direction, main_ratio.pattern()),
{
    let mut panes = panes;
    let ghost model = panes.deep_view();
    let others = panes.split_off(1);
    let main_pane = panes.pop().unwrap();
    proof {
        assert(others.deep_view() =~= model.skip(1));
        assert(main_pane@ == model[0]);
    }
    let rest = even(others, direction.flipped());
    split(direction, main_ratio, main_pane, rest)
}

fn fewer_cells(rows: usize, columns: usize, count: usize) -> (fewer: bool)
    ensures
        fewer == (rows * columns < count),
{
    assert((rows as u128) * (columns as u128) <= 0xFFFF_FFFF_FFFF_FFFF * 0xFFFF_FFFF_FFFF_FFFF)
        by (nonlinear_arith)
        requires
            rows <= 0xFFFF_FFFF_FFFF_FFFF,
            columns <= 0xFFFF_FFFF_FFFF_FFFF,
    ;
    (rows as u128) * (columns as u128) < count as u128
}

fn grid_exec(count: usize) -> (dimensions: (usize, usize))
    requires
        count >= 1,
    ensures
        dimensions.0 == grid(count as nat).0,
        dimensions.1 == grid(count as nat).1,
        dimensions.0 >= 1,
        dimensions.1 >= 1,
        dimensions.0 * dimensions.1 >= count,
        (dimensions.0 - 1) * dimensions.1 < count,
{
    let mut rows: usize = 1;
    let mut columns: usize = 1;
    while fewer_cells(rows, columns, count)
        invariant
            count >= 1,
            1 <= columns <= rows <= count,
            rows == columns || rows * columns >= count,
            (rows - 1) * columns < count,
            grid(count as nat) == grid_from(rows as nat, columns as nat, count as nat),
        decreases count - rows,
    {
        proof {
            assert(rows == columns);
            assert((rows + 1) * columns == rows * columns + columns) by (nonlinear_arith);
            assert((rows + 1) * (columns + 1) == (rows + 1) * columns + rows + 1)
                by (nonlinear_arith);
            assert(rows * columns >= rows) by (nonlinear_arith)
                requires
                    columns >= 1,
            ;
        }
        rows = rows + 1;
        if fewer_cells(rows, columns, count) {
            columns = columns + 1;
            proof {
                assert((rows - 1) * columns == (rows - 1) * (columns - 1) + rows - 1)
                    by (nonlinear_arith);
            }
        }
    }
    (rows, columns)
}

fn tiled(panes: Vec<Node>) -> (node: Node)
    requires
        panes@.len() >= 1,
    ensures
        node@ == tiled_tree(panes.deep_view()),
{
    let ghost model = panes.deep_view();
    let count = panes.len();
    let (rows, columns) = grid_exec(count);
    let mut rest = panes;
    let mut row_nodes: Vec<Node> = Vec::new();
    let mut r: usize = 0;
    while r < rows
        invariant
            model.len() == count,
            rows >= 1,
            columns >= 1,
            rows * columns >= count,
            (rows - 1) * columns < count,
            r <= rows,
            r * columns <= count || r == rows,
            r < rows ==> rest.deep_view() == model.skip(r * columns),
            row_nodes@.len() == r,
            forall|i: int|
                0 <= i < r ==> (#[trigger] row_nodes@[i])@ == even_tree(
                    grid_row(model, columns as nat, i),
                    SplitDirection::Right,
                ),
        decreases rows - r,
    {
        proof {
            assert(r * columns < count) by (nonlinear_arith)
                requires
                    r < rows,
                    (rows - 1) * columns < count,
                    columns >= 1,
            ;
            assert((r + 1) * columns == r * columns + columns) by (nonlinear_arith);
        }
        let take = if columns < rest.len() {
            columns
        } else {
            rest.len()
        };
        let ghost before = rest.deep_view();
        assert(before.len() == count - r * columns);
        let remainder = rest.split_off(take);
        let ghost row_model = rest.deep_view();
        assert(row_model =~= before.take(take as int));
        assert(remainder.deep_view() =~= before.skip(take as int));
        proof {
            assert(row_model =~= grid_row(model, columns as nat, r as int));
        }
        let row = even(rest, SplitDirection::Right);
        row_nodes.push(row);
        rest = remainder;
        proof {
            if r + 1 < rows {
                assert((r + 1) * columns <= count) by (nonlinear_arith)
                    requires
                        r + 1 < rows,
                        (rows - 1) * columns < count,
                        columns >= 1,
                ;
                assert(take == columns);
                assert(rest.deep_view() =~= model.skip((r + 1) * columns));
            }
        }
        r = r + 1;
    }
    proof {
        let expected = row_trees(model, rows as nat, columns as nat);
        assert(row_nodes.deep_view() =~= expected);
        assert(grid(model.len()) == (rows as nat, columns as nat));
    }
    even(row_nodes, SplitDirection::Down)
}

fn pane(id: String) -> (node: Node)
    ensures
        node@ == (Tree::Pane { id: id@ }),
{
    Node::Pane { id }
}

/// Builds the tree for `preset` from pane IDs in layout order.
fn build(preset: Preset, pane_ids: Vec<String>, main_ratio: Ratio) -> (node: Node)
    requires
        pane_ids@.len() >= 1,
    ensures
        node@ == built(preset, pane_ids.deep_view(), main_ratio.pattern()),
{
    let ghost ids = pane_ids.deep_view();
    let mut panes: Vec<Node> = Vec::new();
    let mut i: usize = 0;
    while i < pane_ids.len()
        invariant
            i <= pane_ids@.len(),
            ids == pane_ids.deep_view(),
            panes.deep_view() == leaves(ids).take(i as int),
        decreases pane_ids@.len() - i,
    {
        proof {
            assert(pane_ids@[i as int]@ == ids[i as int]);
        }
        let ghost before = panes.deep_view();
        let leaf = pane(pane_ids[i].clone());
        panes.push(leaf);
        i = i + 1;
        proof {
            assert(panes.deep_view() =~= before.push(leaf@));
            assert(leaves(ids)[i - 1] == Tree::Pane { id: ids[i - 1] });
            assert(panes.deep_view() =~= leaves(ids).take(i as int));
        }
    }
    proof {
        assert(panes.deep_view() =~= leaves(ids));
    }
    if panes.len() == 1 {
        let node = panes.pop().unwrap();
        return node;
    }
    match preset {
        Preset::EvenHorizontal => even(panes, SplitDirection::Right),
        Preset::EvenVertical => even(panes, SplitDirection::Down),
        Preset::MainHorizontal => main(panes, SplitDirection::Down, main_ratio),
        Preset::MainVertical => main(panes, SplitDirection::Right, main_ratio),
        Preset::Tiled => tiled(panes),
    }
}

/// The layout that `preset` gives `original`: every field but the tree is
/// kept, and the tree is rebuilt from the panes in layout order.
pub open spec fn transformed(original: LayoutView, preset: Preset, main_ratio: u32) -> LayoutView {
    LayoutView { root: built(preset, panes(original.root), main_ratio), ..original }
}

/// Rearranges `original`'s panes, in layout order, into `preset`.
pub fn transform(original: &Layout, preset: Preset, main_ratio: Ratio) -> (desired: Layout)
    ensures
        desired@ == transformed(original@, preset, main_ratio.pattern()),
{
    let mut pane_ids: Vec<String> = Vec::new();
    original.root.collect_panes(&mut pane_ids);
    proof {
        assert(pane_ids.deep_view() =~= panes(original.root@));
        crate::tree::lemma_panes_nonempty(original.root@);
    }
    let root = build(preset, pane_ids, main_ratio);
    Layout {
        workspace_id: original.workspace_id.clone(),
        tab_id: original.tab_id.clone(),
        zoomed: original.zoomed,
        focused_pane_id: original.focused_pane_id.clone(),
        root,
    }
}


/// The pane IDs of a sequence of trees, in order.
pub open spec fn all_panes(nodes: Seq<Tree>) -> Seq<Seq<char>>
    decreases nodes.len(),
{
    if nodes.len() == 0 {
        seq![]
    } else {
        all_panes(nodes.drop_last()) + panes(nodes.last())
    }
}

proof fn lemma_all_panes_concat(a: Seq<Tree>, b: Seq<Tree>)
    ensures
        all_panes(a + b) == all_panes(a) + all_panes(b),
    decreases b.len(),
{
    if b.len() == 0 {
        assert(a + b =~= a);
        assert(all_panes(a) + seq![] =~= all_panes(a));
    } else {
        assert((a + b).drop_last() =~= a + b.drop_last());
        assert((a + b).last() == b.last());
        lemma_all_panes_concat(a, b.drop_last());
        assert(all_panes(a + b) =~= all_panes(a) + all_panes(b));
    }
}

proof fn lemma_all_panes_single(node: Tree)
    ensures
        all_panes(seq![node]) == panes(node),
{
    assert(seq![node].drop_last() =~= Seq::<Tree>::empty());
    assert(all_panes(Seq::<Tree>::empty()) + panes(node) =~= panes(node));
}

proof fn lemma_even_panes(nodes: Seq<Tree>, direction: SplitDirection)
    requires
        nodes.len() >= 1,
    ensures
        panes(even_tree(nodes, direction)) == all_panes(nodes),
    decreases nodes.len(),
{
    if nodes.len() == 1 {
        assert(nodes =~= seq![nodes[0]]);
        lemma_all_panes_single(nodes[0]);
    } else {
        let k = first_half(nodes.len()) as int;
        lemma_even_panes(nodes.take(k), direction);
        lemma_even_panes(nodes.skip(k), direction);
        assert(nodes =~= nodes.take(k) + nodes.skip(k));
        lemma_all_panes_concat(nodes.take(k), nodes.skip(k));
    }
}

proof fn lemma_leaves_panes(ids: Seq<Seq<char>>)
    ensures
        all_panes(leaves(ids)) == ids,
    decreases ids.len(),
{
    if ids.len() > 0 {
        assert(leaves(ids).drop_last() =~= leaves(ids.drop_last()));
        lemma_leaves_panes(ids.drop_last());
        assert(panes(leaves(ids).last()) == seq![ids.last()]);
        assert(ids.drop_last() + seq![ids.last()] =~= ids);
    }
}

proof fn lemma_grid_from(rows: nat, columns: nat, count: nat)
    requires
        1 <= columns <= rows,
        rows == columns || rows * columns >= count,
        (rows - 1) * columns < count,
    ensures
        grid_from(rows, columns, count).0 >= 1,
        grid_from(rows, columns, count).1 >= 1,
        grid_from(rows, columns, count).0 * grid_from(rows, columns, count).1 >= count,
        (grid_from(rows, columns, count).0 - 1) * grid_from(rows, columns, count).1 < count,
    decreases (if rows * columns < count {
        count - rows * columns
    } else {
        0
    }),
{
    if rows * columns < count {
        assert((rows + 1) * columns == rows * columns + columns) by (nonlinear_arith);
        assert((rows + 1) * (columns + 1) == (rows + 1) * columns + rows + 1)
            by (nonlinear_arith);
        if (rows + 1) * columns < count {
            assert(((rows + 1) - 1) * (columns + 1) == rows * columns + rows)
                by (nonlinear_arith);
            lemma_grid_from(rows + 1, columns + 1, count);
        } else {
            lemma_grid_from(rows + 1, columns, count);
        }
    }
}

proof fn lemma_grid_rows(nodes: Seq<Tree>, rows: nat, columns: nat, j: nat)
    requires
        rows >= 1,
        columns >= 1,
        rows * columns >= nodes.len(),
        (rows - 1) * columns < nodes.len(),
        j <= rows,
    ensures
        all_panes(row_trees(nodes, rows, columns).take(j as int)) == all_panes(nodes.take(if j * columns < nodes.len() {
            (j * columns) as int
        } else {
            nodes.len() as int
        })),
    decreases j,
{
    let row_trees = row_trees(nodes, rows, columns);
    if j == 0 {
        assert(j * columns == 0) by (nonlinear_arith)
            requires
                j == 0,
        ;
        assert(row_trees.take(0) =~= Seq::<Tree>::empty());
        assert(nodes.take(0) =~= Seq::<Tree>::empty());
    } else {
        let r = j - 1;
        lemma_grid_rows(nodes, rows, columns, r as nat);
        assert(r * columns < nodes.len()) by (nonlinear_arith)
            requires
                r < rows,
                (rows - 1) * columns < nodes.len(),
                columns >= 1,
        ;
        assert(j * columns == r * columns + columns) by (nonlinear_arith)
            requires
                j == r + 1,
        ;
        let row = grid_row(nodes, columns, r as int);
        assert(row.len() >= 1);
        lemma_even_panes(row, SplitDirection::Right);
        assert(row_trees.take(j as int) =~= row_trees.take(r as int).push(row_trees[r as int]));
        assert(row_trees.take(j as int).drop_last() =~= row_trees.take(r as int));
        let end = if j * columns < nodes.len() {
            (j * columns) as int
        } else {
            nodes.len() as int
        };
        assert(nodes.take(end) =~= nodes.take((r * columns) as int) + row);
        lemma_all_panes_concat(nodes.take((r * columns) as int), row);
        assert(row_trees.take(j as int).last() == row_trees[r as int]);
        assert(row_trees[r as int] == even_tree(row, SplitDirection::Right));
        assert(all_panes(row_trees.take(j as int)) == all_panes(row_trees.take(r as int)) + panes(
            row_trees[r as int],
        ));
        assert(all_panes(row_trees.take(r as int)) == all_panes(
            nodes.take((r * columns) as int),
        ));
        assert(all_panes(row_trees.take(j as int)) == all_panes(nodes.take(end)));
    }
}

proof fn lemma_tiled_panes(nodes: Seq<Tree>)
    requires
        nodes.len() >= 1,
    ensures
        panes(tiled_tree(nodes)) == all_panes(nodes),
{
    let (rows, columns) = grid(nodes.len());
    lemma_grid_from(1, 1, nodes.len());
    let row_trees = row_trees(nodes, rows, columns);
    lemma_grid_rows(nodes, rows, columns, rows);
    assert(row_trees.take(rows as int) =~= row_trees);
    assert(nodes.take(nodes.len() as int) =~= nodes);
    lemma_even_panes(row_trees, SplitDirection::Down);
}

/// Every preset keeps the panes in layout order: reading the built tree's
/// leaves left to right gives back the pane IDs it was built from.
pub proof fn lemma_presets_keep_pane_order(preset: Preset, ids: Seq<Seq<char>>, main_ratio: u32)
    requires
        ids.len() >= 1,
    ensures
        panes(built(preset, ids, main_ratio)) == ids,
{
    let nodes = leaves(ids);
    lemma_leaves_panes(ids);
    if ids.len() == 1 {
        assert(panes(nodes[0]) == seq![ids[0]]);
        assert(seq![ids[0]] =~= ids);
    } else {
        match preset {
            Preset::EvenHorizontal => lemma_even_panes(nodes, SplitDirection::Right),
            Preset::EvenVertical => lemma_even_panes(nodes, SplitDirection::Down),
            Preset::MainHorizontal | Preset::MainVertical => {
                let direction = if preset == Preset::MainHorizontal {
                    SplitDirection::Down
                } else {
                    SplitDirection::Right
                };
                lemma_even_panes(nodes.skip(1), direction.spec_flipped());
                assert(nodes =~= seq![nodes[0]] + nodes.skip(1));
                lemma_all_panes_concat(seq![nodes[0]], nodes.skip(1));
                lemma_all_panes_single(nodes[0]);
            },
            Preset::Tiled => lemma_tiled_panes(nodes),
        }
    }
}

/// A preset rearranges only the tree: the tab, workspace, focus and zoom
/// state stay, the panes keep their layout order, and a tab holding a
/// single pane comes back unchanged.
pub proof fn lemma_transform_keeps_tab(original: LayoutView, preset: Preset, main_ratio: u32)
    ensures
        transformed(original, preset, main_ratio).workspace_id == original.workspace_id,
        transformed(original, preset, main_ratio).tab_id == original.tab_id,
        transformed(original, preset, main_ratio).zoomed == original.zoomed,
        transformed(original, preset, main_ratio).focused_pane_id == original.focused_pane_id,
        panes(transformed(original, preset, main_ratio).root) == panes(original.root),
        panes(original.root).len() == 1 ==> transformed(original, preset, main_ratio) == original,
{
    lemma_panes_nonempty(original.root);
    lemma_presets_keep_pane_order(preset, panes(original.root), main_ratio);
    if panes(original.root).len() == 1 {
        if let Tree::Split { first, second, .. } = original.root {
            lemma_panes_nonempty(*first);
            lemma_panes_nonempty(*second);
        }
        assert(original.root is Pane);
    }
}

} // verus!

verus! {

/// The preset a layout action applies: the requested one, or, for `cycle`,
/// the one after the tab's remembered preset.
pub open spec fn chosen_preset(
    requested: Option<Preset>,
    cycle: Seq<Preset>,
    remembered_preset: Option<Preset>,
) -> Preset {
    match requested {
        Some(preset) => preset,
        None => following(cycle, remembered_preset),
    }
}

/// Decides a layout action for the exported tab `original`: the preset to
/// apply and remember, and the layout to rebuild, which is `None` when the
/// tab already has the preset's tree.
pub fn plan_layout(
    requested: Option<Preset>,
    cycle: &[Preset],
    remembered_preset: Option<Preset>,
    original: &Layout,
    main_ratio: Ratio,
) -> (decision: (Preset, Option<Layout>))
    requires
        cycle@.len() >= 1,
    ensures
        decision.0 == chosen_preset(requested, cycle@, remembered_preset),
        ({
            let desired = transformed(original@, decision.0, main_ratio.pattern());
            match decision.1 {
                Some(layout) => layout@ == desired && !same_tree(desired.root, original@.root),
                None => same_tree(desired.root, original@.root),
            }
        }),
{
    let preset = match requested {
        Some(preset) => preset,
        None => next_preset(cycle, remembered_preset),
    };
    let desired = transform(original, preset, main_ratio);
    if desired.root.same_as(&original.root) {
        (preset, None)
    } else {
        (preset, Some(desired))
    }
}

} // verus!

verus! {

/// Whether every split of `tree` has a ratio pattern in `low..=high`.
pub open spec fn ratios_within(tree: Tree, low: u32, high: u32) -> bool
    decreases tree,
{
    match tree {
        Tree::Pane { .. } => true,
        Tree::Split { ratio, first, second, .. } => low <= ratio <= high && ratios_within(
            *first,
            low,
            high,
        ) && ratios_within(*second, low, high),
    }
}

proof fn lemma_even_tree_ratios(nodes: Seq<Tree>, direction: SplitDirection)
    requires
        1 <= nodes.len() < 0x100_0000,
        forall|i: int| 0 <= i < nodes.len() ==> #[trigger] nodes[i] is Pane,
    ensures
        ratios_within(even_tree(nodes, direction), 0x3F00_0000, 0x3F2A_AAAB),
    decreases nodes.len(),
{
    if nodes.len() > 1 {
        let count = nodes.len();
        let k = first_half(count);
        lemma_count_ratio_between_half_and_two_thirds(k, count);
        let first = nodes.take(k as int);
        let second = nodes.skip(k as int);
        assert forall|i: int| 0 <= i < first.len() implies #[trigger] first[i] is Pane by {
            assert(first[i] == nodes[i]);
        }
        assert forall|i: int| 0 <= i < second.len() implies #[trigger] second[i] is Pane by {
            assert(second[i] == nodes[i + k]);
        }
        lemma_even_tree_ratios(first, direction);
        lemma_even_tree_ratios(second, direction);
    } else {
        assert(nodes[0] is Pane);
    }
}

/// Even layouts never make small splits: every split of an even preset's
/// tree gives its first part between half and two thirds of the space (the
/// single-precision patterns of `0.5` and `2/3`), for any tab of fewer than
/// `2^24` panes.
pub proof fn lemma_even_presets_split_between_half_and_two_thirds(
    preset: Preset,
    ids: Seq<Seq<char>>,
    main_ratio: u32,
)
    requires
        preset == Preset::EvenHorizontal || preset == Preset::EvenVertical,
        1 <= ids.len() < 0x100_0000,
    ensures
        ratios_within(built(preset, ids, main_ratio), 0x3F00_0000, 0x3F2A_AAAB),
{
    let nodes = leaves(ids);
    assert forall|i: int| 0 <= i < nodes.len() implies #[trigger] nodes[i] is Pane by {}
    if ids.len() > 1 {
        if preset == Preset::EvenHorizontal {
            lemma_even_tree_ratios(nodes, SplitDirection::Right);
        } else {
            lemma_even_tree_ratios(nodes, SplitDirection::Down);
        }
    }
}

} // verus!

verus! {

/// The preset that `cycle` reaches after `k` further steps, starting from a
/// tab with no remembered preset.
pub open spec fn cycled(cycle: Seq<Preset>, k: nat) -> Preset
    decreases k,
{
    if k == 0 {
        following(cycle, None)
    } else {
        following(cycle, Some(cycled(cycle, (k - 1) as nat)))
    }
}

proof fn lemma_first_index_of_member(cycle: Seq<Preset>, i: int, n: nat)
    requires
        cycle.no_duplicates(),
        0 <= i < cycle.len(),
        n <= cycle.len(),
    ensures
        first_index(cycle, cycle[i], n) == (if i < n {
            Some(i)
        } else {
            None::<int>
        }),
    decreases n,
{
    if n > 0 {
        lemma_first_index_of_member(cycle, i, (n - 1) as nat);
    }
}

/// Cycling steps through the configured presets in order and wraps around:
/// from a tab with no remembered preset, the `k`-th cycle applies
/// `cycle[k % cycle.len()]`, when the cycle has no repeats.
pub proof fn lemma_cycle_enumerates(cycle: Seq<Preset>, k: nat)
    requires
        cycle.len() >= 1,
        cycle.no_duplicates(),
    ensures
        cycled(cycle, k) == cycle[(k % cycle.len()) as int],
    decreases k,
{
    let len = cycle.len();
    if k == 0 {
        assert(0nat % len == 0) by (nonlinear_arith)
            requires
                len >= 1,
        ;
    } else {
        lemma_cycle_enumerates(cycle, (k - 1) as nat);
        let j = ((k - 1) as nat % len) as int;
        assert(0 <= j < len) by (nonlinear_arith)
            requires
                len >= 1,
                j == ((k - 1) as nat % len) as int,
        ;
        lemma_first_index_of_member(cycle, j, len);
        assert(((j + 1) % (len as int)) == (k % len) as int) by (nonlinear_arith)
            requires
                len >= 1,
                k >= 1,
                j == ((k - 1) as nat % len) as int,
        ;
    }
}

} // verus!
