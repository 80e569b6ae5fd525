//! The deterministic command sequence that rebuilds a pane tree.

use crate::tree::{first_pane, lemma_panes_nonempty, panes, split_count, Layout, LayoutView, Node, Ratio, SplitDirection, Tree};
use vstd::prelude::*;

verus! {

/// One deterministic Herdr mutation in a rebuild plan.
#[derive(Clone, Debug, PartialEq)]
pub enum Command {
    /// Moves the first parked pane into a newly created scratch tab.
    OpenScratch { pane_id: String },
    /// Moves another pane beside the scratch tab's anchor.
    Park { pane_id: String, target_pane_id: String },
    /// Moves a pane back beside an already placed pane in the original tab.
    Place { pane_id: String, target_pane_id: String, direction: SplitDirection, ratio: Ratio },
    /// Restores a split ratio after the topology is complete.
    SetRatio { path: Vec<bool>, ratio: Ratio },
    /// Restores pane focus.
    Focus { pane_id: String },
    /// Restores zoom state.
    Zoom { pane_id: String, zoomed: bool },
}

/// The mathematical value of a [`Command`].
pub enum Step {
    OpenScratch { pane_id: Seq<char> },
    Park { pane_id: Seq<char>, target_pane_id: Seq<char> },
    Place { pane_id: Seq<char>, target_pane_id: Seq<char>, direction: SplitDirection, ratio: u32 },
    SetRatio { path: Seq<bool>, ratio: u32 },
    Focus { pane_id: Seq<char> },
    Zoom { pane_id: Seq<char>, zoomed: bool },
}

impl View for Command {
    type V = Step;

    open spec fn view(&self) -> Step {
        match self {
            Command::OpenScratch { pane_id } => Step::OpenScratch { pane_id: pane_id@ },
            Command::Park { pane_id, target_pane_id } => Step::Park {
                pane_id: pane_id@,
                target_pane_id: target_pane_id@,
            },
            Command::Place { pane_id, target_pane_id, direction, ratio } => Step::Place {
                pane_id: pane_id@,
                target_pane_id: target_pane_id@,
                direction: *direction,
                ratio: ratio.pattern(),
            },
            Command::SetRatio { path, ratio } => Step::SetRatio {
                path: path@,
                ratio: ratio.pattern(),
            },
            Command::Focus { pane_id } => Step::Focus { pane_id: pane_id@ },
            Command::Zoom { pane_id, zoomed } => Step::Zoom { pane_id: pane_id@, zoomed: *zoomed },
        }
    }
}

impl DeepView for Command {
    type V = Step;

    open spec fn deep_view(&self) -> Step {
        self@
    }
}

/// A rebuild plan whose command order depends only on the desired tree.
#[derive(Clone, Debug, PartialEq)]
pub struct Plan {
    /// Pane that remains in the original tab while all others are parked.
    pub anchor_pane_id: String,
    /// Commands to execute in order.
    pub commands: Vec<Command>,
}

/// One `Place` per split, in preorder: the second child's first pane goes
/// beside the first child's first pane, along the split's axis and ratio.
pub open spec fn placements(tree: Tree) -> Seq<Step>
    decreases tree,
{
    match tree {
        Tree::Pane { .. } => seq![],
        Tree::Split { direction, ratio, first, second } => seq![
            Step::Place {
                pane_id: first_pane(*second),
                target_pane_id: first_pane(*first),
                direction,
                ratio,
            },
        ] + placements(*first) + placements(*second),
    }
}

/// One `SetRatio` per split, in preorder, addressed by the child path from
/// the root (`false` for the first child, `true` for the second).
pub open spec fn ratio_steps(tree: Tree, path: Seq<bool>) -> Seq<Step>
    decreases tree,
{
    match tree {
        Tree::Pane { .. } => seq![],
        Tree::Split { ratio, first, second, .. } => seq![Step::SetRatio { path, ratio }]
            + ratio_steps(*first, path.push(false)) + ratio_steps(*second, path.push(true)),
    }
}

/// `Park` for every pane after the second, beside the second.
pub open spec fn parking(pane_ids: Seq<Seq<char>>) -> Seq<Step> {
    Seq::new(
        (pane_ids.len() - 2) as nat,
        |i: int| Step::Park { pane_id: pane_ids[i + 2], target_pane_id: pane_ids[1] },
    )
}

/// The full command sequence for a layout whose panes are valid.
pub open spec fn plan_steps(layout: LayoutView) -> Seq<Step> {
    let ids = panes(layout.root);
    let topology = if ids.len() >= 2 {
        seq![
            Step::Zoom { pane_id: layout.focused_pane_id, zoomed: false },
            Step::OpenScratch { pane_id: ids[1] },
        ] + parking(ids) + placements(layout.root) + ratio_steps(layout.root, seq![])
    } else {
        seq![]
    };
    topology + seq![
        Step::Focus { pane_id: layout.focused_pane_id },
        Step::Zoom { pane_id: layout.focused_pane_id, zoomed: layout.zoomed },
    ]
}

/// Why a layout cannot be rebuilt, if it cannot.
pub open spec fn rebuild_refusal(layout: LayoutView) -> Option<Seq<char>> {
    let ids = panes(layout.root);
    if exists|i: int| 0 <= i < ids.len() && (#[trigger] ids[i]).len() == 0 {
        Some("cannot rebuild a tree containing an empty pane ID"@)
    } else if !ids.no_duplicates() {
        Some("cannot rebuild a tree containing duplicate pane IDs"@)
    } else if !ids.contains(layout.focused_pane_id) {
        Some("cannot rebuild a tree whose focused pane is absent"@)
    } else {
        None
    }
}

fn copy_path(path: &Vec<bool>) -> (copy: Vec<bool>)
    ensures
        copy@ == path@,
{
    let mut copy = Vec::new();
    let mut i: usize = 0;
    while i < path.len()
        invariant
            i <= path@.len(),
            copy@ == path@.subrange(0, i as int),
        decreases path@.len() - i,
    {
        copy.push(path[i]);
        i = i + 1;
        proof {
            assert(copy@ =~= path@.subrange(0, i as int));
        }
    }
    proof {
        assert(copy@ =~= path@);
    }
    copy
}

fn plan_placements(node: &Node, commands: &mut Vec<Command>)
    ensures
        final(commands).deep_view() == old(commands).deep_view() + placements(node@),
    decreases node,
{
    match node {
        Node::Pane { .. } => {
            proof {
                assert(final(commands).deep_view() =~= old(commands).deep_view() + placements(
                    node@,
                ));
            }
        },
        Node::Split { direction, ratio, first, second } => {
            let ghost start = commands.deep_view();
            commands.push(
                Command::Place {
                    pane_id: (**second).first_pane().clone(),
                    target_pane_id: (**first).first_pane().clone(),
                    direction: *direction,
                    ratio: *ratio,
                },
            );
            let ghost placed = commands.deep_view();
            proof {
                assert(placed =~= start + seq![
                    Step::Place {
                        pane_id: first_pane((**second)@),
                        target_pane_id: first_pane((**first)@),
                        direction: *direction,
                        ratio: ratio.pattern(),
                    },
                ]);
            }
            plan_placements(&**first, commands);
            plan_placements(&**second, commands);
            proof {
                assert(final(commands).deep_view() =~= old(commands).deep_view() + placements(
                    node@,
                ));
            }
        },
    }
}

fn plan_ratios(node: &Node, path: &mut Vec<bool>, commands: &mut Vec<Command>)
    ensures
        final(path)@ == old(path)@,
        final(commands).deep_view() == old(commands).deep_view() + ratio_steps(
            node@,
            old(path)@,
        ),
    decreases node,
{
    match node {
        Node::Pane { .. } => {
            proof {
                assert(final(commands).deep_view() =~= old(commands).deep_view() + ratio_steps(
                    node@,
                    old(path)@,
                ));
            }
        },
        Node::Split { ratio, first, second, .. } => {
            let ghost start = commands.deep_view();
            let ghost origin = path@;
            commands.push(Command::SetRatio { path: copy_path(path), ratio: *ratio });
            proof {
                assert(commands.deep_view() =~= start + seq![
                    Step::SetRatio { path: origin, ratio: ratio.pattern() },
                ]);
            }
            path.push(false);
            plan_ratios(&**first, path, commands);
            path.pop();
            proof {
                assert(path@ =~= origin);
            }
            path.push(true);
            plan_ratios(&**second, path, commands);
            path.pop();
            proof {
                assert(path@ =~= origin);
                assert(final(commands).deep_view() =~= old(commands).deep_view() + ratio_steps(
                    node@,
                    old(path)@,
                ));
            }
        },
    }
}

/// Compiles a validated layout into a deterministic command sequence.
///
/// # Errors
///
/// Returns an error for an empty pane ID, a duplicate pane ID, or a focused
/// pane that is absent from the tree.
pub fn compile(layout: &Layout) -> (result: Result<Plan, String>)
    ensures
        match result {
            Ok(plan) => {
                &&& rebuild_refusal(layout@) is None
                &&& plan.anchor_pane_id@ == first_pane(layout.root@)
                &&& plan.commands.deep_view() == plan_steps(layout@)
            },
            Err(message) => rebuild_refusal(layout@) == Some(message@),
        },
{
    let mut pane_ids: Vec<String> = Vec::new();
    layout.root.collect_panes(&mut pane_ids);
    let ghost ids = panes(layout.root@);
    proof {
        assert(layout@.root == layout.root@);
        assert(panes(layout@.root) == ids);
        assert(pane_ids.deep_view() =~= ids);
        crate::tree::lemma_panes_nonempty(layout.root@);
    }
    let count = pane_ids.len();
    let mut i: usize = 0;
    while i < count
        invariant
            count == pane_ids@.len(),
            pane_ids.deep_view() == ids,
            ids == panes(layout@.root),
            i <= count,
            forall|j: int| 0 <= j < i ==> (#[trigger] ids[j]).len() != 0,
        decreases count - i,
    {
        proof {
            assert(pane_ids@[i as int]@ == ids[i as int]);
        }
        if pane_ids[i].as_str().is_empty() {
            proof {
                assert(ids[i as int].len() == 0);
            }
            return Err("cannot rebuild a tree containing an empty pane ID".to_owned());
        }
        i = i + 1;
    }
    let mut i: usize = 0;
    while i < count
        invariant
            count == pane_ids@.len(),
            pane_ids.deep_view() == ids,
            ids == panes(layout@.root),
            i <= count,
            forall|a: int, b: int| 0 <= a < b < i ==> ids[a] != ids[b],
            forall|j: int| 0 <= j < count ==> (#[trigger] ids[j]).len() != 0,
        decreases count - i,
    {
        let mut j: usize = 0;
        while j < i
            invariant
                count == pane_ids@.len(),
                pane_ids.deep_view() == ids,
                ids == panes(layout@.root),
                j <= i < count,
                forall|b: int| 0 <= b < j ==> ids[b] != ids[i as int],
                forall|k: int| 0 <= k < count ==> (#[trigger] ids[k]).len() != 0,
            decreases i - j,
        {
            proof {
                assert(pane_ids@[i as int]@ == ids[i as int]);
                assert(pane_ids@[j as int]@ == ids[j as int]);
            }
            if pane_ids[j] == pane_ids[i] {
                proof {
                    assert(ids[j as int] == ids[i as int]);
                    assert(!ids.no_duplicates());
                }
                return Err("cannot rebuild a tree containing duplicate pane IDs".to_owned());
            }
            j = j + 1;
        }
        i = i + 1;
    }
    assert(ids.no_duplicates());
    let mut found = false;
    let mut i: usize = 0;
    while i < count
        invariant
            count == pane_ids@.len(),
            pane_ids.deep_view() == ids,
            ids == panes(layout@.root),
            i <= count,
            found <==> exists|j: int| 0 <= j < i && ids[j] == layout.focused_pane_id@,
        decreases count - i,
    {
        proof {
            assert(pane_ids@[i as int]@ == ids[i as int]);
        }
        if pane_ids[i] == layout.focused_pane_id {
            found = true;
        }
        i = i + 1;
    }
    if !found {
        return Err("cannot rebuild a tree whose focused pane is absent".to_owned());
    }
    let anchor_pane_id = pane_ids[0].clone();
    let mut commands: Vec<Command> = Vec::new();
    if count >= 2 {
        commands.push(Command::Zoom { pane_id: layout.focused_pane_id.clone(), zoomed: false });
        commands.push(Command::OpenScratch { pane_id: pane_ids[1].clone() });
        proof {
            assert(pane_ids@[1]@ == ids[1]);
            assert(commands.deep_view() =~= seq![
                Step::Zoom { pane_id: layout.focused_pane_id@, zoomed: false },
                Step::OpenScratch { pane_id: ids[1] },
            ] + parking(ids).subrange(0, 0));
        }
        let mut k: usize = 2;
        while k < count
            invariant
                2 <= k <= count,
                count == pane_ids@.len(),
                pane_ids.deep_view() == ids,
                commands.deep_view() == seq![
                    Step::Zoom { pane_id: layout.focused_pane_id@, zoomed: false },
                    Step::OpenScratch { pane_id: ids[1] },
                ] + parking(ids).subrange(0, k - 2),
            decreases count - k,
        {
            let ghost before = commands.deep_view();
            proof {
                assert(pane_ids@[k as int]@ == ids[k as int]);
                assert(pane_ids@[1]@ == ids[1]);
            }
            commands.push(
                Command::Park { pane_id: pane_ids[k].clone(), target_pane_id: pane_ids[1].clone() },
            );
            k = k + 1;
            proof {
                assert(commands.deep_view() =~= before.push(parking(ids)[k - 3]));
                assert(commands.deep_view() =~= seq![
                    Step::Zoom { pane_id: layout.focused_pane_id@, zoomed: false },
                    Step::OpenScratch { pane_id: ids[1] },
                ] + parking(ids).subrange(0, k - 2));
            }
        }
        proof {
            assert(parking(ids).subrange(0, count - 2) =~= parking(ids));
        }
        plan_placements(&layout.root, &mut commands);
        let mut path: Vec<bool> = Vec::new();
        plan_ratios(&layout.root, &mut path, &mut commands);
    }
    let ghost before_focus = commands.deep_view();
    commands.push(Command::Focus { pane_id: layout.focused_pane_id.clone() });
    commands.push(Command::Zoom { pane_id: layout.focused_pane_id.clone(), zoomed: layout.zoomed });
    proof {
        assert(commands.deep_view() =~= plan_steps(layout@));
    }
    Ok(Plan { anchor_pane_id, commands })
}


/// `tree` with every leaf `id` replaced by `replacement`.
pub open spec fn substitute(tree: Tree, id: Seq<char>, replacement: Tree) -> Tree
    decreases tree,
{
    match tree {
        Tree::Pane { id: leaf } => if leaf == id {
            replacement
        } else {
            tree
        },
        Tree::Split { direction, ratio, first, second } => Tree::Split {
            direction,
            ratio,
            first: Box::new(substitute(*first, id, replacement)),
            second: Box::new(substitute(*second, id, replacement)),
        },
    }
}

/// The effect of one step on the original tab's tree, reading `Place` as
/// Herdr's `pane.move` beside a target: the target leaf becomes a split whose
/// first child is the target and whose second child is the moved pane.
/// Other steps leave the topology alone.
pub open spec fn place(tree: Tree, step: Step) -> Tree {
    match step {
        Step::Place { pane_id, target_pane_id, direction, ratio } => substitute(
            tree,
            target_pane_id,
            Tree::Split {
                direction,
                ratio,
                first: Box::new(Tree::Pane { id: target_pane_id }),
                second: Box::new(Tree::Pane { id: pane_id }),
            },
        ),
        _ => tree,
    }
}

/// The tree after applying `steps` in order.
pub open spec fn replay(tree: Tree, steps: Seq<Step>) -> Tree
    decreases steps.len(),
{
    if steps.len() == 0 {
        tree
    } else {
        replay(place(tree, steps[0]), steps.drop_first())
    }
}

proof fn lemma_replay_concat(tree: Tree, a: Seq<Step>, b: Seq<Step>)
    ensures
        replay(tree, a + b) == replay(replay(tree, a), b),
    decreases a.len(),
{
    if a.len() == 0 {
        assert(a + b =~= b);
    } else {
        assert((a + b).drop_first() =~= a.drop_first() + b);
        lemma_replay_concat(place(tree, a[0]), a.drop_first(), b);
    }
}

proof fn lemma_substitute_absent(tree: Tree, id: Seq<char>, replacement: Tree)
    requires
        !panes(tree).contains(id),
    ensures
        substitute(tree, id, replacement) == tree,
    decreases tree,
{
    match tree {
        Tree::Pane { id: leaf } => {
            assert(panes(tree)[0] == leaf);
        },
        Tree::Split { first, second, .. } => {
            lemma_split_panes_contain(tree, id);
            lemma_substitute_absent(*first, id, replacement);
            lemma_substitute_absent(*second, id, replacement);
        },
    }
}

proof fn lemma_split_panes_contain(tree: Tree, id: Seq<char>)
    requires
        tree is Split,
    ensures
        panes(tree).contains(id) <==> (panes(*tree->first).contains(id) || panes(
            *tree->second,
        ).contains(id)),
{
    let a = panes(*tree->first);
    let b = panes(*tree->second);
    assert(panes(tree) == a + b);
    if panes(tree).contains(id) {
        let i = choose|i: int| 0 <= i < (a + b).len() && (a + b)[i] == id;
        if i < a.len() {
            assert(a[i] == id);
        } else {
            assert(b[i - a.len()] == id);
        }
    }
    if a.contains(id) {
        let i = choose|i: int| 0 <= i < a.len() && a[i] == id;
        assert((a + b)[i] == id);
    }
    if b.contains(id) {
        let i = choose|i: int| 0 <= i < b.len() && b[i] == id;
        assert((a + b)[a.len() + i] == id);
    }
}

proof fn lemma_substitute_compose(
    tree: Tree,
    a: Seq<char>,
    x: Tree,
    b: Seq<char>,
    y: Tree,
)
    requires
        b == a || !panes(tree).contains(b),
    ensures
        substitute(substitute(tree, a, x), b, y) == substitute(tree, a, substitute(x, b, y)),
    decreases tree,
{
    match tree {
        Tree::Pane { id: leaf } => {
            if leaf != a {
                assert(panes(tree)[0] == leaf);
            }
        },
        Tree::Split { first, second, .. } => {
            lemma_split_panes_contain(tree, b);
            lemma_substitute_compose(*first, a, x, b, y);
            lemma_substitute_compose(*second, a, x, b, y);
        },
    }
}

proof fn lemma_substitute_panes(tree: Tree, a: Seq<char>, x: Tree, id: Seq<char>)
    requires
        panes(substitute(tree, a, x)).contains(id),
    ensures
        panes(tree).contains(id) || panes(x).contains(id),
    decreases tree,
{
    match tree {
        Tree::Pane { id: leaf } => {
            if leaf != a {
                assert(panes(tree)[0] == leaf);
            }
        },
        Tree::Split { first, second, .. } => {
            let sub = substitute(tree, a, x);
            lemma_split_panes_contain(sub, id);
            lemma_split_panes_contain(tree, id);
            if panes(substitute(*first, a, x)).contains(id) {
                lemma_substitute_panes(*first, a, x, id);
            } else {
                lemma_substitute_panes(*second, a, x, id);
            }
        },
    }
}

proof fn lemma_distinct_split(tree: Tree)
    requires
        tree is Split,
        panes(tree).no_duplicates(),
    ensures
        panes(*tree->first).no_duplicates(),
        panes(*tree->second).no_duplicates(),
        forall|id: Seq<char>|
            panes(*tree->first).contains(id) ==> !panes(*tree->second).contains(id),
{
    let a = panes(*tree->first);
    let b = panes(*tree->second);
    let s = panes(tree);
    assert(s == a + b);
    assert forall|i: int, j: int| 0 <= i < a.len() && 0 <= j < a.len() && i != j implies a[i]
        != a[j] by {
        assert(s[i] == a[i] && s[j] == a[j]);
    }
    assert forall|i: int, j: int| 0 <= i < b.len() && 0 <= j < b.len() && i != j implies b[i]
        != b[j] by {
        assert(s[a.len() + i] == b[i] && s[a.len() + j] == b[j]);
    }
    assert forall|id: Seq<char>| a.contains(id) implies !b.contains(id) by {
        let i = choose|i: int| 0 <= i < a.len() && a[i] == id;
        if b.contains(id) {
            let j = choose|j: int| 0 <= j < b.len() && b[j] == id;
            assert(s[i] == s[a.len() + j]);
        }
    }
}

proof fn lemma_first_pane_contained(tree: Tree)
    ensures
        panes(tree).contains(first_pane(tree)),
{
    lemma_panes_nonempty(tree);
    assert(panes(tree)[0] == first_pane(tree));
}

/// Replaying the placements of `node` inside `host` grows the leaf holding
/// `node`'s first pane into `node`, provided `node`'s other panes are not
/// already in `host`.
proof fn lemma_replay_grows_leaf(host: Tree, node: Tree)
    requires
        panes(node).no_duplicates(),
        forall|id: Seq<char>|
            #![trigger panes(node).contains(id)]
            panes(node).contains(id) && id != first_pane(node) ==> !panes(host).contains(id),
    ensures
        replay(host, placements(node)) == substitute(host, first_pane(node), node),
    decreases node,
{
    match node {
        Tree::Pane { id } => {
            assert(replay(host, placements(node)) == host);
            lemma_substitute_identity(host, id);
        },
        Tree::Split { direction, ratio, first, second } => {
            let f = *first;
            let s = *second;
            let anchor = first_pane(f);
            let joined = first_pane(s);
            lemma_distinct_split(node);
            lemma_split_panes_contain(node, anchor);
            lemma_split_panes_contain(node, joined);
            lemma_first_pane_contained(f);
            lemma_first_pane_contained(s);
            let step = Step::Place { pane_id: joined, target_pane_id: anchor, direction, ratio };
            let seed = Tree::Split {
                direction,
                ratio,
                first: Box::new(Tree::Pane { id: anchor }),
                second: Box::new(Tree::Pane { id: joined }),
            };
            let t1 = substitute(host, anchor, seed);
            assert(placements(node) == seq![step] + placements(f) + placements(s));
            lemma_replay_concat(host, seq![step] + placements(f), placements(s));
            lemma_replay_concat(host, seq![step], placements(f));
            assert(replay(host, seq![step]) == t1) by {
                assert(seq![step][0] == step);
                assert(seq![step].drop_first() =~= Seq::<Step>::empty());
                assert(replay(t1, Seq::<Step>::empty()) == t1);
            }
            assert(!panes(s).contains(anchor));
            assert(joined != anchor);
            assert(!panes(f).contains(joined));
            // The first subtree grows inside the seeded split.
            assert forall|id: Seq<char>|
                #![trigger panes(f).contains(id)]
                panes(f).contains(id) && id != first_pane(f) implies !panes(t1).contains(id) by {
                lemma_split_panes_contain(node, id);
                if panes(t1).contains(id) {
                    lemma_substitute_panes(host, anchor, seed, id);
                    lemma_split_panes_contain(seed, id);
                    assert(panes(*seed->first) == seq![anchor]);
                    assert(panes(*seed->second) == seq![joined]);
                    if panes(*seed->first).contains(id) {
                        assert(seq![anchor][0] == anchor);
                    }
                    if panes(*seed->second).contains(id) {
                        assert(false);
                    }
                }
            }
            lemma_replay_grows_leaf(t1, f);
            let with_first = Tree::Split {
                direction,
                ratio,
                first: Box::new(f),
                second: Box::new(Tree::Pane { id: joined }),
            };
            lemma_substitute_compose(host, anchor, seed, anchor, f);
            assert(substitute(seed, anchor, f) == with_first) by {
                assert(substitute(Tree::Pane { id: joined }, anchor, f) == Tree::Pane {
                    id: joined,
                });
                assert(substitute(Tree::Pane { id: anchor }, anchor, f) == f);
            }
            let t2 = substitute(host, anchor, with_first);
            // The second subtree grows at its first pane.
            assert forall|id: Seq<char>|
                #![trigger panes(s).contains(id)]
                panes(s).contains(id) && id != first_pane(s) implies !panes(t2).contains(id) by {
                lemma_split_panes_contain(node, id);
                if panes(t2).contains(id) {
                    lemma_substitute_panes(host, anchor, with_first, id);
                    lemma_split_panes_contain(with_first, id);
                    assert(panes(*with_first->second) == seq![joined]);
                    if panes(*with_first->second).contains(id) {
                        assert(seq![joined][0] == joined);
                    }
                }
            }
            lemma_replay_grows_leaf(t2, s);
            assert(!panes(host).contains(joined));
            lemma_substitute_compose(host, anchor, with_first, joined, s);
            lemma_substitute_absent(f, joined, s);
            assert(substitute(Tree::Pane { id: joined }, joined, s) == s);
            assert(substitute(with_first, joined, s) == node);
        },
    }
}

proof fn lemma_substitute_identity(tree: Tree, id: Seq<char>)
    ensures
        substitute(tree, id, Tree::Pane { id }) == tree,
    decreases tree,
{
    match tree {
        Tree::Pane { .. } => {},
        Tree::Split { first, second, .. } => {
            lemma_substitute_identity(*first, id);
            lemma_substitute_identity(*second, id);
        },
    }
}

/// Rebuilding the topology: when every pane ID is distinct, applying the
/// plan's `Place` steps, in order, to a tab that holds only the anchor pane
/// (the tree's first pane) yields exactly the tree, axes and ratios included.
pub proof fn lemma_placements_rebuild_tree(tree: Tree)
    requires
        panes(tree).no_duplicates(),
    ensures
        replay(Tree::Pane { id: first_pane(tree) }, placements(tree)) == tree,
{
    let anchor = first_pane(tree);
    let host = Tree::Pane { id: anchor };
    assert forall|id: Seq<char>|
        #![trigger panes(tree).contains(id)]
        panes(tree).contains(id) && id != first_pane(tree) implies !panes(host).contains(id) by {
        if panes(host).contains(id) {
            assert(panes(host) == seq![anchor]);
            assert(seq![anchor][0] == anchor);
        }
    }
    lemma_replay_grows_leaf(host, tree);
}

} // verus!

verus! {

/// The subtree that `path` reaches from the root of `tree`, taking the first
/// child for `false` and the second for `true`; `None` when the path runs
/// past a pane.
pub open spec fn subtree_at(tree: Tree, path: Seq<bool>) -> Option<Tree>
    decreases path.len(),
{
    if path.len() == 0 {
        Some(tree)
    } else {
        match tree {
            Tree::Pane { .. } => None,
            Tree::Split { first, second, .. } => if path[0] {
                subtree_at(*second, path.drop_first())
            } else {
                subtree_at(*first, path.drop_first())
            },
        }
    }
}

/// Whether `found` is a split whose ratio is `ratio`.
pub open spec fn split_with_ratio(found: Option<Tree>, ratio: u32) -> bool {
    match found {
        Some(Tree::Split { ratio: r, .. }) => r == ratio,
        _ => false,
    }
}

/// Whether `step` sets, at a path that extends `prefix`, the ratio that the
/// split of `tree` reached by the rest of the path holds.
pub open spec fn sets_ratio_within(tree: Tree, prefix: Seq<bool>, step: Step) -> bool {
    step matches Step::SetRatio { path, ratio } && prefix.len() <= path.len() && path.take(
        prefix.len() as int,
    ) == prefix && split_with_ratio(subtree_at(tree, path.skip(prefix.len() as int)), ratio)
}

proof fn lemma_ratio_steps_sound(tree: Tree, prefix: Seq<bool>)
    ensures
        forall|j: int|
            0 <= j < ratio_steps(tree, prefix).len() ==> sets_ratio_within(
                tree,
                prefix,
                #[trigger] ratio_steps(tree, prefix)[j],
            ),
    decreases tree,
{
    if let Tree::Split { ratio, first, second, .. } = tree {
        let k = prefix.len();
        let left = prefix.push(false);
        let right = prefix.push(true);
        let a = ratio_steps(*first, left);
        let b = ratio_steps(*second, right);
        let all = ratio_steps(tree, prefix);
        lemma_ratio_steps_sound(*first, left);
        lemma_ratio_steps_sound(*second, right);
        assert(all == seq![Step::SetRatio { path: prefix, ratio }] + a + b);
        assert(prefix.take(k as int) =~= prefix);
        assert(prefix.skip(k as int) =~= Seq::<bool>::empty());
        assert forall|j: int| 0 <= j < all.len() implies sets_ratio_within(
            tree,
            prefix,
            #[trigger] all[j],
        ) by {
            if j >= 1 {
                let (sub, base, side, step) = if j < 1 + a.len() {
                    (*first, left, false, a[j - 1])
                } else {
                    (*second, right, true, b[j - 1 - a.len()])
                };
                assert(all[j] == step);
                assert(sets_ratio_within(sub, base, step));
                let path = step->SetRatio_path;
                assert(path.take((k + 1) as int)[k as int] == base[k as int]);
                assert(path.take(k as int) =~= path.take((k + 1) as int).take(k as int));
                assert(base.take(k as int) =~= prefix);
                let rest = path.skip(k as int);
                assert(rest[0] == side);
                assert(rest.drop_first() =~= path.skip((k + 1) as int));
            }
        }
    }
}

proof fn lemma_ratio_steps_complete(tree: Tree, prefix: Seq<bool>, path: Seq<bool>)
    requires
        subtree_at(tree, path) is Some,
        subtree_at(tree, path)->0 is Split,
    ensures
        ratio_steps(tree, prefix).contains(
            Step::SetRatio { path: prefix + path, ratio: subtree_at(tree, path)->0->Split_ratio },
        ),
    decreases path.len(),
{
    let all = ratio_steps(tree, prefix);
    if let Tree::Split { ratio, first, second, .. } = tree {
        let a = ratio_steps(*first, prefix.push(false));
        let b = ratio_steps(*second, prefix.push(true));
        assert(all == seq![Step::SetRatio { path: prefix, ratio }] + a + b);
        if path.len() == 0 {
            assert(prefix + path =~= prefix);
            assert(all[0] == Step::SetRatio { path: prefix, ratio });
        } else if path[0] {
            lemma_ratio_steps_complete(*second, prefix.push(true), path.drop_first());
            assert(prefix.push(true) + path.drop_first() =~= prefix + path);
            let i = choose|i: int| 0 <= i < b.len() && b[i] == Step::SetRatio {
                path: prefix + path,
                ratio: subtree_at(tree, path)->0->Split_ratio,
            };
            assert(all[1 + a.len() + i] == b[i]);
        } else {
            lemma_ratio_steps_complete(*first, prefix.push(false), path.drop_first());
            assert(prefix.push(false) + path.drop_first() =~= prefix + path);
            let i = choose|i: int| 0 <= i < a.len() && a[i] == Step::SetRatio {
                path: prefix + path,
                ratio: subtree_at(tree, path)->0->Split_ratio,
            };
            assert(all[1 + i] == a[i]);
        }
    }
}

/// Ratios are restored where they belong: every `SetRatio` step of a plan,
/// followed from the root (`false` for the first child, `true` for the
/// second), reaches a split that holds the step's ratio, and every split of
/// the tree gets such a step at its path.
pub proof fn lemma_ratio_steps_address_their_splits(layout: LayoutView)
    ensures
        forall|i: int|
            0 <= i < plan_steps(layout).len() && (#[trigger] plan_steps(layout)[i] is SetRatio)
                ==> split_with_ratio(
                subtree_at(layout.root, plan_steps(layout)[i]->SetRatio_path),
                plan_steps(layout)[i]->SetRatio_ratio,
            ),
        forall|path: Seq<bool>|
            #![trigger subtree_at(layout.root, path)]
            subtree_at(layout.root, path) is Some && subtree_at(layout.root, path)->0 is Split
                ==> plan_steps(layout).contains(
                Step::SetRatio {
                    path,
                    ratio: subtree_at(layout.root, path)->0->Split_ratio,
                },
            ),
{
    let root = layout.root;
    let ids = panes(root);
    let steps = plan_steps(layout);
    let rs = ratio_steps(root, seq![]);
    lemma_ratio_steps_sound(root, seq![]);
    lemma_panes_nonempty(root);
    let tail = seq![
        Step::Focus { pane_id: layout.focused_pane_id },
        Step::Zoom { pane_id: layout.focused_pane_id, zoomed: layout.zoomed },
    ];
    if ids.len() >= 2 {
        let head = seq![
            Step::Zoom { pane_id: layout.focused_pane_id, zoomed: false },
            Step::OpenScratch { pane_id: ids[1] },
        ] + parking(ids) + placements(root);
        lemma_placements_are_places(root);
        assert(steps == head + rs + tail);
        assert forall|i: int|
            0 <= i < steps.len() && (#[trigger] steps[i] is SetRatio) implies split_with_ratio(
            subtree_at(root, steps[i]->SetRatio_path),
            steps[i]->SetRatio_ratio,
        ) by {
            if i < head.len() {
                if i >= 2 + parking(ids).len() {
                    assert(head[i] == placements(root)[i - 2 - parking(ids).len()]);
                }
            } else if i < head.len() + rs.len() {
                assert(steps[i] == rs[i - head.len()]);
                assert(sets_ratio_within(root, seq![], rs[i - head.len()]));
                assert(steps[i]->SetRatio_path.skip(0) =~= steps[i]->SetRatio_path);
            }
        }
        assert forall|path: Seq<bool>|
            #![trigger subtree_at(root, path)]
            subtree_at(root, path) is Some && subtree_at(root, path)->0 is Split implies steps.contains(
            Step::SetRatio { path, ratio: subtree_at(root, path)->0->Split_ratio },
        ) by {
            lemma_ratio_steps_complete(root, seq![], path);
            assert(seq![] + path =~= path);
            let ratio = subtree_at(root, path)->0->Split_ratio;
            let i = choose|i: int| 0 <= i < rs.len() && rs[i] == Step::SetRatio { path, ratio };
            assert(steps[head.len() + i] == rs[i]);
        }
    } else {
        assert(steps =~= tail);
        assert forall|path: Seq<bool>|
            #![trigger subtree_at(root, path)]
            subtree_at(root, path) is Some && subtree_at(root, path)->0 is Split implies steps.contains(
            Step::SetRatio { path, ratio: subtree_at(root, path)->0->Split_ratio },
        ) by {
            if path.len() > 0 {
                assert(root is Split);
            } else {
                assert(root is Split);
            }
        }
    }
}

/// A tree's placements are `Place` steps, one per split.
pub proof fn lemma_placements_are_places(tree: Tree)
    ensures
        forall|i: int|
            0 <= i < placements(tree).len() ==> (#[trigger] placements(tree)[i]) is Place,
        placements(tree).len() == split_count(tree),
    decreases tree,
{
    if let Tree::Split { direction, ratio, first, second } = tree {
        lemma_placements_are_places(*first);
        lemma_placements_are_places(*second);
        let a = placements(*first);
        let b = placements(*second);
        let all = placements(tree);
        assert forall|i: int| 0 <= i < all.len() implies (#[trigger] all[i]) is Place by {
            if i >= 1 && i < 1 + a.len() {
                assert(all[i] == a[i - 1]);
            } else if i >= 1 + a.len() {
                assert(all[i] == b[i - 1 - a.len()]);
            }
        }
    }
}

} // verus!
