use herdr_tiling::rebuild::plan::{compile, Command};
use herdr_tiling::tree::{Layout, Node, Ratio, SplitDirection};

fn ratio(value: f32) -> Ratio {
    Ratio::new(value.to_bits()).unwrap()
}

fn sample_layout() -> Layout {
    Layout {
        workspace_id: "w1".into(),
        tab_id: "t1".into(),
        zoomed: true,
        focused_pane_id: "p2".into(),
        root: Node::Split {
            direction: SplitDirection::Right,
            ratio: ratio(0.6),
            first: Box::new(Node::Split {
                direction: SplitDirection::Down,
                ratio: ratio(0.4),
                first: Box::new(Node::Pane { id: "p1".into() }),
                second: Box::new(Node::Pane { id: "p2".into() }),
            }),
            second: Box::new(Node::Pane { id: "p3".into() }),
        },
    }
}

#[test]
fn compiles_nested_tree_in_a_stable_order() {
    let layout = sample_layout();
    let plan = compile(&layout).unwrap();

    assert_eq!(plan.anchor_pane_id, "p1");
    assert_eq!(
        plan.commands,
        vec![
            Command::Zoom { pane_id: "p2".into(), zoomed: false },
            Command::OpenScratch { pane_id: "p2".into() },
            Command::Park { pane_id: "p3".into(), target_pane_id: "p2".into() },
            Command::Place {
                pane_id: "p3".into(),
                target_pane_id: "p1".into(),
                direction: SplitDirection::Right,
                ratio: ratio(0.6),
            },
            Command::Place {
                pane_id: "p2".into(),
                target_pane_id: "p1".into(),
                direction: SplitDirection::Down,
                ratio: ratio(0.4),
            },
            Command::SetRatio { path: vec![], ratio: ratio(0.6) },
            Command::SetRatio { path: vec![false], ratio: ratio(0.4) },
            Command::Focus { pane_id: "p2".into() },
            Command::Zoom { pane_id: "p2".into(), zoomed: true },
        ]
    );
}

#[test]
fn single_pane_plan_only_restores_focus_and_zoom() {
    let mut layout = sample_layout();
    layout.root = Node::Pane { id: "p2".into() };
    layout.zoomed = false;
    let plan = compile(&layout).unwrap();
    assert_eq!(plan.anchor_pane_id, "p2");
    assert_eq!(
        plan.commands,
        vec![
            Command::Focus { pane_id: "p2".into() },
            Command::Zoom { pane_id: "p2".into(), zoomed: false },
        ]
    );
}

#[test]
fn refuses_empty_duplicate_and_absent_focused_panes() {
    let mut layout = sample_layout();
    layout.root = Node::Split {
        direction: SplitDirection::Right,
        ratio: ratio(0.5),
        first: Box::new(Node::Pane { id: "".into() }),
        second: Box::new(Node::Pane { id: "p2".into() }),
    };
    assert_eq!(compile(&layout), Err("cannot rebuild a tree containing an empty pane ID".to_owned()));

    layout.root = Node::Split {
        direction: SplitDirection::Right,
        ratio: ratio(0.5),
        first: Box::new(Node::Pane { id: "p2".into() }),
        second: Box::new(Node::Pane { id: "p2".into() }),
    };
    assert_eq!(
        compile(&layout),
        Err("cannot rebuild a tree containing duplicate pane IDs".to_owned())
    );

    let mut layout = sample_layout();
    layout.focused_pane_id = "p9".into();
    assert_eq!(
        compile(&layout),
        Err("cannot rebuild a tree whose focused pane is absent".to_owned())
    );
}

#[test]
fn a_negative_zero_ratio_reaches_the_plan_with_its_sign() {
    let mut layout = sample_layout();
    layout.root = Node::Split {
        direction: SplitDirection::Right,
        ratio: Ratio::new((-0.0f32).to_bits()).unwrap(),
        first: Box::new(Node::Pane { id: "p1".into() }),
        second: Box::new(Node::Pane { id: "p2".into() }),
    };
    let plan = compile(&layout).unwrap();
    let signs: Vec<u32> = plan
        .commands
        .iter()
        .filter_map(|command| match command {
            Command::Place { ratio, .. } | Command::SetRatio { ratio, .. } => Some(ratio.get()),
            _ => None,
        })
        .collect();
    assert_eq!(signs, [0x8000_0000, 0x8000_0000]);
}
