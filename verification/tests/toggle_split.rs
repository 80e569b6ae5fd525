use herdr_tiling::features::toggle_split::{toggle_parent, toggled_layout};
use herdr_tiling::tree::{Layout, Node, Ratio, SplitDirection};

fn ratio(value: f32) -> Ratio {
    Ratio::new(value.to_bits()).unwrap()
}

fn nested_layout(focused_pane_id: &str, direction: SplitDirection) -> Layout {
    Layout {
        workspace_id: "w1".into(),
        tab_id: "t1".into(),
        zoomed: true,
        focused_pane_id: focused_pane_id.into(),
        root: Node::Split {
            direction: SplitDirection::Down,
            ratio: ratio(0.7),
            first: Box::new(Node::Split {
                direction,
                ratio: ratio(0.3),
                first: Box::new(Node::Pane { id: "p1".into() }),
                second: Box::new(Node::Pane { id: "p2".into() }),
            }),
            second: Box::new(Node::Pane { id: "p3".into() }),
        },
    }
}

#[test]
fn toggles_only_the_focused_panes_direct_parent() {
    for (focused_pane_id, original_direction, expected_direction) in [
        ("p1", SplitDirection::Right, SplitDirection::Down),
        ("p2", SplitDirection::Down, SplitDirection::Right),
    ] {
        let mut layout = nested_layout(focused_pane_id, original_direction);
        assert!(toggle_parent(&mut layout.root, focused_pane_id));

        let Node::Split { direction: root_direction, ratio: root_ratio, first, second } = &layout.root
        else {
            panic!("root must remain a split");
        };
        assert_eq!(*root_direction, SplitDirection::Down);
        assert_eq!(f32::from_bits(root_ratio.get()), 0.7);
        assert_eq!(**second, Node::Pane { id: "p3".into() });

        let Node::Split { direction, ratio, first, second } = &**first else {
            panic!("focused pane parent must remain a split");
        };
        assert_eq!(*direction, expected_direction);
        assert_eq!(f32::from_bits(ratio.get()), 0.3);
        assert_eq!(**first, Node::Pane { id: "p1".into() });
        assert_eq!(**second, Node::Pane { id: "p2".into() });
        assert_eq!(layout.focused_pane_id, focused_pane_id);
        assert!(layout.zoomed);
    }
}

#[test]
fn single_pane_is_unchanged() {
    let mut root = Node::Pane { id: "p1".into() };
    assert!(!toggle_parent(&mut root, "p1"));
    assert_eq!(root, Node::Pane { id: "p1".into() });
}

#[test]
fn toggling_twice_restores_the_tree() {
    let original = nested_layout("p2", SplitDirection::Right);
    let mut layout = nested_layout("p2", SplitDirection::Right);
    assert!(toggle_parent(&mut layout.root, "p2"));
    assert_ne!(layout.root, original.root);
    assert!(toggle_parent(&mut layout.root, "p2"));
    assert_eq!(layout.root, original.root);
}

#[test]
fn absent_pane_changes_nothing() {
    let original = nested_layout("p1", SplitDirection::Right);
    let mut layout = nested_layout("p1", SplitDirection::Right);
    assert!(!toggle_parent(&mut layout.root, "missing"));
    assert_eq!(layout.root, original.root);
}

#[test]
fn toggle_action_rebuilds_only_when_a_parent_split_exists() {
    let original = nested_layout("p2", SplitDirection::Down);
    let desired = toggled_layout(&original, "p2").unwrap();
    let mut expected = nested_layout("p2", SplitDirection::Right);
    expected.focused_pane_id = "p2".into();
    assert_eq!(desired, expected);

    let mut single = nested_layout("p1", SplitDirection::Down);
    single.root = Node::Pane { id: "p1".into() };
    assert_eq!(toggled_layout(&single, "p1"), None);
}
