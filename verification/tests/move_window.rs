use herdr_tiling::features::move_window::transform;
use herdr_tiling::tree::{Direction, Layout, Node, Ratio, Rect, SplitDirection};

fn area(width: u16, height: u16) -> Rect {
    Rect { x: 3, y: 7, width, height }
}

fn pane(id: &str) -> Node {
    Node::Pane { id: id.into() }
}

fn split(direction: SplitDirection, ratio: f32, first: Node, second: Node) -> Node {
    Node::Split {
        direction,
        ratio: Ratio::new(ratio.to_bits()).unwrap(),
        first: Box::new(first),
        second: Box::new(second),
    }
}

fn adjacent_layout() -> Layout {
    Layout {
        workspace_id: "w1".into(),
        tab_id: "t1".into(),
        zoomed: true,
        focused_pane_id: "p1".into(),
        root: split(SplitDirection::Down, 0.8, pane("p1"), pane("p2")),
    }
}

fn nested_layout() -> Layout {
    Layout {
        workspace_id: "w1".into(),
        tab_id: "t1".into(),
        zoomed: true,
        focused_pane_id: "p2".into(),
        root: split(
            SplitDirection::Right,
            0.6,
            split(SplitDirection::Down, 0.3, pane("p1"), pane("p2")),
            split(
                SplitDirection::Down,
                0.7,
                pane("p3"),
                split(SplitDirection::Right, 0.4, pane("p4"), pane("p5")),
            ),
        ),
    }
}

#[test]
fn moves_adjacent_pane_in_every_direction() {
    for (direction, axis, source, first_id, second_id) in [
        (Direction::Left, SplitDirection::Right, "p2", "p2", "p1"),
        (Direction::Right, SplitDirection::Right, "p1", "p2", "p1"),
        (Direction::Up, SplitDirection::Down, "p2", "p2", "p1"),
        (Direction::Down, SplitDirection::Down, "p1", "p2", "p1"),
    ] {
        let mut original = adjacent_layout();
        original.root = split(axis, 0.8, pane("p1"), pane("p2"));
        original.focused_pane_id = source.into();
        // The sibling override wins even when the area prefers the other axis.
        let area = match axis {
            SplitDirection::Right => area(40, 200),
            SplitDirection::Down => area(200, 40),
        };
        let desired = transform(&original, source, area, direction).unwrap().unwrap();

        assert_eq!(desired.root, split(axis, 0.5, pane(first_id), pane(second_id)));
        assert_eq!(desired.workspace_id, original.workspace_id);
        assert_eq!(desired.tab_id, original.tab_id);
        assert_eq!(desired.focused_pane_id, source);
        assert!(desired.zoomed);
    }
}

#[test]
fn moves_between_nested_positions_without_changing_other_ratios() {
    let original = nested_layout();
    let desired = transform(&original, "p2", area(200, 100), Direction::Right).unwrap().unwrap();

    assert_eq!(
        desired.root,
        split(
            SplitDirection::Right,
            0.6,
            pane("p1"),
            split(
                SplitDirection::Down,
                0.7,
                split(SplitDirection::Right, 0.5, pane("p2"), pane("p3")),
                split(SplitDirection::Right, 0.4, pane("p4"), pane("p5"))
            )
        )
    );
    assert_eq!(desired.focused_pane_id, original.focused_pane_id);
    assert_eq!(desired.zoomed, original.zoomed);
}

#[test]
fn moves_only_the_middle_leaf_left_using_the_target_aspect_ratio() {
    for (ratio, axis) in [
        (0.6, SplitDirection::Right),
        (0.4, SplitDirection::Down),
        (0.5, SplitDirection::Down),
    ] {
        let mut original = adjacent_layout();
        original.root = split(
            SplitDirection::Right,
            ratio,
            pane("p1"),
            split(SplitDirection::Right, 0.3, pane("p2"), pane("p3")),
        );
        original.focused_pane_id = "p2".into();
        let desired = transform(&original, "p2", area(200, 100), Direction::Left).unwrap().unwrap();
        assert_eq!(
            desired.root,
            split(SplitDirection::Right, ratio, split(axis, 0.5, pane("p1"), pane("p2")), pane("p3"))
        );
        assert_eq!(desired.focused_pane_id, "p2");
        assert!(desired.zoomed);
    }
}

#[test]
fn moves_between_subtrees_in_all_four_directions() {
    for (movement, axis, area, source_on_first_side) in [
        (Direction::Left, SplitDirection::Right, area(240, 40), false),
        (Direction::Right, SplitDirection::Right, area(240, 40), true),
        (Direction::Up, SplitDirection::Down, area(40, 240), false),
        (Direction::Down, SplitDirection::Down, area(40, 240), true),
    ] {
        let left_nested = split(axis, 0.5, split(axis, 0.5, pane("p1"), pane("p2")), pane("p3"));
        let right_nested = split(axis, 0.5, pane("p1"), split(axis, 0.5, pane("p2"), pane("p3")));
        let (root, expected) = if source_on_first_side {
            (left_nested, right_nested)
        } else {
            (right_nested, left_nested)
        };
        let mut original = adjacent_layout();
        original.root = root;
        let desired = transform(&original, "p2", area, movement).unwrap().unwrap();
        assert_eq!(desired.root, expected, "{}", movement.name());
    }
}

#[test]
fn removing_a_root_leaf_reselects_target_in_the_expanded_subtree() {
    let mut original = adjacent_layout();
    original.root = split(
        SplitDirection::Right,
        0.5,
        pane("p1"),
        split(SplitDirection::Right, 0.3, pane("p2"), pane("p3")),
    );
    // Before removal p2 is the right neighbor. After removal the focal point
    // is inside p3, so p3 is split instead.
    let desired = transform(&original, "p1", area(200, 80), Direction::Right).unwrap().unwrap();
    assert_eq!(
        desired.root,
        split(
            SplitDirection::Right,
            0.3,
            pane("p2"),
            split(SplitDirection::Right, 0.5, pane("p1"), pane("p3"))
        )
    );
}

#[test]
fn moving_outward_at_the_tab_edge_still_reinserts() {
    let mut original = adjacent_layout();
    original.root = split(SplitDirection::Down, 0.8, pane("p1"), pane("p2"));
    let desired = transform(&original, "p1", area(200, 80), Direction::Left).unwrap().unwrap();
    assert_eq!(desired.root, split(SplitDirection::Right, 0.5, pane("p1"), pane("p2")));
    assert_eq!(transform(&desired, "p1", area(200, 80), Direction::Left), Ok(None));
}

#[test]
fn single_pane_is_a_no_op_and_missing_or_empty_source_is_rejected() {
    let mut original = adjacent_layout();
    assert!(transform(&original, "missing", area(200, 80), Direction::Left).is_err());
    original.root = split(SplitDirection::Right, 0.0, pane("p1"), pane("p2"));
    assert!(transform(&original, "p1", area(200, 80), Direction::Left).is_err());
    original.root = pane("p1");
    for direction in [Direction::Left, Direction::Right, Direction::Up, Direction::Down] {
        assert_eq!(transform(&original, "p1", area(200, 80), direction), Ok(None));
    }
}

#[test]
fn moving_a_pane_keeps_every_pane_exactly_once() {
    let original = nested_layout();
    for source in ["p1", "p2", "p3", "p4", "p5"] {
        for direction in [Direction::Left, Direction::Right, Direction::Up, Direction::Down] {
            if let Ok(Some(desired)) = transform(&original, source, area(200, 100), direction) {
                let mut ids = Vec::new();
                desired.root.collect_panes(&mut ids);
                ids.sort();
                assert_eq!(ids, ["p1", "p2", "p3", "p4", "p5"]);
                assert_eq!(desired.tab_id, original.tab_id);
            }
        }
    }
}
