use herdr_tiling::features::layout::{next_preset, plan_layout, transform, State};
use herdr_tiling::preset::Preset;
use herdr_tiling::tree::{Layout, Node, Ratio, Rect, SplitDirection};

fn ratio(value: f32) -> Ratio {
    Ratio::new(value.to_bits()).unwrap()
}

fn pane(id: &str) -> Node {
    Node::Pane { id: id.to_string() }
}

fn chain(ids: &[String]) -> Node {
    let mut node = pane(&ids[ids.len() - 1]);
    for id in ids[..ids.len() - 1].iter().rev() {
        node = Node::Split {
            direction: SplitDirection::Down,
            ratio: ratio(0.3),
            first: Box::new(pane(id)),
            second: Box::new(node),
        };
    }
    node
}

/// A tab of `count` panes `p1..` laid out evenly side by side.
fn layout(count: usize) -> Layout {
    let ids: Vec<String> = (1..=count).map(|index| format!("p{index}")).collect();
    let start = Layout {
        workspace_id: "w1".into(),
        tab_id: "t1".into(),
        zoomed: true,
        focused_pane_id: "p2".into(),
        root: chain(&ids),
    };
    transform(&start, Preset::EvenHorizontal, ratio(0.5))
}

fn pane_order(node: &Node) -> Vec<String> {
    let mut ids = Vec::new();
    node.collect_panes(&mut ids);
    ids
}

fn assert_ratios_in_range(node: &Node) {
    if let Node::Split { ratio, first, second, .. } = node {
        let value = f32::from_bits(ratio.get());
        assert!((0.1..=0.9).contains(&value));
        assert_ratios_in_range(first);
        assert_ratios_in_range(second);
    }
}

#[test]
fn builds_all_presets_in_tree_order() {
    let original = layout(5);
    for preset in Preset::all() {
        let desired = transform(&original, preset, ratio(0.6));
        assert_eq!(pane_order(&desired.root), ["p1", "p2", "p3", "p4", "p5"]);
        assert_eq!(desired.focused_pane_id, original.focused_pane_id);
        assert_eq!(desired.zoomed, original.zoomed);
    }

    let main_horizontal = transform(&original, Preset::MainHorizontal, ratio(0.6));
    assert!(matches!(
        main_horizontal.root,
        Node::Split { direction: SplitDirection::Down, ratio, .. } if f32::from_bits(ratio.get()) == 0.6
    ));
    let main_vertical = transform(&original, Preset::MainVertical, ratio(0.6));
    assert!(matches!(
        main_vertical.root,
        Node::Split { direction: SplitDirection::Right, ratio, .. } if f32::from_bits(ratio.get()) == 0.6
    ));

    let single = layout(1);
    for preset in Preset::all() {
        assert_eq!(transform(&single, preset, ratio(0.5)), single);
    }
}

#[test]
fn even_layouts_stay_even_without_small_split_ratios() {
    for preset in [Preset::EvenHorizontal, Preset::EvenVertical] {
        for pane_count in 2..=24 {
            let desired = transform(&layout(pane_count), preset, ratio(0.5));
            assert_ratios_in_range(&desired.root);
            let rects = desired.root.pane_rects(Rect { x: 0, y: 0, width: 240, height: 240 });
            let sizes = rects
                .iter()
                .map(|(_, rect)| match preset {
                    Preset::EvenHorizontal => rect.width,
                    Preset::EvenVertical => rect.height,
                    _ => unreachable!(),
                })
                .collect::<Vec<_>>();
            assert!(sizes.iter().max().unwrap() - sizes.iter().min().unwrap() <= 1);
        }
    }
}

#[test]
fn tiled_uses_tmux_row_and_column_growth() {
    let desired = transform(&layout(5), Preset::Tiled, ratio(0.5));
    let rects = desired.root.pane_rects(Rect { x: 0, y: 0, width: 120, height: 90 });
    assert_eq!(rects[0].1, Rect { x: 0, y: 0, width: 60, height: 30 });
    assert_eq!(rects[1].1, Rect { x: 60, y: 0, width: 60, height: 30 });
    assert_eq!(rects[4].1, Rect { x: 0, y: 60, width: 120, height: 30 });
}

#[test]
fn cycle_uses_configured_order_and_falls_back_to_the_first_layout() {
    let cycle = [Preset::Tiled, Preset::EvenHorizontal];
    assert_eq!(next_preset(&cycle, None), Preset::Tiled);
    assert_eq!(next_preset(&cycle, Some(Preset::Tiled)), Preset::EvenHorizontal);
    assert_eq!(next_preset(&cycle, Some(Preset::EvenVertical)), Preset::Tiled);
}

#[test]
fn cycle_wraps_from_the_last_preset_to_the_first() {
    let cycle = Preset::all();
    assert_eq!(next_preset(&cycle, Some(Preset::Tiled)), Preset::EvenHorizontal);
    assert_eq!(next_preset(&cycle, Some(Preset::EvenHorizontal)), Preset::EvenVertical);
    assert_eq!(next_preset(&[Preset::MainVertical], Some(Preset::MainVertical)), Preset::MainVertical);
}

#[test]
fn state_is_scoped_by_socket_and_tab() {
    let mut state = State::default();
    state.set("/one.sock", "t1", Preset::Tiled);
    state.set("/two.sock", "t1", Preset::EvenVertical);
    assert_eq!(state.get("/one.sock", "t1"), Some(Preset::Tiled));
    assert_eq!(state.get("/two.sock", "t1"), Some(Preset::EvenVertical));
    assert_eq!(state.get("/one.sock", "t2"), None);
}

#[test]
fn remembering_again_replaces_the_entry_in_place() {
    let mut state = State::default();
    state.set("/one.sock", "t1", Preset::Tiled);
    state.set("/one.sock", "t2", Preset::MainVertical);
    state.set("/one.sock", "t1", Preset::EvenHorizontal);
    assert_eq!(state.last_layouts.len(), 2);
    assert_eq!(state.last_layouts[0].tab_id, "t1");
    assert_eq!(state.get("/one.sock", "t1"), Some(Preset::EvenHorizontal));
    assert_eq!(state.get("/one.sock", "t2"), Some(Preset::MainVertical));
}

#[test]
fn main_presets_put_the_first_pane_beside_an_even_stack() {
    let desired = transform(&layout(3), Preset::MainVertical, ratio(0.7));
    let expected = Node::Split {
        direction: SplitDirection::Right,
        ratio: ratio(0.7),
        first: Box::new(pane("p1")),
        second: Box::new(Node::Split {
            direction: SplitDirection::Down,
            ratio: ratio(0.5),
            first: Box::new(pane("p2")),
            second: Box::new(pane("p3")),
        }),
    };
    assert_eq!(desired.root, expected);
}

#[test]
fn even_splits_give_the_larger_half_to_the_first_child() {
    let desired = transform(&layout(3), Preset::EvenVertical, ratio(0.5));
    let expected = Node::Split {
        direction: SplitDirection::Down,
        ratio: ratio(2.0 / 3.0),
        first: Box::new(Node::Split {
            direction: SplitDirection::Down,
            ratio: ratio(0.5),
            first: Box::new(pane("p1")),
            second: Box::new(pane("p2")),
        }),
        second: Box::new(pane("p3")),
    };
    assert_eq!(desired.root, expected);
}

#[test]
fn remembered_presets_follow_the_socket_location() {
    let mut state = State::default();
    state.set("/run/herdr.sock", "t1", Preset::Tiled);
    assert_eq!(state.get("//run/./herdr.sock/", "t1"), Some(Preset::Tiled));
    state.set("/run//herdr.sock", "t1", Preset::MainHorizontal);
    assert_eq!(state.last_layouts.len(), 1);
    assert_eq!(state.last_layouts[0].socket_path, "/run/herdr.sock");
    assert_eq!(state.get("/run/herdr.sock", "t1"), Some(Preset::MainHorizontal));
    assert_eq!(state.get("run/herdr.sock", "t1"), None);
}

#[test]
fn layout_actions_choose_a_preset_and_skip_an_unchanged_tab() {
    let original = layout(3);
    let cycle = [Preset::EvenHorizontal, Preset::Tiled];
    let (preset, desired) = plan_layout(None, &cycle, None, &original, ratio(0.5));
    assert_eq!(preset, Preset::EvenHorizontal);
    assert!(desired.is_none());

    let (preset, desired) = plan_layout(None, &cycle, Some(Preset::EvenHorizontal), &original, ratio(0.5));
    assert_eq!(preset, Preset::Tiled);
    assert_eq!(desired.unwrap(), transform(&original, Preset::Tiled, ratio(0.5)));

    let (preset, desired) = plan_layout(Some(Preset::MainVertical), &cycle, Some(Preset::Tiled), &original, ratio(0.6));
    assert_eq!(preset, Preset::MainVertical);
    assert_eq!(desired.unwrap(), transform(&original, Preset::MainVertical, ratio(0.6)));
}

fn ratios(node: &Node, into: &mut Vec<f32>) {
    if let Node::Split { ratio, first, second, .. } = node {
        into.push(f32::from_bits(ratio.get()));
        ratios(first, into);
        ratios(second, into);
    }
}

#[test]
fn even_splits_give_the_first_part_between_half_and_two_thirds() {
    for pane_count in [2, 3, 5, 7, 64, 99, 257] {
        let desired = transform(&layout(pane_count), Preset::EvenVertical, ratio(0.5));
        let mut found = Vec::new();
        ratios(&desired.root, &mut found);
        assert_eq!(found.len(), pane_count - 1);
        for value in found {
            assert!((0.5..=2.0f32 / 3.0).contains(&value), "{pane_count}: {value}");
        }
    }
}

#[test]
fn repeated_cycling_enumerates_the_cycle() {
    let cycle = [Preset::MainVertical, Preset::Tiled, Preset::EvenVertical];
    let mut current = next_preset(&cycle, None);
    for k in 0..12 {
        assert_eq!(current, cycle[k % cycle.len()]);
        current = next_preset(&cycle, Some(current));
    }
}
