use herdr_tiling::rounding::{count_ratio_exec, scaled_extent_exec};
use herdr_tiling::tree::{Node, Ratio, Rect, SplitDirection};

#[test]
fn pane_rectangles_round_each_split_like_herdr() {
    let root = Node::Split {
        direction: SplitDirection::Right,
        ratio: Ratio::new(0.5f32.to_bits()).unwrap(),
        first: Box::new(Node::Pane { id: "p1".into() }),
        second: Box::new(Node::Split {
            direction: SplitDirection::Down,
            ratio: Ratio::new(0.5f32.to_bits()).unwrap(),
            first: Box::new(Node::Pane { id: "p2".into() }),
            second: Box::new(Node::Pane { id: "p3".into() }),
        }),
    };
    assert_eq!(
        root.pane_rects(Rect { x: 3, y: 7, width: 185, height: 93 }),
        vec![
            ("p1".to_string(), Rect { x: 3, y: 7, width: 93, height: 93 }),
            ("p2".to_string(), Rect { x: 96, y: 7, width: 92, height: 47 }),
            ("p3".to_string(), Rect { x: 96, y: 54, width: 92, height: 46 }),
        ]
    );
}

#[test]
fn ratio_requires_a_value_in_the_protocol_range() {
    assert_eq!(Ratio::new(0.5f32.to_bits()).map(|r| f32::from_bits(r.get())), Ok(0.5));
    assert_eq!(Ratio::new(0.0f32.to_bits()).map(|r| f32::from_bits(r.get())), Ok(0.0));
    assert_eq!(Ratio::new(1.0f32.to_bits()).map(|r| f32::from_bits(r.get())), Ok(1.0));
    assert!(Ratio::new((-0.1f32).to_bits()).is_err());
    assert!(Ratio::new(1.1f32.to_bits()).is_err());
    assert!(Ratio::new(f32::NAN.to_bits()).is_err());
    assert!(Ratio::new(f32::INFINITY.to_bits()).is_err());
}

#[test]
fn ratio_accepts_exactly_the_finite_values_in_the_unit_interval() {
    for bits in (0..=u32::MAX).step_by(65_521).chain([0x8000_0000, 0x3F80_0000, 0x3F80_0001]) {
        let value = f32::from_bits(bits);
        let expected = value.is_finite() && (0.0..=1.0).contains(&value);
        assert_eq!(Ratio::new(bits).is_ok(), expected, "{bits:#x}");
    }
    assert_eq!(
        Ratio::new(2.0f32.to_bits()),
        Err("split ratio must be finite and between 0 and 1")
    );
}

#[test]
fn negative_zero_is_a_valid_ratio_equal_to_zero() {
    let negative = Ratio::new((-0.0f32).to_bits()).unwrap();
    let positive = Ratio::new(0.0f32.to_bits()).unwrap();
    assert!(negative.same_value(positive));
    assert!(!negative.same_value(Ratio::half()));
}

#[test]
fn split_extent_matches_single_precision_rounding() {
    let ratios = (0..=1000u32)
        .map(|k| (k as f32 / 1000.0).to_bits())
        .chain([0.1f32, 0.3, 0.6, 0.7, 0.9, 1.0 / 3.0, 2.0 / 3.0, 1e-30, 0.49999997].map(f32::to_bits));
    for bits in ratios {
        let ratio = f32::from_bits(bits);
        for length in (0..=400u16).chain([1000, 4097, 30_000, u16::MAX]) {
            let expected = (f32::from(length) * ratio).round() as u16;
            assert_eq!(scaled_extent_exec(length, bits), expected, "{length} * {ratio}");
        }
    }
}

#[test]
fn split_extent_matches_single_precision_rounding_for_every_length_at_half() {
    let bits = 0.5f32.to_bits();
    for length in 0..=u16::MAX {
        assert_eq!(scaled_extent_exec(length, bits), (f32::from(length) * 0.5).round() as u16);
    }
}

#[test]
fn count_ratio_matches_single_precision_division() {
    for total in 1..=300usize {
        for first in 1..=total {
            let expected = (first as f32 / total as f32).to_bits();
            assert_eq!(count_ratio_exec(first, total), expected, "{first}/{total}");
        }
    }
    for (first, total) in [(16_777_217, 33_554_433), (1, 100_000_007), (99_999_999, 100_000_000)] {
        assert_eq!(count_ratio_exec(first, total), (first as f32 / total as f32).to_bits());
    }
}

#[test]
fn splitting_a_rectangle_keeps_its_total_extent() {
    let area = Rect { x: 10, y: 20, width: 101, height: 57 };
    let (first, second) = area.split(SplitDirection::Right, Ratio::new(0.3f32.to_bits()).unwrap());
    assert_eq!(first, Rect { x: 10, y: 20, width: 30, height: 57 });
    assert_eq!(second, Rect { x: 40, y: 20, width: 71, height: 57 });
    let (top, bottom) = area.split(SplitDirection::Down, Ratio::new(0.5f32.to_bits()).unwrap());
    assert_eq!(top, Rect { x: 10, y: 20, width: 101, height: 29 });
    assert_eq!(bottom, Rect { x: 10, y: 49, width: 101, height: 28 });
}

#[test]
fn ratios_compare_by_value_and_keep_their_sign() {
    let negative = Ratio::new((-0.0f32).to_bits()).unwrap();
    let positive = Ratio::new(0.0f32.to_bits()).unwrap();
    assert_eq!(negative, positive);
    assert_eq!(negative.get(), 0x8000_0000);
    assert_ne!(positive, Ratio::half());
    let pane = |id: &str| Box::new(Node::Pane { id: id.into() });
    let with = |ratio| Node::Split { direction: SplitDirection::Right, ratio, first: pane("a"), second: pane("b") };
    assert_eq!(with(negative), with(positive));
    assert!(with(negative).same_as(&with(positive)));
}
