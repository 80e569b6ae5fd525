use herdr_tiling::config::{Config, DEFAULT_MAIN_RATIO, MAX_MAIN_RATIO, MIN_MAIN_RATIO};
use herdr_tiling::preset::Preset;

fn config(cycle_layouts: Vec<Preset>, main_ratio: f32) -> Config {
    Config { cycle_layouts, main_ratio: main_ratio.to_bits() }
}

#[test]
fn loads_defaults_and_validates_overrides() {
    let defaults = Config::default();
    assert_eq!(defaults.cycle_layouts, Preset::all());
    assert_eq!(f32::from_bits(defaults.main_ratio), 0.5);
    assert_eq!(defaults.validate(), Ok(()));

    let overridden = config(vec![Preset::Tiled, Preset::EvenHorizontal], 0.7);
    assert_eq!(overridden.validate(), Ok(()));

    for invalid in [
        config(vec![], 0.5),
        config(vec![Preset::Tiled, Preset::Tiled], 0.5),
        config(Preset::all(), 1.0),
    ] {
        assert!(invalid.validate().is_err());
    }
}

#[test]
fn reports_each_configuration_problem() {
    assert_eq!(
        config(vec![], 0.5).validate(),
        Err("layout config cycle_layouts must not be empty".to_owned())
    );
    assert_eq!(
        config(vec![Preset::Tiled, Preset::MainVertical, Preset::Tiled], 0.5).validate(),
        Err("layout config cycle_layouts must not contain duplicates".to_owned())
    );
    for ratio in [0.05, 0.95, -0.5, f32::NAN, f32::INFINITY, 0.099_999_99] {
        assert_eq!(
            config(vec![Preset::Tiled], ratio).validate(),
            Err("layout config main_ratio must be between 0.1 and 0.9".to_owned()),
            "{ratio}"
        );
    }
    for ratio in [0.1, 0.9, 0.5, 0.25] {
        assert_eq!(config(vec![Preset::Tiled], ratio).validate(), Ok(()), "{ratio}");
    }
}

#[test]
fn ratio_bounds_are_the_single_precision_patterns() {
    assert_eq!(DEFAULT_MAIN_RATIO, 0.5f32.to_bits());
    assert_eq!(MIN_MAIN_RATIO, 0.1f32.to_bits());
    assert_eq!(MAX_MAIN_RATIO, 0.9f32.to_bits());
}
