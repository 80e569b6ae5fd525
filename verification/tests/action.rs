use herdr_tiling::action::Action;
use herdr_tiling::preset::Preset;
use herdr_tiling::tree::Direction;

const USAGE: &str = "usage: herdr-tiling <action>\n\nactions:\n  move-left | move-right | move-up | move-down | toggle-split\n  even-horizontal | even-vertical | main-horizontal | main-vertical | tiled | cycle\n  recover";

#[test]
fn parses_every_action_and_rejects_invalid_arguments() {
    let cases = [
        ("move-left", Action::Move(Direction::Left)),
        ("move-right", Action::Move(Direction::Right)),
        ("move-up", Action::Move(Direction::Up)),
        ("move-down", Action::Move(Direction::Down)),
        ("toggle-split", Action::ToggleSplit),
        ("even-horizontal", Action::Layout(Preset::EvenHorizontal)),
        ("even-vertical", Action::Layout(Preset::EvenVertical)),
        ("main-horizontal", Action::Layout(Preset::MainHorizontal)),
        ("main-vertical", Action::Layout(Preset::MainVertical)),
        ("tiled", Action::Layout(Preset::Tiled)),
        ("cycle", Action::Cycle),
        ("recover", Action::Recover),
    ];

    for (command, expected) in cases {
        assert_eq!(Action::parse(vec![command.into()]), Ok(expected));
    }

    assert!(Action::parse(vec![]).is_err());
    assert!(Action::parse(vec!["unknown".into()]).is_err());
    assert!(Action::parse(vec!["recover".into(), "extra".into()]).is_err());
}

#[test]
fn every_rejection_is_the_usage_text() {
    assert_eq!(Action::parse(vec![]), Err(USAGE.to_owned()));
    assert_eq!(Action::parse(vec!["Move-Left".into()]), Err(USAGE.to_owned()));
    assert_eq!(Action::parse(vec!["tiled".into(), "tiled".into()]), Err(USAGE.to_owned()));
}
