use herdr_tiling::action::Action;
use herdr_tiling::herdr::environment::validate_with;
use herdr_tiling::preset::Preset;
use herdr_tiling::tree::Direction;

fn variables(pairs: &[(&str, &str)]) -> Vec<(String, String)> {
    pairs.iter().map(|(name, value)| (name.to_string(), value.to_string())).collect()
}

#[test]
fn validates_environment_for_pane_actions_and_recovery() {
    let pane = Action::Move(Direction::Left);
    let recover = Action::Recover;
    let layout = Action::Cycle;
    let values = variables(&[
        ("HERDR_SOCKET_PATH", "/tmp/herdr.sock"),
        ("HERDR_PANE_ID", "w1:p1"),
        ("HERDR_PLUGIN_STATE_DIR", "/tmp/state"),
        ("HERDR_PLUGIN_CONFIG_DIR", "/tmp/config"),
        ("HERDR_TAB_ID", "w1:t1"),
    ]);

    assert!(validate_with(&pane, &values).is_ok());
    assert!(validate_with(&recover, &values).is_ok());
    assert!(validate_with(&layout, &values).is_ok());
    assert!(validate_with(&pane, &variables(&[])).is_err());
    assert!(validate_with(
        &pane,
        &variables(&[("HERDR_SOCKET_PATH", "/tmp/s"), ("HERDR_PANE_ID", "w1:p1")])
    )
    .is_err());
    assert!(validate_with(&pane, &variables(&[("HERDR_SOCKET_PATH", "/tmp/s")])).is_err());
    assert!(validate_with(&recover, &variables(&[("HERDR_SOCKET_PATH", "/tmp/s")])).is_err());
}

#[test]
fn names_the_first_missing_variable_and_treats_empty_as_missing() {
    assert_eq!(
        validate_with(&Action::ToggleSplit, &variables(&[])),
        Err("required environment variable HERDR_SOCKET_PATH is missing".to_owned())
    );
    assert_eq!(
        validate_with(
            &Action::Layout(Preset::Tiled),
            &variables(&[
                ("HERDR_SOCKET_PATH", "/tmp/s"),
                ("HERDR_PLUGIN_STATE_DIR", "/tmp/state"),
                ("HERDR_TAB_ID", ""),
                ("HERDR_PLUGIN_CONFIG_DIR", "/tmp/config"),
            ])
        ),
        Err("required environment variable HERDR_TAB_ID is missing".to_owned())
    );
    assert_eq!(
        validate_with(
            &Action::Recover,
            &variables(&[("HERDR_SOCKET_PATH", "/tmp/s"), ("HERDR_PLUGIN_STATE_DIR", "/tmp/state")])
        ),
        Ok(())
    );
}
