use herdr_tiling::herdr::client::MovedPane;
use herdr_tiling::rebuild::plan::compile;
use herdr_tiling::rebuild::state::Journal;
use herdr_tiling::rebuild::{
    apply, ensure_recovered, recover, require_move, validate_compatible, Call, Effect, Event,
    Rebuild,
};
use herdr_tiling::tree::{Layout, Node, Ratio, SplitDirection};

fn ratio(value: f32) -> Ratio {
    Ratio::new(value.to_bits()).unwrap()
}

fn two_pane_layout() -> Layout {
    Layout {
        workspace_id: "w1".into(),
        tab_id: "w1:t1".into(),
        zoomed: true,
        focused_pane_id: "w1:p1".into(),
        root: Node::Split {
            direction: SplitDirection::Right,
            ratio: ratio(0.6),
            first: Box::new(Node::Pane { id: "w1:p1".into() }),
            second: Box::new(Node::Pane { id: "w1:p2".into() }),
        },
    }
}

fn moved(pane_id: &str, tab_id: &str) -> Event {
    Event::Moved(Ok(MovedPane {
        changed: true,
        pane_id: pane_id.into(),
        reason: None,
        tab_id: tab_id.into(),
    }))
}

/// What a driver saw while running a rebuild to its end.
struct Run {
    result: Result<(), String>,
    calls: Vec<Call>,
    journal: Option<Journal>,
    writes: Vec<usize>,
}

/// Runs `rebuild`, answering each call with `answer` and keeping the journal
/// in memory, starting from `journal`.
fn drive(mut rebuild: Rebuild, journal: Option<Journal>, mut answer: impl FnMut(usize, &Call) -> Event) -> Run {
    let mut run = Run { result: Ok(()), calls: Vec::new(), journal, writes: Vec::new() };
    loop {
        let event = match rebuild.effect() {
            Effect::Finish(result) => {
                run.result = result;
                return run;
            }
            Effect::SaveJournal(journal) => {
                run.writes.push(journal.completed_step);
                run.journal = Some(journal);
                Event::Done(Ok(()))
            }
            Effect::RemoveJournal => {
                run.journal = None;
                Event::Done(Ok(()))
            }
            Effect::Call(call) => {
                let event = answer(run.calls.len(), &call);
                run.calls.push(call);
                event
            }
        };
        rebuild.resume(event);
    }
}

fn method(call: &Call) -> &'static str {
    match call {
        Call::MoveToNewTab { .. } | Call::MoveToTab { .. } => "pane.move",
        Call::SetSplitRatio { .. } => "layout.set_split_ratio",
        Call::Focus { .. } => "pane.focus",
        Call::Zoom { .. } => "pane.zoom",
        Call::ExportLayout { .. } => "layout.export",
    }
}

#[test]
fn recovery_restores_the_original_tree_after_every_interrupted_step() {
    let original = two_pane_layout();
    let step_count = compile(&original).unwrap().commands.len();

    for completed_step in 0..=step_count {
        let journal = Journal { original: original.copy(), active_anchor: "w1:p2".into(), completed_step };
        let rebuild = recover(Some(journal.copy())).unwrap().unwrap();
        let run = drive(rebuild, Some(journal), |index, call| match index {
            0 | 2 | 7 => Event::Done(Ok(())),
            1 => moved("w1:p1", "w1:t1"),
            3 => moved("w1:p2", "w1:t2"),
            4 => moved("w1:p2", "w1:t1"),
            5 | 6 => Event::Done(Ok(())),
            8 => Event::Exported(Ok(two_pane_layout())),
            _ => panic!("unexpected call {call:?}"),
        });

        assert_eq!(run.result, Ok(()));
        let methods: Vec<_> = run.calls.iter().map(method).collect();
        assert_eq!(
            methods,
            [
                "pane.zoom",
                "pane.move",
                "pane.zoom",
                "pane.move",
                "pane.move",
                "layout.set_split_ratio",
                "pane.focus",
                "pane.zoom",
                "layout.export",
            ]
        );
        assert!(matches!(&run.calls[3], Call::MoveToNewTab { workspace_id, .. } if workspace_id == "w1"));
        assert!(matches!(&run.calls[4], Call::MoveToTab { tab_id, .. } if tab_id == "w1:t1"));
        assert!(matches!(&run.calls[5], Call::SetSplitRatio { path, .. } if path.is_empty()));
        assert!(matches!(&run.calls[6], Call::Focus { pane_id } if pane_id == "w1:p1"));
        assert!(matches!(&run.calls[7], Call::Zoom { zoomed: true, .. }));
        assert!(run.journal.is_none());
        assert_eq!(ensure_recovered(run.journal.is_some()), Ok(()));
        assert!(matches!(recover(run.journal), Ok(None)));
    }
}

#[test]
fn recovery_with_the_anchor_in_place_runs_the_plan_directly() {
    let journal = Journal { original: two_pane_layout(), active_anchor: "w1:p1".into(), completed_step: 3 };
    let rebuild = recover(Some(journal.copy())).unwrap().unwrap();
    let run = drive(rebuild, Some(journal), |index, _| match index {
        1 => moved("w1:p2", "w1:t2"),
        2 => moved("w1:p2", "w1:t1"),
        6 => Event::Exported(Ok(two_pane_layout())),
        _ => Event::Done(Ok(())),
    });
    assert_eq!(run.result, Ok(()));
    assert_eq!(run.calls.len(), 7);
    assert_eq!(run.writes, [1, 2, 3, 4, 5, 6]);
    assert!(run.journal.is_none());
}

#[test]
fn recovery_accepts_an_anchor_already_in_the_tab() {
    let journal = Journal { original: two_pane_layout(), active_anchor: "w1:p2".into(), completed_step: 0 };
    let run = drive(recover(Some(journal.copy())).unwrap().unwrap(), Some(journal), |index, _| match index {
        1 => Event::Moved(Ok(MovedPane {
            changed: false,
            pane_id: "w1:p1".into(),
            reason: Some("same_tab".into()),
            tab_id: "w1:t1".into(),
        })),
        3 => moved("w1:p2", "w1:t2"),
        4 => moved("w1:p2", "w1:t1"),
        8 => Event::Exported(Ok(two_pane_layout())),
        _ => Event::Done(Ok(())),
    });
    assert_eq!(run.result, Ok(()));
    assert_eq!(run.writes[0], 0);
}

#[test]
fn successful_commands_with_a_wrong_final_layout_keep_the_journal() {
    let mut original = two_pane_layout();
    original.root = Node::Pane { id: "w1:p1".into() };
    let rebuild = apply(&original, &original).unwrap();
    let run = drive(rebuild, None, |index, call| match index {
        0 => {
            assert_eq!(method(call), "pane.focus");
            Event::Done(Ok(()))
        }
        1 => {
            assert_eq!(method(call), "pane.zoom");
            Event::Done(Ok(()))
        }
        2 => {
            assert_eq!(method(call), "layout.export");
            let mut exported = original.copy();
            exported.zoomed = false;
            Event::Exported(Ok(exported))
        }
        _ => panic!("unexpected call {call:?}"),
    });
    let error = run.result.unwrap_err();
    assert!(error.contains("differs from the desired tree"));
    assert_eq!(run.journal.unwrap().original, original);
}

#[test]
fn failed_rebuild_keeps_the_original_journal() {
    let original = two_pane_layout();
    let mut desired = original.copy();
    desired.root = Node::Split {
        direction: SplitDirection::Down,
        ratio: ratio(0.5),
        first: Box::new(Node::Pane { id: "w1:p2".into() }),
        second: Box::new(Node::Pane { id: "w1:p1".into() }),
    };
    let rebuild = apply(&original, &desired).unwrap();
    let run = drive(rebuild, None, |index, call| {
        if index == 0 {
            assert_eq!(method(call), "pane.zoom");
            Event::Done(Ok(()))
        } else {
            assert!(matches!(call, Call::MoveToNewTab { .. }));
            Event::Moved(Ok(MovedPane {
                changed: false,
                pane_id: "w1:p1".into(),
                reason: Some("zoomed_tab".into()),
                tab_id: "w1:t1".into(),
            }))
        }
    });
    let error = run.result.unwrap_err();
    assert!(error.contains("zoomed_tab"));
    assert_eq!(error, "park pane w1:p1: pane move made no change (zoomed_tab)");
    let journal = run.journal.unwrap();
    assert_eq!(journal.original, original);
    assert_eq!(journal.completed_step, 1);
}

#[test]
fn failed_calls_name_the_command_and_keep_the_journal() {
    let original = two_pane_layout();
    let run = drive(apply(&original, &original).unwrap(), None, |index, _| match index {
        0 => Event::Done(Ok(())),
        1 => moved("w1:p2", "w1:t2"),
        2 => moved("w1:p2", "w1:t1"),
        _ => Event::Done(Err("boom".into())),
    });
    assert_eq!(run.result, Err("restore split ratio at []: boom".to_owned()));
    assert_eq!(run.journal.unwrap().completed_step, 3);
}

#[test]
fn incompatible_layouts_are_refused_before_any_effect() {
    let original = two_pane_layout();
    let mut other_tab = original.copy();
    other_tab.tab_id = "w1:t9".into();
    assert_eq!(
        apply(&original, &other_tab).err(),
        Some("original and desired layouts must address the same tab".to_owned())
    );
    let mut other_panes = original.copy();
    other_panes.root = Node::Pane { id: "w1:p1".into() };
    assert_eq!(
        validate_compatible(&original, &other_panes),
        Err("original and desired layouts must contain the same panes".to_owned())
    );
    assert_eq!(validate_compatible(&original, &original), Ok(()));
    assert_eq!(
        ensure_recovered(true),
        Err("an interrupted rebuild must be recovered first".to_owned())
    );
}

#[test]
fn a_move_that_changed_nothing_is_refused_with_its_reason() {
    let unchanged = MovedPane { changed: false, pane_id: "p".into(), reason: None, tab_id: "t".into() };
    assert_eq!(
        require_move(&unchanged, "place pane p"),
        Err("place pane p: pane move made no change (unknown reason)".to_owned())
    );
    let changed = MovedPane { changed: true, ..unchanged };
    assert_eq!(require_move(&changed, "place pane p"), Ok(()));
}

#[test]
fn journal_writes_follow_every_completed_command() {
    let original = two_pane_layout();
    let run = drive(apply(&original, &original).unwrap(), None, |index, _| match index {
        1 => moved("w1:p2", "w1:t2"),
        2 => moved("w1:p2", "w1:t1"),
        6 => Event::Exported(Ok(two_pane_layout())),
        _ => Event::Done(Ok(())),
    });
    assert_eq!(run.result, Ok(()));
    assert_eq!(run.writes, [0, 1, 2, 3, 4, 5, 6]);
    assert!(run.journal.is_none());
}
