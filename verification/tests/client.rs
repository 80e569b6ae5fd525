use herdr_tiling::herdr::client::{
    check_response, layout_area_result, validate_layout, ApiError, Client, Destination, Error,
    ExportLayout, ExportNode, PaneLayoutArea, Params, Request, Response, ResultHeader,
};
use herdr_tiling::tree::{Direction, Node, Ratio, Rect, SplitDirection};

fn reply(id: &str, result_type: &str) -> Response {
    Response {
        id: id.into(),
        result: Some(ResultHeader { result_type: Some(result_type.into()) }),
        error: None,
    }
}

fn export_pane(id: &str) -> ExportNode {
    ExportNode::Pane { pane_id: Some(id.into()) }
}

fn export_split(ratio: f32, first: ExportNode, second: ExportNode) -> ExportNode {
    ExportNode::Split {
        direction: SplitDirection::Right,
        ratio: ratio.to_bits(),
        first: Box::new(first),
        second: Box::new(second),
    }
}

/// The layout Herdr exports for the two-pane test tab.
fn exported(root: ExportNode) -> ExportLayout {
    ExportLayout {
        workspace_id: "w1".into(),
        tab_id: "w1:t1".into(),
        zoomed: false,
        focused_pane_id: "w1:p1".into(),
        root,
    }
}

fn success() -> ExportLayout {
    exported(export_split(0.6, export_pane("w1:p1"), export_pane("w1:p2")))
}

fn error_text(result: Result<impl std::fmt::Debug, Error>) -> String {
    result.unwrap_err().text()
}

fn pane_of(request: &Request) -> &str {
    match &request.params {
        Params::Pane { pane_id } => pane_id,
        Params::Neighbor { pane_id, .. } => pane_id,
        Params::Move { pane_id, .. } => pane_id,
        Params::Zoom { pane_id, .. } => pane_id,
        other => panic!("no pane in {other:?}"),
    }
}

#[test]
fn exports_a_validated_layout_without_a_live_server() {
    let mut client = Client::new("/tmp/herdr.sock");
    let request = client.export_layout("w1:p1");
    assert_eq!(request.method, "layout.export");
    assert!(matches!(&request.params, Params::Export { pane_id: Some(pane), tab_id: None } if pane == "w1:p1"));
    assert!(check_response(Some(&reply(&request.id, "layout_export")), &request).is_ok());
    let layout = validate_layout(success()).unwrap();

    assert_eq!(layout.workspace_id, "w1");
    assert_eq!(layout.tab_id, "w1:t1");
    assert_eq!(layout.focused_pane_id, "w1:p1");
    assert_eq!(
        layout.root,
        Node::Split {
            direction: SplitDirection::Right,
            ratio: Ratio::new(0.6f32.to_bits()).unwrap(),
            first: Box::new(Node::Pane { id: "w1:p1".into() }),
            second: Box::new(Node::Pane { id: "w1:p2".into() }),
        }
    );

    let mut client = Client::new("/tmp/herdr.sock");
    let request = client.export_tab_layout("w1:t1");
    assert_eq!(request.method, "layout.export");
    assert!(matches!(&request.params, Params::Export { pane_id: None, tab_id: Some(tab) } if tab == "w1:t1"));
    assert!(check_response(Some(&reply(&request.id, "layout_export")), &request).is_ok());
    assert_eq!(validate_layout(success()).unwrap(), layout);
}

#[test]
fn rejects_malformed_and_error_responses() {
    let malformed = exported(export_split(0.6, export_pane("w1:p1"), export_pane("w1:p1")));
    let error = error_text(validate_layout(malformed));
    assert!(error.contains("duplicate pane ID"), "{error:?}");

    let mut client = Client::new("/tmp/herdr.sock");
    let request = client.export_layout("w1:p1");
    let api_error = Response {
        id: request.id.clone(),
        result: None,
        error: Some(ApiError { code: "tab_not_found".into(), message: "no such tab".into() }),
    };
    let error = error_text(check_response(Some(&api_error), &request));
    assert!(error.contains("tab_not_found"), "{error:?}");
    assert_eq!(error, "layout.export: Herdr error tab_not_found: no such tab");

    let undecodable = serde_json::from_str::<serde_json::Value>("not json\n").unwrap_err();
    let error = Error::Json { operation: "decode Herdr response", message: undecodable.to_string() };
    assert!(error.text().contains("decode Herdr response"), "{:?}", error.text());
}

#[test]
fn rejects_invalid_ratios_and_incomplete_splits() {
    let error = error_text(validate_layout(exported(export_split(
        1.1,
        export_pane("w1:p1"),
        export_pane("w1:p2"),
    ))));
    assert!(error.contains("between 0 and 1"), "{error:?}");
    assert_eq!(error, "layout.export: split ratio must be finite and between 0 and 1");
}

#[test]
fn reads_layout_area_and_rejects_stale_or_empty_geometry() {
    let mut client = Client::new("/tmp/herdr.sock");
    let request = client.layout_area("w1:p1");
    assert_eq!(request.method, "pane.layout");
    assert_eq!(pane_of(&request), "w1:p1");
    assert_eq!(request.expected_type, "pane_layout");
    let area = Rect { x: 3, y: 7, width: 201, height: 81 };
    assert_eq!(
        layout_area_result(PaneLayoutArea { tab_id: "w1:t1".into(), area }, "w1:t1").unwrap(),
        area
    );

    let error = error_text(layout_area_result(PaneLayoutArea { tab_id: "w1:t1".into(), area }, "w1:t2"));
    assert!(error.contains("changed tabs"));

    let empty = Rect { x: 0, y: 0, width: 0, height: 40 };
    let error = error_text(layout_area_result(PaneLayoutArea { tab_id: "w1:t1".into(), area: empty }, "w1:t1"));
    assert!(error.contains("empty layout area"));
}

#[test]
fn rejects_an_area_that_reaches_past_the_largest_coordinate() {
    let overflowing = Rect { x: 65_000, y: 0, width: 600, height: 40 };
    let error = error_text(layout_area_result(PaneLayoutArea { tab_id: "t".into(), area: overflowing }, "t"));
    assert_eq!(error, "pane.layout: invalid or empty layout area");
    let edge = Rect { x: 65_000, y: 0, width: 535, height: 40 };
    assert_eq!(layout_area_result(PaneLayoutArea { tab_id: "t".into(), area: edge }, "t").unwrap(), edge);
}

#[test]
fn sends_the_required_mutation_and_neighbor_requests() {
    let request = Client::new("/tmp/s").neighbor("w1:p1", Direction::Left);
    assert_eq!(request.method, "pane.neighbor");
    assert!(matches!(&request.params, Params::Neighbor { direction: "left", .. }));
    assert_eq!(request.id, "herdr-tiling-1");

    let request = Client::new("/tmp/s").move_to_tab(
        "w1:p1",
        "w1:t2",
        "w1:p2",
        SplitDirection::Down,
        Ratio::new(0.5f32.to_bits()).unwrap(),
    );
    assert_eq!(request.method, "pane.move");
    match &request.params {
        Params::Move { pane_id, destination: Destination::Tab { tab_id, split, ratio, target_pane_id }, focus } => {
            assert_eq!(pane_id, "w1:p1");
            assert_eq!(tab_id, "w1:t2");
            assert_eq!(*split, "down");
            assert_eq!(f32::from_bits(ratio.get()), 0.5);
            assert_eq!(target_pane_id, "w1:p2");
            assert!(!focus);
        }
        other => panic!("unexpected parameters {other:?}"),
    }
    assert_eq!(request.expected_type, "pane_move");

    let request = Client::new("/tmp/s").set_split_ratio(
        "w1:t1",
        vec![false, true],
        Ratio::new(0.6f32.to_bits()).unwrap(),
    );
    assert_eq!(request.method, "layout.set_split_ratio");
    assert!(matches!(&request.params, Params::SplitRatio { path, .. } if *path == vec![false, true]));
    assert!(check_response(Some(&reply("herdr-tiling-1", "layout_split_ratio_set")), &request).is_ok());

    let request = Client::new("/tmp/s").focus("w1:p1");
    assert_eq!(request.method, "pane.focus");
    assert!(check_response(Some(&reply("herdr-tiling-1", "pane_info")), &request).is_ok());

    let request = Client::new("/tmp/s").zoom("w1:p1", true);
    assert_eq!(request.method, "pane.zoom");
    assert!(matches!(&request.params, Params::Zoom { mode: "on", .. }));
    assert!(check_response(Some(&reply("herdr-tiling-1", "pane_zoom")), &request).is_ok());
}

#[test]
fn numbers_requests_from_one_per_client() {
    let mut client = Client::new("/tmp/s");
    assert_eq!(client.next_id(), 1);
    assert_eq!(client.focus("a").id, "herdr-tiling-1");
    assert_eq!(client.zoom("a", false).id, "herdr-tiling-2");
    let request = client.move_to_new_tab("a", "w1");
    assert_eq!(request.id, "herdr-tiling-3");
    assert!(matches!(&request.params, Params::Move { destination: Destination::NewTab { workspace_id }, .. } if workspace_id == "w1"));
    assert_eq!(client.next_id(), 4);
    assert_eq!(client.socket_path(), "/tmp/s");
}

#[test]
fn checks_every_reply_in_order() {
    let mut client = Client::new("/tmp/s");
    let request = client.focus("w1:p1");
    assert_eq!(
        error_text(check_response(None, &request)),
        "pane.focus: Herdr closed the socket without a response"
    );
    assert_eq!(
        error_text(check_response(Some(&reply("herdr-tiling-9", "pane_info")), &request)),
        "pane.focus: response ID \"herdr-tiling-9\" does not match request ID \"herdr-tiling-1\""
    );
    assert_eq!(
        error_text(check_response(Some(&reply("a\"b", "pane_info")), &request)),
        "pane.focus: response ID \"a\\\"b\" does not match request ID \"herdr-tiling-1\""
    );
    let no_result = Response { id: request.id.clone(), result: None, error: None };
    assert_eq!(
        error_text(check_response(Some(&no_result), &request)),
        "pane.focus: response has no result or error"
    );
    let untyped = Response {
        id: request.id.clone(),
        result: Some(ResultHeader { result_type: None }),
        error: None,
    };
    assert_eq!(
        error_text(check_response(Some(&untyped), &request)),
        "pane.focus: response result has no string type"
    );
    assert_eq!(
        error_text(check_response(Some(&reply("herdr-tiling-1", "pane_zoom")), &request)),
        "pane.focus: expected result type \"pane_info\", got \"pane_zoom\""
    );
}

#[test]
fn rejects_missing_ids_and_an_absent_focused_pane() {
    let error = error_text(validate_layout(exported(export_split(
        0.5,
        ExportNode::Pane { pane_id: None },
        export_pane("w1:p1"),
    ))));
    assert_eq!(error, "layout.export: pane node has no pane ID");
    let error = error_text(validate_layout(exported(export_split(0.5, export_pane(""), export_pane("w1:p1")))));
    assert_eq!(error, "layout.export: pane node has no pane ID");
    let mut layout = success();
    layout.focused_pane_id = "w1:p9".into();
    assert_eq!(
        error_text(validate_layout(layout)),
        "layout.export: focused pane \"w1:p9\" is not present in the tree"
    );
    let error = error_text(validate_layout(exported(export_split(0.5, export_pane("w1:p1"), export_pane("w1:p1")))));
    assert_eq!(error, "layout.export: duplicate pane ID \"w1:p1\"");
}

#[test]
fn renders_each_error_as_one_line() {
    assert_eq!(
        Error::Io { operation: "connect to Herdr socket", message: "refused".into() }.text(),
        "connect to Herdr socket: refused"
    );
    assert_eq!(Error::Protocol("plain".into()).text(), "plain");
}
