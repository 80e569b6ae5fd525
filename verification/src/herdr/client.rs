//! The Herdr protocol methods the plugin uses: the requests it sends, in the
//! order it numbers them, and the checks each reply must pass. A driver
//! carries every request over Herdr's newline-delimited Unix socket and
//! hands back the decoded reply.

use crate::rebuild::plan::rebuild_refusal;
use crate::rounding::is_unit_interval;
use crate::text::{debug_quoted, decimal, decimal_text, join2, join3, join5, quoted, same_text};
use crate::tree::{
    panes, ratio_range_message, Direction, Layout, LayoutView, Node, Ratio, Rect,
    SplitDirection, Tree,
};
use vstd::prelude::*;

verus! {

/// A contextual socket, JSON, or protocol failure.
#[derive(Debug)]
pub enum Error {
    /// A local socket operation failed.
    Io {
        /// Operation being attempted.
        operation: &'static str,
        /// What the operating system reported.
        message: String,
    },
    /// JSON encoding or decoding failed.
    Json {
        /// Operation being attempted.
        operation: &'static str,
        /// What the JSON decoder reported.
        message: String,
    },
    /// Herdr returned an error or violated the expected response contract.
    Protocol(String),
}

impl Error {
    /// The error as one line of text.
    pub open spec fn spec_text(&self) -> Seq<char> {
        match self {
            Error::Io { operation, message } => operation@ + ": "@ + message@,
            Error::Json { operation, message } => operation@ + ": "@ + message@,
            Error::Protocol(message) => message@,
        }
    }

    /// Renders the error as one line: the operation and its cause, or the
    /// protocol message.
    pub fn text(&self) -> (text: String)
        ensures
            text@ == self.spec_text(),
    {
        match self {
            Error::Io { operation, message } => join3(operation, ": ", message.as_str()),
            Error::Json { operation, message } => join3(operation, ": ", message.as_str()),
            Error::Protocol(message) => message.clone(),
        }
    }
}

/// Pane identity returned after a successful move.
#[derive(Clone, Debug, PartialEq, Eq)]
pub struct MovedPane {
    /// Whether Herdr performed the requested move.
    pub changed: bool,
    /// Pane ID after the move.
    pub pane_id: String,
    /// Reason for a no-op move.
    pub reason: Option<String>,
    /// Destination tab ID.
    pub tab_id: String,
}

/// Where `pane.move` puts a pane.
#[derive(Debug)]
pub enum Destination {
    /// Beside a pane of an existing tab.
    Tab { tab_id: String, split: &'static str, ratio: Ratio, target_pane_id: String },
    /// Into a new tab of a workspace.
    NewTab { workspace_id: String },
}

/// The parameters of one request.
#[derive(Debug)]
pub enum Params {
    /// `layout.export` for the tab of a pane, or for a tab.
    Export { pane_id: Option<String>, tab_id: Option<String> },
    /// A method that names one pane.
    Pane { pane_id: String },
    /// `pane.neighbor`.
    Neighbor { pane_id: String, direction: &'static str },
    /// `pane.move`.
    Move { pane_id: String, destination: Destination, focus: bool },
    /// `layout.set_split_ratio`, addressing a split by its child path.
    SplitRatio { tab_id: String, path: Vec<bool>, ratio: Ratio },
    /// `pane.zoom`.
    Zoom { pane_id: String, mode: &'static str },
}

/// One numbered request and the result type its reply must carry.
#[derive(Debug)]
pub struct Request {
    /// The request ID, unique per client.
    pub id: String,
    /// The protocol method.
    pub method: &'static str,
    /// The method's parameters.
    pub params: Params,
    /// The `type` of the reply's result.
    pub expected_type: &'static str,
}

/// The mathematical value of a [`Destination`].
pub enum DestinationView {
    Tab { tab_id: Seq<char>, split: Seq<char>, ratio: u32, target_pane_id: Seq<char> },
    NewTab { workspace_id: Seq<char> },
}

/// The mathematical value of [`Params`].
pub enum ParamsView {
    Export { pane_id: Option<Seq<char>>, tab_id: Option<Seq<char>> },
    Pane { pane_id: Seq<char> },
    Neighbor { pane_id: Seq<char>, direction: Seq<char> },
    Move { pane_id: Seq<char>, destination: DestinationView, focus: bool },
    SplitRatio { tab_id: Seq<char>, path: Seq<bool>, ratio: u32 },
    Zoom { pane_id: Seq<char>, mode: Seq<char> },
}

/// The mathematical value of a [`Request`].
pub struct RequestView {
    pub id: Seq<char>,
    pub method: Seq<char>,
    pub params: ParamsView,
    pub expected_type: Seq<char>,
}

/// The value of an optional string.
pub open spec fn text_option(value: Option<String>) -> Option<Seq<char>> {
    match value {
        Some(text) => Some(text@),
        None => None,
    }
}

impl View for Destination {
    type V = DestinationView;

    open spec fn view(&self) -> DestinationView {
        match self {
            Destination::Tab { tab_id, split, ratio, target_pane_id } => DestinationView::Tab {
                tab_id: tab_id@,
                split: split@,
                ratio: ratio.pattern(),
                target_pane_id: target_pane_id@,
            },
            Destination::NewTab { workspace_id } => DestinationView::NewTab {
                workspace_id: workspace_id@,
            },
        }
    }
}

impl View for Params {
    type V = ParamsView;

    open spec fn view(&self) -> ParamsView {
        match self {
            Params::Export { pane_id, tab_id } => ParamsView::Export {
                pane_id: text_option(*pane_id),
                tab_id: text_option(*tab_id),
            },
            Params::Pane { pane_id } => ParamsView::Pane { pane_id: pane_id@ },
            Params::Neighbor { pane_id, direction } => ParamsView::Neighbor {
                pane_id: pane_id@,
                direction: direction@,
            },
            Params::Move { pane_id, destination, focus } => ParamsView::Move {
                pane_id: pane_id@,
                destination: destination@,
                focus: *focus,
            },
            Params::SplitRatio { tab_id, path, ratio } => ParamsView::SplitRatio {
                tab_id: tab_id@,
                path: path@,
                ratio: ratio.pattern(),
            },
            Params::Zoom { pane_id, mode } => ParamsView::Zoom { pane_id: pane_id@, mode: mode@ },
        }
    }
}

impl View for Request {
    type V = RequestView;

    open spec fn view(&self) -> RequestView {
        RequestView {
            id: self.id@,
            method: self.method@,
            params: self.params@,
            expected_type: self.expected_type@,
        }
    }
}

/// The ID of the `n`th request a client sends.
pub open spec fn request_id(n: u64) -> Seq<char> {
    "herdr-tiling-"@ + decimal(n as nat)
}

/// Blocking client for Herdr's newline-delimited Unix socket API: it opens
/// a fresh socket for each request and numbers requests from 1.
#[derive(Debug)]
pub struct Client {
    socket_path: String,
    next_id: u64,
}

impl Client {
    /// The socket the client connects to.
    pub closed spec fn spec_socket_path(&self) -> Seq<char> {
        self.socket_path@
    }

    /// The number the next request carries.
    pub closed spec fn spec_next_id(&self) -> u64 {
        self.next_id
    }

    /// Creates a client that opens a fresh socket for each request.
    pub fn new(socket_path: &str) -> (client: Self)
        ensures
            client.spec_socket_path() == socket_path@,
            client.spec_next_id() == 1,
    {
        Client { socket_path: socket_path.to_owned(), next_id: 1 }
    }

    /// The socket path.
    pub fn socket_path(&self) -> (path: &str)
        ensures
            path@ == self.spec_socket_path(),
    {
        self.socket_path.as_str()
    }

    /// The number the next request will carry.
    pub fn next_id(&self) -> (id: u64)
        ensures
            id == self.spec_next_id(),
    {
        self.next_id
    }

    fn start(&mut self, method: &'static str, params: Params, expected_type: &'static str) -> (request:
        Request)
        requires
            old(self).spec_next_id() < u64::MAX,
        ensures
            request@ == (RequestView {
                id: request_id(old(self).spec_next_id()),
                method: method@,
                params: params@,
                expected_type: expected_type@,
            }),
            final(self).spec_next_id() == old(self).spec_next_id() + 1,
            final(self).spec_socket_path() == old(self).spec_socket_path(),
    {
        let number = decimal_text(self.next_id);
        let mut id = "herdr-tiling-".to_owned();
        id.append(number.as_str());
        self.next_id = self.next_id + 1;
        proof {
            assert(id@ =~= request_id(old(self).spec_next_id()));
        }
        Request { id, method, params, expected_type }
    }

    /// Requests the tab containing `pane_id` as a BSP tree.
    pub fn export_layout(&mut self, pane_id: &str) -> (request: Request)
        requires
            old(self).spec_next_id() < u64::MAX,
        ensures
            request@ == (RequestView {
                id: request_id(old(self).spec_next_id()),
                method: "layout.export"@,
                params: ParamsView::Export { pane_id: Some(pane_id@), tab_id: None },
                expected_type: "layout_export"@,
            }),
            final(self).spec_next_id() == old(self).spec_next_id() + 1,
            final(self).spec_socket_path() == old(self).spec_socket_path(),
    {
        self.start(
            "layout.export",
            Params::Export { pane_id: Some(pane_id.to_owned()), tab_id: None },
            "layout_export",
        )
    }

    /// Requests `tab_id` as a BSP tree.
    pub fn export_tab_layout(&mut self, tab_id: &str) -> (request: Request)
        requires
            old(self).spec_next_id() < u64::MAX,
        ensures
            request@ == (RequestView {
                id: request_id(old(self).spec_next_id()),
                method: "layout.export"@,
                params: ParamsView::Export { pane_id: None, tab_id: Some(tab_id@) },
                expected_type: "layout_export"@,
            }),
            final(self).spec_next_id() == old(self).spec_next_id() + 1,
            final(self).spec_socket_path() == old(self).spec_socket_path(),
    {
        self.start(
            "layout.export",
            Params::Export { pane_id: None, tab_id: Some(tab_id.to_owned()) },
            "layout_export",
        )
    }

    /// Requests the tab's outer area, including when its panes are zoomed.
    pub fn layout_area(&mut self, pane_id: &str) -> (request: Request)
        requires
            old(self).spec_next_id() < u64::MAX,
        ensures
            request@ == (RequestView {
                id: request_id(old(self).spec_next_id()),
                method: "pane.layout"@,
                params: ParamsView::Pane { pane_id: pane_id@ },
                expected_type: "pane_layout"@,
            }),
            final(self).spec_next_id() == old(self).spec_next_id() + 1,
            final(self).spec_socket_path() == old(self).spec_socket_path(),
    {
        self.start("pane.layout", Params::Pane { pane_id: pane_id.to_owned() }, "pane_layout")
    }

    /// Requests the closest pane in `direction`.
    pub fn neighbor(&mut self, pane_id: &str, direction: Direction) -> (request: Request)
        requires
            old(self).spec_next_id() < u64::MAX,
        ensures
            request@ == (RequestView {
                id: request_id(old(self).spec_next_id()),
                method: "pane.neighbor"@,
                params: ParamsView::Neighbor {
                    pane_id: pane_id@,
                    direction: direction.spec_name(),
                },
                expected_type: "pane_neighbor"@,
            }),
            final(self).spec_next_id() == old(self).spec_next_id() + 1,
            final(self).spec_socket_path() == old(self).spec_socket_path(),
    {
        self.start(
            "pane.neighbor",
            Params::Neighbor { pane_id: pane_id.to_owned(), direction: direction_name(direction) },
            "pane_neighbor",
        )
    }

    /// Requests a move of a pane beside `target_pane_id` in an existing tab.
    pub fn move_to_tab(
        &mut self,
        pane_id: &str,
        tab_id: &str,
        target_pane_id: &str,
        split: SplitDirection,
        ratio: Ratio,
    ) -> (request: Request)
        requires
            old(self).spec_next_id() < u64::MAX,
        ensures
            request@ == (RequestView {
                id: request_id(old(self).spec_next_id()),
                method: "pane.move"@,
                params: ParamsView::Move {
                    pane_id: pane_id@,
                    destination: DestinationView::Tab {
                        tab_id: tab_id@,
                        split: split_spec_name(split),
                        ratio: ratio.pattern(),
                        target_pane_id: target_pane_id@,
                    },
                    focus: false,
                },
                expected_type: "pane_move"@,
            }),
            final(self).spec_next_id() == old(self).spec_next_id() + 1,
            final(self).spec_socket_path() == old(self).spec_socket_path(),
    {
        self.start(
            "pane.move",
            Params::Move {
                pane_id: pane_id.to_owned(),
                destination: Destination::Tab {
                    tab_id: tab_id.to_owned(),
                    split: split_name(split),
                    ratio,
                    target_pane_id: target_pane_id.to_owned(),
                },
                focus: false,
            },
            "pane_move",
        )
    }

    /// Requests a move of a pane into a new scratch tab of a workspace.
    pub fn move_to_new_tab(&mut self, pane_id: &str, workspace_id: &str) -> (request: Request)
        requires
            old(self).spec_next_id() < u64::MAX,
        ensures
            request@ == (RequestView {
                id: request_id(old(self).spec_next_id()),
                method: "pane.move"@,
                params: ParamsView::Move {
                    pane_id: pane_id@,
                    destination: DestinationView::NewTab { workspace_id: workspace_id@ },
                    focus: false,
                },
                expected_type: "pane_move"@,
            }),
            final(self).spec_next_id() == old(self).spec_next_id() + 1,
            final(self).spec_socket_path() == old(self).spec_socket_path(),
    {
        self.start(
            "pane.move",
            Params::Move {
                pane_id: pane_id.to_owned(),
                destination: Destination::NewTab { workspace_id: workspace_id.to_owned() },
                focus: false,
            },
            "pane_move",
        )
    }

    /// Requests one split ratio, addressed by its root-relative child path.
    pub fn set_split_ratio(&mut self, tab_id: &str, path: Vec<bool>, ratio: Ratio) -> (request:
        Request)
        requires
            old(self).spec_next_id() < u64::MAX,
        ensures
            request@ == (RequestView {
                id: request_id(old(self).spec_next_id()),
                method: "layout.set_split_ratio"@,
                params: ParamsView::SplitRatio {
                    tab_id: tab_id@,
                    path: path@,
                    ratio: ratio.pattern(),
                },
                expected_type: "layout_split_ratio_set"@,
            }),
            final(self).spec_next_id() == old(self).spec_next_id() + 1,
            final(self).spec_socket_path() == old(self).spec_socket_path(),
    {
        self.start(
            "layout.set_split_ratio",
            Params::SplitRatio { tab_id: tab_id.to_owned(), path, ratio },
            "layout_split_ratio_set",
        )
    }

    /// Requests focus on a pane.
    pub fn focus(&mut self, pane_id: &str) -> (request: Request)
        requires
            old(self).spec_next_id() < u64::MAX,
        ensures
            request@ == (RequestView {
                id: request_id(old(self).spec_next_id()),
                method: "pane.focus"@,
                params: ParamsView::Pane { pane_id: pane_id@ },
                expected_type: "pane_info"@,
            }),
            final(self).spec_next_id() == old(self).spec_next_id() + 1,
            final(self).spec_socket_path() == old(self).spec_socket_path(),
    {
        self.start("pane.focus", Params::Pane { pane_id: pane_id.to_owned() }, "pane_info")
    }

    /// Requests zoom on or off for a pane.
    pub fn zoom(&mut self, pane_id: &str, zoomed: bool) -> (request: Request)
        requires
            old(self).spec_next_id() < u64::MAX,
        ensures
            request@ == (RequestView {
                id: request_id(old(self).spec_next_id()),
                method: "pane.zoom"@,
                params: ParamsView::Zoom {
                    pane_id: pane_id@,
                    mode: if zoomed {
                        "on"@
                    } else {
                        "off"@
                    },
                },
                expected_type: "pane_zoom"@,
            }),
            final(self).spec_next_id() == old(self).spec_next_id() + 1,
            final(self).spec_socket_path() == old(self).spec_socket_path(),
    {
        let mode = if zoomed {
            "on"
        } else {
            "off"
        };
        self.start("pane.zoom", Params::Zoom { pane_id: pane_id.to_owned(), mode }, "pane_zoom")
    }
}

/// Herdr's name for a direction.
pub fn direction_name(direction: Direction) -> (name: &'static str)
    ensures
        name@ == direction.spec_name(),
{
    direction.name()
}

/// Herdr's name for a split axis.
pub open spec fn split_spec_name(direction: SplitDirection) -> Seq<char> {
    match direction {
        SplitDirection::Right => "right"@,
        SplitDirection::Down => "down"@,
    }
}

/// Herdr's name for a split axis.
pub fn split_name(direction: SplitDirection) -> (name: &'static str)
    ensures
        name@ == split_spec_name(direction),
{
    match direction {
        SplitDirection::Right => "right",
        SplitDirection::Down => "down",
    }
}


/// An error reported by Herdr.
#[derive(Debug)]
pub struct ApiError {
    pub code: String,
    pub message: String,
}

/// The part of a reply's result that every reply is checked against.
#[derive(Debug)]
pub struct ResultHeader {
    /// The result's `type` field, when it is a string.
    pub result_type: Option<String>,
}

/// A decoded reply line.
#[derive(Debug)]
pub struct Response {
    /// The ID of the request it answers.
    pub id: String,
    /// The result, if any.
    pub result: Option<ResultHeader>,
    /// The error, if any.
    pub error: Option<ApiError>,
}

/// Why a reply fails the checks every reply must pass, if it does. `None`
/// for `response` stands for a socket closed without a reply line.
pub open spec fn response_problem(response: Option<&Response>, request: RequestView) -> Option<
    Seq<char>,
> {
    let method = request.method;
    match response {
        None => Some(method + ": Herdr closed the socket without a response"@),
        Some(response) => if response.id@ != request.id {
            Some(
                method + ": response ID "@ + debug_quoted(response.id@)
                    + " does not match request ID "@ + debug_quoted(request.id),
            )
        } else if response.error is Some {
            let error = response.error->0;
            Some(method + ": Herdr error "@ + error.code@ + ": "@ + error.message@)
        } else if response.result is None {
            Some(method + ": response has no result or error"@)
        } else if response.result->0.result_type is None {
            Some(method + ": response result has no string type"@)
        } else if response.result->0.result_type->0@ != request.expected_type {
            Some(
                method + ": expected result type "@ + debug_quoted(request.expected_type)
                    + ", got "@ + debug_quoted(response.result->0.result_type->0@),
            )
        } else {
            None
        },
    }
}

/// Checks the reply to `request` that every reply must pass: it arrived,
/// answers this request, carries no error, and has a result of the
/// expected type.
///
/// # Errors
///
/// Returns a protocol error describing the first failed check.
pub fn check_response(response: Option<&Response>, request: &Request) -> (result: Result<(), Error>)
    ensures
        match result {
            Ok(()) => response_problem(response, request@) is None,
            Err(error) => response_problem(response, request@) matches Some(message)
                && error matches Error::Protocol(text) && text@ == message,
        },
{
    let method = request.method;
    match response {
        None => Err(Error::Protocol(join2(method, ": Herdr closed the socket without a response"))),
        Some(response) => {
            if response.id != request.id {
                let got = quoted(response.id.as_str());
                let wanted = quoted(request.id.as_str());
                let message = join5(
                    method,
                    ": response ID ",
                    got.as_str(),
                    " does not match request ID ",
                    wanted.as_str(),
                );
                return Err(Error::Protocol(message));
            }
            if let Some(error) = &response.error {
                let message = join5(
                    method,
                    ": Herdr error ",
                    error.code.as_str(),
                    ": ",
                    error.message.as_str(),
                );
                return Err(Error::Protocol(message));
            }
            let header = match &response.result {
                Some(header) => header,
                None => {
                    return Err(
                        Error::Protocol(join2(method, ": response has no result or error")),
                    );
                },
            };
            let actual = match &header.result_type {
                Some(actual) => actual,
                None => {
                    return Err(
                        Error::Protocol(join2(method, ": response result has no string type")),
                    );
                },
            };
            if !same_text(actual.as_str(), request.expected_type) {
                let wanted = quoted(request.expected_type);
                let got = quoted(actual.as_str());
                let message = join5(
                    method,
                    ": expected result type ",
                    wanted.as_str(),
                    ", got ",
                    got.as_str(),
                );
                return Err(Error::Protocol(message));
            }
            Ok(())
        },
    }
}


/// The `pane.layout` result: the tab a pane is in and the tab's area.
#[derive(Debug)]
pub struct PaneLayoutArea {
    pub tab_id: String,
    pub area: Rect,
}

/// Why a `pane.layout` result is rejected, if it is: the pane changed tabs
/// since the export of `tab_id`, or the area is empty or reaches past the
/// largest coordinate.
pub open spec fn area_problem(reply: PaneLayoutArea, tab_id: Seq<char>) -> Option<Seq<char>> {
    let area = reply.area;
    if reply.tab_id@ != tab_id {
        Some("pane.layout: pane changed tabs during export"@)
    } else if area.width == 0 || area.height == 0 || area.x + area.width > 0xFFFF || area.y
        + area.height > 0xFFFF {
        Some("pane.layout: invalid or empty layout area"@)
    } else {
        None
    }
}

/// Accepts the tab's outer area from a `pane.layout` reply for the pane whose
/// layout was exported from tab `tab_id`.
///
/// # Errors
///
/// Rejects a tab change between layout export and this request, and an
/// empty or overflowing area.
pub fn layout_area_result(reply: PaneLayoutArea, tab_id: &str) -> (result: Result<Rect, Error>)
    ensures
        match result {
            Ok(area) => area_problem(reply, tab_id@) is None && area == reply.area,
            Err(error) => area_problem(reply, tab_id@) matches Some(message)
                && error matches Error::Protocol(text) && text@ == message,
        },
{
    let area = reply.area;
    if !same_text(reply.tab_id.as_str(), tab_id) {
        return Err(Error::Protocol("pane.layout: pane changed tabs during export".to_owned()));
    }
    if area.width == 0 || area.height == 0 || area.x.checked_add(area.width).is_none()
        || area.y.checked_add(area.height).is_none() {
        return Err(Error::Protocol("pane.layout: invalid or empty layout area".to_owned()));
    }
    Ok(area)
}

/// A node of `layout.export`'s tree as Herdr sends it: a pane may lack an
/// ID, and a ratio is any single-precision bit pattern.
#[derive(Debug)]
pub enum ExportNode {
    Pane { pane_id: Option<String> },
    Split {
        direction: SplitDirection,
        ratio: u32,
        first: Box<ExportNode>,
        second: Box<ExportNode>,
    },
}

/// The mathematical value of an [`ExportNode`].
pub enum ExportTree {
    Pane { pane_id: Option<Seq<char>> },
    Split { direction: SplitDirection, ratio: u32, first: Box<ExportTree>, second: Box<ExportTree> },
}

impl View for ExportNode {
    type V = ExportTree;

    open spec fn view(&self) -> ExportTree
        decreases self,
    {
        match self {
            ExportNode::Pane { pane_id } => ExportTree::Pane { pane_id: text_option(*pane_id) },
            ExportNode::Split { direction, ratio, first, second } => ExportTree::Split {
                direction: *direction,
                ratio: *ratio,
                first: Box::new((**first).view()),
                second: Box::new((**second).view()),
            },
        }
    }
}

/// The `layout.export` result as Herdr sends it.
#[derive(Debug)]
pub struct ExportLayout {
    pub workspace_id: String,
    pub tab_id: String,
    pub zoomed: bool,
    pub focused_pane_id: String,
    pub root: ExportNode,
}

/// The tree an export stands for and the pane IDs seen so far, or why the
/// export is rejected. Nodes are checked in preorder; a split's ratio is
/// checked before its children.
pub open spec fn validated(tree: ExportTree, seen: Seq<Seq<char>>) -> Result<
    (Tree, Seq<Seq<char>>),
    Seq<char>,
>
    decreases tree,
{
    match tree {
        ExportTree::Pane { pane_id } => {
            if pane_id is None || pane_id->0.len() == 0 {
                Err("layout.export: pane node has no pane ID"@)
            } else if seen.contains(pane_id->0) {
                Err("layout.export: duplicate pane ID "@ + debug_quoted(pane_id->0))
            } else {
                Ok((Tree::Pane { id: pane_id->0 }, seen.push(pane_id->0)))
            }
        },
        ExportTree::Split { direction, ratio, first, second } => {
            if !is_unit_interval(ratio) {
                Err("layout.export: "@ + ratio_range_message())
            } else {
                match validated(*first, seen) {
                    Err(message) => Err(message),
                    Ok((f, after_first)) => match validated(*second, after_first) {
                        Err(message) => Err(message),
                        Ok((s, after_second)) => Ok(
                            (
                                Tree::Split {
                                    direction,
                                    ratio,
                                    first: Box::new(f),
                                    second: Box::new(s),
                                },
                                after_second,
                            ),
                        ),
                    },
                }
            }
        },
    }
}

/// The layout an export stands for, or why it is rejected.
pub open spec fn validated_layout(export: ExportLayout) -> Result<LayoutView, Seq<char>> {
    match validated(export.root@, seq![]) {
        Err(message) => Err(message),
        Ok((root, seen)) => if !seen.contains(export.focused_pane_id@) {
            Err(
                "layout.export: focused pane "@ + debug_quoted(export.focused_pane_id@)
                    + " is not present in the tree"@,
            )
        } else {
            Ok(
                LayoutView {
                    workspace_id: export.workspace_id@,
                    tab_id: export.tab_id@,
                    zoomed: export.zoomed,
                    focused_pane_id: export.focused_pane_id@,
                    root,
                },
            )
        },
    }
}

fn contains_text(seen: &Vec<String>, id: &str) -> (found: bool)
    ensures
        found == seen.deep_view().contains(id@),
{
    let ghost ids = seen.deep_view();
    let mut i: usize = 0;
    while i < seen.len()
        invariant
            i <= seen@.len(),
            ids == seen.deep_view(),
            forall|j: int| 0 <= j < i ==> ids[j] != id@,
        decreases seen@.len() - i,
    {
        proof {
            assert(ids[i as int] == seen@[i as int]@);
        }
        if same_text(seen[i].as_str(), id) {
            return true;
        }
        i = i + 1;
    }
    false
}

fn validate_node(export: &ExportNode, seen: &mut Vec<String>) -> (result: Result<Node, Error>)
    ensures
        match (result, validated(export@, old(seen).deep_view())) {
            (Ok(node), Ok((tree, after))) => node@ == tree && final(seen).deep_view() == after,
            (Err(error), Err(message)) => error matches Error::Protocol(text) && text@ == message,
            _ => false,
        },
    decreases export,
{
    match export {
        ExportNode::Pane { pane_id } => {
            let id = match pane_id {
                Some(id) => {
                    if id.as_str().is_empty() {
                        return Err(
                            Error::Protocol("layout.export: pane node has no pane ID".to_owned()),
                        );
                    }
                    id
                },
                None => {
                    return Err(
                        Error::Protocol("layout.export: pane node has no pane ID".to_owned()),
                    );
                },
            };
            if contains_text(seen, id.as_str()) {
                let quoted_id = quoted(id.as_str());
                return Err(
                    Error::Protocol(join2("layout.export: duplicate pane ID ", quoted_id.as_str())),
                );
            }
            let ghost before = seen.deep_view();
            seen.push(id.clone());
            proof {
                assert(seen.deep_view() =~= before.push(id@));
            }
            Ok(Node::Pane { id: id.clone() })
        },
        ExportNode::Split { direction, ratio, first, second } => {
            let checked = match Ratio::new(*ratio) {
                Ok(checked) => checked,
                Err(message) => {
                    return Err(Error::Protocol(join2("layout.export: ", message)));
                },
            };
            let first_node = match validate_node(&**first, seen) {
                Ok(node) => node,
                Err(error) => {
                    return Err(error);
                },
            };
            let second_node = match validate_node(&**second, seen) {
                Ok(node) => node,
                Err(error) => {
                    return Err(error);
                },
            };
            Ok(
                Node::Split {
                    direction: *direction,
                    ratio: checked,
                    first: Box::new(first_node),
                    second: Box::new(second_node),
                },
            )
        },
    }
}

/// Validates an exported tab: every pane has a nonempty ID seen only once,
/// every ratio lies in `0.0..=1.0`, and the focused pane is in the tree.
///
/// # Errors
///
/// Returns a protocol error naming the first problem in preorder.
pub fn validate_layout(export: ExportLayout) -> (result: Result<Layout, Error>)
    ensures
        match (result, validated_layout(export)) {
            (Ok(layout), Ok(view)) => layout@ == view,
            (Err(error), Err(message)) => error matches Error::Protocol(text) && text@ == message,
            _ => false,
        },
{
    let mut seen: Vec<String> = Vec::new();
    proof {
        assert(seen.deep_view() =~= Seq::<Seq<char>>::empty());
    }
    let root = match validate_node(&export.root, &mut seen) {
        Ok(root) => root,
        Err(error) => {
            return Err(error);
        },
    };
    if !contains_text(&seen, export.focused_pane_id.as_str()) {
        let quoted_id = quoted(export.focused_pane_id.as_str());
        return Err(
            Error::Protocol(
                join3(
                    "layout.export: focused pane ",
                    quoted_id.as_str(),
                    " is not present in the tree",
                ),
            ),
        );
    }
    Ok(
        Layout {
            workspace_id: export.workspace_id,
            tab_id: export.tab_id,
            zoomed: export.zoomed,
            focused_pane_id: export.focused_pane_id,
            root,
        },
    )
}


proof fn lemma_validated_panes(tree: ExportTree, seen: Seq<Seq<char>>)
    requires
        seen.no_duplicates(),
    ensures
        validated(tree, seen) matches Ok((t, after)) ==> {
            &&& after == seen + panes(t)
            &&& after.no_duplicates()
            &&& forall|i: int| 0 <= i < panes(t).len() ==> (#[trigger] panes(t)[i]).len() > 0
        },
    decreases tree,
{
    match tree {
        ExportTree::Pane { pane_id } => {
            if let Ok((t, after)) = validated(tree, seen) {
                let id = pane_id->0;
                assert(panes(t) == seq![id]);
                assert(after =~= seen + panes(t));
                assert forall|a: int, b: int|
                    0 <= a < after.len() && 0 <= b < after.len() && a != b implies after[a]
                    != after[b] by {
                    if a == seen.len() as int {
                        assert(!seen.contains(id));
                        assert(after[b] == seen[b]);
                    } else if b == seen.len() as int {
                        assert(!seen.contains(id));
                        assert(after[a] == seen[a]);
                    }
                }
            }
        },
        ExportTree::Split { first, second, .. } => {
            lemma_validated_panes(*first, seen);
            if let Ok((f, after_first)) = validated(*first, seen) {
                lemma_validated_panes(*second, after_first);
                if let Ok((t, after)) = validated(tree, seen) {
                    let (second_tree, s) = validated(*second, after_first)->Ok_0;
                    assert(panes(t) == panes(f) + panes(second_tree));
                    assert(after =~= seen + panes(t));
                    assert forall|i: int| 0 <= i < panes(t).len() implies (#[trigger] panes(
                        t,
                    )[i]).len() > 0 by {
                        if i < panes(f).len() {
                            assert(panes(t)[i] == panes(f)[i]);
                        } else {
                            assert(panes(t)[i] == panes(second_tree)[i - panes(f).len()]);
                        }
                    }
                }
            }
        },
    }
}

/// Export validation and rebuild planning agree: every layout that passes
/// validation has nonempty, distinct pane IDs and holds its focused pane, so
/// a rebuild plan can always be compiled for it.
pub proof fn lemma_validated_layout_compiles(export: ExportLayout)
    ensures
        validated_layout(export) matches Ok(layout) ==> rebuild_refusal(layout) is None,
{
    lemma_validated_panes(export.root@, seq![]);
    if let Ok(layout) = validated_layout(export) {
        let (root, seen) = validated(export.root@, seq![])->Ok_0;
        assert(seen =~= panes(root));
        let ids = panes(layout.root);
        assert(ids == seen);
        if exists|i: int| 0 <= i < ids.len() && (#[trigger] ids[i]).len() == 0 {
            let i = choose|i: int| 0 <= i < ids.len() && (#[trigger] ids[i]).len() == 0;
            assert(ids[i].len() > 0);
        }
    }
}

} // verus!

verus! {

/// Different request numbers give different request IDs. A client numbers
/// its requests from one, each request taking the next number (see
/// [`Client::new`] and the request methods), so no two of its requests carry
/// the same ID.
pub proof fn lemma_request_ids_distinct(a: u64, b: u64)
    requires
        a != b,
    ensures
        request_id(a) != request_id(b),
{
    crate::text::lemma_decimal_injective(a as nat, b as nat);
    let prefix = "herdr-tiling-"@;
    if request_id(a) == request_id(b) {
        assert(request_id(a).skip(prefix.len() as int) =~= decimal(a as nat));
        assert(request_id(b).skip(prefix.len() as int) =~= decimal(b as nat));
    }
}

} // verus!

verus! {

/// The tree an export describes, with each pane's ID taken out of its
/// option: every split keeps its axis, ratio and children in order.
pub open spec fn unwrapped(tree: ExportTree) -> Tree
    decreases tree,
{
    match tree {
        ExportTree::Pane { pane_id } => Tree::Pane { id: pane_id->0 },
        ExportTree::Split { direction, ratio, first, second } => Tree::Split {
            direction,
            ratio,
            first: Box::new(unwrapped(*first)),
            second: Box::new(unwrapped(*second)),
        },
    }
}

proof fn lemma_validated_unwraps(tree: ExportTree, seen: Seq<Seq<char>>)
    ensures
        validated(tree, seen) matches Ok((t, _)) ==> t == unwrapped(tree),
    decreases tree,
{
    if let ExportTree::Split { first, second, .. } = tree {
        lemma_validated_unwraps(*first, seen);
        if let Ok((_, after_first)) = validated(*first, seen) {
            lemma_validated_unwraps(*second, after_first);
        }
    }
}

/// Validation only checks an export: a layout that passes is the exported
/// tab as Herdr sent it, every split keeping its exported axis and ratio and
/// its children in order, every pane its ID, and the workspace, tab, zoom
/// and focus unchanged.
pub proof fn lemma_validation_keeps_the_export(export: ExportLayout)
    ensures
        validated_layout(export) matches Ok(layout) ==> layout == (LayoutView {
            workspace_id: export.workspace_id@,
            tab_id: export.tab_id@,
            zoomed: export.zoomed,
            focused_pane_id: export.focused_pane_id@,
            root: unwrapped(export.root@),
        }),
{
    lemma_validated_unwraps(export.root@, seq![]);
}

} // verus!
