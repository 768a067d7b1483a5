//! The compositor as it reports itself: its tree of windows, its workspaces and its outputs.

use vstd::prelude::*;
use vstd::string::*;
use crate::arith::{add_i32, max_i32, min_i32, sub_i32};
use crate::arith::{max_of, min_of, saturate_i32};
use crate::json::{parse_json, Json};
use crate::json::{
    bool_member, json_view, json_views, list_member, member, optional_json, parsed_json,
    signed_member, text_member, unsigned_member, JsonView,
};
use crate::marks::marked_frame;
use crate::marks::parse_restore_mark;
use crate::text::{copy_texts, text_is};
use crate::text::{optional_text, text_views};

verus! {

/// A rectangle in the coordinates of the whole layout.
#[derive(Debug, Clone, Copy, PartialEq, Eq, Structural)]
pub struct Rect {
    pub x: i32,
    pub y: i32,
    pub width: i32,
    pub height: i32,
}

/// The right end of a rectangle.
pub open spec fn right_of(rect: Rect) -> int {
    saturate_i32(rect.x + max_of(rect.width as int, 0))
}

/// The lower end of a rectangle.
pub open spec fn bottom_of(rect: Rect) -> int {
    saturate_i32(rect.y + max_of(rect.height as int, 0))
}

/// The smallest rectangle around two, where neither is empty; otherwise the other one.
pub open spec fn union_of(left: Rect, right: Rect) -> Rect {
    if right.width <= 0 || right.height <= 0 {
        left
    } else if left.width <= 0 || left.height <= 0 {
        right
    } else {
        let x = min_of(left.x as int, right.x as int);
        let y = min_of(left.y as int, right.y as int);
        Rect {
            x: x as i32,
            y: y as i32,
            width: saturate_i32(max_of(right_of(left), right_of(right)) - x) as i32,
            height: saturate_i32(max_of(bottom_of(left), bottom_of(right)) - y) as i32,
        }
    }
}

impl Rect {
    /// The right end of this rectangle.
    pub fn right(self) -> (right: i32)
        ensures
            right == right_of(self),
    {
        add_i32(self.x, max_i32(self.width, 0))
    }

    /// The lower end of this rectangle.
    pub fn bottom(self) -> (bottom: i32)
        ensures
            bottom == bottom_of(self),
    {
        add_i32(self.y, max_i32(self.height, 0))
    }

    /// The smallest rectangle around this and another.
    pub fn union(self, other: Rect) -> (whole: Rect)
        ensures
            whole == union_of(self, other),
    {
        if other.width <= 0 || other.height <= 0 {
            return self;
        }
        if self.width <= 0 || self.height <= 0 {
            return other;
        }
        let x: i32 = min_i32(self.x, other.x);
        let y: i32 = min_i32(self.y, other.y);
        Rect {
            x,
            y,
            width: sub_i32(max_i32(self.right(), other.right()), x),
            height: sub_i32(max_i32(self.bottom(), other.bottom()), y),
        }
    }
}

/// A window as the compositor reports it.
#[derive(Debug, Clone, PartialEq, Eq)]
pub struct WindowState {
    pub identifier: String,
    pub container_id: u64,
    pub pid: u32,
    pub rect: Rect,
    pub workspace_rect: Option<Rect>,
    pub workspace: String,
    pub output: String,
    pub focused: bool,
    pub scratchpad: bool,
    pub minimized: bool,
    pub maximized: bool,
    pub fullscreen: bool,
    pub decoration_height: i32,
    pub restore_frame: Option<Rect>,
    pub restore_marks: Vec<String>,
}

/// What a window is doing.
pub struct WindowFlags {
    pub focused: bool,
    pub scratchpad: bool,
    pub minimized: bool,
    pub maximized: bool,
    pub fullscreen: bool,
}

/// Where a window is.
pub struct WindowPlace {
    pub rect: Rect,
    pub workspace_rect: Option<Rect>,
    pub workspace: Seq<char>,
    pub output: Seq<char>,
    pub decoration_height: i32,
}

/// A [`WindowState`] with its texts as sequences.
pub struct WindowView {
    pub identifier: Seq<char>,
    pub container_id: u64,
    pub pid: u32,
    pub place: WindowPlace,
    pub flags: WindowFlags,
    pub restore_frame: Option<Rect>,
    pub restore_marks: Seq<Seq<char>>,
}

impl View for WindowState {
    type V = WindowView;

    open spec fn view(&self) -> WindowView {
        WindowView {
            identifier: self.identifier@,
            container_id: self.container_id,
            pid: self.pid,
            place: WindowPlace {
                rect: self.rect,
                workspace_rect: self.workspace_rect,
                workspace: self.workspace@,
                output: self.output@,
                decoration_height: self.decoration_height,
            },
            flags: WindowFlags {
                focused: self.focused,
                scratchpad: self.scratchpad,
                minimized: self.minimized,
                maximized: self.maximized,
                fullscreen: self.fullscreen,
            },
            restore_frame: self.restore_frame,
            restore_marks: text_views(self.restore_marks@),
        }
    }
}

/// The windows of a list, each by its view.
pub open spec fn window_views(windows: Seq<WindowState>) -> Seq<WindowView> {
    windows.map_values(|window: WindowState| window@)
}

impl WindowState {
    /// A copy of this window.
    pub fn duplicate(&self) -> (copy: WindowState)
        ensures
            copy@ == self@,
    {
        WindowState {
            identifier: self.identifier.clone(),
            container_id: self.container_id,
            pid: self.pid,
            rect: self.rect,
            workspace_rect: self.workspace_rect,
            workspace: self.workspace.clone(),
            output: self.output.clone(),
            focused: self.focused,
            scratchpad: self.scratchpad,
            minimized: self.minimized,
            maximized: self.maximized,
            fullscreen: self.fullscreen,
            decoration_height: self.decoration_height,
            restore_frame: self.restore_frame,
            restore_marks: copy_texts(&self.restore_marks),
        }
    }
}

/// A workspace as the compositor reports it.
#[derive(Debug, Clone, PartialEq, Eq)]
pub struct WorkspaceState {
    pub name: String,
    pub output: String,
    pub focused: bool,
    pub visible: bool,
    pub rect: Rect,
}

impl WorkspaceState {
    /// A copy of this workspace.
    pub fn duplicate(&self) -> (copy: WorkspaceState)
        ensures
            copy == *self,
    {
        WorkspaceState {
            name: self.name.clone(),
            output: self.output.clone(),
            focused: self.focused,
            visible: self.visible,
            rect: self.rect,
        }
    }
}

/// An output as the compositor reports it.
#[derive(Debug, Clone, PartialEq, Eq)]
pub struct OutputState {
    pub id: u64,
    pub name: String,
    pub active: bool,
    pub rect: Rect,
    pub physical_width: u32,
    pub physical_height: u32,
    pub refresh_millihz: u32,
    pub scale_milli: u32,
}

/// A number where it is one that an `i32` can hold; otherwise zero.
pub open spec fn small_number(number: Option<i64>) -> i32 {
    match number {
        Some(number) if i32::MIN <= number <= i32::MAX => number as i32,
        _ => 0,
    }
}

/// The rectangle that a value describes: a coordinate that is missing is zero.
pub open spec fn rect_of(value: Option<JsonView>) -> Rect {
    match value {
        Some(value) => Rect {
            x: small_number(signed_member(value, "x"@)),
            y: small_number(signed_member(value, "y"@)),
            width: small_number(signed_member(value, "width"@)),
            height: small_number(signed_member(value, "height"@)),
        },
        None => Rect { x: 0, y: 0, width: 0, height: 0 },
    }
}

/// A number where an `i32` can hold it; otherwise zero.
fn small(number: Option<i64>) -> (value: i32)
    ensures
        value == small_number(number),
{
    match number {
        Some(number) => if number >= i32::MIN as i64 && number <= i32::MAX as i64 {
            number as i32
        } else {
            0
        },
        None => 0,
    }
}

/// The rectangle that a value describes.
pub fn json_rect(value: Option<&Json>) -> (rect: Rect)
    ensures
        rect == rect_of(optional_json(value)),
{
    match value {
        Some(value) => Rect {
            x: small(value.signed("x")),
            y: small(value.signed("y")),
            width: small(value.signed("width")),
            height: small(value.signed("height")),
        },
        None => Rect { x: 0, y: 0, width: 0, height: 0 },
    }
}

/// Where in the tree a node is.
pub struct TreePlace {
    /// The corner of the node above.
    pub origin: (i32, i32),
    pub workspace_rect: Option<Rect>,
    pub workspace: Option<Seq<char>>,
    pub output: Option<Seq<char>>,
    /// Whether the workspace is the one that holds minimized windows.
    pub scratchpad: bool,
}

/// A text that may be absent; otherwise the empty one.
pub open spec fn text_or_empty(text: Option<Seq<char>>) -> Seq<char> {
    match text {
        Some(text) => text,
        None => Seq::empty(),
    }
}

/// The place of what `node` holds, but for the corner: inside an output or a workspace that it is.
pub open spec fn entered(node: JsonView, place: TreePlace) -> TreePlace {
    let kind = text_or_empty(text_member(node, "type"@));
    let name = text_or_empty(text_member(node, "name"@));
    let workspace = kind == "workspace"@;
    TreePlace {
        origin: place.origin,
        output: if kind == "output"@ {
            Some(name)
        } else {
            place.output
        },
        workspace_rect: if workspace {
            Some(rect_of(member(node, "rect"@)))
        } else {
            place.workspace_rect
        },
        workspace: if workspace {
            Some(name)
        } else {
            place.workspace
        },
        scratchpad: if workspace {
            name == "__i3_scratch"@
        } else {
            place.scratchpad
        },
    }
}

/// The decoration of the window `node`, in the coordinates of the layout.
pub open spec fn decoration_of(node: JsonView, place: TreePlace) -> Rect {
    let relative = rect_of(member(node, "deco_rect"@));
    Rect {
        x: saturate_i32(place.origin.0 + relative.x) as i32,
        y: saturate_i32(place.origin.1 + relative.y) as i32,
        ..relative
    }
}

/// The texts among the values of a list that are marks of the window `container`.
pub open spec fn marks_among(items: Seq<JsonView>, container: u64) -> Seq<Seq<char>>
    decreases items.len(),
{
    if items.len() == 0 {
        seq![]
    } else {
        let before = marks_among(items.drop_last(), container);
        match items.last() {
            JsonView::Text(text) => if marked_frame(text, container as nat) is Some {
                before.push(text)
            } else {
                before
            },
            _ => before,
        }
    }
}

/// The identifier of the container `node`.
pub open spec fn container_of(node: JsonView) -> u64 {
    match unsigned_member(node, "id"@) {
        Some(id) => id,
        None => 0,
    }
}

/// The window that `node` is, at a place that is entered, where it is one.
pub open spec fn window_of(node: JsonView, place: TreePlace) -> Option<WindowView> {
    match text_member(node, "foreign_toplevel_identifier"@) {
        Some(identifier) if identifier.len() > 0 => {
            let decoration = decoration_of(node, place);
            let rect = union_of(rect_of(member(node, "rect"@)), decoration);
            let scratchpad = match text_member(node, "scratchpad_state"@) {
                Some(state) => state != "none"@,
                None => false,
            };
            let container = container_of(node);
            let marks = marks_among(list_member(node, "marks"@), container);
            let restore = if marks.len() > 0 {
                marked_frame(marks[0], container as nat)
            } else {
                None
            };
            let minimized = scratchpad && place.scratchpad;
            Some(
                WindowView {
                    identifier,
                    container_id: container,
                    pid: match unsigned_member(node, "pid"@) {
                        Some(pid) if pid <= u32::MAX => pid as u32,
                        _ => 0,
                    },
                    place: WindowPlace {
                        rect,
                        workspace_rect: place.workspace_rect,
                        workspace: text_or_empty(place.workspace),
                        output: text_or_empty(place.output),
                        decoration_height: max_of(decoration.height as int, 0) as i32,
                    },
                    flags: WindowFlags {
                        focused: bool_member(node, "focused"@) == Some(true),
                        scratchpad,
                        minimized,
                        maximized: !minimized && !place.scratchpad && restore is Some
                            && place.workspace_rect == Some(rect),
                        fullscreen: match signed_member(node, "fullscreen_mode"@) {
                            Some(mode) => mode != 0,
                            None => false,
                        },
                    },
                    restore_frame: restore,
                    restore_marks: marks,
                },
            )
        },
        _ => None,
    }
}

/// A value under a key is smaller than the object that has it.
proof fn entry_is_smaller(entries: Seq<(Seq<char>, JsonView)>, key: Seq<char>)
    ensures
        match crate::json::entry_of(entries, key) {
            Some(value) => exists|at: int| 0 <= at < entries.len() && #[trigger] entries[at].1
                == value,
            None => true,
        },
    decreases entries.len(),
{
    if entries.len() > 0 {
        entry_is_smaller(entries.drop_last(), key);
        match crate::json::entry_of(entries.drop_last(), key) {
            Some(value) => {
                let at = choose|at: int|
                    0 <= at < entries.drop_last().len() && #[trigger] entries.drop_last()[at].1
                        == value;
                assert(entries[at].1 == value);
            },
            None => {
                assert(entries[entries.len() - 1] == entries.last());
            },
        }
    }
}

/// A list under a key is smaller than the object that has it.
pub proof fn list_is_smaller(node: JsonView, key: Seq<char>)
    ensures
        list_member(node, key).len() > 0 ==> decreases_to!(node => list_member(node, key)),
{
    if let JsonView::Object(entries) = node {
        entry_is_smaller(entries, key);
        if let Some(value) = crate::json::entry_of(entries, key) {
            let at = choose|at: int| 0 <= at < entries.len() && #[trigger] entries[at].1 == value;
            assert(decreases_to!(node => entries));
            assert(decreases_to!(entries => entries[at]));
            assert(decreases_to!(entries[at] => entries[at].1));
            if let JsonView::List(items) = value {
                assert(decreases_to!(value => items));
            }
        }
    }
}

/// The place of the children of `node`, which is at a place that is entered.
pub open spec fn below(node: JsonView, place: TreePlace) -> TreePlace {
    let rect = rect_of(member(node, "rect"@));
    TreePlace { origin: (rect.x, rect.y), ..place }
}

/// The window that `node` is, as a sequence of one or none.
pub open spec fn own_window(node: JsonView, place: TreePlace) -> Seq<WindowView> {
    match window_of(node, place) {
        Some(window) => seq![window],
        None => seq![],
    }
}

/// The windows of the tree under `node`: itself, then those of its tiled and of its floating
/// children.
pub open spec fn collected(node: JsonView, place: TreePlace) -> Seq<WindowView>
    decreases node,
{
    proof {
        list_is_smaller(node, "nodes"@);
        list_is_smaller(node, "floating_nodes"@);
    }
    let inside = entered(node, place);
    let children = below(node, inside);
    own_window(node, inside) + (if list_member(node, "nodes"@).len() > 0 {
        collected_all(list_member(node, "nodes"@), children)
    } else {
        seq![]
    }) + (if list_member(node, "floating_nodes"@).len() > 0 {
        collected_all(list_member(node, "floating_nodes"@), children)
    } else {
        seq![]
    })
}

/// The windows of the trees under `nodes`, one after the other.
pub open spec fn collected_all(nodes: Seq<JsonView>, place: TreePlace) -> Seq<WindowView>
    decreases nodes,
{
    if nodes.len() == 0 {
        seq![]
    } else {
        collected_all(nodes.drop_last(), place) + collected(nodes.last(), place)
    }
}

/// The windows of the tree that a document describes.
pub open spec fn tree_windows(root: JsonView) -> Seq<WindowView> {
    let rect = rect_of(member(root, "rect"@));
    collected(
        root,
        TreePlace {
            origin: (rect.x, rect.y),
            workspace_rect: None,
            workspace: None,
            output: None,
            scratchpad: false,
        },
    )
}

/// Where in the tree a node is.
struct Place {
    origin: (i32, i32),
    workspace_rect: Option<Rect>,
    workspace: Option<String>,
    output: Option<String>,
    scratchpad: bool,
}

impl Place {
    /// This place with its texts as sequences.
    spec fn at(&self) -> TreePlace {
        TreePlace {
            origin: self.origin,
            workspace_rect: self.workspace_rect,
            workspace: optional_text(self.workspace),
            output: optional_text(self.output),
            scratchpad: self.scratchpad,
        }
    }

    /// The place of what `node` holds.
    fn enter(&self, node: &Json) -> (inside: Place)
        ensures
            inside.at() == entered(node@, self.at()),
    {
        let kind: String = match node.text("type") {
            Some(kind) => kind.clone(),
            None => String::new(),
        };
        let name: String = match node.text("name") {
            Some(name) => name.clone(),
            None => String::new(),
        };
        assert(kind@ =~= text_or_empty(text_member(node@, "type"@)));
        assert(name@ =~= text_or_empty(text_member(node@, "name"@)));
        let output = if text_is(&kind, "output") {
            Some(name.clone())
        } else {
            crate::text::copy_optional(&self.output)
        };
        if text_is(&kind, "workspace") {
            let scratchpad = text_is(&name, "__i3_scratch");
            Place {
                origin: self.origin,
                workspace_rect: Some(json_rect(node.get("rect"))),
                workspace: Some(name),
                output,
                scratchpad,
            }
        } else {
            Place {
                origin: self.origin,
                workspace_rect: self.workspace_rect,
                workspace: crate::text::copy_optional(&self.workspace),
                output,
                scratchpad: self.scratchpad,
            }
        }
    }

    /// The place of the children of `node`.
    fn below(&self, node: &Json) -> (place: Place)
        ensures
            place.at() == below(node@, self.at()),
    {
        let rect = json_rect(node.get("rect"));
        Place {
            origin: (rect.x, rect.y),
            workspace_rect: self.workspace_rect,
            workspace: crate::text::copy_optional(&self.workspace),
            output: crate::text::copy_optional(&self.output),
            scratchpad: self.scratchpad,
        }
    }

    /// The name of the workspace, or the empty text.
    fn workspace_name(&self) -> (name: String)
        ensures
            name@ == text_or_empty(self.at().workspace),
    {
        match &self.workspace {
            Some(name) => name.clone(),
            None => String::new(),
        }
    }

    /// The name of the output, or the empty text.
    fn output_name(&self) -> (name: String)
        ensures
            name@ == text_or_empty(self.at().output),
    {
        match &self.output {
            Some(name) => name.clone(),
            None => String::new(),
        }
    }
}

/// The marks of the window `container` among the values of a list.
fn restore_marks(items: Option<&Vec<Json>>, container: u64) -> (marks: Vec<String>)
    ensures
        text_views(marks@) == marks_among(
            match items {
                Some(items) => json_views(items@),
                None => Seq::empty(),
            },
            container,
        ),
{
    let mut marks: Vec<String> = Vec::new();
    assert(text_views(marks@) =~= seq![]);
    if let Some(items) = items {
        let ghost views = json_views(items@);
        let mut at: usize = 0;
        assert(views.take(0) =~= seq![]);
        while at < items.len()
            invariant
                at <= items.len(),
                views == json_views(items@),
                text_views(marks@) == marks_among(views.take(at as int), container),
            decreases items.len() - at,
        {
            assert(views.take(at + 1).drop_last() =~= views.take(at as int));
            assert(views[at as int] == json_view(items@[at as int]));
            let ghost before = text_views(marks@);
            if let Json::Text(text) = &items[at] {
                if parse_restore_mark(text, container).is_some() {
                    marks.push(text.clone());
                    assert(text_views(marks@) =~= before.push(text@));
                }
            }
            at = at + 1;
        }
        assert(views.take(at as int) =~= views);
    }
    marks
}

/// The decoration of the window `node`.
fn decoration(node: &Json, place: &Place) -> (rect: Rect)
    ensures
        rect == decoration_of(node@, place.at()),
{
    let relative = json_rect(node.get("deco_rect"));
    Rect {
        x: add_i32(place.origin.0, relative.x),
        y: add_i32(place.origin.1, relative.y),
        width: relative.width,
        height: relative.height,
    }
}

/// The window that `node` is, where it is one.
fn window_at(node: &Json, place: &Place) -> (window: Option<WindowState>)
    ensures
        match window {
            Some(window) => window_of(node@, place.at()) == Some(window@),
            None => window_of(node@, place.at()) is None,
        },
{
    let identifier = match node.text("foreign_toplevel_identifier") {
        Some(identifier) => identifier.clone(),
        None => {
            return None;
        },
    };
    if identifier.as_str().is_empty() {
        return None;
    }
    let decoration = decoration(node, place);
    let rect = json_rect(node.get("rect")).union(decoration);
    let scratchpad = match node.text("scratchpad_state") {
        Some(state) => !text_is(state, "none"),
        None => false,
    };
    let container_id: u64 = match node.unsigned("id") {
        Some(id) => id,
        None => 0,
    };
    let marks = restore_marks(node.list("marks"), container_id);
    let restore_frame = if marks.len() > 0 {
        assert(text_views(marks@)[0] == marks@[0]@);
        parse_restore_mark(&marks[0], container_id)
    } else {
        None
    };
    assert(text_views(marks@).len() == marks@.len());
    let minimized = scratchpad && place.scratchpad;
    let fills = match place.workspace_rect {
        Some(workspace) => workspace == rect,
        None => false,
    };
    let pid: u32 = match node.unsigned("pid") {
        Some(pid) => if pid <= u32::MAX as u64 {
            pid as u32
        } else {
            0
        },
        None => 0,
    };
    let focused = match node.flag("focused") {
        Some(focused) => focused,
        None => false,
    };
    let fullscreen = match node.signed("fullscreen_mode") {
        Some(mode) => mode != 0,
        None => false,
    };
    let window = WindowState {
        identifier,
        container_id,
        pid,
        rect,
        workspace_rect: place.workspace_rect,
        workspace: place.workspace_name(),
        output: place.output_name(),
        focused,
        scratchpad,
        minimized,
        maximized: !minimized && !place.scratchpad && restore_frame.is_some() && fills,
        fullscreen,
        decoration_height: max_i32(decoration.height, 0),
        restore_frame,
        restore_marks: marks,
    };
    Some(window)
}

/// Appends the windows of the tree under `node`.
fn collect(node: &Json, place: &Place, windows: &mut Vec<WindowState>)
    ensures
        window_views(final(windows)@) == window_views(old(windows)@) + collected(
            node@,
            place.at(),
        ),
    decreases *node,
{
    let ghost before = window_views(windows@);
    let inside = place.enter(node);
    if let Some(window) = window_at(node, &inside) {
        windows.push(window);
        assert(window_views(windows@) =~= before.push(window@));
    }
    assert(window_views(windows@) =~= before + own_window(node@, inside.at()));
    let children = inside.below(node);
    let ghost own = window_views(windows@);
    if let Some(nodes) = node.list("nodes") {
        collect_list(node, nodes, &children, windows);
    }
    let ghost tiled = window_views(windows@);
    assert(json_views(Seq::<Json>::empty()) =~= seq![]);
    assert(tiled =~= own + (if list_member(node@, "nodes"@).len() > 0 {
        collected_all(list_member(node@, "nodes"@), children.at())
    } else {
        seq![]
    }));
    if let Some(nodes) = node.list("floating_nodes") {
        collect_list(node, nodes, &children, windows);
    }
    assert(window_views(windows@) =~= tiled + (if list_member(node@, "floating_nodes"@).len() > 0 {
        collected_all(list_member(node@, "floating_nodes"@), children.at())
    } else {
        seq![]
    }));
    assert(window_views(windows@) =~= before + collected(node@, place.at()));
}

/// Appends the windows of the trees under `nodes`, which `parent` holds.
fn collect_list(parent: &Json, nodes: &Vec<Json>, place: &Place, windows: &mut Vec<WindowState>)
    requires
        decreases_to!(*parent => nodes@),
    ensures
        window_views(final(windows)@) == window_views(old(windows)@) + collected_all(
            json_views(nodes@),
            place.at(),
        ),
    decreases nodes@,
{
    let ghost before = window_views(windows@);
    let ghost views = json_views(nodes@);
    let mut at: usize = 0;
    assert(views.take(0) =~= seq![]);
    assert(before =~= before + collected_all(views.take(0), place.at()));
    while at < nodes.len()
        invariant
            at <= nodes.len(),
            views == json_views(nodes@),
            window_views(windows@) == before + collected_all(views.take(at as int), place.at()),
        decreases nodes.len() - at,
    {
        assert(views.take(at + 1).drop_last() =~= views.take(at as int));
        assert(views[at as int] == json_view(nodes@[at as int]));
        assert(decreases_to!(nodes@ => nodes@[at as int]));
        collect(&nodes[at], place, windows);
        assert(window_views(windows@) =~= before + collected_all(views.take(at + 1), place.at()));
        at = at + 1;
    }
    assert(views.take(at as int) =~= views);
}

/// The windows of the tree that `root` describes.
pub fn windows_of_tree(root: &Json) -> (windows: Vec<WindowState>)
    ensures
        window_views(windows@) == tree_windows(root@),
{
    let rect = json_rect(root.get("rect"));
    let place = Place {
        origin: (rect.x, rect.y),
        workspace_rect: None,
        workspace: None,
        output: None,
        scratchpad: false,
    };
    let mut windows: Vec<WindowState> = Vec::new();
    collect(root, &place, &mut windows);
    assert(window_views(windows@) =~= tree_windows(root@));
    windows
}

/// The windows of the tree that `bytes` describe, where they are a JSON document.
pub fn parse_tree(bytes: &[u8]) -> (windows: Option<Vec<WindowState>>)
    ensures
        match parsed_json(bytes@) {
            Some(root) => windows is Some && window_views(windows->0@) == tree_windows(root),
            None => windows is None,
        },
{
    match parse_json(bytes) {
        Some(root) => Some(windows_of_tree(&root)),
        None => None,
    }
}

/// A window is minimized only in the workspace that holds minimized windows, and then it is not
/// maximized. Where it is maximized it fills its workspace and remembers where to go back to.
pub proof fn window_flags_are_consistent(node: JsonView, place: TreePlace)
    requires
        window_of(node, place) is Some,
    ensures
        ({
            let window = window_of(node, place)->0;
            &&& window.flags.minimized ==> window.flags.scratchpad && place.scratchpad
                && !window.flags.maximized
            &&& window.flags.maximized ==> window.place.workspace_rect == Some(window.place.rect)
                && window.restore_frame is Some
            &&& window.place.decoration_height >= 0
            &&& window.identifier.len() > 0
        }),
{
}

/// Whether each node of a chain is a child of the one before it, tiled or floating.
pub open spec fn is_chain(chain: Seq<JsonView>) -> bool {
    forall|at: int|
        #![trigger chain[at]]
        0 < at < chain.len() ==> list_member(chain[at - 1], "nodes"@).contains(chain[at])
            || list_member(chain[at - 1], "floating_nodes"@).contains(chain[at])
}

/// The last node of that type in a chain.
pub open spec fn nearest(chain: Seq<JsonView>, kind: Seq<char>) -> Option<JsonView>
    decreases chain.len(),
{
    if chain.len() == 0 {
        None
    } else if text_member(chain.last(), "type"@) == Some(kind) {
        Some(chain.last())
    } else {
        nearest(chain.drop_last(), kind)
    }
}

/// The name of a node that may be absent; nothing where it has none.
pub open spec fn name_of_node(node: Option<JsonView>) -> Seq<char> {
    match node {
        Some(node) => match text_member(node, "name"@) {
            Some(name) => name,
            None => Seq::empty(),
        },
        None => Seq::empty(),
    }
}

/// The place of the last node of a chain that begins at a place.
spec fn place_in(chain: Seq<JsonView>, start: TreePlace) -> TreePlace
    decreases chain.len(),
{
    if chain.len() == 0 {
        start
    } else if chain.len() == 1 {
        entered(chain[0], start)
    } else {
        place_in(chain.skip(1), below(chain[0], entered(chain[0], start)))
    }
}

/// Whether a place is inside these nodes: the workspace and the output that are the nearest ones.
spec fn is_inside_of(place: TreePlace, workspace: Option<JsonView>, output: Option<JsonView>) -> bool {
    &&& text_or_empty(place.workspace) == name_of_node(workspace)
    &&& text_or_empty(place.output) == name_of_node(output)
    &&& place.workspace_rect == match workspace {
        Some(node) => Some(rect_of(member(node, "rect"@))),
        None => None,
    }
    &&& place.scratchpad <==> workspace is Some && name_of_node(workspace) == "__i3_scratch"@
}

/// The nearest node of a type in a longer chain: one of the rest, or else the first one.
proof fn nearest_of_rest(chain: Seq<JsonView>, kind: Seq<char>)
    requires
        chain.len() > 0,
    ensures
        nearest(chain, kind) == match nearest(chain.skip(1), kind) {
            Some(node) => Some(node),
            None => nearest(seq![chain[0]], kind),
        },
    decreases chain.len(),
{
    let rest = chain.skip(1);
    if chain.len() == 1 {
        assert(chain =~= seq![chain[0]]);
        assert(rest =~= seq![]);
    } else {
        nearest_of_rest(chain.drop_last(), kind);
        assert(chain.drop_last().skip(1) =~= rest.drop_last());
        assert(rest.last() == chain.last());
    }
}

/// The place of the last node of a chain is inside the nearest nodes above it, or inside those that
/// the chain begins in.
proof fn chains_lead_inside(
    chain: Seq<JsonView>,
    start: TreePlace,
    workspace: Option<JsonView>,
    output: Option<JsonView>,
)
    requires
        chain.len() > 0,
        is_inside_of(start, workspace, output),
    ensures
        is_inside_of(
            place_in(chain, start),
            match nearest(chain, "workspace"@) {
                Some(node) => Some(node),
                None => workspace,
            },
            match nearest(chain, "output"@) {
                Some(node) => Some(node),
                None => output,
            },
        ),
    decreases chain.len(),
{
    reveal_strlit("workspace");
    reveal_strlit("output");
    let first = chain[0];
    let alone = seq![first];
    assert(alone.last() == first);
    assert(alone.drop_last() =~= seq![]);
    let inside = entered(first, start);
    let own_workspace = match nearest(alone, "workspace"@) {
        Some(node) => Some(node),
        None => workspace,
    };
    let own_output = match nearest(alone, "output"@) {
        Some(node) => Some(node),
        None => output,
    };
    assert(nearest(alone.drop_last(), "workspace"@) is None);
    assert(nearest(alone.drop_last(), "output"@) is None);
    assert("workspace"@.len() == 9 && "output"@.len() == 6);
    assert(is_inside_of(inside, own_workspace, own_output));
    nearest_of_rest(chain, "workspace"@);
    nearest_of_rest(chain, "output"@);
    if chain.len() > 1 {
        chains_lead_inside(chain.skip(1), below(first, inside), own_workspace, own_output);
    } else {
        assert(chain.skip(1) =~= seq![]);
    }
}

/// What is collected under one of several nodes is collected.
proof fn collected_among(nodes: Seq<JsonView>, place: TreePlace, at: int, window: WindowView)
    requires
        0 <= at < nodes.len(),
        collected(nodes[at], place).contains(window),
    ensures
        collected_all(nodes, place).contains(window),
    decreases nodes.len(),
{
    let before = collected_all(nodes.drop_last(), place);
    let last = collected(nodes.last(), place);
    if at < nodes.len() - 1 {
        assert(nodes.drop_last()[at] == nodes[at]);
        collected_among(nodes.drop_last(), place, at, window);
        let found = choose|found: int| 0 <= found < before.len() && before[found] == window;
        assert((before + last)[found] == window);
    } else {
        let found = choose|found: int| 0 <= found < last.len() && last[found] == window;
        assert((before + last)[before.len() + found] == window);
    }
}

/// The window at the end of a chain is collected at its beginning.
proof fn chains_are_collected(chain: Seq<JsonView>, start: TreePlace)
    requires
        chain.len() > 0,
        is_chain(chain),
        window_of(chain.last(), place_in(chain, start)) is Some,
    ensures
        collected(chain[0], start).contains(
            window_of(chain.last(), place_in(chain, start))->0,
        ),
    decreases chain.len(),
{
    let first = chain[0];
    let inside = entered(first, start);
    let children = below(first, inside);
    let window = window_of(chain.last(), place_in(chain, start))->0;
    let own = own_window(first, inside);
    let tiled = list_member(first, "nodes"@);
    let floating = list_member(first, "floating_nodes"@);
    let one = if tiled.len() > 0 {
        collected_all(tiled, children)
    } else {
        seq![]
    };
    let two = if floating.len() > 0 {
        collected_all(floating, children)
    } else {
        seq![]
    };
    let whole = collected(first, start);
    assert(whole == own + one + two);
    if chain.len() == 1 {
        assert(own[0] == window);
        assert(whole[0] == window);
    } else {
        let rest = chain.skip(1);
        assert forall|at: int|
            #![trigger rest[at]]
            0 < at < rest.len() implies list_member(rest[at - 1], "nodes"@).contains(rest[at])
            || list_member(rest[at - 1], "floating_nodes"@).contains(rest[at]) by {
            assert(rest[at] == chain[at + 1] && rest[at - 1] == chain[at]);
        }
        assert(rest.last() == chain.last());
        chains_are_collected(rest, children);
        assert(rest[0] == chain[1]);
        assert(tiled.contains(chain[1]) || floating.contains(chain[1]));
        if tiled.contains(chain[1]) {
            let at = choose|at: int| 0 <= at < tiled.len() && tiled[at] == chain[1];
            collected_among(tiled, children, at, window);
            let found = choose|found: int| 0 <= found < one.len() && one[found] == window;
            assert(whole[own.len() + found] == window);
        } else {
            let at = choose|at: int| 0 <= at < floating.len() && floating[at] == chain[1];
            collected_among(floating, children, at, window);
            let found = choose|found: int| 0 <= found < two.len() && two[found] == window;
            assert(whole[own.len() + one.len() + found] == window);
        }
    }
}

/// Every window of the tree is read, with the name of the nearest workspace above it as its workspace
/// and that of the nearest output above it as its output. It is minimized where it is a window of the
/// scratchpad in the workspace of the scratchpad. The rest is what its own node says.
pub proof fn windows_are_read_where_the_tree_has_them(chain: Seq<JsonView>)
    requires
        chain.len() > 0,
        is_chain(chain),
        text_member(chain.last(), "foreign_toplevel_identifier"@) is Some,
        text_member(chain.last(), "foreign_toplevel_identifier"@)->0.len() > 0,
    ensures
        exists|at: int|
            {
                let window = #[trigger] tree_windows(chain[0])[at];
                let node = chain.last();
                let workspace = nearest(chain, "workspace"@);
                let in_scratchpad = text_member(node, "scratchpad_state"@) is Some && text_member(
                    node,
                    "scratchpad_state"@,
                ) != Some("none"@);
                &&& 0 <= at < tree_windows(chain[0]).len()
                &&& Some(window.identifier) == text_member(node, "foreign_toplevel_identifier"@)
                &&& window.place.workspace == name_of_node(workspace)
                &&& window.place.output == name_of_node(nearest(chain, "output"@))
                &&& window.place.workspace_rect == match workspace {
                    Some(workspace) => Some(rect_of(member(workspace, "rect"@))),
                    None => None,
                }
                &&& window.flags.scratchpad == in_scratchpad
                &&& window.flags.minimized <==> in_scratchpad && workspace is Some && name_of_node(
                    workspace,
                ) == "__i3_scratch"@
                &&& window.flags.focused <==> bool_member(node, "focused"@) == Some(true)
                &&& window.flags.fullscreen <==> signed_member(node, "fullscreen_mode"@) is Some
                    && signed_member(node, "fullscreen_mode"@) != Some(0i64)
                &&& unsigned_member(node, "id"@) is Some ==> unsigned_member(node, "id"@) == Some(
                    window.container_id,
                )
                &&& match unsigned_member(node, "pid"@) {
                    Some(pid) if pid <= u32::MAX => window.pid == pid,
                    _ => window.pid == 0,
                }
                &&& window.flags.maximized ==> workspace is Some && window.restore_frame is Some
                    && window.place.rect == rect_of(member(workspace->0, "rect"@))
            },
{
    let root = chain[0];
    let rect = rect_of(member(root, "rect"@));
    let start = TreePlace {
        origin: (rect.x, rect.y),
        workspace_rect: None,
        workspace: None,
        output: None,
        scratchpad: false,
    };
    let place = place_in(chain, start);
    assert(is_inside_of(start, None, None));
    chains_lead_inside(chain, start, None, None);
    let window = window_of(chain.last(), place)->0;
    chains_are_collected(chain, start);
    let all = tree_windows(root);
    let at = choose|at: int| 0 <= at < all.len() && all[at] == window;
    assert(all[at] == window);
}

/// Every window that is read has an identifier, so no node without one is taken for a window.
pub proof fn only_windows_are_read(node: JsonView, place: TreePlace)
    ensures
        text_member(node, "foreign_toplevel_identifier"@) is None || text_member(
            node,
            "foreign_toplevel_identifier"@,
        )->0.len() == 0 ==> window_of(node, place) is None,
        list_member(node, "nodes"@).len() == 0 && list_member(node, "floating_nodes"@).len() == 0
            ==> collected(node, place) == match window_of(node, entered(node, place)) {
            Some(window) => seq![window],
            None => Seq::<WindowView>::empty(),
        },
{
    if list_member(node, "nodes"@).len() == 0 && list_member(node, "floating_nodes"@).len() == 0 {
        assert(collected(node, place) =~= own_window(node, entered(node, place)));
    }
}

/// A rectangle is read from the members of its value; one that is missing or too large is zero.
pub proof fn rectangles_are_read_by_their_members(value: JsonView)
    ensures
        ({
            let rect = rect_of(Some(value));
            &&& match signed_member(value, "x"@) {
                Some(number) if i32::MIN <= number <= i32::MAX => rect.x == number,
                _ => rect.x == 0,
            }
            &&& match signed_member(value, "y"@) {
                Some(number) if i32::MIN <= number <= i32::MAX => rect.y == number,
                _ => rect.y == 0,
            }
            &&& match signed_member(value, "width"@) {
                Some(number) if i32::MIN <= number <= i32::MAX => rect.width == number,
                _ => rect.width == 0,
            }
            &&& match signed_member(value, "height"@) {
                Some(number) if i32::MIN <= number <= i32::MAX => rect.height == number,
                _ => rect.height == 0,
            }
        }),
        rect_of(None).width == 0 && rect_of(None).height == 0,
{
}

/// The frame of a window reaches round its content and its decoration and no further: each of its
/// edges is one of theirs. An empty rectangle adds nothing.
pub proof fn frames_reach_round_both(left: Rect, right: Rect)
    requires
        left.x + left.width <= i32::MAX && left.y + left.height <= i32::MAX,
        right.x + right.width <= i32::MAX && right.y + right.height <= i32::MAX,
    ensures
        ({
            let frame = union_of(left, right);
            let full = left.width > 0 && left.height > 0 && right.width > 0 && right.height > 0;
            let width = max_of(left.x + left.width, right.x + right.width) - frame.x;
            let height = max_of(left.y + left.height, right.y + right.height) - frame.y;
            &&& right.width <= 0 || right.height <= 0 ==> frame == left
            &&& right.width > 0 && right.height > 0 && (left.width <= 0 || left.height <= 0)
                ==> frame == right
            &&& full ==> frame == union_of(right, left)
            &&& full ==> frame.x <= left.x && frame.x <= right.x && (frame.x == left.x || frame.x
                == right.x)
            &&& full ==> frame.y <= left.y && frame.y <= right.y && (frame.y == left.y || frame.y
                == right.y)
            &&& full && width <= i32::MAX ==> frame.width == width
            &&& full && height <= i32::MAX ==> frame.height == height
        }),
{
}

} // verus!
