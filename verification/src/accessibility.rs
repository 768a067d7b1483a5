//! What assistive technology is told of the shell: a tree of nodes, and what an action on a node
//! does.

use vstd::prelude::*;
use vstd::string::*;
use crate::arith::{add_i32, mul_i32, sub_i32, u32_as_i32, usize_as_i32};
use crate::arith::{max_of, saturate_i32};
use crate::dialogs::context_target_views;
use crate::menus::{applications_open, filtered, preferred_size, visible_rows};
use crate::model::{
    applications_menu_close_target, panel_targets, window_menu_targets, Application,
    DesktopItemKind, HitTarget, Rect, ShellAction, WorkspaceTab, APPLICATIONS_MENU_FOOTER_HEIGHT,
    MENU_ROW_HEIGHT, PANEL_HEIGHT,
};
use crate::model::{
    application_views, menu_close, rows_of, target_views, window_controls, ActionView, TargetView,
};
use crate::paths::{has_path, holds_path, FilePath};
use crate::pointer::{controls_alone, shell_panel};
use crate::shell::{application_place, find_in};
use crate::state::{ContextState, MenuKind, Shell};
use crate::state::{ContextView, ShellView};
use crate::text::{decimal_text, join};
use crate::text::{decimal, optional_text};

verus! {

/// What a node is.
#[derive(Debug, Clone, Copy, PartialEq, Eq, Structural)]
pub enum NodeRole {
    Button,
    Label,
    TextInput,
    MenuItem,
    Menu,
    Window,
}

/// Where a node is, on the whole desktop.
#[derive(Debug, Clone, Copy, PartialEq, Eq, Structural)]
pub struct Bounds {
    pub left: i64,
    pub top: i64,
    pub right: i64,
    pub bottom: i64,
}

/// What can be done with a node.
#[derive(Debug, Clone, Copy, PartialEq, Eq, Structural)]
pub struct NodeActions {
    pub click: bool,
    /// Its text can be set or replaced.
    pub edit: bool,
    pub scroll: bool,
    pub scroll_into_view: bool,
}

/// How far a menu is scrolled and how far it can be.
#[derive(Debug, Clone, Copy, PartialEq, Eq, Structural)]
pub struct ScrollRange {
    pub at: usize,
    pub end: usize,
}

/// The state of a node.
#[derive(Debug, Clone, Copy, PartialEq, Eq, Structural)]
pub struct NodeState {
    pub bounds: Option<Bounds>,
    pub selected: Option<bool>,
    pub disabled: bool,
    pub expanded: Option<bool>,
    pub position: Option<usize>,
    pub set_size: Option<usize>,
    pub scroll: Option<ScrollRange>,
    pub actions: NodeActions,
}

/// What an action on a node asks of the shell.
#[derive(Debug)]
pub enum AccessibleTarget {
    Activate { action: ShellAction, menu_index: Option<usize> },
    DesktopAction { path: FilePath, action: ShellAction },
    ToggleDesktopSelection(FilePath),
    EditValue,
    ApplicationSearch,
    ScrollMenu,
}

/// An [`AccessibleTarget`] with its texts and paths as sequences.
pub enum AccessView {
    Activate(ActionView, Option<usize>),
    DesktopAction(Seq<u8>, ActionView),
    ToggleDesktopSelection(Seq<u8>),
    EditValue,
    ApplicationSearch,
    ScrollMenu,
}

impl View for AccessibleTarget {
    type V = AccessView;

    open spec fn view(&self) -> AccessView {
        match *self {
            AccessibleTarget::Activate { action, menu_index } => AccessView::Activate(
                action@,
                menu_index,
            ),
            AccessibleTarget::DesktopAction { path, action } => AccessView::DesktopAction(
                path@,
                action@,
            ),
            AccessibleTarget::ToggleDesktopSelection(path) => AccessView::ToggleDesktopSelection(
                path@,
            ),
            AccessibleTarget::EditValue => AccessView::EditValue,
            AccessibleTarget::ApplicationSearch => AccessView::ApplicationSearch,
            AccessibleTarget::ScrollMenu => AccessView::ScrollMenu,
        }
    }
}

/// What a target that may be absent asks for.
pub open spec fn optional_access(target: Option<AccessibleTarget>) -> Option<AccessView> {
    match target {
        Some(target) => Some(target@),
        None => None,
    }
}

/// A node of the tree.
#[derive(Debug)]
pub struct AccessibleNode {
    pub id: u64,
    pub role: NodeRole,
    pub label: String,
    pub value: Option<String>,
    pub state: NodeState,
    pub target: Option<AccessibleTarget>,
    pub children: Vec<u64>,
}

/// An [`AccessibleNode`] with its texts and lists as sequences.
pub struct NodeView {
    pub id: u64,
    pub role: NodeRole,
    pub label: Seq<char>,
    pub value: Option<Seq<char>>,
    pub state: NodeState,
    pub target: Option<AccessView>,
    pub children: Seq<u64>,
}

impl View for AccessibleNode {
    type V = NodeView;

    open spec fn view(&self) -> NodeView {
        NodeView {
            id: self.id,
            role: self.role,
            label: self.label@,
            value: optional_text(self.value),
            state: self.state,
            target: optional_access(self.target),
            children: self.children@,
        }
    }
}

/// The nodes of a list, each by its view.
pub open spec fn node_views(nodes: Seq<AccessibleNode>) -> Seq<NodeView> {
    nodes.map_values(|node: AccessibleNode| node@)
}

/// The tree: its nodes, the last of which is the root, and the node with the focus.
#[derive(Debug)]
pub struct AccessibleTree {
    pub nodes: Vec<AccessibleNode>,
    pub focus: u64,
}

/// The root of the tree.
pub const ROOT_NODE: u64 = 1;

/// The node of the Applications menu.
pub const MENU_NODE: u64 = 9000;

/// Where `rect` is on the whole desktop, on a surface with that corner.
pub open spec fn bounds_of(rect: Rect, x: int, y: int) -> Bounds {
    Bounds {
        left: (rect.x + x) as i64,
        top: (rect.y + y) as i64,
        right: (rect.x + x + rect.width) as i64,
        bottom: (rect.y + y + rect.height) as i64,
    }
}

/// Where `rect` is on the whole desktop.
pub fn a11y_rect(rect: Rect, offset_x: i32, offset_y: i32) -> (bounds: Bounds)
    ensures
        bounds == bounds_of(rect, offset_x as int, offset_y as int),
{
    let left: i64 = rect.x as i64 + offset_x as i64;
    let top: i64 = rect.y as i64 + offset_y as i64;
    Bounds { left, top, right: left + rect.width as i64, bottom: top + rect.height as i64 }
}

/// No action at all.
pub open spec fn no_actions() -> NodeActions {
    NodeActions { click: false, edit: false, scroll: false, scroll_into_view: false }
}

/// The state of a node that says nothing but what can be done with it.
pub open spec fn bare_state(actions: NodeActions) -> NodeState {
    NodeState {
        bounds: None,
        selected: None,
        disabled: false,
        expanded: None,
        position: None,
        set_size: None,
        scroll: None,
        actions,
    }
}

/// The state of a node that says nothing but that it can be clicked.
pub open spec fn click_state() -> NodeState {
    bare_state(NodeActions { click: true, ..no_actions() })
}

/// The state of a node that says nothing but that its text can be edited.
pub open spec fn edit_state() -> NodeState {
    bare_state(NodeActions { edit: true, ..no_actions() })
}

/// The state of a node that says nothing but what can be done with it.
fn bare(click: bool, edit: bool) -> (state: NodeState)
    ensures
        state == bare_state(NodeActions { click, edit, ..no_actions() }),
{
    NodeState {
        bounds: None,
        selected: None,
        disabled: false,
        expanded: None,
        position: None,
        set_size: None,
        scroll: None,
        actions: NodeActions { click, edit, scroll: false, scroll_into_view: false },
    }
}

/// A button.
pub open spec fn button_node(
    id: int,
    label: Seq<char>,
    state: NodeState,
    target: AccessView,
) -> NodeView {
    NodeView {
        id: id as u64,
        role: NodeRole::Button,
        label,
        value: None,
        state,
        target: Some(target),
        children: seq![],
    }
}

/// A button that does what hitting a target does.
pub open spec fn target_node(id: int, target: TargetView, x: int, y: int) -> NodeView {
    button_node(
        id,
        target.label,
        NodeState { bounds: Some(bounds_of(target.rect, x, y)), ..click_state() },
        AccessView::Activate(target.action, None),
    )
}

/// Appends a node.
fn push_node(nodes: &mut Vec<AccessibleNode>, node: AccessibleNode)
    ensures
        node_views(final(nodes)@) == node_views(old(nodes)@).push(node@),
{
    nodes.push(node);
    assert(node_views(nodes@) =~= node_views(old(nodes)@).push(node@));
}

/// Appends a button.
fn push_button(
    nodes: &mut Vec<AccessibleNode>,
    id: u64,
    label: String,
    state: NodeState,
    target: AccessibleTarget,
)
    ensures
        node_views(final(nodes)@) == node_views(old(nodes)@).push(
            button_node(id as int, label@, state, target@),
        ),
{
    let node = AccessibleNode {
        id,
        role: NodeRole::Button,
        label,
        value: None,
        state,
        target: Some(target),
        children: Vec::new(),
    };
    assert(node@.children =~= seq![]);
    push_node(nodes, node);
}

/// Appends a button that does what hitting a target does.
fn add_accessible_target(
    nodes: &mut Vec<AccessibleNode>,
    id: u64,
    target: &HitTarget,
    offset_x: i32,
    offset_y: i32,
)
    ensures
        node_views(final(nodes)@) == node_views(old(nodes)@).push(
            target_node(id as int, target@, offset_x as int, offset_y as int),
        ),
{
    let mut state = bare(true, false);
    state.bounds = Some(a11y_rect(target.rect, offset_x, offset_y));
    push_button(
        nodes,
        id,
        target.label.clone(),
        state,
        AccessibleTarget::Activate { action: target.action.duplicate(), menu_index: None },
    );
}

/// The operations on a desktop item. An AppImage that is not among the applications can be added.
pub open spec fn item_operations(kind: DesktopItemKind, registered: bool) -> Seq<
    (Seq<char>, ActionView),
> {
    let operations = seq![
        ("Open "@, ActionView::DesktopOpenSelection),
        ("Cut "@, ActionView::DesktopCut),
        ("Copy "@, ActionView::DesktopCopy),
        ("Rename "@, ActionView::DesktopRename),
        ("Delete "@, ActionView::DesktopDelete),
    ];
    if kind == DesktopItemKind::AppImage && !registered {
        operations.push(("Add AppImage to Applications "@, ActionView::DesktopAddToApplications))
    } else {
        operations
    }
}

/// The buttons for the operations on the desktop item at `place`.
pub open spec fn operation_nodes(
    place: int,
    target: TargetView,
    path: Seq<u8>,
    operations: Seq<(Seq<char>, ActionView)>,
) -> Seq<NodeView> {
    operations.map(
        |at: int, operation: (Seq<char>, ActionView)|
            button_node(
                70000 + place * 10 + at,
                operation.0 + target.label,
                click_state(),
                AccessView::DesktopAction(path, operation.1),
            ),
    )
}

/// The button of a target of the desktop.
pub open spec fn desktop_node(shell: ShellView, place: int) -> NodeView {
    let target = shell.desktop_targets[place];
    button_node(
        100 + place,
        target.label,
        NodeState {
            bounds: Some(bounds_of(target.rect, 0, 0)),
            selected: match target.action {
                ActionView::OpenDesktopItem(path, _) => Some(holds_path(shell.selection, path)),
                _ => None,
            },
            ..click_state()
        },
        AccessView::Activate(target.action, None),
    )
}

/// The button that adds a desktop item to the selection or takes it out.
pub open spec fn selection_node(shell: ShellView, place: int, path: Seq<u8>) -> NodeView {
    let label = shell.desktop_targets[place].label;
    button_node(
        75000 + place,
        if holds_path(shell.selection, path) {
            "Remove "@ + label + " from selection"@
        } else {
            "Add "@ + label + " to selection"@
        },
        click_state(),
        AccessView::ToggleDesktopSelection(path),
    )
}

/// The nodes of a target of the desktop.
pub open spec fn desktop_item_nodes(shell: ShellView, place: int, registered: bool) -> Seq<
    NodeView,
> {
    let target = shell.desktop_targets[place];
    seq![desktop_node(shell, place)] + (match target.action {
        ActionView::OpenDesktopItem(path, kind) => seq![selection_node(shell, place, path)]
            + operation_nodes(place, target, path, item_operations(kind, registered)),
        _ => seq![],
    })
}

/// The nodes of the first `count` targets of the desktop.
pub open spec fn desktop_nodes(shell: ShellView, registered: Seq<bool>, count: int) -> Seq<NodeView>
    decreases count,
{
    if count <= 0 {
        seq![]
    } else {
        desktop_nodes(shell, registered, count - 1) + desktop_item_nodes(
            shell,
            count - 1,
            registered[count - 1],
        )
    }
}

/// The buttons for what can be done with the desktop itself.
pub open spec fn desktop_commands(shell: ShellView) -> Seq<NodeView> {
    seq![
        button_node(
            69000,
            "Paste onto Desktop"@,
            NodeState { disabled: !shell.chrome.paste_available, ..click_state() },
            AccessView::Activate(ActionView::DesktopPaste, None),
        ),
        button_node(
            69001,
            "New Folder on Desktop"@,
            click_state(),
            AccessView::Activate(ActionView::DesktopNewFolder, None),
        ),
        button_node(
            69002,
            "Arrange Desktop Icons"@,
            click_state(),
            AccessView::Activate(ActionView::DesktopArrangeIcons, None),
        ),
    ]
}

/// The buttons of the targets of a surface with that corner, numbered from `first` on.
pub open spec fn target_nodes(targets: Seq<TargetView>, first: int, x: int, y: int) -> Seq<
    NodeView,
> {
    targets.map(|at: int, target: TargetView| target_node(first + at, target, x, y))
}

/// What a dialog adds to its buttons: what it says, or the field for a name.
pub open spec fn dialog_nodes(shell: ShellView) -> Seq<NodeView> {
    let origin = shell.chrome.frame.context_origin;
    match shell.context {
        ContextView::Delete(dialog) => seq![
            NodeView {
                id: 80100,
                role: NodeRole::Label,
                label: decimal(dialog.items.len()) + " selected. "@ + dialog.detail,
                value: None,
                state: bare_state(no_actions()),
                target: None,
                children: seq![],
            },
        ],
        ContextView::Edit(dialog) => seq![
            NodeView {
                id: 80100,
                role: NodeRole::TextInput,
                label: "Name"@,
                value: Some(dialog.input),
                state: NodeState {
                    bounds: Some(
                        bounds_of(
                            Rect { x: 16, y: 54, width: 402, height: 42 },
                            origin.0 as int,
                            origin.1 as int,
                        ),
                    ),
                    ..edit_state()
                },
                target: Some(AccessView::EditValue),
                children: seq![],
            },
        ],
        _ => seq![],
    }
}

/// The nodes of the context surface.
pub open spec fn context_nodes(shell: ShellView) -> Seq<NodeView> {
    let origin = shell.chrome.frame.context_origin;
    if shell.context is Hidden {
        seq![]
    } else {
        target_nodes(context_target_views(shell), 80000, origin.0 as int, origin.1 as int)
            + dialog_nodes(shell)
    }
}

/// The node with the focus: the choice of a dialog that changes nothing, or the field for a name.
pub open spec fn focused_node(context: ContextView) -> u64 {
    match context {
        ContextView::Delete(_) => 80001,
        ContextView::Collision(_) => 80002,
        ContextView::Error(_, _) => 80000,
        ContextView::Edit(_) => 80100,
        _ => ROOT_NODE,
    }
}

/// Where the panel begins.
pub open spec fn panel_top(shell: ShellView) -> int {
    saturate_i32(
        max_of(shell.chrome.look.desktop_size.1 - shell.chrome.look.panel_size.1, 0),
    )
}

/// The fixed buttons of the panel.
pub open spec fn panel_nodes(shell: ShellView) -> Seq<NodeView> {
    let targets = shell_panel(shell);
    seq![
        target_node(1000, targets[0], 0, panel_top(shell)),
        target_node(1001, targets.last(), 0, panel_top(shell)),
    ]
}

/// The button that switches to a window.
pub open spec fn switch_node(shell: ShellView, place: int) -> NodeView {
    let window = shell.toplevels[place].window;
    target_node(
        2000 + place,
        TargetView {
            rect: Rect {
                x: saturate_i32(126 + saturate_i32(saturate_i32(place) * 148)) as i32,
                y: 0,
                width: 148,
                height: PANEL_HEIGHT,
            },
            label: "Switch to "@ + window.title@,
            action: ActionView::ActivateWindow(window.id),
        },
        0,
        panel_top(shell),
    )
}

/// The buttons that control a window.
pub open spec fn control_nodes(shell: ShellView, place: int) -> Seq<NodeView> {
    let window = shell.toplevels[place].window;
    let origin = shell.chrome.menu.menu_origin;
    let open = shell.chrome.menu.menu_open && shell.chrome.menu.menu_kind == MenuKind::Window(
        window.id,
    );
    rows_of(window_controls(window), 8, 44, 244).map(
        |at: int, target: TargetView|
            button_node(
                30000 + place * 10 + at,
                target.label + " "@ + window.title@,
                NodeState {
                    bounds: if open {
                        Some(bounds_of(target.rect, origin.0 as int, origin.1 as int))
                    } else {
                        None
                    },
                    ..click_state()
                },
                AccessView::Activate(target.action, None),
            ),
    )
}

/// The nodes of the first `count` windows.
pub open spec fn window_nodes(shell: ShellView, count: int) -> Seq<NodeView>
    decreases count,
{
    if count <= 0 {
        seq![]
    } else {
        window_nodes(shell, count - 1) + seq![switch_node(shell, count - 1)] + control_nodes(
            shell,
            count - 1,
        )
    }
}

/// The field that searches the applications.
pub open spec fn search_node(shell: ShellView) -> NodeView {
    let origin = shell.chrome.menu.menu_origin;
    let size = preferred_size(shell);
    NodeView {
        id: 20002,
        role: NodeRole::TextInput,
        label: "Search applications"@,
        value: Some(shell.search),
        state: NodeState {
            bounds: if applications_open(shell) {
                Some(
                    bounds_of(
                        Rect {
                            x: 8,
                            y: (saturate_i32(size.1) - APPLICATIONS_MENU_FOOTER_HEIGHT + 6) as i32,
                            width: (saturate_i32(size.0) - 16) as i32,
                            height: MENU_ROW_HEIGHT,
                        },
                        origin.0 as int,
                        origin.1 as int,
                    ),
                )
            } else {
                None
            },
            ..edit_state()
        },
        target: Some(AccessView::ApplicationSearch),
        children: seq![],
    }
}

/// Where the row of an application is, where it can be seen: `position` is its place in the menu.
pub open spec fn row_bounds(shell: ShellView, position: Option<usize>) -> Option<Bounds> {
    let origin = shell.chrome.menu.menu_origin;
    let scroll = shell.chrome.menu.menu_scroll as int;
    match position {
        Some(position) if applications_open(shell) && scroll <= position < scroll + visible_rows(
            shell,
        ) => Some(
            bounds_of(
                Rect {
                    x: 8,
                    y: saturate_i32(
                        80 + saturate_i32(
                            saturate_i32(
                                saturate_i32(position as int) - saturate_i32(scroll),
                            ) * MENU_ROW_HEIGHT,
                        ),
                    ) as i32,
                    width: (saturate_i32(shell.chrome.menu.menu_size.0 as int) - 16) as i32,
                    height: MENU_ROW_HEIGHT,
                },
                origin.0 as int,
                origin.1 as int,
            ),
        ),
        _ => None,
    }
}

/// The nodes of the application at `place`: one starts it, one puts it on the desktop.
pub open spec fn application_nodes(shell: ShellView, place: int) -> Seq<NodeView> {
    let application = shell.applications[place];
    let position = application_place(filtered(shell), application.id);
    seq![
        NodeView {
            id: (10000 + place) as u64,
            role: NodeRole::MenuItem,
            label: application.name,
            value: None,
            state: NodeState {
                bounds: row_bounds(shell, position),
                position: Some(
                    match position {
                        Some(position) => (position + 1) as usize,
                        None => (place + 1) as usize,
                    },
                ),
                ..bare_state(
                    NodeActions {
                        click: true,
                        scroll_into_view: applications_open(shell),
                        ..no_actions()
                    },
                )
            },
            target: Some(
                AccessView::Activate(ActionView::LaunchApplication(application.id), position),
            ),
            children: seq![],
        },
        button_node(
            40000 + place,
            "Add "@ + application.name + " to Desktop"@,
            click_state(),
            AccessView::Activate(
                ActionView::AddApplicationDesktopShortcut(application.id),
                None,
            ),
        ),
    ]
}

/// The nodes of the first `count` applications.
pub open spec fn all_application_nodes(shell: ShellView, count: int) -> Seq<NodeView>
    decreases count,
{
    if count <= 0 {
        seq![]
    } else {
        all_application_nodes(shell, count - 1) + application_nodes(shell, count - 1)
    }
}

/// The button that closes the Applications menu.
pub open spec fn close_node(shell: ShellView) -> NodeView {
    let origin = shell.chrome.menu.menu_origin;
    let target = menu_close(shell.chrome.menu.menu_size.0);
    button_node(
        20001,
        target.label,
        NodeState {
            bounds: Some(
                if applications_open(shell) {
                    bounds_of(target.rect, origin.0 as int, origin.1 as int)
                } else {
                    Bounds { left: 0, top: 0, right: 0, bottom: 0 }
                },
            ),
            ..click_state()
        },
        AccessView::Activate(target.action, None),
    )
}

/// The nodes of the Applications menu.
pub open spec fn menu_nodes(shell: ShellView) -> Seq<NodeView> {
    seq![search_node(shell)] + all_application_nodes(shell, shell.applications.len() as int)
        + seq![close_node(shell)]
}

/// The nodes outside the Applications menu.
pub open spec fn outer_nodes(shell: ShellView, registered: Seq<bool>) -> Seq<NodeView> {
    desktop_nodes(shell, registered, shell.desktop_targets.len() as int) + desktop_commands(shell)
        + context_nodes(shell) + panel_nodes(shell) + window_nodes(
        shell,
        shell.toplevels.len() as int,
    )
}

/// The identities of nodes.
pub open spec fn node_ids(nodes: Seq<NodeView>) -> Seq<u64> {
    nodes.map_values(|node: NodeView| node.id)
}

/// The Applications menu as a node, with its parts as children.
pub open spec fn menu_node(shell: ShellView) -> NodeView {
    let origin = shell.chrome.menu.menu_origin;
    let size = preferred_size(shell);
    let open = applications_open(shell);
    NodeView {
        id: MENU_NODE,
        role: NodeRole::Menu,
        label: "Applications menu"@,
        value: None,
        state: NodeState {
            bounds: if open {
                Some(
                    Bounds {
                        left: origin.0 as i64,
                        top: origin.1 as i64,
                        right: (origin.0 + size.0) as i64,
                        bottom: (origin.1 + size.1) as i64,
                    },
                )
            } else {
                None
            },
            expanded: Some(open),
            set_size: Some(filtered(shell).len() as usize),
            scroll: if open {
                Some(
                    ScrollRange {
                        at: shell.chrome.menu.menu_scroll,
                        end: max_of(filtered(shell).len() - visible_rows(shell), 0) as usize,
                    },
                )
            } else {
                None
            },
            ..bare_state(NodeActions { scroll: open, ..no_actions() })
        },
        target: Some(AccessView::ScrollMenu),
        children: node_ids(menu_nodes(shell)),
    }
}

/// The root, with everything outside the Applications menu and the menu itself as children.
pub open spec fn root_node(shell: ShellView, registered: Seq<bool>) -> NodeView {
    NodeView {
        id: ROOT_NODE,
        role: NodeRole::Window,
        label: "Buzzard OS Desktop"@,
        value: None,
        state: NodeState {
            bounds: Some(
                Bounds {
                    left: 0,
                    top: 0,
                    right: shell.chrome.look.desktop_size.0 as i64,
                    bottom: shell.chrome.look.desktop_size.1 as i64,
                },
            ),
            ..bare_state(no_actions())
        },
        target: None,
        children: node_ids(outer_nodes(shell, registered)).push(MENU_NODE),
    }
}

/// All nodes of the tree.
pub open spec fn tree_nodes(shell: ShellView, registered: Seq<bool>) -> Seq<NodeView> {
    (outer_nodes(shell, registered) + menu_nodes(shell)).push(menu_node(shell)).push(
        root_node(shell, registered),
    )
}

/// The focus of a dialog is never on the choice that deletes or replaces.
pub proof fn dialogs_focus_the_safe_choice(shell: ShellView)
    requires
        shell.context is Delete || shell.context is Collision || shell.context is Error,
    ensures
        ({
            let nodes = context_nodes(shell);
            let at = focused_node(shell.context) - 80000;
            &&& 0 <= at < nodes.len()
            &&& nodes[at].id == focused_node(shell.context)
            &&& nodes[at].target == Some(
                AccessView::Activate(
                    if shell.context is Collision {
                        ActionView::DesktopCollisionCancel
                    } else {
                        ActionView::DismissContext
                    },
                    None,
                ),
            )
        }),
{
}

/// Every application can be started from the tree, whether or not the menu is open, shows it, or
/// finds it.
pub proof fn every_application_is_reachable(shell: ShellView, registered: Seq<bool>, place: int)
    requires
        0 <= place < shell.applications.len(),
    ensures
        exists|at: int|
            0 <= at < tree_nodes(shell, registered).len() && match (
            #[trigger] tree_nodes(shell, registered)[at]).target {
                Some(AccessView::Activate(ActionView::LaunchApplication(id), _)) => id
                    == shell.applications[place].id,
                _ => false,
            },
{
    let outer = outer_nodes(shell, registered);
    let count = shell.applications.len() as int;
    application_node_is_there(shell, count, place);
    let at = choose|at: int|
        0 <= at < all_application_nodes(shell, count).len() && (#[trigger] all_application_nodes(
            shell,
            count,
        )[at]) == application_nodes(shell, place)[0];
    let whole = tree_nodes(shell, registered);
    assert(menu_nodes(shell)[at + 1] == all_application_nodes(shell, count)[at]);
    assert(whole[outer.len() + at + 1] == menu_nodes(shell)[at + 1]);
}

/// The node of an application is among those of all applications.
proof fn application_node_is_there(shell: ShellView, count: int, place: int)
    requires
        0 <= place < count,
    ensures
        exists|at: int|
            0 <= at < all_application_nodes(shell, count).len() && (
            #[trigger] all_application_nodes(shell, count)[at]) == application_nodes(
                shell,
                place,
            )[0],
    decreases count,
{
    let before = all_application_nodes(shell, count - 1);
    let nodes = all_application_nodes(shell, count);
    if place == count - 1 {
        assert(nodes[before.len() as int] == application_nodes(shell, place)[0]);
    } else {
        application_node_is_there(shell, count - 1, place);
        let at = choose|at: int|
            0 <= at < before.len() && (#[trigger] before[at]) == application_nodes(shell, place)[0];
        assert(nodes[at] == before[at]);
    }
}

impl Shell {
    /// Appends the buttons for the operations on a desktop item.
    fn add_operations(
        nodes: &mut Vec<AccessibleNode>,
        place: usize,
        target: &HitTarget,
        path: &FilePath,
        addable: bool,
    )
        requires
            place * 10 + 75000 <= u64::MAX,
        ensures
            node_views(final(nodes)@) == node_views(old(nodes)@) + operation_nodes(
                place as int,
                target@,
                path@,
                item_operations(
                    if addable {
                        DesktopItemKind::AppImage
                    } else {
                        DesktopItemKind::RegularFile
                    },
                    false,
                ),
            ),
    {
        let ghost before = node_views(nodes@);
        let first: u64 = 70000 + place as u64 * 10;
        add_operation(nodes, first, "Open ", target, path, ShellAction::DesktopOpenSelection);
        add_operation(nodes, first + 1, "Cut ", target, path, ShellAction::DesktopCut);
        add_operation(nodes, first + 2, "Copy ", target, path, ShellAction::DesktopCopy);
        add_operation(nodes, first + 3, "Rename ", target, path, ShellAction::DesktopRename);
        add_operation(nodes, first + 4, "Delete ", target, path, ShellAction::DesktopDelete);
        if addable {
            add_operation(
                nodes,
                first + 5,
                "Add AppImage to Applications ",
                target,
                path,
                ShellAction::DesktopAddToApplications,
            );
        }
        assert(node_views(nodes@) =~= before + operation_nodes(
            place as int,
            target@,
            path@,
            item_operations(
                if addable {
                    DesktopItemKind::AppImage
                } else {
                    DesktopItemKind::RegularFile
                },
                false,
            ),
        ));
    }

    /// Appends the nodes of a target of the desktop.
    fn add_desktop_item(&self, nodes: &mut Vec<AccessibleNode>, place: usize, registered: bool)
        requires
            place < self.desktop_targets.len(),
            place * 10 + 75000 <= u64::MAX,
        ensures
            node_views(final(nodes)@) == node_views(old(nodes)@) + desktop_item_nodes(
                self@,
                place as int,
                registered,
            ),
    {
        let ghost before = node_views(nodes@);
        let target = &self.desktop_targets[place];
        assert(self@.desktop_targets[place as int] == target@);
        let mut state = bare(true, false);
        state.bounds = Some(a11y_rect(target.rect, 0, 0));
        if let ShellAction::OpenDesktopItem(path, _) = &target.action {
            state.selected = Some(has_path(&self.selection, path));
        }
        push_button(
            nodes,
            100 + place as u64,
            target.label.clone(),
            state,
            AccessibleTarget::Activate { action: target.action.duplicate(), menu_index: None },
        );
        assert(node_views(nodes@) =~= before.push(desktop_node(self@, place as int)));
        if let ShellAction::OpenDesktopItem(path, kind) = &target.action {
            let label = if has_path(&self.selection, path) {
                join(join("Remove ", target.label.as_str()).as_str(), " from selection")
            } else {
                join(join("Add ", target.label.as_str()).as_str(), " to selection")
            };
            push_button(
                nodes,
                75000 + place as u64,
                label,
                bare(true, false),
                AccessibleTarget::ToggleDesktopSelection(path.duplicate()),
            );
            let addable = *kind == DesktopItemKind::AppImage && !registered;
            assert(item_operations(
                if addable {
                    DesktopItemKind::AppImage
                } else {
                    DesktopItemKind::RegularFile
                },
                false,
            ) == item_operations(*kind, registered));
            Shell::add_operations(nodes, place, target, path, addable);
        }
        assert(node_views(nodes@) =~= before + desktop_item_nodes(
            self@,
            place as int,
            registered,
        ));
    }

    /// Appends the buttons for what can be done with the desktop itself.
    fn add_desktop_commands(&self, nodes: &mut Vec<AccessibleNode>)
        ensures
            node_views(final(nodes)@) == node_views(old(nodes)@) + desktop_commands(self@),
    {
        let ghost before = node_views(nodes@);
        let mut state = bare(true, false);
        state.disabled = !self.chrome.paste_available;
        push_button(
            nodes,
            69000,
            "Paste onto Desktop".to_string(),
            state,
            AccessibleTarget::Activate { action: ShellAction::DesktopPaste, menu_index: None },
        );
        push_button(
            nodes,
            69001,
            "New Folder on Desktop".to_string(),
            bare(true, false),
            AccessibleTarget::Activate { action: ShellAction::DesktopNewFolder, menu_index: None },
        );
        push_button(
            nodes,
            69002,
            "Arrange Desktop Icons".to_string(),
            bare(true, false),
            AccessibleTarget::Activate {
                action: ShellAction::DesktopArrangeIcons,
                menu_index: None,
            },
        );
        assert(node_views(nodes@) =~= before + desktop_commands(self@));
    }

    /// Appends what a dialog adds to its buttons.
    fn add_dialog(&self, nodes: &mut Vec<AccessibleNode>)
        ensures
            node_views(final(nodes)@) == node_views(old(nodes)@) + dialog_nodes(self@),
    {
        let ghost before = node_views(nodes@);
        let origin = self.chrome.frame.context_origin;
        match &self.context {
            ContextState::Delete(dialog) => {
                let count = decimal_text(dialog.items.len() as u64);
                let label = join(
                    join(count.as_str(), " selected. ").as_str(),
                    dialog.detail.as_str(),
                );
                let node = AccessibleNode {
                    id: 80100,
                    role: NodeRole::Label,
                    label,
                    value: None,
                    state: bare(false, false),
                    target: None,
                    children: Vec::new(),
                };
                assert(node@.children =~= seq![]);
                push_node(nodes, node);
            },
            ContextState::Edit(dialog) => {
                let mut state = bare(false, true);
                state.bounds = Some(
                    a11y_rect(
                        Rect { x: 16, y: 54, width: 402, height: 42 },
                        origin.0,
                        origin.1,
                    ),
                );
                let node = AccessibleNode {
                    id: 80100,
                    role: NodeRole::TextInput,
                    label: "Name".to_string(),
                    value: Some(dialog.input.clone()),
                    state,
                    target: Some(AccessibleTarget::EditValue),
                    children: Vec::new(),
                };
                assert(node@.children =~= seq![]);
                push_node(nodes, node);
            },
            _ => {},
        }
        assert(node_views(nodes@) =~= before + dialog_nodes(self@));
    }

    /// Appends the nodes of the context surface.
    fn add_context(&self, nodes: &mut Vec<AccessibleNode>)
        requires
            self.valid(),
        ensures
            node_views(final(nodes)@) == node_views(old(nodes)@) + context_nodes(self@),
    {
        let ghost before = node_views(nodes@);
        if !self.context.is_visible() {
            assert(node_views(nodes@) =~= before + context_nodes(self@));
            return;
        }
        let origin = self.chrome.frame.context_origin;
        let targets = self.context_targets();
        let ghost views = target_views(targets@);
        proof {
            assert(views.len() <= 1000) by {
                context_is_short(self@);
            }
        }
        let mut at: usize = 0;
        assert(before =~= before + target_nodes(
            views.take(0),
            80000,
            origin.0 as int,
            origin.1 as int,
        ));
        while at < targets.len()
            invariant
                at <= targets.len() <= 1000,
                views == target_views(targets@),
                node_views(nodes@) == before + target_nodes(
                    views.take(at as int),
                    80000,
                    origin.0 as int,
                    origin.1 as int,
                ),
            decreases targets.len() - at,
        {
            assert(views[at as int] == targets@[at as int]@);
            add_accessible_target(nodes, 80000 + at as u64, &targets[at], origin.0, origin.1);
            assert(node_views(nodes@) =~= before + target_nodes(
                views.take(at + 1),
                80000,
                origin.0 as int,
                origin.1 as int,
            ));
            at = at + 1;
        }
        assert(views.take(at as int) =~= views);
        let ghost shown = node_views(nodes@);
        self.add_dialog(nodes);
        assert(node_views(nodes@) =~= before + context_nodes(self@));
    }

    /// Where the panel begins.
    fn panel_y(&self) -> (top: i32)
        ensures
            top == panel_top(self@),
    {
        u32_as_i32(
            self.chrome.look.desktop_size.1.saturating_sub(self.chrome.look.panel_size.1),
        )
    }

    /// Appends the fixed buttons of the panel.
    fn add_panel(&self, nodes: &mut Vec<AccessibleNode>)
        requires
            self.valid(),
        ensures
            node_views(final(nodes)@) == node_views(old(nodes)@) + panel_nodes(self@),
    {
        let ghost before = node_views(nodes@);
        let top: i32 = self.panel_y();
        let targets = self.panel_targets();
        let ghost views = target_views(targets@);
        assert(views.len() == targets@.len());
        assert(views.len() >= 2);
        assert(views[0] == targets@[0]@);
        assert(views.last() == targets@.last()@);
        add_accessible_target(nodes, 1000, &targets[0], 0, top);
        add_accessible_target(nodes, 1001, &targets[targets.len() - 1], 0, top);
        assert(node_views(nodes@) =~= before + panel_nodes(self@));
    }

    /// Appends the buttons that control a window.
    fn add_controls(&self, nodes: &mut Vec<AccessibleNode>, place: usize)
        requires
            place < self.toplevels.len(),
            place <= i32::MAX,
        ensures
            node_views(final(nodes)@) == node_views(old(nodes)@) + control_nodes(
                self@,
                place as int,
            ),
    {
        let ghost before = node_views(nodes@);
        let ghost nodes_of = control_nodes(self@, place as int);
        let window = &self.toplevels[place].window;
        let origin = self.chrome.menu.menu_origin;
        let open = self.chrome.menu.menu_open && self.chrome.menu.menu_kind == MenuKind::Window(
            window.id,
        );
        let none: Vec<WorkspaceTab> = Vec::new();
        proof {
            controls_alone(*window);
            assert(none@ =~= Seq::<WorkspaceTab>::empty());
        }
        let targets = window_menu_targets(window, none.as_slice());
        let ghost views = target_views(targets@);
        assert(views.len() == 5);
        let mut at: usize = 0;
        assert(before =~= before + nodes_of.take(0));
        while at < targets.len()
            invariant
                at <= targets.len(),
                targets.len() == 5,
                place <= i32::MAX,
                place < self.toplevels.len(),
                *window == self@.toplevels[place as int].window,
                origin == self@.chrome.menu.menu_origin,
                open == (self@.chrome.menu.menu_open && self@.chrome.menu.menu_kind
                    == MenuKind::Window(window.id)),
                views == target_views(targets@),
                views == rows_of(window_controls(*window), 8, 44, 244),
                nodes_of == control_nodes(self@, place as int),
                node_views(nodes@) == before + nodes_of.take(at as int),
            decreases targets.len() - at,
        {
            assert(views[at as int] == targets@[at as int]@);
            let target = &targets[at];
            let label = join(join(target.label.as_str(), " ").as_str(), window.title.as_str());
            let mut state = bare(true, false);
            if open {
                state.bounds = Some(a11y_rect(target.rect, origin.0, origin.1));
            }
            push_button(
                nodes,
                30000 + place as u64 * 10 + at as u64,
                label,
                state,
                AccessibleTarget::Activate { action: target.action.duplicate(), menu_index: None },
            );
            assert(nodes_of[at as int].state == state);
            assert(node_views(nodes@) =~= before + nodes_of.take(at + 1));
            at = at + 1;
        }
        assert(nodes_of.take(at as int) =~= nodes_of);
    }

    /// Appends the nodes of the windows.
    fn add_windows(&self, nodes: &mut Vec<AccessibleNode>)
        requires
            self.valid(),
        ensures
            node_views(final(nodes)@) == node_views(old(nodes)@) + window_nodes(
                self@,
                self@.toplevels.len() as int,
            ),
    {
        let ghost before = node_views(nodes@);
        let top: i32 = self.panel_y();
        let mut at: usize = 0;
        assert(before =~= before + window_nodes(self@, 0));
        while at < self.toplevels.len()
            invariant
                at <= self.toplevels.len(),
                self.toplevels.len() <= i32::MAX,
                top == panel_top(self@),
                node_views(nodes@) == before + window_nodes(self@, at as int),
            decreases self.toplevels.len() - at,
        {
            let ghost sofar = node_views(nodes@);
            let window = &self.toplevels[at].window;
            let target = HitTarget {
                rect: Rect {
                    x: add_i32(126, mul_i32(usize_as_i32(at), 148)),
                    y: 0,
                    width: 148,
                    height: PANEL_HEIGHT,
                },
                label: join("Switch to ", window.title.as_str()),
                action: ShellAction::ActivateWindow(window.id),
            };
            add_accessible_target(nodes, 2000 + at as u64, &target, 0, top);
            assert(node_views(nodes@) =~= sofar.push(switch_node(self@, at as int)));
            self.add_controls(nodes, at);
            assert(node_views(nodes@) =~= before + window_nodes(self@, at + 1));
            at = at + 1;
        }
    }

    /// The field that searches the applications.
    fn search_field_node(&self) -> (node: AccessibleNode)
        requires
            self.valid(),
        ensures
            node@ == search_node(self@),
    {
        let mut state = bare(false, true);
        let origin = self.chrome.menu.menu_origin;
        if self.chrome.menu.menu_open && self.chrome.menu.menu_kind == MenuKind::Applications {
            let size = self.preferred_menu_size();
            state.bounds = Some(
                a11y_rect(
                    Rect {
                        x: 8,
                        y: add_i32(sub_i32(u32_as_i32(size.1), APPLICATIONS_MENU_FOOTER_HEIGHT), 6),
                        width: sub_i32(u32_as_i32(size.0), 16),
                        height: MENU_ROW_HEIGHT,
                    },
                    origin.0,
                    origin.1,
                ),
            );
        }
        let node = AccessibleNode {
            id: 20002,
            role: NodeRole::TextInput,
            label: "Search applications".to_string(),
            value: Some(self.search.clone()),
            state,
            target: Some(AccessibleTarget::ApplicationSearch),
            children: Vec::new(),
        };
        assert(node@.children =~= seq![]);
        node
    }

    /// Where the row of an application is, where it can be seen.
    fn bounds_of_row(&self, position: Option<usize>, rows: usize) -> (bounds: Option<Bounds>)
        requires
            rows == visible_rows(self@),
        ensures
            bounds == row_bounds(self@, position),
    {
        let origin = self.chrome.menu.menu_origin;
        let scroll: usize = self.chrome.menu.menu_scroll;
        if !(self.chrome.menu.menu_open && self.chrome.menu.menu_kind == MenuKind::Applications) {
            return None;
        }
        let position: usize = match position {
            Some(position) => position,
            None => {
                return None;
            },
        };
        if position < scroll || position - scroll >= rows {
            return None;
        }
        let row: i32 = sub_i32(usize_as_i32(position), usize_as_i32(scroll));
        Some(
            a11y_rect(
                Rect {
                    x: 8,
                    y: add_i32(80, mul_i32(row, MENU_ROW_HEIGHT)),
                    width: sub_i32(u32_as_i32(self.chrome.menu.menu_size.0), 16),
                    height: MENU_ROW_HEIGHT,
                },
                origin.0,
                origin.1,
            ),
        )
    }

    /// Appends the nodes of the application at `place`.
    fn add_application(
        &self,
        nodes: &mut Vec<AccessibleNode>,
        place: usize,
        listed: &Vec<Application>,
        rows: usize,
    )
        requires
            place < self.applications.len(),
            place + 40000 <= u64::MAX,
            application_views(listed@) == filtered(self@),
            rows == visible_rows(self@),
        ensures
            node_views(final(nodes)@) == node_views(old(nodes)@) + application_nodes(
                self@,
                place as int,
            ),
    {
        let ghost before = node_views(nodes@);
        let application = &self.applications[place];
        assert(self@.applications[place as int] == application@);
        let found: Option<usize> = find_in(listed, &application.id);
        let open = self.chrome.menu.menu_open && self.chrome.menu.menu_kind
            == MenuKind::Applications;
        let mut state = bare(true, false);
        state.bounds = self.bounds_of_row(found, rows);
        let position: usize = match found {
            Some(position) => {
                assert(position < listed.len());
                position + 1
            },
            None => place + 1,
        };
        state.position = Some(position);
        state.actions.scroll_into_view = open;
        let node = AccessibleNode {
            id: 10000 + place as u64,
            role: NodeRole::MenuItem,
            label: application.name.clone(),
            value: None,
            state,
            target: Some(
                AccessibleTarget::Activate {
                    action: ShellAction::LaunchApplication(application.id.clone()),
                    menu_index: found,
                },
            ),
            children: Vec::new(),
        };
        assert(node@.children =~= seq![]);
        assert(node@ == application_nodes(self@, place as int)[0]);
        push_node(nodes, node);
        let label = join(join("Add ", application.name.as_str()).as_str(), " to Desktop");
        push_button(
            nodes,
            40000 + place as u64,
            label,
            bare(true, false),
            AccessibleTarget::Activate {
                action: ShellAction::AddApplicationDesktopShortcut(application.id.clone()),
                menu_index: None,
            },
        );
        assert(node_views(nodes@) =~= before + application_nodes(self@, place as int));
    }

    /// The nodes of the Applications menu.
    fn list_menu(&self, listed: &Vec<Application>, rows: usize) -> (nodes: Vec<AccessibleNode>)
        requires
            self.valid(),
            self.applications.len() + 40000 <= u64::MAX,
            application_views(listed@) == filtered(self@),
            rows == visible_rows(self@),
        ensures
            node_views(nodes@) == menu_nodes(self@),
    {
        let mut nodes: Vec<AccessibleNode> = Vec::new();
        push_node(&mut nodes, self.search_field_node());
        let ghost field = seq![search_node(self@)];
        let mut at: usize = 0;
        assert(node_views(nodes@) =~= field + all_application_nodes(self@, 0));
        while at < self.applications.len()
            invariant
                at <= self.applications.len(),
                self.applications.len() + 40000 <= u64::MAX,
                application_views(listed@) == filtered(self@),
                rows == visible_rows(self@),
                node_views(nodes@) == field + all_application_nodes(self@, at as int),
            decreases self.applications.len() - at,
        {
            self.add_application(&mut nodes, at, listed, rows);
            assert(node_views(nodes@) =~= field + all_application_nodes(self@, at + 1));
            at = at + 1;
        }
        let close = applications_menu_close_target(self.chrome.menu.menu_size.0);
        let origin = self.chrome.menu.menu_origin;
        let open = self.chrome.menu.menu_open && self.chrome.menu.menu_kind
            == MenuKind::Applications;
        let mut state = bare(true, false);
        state.bounds = Some(
            if open {
                a11y_rect(close.rect, origin.0, origin.1)
            } else {
                Bounds { left: 0, top: 0, right: 0, bottom: 0 }
            },
        );
        push_button(
            &mut nodes,
            20001,
            close.label,
            state,
            AccessibleTarget::Activate { action: close.action, menu_index: None },
        );
        assert(self@.applications.len() == self.applications@.len());
        assert(node_views(nodes@) =~= menu_nodes(self@));
        nodes
    }

    /// The Applications menu as a node.
    fn menu_as_node(
        &self,
        children: Vec<u64>,
        listed: &Vec<Application>,
        rows: usize,
    ) -> (node: AccessibleNode)
        requires
            self.valid(),
            application_views(listed@) == filtered(self@),
            rows == visible_rows(self@),
            children@ == node_ids(menu_nodes(self@)),
        ensures
            node@ == menu_node(self@),
    {
        let open = self.chrome.menu.menu_open && self.chrome.menu.menu_kind
            == MenuKind::Applications;
        let origin = self.chrome.menu.menu_origin;
        let size = self.preferred_menu_size();
        assert(filtered(self@).len() == listed@.len());
        let mut state = bare(false, false);
        state.expanded = Some(open);
        state.set_size = Some(listed.len());
        if open {
            let left: i64 = origin.0 as i64;
            let top: i64 = origin.1 as i64;
            state.bounds = Some(
                Bounds { left, top, right: left + size.0 as i64, bottom: top + size.1 as i64 },
            );
            let end: usize = if listed.len() > rows {
                listed.len() - rows
            } else {
                0
            };
            state.scroll = Some(ScrollRange { at: self.chrome.menu.menu_scroll, end });
            state.actions.scroll = true;
        }
        AccessibleNode {
            id: MENU_NODE,
            role: NodeRole::Menu,
            label: "Applications menu".to_string(),
            value: None,
            state,
            target: Some(AccessibleTarget::ScrollMenu),
            children,
        }
    }

    /// The nodes outside the Applications menu.
    fn list_outer(&self, registered: &Vec<bool>) -> (nodes: Vec<AccessibleNode>)
        requires
            self.valid(),
            registered.len() == self.desktop_targets.len(),
            self.desktop_targets.len() * 10 + 75000 <= u64::MAX,
        ensures
            node_views(nodes@) == outer_nodes(self@, registered@),
    {
        let mut nodes: Vec<AccessibleNode> = Vec::new();
        let mut at: usize = 0;
        assert(node_views(nodes@) =~= desktop_nodes(self@, registered@, 0));
        while at < self.desktop_targets.len()
            invariant
                at <= self.desktop_targets.len(),
                registered.len() == self.desktop_targets.len(),
                self.desktop_targets.len() * 10 + 75000 <= u64::MAX,
                node_views(nodes@) == desktop_nodes(self@, registered@, at as int),
            decreases self.desktop_targets.len() - at,
        {
            self.add_desktop_item(&mut nodes, at, registered[at]);
            at = at + 1;
        }
        assert(self@.desktop_targets.len() == self.desktop_targets@.len());
        self.add_desktop_commands(&mut nodes);
        self.add_context(&mut nodes);
        self.add_panel(&mut nodes);
        self.add_windows(&mut nodes);
        assert(node_views(nodes@) =~= outer_nodes(self@, registered@));
        nodes
    }

    /// The tree of the shell. `registered` says of each target of the desktop whether it is an
    /// AppImage that is among the applications.
    pub fn accessibility_tree(&self, registered: &Vec<bool>) -> (tree: AccessibleTree)
        requires
            self.valid(),
            registered.len() == self.desktop_targets.len(),
            self.desktop_targets.len() * 10 + 75000 <= u64::MAX,
            self.applications.len() + 40000 <= u64::MAX,
        ensures
            node_views(tree.nodes@) == tree_nodes(self@, registered@),
            tree.focus == focused_node(self@.context),
    {
        let mut nodes = self.list_outer(registered);
        let mut children = ids_of(&nodes);
        children.push(MENU_NODE);
        let listed = self.filtered_applications();
        let rows: usize = self.visible_menu_rows();
        let mut parts = self.list_menu(&listed, rows);
        let part_ids = ids_of(&parts);
        let menu = self.menu_as_node(part_ids, &listed, rows);
        let ghost outer = node_views(nodes@);
        let ghost inner = node_views(parts@);
        nodes.append(&mut parts);
        assert(node_views(nodes@) =~= outer + inner);
        push_node(&mut nodes, menu);
        let mut state = bare(false, false);
        state.bounds = Some(
            Bounds {
                left: 0,
                top: 0,
                right: self.chrome.look.desktop_size.0 as i64,
                bottom: self.chrome.look.desktop_size.1 as i64,
            },
        );
        let root = AccessibleNode {
            id: ROOT_NODE,
            role: NodeRole::Window,
            label: "Buzzard OS Desktop".to_string(),
            value: None,
            state,
            target: None,
            children,
        };
        push_node(&mut nodes, root);
        let focus: u64 = match &self.context {
            ContextState::Delete(_) => 80001,
            ContextState::Collision(_) => 80002,
            ContextState::Error { .. } => 80000,
            ContextState::Edit(_) => 80100,
            _ => ROOT_NODE,
        };
        AccessibleTree { nodes, focus }
    }
}

/// Appends the button for one operation on a desktop item.
fn add_operation(
    nodes: &mut Vec<AccessibleNode>,
    id: u64,
    verb: &str,
    target: &HitTarget,
    path: &FilePath,
    action: ShellAction,
)
    ensures
        node_views(final(nodes)@) == node_views(old(nodes)@).push(
            button_node(
                id as int,
                verb@ + target@.label,
                click_state(),
                AccessView::DesktopAction(path@, action@),
            ),
        ),
{
    push_button(
        nodes,
        id,
        join(verb, target.label.as_str()),
        bare(true, false),
        AccessibleTarget::DesktopAction { path: path.duplicate(), action },
    );
}

/// The context surface has few targets.
proof fn context_is_short(shell: ShellView)
    ensures
        context_target_views(shell).len() <= 1000,
{
}

/// The identities of nodes.
fn ids_of(nodes: &Vec<AccessibleNode>) -> (ids: Vec<u64>)
    ensures
        ids@ == node_ids(node_views(nodes@)),
{
    let ghost whole = node_ids(node_views(nodes@));
    let mut ids: Vec<u64> = Vec::new();
    let mut at: usize = 0;
    while at < nodes.len()
        invariant
            at <= nodes.len(),
            whole == node_ids(node_views(nodes@)),
            ids@ == whole.take(at as int),
        decreases nodes.len() - at,
    {
        ids.push(nodes[at].id);
        assert(ids@ =~= whole.take(at + 1));
        at = at + 1;
    }
    assert(whole.take(at as int) =~= whole);
    ids
}

/// A node is where its rectangle is, moved by the corner of its surface, and as large.
pub proof fn nodes_are_where_they_are_drawn(rect: Rect, x: i32, y: i32)
    ensures
        ({
            let bounds = bounds_of(rect, x as int, y as int);
            &&& bounds.left == rect.x + x
            &&& bounds.top == rect.y + y
            &&& bounds.right - bounds.left == rect.width
            &&& bounds.bottom - bounds.top == rect.height
        }),
{
}

/// Every item can be opened, cut, copied, renamed and deleted, in this order, and an AppImage can be
/// added to the applications exactly while it is not among them.
pub proof fn items_can_be_operated_on(kind: DesktopItemKind, registered: bool)
    ensures
        ({
            let operations = item_operations(kind, registered);
            &&& operations[0] == ("Open "@, ActionView::DesktopOpenSelection)
            &&& operations[1] == ("Cut "@, ActionView::DesktopCut)
            &&& operations[2] == ("Copy "@, ActionView::DesktopCopy)
            &&& operations[3] == ("Rename "@, ActionView::DesktopRename)
            &&& operations[4] == ("Delete "@, ActionView::DesktopDelete)
            &&& operations.len() == (if kind is AppImage && !registered {
                6int
            } else {
                5
            })
            &&& operations.len() == 6 ==> operations[5].1 is DesktopAddToApplications
        }),
{
}

/// A target of the desktop is a button under its name, where it is drawn, that does what hitting it
/// does. An item also says whether it is selected and offers to change that, and each operation on it
/// is a button that acts on that item.
pub proof fn desktop_targets_are_buttons(shell: ShellView, place: int, registered: bool, at: int)
    requires
        0 <= place < shell.desktop_targets.len(),
        place < 1000,
    ensures
        ({
            let target = shell.desktop_targets[place];
            let nodes = desktop_item_nodes(shell, place, registered);
            &&& nodes[0].label == target.label
            &&& nodes[0].role is Button
            &&& nodes[0].target == Some(AccessView::Activate(target.action, None))
            &&& nodes[0].state.bounds == Some(bounds_of(target.rect, 0, 0))
            &&& nodes[0].state.actions.click
            &&& match target.action {
                ActionView::OpenDesktopItem(path, kind) => {
                    let operations = item_operations(kind, registered);
                    &&& nodes.len() == 2 + operations.len()
                    &&& nodes[0].state.selected == Some(holds_path(shell.selection, path))
                    &&& nodes[1].target == Some(AccessView::ToggleDesktopSelection(path))
                    &&& holds_path(shell.selection, path) ==> nodes[1].label == "Remove "@
                        + target.label + " from selection"@
                    &&& !holds_path(shell.selection, path) ==> nodes[1].label == "Add "@
                        + target.label + " to selection"@
                    &&& 0 <= at < operations.len() ==> {
                        &&& nodes[2 + at].target == Some(
                            AccessView::DesktopAction(path, operations[at].1),
                        )
                        &&& nodes[2 + at].label == operations[at].0 + target.label
                        &&& nodes[2 + at].state.actions.click
                    }
                },
                _ => nodes.len() == 1 && nodes[0].state.selected is None,
            }
        }),
{
}

/// The desktop offers to paste, to make a folder and to arrange its icons; pasting is disabled exactly
/// while there is nothing to paste.
pub proof fn the_desktop_can_be_operated_on(shell: ShellView)
    ensures
        ({
            let nodes = desktop_commands(shell);
            &&& nodes.len() == 3
            &&& nodes[0].target == Some(AccessView::Activate(ActionView::DesktopPaste, None))
            &&& nodes[0].state.disabled == !shell.chrome.paste_available
            &&& nodes[1].target == Some(AccessView::Activate(ActionView::DesktopNewFolder, None))
            &&& !nodes[1].state.disabled
            &&& nodes[2].target == Some(AccessView::Activate(ActionView::DesktopArrangeIcons, None))
            &&& !nodes[2].state.disabled
        }),
{
}

/// Every row of the context surface is a button that does what hitting it does, where it is drawn.
/// A hidden one has no nodes, an edit dialog has a field with what is typed, and a question before
/// deleting says how many items it is about.
pub proof fn rows_of_dialogs_are_buttons(shell: ShellView, at: int)
    ensures
        ({
            let origin = shell.chrome.frame.context_origin;
            let rows = context_target_views(shell);
            let nodes = context_nodes(shell);
            &&& shell.context is Hidden ==> nodes.len() == 0
            &&& !(shell.context is Hidden) && 0 <= at < rows.len() ==> {
                &&& nodes[at].label == rows[at].label
                &&& nodes[at].target == Some(AccessView::Activate(rows[at].action, None))
                &&& nodes[at].state.bounds == Some(
                    bounds_of(rows[at].rect, origin.0 as int, origin.1 as int),
                )
            }
            &&& shell.context is Edit ==> {
                &&& nodes.last().role is TextInput
                &&& nodes.last().value == Some((shell.context->Edit_0).input)
                &&& nodes.last().target == Some(AccessView::EditValue)
                &&& nodes.last().state.actions.edit
                &&& nodes.last().id == focused_node(shell.context)
            }
            &&& shell.context is Delete ==> {
                &&& nodes.last().role is Label
                &&& nodes.last().target is None
                &&& nodes.last().label == decimal((shell.context->Delete_0).items.len())
                    + " selected. "@ + (shell.context->Delete_0).detail
            }
            &&& !(shell.context is Hidden) && !(shell.context is Edit) && !(
            shell.context is Delete) ==> nodes.len() == rows.len()
        }),
{
}

/// Every window has a button that switches to it, and one for each way to control it, which acts on
/// that window.
pub proof fn windows_are_buttons(shell: ShellView, place: int, at: int)
    requires
        0 <= place < shell.toplevels.len(),
    ensures
        ({
            let window = shell.toplevels[place].window;
            let controls = rows_of(window_controls(window), 8, 44, 244);
            let nodes = control_nodes(shell, place);
            &&& switch_node(shell, place).target == Some(
                AccessView::Activate(ActionView::ActivateWindow(window.id), None),
            )
            &&& switch_node(shell, place).label == "Switch to "@ + window.title@
            &&& nodes.len() == controls.len()
            &&& 0 <= at < controls.len() ==> {
                &&& nodes[at].target == Some(AccessView::Activate(controls[at].action, None))
                &&& nodes[at].label == controls[at].label + " "@ + window.title@
                &&& nodes[at].state.bounds is Some <==> shell.chrome.menu.menu_open
                    && shell.chrome.menu.menu_kind == MenuKind::Window(window.id)
            }
        }),
{
}

/// The nodes of every window are in the tree.
pub proof fn every_window_is_in_the_tree(shell: ShellView, registered: Seq<bool>, place: int)
    requires
        0 <= place < shell.toplevels.len(),
    ensures
        tree_nodes(shell, registered).contains(switch_node(shell, place)),
{
    let count = shell.toplevels.len() as int;
    let windows = window_nodes(shell, count);
    let at = switching_nodes_are_there(shell, count, place);
    let outer = outer_nodes(shell, registered);
    let whole = tree_nodes(shell, registered);
    assert(outer[outer.len() - windows.len() + at] == windows[at]);
    assert(whole[outer.len() - windows.len() + at] == windows[at]);
}

/// The button that switches to a window is among the nodes of all windows.
proof fn switching_nodes_are_there(shell: ShellView, count: int, place: int) -> (at: int)
    requires
        0 <= place < count,
    ensures
        0 <= at < window_nodes(shell, count).len(),
        window_nodes(shell, count)[at] == switch_node(shell, place),
    decreases count,
{
    let before = window_nodes(shell, count - 1);
    let nodes = window_nodes(shell, count);
    if place == count - 1 {
        assert(nodes[before.len() as int] == switch_node(shell, place));
        before.len() as int
    } else {
        let at = switching_nodes_are_there(shell, count - 1, place);
        assert(nodes[at] == before[at]);
        at
    }
}

/// The nodes of every target of the desktop are in the tree.
pub proof fn every_item_is_in_the_tree(shell: ShellView, registered: Seq<bool>, place: int)
    requires
        0 <= place < shell.desktop_targets.len(),
    ensures
        tree_nodes(shell, registered).contains(desktop_node(shell, place)),
{
    let count = shell.desktop_targets.len() as int;
    let items = desktop_nodes(shell, registered, count);
    let at = item_nodes_are_there(shell, registered, count, place);
    let outer = outer_nodes(shell, registered);
    let whole = tree_nodes(shell, registered);
    assert(outer[at] == items[at]);
    assert(whole[at] == items[at]);
}

/// The button of a target of the desktop is among the nodes of all targets.
proof fn item_nodes_are_there(shell: ShellView, registered: Seq<bool>, count: int, place: int) -> (at:
    int)
    requires
        0 <= place < count,
    ensures
        0 <= at < desktop_nodes(shell, registered, count).len(),
        desktop_nodes(shell, registered, count)[at] == desktop_node(shell, place),
    decreases count,
{
    let before = desktop_nodes(shell, registered, count - 1);
    let nodes = desktop_nodes(shell, registered, count);
    if place == count - 1 {
        assert(nodes[before.len() as int] == desktop_node(shell, place));
        before.len() as int
    } else {
        let at = item_nodes_are_there(shell, registered, count - 1, place);
        assert(nodes[at] == before[at]);
        at
    }
}

/// The panel begins at the height that it leaves to the desktop, and its two fixed buttons are the
/// first and the last of the panel.
pub proof fn the_panel_is_at_the_bottom(shell: ShellView)
    requires
        shell.chrome.look.panel_size.1 <= shell.chrome.look.desktop_size.1 <= i32::MAX,
    ensures
        panel_top(shell) + shell.chrome.look.panel_size.1 == shell.chrome.look.desktop_size.1,
        panel_nodes(shell)[0].target == Some(
            AccessView::Activate(shell_panel(shell)[0].action, None),
        ),
        panel_nodes(shell)[1].target == Some(
            AccessView::Activate(shell_panel(shell).last().action, None),
        ),
{
}

/// The search field shows what is searched for and can be edited whether or not the menu is open,
/// though only an open menu shows where it is.
pub proof fn the_search_field_can_be_edited(shell: ShellView)
    ensures
        search_node(shell).value == Some(shell.search),
        search_node(shell).target == Some(AccessView::ApplicationSearch),
        search_node(shell).state.actions.edit,
        search_node(shell).role is TextInput,
        search_node(shell).state.bounds is Some <==> applications_open(shell),
        close_node(shell).target == Some(
            AccessView::Activate(menu_close(shell.chrome.menu.menu_size.0).action, None),
        ),
{
}

/// A row has bounds exactly while the menu is open and scrolled to where it can be seen; the rows
/// follow one another, from the first that is shown on.
pub proof fn shown_rows_have_bounds(shell: ShellView, position: usize)
    requires
        position < 1000000,
    ensures
        row_bounds(shell, None) is None,
        ({
            let scroll = shell.chrome.menu.menu_scroll;
            let shown = applications_open(shell) && scroll <= position < scroll + visible_rows(shell);
            &&& row_bounds(shell, Some(position)) is Some <==> shown
            &&& shown ==> {
                let bounds = row_bounds(shell, Some(position))->0;
                &&& bounds.top - shell.chrome.menu.menu_origin.1 == 80 + (position - scroll)
                    * MENU_ROW_HEIGHT
                &&& bounds.bottom - bounds.top == MENU_ROW_HEIGHT
                &&& bounds.left - shell.chrome.menu.menu_origin.0 == 8
            }
        }),
{
}

/// The node of an application is under its name, starts that application, and says where it stands in
/// the menu; another puts the application on the desktop.
pub proof fn application_nodes_act_on_their_application(shell: ShellView, place: int)
    requires
        0 <= place < shell.applications.len(),
        place < usize::MAX,
    ensures
        ({
            let application = shell.applications[place];
            let position = application_place(filtered(shell), application.id);
            let nodes = application_nodes(shell, place);
            &&& nodes.len() == 2
            &&& nodes[0].label == application.name
            &&& nodes[0].role is MenuItem
            &&& nodes[0].target == Some(
                AccessView::Activate(ActionView::LaunchApplication(application.id), position),
            )
            &&& position is Some && position->0 < usize::MAX ==> nodes[0].state.position == Some(
                (position->0 + 1) as usize,
            )
            &&& nodes[0].state.actions.scroll_into_view == applications_open(shell)
            &&& nodes[1].target == Some(
                AccessView::Activate(
                    ActionView::AddApplicationDesktopShortcut(application.id),
                    None,
                ),
            )
            &&& nodes[1].label == "Add "@ + application.name + " to Desktop"@
        }),
{
}

/// The menu says whether it is open, how many applications it finds, and, while it is open, how far it
/// is and can be scrolled. It scrolls only while it is open.
pub proof fn the_menu_says_what_it_shows(shell: ShellView)
    requires
        filtered(shell).len() <= usize::MAX,
    ensures
        ({
            let node = menu_node(shell);
            let open = applications_open(shell);
            &&& node.id == MENU_NODE
            &&& node.state.expanded == Some(open)
            &&& node.state.set_size == Some(filtered(shell).len() as usize)
            &&& node.state.actions.scroll == open
            &&& node.state.scroll is Some <==> open
            &&& open ==> (node.state.scroll->0).at == shell.chrome.menu.menu_scroll
            &&& node.target == Some(AccessView::ScrollMenu)
            &&& node.children.len() == menu_nodes(shell).len()
            &&& !open ==> node.state.bounds is None
        }),
{
}

/// The tree ends in its root, which is as large as the desktop and has the menu as its last child.
pub proof fn the_root_comes_last(shell: ShellView, registered: Seq<bool>)
    ensures
        ({
            let nodes = tree_nodes(shell, registered);
            let root = nodes.last();
            &&& root.id == ROOT_NODE
            &&& root.role is Window
            &&& root.children.last() == MENU_NODE
            &&& root.children.len() == outer_nodes(shell, registered).len() + 1
            &&& root.target is None
            &&& (root.state.bounds->0).right == shell.chrome.look.desktop_size.0
            &&& (root.state.bounds->0).bottom == shell.chrome.look.desktop_size.1
            &&& nodes[nodes.len() - 2] == menu_node(shell)
        }),
{
}

} // verus!
