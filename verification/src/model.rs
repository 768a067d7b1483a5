//! The desktop model: workspaces, windows, applications and the targets a pointer can hit.

use vstd::prelude::*;
use vstd::string::*;
use crate::arith::{
    add_i32, clamp_i32, max_i32, min_i32, min_usize, mul_i32, mul_u32, sub_i32, u32_as_i32,
    usize_as_i32, usize_as_u32,
};
use crate::arith::{clamp_of, max_of, min_of, saturate_i32};
use crate::lists::{filter_ends, filter_step};
use crate::paths::{same_place, FilePath};
use crate::text::{begins_with, decimal, decimal_reads_back, is_digit, unsigned_value};
use crate::text::{optional_text, text_views};
use crate::text::{
    characters, copy_optional, copy_texts, decimal_text, join, parse_u32, rest_of, same_optional,
    same_texts, starts_with, text_is,
};

verus! {

pub const PANEL_HEIGHT: i32 = 42;

pub const TOP_BAR_HEIGHT: i32 = 28;

pub const APPLICATIONS_BUTTON_WIDTH: i32 = 126;

pub const SHOW_DESKTOP_WIDTH: i32 = 18;

pub const APPLICATIONS_MENU_HEADER_HEIGHT: i32 = 54;

pub const APPLICATIONS_MENU_SECTION_HEIGHT: i32 = 26;

pub const APPLICATIONS_MENU_FOOTER_HEIGHT: i32 = 50;

pub const MENU_ROW_HEIGHT: i32 = 36;

pub const CAPPED_TASK_BUTTON_WIDTH: i32 = 260;

pub const MIN_TASK_BUTTON_WIDTH: i32 = 96;

pub const TASK_PAGE_STEP: usize = 5;

pub const TASK_PAGE_BUTTON_WIDTH: i32 = 28;

pub const WORKSPACE_ADD_WIDTH: i32 = 34;

pub const WORKSPACE_TAB_MAX_WIDTH: i32 = 150;

/// The bit that tells a workspace that a person made from one of the agent's.
pub const MANUAL_WORKSPACE_FLAG: u32 = 0x8000_0000;

/// A workspace as the top bar shows it.
#[derive(Debug, Clone, PartialEq, Eq)]
pub struct WorkspaceTab {
    pub index: u32,
    pub label: String,
    pub active: bool,
}

/// An installed application.
#[derive(Debug, Clone, PartialEq, Eq)]
pub struct Application {
    pub id: String,
    pub name: String,
    pub generic_name: Option<String>,
    pub icon: Option<String>,
    pub categories: Vec<String>,
    pub source: FilePath,
}

/// An [`Application`] with its texts as sequences.
pub struct ApplicationView {
    pub id: Seq<char>,
    pub name: Seq<char>,
    pub generic_name: Option<Seq<char>>,
    pub icon: Option<Seq<char>>,
    pub categories: Seq<Seq<char>>,
    pub source: Seq<u8>,
}

impl View for Application {
    type V = ApplicationView;

    open spec fn view(&self) -> ApplicationView {
        ApplicationView {
            id: self.id@,
            name: self.name@,
            generic_name: optional_text(self.generic_name),
            icon: optional_text(self.icon),
            categories: text_views(self.categories@),
            source: self.source@,
        }
    }
}

/// The applications of a list, each by its view.
pub open spec fn application_views(applications: Seq<Application>) -> Seq<ApplicationView> {
    applications.map_values(|application: Application| application@)
}

impl Application {
    /// A copy of this application.
    pub fn duplicate(&self) -> (copy: Application)
        ensures
            copy@ == self@,
    {
        let copy = Application {
            id: self.id.clone(),
            name: self.name.clone(),
            generic_name: copy_optional(&self.generic_name),
            icon: copy_optional(&self.icon),
            categories: copy_texts(&self.categories),
            source: self.source.duplicate(),
        };
        assert(copy@ == self@);
        copy
    }
}

/// Whether two applications are the same: their sources lead the same way, and all else is equal.
pub open spec fn same_application(left: ApplicationView, right: ApplicationView) -> bool {
    same_place(left.source, right.source) && (ApplicationView { source: right.source, ..left })
        == right
}

/// Whether two lists hold the same applications.
pub open spec fn are_same_applications(
    left: Seq<ApplicationView>,
    right: Seq<ApplicationView>,
) -> bool {
    left.len() == right.len() && forall|at: int|
        0 <= at < left.len() ==> same_application(#[trigger] left[at], #[trigger] right[at])
}

impl Application {
    /// Whether this is the same application as `other`.
    pub fn same(&self, other: &Application) -> (same: bool)
        ensures
            same == same_application(self@, other@),
    {
        text_is(&self.id, other.id.as_str()) && text_is(&self.name, other.name.as_str())
            && same_optional(&self.generic_name, &other.generic_name) && same_optional(
            &self.icon,
            &other.icon,
        ) && same_texts(&self.categories, &other.categories) && self.source.same(&other.source)
    }
}

/// Whether two lists hold the same applications.
pub fn same_applications(left: &Vec<Application>, right: &Vec<Application>) -> (same: bool)
    ensures
        same == are_same_applications(application_views(left@), application_views(right@)),
{
    assert(application_views(left@).len() == left@.len());
    assert(application_views(right@).len() == right@.len());
    if left.len() != right.len() {
        return false;
    }
    let mut at: usize = 0;
    while at < left.len()
        invariant
            at <= left.len(),
            left.len() == right.len(),
            forall|earlier: int|
                0 <= earlier < at ==> same_application(
                    #[trigger] application_views(left@)[earlier],
                    #[trigger] application_views(right@)[earlier],
                ),
        decreases left.len() - at,
    {
        assert(application_views(left@)[at as int] == left@[at as int]@);
        assert(application_views(right@)[at as int] == right@[at as int]@);
        if !left[at].same(&right[at]) {
            return false;
        }
        at = at + 1;
    }
    true
}

/// A window of the guest.
#[derive(Debug, Clone, PartialEq, Eq)]
pub struct GuestWindow {
    pub id: u32,
    pub title: String,
    pub app_id: String,
    pub focused: bool,
    pub minimized: bool,
    pub maximized: bool,
    pub workspace_index: Option<u32>,
    pub workspace: String,
    pub output: String,
}

impl Default for GuestWindow {
    fn default() -> (window: GuestWindow)
        ensures
            window.id == 0,
            window.title@ == Seq::<char>::empty(),
            window.app_id@ == Seq::<char>::empty(),
            !window.focused,
            !window.minimized,
            !window.maximized,
            window.workspace_index == None::<u32>,
            window.workspace@ == Seq::<char>::empty(),
            window.output@ == Seq::<char>::empty(),
    {
        GuestWindow {
            id: 0,
            title: String::new(),
            app_id: String::new(),
            focused: false,
            minimized: false,
            maximized: false,
            workspace_index: None,
            workspace: String::new(),
            output: String::new(),
        }
    }
}

impl GuestWindow {
    /// A copy of this window.
    pub fn duplicate(&self) -> (copy: GuestWindow)
        ensures
            copy == *self,
    {
        GuestWindow {
            id: self.id,
            title: self.title.clone(),
            app_id: self.app_id.clone(),
            focused: self.focused,
            minimized: self.minimized,
            maximized: self.maximized,
            workspace_index: self.workspace_index,
            workspace: self.workspace.clone(),
            output: self.output.clone(),
        }
    }
}

/// A rectangle in logical pixels.
#[derive(Debug, Clone, Copy, PartialEq, Eq, Structural)]
pub struct Rect {
    pub x: i32,
    pub y: i32,
    pub width: i32,
    pub height: i32,
}

/// What a desktop item is.
#[derive(Debug, Clone, Copy, PartialEq, Eq, Structural)]
pub enum DesktopItemKind {
    RegularFile,
    Directory,
    SymbolicLink,
    Launcher,
    AppImage,
}

/// What hitting a target asks of the shell.
#[derive(Debug, Clone, PartialEq, Eq)]
pub enum ShellAction {
    ToggleApplications,
    OpenFiles,
    OpenShared,
    OpenDesktopItem(FilePath, DesktopItemKind),
    LaunchApplication(String),
    AddApplicationDesktopShortcut(String),
    ExtractApplication(String),
    ExtractApplicationNoSandbox(String),
    PinApplication(String),
    UnpinApplication(String),
    RenameApplication(String),
    DeleteApplication(String),
    DesktopOpenSelection,
    DesktopCut,
    DesktopCopy,
    DesktopPaste,
    DesktopRename,
    DesktopDelete,
    DesktopNewFolder,
    DesktopArrangeIcons,
    DesktopAddToApplications,
    DesktopEditConfirm,
    DesktopDeleteConfirm,
    DesktopCollisionReplace,
    DesktopCollisionKeepBoth,
    DesktopCollisionCancel,
    DismissContext,
    ActivateWindow(u32),
    BringIntoViewWindow(u32),
    MinimizeWindow(u32),
    ToggleMaximizeWindow(u32),
    CloseWindow(u32),
    MoveWindowToWorkspace { window_id: u32, workspace_index: u32 },
    SwitchWorkspace(u32),
    CreateWorkspace,
    CloseWorkspace(u32),
    TaskbarPrevious,
    TaskbarNext,
    ShowDesktop,
    CloseApplicationsMenu,
}

/// A [`ShellAction`] with its texts and paths as sequences.
pub enum ActionView {
    ToggleApplications,
    OpenFiles,
    OpenShared,
    OpenDesktopItem(Seq<u8>, DesktopItemKind),
    LaunchApplication(Seq<char>),
    AddApplicationDesktopShortcut(Seq<char>),
    ExtractApplication(Seq<char>),
    ExtractApplicationNoSandbox(Seq<char>),
    PinApplication(Seq<char>),
    UnpinApplication(Seq<char>),
    RenameApplication(Seq<char>),
    DeleteApplication(Seq<char>),
    DesktopOpenSelection,
    DesktopCut,
    DesktopCopy,
    DesktopPaste,
    DesktopRename,
    DesktopDelete,
    DesktopNewFolder,
    DesktopArrangeIcons,
    DesktopAddToApplications,
    DesktopEditConfirm,
    DesktopDeleteConfirm,
    DesktopCollisionReplace,
    DesktopCollisionKeepBoth,
    DesktopCollisionCancel,
    DismissContext,
    ActivateWindow(u32),
    BringIntoViewWindow(u32),
    MinimizeWindow(u32),
    ToggleMaximizeWindow(u32),
    CloseWindow(u32),
    MoveWindowToWorkspace(u32, u32),
    SwitchWorkspace(u32),
    CreateWorkspace,
    CloseWorkspace(u32),
    TaskbarPrevious,
    TaskbarNext,
    ShowDesktop,
    CloseApplicationsMenu,
}

impl View for ShellAction {
    type V = ActionView;

    open spec fn view(&self) -> ActionView {
        match *self {
            ShellAction::ToggleApplications => ActionView::ToggleApplications,
            ShellAction::OpenFiles => ActionView::OpenFiles,
            ShellAction::OpenShared => ActionView::OpenShared,
            ShellAction::OpenDesktopItem(path, kind) => ActionView::OpenDesktopItem(path@, kind),
            ShellAction::LaunchApplication(id) => ActionView::LaunchApplication(id@),
            ShellAction::AddApplicationDesktopShortcut(id) => {
                ActionView::AddApplicationDesktopShortcut(id@)
            },
            ShellAction::ExtractApplication(id) => ActionView::ExtractApplication(id@),
            ShellAction::ExtractApplicationNoSandbox(id) => {
                ActionView::ExtractApplicationNoSandbox(id@)
            },
            ShellAction::PinApplication(id) => ActionView::PinApplication(id@),
            ShellAction::UnpinApplication(id) => ActionView::UnpinApplication(id@),
            ShellAction::RenameApplication(id) => ActionView::RenameApplication(id@),
            ShellAction::DeleteApplication(id) => ActionView::DeleteApplication(id@),
            ShellAction::DesktopOpenSelection => ActionView::DesktopOpenSelection,
            ShellAction::DesktopCut => ActionView::DesktopCut,
            ShellAction::DesktopCopy => ActionView::DesktopCopy,
            ShellAction::DesktopPaste => ActionView::DesktopPaste,
            ShellAction::DesktopRename => ActionView::DesktopRename,
            ShellAction::DesktopDelete => ActionView::DesktopDelete,
            ShellAction::DesktopNewFolder => ActionView::DesktopNewFolder,
            ShellAction::DesktopArrangeIcons => ActionView::DesktopArrangeIcons,
            ShellAction::DesktopAddToApplications => ActionView::DesktopAddToApplications,
            ShellAction::DesktopEditConfirm => ActionView::DesktopEditConfirm,
            ShellAction::DesktopDeleteConfirm => ActionView::DesktopDeleteConfirm,
            ShellAction::DesktopCollisionReplace => ActionView::DesktopCollisionReplace,
            ShellAction::DesktopCollisionKeepBoth => ActionView::DesktopCollisionKeepBoth,
            ShellAction::DesktopCollisionCancel => ActionView::DesktopCollisionCancel,
            ShellAction::DismissContext => ActionView::DismissContext,
            ShellAction::ActivateWindow(id) => ActionView::ActivateWindow(id),
            ShellAction::BringIntoViewWindow(id) => ActionView::BringIntoViewWindow(id),
            ShellAction::MinimizeWindow(id) => ActionView::MinimizeWindow(id),
            ShellAction::ToggleMaximizeWindow(id) => ActionView::ToggleMaximizeWindow(id),
            ShellAction::CloseWindow(id) => ActionView::CloseWindow(id),
            ShellAction::MoveWindowToWorkspace { window_id, workspace_index } => {
                ActionView::MoveWindowToWorkspace(window_id, workspace_index)
            },
            ShellAction::SwitchWorkspace(index) => ActionView::SwitchWorkspace(index),
            ShellAction::CreateWorkspace => ActionView::CreateWorkspace,
            ShellAction::CloseWorkspace(index) => ActionView::CloseWorkspace(index),
            ShellAction::TaskbarPrevious => ActionView::TaskbarPrevious,
            ShellAction::TaskbarNext => ActionView::TaskbarNext,
            ShellAction::ShowDesktop => ActionView::ShowDesktop,
            ShellAction::CloseApplicationsMenu => ActionView::CloseApplicationsMenu,
        }
    }
}

/// Whether two actions ask for the same thing: what they open is reached the same way, and all else
/// is equal.
pub open spec fn same_action(left: ActionView, right: ActionView) -> bool {
    match (left, right) {
        (
            ActionView::OpenDesktopItem(left_path, left_kind),
            ActionView::OpenDesktopItem(right_path, right_kind),
        ) => same_place(left_path, right_path) && left_kind == right_kind,
        _ => left == right,
    }
}

impl ShellAction {
    /// A copy of this action.
    pub fn duplicate(&self) -> (copy: ShellAction)
        ensures
            copy@ == self@,
    {
        match self {
            ShellAction::ToggleApplications => ShellAction::ToggleApplications,
            ShellAction::OpenFiles => ShellAction::OpenFiles,
            ShellAction::OpenShared => ShellAction::OpenShared,
            ShellAction::OpenDesktopItem(path, kind) => ShellAction::OpenDesktopItem(
                path.duplicate(),
                *kind,
            ),
            ShellAction::LaunchApplication(id) => ShellAction::LaunchApplication(id.clone()),
            ShellAction::AddApplicationDesktopShortcut(id) => {
                ShellAction::AddApplicationDesktopShortcut(id.clone())
            },
            ShellAction::ExtractApplication(id) => ShellAction::ExtractApplication(id.clone()),
            ShellAction::ExtractApplicationNoSandbox(id) => {
                ShellAction::ExtractApplicationNoSandbox(id.clone())
            },
            ShellAction::PinApplication(id) => ShellAction::PinApplication(id.clone()),
            ShellAction::UnpinApplication(id) => ShellAction::UnpinApplication(id.clone()),
            ShellAction::RenameApplication(id) => ShellAction::RenameApplication(id.clone()),
            ShellAction::DeleteApplication(id) => ShellAction::DeleteApplication(id.clone()),
            ShellAction::DesktopOpenSelection => ShellAction::DesktopOpenSelection,
            ShellAction::DesktopCut => ShellAction::DesktopCut,
            ShellAction::DesktopCopy => ShellAction::DesktopCopy,
            ShellAction::DesktopPaste => ShellAction::DesktopPaste,
            ShellAction::DesktopRename => ShellAction::DesktopRename,
            ShellAction::DesktopDelete => ShellAction::DesktopDelete,
            ShellAction::DesktopNewFolder => ShellAction::DesktopNewFolder,
            ShellAction::DesktopArrangeIcons => ShellAction::DesktopArrangeIcons,
            ShellAction::DesktopAddToApplications => ShellAction::DesktopAddToApplications,
            ShellAction::DesktopEditConfirm => ShellAction::DesktopEditConfirm,
            ShellAction::DesktopDeleteConfirm => ShellAction::DesktopDeleteConfirm,
            ShellAction::DesktopCollisionReplace => ShellAction::DesktopCollisionReplace,
            ShellAction::DesktopCollisionKeepBoth => ShellAction::DesktopCollisionKeepBoth,
            ShellAction::DesktopCollisionCancel => ShellAction::DesktopCollisionCancel,
            ShellAction::DismissContext => ShellAction::DismissContext,
            ShellAction::ActivateWindow(id) => ShellAction::ActivateWindow(*id),
            ShellAction::BringIntoViewWindow(id) => ShellAction::BringIntoViewWindow(*id),
            ShellAction::MinimizeWindow(id) => ShellAction::MinimizeWindow(*id),
            ShellAction::ToggleMaximizeWindow(id) => ShellAction::ToggleMaximizeWindow(*id),
            ShellAction::CloseWindow(id) => ShellAction::CloseWindow(*id),
            ShellAction::MoveWindowToWorkspace { window_id, workspace_index } => {
                ShellAction::MoveWindowToWorkspace {
                    window_id: *window_id,
                    workspace_index: *workspace_index,
                }
            },
            ShellAction::SwitchWorkspace(index) => ShellAction::SwitchWorkspace(*index),
            ShellAction::CreateWorkspace => ShellAction::CreateWorkspace,
            ShellAction::CloseWorkspace(index) => ShellAction::CloseWorkspace(*index),
            ShellAction::TaskbarPrevious => ShellAction::TaskbarPrevious,
            ShellAction::TaskbarNext => ShellAction::TaskbarNext,
            ShellAction::ShowDesktop => ShellAction::ShowDesktop,
            ShellAction::CloseApplicationsMenu => ShellAction::CloseApplicationsMenu,
        }
    }

    /// Whether both actions ask for the same thing.
    pub fn same(&self, other: &ShellAction) -> (same: bool)
        ensures
            same == same_action(self@, other@),
    {
        match (self, other) {
            (ShellAction::ToggleApplications, ShellAction::ToggleApplications) => true,
            (ShellAction::OpenFiles, ShellAction::OpenFiles) => true,
            (ShellAction::OpenShared, ShellAction::OpenShared) => true,
            (
                ShellAction::OpenDesktopItem(left, left_kind),
                ShellAction::OpenDesktopItem(right, right_kind),
            ) => left.same(right) && *left_kind == *right_kind,
            (ShellAction::LaunchApplication(left), ShellAction::LaunchApplication(right)) => *left
                == *right,
            (
                ShellAction::AddApplicationDesktopShortcut(left),
                ShellAction::AddApplicationDesktopShortcut(right),
            ) => *left == *right,
            (ShellAction::ExtractApplication(left), ShellAction::ExtractApplication(right)) => *left
                == *right,
            (
                ShellAction::ExtractApplicationNoSandbox(left),
                ShellAction::ExtractApplicationNoSandbox(right),
            ) => *left == *right,
            (ShellAction::PinApplication(left), ShellAction::PinApplication(right)) => *left
                == *right,
            (ShellAction::UnpinApplication(left), ShellAction::UnpinApplication(right)) => *left
                == *right,
            (ShellAction::RenameApplication(left), ShellAction::RenameApplication(right)) => *left
                == *right,
            (ShellAction::DeleteApplication(left), ShellAction::DeleteApplication(right)) => *left
                == *right,
            (ShellAction::DesktopOpenSelection, ShellAction::DesktopOpenSelection) => true,
            (ShellAction::DesktopCut, ShellAction::DesktopCut) => true,
            (ShellAction::DesktopCopy, ShellAction::DesktopCopy) => true,
            (ShellAction::DesktopPaste, ShellAction::DesktopPaste) => true,
            (ShellAction::DesktopRename, ShellAction::DesktopRename) => true,
            (ShellAction::DesktopDelete, ShellAction::DesktopDelete) => true,
            (ShellAction::DesktopNewFolder, ShellAction::DesktopNewFolder) => true,
            (ShellAction::DesktopArrangeIcons, ShellAction::DesktopArrangeIcons) => true,
            (ShellAction::DesktopAddToApplications, ShellAction::DesktopAddToApplications) => true,
            (ShellAction::DesktopEditConfirm, ShellAction::DesktopEditConfirm) => true,
            (ShellAction::DesktopDeleteConfirm, ShellAction::DesktopDeleteConfirm) => true,
            (ShellAction::DesktopCollisionReplace, ShellAction::DesktopCollisionReplace) => true,
            (ShellAction::DesktopCollisionKeepBoth, ShellAction::DesktopCollisionKeepBoth) => true,
            (ShellAction::DesktopCollisionCancel, ShellAction::DesktopCollisionCancel) => true,
            (ShellAction::DismissContext, ShellAction::DismissContext) => true,
            (ShellAction::ActivateWindow(left), ShellAction::ActivateWindow(right)) => *left
                == *right,
            (ShellAction::BringIntoViewWindow(left), ShellAction::BringIntoViewWindow(right)) => {
                *left == *right
            },
            (ShellAction::MinimizeWindow(left), ShellAction::MinimizeWindow(right)) => *left
                == *right,
            (ShellAction::ToggleMaximizeWindow(left), ShellAction::ToggleMaximizeWindow(right)) => {
                *left == *right
            },
            (ShellAction::CloseWindow(left), ShellAction::CloseWindow(right)) => *left == *right,
            (
                ShellAction::MoveWindowToWorkspace { window_id: left, workspace_index: left_index },
                ShellAction::MoveWindowToWorkspace {
                    window_id: right,
                    workspace_index: right_index,
                },
            ) => *left == *right && *left_index == *right_index,
            (ShellAction::SwitchWorkspace(left), ShellAction::SwitchWorkspace(right)) => *left
                == *right,
            (ShellAction::CreateWorkspace, ShellAction::CreateWorkspace) => true,
            (ShellAction::CloseWorkspace(left), ShellAction::CloseWorkspace(right)) => *left
                == *right,
            (ShellAction::TaskbarPrevious, ShellAction::TaskbarPrevious) => true,
            (ShellAction::TaskbarNext, ShellAction::TaskbarNext) => true,
            (ShellAction::ShowDesktop, ShellAction::ShowDesktop) => true,
            (ShellAction::CloseApplicationsMenu, ShellAction::CloseApplicationsMenu) => true,
            _ => false,
        }
    }
}

/// A rectangle that can be hit, what it is called and what hitting it asks for.
#[derive(Debug, Clone, PartialEq, Eq)]
pub struct HitTarget {
    pub rect: Rect,
    pub label: String,
    pub action: ShellAction,
}

/// A [`HitTarget`] with its texts as sequences.
pub struct TargetView {
    pub rect: Rect,
    pub label: Seq<char>,
    pub action: ActionView,
}

impl View for HitTarget {
    type V = TargetView;

    open spec fn view(&self) -> TargetView {
        TargetView { rect: self.rect, label: self.label@, action: self.action@ }
    }
}

/// The targets of a list, each by its view.
pub open spec fn target_views(targets: Seq<HitTarget>) -> Seq<TargetView> {
    targets.map_values(|target: HitTarget| target@)
}

impl HitTarget {
    /// A copy of this target.
    pub fn duplicate(&self) -> (copy: HitTarget)
        ensures
            copy@ == self@,
    {
        HitTarget { rect: self.rect, label: self.label.clone(), action: self.action.duplicate() }
    }
}

/// The name of the workspace `index`.
pub open spec fn workspace_name_of(index: u32) -> Seq<char> {
    if index == 0 {
        "Desktop"@
    } else if index == 1 {
        "CUA"@
    } else if index >= MANUAL_WORKSPACE_FLAG {
        "Workspace"@ + decimal((index - MANUAL_WORKSPACE_FLAG) as nat)
    } else {
        "CUA"@ + decimal(index as nat)
    }
}

/// The number behind `prefix` in `name`, where it has no leading zero and a `u32` can hold it.
pub open spec fn numbered(name: Seq<char>, prefix: Seq<char>) -> Option<nat> {
    let suffix = name.skip(prefix.len() as int);
    if begins_with(name, prefix) && suffix.len() > 0 && suffix[0] != '0' {
        match unsigned_value(suffix) {
            Some(number) => if number <= u32::MAX {
                Some(number)
            } else {
                None
            },
            None => None,
        }
    } else {
        None
    }
}

/// The index of the workspace called `name`, where that is the name of one.
pub open spec fn workspace_index_of(name: Seq<char>) -> Option<u32> {
    if name == "Desktop"@ {
        Some(0)
    } else if name == "CUA"@ {
        Some(1)
    } else {
        match numbered(name, "CUA"@) {
            Some(number) if 2 <= number < MANUAL_WORKSPACE_FLAG => Some(number as u32),
            _ => match numbered(name, "Workspace"@) {
                Some(number) if 0 < number < MANUAL_WORKSPACE_FLAG => Some(
                    (MANUAL_WORKSPACE_FLAG + number) as u32,
                ),
                _ => None,
            },
        }
    }
}

/// Whether `index` is one of the agent's workspaces.
pub open spec fn is_cua_index(index: u32) -> bool {
    0 < index < MANUAL_WORKSPACE_FLAG
}

/// The bit that [`MANUAL_WORKSPACE_FLAG`] names is set exactly from its value on.
proof fn manual_flag_bits(index: u32)
    ensures
        (index & MANUAL_WORKSPACE_FLAG != 0) == (index >= MANUAL_WORKSPACE_FLAG),
        index & !MANUAL_WORKSPACE_FLAG == (if index >= MANUAL_WORKSPACE_FLAG {
            index - MANUAL_WORKSPACE_FLAG
        } else {
            index as int
        }),
        MANUAL_WORKSPACE_FLAG | index == (if index >= MANUAL_WORKSPACE_FLAG {
            index as int
        } else {
            MANUAL_WORKSPACE_FLAG + index
        }),
{
    assert((index & 0x8000_0000u32 != 0) == (index >= 0x8000_0000u32)) by (bit_vector);
    assert(index & !0x8000_0000u32 == (if index >= 0x8000_0000u32 {
        index - 0x8000_0000u32
    } else {
        index as int
    })) by (bit_vector);
    assert(0x8000_0000u32 | index == (if index >= 0x8000_0000u32 {
        index as int
    } else {
        0x8000_0000u32 + index
    })) by (bit_vector);
}

/// The name of the workspace `index`.
pub fn workspace_name(index: u32) -> (name: String)
    ensures
        name@ == workspace_name_of(index),
{
    proof {
        manual_flag_bits(index);
    }
    if index == 0 {
        "Desktop".to_owned()
    } else if index == 1 {
        "CUA".to_owned()
    } else if index & MANUAL_WORKSPACE_FLAG != 0 {
        join("Workspace", decimal_text((index & !MANUAL_WORKSPACE_FLAG) as u64).as_str())
    } else {
        join("CUA", decimal_text(index as u64).as_str())
    }
}

/// The number behind `prefix` in the text `chars`.
fn number_behind(chars: &[char], prefix: &str) -> (number: Option<u32>)
    ensures
        number == (match numbered(chars@, prefix@) {
            Some(value) => Some(value as u32),
            None => None,
        }),
{
    if !starts_with(chars, prefix) {
        return None;
    }
    let suffix = rest_of(chars, prefix.unicode_len());
    if suffix.len() == 0 || suffix[0] == '0' {
        return None;
    }
    parse_u32(suffix.as_slice())
}

/// The index of the workspace called `name`, where that is the name of one.
pub fn workspace_index(name: &str) -> (index: Option<u32>)
    ensures
        index == workspace_index_of(name@),
{
    let owned = name.to_owned();
    if owned == "Desktop".to_owned() {
        return Some(0);
    }
    if owned == "CUA".to_owned() {
        return Some(1);
    }
    let chars = characters(name);
    if let Some(number) = number_behind(chars.as_slice(), "CUA") {
        if number >= 2 && number < MANUAL_WORKSPACE_FLAG {
            return Some(number);
        }
    }
    if let Some(number) = number_behind(chars.as_slice(), "Workspace") {
        if number > 0 && number < MANUAL_WORKSPACE_FLAG {
            proof {
                manual_flag_bits(number);
            }
            return Some(MANUAL_WORKSPACE_FLAG | number);
        }
    }
    None
}

/// Whether `index` is one of the agent's workspaces.
pub fn is_cua_workspace(index: u32) -> (cua: bool)
    ensures
        cua == is_cua_index(index),
{
    proof {
        manual_flag_bits(index);
    }
    index > 0 && index & MANUAL_WORKSPACE_FLAG == 0
}

/// A decimal numeral of a positive number has no leading zero.
proof fn decimal_leads(number: nat)
    requires
        number > 0,
    ensures
        decimal(number).len() > 0,
        decimal(number)[0] != '0',
        is_digit(decimal(number)[0]),
    decreases number,
{
    decimal_reads_back(number);
    if number >= 10 {
        decimal_leads(number / 10);
        assert(decimal(number)[0] == decimal(number / 10)[0]);
    }
}

/// A positive number behind a prefix is read back.
proof fn numbered_reads_back(prefix: Seq<char>, number: nat)
    requires
        0 < number <= u32::MAX,
    ensures
        numbered(prefix + decimal(number), prefix) == Some(number),
{
    let name = prefix + decimal(number);
    decimal_leads(number);
    decimal_reads_back(number);
    assert(name.take(prefix.len() as int) =~= prefix);
    assert(name.skip(prefix.len() as int) =~= decimal(number));
}

/// The name of every workspace leads back to its index, but for the flag alone: a person's
/// workspaces are numbered from one.
pub proof fn workspace_names_lead_back(index: u32)
    requires
        index != MANUAL_WORKSPACE_FLAG,
    ensures
        workspace_index_of(workspace_name_of(index)) == Some(index),
{
    reveal_strlit("Desktop");
    reveal_strlit("CUA");
    reveal_strlit("Workspace");
    let name = workspace_name_of(index);
    if index >= 2 {
        if index >= MANUAL_WORKSPACE_FLAG {
            let number = (index - MANUAL_WORKSPACE_FLAG) as nat;
            numbered_reads_back("Workspace"@, number);
            assert(name[0] == 'W');
            assert("Desktop"@[0] == 'D');
            assert("CUA"@[0] == 'C');
            assert(name.take(3)[0] == 'W');
        } else {
            numbered_reads_back("CUA"@, index as nat);
            decimal_leads(index as nat);
            assert(name[0] == 'C');
            assert("Desktop"@[0] == 'D');
            assert(name.len() > 3);
        }
    } else if index == 1 {
        assert("Desktop"@[0] == 'D');
        assert("CUA"@[0] == 'C');
    }
}

/// Two workspaces never share a name.
pub proof fn workspace_names_differ(left: u32, right: u32)
    requires
        left != right,
    ensures
        workspace_name_of(left) != workspace_name_of(right),
{
    reveal_strlit("Desktop");
    reveal_strlit("CUA");
    reveal_strlit("Workspace");
    if left != MANUAL_WORKSPACE_FLAG && right != MANUAL_WORKSPACE_FLAG {
        workspace_names_lead_back(left);
        workspace_names_lead_back(right);
    } else {
        let other = if left == MANUAL_WORKSPACE_FLAG {
            right
        } else {
            left
        };
        let zero = "Workspace"@ + decimal(0);
        assert(zero[0] == 'W');
        assert(zero[9] == '0');
        assert("Desktop"@[0] == 'D');
        assert("CUA"@[0] == 'C');
        if other > MANUAL_WORKSPACE_FLAG {
            let number = (other - MANUAL_WORKSPACE_FLAG) as nat;
            decimal_leads(number);
            assert(workspace_name_of(other)[9] == decimal(number)[0]);
        } else if 2 <= other {
            assert(workspace_name_of(other)[0] == 'C');
        }
    }
}

/// Every workspace that has a name is the desktop, one of the agent's, or one that a person made,
/// and never two of these.
pub proof fn workspace_kinds_do_not_overlap(name: Seq<char>)
    requires
        workspace_index_of(name) is Some,
    ensures
        ({
            let index = workspace_index_of(name)->0;
            &&& is_cua_index(index) ==> index != 0 && index < MANUAL_WORKSPACE_FLAG
            &&& index > MANUAL_WORKSPACE_FLAG ==> !is_cua_index(index)
            &&& index == 0 || is_cua_index(index) || index > MANUAL_WORKSPACE_FLAG
        }),
{
}

/// The highest number that a person's workspace among `workspaces` has, or zero.
pub open spec fn highest_manual(workspaces: Seq<WorkspaceTab>) -> int
    decreases workspaces.len(),
{
    if workspaces.len() == 0 {
        0
    } else {
        let rest = highest_manual(workspaces.drop_last());
        let index = workspaces.last().index;
        if index >= MANUAL_WORKSPACE_FLAG {
            max_of(rest, index - MANUAL_WORKSPACE_FLAG)
        } else {
            rest
        }
    }
}

/// The index that the next workspace of a person gets.
pub open spec fn next_manual_index(workspaces: Seq<WorkspaceTab>) -> int {
    let next = highest_manual(workspaces) + 1;
    if next >= MANUAL_WORKSPACE_FLAG {
        next
    } else {
        MANUAL_WORKSPACE_FLAG + next
    }
}

/// The index that the next workspace of a person gets.
pub fn next_manual_workspace(workspaces: &[WorkspaceTab]) -> (index: u32)
    ensures
        index == next_manual_index(workspaces@),
{
    let mut highest: u32 = 0;
    let mut at: usize = 0;
    while at < workspaces.len()
        invariant
            at <= workspaces.len(),
            highest == highest_manual(workspaces@.take(at as int)),
            highest < MANUAL_WORKSPACE_FLAG,
        decreases workspaces.len() - at,
    {
        let index: u32 = workspaces[at].index;
        proof {
            manual_flag_bits(index);
            assert(workspaces@.take(at + 1).drop_last() =~= workspaces@.take(at as int));
        }
        if index & MANUAL_WORKSPACE_FLAG != 0 {
            let number: u32 = index & !MANUAL_WORKSPACE_FLAG;
            if number > highest {
                highest = number;
            }
        }
        at = at + 1;
    }
    assert(workspaces@.take(workspaces@.len() as int) =~= workspaces@);
    let next: u32 = highest + 1;
    proof {
        manual_flag_bits(next);
    }
    MANUAL_WORKSPACE_FLAG | next
}

/// No workspace of a person has a number above the highest.
proof fn highest_manual_bounds(workspaces: Seq<WorkspaceTab>, at: int)
    requires
        0 <= at < workspaces.len(),
    ensures
        workspaces[at].index < MANUAL_WORKSPACE_FLAG || workspaces[at].index - MANUAL_WORKSPACE_FLAG
            <= highest_manual(workspaces),
    decreases workspaces.len(),
{
    if at < workspaces.len() - 1 {
        highest_manual_bounds(workspaces.drop_last(), at);
    }
}

/// The next workspace of a person is one that is not there yet and never one of the agent's,
/// unless the numbers are used up.
pub proof fn next_manual_workspace_is_new(workspaces: Seq<WorkspaceTab>, at: int)
    requires
        0 <= at < workspaces.len(),
        highest_manual(workspaces) < MANUAL_WORKSPACE_FLAG - 1,
    ensures
        next_manual_index(workspaces) != workspaces[at].index,
        !is_cua_index(next_manual_index(workspaces) as u32),
        MANUAL_WORKSPACE_FLAG < next_manual_index(workspaces) <= u32::MAX,
{
    highest_manual_bounds(workspaces, at);
    highest_manual_is_natural(workspaces);
}

/// The highest number is never negative.
proof fn highest_manual_is_natural(workspaces: Seq<WorkspaceTab>)
    ensures
        0 <= highest_manual(workspaces),
    decreases workspaces.len(),
{
    if workspaces.len() > 0 {
        highest_manual_is_natural(workspaces.drop_last());
    }
}

/// `width` as a positive signed extent.
pub open spec fn extent(width: u32) -> int {
    max_of(saturate_i32(width as int), 1)
}

/// The width of each of `count` workspace tabs on a bar of `width`.
pub open spec fn tab_width(width: u32, count: nat) -> int {
    let available = extent(width) - min_of(WORKSPACE_ADD_WIDTH as int, extent(width));
    if count == 0 {
        0
    } else {
        clamp_of(
            if count <= i32::MAX {
                available / count as int
            } else {
                available
            },
            1,
            WORKSPACE_TAB_MAX_WIDTH as int,
        )
    }
}

/// The target of the workspace tab at `at`.
pub open spec fn tab_target(width: u32, workspaces: Seq<WorkspaceTab>, at: int) -> TargetView {
    let tab = tab_width(width, workspaces.len());
    TargetView {
        rect: Rect {
            x: saturate_i32(at * tab) as i32,
            y: 0,
            width: tab as i32,
            height: TOP_BAR_HEIGHT,
        },
        label: workspaces[at].label@,
        action: ActionView::SwitchWorkspace(workspaces[at].index),
    }
}

/// The target of the button that makes a workspace.
pub open spec fn create_workspace_target(width: u32, count: nat) -> TargetView {
    let add = min_of(WORKSPACE_ADD_WIDTH as int, extent(width));
    TargetView {
        rect: Rect {
            x: min_of(saturate_i32(count * tab_width(width, count)), extent(width) - add) as i32,
            y: 0,
            width: add as i32,
            height: TOP_BAR_HEIGHT,
        },
        label: "Create CUA workspace"@,
        action: ActionView::CreateWorkspace,
    }
}

/// The targets of the top bar.
pub open spec fn top_bar(width: u32, workspaces: Seq<WorkspaceTab>) -> Seq<TargetView> {
    Seq::new(workspaces.len(), |at: int| tab_target(width, workspaces, at)).push(
        create_workspace_target(width, workspaces.len()),
    )
}

/// The targets of the top bar: one tab per workspace from the left, then the plus button.
pub fn top_bar_targets(width: u32, workspaces: &[WorkspaceTab]) -> (targets: Vec<HitTarget>)
    ensures
        target_views(targets@) == top_bar(width, workspaces@),
{
    let count: usize = workspaces.len();
    let whole: i32 = max_i32(u32_as_i32(width), 1);
    let add: i32 = min_i32(WORKSPACE_ADD_WIDTH, whole);
    let available: i32 = sub_i32(whole, add);
    let tab: i32 = if count == 0 {
        0
    } else {
        let share: i32 = if count <= i32::MAX as usize {
            available / count as i32
        } else {
            available
        };
        clamp_i32(share, 1, WORKSPACE_TAB_MAX_WIDTH)
    };
    let mut x: i32 = 0;
    let mut targets: Vec<HitTarget> = Vec::new();
    let mut at: usize = 0;
    while at < count
        invariant
            at <= count,
            count == workspaces.len(),
            tab == tab_width(width, workspaces@.len()),
            tab >= 0,
            x == saturate_i32(at * tab),
            target_views(targets@) =~= Seq::new(
                at as nat,
                |index: int| tab_target(width, workspaces@, index),
            ),
        decreases count - at,
    {
        let ghost before = target_views(targets@);
        targets.push(
            HitTarget {
                rect: Rect { x, y: 0, width: tab, height: TOP_BAR_HEIGHT },
                label: workspaces[at].label.clone(),
                action: ShellAction::SwitchWorkspace(workspaces[at].index),
            },
        );
        assert(target_views(targets@) =~= before.push(
            tab_target(width, workspaces@, at as int),
        ));
        assert((at + 1) * tab == at * tab + tab) by (nonlinear_arith);
        assert(0 <= at * tab) by (nonlinear_arith)
            requires
                0 <= tab,
                0 <= at,
        ;
        x = add_i32(x, tab);
        at = at + 1;
    }
    targets.push(
        HitTarget {
            rect: Rect {
                x: min_i32(x, sub_i32(whole, add)),
                y: 0,
                width: add,
                height: TOP_BAR_HEIGHT,
            },
            label: "Create CUA workspace".to_owned(),
            action: ShellAction::CreateWorkspace,
        },
    );
    assert(target_views(targets@) =~= top_bar(width, workspaces@));
    targets
}

/// How the panel divides its width.
pub struct PanelLayout {
    /// The width of the Applications button.
    pub applications: int,
    /// Where the buttons end and the show-desktop strip begins.
    pub right: int,
    /// Whether the windows do not fit and are shown in pages.
    pub paging: bool,
    /// How many windows a page holds.
    pub slots: int,
    /// The first window shown.
    pub start: int,
    /// Behind the last window shown.
    pub end: int,
    /// Where the first window button begins.
    pub left: int,
    /// The width of each window button.
    pub width: int,
}

/// How a panel of `width` shows `count` windows from `offset` on.
pub open spec fn panel_layout(width: u32, count: nat, offset: nat, capped: bool) -> PanelLayout {
    let right = extent(width) - min_of(SHOW_DESKTOP_WIDTH as int, extent(width));
    let applications = min_of(APPLICATIONS_BUTTON_WIDTH as int, right);
    let available = right - applications;
    let paging = capped && count * MIN_TASK_BUTTON_WIDTH > available;
    let pager = if paging {
        2 * TASK_PAGE_BUTTON_WIDTH
    } else {
        0
    };
    let space = available - pager;
    let slots = if paging {
        if space < MIN_TASK_BUTTON_WIDTH {
            1
        } else {
            space / MIN_TASK_BUTTON_WIDTH as int
        }
    } else {
        count as int
    };
    let start = if paging {
        min_of(offset as int, count - slots)
    } else {
        0
    };
    PanelLayout {
        applications,
        right,
        paging,
        slots,
        start,
        end: start + slots,
        left: applications + pager,
        width: if slots == 0 {
            0
        } else if capped {
            clamp_of(
                space / slots,
                MIN_TASK_BUTTON_WIDTH as int,
                CAPPED_TASK_BUTTON_WIDTH as int,
            )
        } else {
            space / slots
        },
    }
}

/// A target of the panel's full height.
pub open spec fn panel_target(
    x: int,
    width: int,
    label: Seq<char>,
    action: ActionView,
) -> TargetView {
    TargetView {
        rect: Rect { x: x as i32, y: 0, width: width as i32, height: PANEL_HEIGHT },
        label,
        action,
    }
}

/// The targets on the panel to the left of the window buttons.
pub open spec fn panel_head(layout: PanelLayout) -> Seq<TargetView> {
    let applications = panel_target(
        0,
        layout.applications,
        "Applications"@,
        ActionView::ToggleApplications,
    );
    if layout.paging {
        seq![
            applications,
            panel_target(
                layout.applications,
                TASK_PAGE_BUTTON_WIDTH as int,
                "Previous running applications"@,
                ActionView::TaskbarPrevious,
            ),
            panel_target(
                layout.applications + TASK_PAGE_BUTTON_WIDTH,
                TASK_PAGE_BUTTON_WIDTH as int,
                "Next running applications"@,
                ActionView::TaskbarNext,
            ),
        ]
    } else {
        seq![applications]
    }
}

/// The button of the window shown at `at`.
pub open spec fn task_target(
    layout: PanelLayout,
    windows: Seq<GuestWindow>,
    at: int,
) -> TargetView {
    let window = windows[layout.start + at];
    panel_target(
        layout.left + at * layout.width,
        layout.width,
        "Switch to "@ + window.title@,
        ActionView::ActivateWindow(window.id),
    )
}

/// The targets of the panel.
pub open spec fn panel(width: u32, windows: Seq<GuestWindow>, offset: nat, capped: bool) -> Seq<
    TargetView,
> {
    let layout = panel_layout(width, windows.len(), offset, capped);
    panel_head(layout) + Seq::new(
        (layout.end - layout.start) as nat,
        |at: int| task_target(layout, windows, at),
    ) + seq![
        panel_target(
            layout.right,
            extent(width) - layout.right,
            "Show desktop"@,
            ActionView::ShowDesktop,
        ),
    ]
}

/// What every layout of the panel keeps: the window buttons lie side by side between the buttons
/// on the left and the right end, and the windows shown are there. Only a single button on a
/// panel too narrow for one reaches past the end.
pub proof fn panel_layout_fits(width: u32, count: nat, offset: nat, capped: bool)
    requires
        capped || count <= i32::MAX,
    ensures
        ({
            let layout = panel_layout(width, count, offset, capped);
            &&& 0 <= layout.applications <= layout.right < extent(width)
                || layout.right == 0 && layout.applications == 0
            &&& 0 <= layout.start <= layout.end <= count
            &&& layout.end - layout.start == layout.slots
            &&& 0 <= layout.width
            &&& 0 <= layout.slots * layout.width
            &&& layout.applications <= layout.left <= layout.applications + 56
            &&& layout.slots != 1 || !layout.paging ==> layout.left + layout.slots * layout.width
                <= layout.right
            &&& layout.paging ==> MIN_TASK_BUTTON_WIDTH <= layout.width <= CAPPED_TASK_BUTTON_WIDTH
            &&& layout.paging ==> 1 <= layout.slots < i32::MAX
        }),
{
    let layout = panel_layout(width, count, offset, capped);
    let available = layout.right - layout.applications;
    let pager = layout.left - layout.applications;
    let space = available - pager;
    if layout.paging {
        if space >= MIN_TASK_BUTTON_WIDTH {
            assert(layout.slots * MIN_TASK_BUTTON_WIDTH <= space);
            assert(space / layout.slots >= MIN_TASK_BUTTON_WIDTH) by (nonlinear_arith)
                requires
                    layout.slots * 96 <= space,
                    layout.slots > 0,
                    MIN_TASK_BUTTON_WIDTH == 96,
            ;
            assert(layout.slots * layout.width <= space) by (nonlinear_arith)
                requires
                    layout.width <= space / layout.slots,
                    layout.slots > 0,
                    space >= 0,
            ;
        }
    } else if count > 0 {
        if capped {
            assert(count as int * 96 <= space);
            assert(space / (count as int) >= 96) by (nonlinear_arith)
                requires
                    count as int * 96 <= space,
                    count > 0,
            ;
        }
        assert(0 <= space / layout.slots) by (nonlinear_arith)
            requires
                layout.slots > 0,
                space >= 0,
        ;
        assert(layout.slots * layout.width <= space) by (nonlinear_arith)
            requires
                layout.width <= space / layout.slots,
                layout.slots > 0,
                space >= 0,
        ;
    }
    assert(0 <= layout.slots * layout.width) by (nonlinear_arith)
        requires
            0 <= layout.slots,
            0 <= layout.width,
    ;
}

/// Appends a target to `targets`.
pub fn push_target(targets: &mut Vec<HitTarget>, rect: Rect, label: String, action: ShellAction)
    ensures
        target_views(final(targets)@) == target_views(old(targets)@).push(
            (TargetView { rect, label: label@, action: action@ }),
        ),
        final(targets)@.len() == old(targets)@.len() + 1,
{
    targets.push(HitTarget { rect, label, action });
    assert(target_views(targets@) =~= target_views(old(targets)@).push(
        TargetView { rect, label: label@, action: action@ },
    ));
}

/// The targets of the panel: the Applications button, the pager where the windows do not fit,
/// a button per window shown, and the show-desktop strip at the right end.
pub fn panel_targets(
    width: u32,
    windows: &[GuestWindow],
    offset: usize,
    capped_task_buttons: bool,
) -> (targets: Vec<HitTarget>)
    requires
        capped_task_buttons || windows@.len() <= i32::MAX,
    ensures
        target_views(targets@) == panel(width, windows@, offset as nat, capped_task_buttons),
{
    let ghost layout = panel_layout(width, windows@.len(), offset as nat, capped_task_buttons);
    proof {
        panel_layout_fits(width, windows@.len(), offset as nat, capped_task_buttons);
    }
    let whole: i32 = max_i32(u32_as_i32(width), 1);
    let show_desktop: i32 = min_i32(SHOW_DESKTOP_WIDTH, whole);
    let right: i32 = sub_i32(whole, show_desktop);
    let applications: i32 = min_i32(APPLICATIONS_BUTTON_WIDTH, right);
    let mut targets: Vec<HitTarget> = Vec::new();
    push_target(
        &mut targets,
        Rect { x: 0, y: 0, width: applications, height: PANEL_HEIGHT },
        "Applications".to_owned(),
        ShellAction::ToggleApplications,
    );
    let mut x: i32 = applications;
    let available: i32 = sub_i32(right, applications);
    let paging: bool = capped_task_buttons && mul_i32(
        usize_as_i32(windows.len()),
        MIN_TASK_BUTTON_WIDTH,
    ) > available;
    let space: i32 = if paging {
        available - 2 * TASK_PAGE_BUTTON_WIDTH
    } else {
        available
    };
    let slots: usize = if paging {
        if space < MIN_TASK_BUTTON_WIDTH {
            1
        } else {
            (space / MIN_TASK_BUTTON_WIDTH) as usize
        }
    } else {
        windows.len()
    };
    assert(paging == layout.paging);
    assert(slots == layout.slots);
    let start: usize = if paging {
        min_usize(offset, windows.len() - slots)
    } else {
        0
    };
    if paging {
        push_target(
            &mut targets,
            Rect { x, y: 0, width: TASK_PAGE_BUTTON_WIDTH, height: PANEL_HEIGHT },
            "Previous running applications".to_owned(),
            ShellAction::TaskbarPrevious,
        );
        x = x + TASK_PAGE_BUTTON_WIDTH;
        push_target(
            &mut targets,
            Rect { x, y: 0, width: TASK_PAGE_BUTTON_WIDTH, height: PANEL_HEIGHT },
            "Next running applications".to_owned(),
            ShellAction::TaskbarNext,
        );
        x = x + TASK_PAGE_BUTTON_WIDTH;
    }
    assert(target_views(targets@) =~= panel_head(layout));
    let task_width: i32 = if slots == 0 {
        0
    } else {
        let share: i32 = space / slots as i32;
        assert(share == space as int / slots as int) by {
            if space < 0 {
                assert(slots == 1);
            }
        }
        if capped_task_buttons {
            clamp_i32(share, MIN_TASK_BUTTON_WIDTH, CAPPED_TASK_BUTTON_WIDTH)
        } else {
            share
        }
    };
    assert(task_width == layout.width);
    let mut at: usize = 0;
    while at < slots
        invariant
            at <= slots,
            slots == layout.slots,
            start == layout.start,
            start + slots == layout.end,
            layout.end <= windows.len(),
            x == layout.left + at * layout.width,
            task_width == layout.width,
            0 <= layout.left + slots * layout.width <= i32::MAX,
            0 <= layout.width,
            target_views(targets@) =~= panel_head(layout) + Seq::new(
                at as nat,
                |index: int| task_target(layout, windows@, index),
            ),
        decreases slots - at,
    {
        let ghost before = target_views(targets@);
        assert((at + 1) * layout.width <= slots * layout.width) by (nonlinear_arith)
            requires
                at + 1 <= slots,
                0 <= layout.width,
        ;
        assert((at + 1) * layout.width == at * layout.width + layout.width) by (nonlinear_arith);
        push_target(
            &mut targets,
            Rect { x, y: 0, width: task_width, height: PANEL_HEIGHT },
            join("Switch to ", windows[start + at].title.as_str()),
            ShellAction::ActivateWindow(windows[start + at].id),
        );
        assert(target_views(targets@) =~= before.push(task_target(layout, windows@, at as int)));
        x = x + task_width;
        at = at + 1;
    }
    push_target(
        &mut targets,
        Rect { x: right, y: 0, width: show_desktop, height: PANEL_HEIGHT },
        "Show desktop".to_owned(),
        ShellAction::ShowDesktop,
    );
    assert(target_views(targets@) =~= panel(
        width,
        windows@,
        offset as nat,
        capped_task_buttons,
    ));
    targets
}

/// How far the window buttons of a panel can be scrolled.
pub open spec fn max_task_offset(width: u32, count: nat, capped: bool) -> int {
    if !capped {
        0
    } else {
        let space = extent(width) - SHOW_DESKTOP_WIDTH - APPLICATIONS_BUTTON_WIDTH - 2
            * TASK_PAGE_BUTTON_WIDTH;
        let slots = if space < MIN_TASK_BUTTON_WIDTH {
            1
        } else {
            space / MIN_TASK_BUTTON_WIDTH as int
        };
        max_of(count - slots, 0)
    }
}

/// How far the window buttons of a panel of `width` can be scrolled.
pub fn taskbar_max_offset(width: u32, window_count: usize, capped_task_buttons: bool) -> (offset:
    usize)
    ensures
        offset == max_task_offset(width, window_count as nat, capped_task_buttons),
{
    if !capped_task_buttons {
        return 0;
    }
    let whole: i32 = max_i32(u32_as_i32(width), 1);
    let space: i32 = max_i32(
        sub_i32(
            sub_i32(
                sub_i32(whole, min_i32(SHOW_DESKTOP_WIDTH, whole)),
                min_i32(APPLICATIONS_BUTTON_WIDTH, whole),
            ),
            2 * TASK_PAGE_BUTTON_WIDTH,
        ),
        MIN_TASK_BUTTON_WIDTH,
    );
    let slots: usize = (space / MIN_TASK_BUTTON_WIDTH) as usize;
    window_count.saturating_sub(slots)
}

/// The panel pages exactly as far as [`taskbar_max_offset`] says, so every window can be shown:
/// for each one some offset within that bound has its button on the panel.
pub proof fn panel_reaches_every_window(width: u32, count: nat, capped: bool, window: int)
    requires
        capped || count <= i32::MAX,
        0 <= window < count,
    ensures
        exists|offset: nat|
            offset <= max_task_offset(width, count, capped) && (#[trigger] panel_layout(
                width,
                count,
                offset,
                capped,
            )).start <= window < panel_layout(width, count, offset, capped).end,
{
    let layout = panel_layout(width, count, 0, capped);
    let limit = max_task_offset(width, count, capped);
    let offset = min_of(window, limit) as nat;
    panel_layout_fits(width, count, offset, capped);
    panel_layout_fits(width, count, 0, capped);
    let shown = panel_layout(width, count, offset, capped);
    if layout.paging {
        assert(limit == count - layout.slots);
    } else {
        assert(shown.start == 0 && shown.end == count);
    }
    assert(shown.start <= window < shown.end);
}

/// An offset past the end shows the same page as the largest one.
pub proof fn panel_offset_is_clamped(width: u32, windows: Seq<GuestWindow>, offset: nat)
    requires
        offset >= max_task_offset(width, windows.len(), true),
        panel_layout(width, windows.len(), offset, true).paging,
    ensures
        panel(width, windows, offset, true) == panel(
            width,
            windows,
            max_task_offset(width, windows.len(), true) as nat,
            true,
        ),
{
    panel_layout_fits(width, windows.len(), offset, true);
}

/// Buttons of the panel never overlap: each begins where the one before it ends.
pub proof fn panel_buttons_are_adjacent(
    width: u32,
    windows: Seq<GuestWindow>,
    offset: nat,
    capped: bool,
    at: int,
)
    requires
        capped || windows.len() <= i32::MAX,
        0 <= at,
        at + 2 < panel(width, windows, offset, capped).len(),
    ensures
        ({
            let targets = panel(width, windows, offset, capped);
            targets[at].rect.x + targets[at].rect.width == targets[at + 1].rect.x
        }),
{
    panel_layout_fits(width, windows.len(), offset, capped);
    let layout = panel_layout(width, windows.len(), offset, capped);
    let head = panel_head(layout);
    let targets = panel(width, windows, offset, capped);
    let task = at - head.len();
    assert(head.len() == 1 || head.len() == 3);
    if task >= 0 {
        assert(targets[at] == task_target(layout, windows, task));
        assert(targets[at + 1] == task_target(layout, windows, task + 1));
        assert((task + 1) * layout.width == task * layout.width + layout.width) by (nonlinear_arith);
        assert((task + 2) * layout.width <= layout.slots * layout.width) by (nonlinear_arith)
            requires
                task + 2 <= layout.slots,
                0 <= layout.width,
        ;
        assert((task + 2) * layout.width == task * layout.width + 2 * layout.width)
            by (nonlinear_arith);
        assert(0 <= task * layout.width) by (nonlinear_arith)
            requires
                0 <= task,
                0 <= layout.width,
        ;
        assert(0 <= layout.left + task * layout.width <= i32::MAX);
        assert(0 <= layout.left + (task + 1) * layout.width <= i32::MAX);
        assert(layout.width <= i32::MAX);
    } else if task == -1 {
        assert(targets[at] == head[at]);
        assert(targets[at + 1] == task_target(layout, windows, 0));
        assert(0 * layout.width == 0);
        assert(0 <= layout.left <= i32::MAX);
    } else {
        assert(targets[at] == head[at]);
        assert(targets[at + 1] == head[at + 1]);
    }
}

/// How many rows an Applications menu of `height` has room for.
#[verifier::opaque]
pub open spec fn menu_rows(height: u32) -> int {
    let space = saturate_i32(height as int) - APPLICATIONS_MENU_HEADER_HEIGHT
        - APPLICATIONS_MENU_SECTION_HEIGHT - APPLICATIONS_MENU_FOOTER_HEIGHT;
    if space < 0 {
        0
    } else {
        space / MENU_ROW_HEIGHT as int
    }
}

/// The row of the Applications menu at `at`, which launches `application`.
pub open spec fn menu_row(width: u32, application: ApplicationView, at: int) -> TargetView {
    TargetView {
        rect: Rect {
            x: 8,
            y: (APPLICATIONS_MENU_HEADER_HEIGHT + APPLICATIONS_MENU_SECTION_HEIGHT + at
                * MENU_ROW_HEIGHT) as i32,
            width: (saturate_i32(width as int) - 16) as i32,
            height: MENU_ROW_HEIGHT,
        },
        label: application.name,
        action: ActionView::LaunchApplication(application.id),
    }
}

/// How many of `count` applications a menu of `height` shows from `scroll` on.
pub open spec fn menu_shown(height: u32, count: nat, scroll: nat) -> nat {
    min_of(menu_rows(height), max_of(count - scroll, 0)) as nat
}

/// The rows of the Applications menu.
pub open spec fn menu(
    width: u32,
    height: u32,
    applications: Seq<ApplicationView>,
    scroll: nat,
) -> Seq<TargetView> {
    Seq::new(
        menu_shown(height, applications.len(), scroll),
        |at: int| menu_row(width, applications[scroll + at], at),
    )
}

/// The rows of the Applications menu, from the application at `scroll` on.
pub fn menu_targets(
    menu_width: u32,
    menu_height: u32,
    applications: &[Application],
    scroll: usize,
) -> (targets: Vec<HitTarget>)
    ensures
        target_views(targets@) == menu(
            menu_width,
            menu_height,
            application_views(applications@),
            scroll as nat,
        ),
{
    reveal(menu_rows);
    let width: i32 = u32_as_i32(menu_width);
    let height: i32 = u32_as_i32(menu_height);
    let mut y: i32 = APPLICATIONS_MENU_HEADER_HEIGHT + APPLICATIONS_MENU_SECTION_HEIGHT;
    let space: i32 = max_i32(sub_i32(sub_i32(height, y), APPLICATIONS_MENU_FOOTER_HEIGHT), 0);
    let rows: usize = (space / MENU_ROW_HEIGHT) as usize;
    let rest: usize = applications.len().saturating_sub(scroll);
    let shown: usize = min_usize(rows, rest);
    let mut targets: Vec<HitTarget> = Vec::new();
    let mut at: usize = 0;
    while at < shown
        invariant
            at <= shown,
            shown == menu_shown(menu_height, applications@.len(), scroll as nat),
            shown <= menu_rows(menu_height),
            menu_rows(menu_height) * 36 + 130 <= max_of(height as int, 130),
            shown == 0 || scroll + shown <= applications.len(),
            width == saturate_i32(menu_width as int),
            width >= 0,
            y == APPLICATIONS_MENU_HEADER_HEIGHT + APPLICATIONS_MENU_SECTION_HEIGHT + at
                * MENU_ROW_HEIGHT,
            target_views(targets@) =~= Seq::new(
                at as nat,
                |index: int| menu_row(menu_width, applications@[scroll + index]@, index),
            ),
        decreases shown - at,
    {
        let ghost before = target_views(targets@);
        let application = &applications[scroll + at];
        push_target(
            &mut targets,
            Rect { x: 8, y, width: sub_i32(width, 16), height: MENU_ROW_HEIGHT },
            application.name.clone(),
            ShellAction::LaunchApplication(application.id.clone()),
        );
        assert(target_views(targets@) =~= before.push(
            menu_row(menu_width, applications@[scroll + at]@, at as int),
        ));
        y = y + MENU_ROW_HEIGHT;
        at = at + 1;
    }
    assert(target_views(targets@) =~= menu(
        menu_width,
        menu_height,
        application_views(applications@),
        scroll as nat,
    ));
    targets
}

/// Every row of the Applications menu lies between its header and its footer, and the rows follow
/// one another without a gap.
pub proof fn menu_rows_stay_inside(
    width: u32,
    height: u32,
    applications: Seq<ApplicationView>,
    scroll: nat,
    at: int,
)
    requires
        0 <= at < menu(width, height, applications, scroll).len(),
    ensures
        ({
            let row = menu(width, height, applications, scroll)[at].rect;
            &&& row.y == APPLICATIONS_MENU_HEADER_HEIGHT + APPLICATIONS_MENU_SECTION_HEIGHT + at
                * MENU_ROW_HEIGHT
            &&& row.y + row.height + APPLICATIONS_MENU_FOOTER_HEIGHT <= height
        }),
{
    reveal(menu_rows);
}

/// The button that closes the Applications menu.
pub open spec fn menu_close(width: u32) -> TargetView {
    TargetView {
        rect: Rect {
            x: (saturate_i32(width as int) - 46) as i32,
            y: 0,
            width: min_of(46, saturate_i32(width as int)) as i32,
            height: APPLICATIONS_MENU_HEADER_HEIGHT,
        },
        label: "Close Applications menu"@,
        action: ActionView::CloseApplicationsMenu,
    }
}

/// The button that closes the Applications menu, at its right end.
pub fn applications_menu_close_target(menu_width: u32) -> (target: HitTarget)
    ensures
        target@ == menu_close(menu_width),
{
    let width: i32 = u32_as_i32(menu_width);
    HitTarget {
        rect: Rect {
            x: sub_i32(width, 46),
            y: 0,
            width: min_i32(46, width),
            height: APPLICATIONS_MENU_HEADER_HEIGHT,
        },
        label: "Close Applications menu".to_owned(),
        action: ShellAction::CloseApplicationsMenu,
    }
}

/// An entry of a menu: what it is called and what choosing it asks for.
pub struct EntryView {
    pub label: Seq<char>,
    pub action: ActionView,
}

/// The entries of a menu as rows, the first one at (`x`, `y`).
pub open spec fn rows_of(entries: Seq<EntryView>, x: int, y: int, width: int) -> Seq<TargetView> {
    Seq::new(
        entries.len(),
        |at: int|
            TargetView {
                rect: Rect {
                    x: x as i32,
                    y: (y + at * MENU_ROW_HEIGHT) as i32,
                    width: width as i32,
                    height: MENU_ROW_HEIGHT,
                },
                label: entries[at].label,
                action: entries[at].action,
            },
    )
}

/// Appends the next row of a menu whose first row is at (`x`, `y`).
pub fn push_row(
    targets: &mut Vec<HitTarget>,
    x: i32,
    y: i32,
    width: i32,
    label: String,
    action: ShellAction,
)
    requires
        i32::MIN <= y + old(targets)@.len() * MENU_ROW_HEIGHT <= i32::MAX,
        0 <= y,
    ensures
        forall|entries: Seq<EntryView>|
            target_views(old(targets)@) == rows_of(entries, x as int, y as int, width as int)
                ==> target_views(final(targets)@) == #[trigger] rows_of(
                entries.push((EntryView { label: label@, action: action@ })),
                x as int,
                y as int,
                width as int,
            ),
        final(targets)@.len() == old(targets)@.len() + 1,
{
    let at: usize = targets.len();
    assert(at * 36 <= i32::MAX);
    let top: i32 = y + (at as i32) * MENU_ROW_HEIGHT;
    let ghost entry = EntryView { label: label@, action: action@ };
    push_target(
        targets,
        Rect { x, y: top, width, height: MENU_ROW_HEIGHT },
        label,
        action,
    );
    assert forall|entries: Seq<EntryView>|
        target_views(old(targets)@) == rows_of(
            entries,
            x as int,
            y as int,
            width as int,
        ) implies target_views(targets@) == #[trigger] rows_of(
        entries.push(entry),
        x as int,
        y as int,
        width as int,
    ) by {
        assert(target_views(old(targets)@).len() == old(targets)@.len());
        assert(rows_of(entries, x as int, y as int, width as int).len() == entries.len());
        assert(target_views(targets@) =~= rows_of(
            entries.push(entry),
            x as int,
            y as int,
            width as int,
        ));
    }
}

/// Whether a window can be moved to `workspace`: it is not there already.
pub open spec fn is_elsewhere(window: GuestWindow) -> spec_fn(WorkspaceTab) -> bool {
    |workspace: WorkspaceTab| window.workspace_index != Some(workspace.index)
}

/// The workspaces that `window` can be moved to.
pub open spec fn move_choices(window: GuestWindow, workspaces: Seq<WorkspaceTab>) -> Seq<
    WorkspaceTab,
> {
    workspaces.filter(is_elsewhere(window))
}

/// The entry that moves `window` to `workspace`.
pub open spec fn move_entry(window: GuestWindow, workspace: WorkspaceTab) -> EntryView {
    EntryView {
        label: "Move to "@ + workspace.label@,
        action: ActionView::MoveWindowToWorkspace(window.id, workspace.index),
    }
}

/// The entries of the menu of `window`.
pub open spec fn window_entries(window: GuestWindow, workspaces: Seq<WorkspaceTab>) -> Seq<
    EntryView,
> {
    window_controls(window) + move_choices(window, workspaces).map_values(
        |workspace: WorkspaceTab| move_entry(window, workspace),
    )
}

/// The entries that control `window` where it is.
pub open spec fn window_controls(window: GuestWindow) -> Seq<EntryView> {
    seq![
        EntryView { label: "Focus"@, action: ActionView::ActivateWindow(window.id) },
        EntryView { label: "Bring Into View"@, action: ActionView::BringIntoViewWindow(window.id) },
        EntryView { label: "Minimize"@, action: ActionView::MinimizeWindow(window.id) },
        EntryView {
            label: if window.minimized || window.maximized {
                "Restore"@
            } else {
                "Maximize"@
            },
            action: ActionView::ToggleMaximizeWindow(window.id),
        },
        EntryView { label: "Close"@, action: ActionView::CloseWindow(window.id) },
    ]
}

/// Whether the rows of the menu of `window` have coordinates.
pub open spec fn window_menu_fits(window: GuestWindow, workspaces: Seq<WorkspaceTab>) -> bool {
    44 + window_entries(window, workspaces).len() * MENU_ROW_HEIGHT <= i32::MAX
}

/// The rows of the menu of `window`: its controls, then the workspaces it can be moved to.
pub fn window_menu_targets(window: &GuestWindow, workspaces: &[WorkspaceTab]) -> (targets: Vec<
    HitTarget,
>)
    requires
        window_menu_fits(*window, workspaces@),
    ensures
        target_views(targets@) == rows_of(window_entries(*window, workspaces@), 8, 44, 244),
{
    let mut targets: Vec<HitTarget> = Vec::new();
    let ghost none = Seq::<EntryView>::empty();
    assert(target_views(targets@) =~= rows_of(none, 8, 44, 244));
    push_row(
        &mut targets,
        8,
        44,
        244,
        "Focus".to_owned(),
        ShellAction::ActivateWindow(window.id),
    );
    push_row(
        &mut targets,
        8,
        44,
        244,
        "Bring Into View".to_owned(),
        ShellAction::BringIntoViewWindow(window.id),
    );
    push_row(
        &mut targets,
        8,
        44,
        244,
        "Minimize".to_owned(),
        ShellAction::MinimizeWindow(window.id),
    );
    push_row(
        &mut targets,
        8,
        44,
        244,
        if window.minimized || window.maximized {
            "Restore".to_owned()
        } else {
            "Maximize".to_owned()
        },
        ShellAction::ToggleMaximizeWindow(window.id),
    );
    push_row(
        &mut targets,
        8,
        44,
        244,
        "Close".to_owned(),
        ShellAction::CloseWindow(window.id),
    );
    let ghost controls = window_controls(*window);
    proof {
        assert(controls =~= none.push(controls[0]).push(controls[1]).push(controls[2]).push(
            controls[3],
        ).push(controls[4]));
        filter_ends(workspaces@, is_elsewhere(*window));
        assert(move_choices(*window, workspaces@.take(0)).map_values(
            |workspace: WorkspaceTab| move_entry(*window, workspace),
        ) =~= none);
        assert(window_entries(*window, workspaces@.take(0)) =~= controls);
    }
    let mut at: usize = 0;
    while at < workspaces.len()
        invariant
            at <= workspaces.len(),
            window_menu_fits(*window, workspaces@),
            target_views(targets@) == rows_of(
                window_entries(*window, workspaces@.take(at as int)),
                8,
                44,
                244,
            ),
        decreases workspaces.len() - at,
    {
        let ghost entries = window_entries(*window, workspaces@.take(at as int));
        let ghost next = window_entries(*window, workspaces@.take(at + 1));
        proof {
            filter_step(workspaces@, is_elsewhere(*window), at as int);
            move_choices_grow(*window, workspaces@, at + 1);
            assert(target_views(targets@).len() == targets@.len());
        }
        let workspace = &workspaces[at];
        if window.workspace_index.is_none() || window.workspace_index.unwrap() != workspace.index {
            assert(is_elsewhere(*window)(workspaces@[at as int]));
            assert(next =~= entries.push(move_entry(*window, workspaces@[at as int])));
            push_row(
                &mut targets,
                8,
                44,
                244,
                join("Move to ", workspace.label.as_str()),
                ShellAction::MoveWindowToWorkspace {
                    window_id: window.id,
                    workspace_index: workspace.index,
                },
            );
        } else {
            assert(!is_elsewhere(*window)(workspaces@[at as int]));
        }
        at = at + 1;
    }
    proof {
        filter_ends(workspaces@, is_elsewhere(*window));
    }
    targets
}

/// The choices among the first workspaces are no more than those among all of them.
proof fn move_choices_grow(window: GuestWindow, workspaces: Seq<WorkspaceTab>, length: int)
    requires
        0 <= length <= workspaces.len(),
    ensures
        window_entries(window, workspaces.take(length)).len() <= window_entries(
            window,
            workspaces,
        ).len(),
    decreases workspaces.len() - length,
{
    if length < workspaces.len() {
        filter_step(workspaces, is_elsewhere(window), length);
        move_choices_grow(window, workspaces, length + 1);
    } else {
        filter_ends(workspaces, is_elsewhere(window));
    }
}

/// The height of the menu of `window`, which has a row for each of its entries.
pub fn window_menu_height(window: &GuestWindow, workspaces: &[WorkspaceTab]) -> (height: u32)
    requires
        window_menu_fits(*window, workspaces@),
    ensures
        height == 44 + window_entries(*window, workspaces@).len() * MENU_ROW_HEIGHT,
{
    let targets = window_menu_targets(window, workspaces);
    assert(target_views(targets@).len() == targets@.len());
    let rows: u32 = usize_as_u32(targets.len());
    let body: u32 = mul_u32(rows, MENU_ROW_HEIGHT as u32);
    (44u32).saturating_add(body)
}

/// The menu of the workspace `index`: the desktop itself cannot be closed.
pub open spec fn workspace_entries(index: u32) -> Seq<EntryView> {
    if index == 0 {
        seq![]
    } else {
        seq![
            EntryView {
                label: "Close "@ + workspace_name_of(index),
                action: ActionView::CloseWorkspace(index),
            },
        ]
    }
}

/// The rows of the menu of the workspace `index`.
pub fn workspace_menu_targets(index: u32) -> (targets: Vec<HitTarget>)
    ensures
        target_views(targets@) == rows_of(workspace_entries(index), 8, 44, 244),
{
    let mut targets: Vec<HitTarget> = Vec::new();
    if index != 0 {
        push_target(
            &mut targets,
            Rect { x: 8, y: 44, width: 244, height: MENU_ROW_HEIGHT },
            join("Close ", workspace_name(index).as_str()),
            ShellAction::CloseWorkspace(index),
        );
    }
    assert(target_views(targets@) =~= rows_of(workspace_entries(index), 8, 44, 244));
    targets
}

/// The entries of the menu of an application.
pub open spec fn application_entries(id: Seq<char>, pinned: bool, managed: bool) -> Seq<EntryView> {
    let open = seq![EntryView { label: "Open"@, action: ActionView::LaunchApplication(id) }];
    let extract = if managed {
        seq![
            EntryView { label: "Extract and Run"@, action: ActionView::ExtractApplication(id) },
            EntryView {
                label: "Extract and Run --no-sandbox"@,
                action: ActionView::ExtractApplicationNoSandbox(id),
            },
        ]
    } else {
        seq![]
    };
    let common = seq![
        if pinned {
            EntryView { label: "Unpin"@, action: ActionView::UnpinApplication(id) }
        } else {
            EntryView { label: "Pin"@, action: ActionView::PinApplication(id) }
        },
        EntryView {
            label: "Add to Desktop"@,
            action: ActionView::AddApplicationDesktopShortcut(id),
        },
    ];
    let manage = if managed {
        seq![
            EntryView { label: "Rename\u{2026}"@, action: ActionView::RenameApplication(id) },
            EntryView {
                label: "Delete from Applications"@,
                action: ActionView::DeleteApplication(id),
            },
        ]
    } else {
        seq![]
    };
    open + extract + common + manage
}

/// The rows of the menu of `application`.
pub fn application_context_targets(
    application: &Application,
    pinned: bool,
    managed_appimage: bool,
) -> (targets: Vec<HitTarget>)
    ensures
        target_views(targets@) == rows_of(
            application_entries(application.id@, pinned, managed_appimage),
            6,
            6,
            240,
        ),
{
    let ghost entries = application_entries(application.id@, pinned, managed_appimage);
    let ghost none = Seq::<EntryView>::empty();
    let mut targets: Vec<HitTarget> = Vec::new();
    assert(target_views(targets@) =~= rows_of(none, 6, 6, 240));
    push_row(
        &mut targets,
        6,
        6,
        240,
        "Open".to_owned(),
        ShellAction::LaunchApplication(application.id.clone()),
    );
    if managed_appimage {
        push_row(
            &mut targets,
            6,
            6,
            240,
            "Extract and Run".to_owned(),
            ShellAction::ExtractApplication(application.id.clone()),
        );
        push_row(
            &mut targets,
            6,
            6,
            240,
            "Extract and Run --no-sandbox".to_owned(),
            ShellAction::ExtractApplicationNoSandbox(application.id.clone()),
        );
    }
    if pinned {
        push_row(
            &mut targets,
            6,
            6,
            240,
            "Unpin".to_owned(),
            ShellAction::UnpinApplication(application.id.clone()),
        );
    } else {
        push_row(
            &mut targets,
            6,
            6,
            240,
            "Pin".to_owned(),
            ShellAction::PinApplication(application.id.clone()),
        );
    }
    push_row(
        &mut targets,
        6,
        6,
        240,
        "Add to Desktop".to_owned(),
        ShellAction::AddApplicationDesktopShortcut(application.id.clone()),
    );
    if managed_appimage {
        push_row(
            &mut targets,
            6,
            6,
            240,
            "Rename\u{2026}".to_owned(),
            ShellAction::RenameApplication(application.id.clone()),
        );
        push_row(
            &mut targets,
            6,
            6,
            240,
            "Delete from Applications".to_owned(),
            ShellAction::DeleteApplication(application.id.clone()),
        );
        assert(entries =~= none.push(entries[0]).push(entries[1]).push(entries[2]).push(
            entries[3],
        ).push(entries[4]).push(entries[5]).push(entries[6]));
    } else {
        assert(entries =~= none.push(entries[0]).push(entries[1]).push(entries[2]));
    }
    targets
}

/// The shortcuts that every desktop has.
pub open spec fn builtin_desktop() -> Seq<TargetView> {
    seq![
        TargetView {
            rect: Rect { x: 18, y: 20, width: 88, height: 92 },
            label: "Files"@,
            action: ActionView::OpenFiles,
        },
        TargetView {
            rect: Rect { x: 18, y: 120, width: 88, height: 92 },
            label: "Shared"@,
            action: ActionView::OpenShared,
        },
    ]
}

/// The shortcuts that every desktop has: the home folder and the shared folder.
pub fn builtin_desktop_targets() -> (targets: Vec<HitTarget>)
    ensures
        target_views(targets@) == builtin_desktop(),
{
    let mut targets: Vec<HitTarget> = Vec::new();
    push_target(
        &mut targets,
        Rect { x: 18, y: 20, width: 88, height: 92 },
        "Files".to_owned(),
        ShellAction::OpenFiles,
    );
    push_target(
        &mut targets,
        Rect { x: 18, y: 120, width: 88, height: 92 },
        "Shared".to_owned(),
        ShellAction::OpenShared,
    );
    assert(target_views(targets@) =~= builtin_desktop());
    targets
}

/// The next workspace of a person has the number after the highest one that there is, and the first
/// one has the number 1.
pub proof fn next_manual_workspace_follows_the_highest(workspaces: Seq<WorkspaceTab>, at: int)
    ensures
        next_manual_index(Seq::empty()) == MANUAL_WORKSPACE_FLAG + 1,
        highest_manual(workspaces) + 1 < MANUAL_WORKSPACE_FLAG ==> next_manual_index(workspaces)
            == MANUAL_WORKSPACE_FLAG + highest_manual(workspaces) + 1,
        0 <= at < workspaces.len() && workspaces[at].index >= MANUAL_WORKSPACE_FLAG
            ==> workspaces[at].index <= MANUAL_WORKSPACE_FLAG + highest_manual(workspaces),
        highest_manual(workspaces) == 0 || exists|place: int|
            0 <= place < workspaces.len() && (#[trigger] workspaces[place]).index
                == MANUAL_WORKSPACE_FLAG + highest_manual(workspaces),
    decreases workspaces.len(),
{
    if workspaces.len() > 0 {
        let front = workspaces.drop_last();
        next_manual_workspace_follows_the_highest(front, at);
        assert(workspaces[workspaces.len() - 1] == workspaces.last());
        if 0 <= at < front.len() {
            assert(front[at] == workspaces[at]);
        }
        if highest_manual(front) == highest_manual(workspaces) && highest_manual(front) != 0 {
            let place = choose|place: int|
                0 <= place < front.len() && (#[trigger] front[place]).index == MANUAL_WORKSPACE_FLAG
                    + highest_manual(front);
            assert(workspaces[place] == front[place]);
        }
    }
}

/// The top bar has a tab for each workspace, in their order, which is called as the workspace is and
/// switches to it; behind them is the button that makes one. The tabs lie side by side.
pub proof fn tabs_switch_to_their_workspace(width: u32, workspaces: Seq<WorkspaceTab>, at: int)
    requires
        0 <= at < workspaces.len() <= 1000000,
    ensures
        ({
            let bar = top_bar(width, workspaces);
            &&& bar.len() == workspaces.len() + 1
            &&& bar[at].action == ActionView::SwitchWorkspace(workspaces[at].index)
            &&& bar[at].label == workspaces[at].label@
            &&& bar[workspaces.len() as int].action == ActionView::CreateWorkspace
            &&& bar[at].rect.x == at * bar[at].rect.width
            &&& bar[at].rect.width == bar[0].rect.width
            &&& 1 <= bar[at].rect.width <= WORKSPACE_TAB_MAX_WIDTH
            &&& workspaces.len() + WORKSPACE_ADD_WIDTH <= width <= i32::MAX ==> bar[at].rect.x
                + bar[at].rect.width + WORKSPACE_ADD_WIDTH <= width
        }),
{
    let tab = tab_width(width, workspaces.len());
    let count = workspaces.len() as int;
    assert(1 <= tab <= WORKSPACE_TAB_MAX_WIDTH);
    assert(0 <= at * tab <= 1000000 * WORKSPACE_TAB_MAX_WIDTH) by (nonlinear_arith)
        requires
            0 <= at <= 1000000,
            1 <= tab <= WORKSPACE_TAB_MAX_WIDTH,
    ;
    if workspaces.len() + WORKSPACE_ADD_WIDTH <= width <= i32::MAX {
        let available = width - WORKSPACE_ADD_WIDTH;
        assert(available / count >= 1 && (available / count) * count <= available)
            by (nonlinear_arith)
            requires
                1 <= count <= available,
        ;
        assert(at * tab + tab <= available) by (nonlinear_arith)
            requires
                0 <= at < count,
                1 <= tab <= available / count,
                (available / count) * count <= available,
        ;
    }
}

/// The panel begins with the button of the Applications menu and ends with that of the desktop.
/// Between them each window that is shown has a button, in the order of the windows, that names and
/// activates it; where not all fit, buttons for the pages stand before them.
pub proof fn panel_buttons_activate_their_window(
    width: u32,
    windows: Seq<GuestWindow>,
    offset: nat,
    capped: bool,
    at: int,
)
    requires
        capped || windows.len() <= i32::MAX,
    ensures
        ({
            let targets = panel(width, windows, offset, capped);
            let layout = panel_layout(width, windows.len(), offset, capped);
            let head: int = if layout.paging {
                3
            } else {
                1
            };
            &&& targets.len() == head + (layout.end - layout.start) + 1
            &&& targets[0].action == ActionView::ToggleApplications
            &&& targets[0].rect.x == 0
            &&& targets.last().action == ActionView::ShowDesktop
            &&& layout.paging ==> targets[1].action == ActionView::TaskbarPrevious
                && targets[2].action == ActionView::TaskbarNext
            &&& !layout.paging ==> layout.start == 0 && layout.end == windows.len()
            &&& !capped ==> !layout.paging
            &&& 0 <= at < layout.end - layout.start ==> targets[head + at].action
                == ActionView::ActivateWindow(windows[layout.start + at].id) && targets[head
                + at].label == "Switch to "@ + windows[layout.start + at].title@
            &&& layout.paging && offset <= windows.len() - layout.slots ==> layout.start == offset
        }),
{
    panel_layout_fits(width, windows.len(), offset, capped);
}

/// Each row of the Applications menu launches the application that it names; the rows are those of
/// the applications from the first one that is scrolled to, as many as there are and fit.
pub proof fn menu_rows_launch_their_application(
    width: u32,
    height: u32,
    applications: Seq<ApplicationView>,
    scroll: nat,
    at: int,
)
    requires
        height <= i32::MAX,
    ensures
        ({
            let rows = menu(width, height, applications, scroll);
            let fixed = APPLICATIONS_MENU_HEADER_HEIGHT + APPLICATIONS_MENU_SECTION_HEIGHT
                + APPLICATIONS_MENU_FOOTER_HEIGHT;
            &&& 0 <= at < rows.len() ==> rows[at].action == ActionView::LaunchApplication(
                applications[scroll + at].id,
            ) && rows[at].label == applications[scroll + at].name && scroll + at
                < applications.len()
            &&& rows.len() < applications.len() - scroll ==> fixed + (rows.len() + 1)
                * MENU_ROW_HEIGHT > height
            &&& rows.len() > 0 ==> fixed + rows.len() * MENU_ROW_HEIGHT <= height
        }),
{
    reveal(menu_rows);
    let rows = menu(width, height, applications, scroll);
    let space = height - APPLICATIONS_MENU_HEADER_HEIGHT - APPLICATIONS_MENU_SECTION_HEIGHT
        - APPLICATIONS_MENU_FOOTER_HEIGHT;
    if space >= 0 {
        let room = space / MENU_ROW_HEIGHT as int;
        assert(room * MENU_ROW_HEIGHT <= space < (room + 1) * MENU_ROW_HEIGHT)
            by (nonlinear_arith)
            requires
                space >= 0,
                room == space / MENU_ROW_HEIGHT as int,
        ;
        assert(rows.len() * MENU_ROW_HEIGHT <= room * MENU_ROW_HEIGHT) by (nonlinear_arith)
            requires
                rows.len() <= room,
        ;
    }
}

/// The rows of a menu stand under one another, each with the name and the action of its entry.
pub proof fn rows_stand_under_one_another(
    entries: Seq<EntryView>,
    x: int,
    y: int,
    width: int,
    at: int,
)
    requires
        0 <= at < entries.len() <= 1000000,
        0 <= x <= 100000,
        0 <= y <= 100000,
        0 <= width <= 100000,
    ensures
        ({
            let rows = rows_of(entries, x, y, width);
            &&& rows.len() == entries.len()
            &&& rows[at].label == entries[at].label
            &&& rows[at].action == entries[at].action
            &&& rows[at].rect.x == x && rows[at].rect.width == width
            &&& rows[0].rect.y == y
            &&& at > 0 ==> rows[at].rect.y == rows[at - 1].rect.y + rows[at - 1].rect.height
        }),
{
    assert(0 <= at * MENU_ROW_HEIGHT <= 1000000 * MENU_ROW_HEIGHT) by (nonlinear_arith)
        requires
            0 <= at <= 1000000,
    ;
    if at > 0 {
        assert((at - 1) * MENU_ROW_HEIGHT + MENU_ROW_HEIGHT == at * MENU_ROW_HEIGHT)
            by (nonlinear_arith);
    }
}

/// The menu of a window controls that window and no other. It offers to restore a window that is
/// minimized or maximized and to maximize another one, and to move it to each workspace that it is
/// not on, and to none that it is on.
pub proof fn window_menus_control_their_window(
    window: GuestWindow,
    workspaces: Seq<WorkspaceTab>,
    at: int,
)
    ensures
        ({
            let entries = window_entries(window, workspaces);
            &&& entries.len() >= 5
            &&& entries[0].action == ActionView::ActivateWindow(window.id)
            &&& entries[1].action == ActionView::BringIntoViewWindow(window.id)
            &&& entries[2].action == ActionView::MinimizeWindow(window.id)
            &&& entries[3].action == ActionView::ToggleMaximizeWindow(window.id)
            &&& entries[3].label == "Restore"@ <==> window.minimized || window.maximized
            &&& entries[4].action == ActionView::CloseWindow(window.id)
            &&& 0 <= at < workspaces.len() && window.workspace_index != Some(workspaces[at].index)
                ==> exists|place: int|
                5 <= place < entries.len() && (#[trigger] entries[place]).action
                    == ActionView::MoveWindowToWorkspace(window.id, workspaces[at].index)
                    && entries[place].label == "Move to "@ + workspaces[at].label@
            &&& 5 <= at < entries.len() ==> match entries[at].action {
                ActionView::MoveWindowToWorkspace(id, index) => id == window.id
                    && window.workspace_index != Some(index) && exists|place: int|
                    0 <= place < workspaces.len() && (#[trigger] workspaces[place]).index == index,
                _ => false,
            }
        }),
{
    reveal_strlit("Restore");
    reveal_strlit("Maximize");
    let entries = window_entries(window, workspaces);
    let keep = is_elsewhere(window);
    let choices = move_choices(window, workspaces);
    assert("Restore"@.len() != "Maximize"@.len());
    if 0 <= at < workspaces.len() && keep(workspaces[at]) {
        let found = crate::lists::kept_is_found(workspaces, keep, at);
        assert(entries[5 + found] == move_entry(window, workspaces[at]));
    }
    if 5 <= at < entries.len() {
        let place = crate::lists::kept_is_there(workspaces, keep, at - 5);
        assert(entries[at] == move_entry(window, choices[at - 5]));
        assert(workspaces[place] == choices[at - 5]);
    }
}

/// The menu of a workspace closes that workspace; the desktop has no such entry.
pub proof fn workspace_menus_close_their_workspace(index: u32)
    ensures
        workspace_entries(index).len() == 0 <==> index == 0,
        index != 0 ==> workspace_entries(index).len() == 1 && workspace_entries(index)[0].action
            == ActionView::CloseWorkspace(index),
{
}

/// The menu of an application opens it, puts it on the desktop, and pins it or unpins it, whichever it
/// is not yet. Only for a managed AppImage it offers to extract, rename and delete it.
pub proof fn application_menus_act_on_their_application(
    id: Seq<char>,
    pinned: bool,
    managed: bool,
    at: int,
)
    ensures
        ({
            let entries = application_entries(id, pinned, managed);
            let offers = |action: ActionView|
                exists|place: int|
                    0 <= place < entries.len() && (#[trigger] entries[place]).action == action;
            &&& entries[0].action == ActionView::LaunchApplication(id)
            &&& offers(ActionView::AddApplicationDesktopShortcut(id))
            &&& pinned ==> offers(ActionView::UnpinApplication(id))
            &&& !pinned ==> offers(ActionView::PinApplication(id))
            &&& managed ==> offers(ActionView::ExtractApplication(id)) && offers(
                ActionView::ExtractApplicationNoSandbox(id),
            ) && offers(ActionView::RenameApplication(id)) && offers(
                ActionView::DeleteApplication(id),
            )
            &&& entries.len() == if managed {
                7int
            } else {
                3int
            }
            &&& 0 <= at < entries.len() && !managed ==> !(entries[at].action is ExtractApplication)
                && !(entries[at].action is ExtractApplicationNoSandbox) && !(entries[at].action
                is RenameApplication) && !(entries[at].action is DeleteApplication)
            &&& 0 <= at < entries.len() && pinned ==> !(entries[at].action is PinApplication)
            &&& 0 <= at < entries.len() && !pinned ==> !(entries[at].action is UnpinApplication)
        }),
{
    let entries = application_entries(id, pinned, managed);
    let start: int = if managed {
        3
    } else {
        1
    };
    assert(entries[start].action == if pinned {
        ActionView::UnpinApplication(id)
    } else {
        ActionView::PinApplication(id)
    });
    assert(entries[start + 1].action == ActionView::AddApplicationDesktopShortcut(id));
    if managed {
        assert(entries[1].action == ActionView::ExtractApplication(id));
        assert(entries[2].action == ActionView::ExtractApplicationNoSandbox(id));
        assert(entries[5].action == ActionView::RenameApplication(id));
        assert(entries[6].action == ActionView::DeleteApplication(id));
    }
}

/// An action is the same as itself, and as no action of another kind or on another thing; which of
/// two is named first does not matter.
pub proof fn same_actions_ask_for_the_same(left: ActionView, right: ActionView)
    ensures
        same_action(left, left),
        same_action(left, right) == same_action(right, left),
        same_action(left, right) && !(left is OpenDesktopItem) ==> left == right,
        same_action(left, right) && left is OpenDesktopItem ==> right is OpenDesktopItem
            && same_place(left->OpenDesktopItem_0, right->OpenDesktopItem_0)
            && left->OpenDesktopItem_1 == right->OpenDesktopItem_1,
        left == right ==> same_action(left, right),
{
}

} // verus!
