//! What the shell does when a target is hit, a key is pressed or time passes.

use vstd::prelude::*;
use vstd::string::*;
use crate::arith::{max_of, min_of};
use crate::arith::min_usize;
use crate::menus::{context_hidden, dialog_shown, menu_hidden, menu_toggled};
use crate::model::Application;
use crate::model::application_views;
use crate::model::{max_task_offset, ActionView, ApplicationView};
use crate::model::{taskbar_max_offset, ShellAction, TASK_PAGE_STEP};
use crate::paths::from_utf8_lossy;
use crate::paths::{file_name_of, lossy_text, path_views};
use crate::selection::{selected_items, single_selected};
use crate::state::{Chrome, ContextView, EditTargetView, EditView, ShellView};
use crate::state::{
    ClipboardOperation, ClipboardToken, ContextState, EditDialog, EditOperation, ExactToplevel,
    Shell,
};
use crate::text::optional_text;

verus! {

/// How a paste deals with an item that is there already.
#[derive(Debug, Clone, Copy, PartialEq, Eq, Structural)]
pub enum CollisionChoice {
    Replace,
    KeepBoth,
    Cancel,
}

/// What a window is asked to do.
#[derive(Debug, Clone, Copy, PartialEq, Eq, Structural)]
pub enum WindowRequest {
    Focus,
    BringIntoView,
    Minimize,
    ToggleMaximize,
    Close,
    MoveToWorkspace(u32),
}

/// What is left to do outside the shell after a step. Applications and windows are named by their
/// positions in the state.
#[derive(Debug, Clone, Copy, PartialEq, Eq, Structural)]
pub enum Effect {
    Nothing,
    OpenHome,
    OpenShared,
    /// Opens the desktop item that was hit.
    OpenItem,
    LaunchApplication(usize),
    /// Adds a desktop shortcut where there is an application, then reads the desktop again.
    AddShortcut(Option<usize>),
    /// Extracts and runs an AppImage, outside its sandbox where the flag says so.
    Extract(usize, bool),
    /// Pins or unpins the application in the settings.
    SavePin(usize, bool),
    DeleteRegistration(usize),
    OpenSelection,
    PublishClipboard(ClipboardToken),
    ReadClipboard,
    ContinuePaste(CollisionChoice),
    InspectDeletion,
    CommitEdit,
    ConfirmDelete,
    ArrangeIcons,
    AddToApplications,
    Window(WindowRequest, usize),
    MinimizeAll,
    SwitchWorkspace(u32),
    CreateWorkspace,
    CloseWorkspace(u32),
}

/// Where the application `id` stands in `applications`, if it does: the first of that name.
pub open spec fn application_place(applications: Seq<ApplicationView>, id: Seq<char>) -> Option<
    usize,
>
    decreases applications.len(),
{
    if applications.len() == 0 {
        None
    } else {
        match application_place(applications.drop_last(), id) {
            Some(at) => Some(at),
            None => if applications.last().id == id {
                Some((applications.len() - 1) as usize)
            } else {
                None
            },
        }
    }
}

/// Where the window `id` stands in `toplevels`, if it does.
pub open spec fn toplevel_place(toplevels: Seq<ExactToplevel>, id: u32) -> Option<usize>
    decreases toplevels.len(),
{
    if toplevels.len() == 0 {
        None
    } else {
        match toplevel_place(toplevels.drop_last(), id) {
            Some(at) => Some(at),
            None => if toplevels.last().window.id == id {
                Some((toplevels.len() - 1) as usize)
            } else {
                None
            },
        }
    }
}

/// The application found among the first ones is the one found among all of them.
proof fn application_place_first(applications: Seq<ApplicationView>, id: Seq<char>, length: int)
    requires
        0 <= length <= applications.len(),
        application_place(applications.take(length), id) is Some,
    ensures
        application_place(applications, id) == application_place(applications.take(length), id),
    decreases applications.len() - length,
{
    if length < applications.len() {
        assert(applications.take(length + 1).drop_last() =~= applications.take(length));
        application_place_first(applications, id, length + 1);
    } else {
        assert(applications.take(length) =~= applications);
    }
}

/// Where the application `id` stands in a list.
pub fn find_in(applications: &Vec<Application>, id: &String) -> (place: Option<usize>)
    ensures
        place == application_place(application_views(applications@), id@),
        place is Some ==> place->0 < applications@.len() && applications@[place->0 as int].id@
            == id@,
{
    let ghost views = application_views(applications@);
    let count: usize = applications.len();
    let mut at: usize = 0;
    while at < count
        invariant
            at <= count,
            count == applications@.len(),
            views == application_views(applications@),
            application_place(views.take(at as int), id@) is None,
        decreases count - at,
    {
        assert(views.take(at + 1).drop_last() =~= views.take(at as int));
        assert(views[at as int] == applications@[at as int]@);
        if applications[at].id == *id {
            proof {
                application_place_first(views, id@, at + 1);
            }
            return Some(at);
        }
        at = at + 1;
    }
    assert(views.take(views.len() as int) =~= views);
    None
}

/// The window found among the first ones is the one found among all of them.
proof fn toplevel_place_first(toplevels: Seq<ExactToplevel>, id: u32, length: int)
    requires
        0 <= length <= toplevels.len(),
        toplevel_place(toplevels.take(length), id) is Some,
    ensures
        toplevel_place(toplevels, id) == toplevel_place(toplevels.take(length), id),
    decreases toplevels.len() - length,
{
    if length < toplevels.len() {
        assert(toplevels.take(length + 1).drop_last() =~= toplevels.take(length));
        toplevel_place_first(toplevels, id, length + 1);
    } else {
        assert(toplevels.take(length) =~= toplevels);
    }
}

/// The registration that the application `id` launches, with its place, where it is managed.
pub open spec fn managed_place(shell: ShellView, id: Seq<char>) -> Option<usize> {
    match application_place(shell.applications, id) {
        Some(at) => if shell.registrations[at as int] is Some {
            Some(at)
        } else {
            None
        },
        None => None,
    }
}

/// What is wrong with an application that is not a managed AppImage.
pub open spec fn unmanaged_detail(shell: ShellView, id: Seq<char>) -> Seq<char> {
    if application_place(shell.applications, id) is None {
        "application no longer exists"@
    } else {
        "application is not a managed AppImage"@
    }
}

/// The state with an error shown.
pub open spec fn error_shown(shell: ShellView, title: Seq<char>, detail: Seq<char>) -> ShellView {
    dialog_shown(shell, ContextView::Error(title, detail))
}

/// An edit dialog as it opens.
pub open spec fn fresh_edit(operation: EditTargetView, input: Seq<char>) -> ContextView {
    ContextView::Edit(EditView { operation, input, replace_on_type: true, error: None })
}

/// The text that stands for the name of the file at `path` in a field.
pub open spec fn name_text(path: Seq<u8>) -> Seq<char> {
    match file_name_of(path) {
        Some(name) => lossy_text(name),
        None => Seq::empty(),
    }
}

/// The state and the effect of extracting an application.
pub open spec fn extracted(shell: ShellView, id: Seq<char>, no_sandbox: bool) -> (
    ShellView,
    Effect,
) {
    match managed_place(shell, id) {
        Some(at) => (shell, Effect::Extract(at, no_sandbox)),
        None => (
            error_shown(
                shell,
                "Could not extract and run AppImage"@,
                unmanaged_detail(shell, id),
            ),
            Effect::Nothing,
        ),
    }
}

/// The state and the effect of pinning an application, or unpinning it.
pub open spec fn pinning(shell: ShellView, id: Seq<char>, pinned: bool) -> (ShellView, Effect) {
    match application_place(shell.applications, id) {
        Some(at) => (shell, Effect::SavePin(at, pinned)),
        None => (
            error_shown(
                shell,
                if pinned {
                    "Could not pin application"@
                } else {
                    "Could not unpin application"@
                },
                "application no longer exists"@,
            ),
            Effect::Nothing,
        ),
    }
}

/// The state and the effect of putting the selection on the clipboard.
pub open spec fn clipboard_taken(shell: ShellView, operation: ClipboardOperation) -> (
    ShellView,
    Effect,
) {
    if selected_items(shell).len() == 0 {
        (shell, Effect::Nothing)
    } else {
        let generation = if shell.chrome.clipboard_generation == u64::MAX {
            u64::MAX
        } else {
            (shell.chrome.clipboard_generation + 1) as u64
        };
        (
            ShellView {
                chrome: Chrome { clipboard_generation: generation, ..shell.chrome },
                ..shell
            },
            Effect::PublishClipboard(ClipboardToken { schema: 1, generation, operation }),
        )
    }
}

/// The state and the effect of asking the window `id` for something.
pub open spec fn window_asked(shell: ShellView, id: u32, request: WindowRequest) -> (
    ShellView,
    Effect,
) {
    (
        menu_hidden(shell),
        match toplevel_place(shell.toplevels, id) {
            Some(at) => Effect::Window(request, at),
            None => Effect::Nothing,
        },
    )
}

/// The state with the window buttons scrolled to `offset`.
pub open spec fn tasks_scrolled(shell: ShellView, offset: int) -> ShellView {
    ShellView {
        chrome: Chrome { task_offset: offset as usize, dirty: true, ..shell.chrome },
        ..shell
    }
}

/// The state and the effect of hitting a target of the applications menus.
#[verifier::opaque]
pub open spec fn application_activated(shell: ShellView, action: ActionView) -> (
    ShellView,
    Effect,
) {
    match action {
        ActionView::LaunchApplication(id) => (
            menu_hidden(shell),
            match application_place(shell.applications, id) {
                Some(at) => Effect::LaunchApplication(at),
                None => Effect::Nothing,
            },
        ),
        ActionView::AddApplicationDesktopShortcut(id) => (
            context_hidden(shell),
            Effect::AddShortcut(application_place(shell.applications, id)),
        ),
        ActionView::ExtractApplication(id) => extracted(shell, id, false),
        ActionView::ExtractApplicationNoSandbox(id) => extracted(shell, id, true),
        ActionView::PinApplication(id) => pinning(shell, id, true),
        ActionView::UnpinApplication(id) => pinning(shell, id, false),
        ActionView::RenameApplication(id) => (
            match managed_place(shell, id) {
                Some(at) => dialog_shown(
                    shell,
                    fresh_edit(
                        EditTargetView::RenameApplication(shell.registrations[at as int]->0),
                        shell.applications[at as int].name,
                    ),
                ),
                None => shell,
            },
            Effect::Nothing,
        ),
        ActionView::DeleteApplication(id) => match managed_place(shell, id) {
            Some(at) => (shell, Effect::DeleteRegistration(at)),
            None => (
                error_shown(
                    shell,
                    "Could not delete from Applications"@,
                    unmanaged_detail(shell, id),
                ),
                Effect::Nothing,
            ),
        },
        _ => (shell, Effect::Nothing),
    }
}

/// The state and the effect of hitting a target of the desktop menus and dialogs.
#[verifier::opaque]
pub open spec fn desktop_activated(shell: ShellView, action: ActionView) -> (ShellView, Effect) {
    match action {
        ActionView::DesktopOpenSelection => (shell, Effect::OpenSelection),
        ActionView::DesktopCut => clipboard_taken(shell, ClipboardOperation::Cut),
        ActionView::DesktopCopy => clipboard_taken(shell, ClipboardOperation::Copy),
        ActionView::DesktopPaste => (shell, Effect::ReadClipboard),
        ActionView::DesktopRename => (rename_begun(shell), Effect::Nothing),
        ActionView::DesktopDelete => (shell, deletion_begun(shell)),
        ActionView::DesktopNewFolder => (
            dialog_shown(shell, fresh_edit(EditTargetView::NewFolder, "New Folder"@)),
            Effect::Nothing,
        ),
        ActionView::DesktopArrangeIcons => (shell, Effect::ArrangeIcons),
        ActionView::DesktopAddToApplications => (
            shell,
            if single_selected(shell) is Some {
                Effect::AddToApplications
            } else {
                Effect::Nothing
            },
        ),
        ActionView::DesktopEditConfirm => (
            shell,
            if shell.context is Edit {
                Effect::CommitEdit
            } else {
                Effect::Nothing
            },
        ),
        ActionView::DesktopDeleteConfirm => (
            shell,
            if shell.context is Delete {
                Effect::ConfirmDelete
            } else {
                Effect::Nothing
            },
        ),
        ActionView::DesktopCollisionReplace => (
            shell,
            if shell.context is Collision {
                Effect::ContinuePaste(CollisionChoice::Replace)
            } else {
                Effect::Nothing
            },
        ),
        ActionView::DesktopCollisionKeepBoth => (
            shell,
            if shell.context is Collision {
                Effect::ContinuePaste(CollisionChoice::KeepBoth)
            } else {
                Effect::Nothing
            },
        ),
        ActionView::DesktopCollisionCancel | ActionView::DismissContext => (
            context_hidden(shell),
            Effect::Nothing,
        ),
        _ => (shell, Effect::Nothing),
    }
}

/// The state with a dialog to rename the only selected item.
pub open spec fn rename_begun(shell: ShellView) -> ShellView {
    match single_selected(shell) {
        Some(path) => dialog_shown(
            shell,
            fresh_edit(EditTargetView::Rename(path), name_text(path)),
        ),
        None => shell,
    }
}

/// The effect of asking to delete the selection.
pub open spec fn deletion_begun(shell: ShellView) -> Effect {
    if selected_items(shell).len() == 0 {
        Effect::Nothing
    } else {
        Effect::InspectDeletion
    }
}

/// The state and the effect of hitting a target that acts on windows and workspaces.
#[verifier::opaque]
pub open spec fn window_activated(shell: ShellView, action: ActionView) -> (ShellView, Effect) {
    match action {
        ActionView::ActivateWindow(id) => window_asked(shell, id, WindowRequest::Focus),
        ActionView::BringIntoViewWindow(id) => window_asked(
            shell,
            id,
            WindowRequest::BringIntoView,
        ),
        ActionView::MinimizeWindow(id) => window_asked(shell, id, WindowRequest::Minimize),
        ActionView::ToggleMaximizeWindow(id) => window_asked(
            shell,
            id,
            WindowRequest::ToggleMaximize,
        ),
        ActionView::CloseWindow(id) => window_asked(shell, id, WindowRequest::Close),
        ActionView::MoveWindowToWorkspace(id, index) => window_asked(
            shell,
            id,
            WindowRequest::MoveToWorkspace(index),
        ),
        ActionView::SwitchWorkspace(index) => (menu_hidden(shell), Effect::SwitchWorkspace(index)),
        ActionView::CreateWorkspace => (menu_hidden(shell), Effect::CreateWorkspace),
        ActionView::CloseWorkspace(index) => (menu_hidden(shell), Effect::CloseWorkspace(index)),
        ActionView::TaskbarPrevious => (
            tasks_scrolled(shell, max_of(shell.chrome.task_offset - TASK_PAGE_STEP, 0)),
            Effect::Nothing,
        ),
        ActionView::TaskbarNext => (
            tasks_scrolled(
                shell,
                min_of(
                    shell.chrome.task_offset + TASK_PAGE_STEP,
                    max_task_offset(
                        shell.chrome.look.panel_size.0,
                        shell.toplevels.len(),
                        shell.chrome.look.capped_task_buttons,
                    ),
                ),
            ),
            Effect::Nothing,
        ),
        ActionView::ShowDesktop => (menu_hidden(shell), Effect::MinimizeAll),
        _ => (shell, Effect::Nothing),
    }
}

/// The state and the effect of hitting a target.
#[verifier::opaque]
pub open spec fn activated(shell: ShellView, action: ActionView) -> (ShellView, Effect) {
    match action {
        ActionView::ToggleApplications => (menu_toggled(shell), Effect::Nothing),
        ActionView::OpenFiles => (menu_hidden(shell), Effect::OpenHome),
        ActionView::OpenShared => (menu_hidden(shell), Effect::OpenShared),
        ActionView::OpenDesktopItem(_, _) => (menu_hidden(shell), Effect::OpenItem),
        ActionView::CloseApplicationsMenu => (menu_hidden(shell), Effect::Nothing),
        ActionView::LaunchApplication(_)
        | ActionView::AddApplicationDesktopShortcut(_)
        | ActionView::ExtractApplication(_)
        | ActionView::ExtractApplicationNoSandbox(_)
        | ActionView::PinApplication(_)
        | ActionView::UnpinApplication(_)
        | ActionView::RenameApplication(_)
        | ActionView::DeleteApplication(_) => application_activated(shell, action),
        ActionView::DesktopOpenSelection
        | ActionView::DesktopCut
        | ActionView::DesktopCopy
        | ActionView::DesktopPaste
        | ActionView::DesktopRename
        | ActionView::DesktopDelete
        | ActionView::DesktopNewFolder
        | ActionView::DesktopArrangeIcons
        | ActionView::DesktopAddToApplications
        | ActionView::DesktopEditConfirm
        | ActionView::DesktopDeleteConfirm
        | ActionView::DesktopCollisionReplace
        | ActionView::DesktopCollisionKeepBoth
        | ActionView::DesktopCollisionCancel
        | ActionView::DismissContext => desktop_activated(shell, action),
        _ => window_activated(shell, action),
    }
}

impl Shell {
    /// Where the application `id` stands.
    pub fn find_application(&self, id: &String) -> (place: Option<usize>)
        ensures
            place == application_place(self@.applications, id@),
            place is Some ==> place->0 < self.applications@.len() && self.applications@[place->0 as int].id@ == id@,
    {
        find_in(&self.applications, id)
    }

    /// Where the window `id` stands.
    pub fn find_toplevel(&self, id: u32) -> (place: Option<usize>)
        ensures
            place == toplevel_place(self@.toplevels, id),
            place is Some ==> place->0 < self.toplevels@.len() && self.toplevels@[place->0 as int].window.id == id,
    {
        let ghost views = self.toplevels@;
        let count: usize = self.toplevels.len();
        let mut at: usize = 0;
        while at < count
            invariant
                at <= count,
                count == self.toplevels@.len(),
                views == self.toplevels@,
                toplevel_place(views.take(at as int), id) is None,
            decreases count - at,
        {
            assert(views.take(at + 1).drop_last() =~= views.take(at as int));
            if self.toplevels[at].window.id == id {
                proof {
                    toplevel_place_first(views, id, at + 1);
                }
                return Some(at);
            }
            at = at + 1;
        }
        assert(views.take(views.len() as int) =~= views);
        None
    }

    /// Where the managed application `id` stands, or what is wrong with it.
    fn find_managed(&self, id: &String) -> (place: Result<usize, String>)
        requires
            self.valid(),
        ensures
            match place {
                Ok(at) => managed_place(self@, id@) == Some(at) && at < self.applications@.len()
                    && at < self.registrations@.len(),
                Err(detail) => managed_place(self@, id@) is None && detail@ == unmanaged_detail(
                    self@,
                    id@,
                ),
            },
    {
        assert(self@.registrations.len() == self.registrations@.len());
        assert(self@.applications.len() == self.applications@.len());
        match self.find_application(id) {
            None => Err("application no longer exists".to_owned()),
            Some(at) => {
                assert(self@.registrations[at as int] == optional_text(
                    self.registrations@[at as int],
                ));
                if self.registrations[at].is_some() {
                    Ok(at)
                } else {
                    Err("application is not a managed AppImage".to_owned())
                }
            },
        }
    }

    /// Shows that an operation failed.
    pub fn show_operation_error(&mut self, title: &str, detail: String)
        ensures
            final(self)@ == error_shown(old(self)@, title@, detail@),
            old(self).valid() ==> final(self).valid(),
    {
        self.show_dialog(ContextState::Error { title: title.to_owned(), detail });
    }

    /// Opens a dialog for a name.
    fn begin_edit(&mut self, operation: EditOperation, input: String)
        ensures
            final(self)@ == dialog_shown(old(self)@, fresh_edit(operation@, input@)),
            old(self).valid() ==> final(self).valid(),
    {
        self.show_dialog(
            ContextState::Edit(
                EditDialog { operation, input, replace_on_type: true, error: None },
            ),
        );
    }

    /// Opens a dialog to rename the only selected item.
    pub fn begin_rename(&mut self)
        ensures
            final(self)@ == rename_begun(old(self)@),
            old(self).valid() ==> final(self).valid(),
    {
        if let Some(path) = self.single_selected_path() {
            let input = match path.file_name() {
                Some(name) => from_utf8_lossy(name.as_slice()),
                None => String::new(),
            };
            assert(input@ =~= name_text(path@));
            self.begin_edit(EditOperation::Rename(path), input);
        }
    }

    /// What asking to delete the selection leaves to do.
    pub fn begin_delete(&self) -> (effect: Effect)
        ensures
            effect == deletion_begun(self@),
    {
        let items = self.selected_paths();
        assert(path_views(items@).len() == items@.len());
        if items.len() == 0 {
            Effect::Nothing
        } else {
            Effect::InspectDeletion
        }
    }

    /// Puts the selection on the clipboard: the token goes out, the paths stay here.
    pub fn copy_selection_to_clipboard(&mut self, operation: ClipboardOperation) -> (effect: Effect)
        ensures
            (final(self)@, effect) == clipboard_taken(old(self)@, operation),
            old(self).valid() ==> final(self).valid(),
    {
        let sources = self.selected_paths();
        assert(path_views(sources@).len() == sources@.len());
        if sources.len() == 0 {
            return Effect::Nothing;
        }
        let generation: u64 = self.chrome.clipboard_generation.saturating_add(1);
        let mut chrome = self.chrome;
        chrome.clipboard_generation = generation;
        self.set_chrome(chrome);
        Effect::PublishClipboard(ClipboardToken { schema: 1, generation, operation })
    }

    /// Begins to extract the application `id`.
    fn extract_application(&mut self, id: &String, no_sandbox: bool) -> (effect: Effect)
        requires
            old(self).valid(),
        ensures
            (final(self)@, effect) == extracted(old(self)@, id@, no_sandbox),
            final(self).valid(),
    {
        match self.find_managed(id) {
            Ok(at) => Effect::Extract(at, no_sandbox),
            Err(detail) => {
                self.show_operation_error("Could not extract and run AppImage", detail);
                Effect::Nothing
            },
        }
    }

    /// Begins to pin the application `id`, or to unpin it.
    fn pin_application(&mut self, id: &String, pinned: bool) -> (effect: Effect)
        requires
            old(self).valid(),
        ensures
            (final(self)@, effect) == pinning(old(self)@, id@, pinned),
            final(self).valid(),
    {
        match self.find_application(id) {
            Some(at) => Effect::SavePin(at, pinned),
            None => {
                let title = if pinned {
                    "Could not pin application"
                } else {
                    "Could not unpin application"
                };
                self.show_operation_error(title, "application no longer exists".to_owned());
                Effect::Nothing
            },
        }
    }

    /// Opens a dialog to rename the managed application `id`.
    fn begin_application_rename(&mut self, id: &String)
        requires
            old(self).valid(),
        ensures
            final(self)@ == application_activated(
                old(self)@,
                ActionView::RenameApplication(id@),
            ).0,
            final(self).valid(),
    {
        reveal(application_activated);
        if let Ok(at) = self.find_managed(id) {
            assert(self@.registrations[at as int] == optional_text(self.registrations@[at as int]));
            assert(self@.applications[at as int] == self.applications@[at as int]@);
            let input = self.applications[at].name.clone();
            let registration = match &self.registrations[at] {
                Some(registration) => registration.clone(),
                None => String::new(),
            };
            self.begin_edit(EditOperation::RenameApplication(registration), input);
        }
    }

    /// Hits a target of the applications menus.
    fn activate_application(&mut self, action: &ShellAction) -> (effect: Effect)
        requires
            old(self).valid(),
        ensures
            (final(self)@, effect) == application_activated(old(self)@, action@),
            final(self).valid(),
    {
        reveal(application_activated);
        match action {
            ShellAction::LaunchApplication(id) => {
                let place = self.find_application(id);
                self.hide_menu();
                match place {
                    Some(at) => Effect::LaunchApplication(at),
                    None => Effect::Nothing,
                }
            },
            ShellAction::AddApplicationDesktopShortcut(id) => {
                let place = self.find_application(id);
                self.hide_context();
                Effect::AddShortcut(place)
            },
            ShellAction::ExtractApplication(id) => self.extract_application(id, false),
            ShellAction::ExtractApplicationNoSandbox(id) => self.extract_application(id, true),
            ShellAction::PinApplication(id) => self.pin_application(id, true),
            ShellAction::UnpinApplication(id) => self.pin_application(id, false),
            ShellAction::RenameApplication(id) => {
                self.begin_application_rename(id);
                Effect::Nothing
            },
            ShellAction::DeleteApplication(id) => match self.find_managed(id) {
                Ok(at) => Effect::DeleteRegistration(at),
                Err(detail) => {
                    self.show_operation_error("Could not delete from Applications", detail);
                    Effect::Nothing
                },
            },
            _ => Effect::Nothing,
        }
    }

    /// Hits a target of the desktop menus and dialogs.
    fn activate_desktop(&mut self, action: &ShellAction) -> (effect: Effect)
        requires
            old(self).valid(),
        ensures
            (final(self)@, effect) == desktop_activated(old(self)@, action@),
            final(self).valid(),
    {
        reveal(desktop_activated);
        match action {
            ShellAction::DesktopOpenSelection => Effect::OpenSelection,
            ShellAction::DesktopCut => self.copy_selection_to_clipboard(ClipboardOperation::Cut),
            ShellAction::DesktopCopy => self.copy_selection_to_clipboard(ClipboardOperation::Copy),
            ShellAction::DesktopPaste => Effect::ReadClipboard,
            ShellAction::DesktopRename => {
                self.begin_rename();
                Effect::Nothing
            },
            ShellAction::DesktopDelete => self.begin_delete(),
            ShellAction::DesktopNewFolder => {
                self.begin_edit(EditOperation::NewFolder, "New Folder".to_owned());
                Effect::Nothing
            },
            ShellAction::DesktopArrangeIcons => Effect::ArrangeIcons,
            ShellAction::DesktopAddToApplications => {
                if self.selection.len() == 1 {
                    Effect::AddToApplications
                } else {
                    Effect::Nothing
                }
            },
            ShellAction::DesktopEditConfirm => {
                if matches!(self.context, ContextState::Edit(_)) {
                    Effect::CommitEdit
                } else {
                    Effect::Nothing
                }
            },
            ShellAction::DesktopDeleteConfirm => {
                if matches!(self.context, ContextState::Delete(_)) {
                    Effect::ConfirmDelete
                } else {
                    Effect::Nothing
                }
            },
            ShellAction::DesktopCollisionReplace => self.collision_choice(CollisionChoice::Replace),
            ShellAction::DesktopCollisionKeepBoth => self.collision_choice(
                CollisionChoice::KeepBoth,
            ),
            ShellAction::DesktopCollisionCancel | ShellAction::DismissContext => {
                self.hide_context();
                Effect::Nothing
            },
            _ => Effect::Nothing,
        }
    }

    /// Goes on with the paste that waits for a choice, if one does.
    fn collision_choice(&self, choice: CollisionChoice) -> (effect: Effect)
        ensures
            effect == (if self@.context is Collision {
                Effect::ContinuePaste(choice)
            } else {
                Effect::Nothing
            }),
    {
        if matches!(self.context, ContextState::Collision(_)) {
            Effect::ContinuePaste(choice)
        } else {
            Effect::Nothing
        }
    }

    /// Asks the window `id` for something and hides the menus.
    fn ask_window(&mut self, id: u32, request: WindowRequest) -> (effect: Effect)
        requires
            old(self).valid(),
        ensures
            (final(self)@, effect) == window_asked(old(self)@, id, request),
            final(self).valid(),
    {
        let place = self.find_toplevel(id);
        self.hide_menu();
        match place {
            Some(at) => Effect::Window(request, at),
            None => Effect::Nothing,
        }
    }

    /// Scrolls the window buttons to `offset`.
    fn scroll_tasks(&mut self, offset: usize)
        ensures
            final(self)@ == tasks_scrolled(old(self)@, offset as int),
            old(self).valid() ==> final(self).valid(),
    {
        let mut chrome = self.chrome;
        chrome.task_offset = offset;
        chrome.dirty = true;
        self.set_chrome(chrome);
    }

    /// Hits a target that acts on windows and workspaces.
    fn activate_window(&mut self, action: &ShellAction) -> (effect: Effect)
        requires
            old(self).valid(),
        ensures
            (final(self)@, effect) == window_activated(old(self)@, action@),
            final(self).valid(),
    {
        reveal(window_activated);
        match action {
            ShellAction::ActivateWindow(id) => self.ask_window(*id, WindowRequest::Focus),
            ShellAction::BringIntoViewWindow(id) => self.ask_window(
                *id,
                WindowRequest::BringIntoView,
            ),
            ShellAction::MinimizeWindow(id) => self.ask_window(*id, WindowRequest::Minimize),
            ShellAction::ToggleMaximizeWindow(id) => self.ask_window(
                *id,
                WindowRequest::ToggleMaximize,
            ),
            ShellAction::CloseWindow(id) => self.ask_window(*id, WindowRequest::Close),
            ShellAction::MoveWindowToWorkspace { window_id, workspace_index } => self.ask_window(
                *window_id,
                WindowRequest::MoveToWorkspace(*workspace_index),
            ),
            ShellAction::SwitchWorkspace(index) => {
                self.hide_menu();
                Effect::SwitchWorkspace(*index)
            },
            ShellAction::CreateWorkspace => {
                self.hide_menu();
                Effect::CreateWorkspace
            },
            ShellAction::CloseWorkspace(index) => {
                self.hide_menu();
                Effect::CloseWorkspace(*index)
            },
            ShellAction::TaskbarPrevious => {
                let offset: usize = self.chrome.task_offset.saturating_sub(TASK_PAGE_STEP);
                self.scroll_tasks(offset);
                Effect::Nothing
            },
            ShellAction::TaskbarNext => {
                let limit: usize = taskbar_max_offset(
                    self.chrome.look.panel_size.0,
                    self.toplevels.len(),
                    self.chrome.look.capped_task_buttons,
                );
                let offset: usize = min_usize(
                    self.chrome.task_offset.saturating_add(TASK_PAGE_STEP),
                    limit,
                );
                self.scroll_tasks(offset);
                Effect::Nothing
            },
            ShellAction::ShowDesktop => {
                self.hide_menu();
                Effect::MinimizeAll
            },
            _ => Effect::Nothing,
        }
    }

    /// Does what hitting a target asks for, and says what is left to do outside the shell.
    pub fn activate(&mut self, action: &ShellAction) -> (effect: Effect)
        requires
            old(self).valid(),
        ensures
            (final(self)@, effect) == activated(old(self)@, action@),
            final(self).valid(),
    {
        reveal(activated);
        match action {
            ShellAction::ToggleApplications => {
                self.toggle_menu();
                Effect::Nothing
            },
            ShellAction::OpenFiles => {
                self.hide_menu();
                Effect::OpenHome
            },
            ShellAction::OpenShared => {
                self.hide_menu();
                Effect::OpenShared
            },
            ShellAction::OpenDesktopItem(_, _) => {
                self.hide_menu();
                Effect::OpenItem
            },
            ShellAction::CloseApplicationsMenu => {
                self.hide_menu();
                Effect::Nothing
            },
            ShellAction::LaunchApplication(_)
            | ShellAction::AddApplicationDesktopShortcut(_)
            | ShellAction::ExtractApplication(_)
            | ShellAction::ExtractApplicationNoSandbox(_)
            | ShellAction::PinApplication(_)
            | ShellAction::UnpinApplication(_)
            | ShellAction::RenameApplication(_)
            | ShellAction::DeleteApplication(_) => self.activate_application(action),
            ShellAction::DesktopOpenSelection
            | ShellAction::DesktopCut
            | ShellAction::DesktopCopy
            | ShellAction::DesktopPaste
            | ShellAction::DesktopRename
            | ShellAction::DesktopDelete
            | ShellAction::DesktopNewFolder
            | ShellAction::DesktopArrangeIcons
            | ShellAction::DesktopAddToApplications
            | ShellAction::DesktopEditConfirm
            | ShellAction::DesktopDeleteConfirm
            | ShellAction::DesktopCollisionReplace
            | ShellAction::DesktopCollisionKeepBoth
            | ShellAction::DesktopCollisionCancel
            | ShellAction::DismissContext => self.activate_desktop(action),
            _ => self.activate_window(action),
        }
    }
}

/// A window is found by its identity and an application by its name: the first one that has it, and
/// none where none has.
pub proof fn windows_and_applications_are_found(
    toplevels: Seq<ExactToplevel>,
    window: u32,
    applications: Seq<ApplicationView>,
    id: Seq<char>,
)
    requires
        toplevels.len() <= usize::MAX,
        applications.len() <= usize::MAX,
    ensures
        match toplevel_place(toplevels, window) {
            Some(at) => at < toplevels.len() && toplevels[at as int].window.id == window && forall|
                earlier: int,
            |
                0 <= earlier < at ==> (#[trigger] toplevels[earlier]).window.id != window,
            None => forall|at: int|
                0 <= at < toplevels.len() ==> (#[trigger] toplevels[at]).window.id != window,
        },
        match application_place(applications, id) {
            Some(at) => at < applications.len() && applications[at as int].id == id && forall|
                earlier: int,
            |
                0 <= earlier < at ==> (#[trigger] applications[earlier]).id != id,
            None => forall|at: int|
                0 <= at < applications.len() ==> (#[trigger] applications[at]).id != id,
        },
    decreases toplevels.len() + applications.len(),
{
    if toplevels.len() > 0 {
        let front = toplevels.drop_last();
        windows_and_applications_are_found(front, window, Seq::empty(), id);
        assert(forall|at: int| 0 <= at < front.len() ==> front[at] == #[trigger] toplevels[at]);
    }
    if applications.len() > 0 {
        let front = applications.drop_last();
        windows_and_applications_are_found(Seq::empty(), window, front, id);
        assert(forall|at: int| 0 <= at < front.len() ==> front[at] == #[trigger] applications[at]);
    }
}

/// Whether an action asks the window `id` for something, or for nothing where there is no such
/// window, and closes the menus.
pub open spec fn asks_window(
    shell: ShellView,
    action: ActionView,
    id: u32,
    request: WindowRequest,
) -> bool {
    let (after, effect) = activated(shell, action);
    &&& !after.chrome.menu.menu_open
    &&& after.context is Hidden
    &&& after.toplevels == shell.toplevels
    &&& effect == Effect::Nothing ==> forall|at: int|
        0 <= at < shell.toplevels.len() ==> (#[trigger] shell.toplevels[at]).window.id != id
    &&& effect != Effect::Nothing ==> exists|at: int|
        0 <= at < shell.toplevels.len() && (#[trigger] shell.toplevels[at]).window.id == id
            && effect == Effect::Window(request, at as usize)
}

/// What a window is asked for is what was clicked, of the very window that it was clicked for, and of
/// none where that is gone. The menus close.
pub proof fn windows_are_asked_for_what_was_clicked(shell: ShellView, id: u32, index: u32)
    requires
        shell.toplevels.len() <= usize::MAX,
    ensures
        asks_window(shell, ActionView::ActivateWindow(id), id, WindowRequest::Focus),
        asks_window(shell, ActionView::BringIntoViewWindow(id), id, WindowRequest::BringIntoView),
        asks_window(shell, ActionView::MinimizeWindow(id), id, WindowRequest::Minimize),
        asks_window(shell, ActionView::ToggleMaximizeWindow(id), id, WindowRequest::ToggleMaximize),
        asks_window(shell, ActionView::CloseWindow(id), id, WindowRequest::Close),
        asks_window(
            shell,
            ActionView::MoveWindowToWorkspace(id, index),
            id,
            WindowRequest::MoveToWorkspace(index),
        ),
{
    reveal(activated);
    reveal(window_activated);
    reveal(menu_hidden);
    reveal(context_hidden);
    windows_and_applications_are_found(shell.toplevels, id, Seq::empty(), Seq::empty());
    if let Some(at) = toplevel_place(shell.toplevels, id) {
        assert(shell.toplevels[at as int].window.id == id);
    }
}

/// Buttons of workspaces act on the workspace that they name, the one for the desktop hides all
/// windows, and each closes the menus. The buttons beside the windows scroll them by a page, within
/// their bounds.
pub proof fn panel_buttons_do_what_they_say(shell: ShellView, index: u32)
    ensures
        activated(shell, ActionView::SwitchWorkspace(index)).1 == Effect::SwitchWorkspace(index),
        activated(shell, ActionView::CloseWorkspace(index)).1 == Effect::CloseWorkspace(index),
        activated(shell, ActionView::CreateWorkspace).1 == Effect::CreateWorkspace,
        activated(shell, ActionView::ShowDesktop).1 == Effect::MinimizeAll,
        activated(shell, ActionView::OpenFiles).1 == Effect::OpenHome,
        activated(shell, ActionView::OpenShared).1 == Effect::OpenShared,
        !activated(shell, ActionView::SwitchWorkspace(index)).0.chrome.menu.menu_open,
        !activated(shell, ActionView::ShowDesktop).0.chrome.menu.menu_open,
        !activated(shell, ActionView::OpenFiles).0.chrome.menu.menu_open,
        !activated(shell, ActionView::CloseApplicationsMenu).0.chrome.menu.menu_open,
        activated(shell, ActionView::CloseApplicationsMenu).1 == Effect::Nothing,
        activated(shell, ActionView::TaskbarPrevious).1 == Effect::Nothing,
        activated(shell, ActionView::TaskbarNext).1 == Effect::Nothing,
        activated(shell, ActionView::TaskbarPrevious).0.chrome.task_offset
            <= shell.chrome.task_offset,
        shell.chrome.task_offset >= TASK_PAGE_STEP ==> activated(
            shell,
            ActionView::TaskbarPrevious,
        ).0.chrome.task_offset == shell.chrome.task_offset - TASK_PAGE_STEP,
        ({
            let limit = max_task_offset(
                shell.chrome.look.panel_size.0,
                shell.toplevels.len(),
                shell.chrome.look.capped_task_buttons,
            );
            let next = activated(shell, ActionView::TaskbarNext).0.chrome.task_offset;
            &&& shell.chrome.task_offset + TASK_PAGE_STEP <= limit && shell.chrome.task_offset
                + TASK_PAGE_STEP <= usize::MAX ==> next == shell.chrome.task_offset
                + TASK_PAGE_STEP
            &&& shell.chrome.task_offset + TASK_PAGE_STEP > limit && limit <= usize::MAX ==> next
                == limit
        }),
{
    reveal(activated);
    reveal(window_activated);
    reveal(menu_hidden);
    reveal(context_hidden);
}

/// An entry of the menus of applications acts on the application that it names: it is launched, put
/// on the desktop, pinned or unpinned. Only a managed AppImage is extracted, renamed or deleted, with
/// or without its sandbox as the entry says, and for another one nothing of that happens.
pub proof fn entries_act_on_their_application(shell: ShellView, id: Seq<char>)
    requires
        shell.applications.len() <= usize::MAX,
    ensures
        ({
            let there = application_place(shell.applications, id) is Some;
            let is_it = |at: usize|
                at < shell.applications.len() && shell.applications[at as int].id == id;
            let managed = |at: usize| is_it(at) && shell.registrations[at as int] is Some;
            &&& match activated(shell, ActionView::LaunchApplication(id)).1 {
                Effect::LaunchApplication(at) => is_it(at),
                effect => effect == Effect::Nothing && !there,
            }
            &&& match activated(shell, ActionView::AddApplicationDesktopShortcut(id)).1 {
                Effect::AddShortcut(Some(at)) => is_it(at),
                effect => effect == Effect::AddShortcut(None) && !there,
            }
            &&& match activated(shell, ActionView::PinApplication(id)).1 {
                Effect::SavePin(at, pinned) => is_it(at) && pinned,
                effect => effect == Effect::Nothing && !there,
            }
            &&& match activated(shell, ActionView::UnpinApplication(id)).1 {
                Effect::SavePin(at, pinned) => is_it(at) && !pinned,
                effect => effect == Effect::Nothing && !there,
            }
            &&& match activated(shell, ActionView::ExtractApplication(id)).1 {
                Effect::Extract(at, no_sandbox) => managed(at) && !no_sandbox,
                effect => effect == Effect::Nothing,
            }
            &&& match activated(shell, ActionView::ExtractApplicationNoSandbox(id)).1 {
                Effect::Extract(at, no_sandbox) => managed(at) && no_sandbox,
                effect => effect == Effect::Nothing,
            }
            &&& match activated(shell, ActionView::DeleteApplication(id)).1 {
                Effect::DeleteRegistration(at) => managed(at),
                effect => effect == Effect::Nothing,
            }
            &&& managed_place(shell, id) is Some ==> activated(
                shell,
                ActionView::ExtractApplication(id),
            ).1 is Extract && activated(shell, ActionView::DeleteApplication(id)).1
                is DeleteRegistration
            &&& managed_place(shell, id) is None ==> activated(
                shell,
                ActionView::DeleteApplication(id),
            ).0.context is Error && activated(shell, ActionView::RenameApplication(id)).0 == shell
            &&& match managed_place(shell, id) {
                Some(at) => managed(at) && match activated(
                    shell,
                    ActionView::RenameApplication(id),
                ).0.context {
                    ContextView::Edit(edit) => edit.operation == EditTargetView::RenameApplication(
                        shell.registrations[at as int]->0,
                    ) && edit.input == shell.applications[at as int].name,
                    _ => false,
                },
                None => true,
            }
        }),
{
    reveal(activated);
    reveal(application_activated);
    reveal(menu_hidden);
    reveal(context_hidden);
    reveal(crate::menus::context_shown);
    windows_and_applications_are_found(Seq::empty(), 0, shell.applications, id);
}

/// The entries of the menus and dialogs of the desktop act on the selection and on the dialog that is
/// open: what is cut or copied goes out under a token of its own and of the right kind, nothing is
/// taken, renamed or deleted where nothing is selected, and a dialog is confirmed only where it is
/// open. A cancelled dialog closes without effect.
pub proof fn desktop_entries_act_on_the_selection(shell: ShellView)
    ensures
        match activated(shell, ActionView::DesktopCut).1 {
            Effect::PublishClipboard(token) => selected_items(shell).len() > 0 && token.operation
                == ClipboardOperation::Cut && token.schema == 1 && token.generation == activated(
                shell,
                ActionView::DesktopCut,
            ).0.chrome.clipboard_generation && (shell.chrome.clipboard_generation < u64::MAX
                ==> token.generation > shell.chrome.clipboard_generation),
            effect => effect == Effect::Nothing && selected_items(shell).len() == 0,
        },
        match activated(shell, ActionView::DesktopCopy).1 {
            Effect::PublishClipboard(token) => selected_items(shell).len() > 0 && token.operation
                == ClipboardOperation::Copy && token.schema == 1 && (
            shell.chrome.clipboard_generation < u64::MAX ==> token.generation
                > shell.chrome.clipboard_generation),
            effect => effect == Effect::Nothing && selected_items(shell).len() == 0,
        },
        activated(shell, ActionView::DesktopPaste).1 == Effect::ReadClipboard,
        activated(shell, ActionView::DesktopOpenSelection).1 == Effect::OpenSelection,
        activated(shell, ActionView::DesktopArrangeIcons).1 == Effect::ArrangeIcons,
        activated(shell, ActionView::DesktopDelete).1 == if selected_items(shell).len() > 0 {
            Effect::InspectDeletion
        } else {
            Effect::Nothing
        },
        shell.context is Edit <==> activated(shell, ActionView::DesktopEditConfirm).1
            == Effect::CommitEdit,
        shell.context is Delete <==> activated(shell, ActionView::DesktopDeleteConfirm).1
            == Effect::ConfirmDelete,
        shell.context is Collision <==> activated(shell, ActionView::DesktopCollisionReplace).1
            == Effect::ContinuePaste(CollisionChoice::Replace),
        shell.context is Collision <==> activated(shell, ActionView::DesktopCollisionKeepBoth).1
            == Effect::ContinuePaste(CollisionChoice::KeepBoth),
        activated(shell, ActionView::DesktopCollisionCancel).1 == Effect::Nothing,
        activated(shell, ActionView::DesktopCollisionCancel).0.context is Hidden,
        activated(shell, ActionView::DismissContext).1 == Effect::Nothing,
        activated(shell, ActionView::DismissContext).0.context is Hidden,
        activated(shell, ActionView::DismissContext).0.selection == shell.selection,
        shell.selection.len() == 1 ==> match activated(
            shell,
            ActionView::DesktopRename,
        ).0.context {
            ContextView::Edit(edit) => edit.operation == EditTargetView::Rename(shell.selection[0])
                && edit.input == name_text(shell.selection[0]) && edit.replace_on_type
                && edit.error is None,
            _ => false,
        },
        shell.selection.len() != 1 ==> activated(shell, ActionView::DesktopRename) == (
            shell,
            Effect::Nothing,
        ),
        match activated(shell, ActionView::DesktopNewFolder).0.context {
            ContextView::Edit(edit) => edit.operation == EditTargetView::NewFolder && edit.input
                == "New Folder"@,
            _ => false,
        },
        activated(shell, ActionView::DesktopAddToApplications).1 == if shell.selection.len() == 1 {
            Effect::AddToApplications
        } else {
            Effect::Nothing
        },
{
    reveal(activated);
    reveal(desktop_activated);
    reveal(context_hidden);
    reveal(crate::menus::context_shown);
}

} // verus!
