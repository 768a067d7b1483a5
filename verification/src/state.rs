//! The state of the shell, as plain values.

use vstd::prelude::*;
use crate::canvas::Color;
use crate::model::{ActionView, Application, ApplicationView, GuestWindow, HitTarget, ShellAction, TargetView};
use crate::model::{application_views, target_views};
use crate::paths::{copy_paths, optional_path, path_views, paths_differ, FilePath};
use crate::store::launcher_registration;
use crate::text::{optional_text, optional_texts, text_views};

verus! {

/// A surface of the shell.
#[derive(Debug, Clone, Copy, PartialEq, Eq, Structural)]
pub enum ShellSurface {
    Desktop,
    Panel,
    Menu,
    Context,
}

/// What a paste does with its sources.
#[derive(Debug, Clone, Copy, PartialEq, Eq, Structural)]
pub enum ClipboardOperation {
    Copy,
    Cut,
}

/// What the shell put on the clipboard last.
#[derive(Debug, Clone, PartialEq, Eq)]
pub struct GuestClipboardRecord {
    pub generation: u64,
    pub operation: ClipboardOperation,
    pub sources: Vec<FilePath>,
}

/// The token on the clipboard that stands for the record of the shell. It names no path.
#[derive(Debug, Clone, Copy, PartialEq, Eq, Structural)]
pub struct ClipboardToken {
    pub schema: u32,
    pub generation: u64,
    pub operation: ClipboardOperation,
}

/// A paste under way: the sources up to `index` are done.
#[derive(Debug, Clone, PartialEq, Eq)]
pub struct PasteSession {
    pub operation: ClipboardOperation,
    pub sources: Vec<FilePath>,
    pub index: usize,
}

/// What an edit dialog is for.
#[derive(Debug, Clone, PartialEq, Eq)]
pub enum EditOperation {
    NewFolder,
    Rename(FilePath),
    /// The registration with this identifier gets another name.
    RenameApplication(String),
}

/// A dialog that asks for a name.
#[derive(Debug, Clone, PartialEq, Eq)]
pub struct EditDialog {
    pub operation: EditOperation,
    pub input: String,
    pub replace_on_type: bool,
    pub error: Option<String>,
}

/// What deleting an item removes.
#[derive(Debug, Clone, Copy, PartialEq, Eq, Structural)]
pub enum DeleteConsequence {
    ShortcutOnly,
    LinkOnly,
    RegularFile,
    DirectoryTree,
}

/// A dialog that asks whether to delete.
#[derive(Debug, Clone, PartialEq, Eq)]
pub struct DeleteDialog {
    pub items: Vec<FilePath>,
    pub consequences: Vec<DeleteConsequence>,
    pub detail: String,
    pub error: Option<String>,
}

/// What the context surface shows.
#[derive(Debug, Clone, PartialEq, Eq)]
pub enum ContextState {
    Hidden,
    Application(String),
    DesktopMenu,
    ItemMenu { appimage_registered: Option<bool> },
    Edit(EditDialog),
    Delete(DeleteDialog),
    Collision(PasteSession),
    Error { title: String, detail: String },
}

/// A [`GuestClipboardRecord`] with its paths as bytes.
pub struct ClipboardView {
    pub generation: u64,
    pub operation: ClipboardOperation,
    pub sources: Seq<Seq<u8>>,
}

/// A [`PasteSession`] with its paths as bytes.
pub struct SessionView {
    pub operation: ClipboardOperation,
    pub sources: Seq<Seq<u8>>,
    pub index: int,
}

/// An [`EditOperation`] with its path or text as a sequence.
pub enum EditTargetView {
    NewFolder,
    Rename(Seq<u8>),
    RenameApplication(Seq<char>),
}

/// An [`EditDialog`] with its texts as sequences.
pub struct EditView {
    pub operation: EditTargetView,
    pub input: Seq<char>,
    pub replace_on_type: bool,
    pub error: Option<Seq<char>>,
}

/// A [`DeleteDialog`] with its texts as sequences.
pub struct DeleteView {
    pub items: Seq<Seq<u8>>,
    pub consequences: Seq<DeleteConsequence>,
    pub detail: Seq<char>,
    pub error: Option<Seq<char>>,
}

/// A [`ContextState`] with its texts as sequences.
pub enum ContextView {
    Hidden,
    Application(Seq<char>),
    DesktopMenu,
    ItemMenu(Option<bool>),
    Edit(EditView),
    Delete(DeleteView),
    Collision(SessionView),
    Error(Seq<char>, Seq<char>),
}

impl View for GuestClipboardRecord {
    type V = ClipboardView;

    open spec fn view(&self) -> ClipboardView {
        ClipboardView {
            generation: self.generation,
            operation: self.operation,
            sources: path_views(self.sources@),
        }
    }
}

impl View for PasteSession {
    type V = SessionView;

    open spec fn view(&self) -> SessionView {
        SessionView {
            operation: self.operation,
            sources: path_views(self.sources@),
            index: self.index as int,
        }
    }
}

impl View for EditOperation {
    type V = EditTargetView;

    open spec fn view(&self) -> EditTargetView {
        match *self {
            EditOperation::NewFolder => EditTargetView::NewFolder,
            EditOperation::Rename(path) => EditTargetView::Rename(path@),
            EditOperation::RenameApplication(id) => EditTargetView::RenameApplication(id@),
        }
    }
}

impl View for EditDialog {
    type V = EditView;

    open spec fn view(&self) -> EditView {
        EditView {
            operation: self.operation@,
            input: self.input@,
            replace_on_type: self.replace_on_type,
            error: optional_text(self.error),
        }
    }
}

impl View for DeleteDialog {
    type V = DeleteView;

    open spec fn view(&self) -> DeleteView {
        DeleteView {
            items: path_views(self.items@),
            consequences: self.consequences@,
            detail: self.detail@,
            error: optional_text(self.error),
        }
    }
}

impl View for ContextState {
    type V = ContextView;

    open spec fn view(&self) -> ContextView {
        match *self {
            ContextState::Hidden => ContextView::Hidden,
            ContextState::Application(id) => ContextView::Application(id@),
            ContextState::DesktopMenu => ContextView::DesktopMenu,
            ContextState::ItemMenu { appimage_registered } => ContextView::ItemMenu(
                appimage_registered,
            ),
            ContextState::Edit(dialog) => ContextView::Edit(dialog@),
            ContextState::Delete(dialog) => ContextView::Delete(dialog@),
            ContextState::Collision(session) => ContextView::Collision(session@),
            ContextState::Error { title, detail } => ContextView::Error(title@, detail@),
        }
    }
}

impl ContextState {
    /// Whether the context surface shows something.
    pub fn is_visible(&self) -> (visible: bool)
        ensures
            visible == !(self@ is Hidden),
    {
        !matches!(self, ContextState::Hidden)
    }

    /// Whether the context surface shows a dialog, which takes the keyboard.
    pub fn is_dialog(&self) -> (dialog: bool)
        ensures
            dialog == is_dialog_view(self@),
    {
        match self {
            ContextState::Edit(_)
            | ContextState::Delete(_)
            | ContextState::Collision(_)
            | ContextState::Error { .. } => true,
            _ => false,
        }
    }
}

/// Whether a context is a dialog.
pub open spec fn is_dialog_view(context: ContextView) -> bool {
    context is Edit || context is Delete || context is Collision || context is Error
}

impl PasteSession {
    /// A copy of this session.
    pub fn duplicate(&self) -> (copy: PasteSession)
        ensures
            copy@ == self@,
    {
        PasteSession {
            operation: self.operation,
            sources: copy_paths(&self.sources),
            index: self.index,
        }
    }
}

impl EditOperation {
    /// A copy of this operation.
    pub fn duplicate(&self) -> (copy: EditOperation)
        ensures
            copy@ == self@,
    {
        match self {
            EditOperation::NewFolder => EditOperation::NewFolder,
            EditOperation::Rename(path) => EditOperation::Rename(path.duplicate()),
            EditOperation::RenameApplication(id) => EditOperation::RenameApplication(id.clone()),
        }
    }
}

/// What the pointer is doing on the desktop. Positions are in 256ths of a logical pixel.
#[derive(Debug)]
pub enum DesktopPointerGesture {
    Item { path: FilePath, start: (i32, i32), time: u32 },
    RubberBand { start: (i32, i32), current: (i32, i32), base: Vec<FilePath> },
}

/// A [`DesktopPointerGesture`] with its paths as bytes.
pub enum GestureView {
    Item(Seq<u8>, (i32, i32), u32),
    RubberBand((i32, i32), (i32, i32), Seq<Seq<u8>>),
}

impl View for DesktopPointerGesture {
    type V = GestureView;

    open spec fn view(&self) -> GestureView {
        match *self {
            DesktopPointerGesture::Item { path, start, time } => GestureView::Item(
                path@,
                start,
                time,
            ),
            DesktopPointerGesture::RubberBand { start, current, base } => GestureView::RubberBand(
                start,
                current,
                path_views(base@),
            ),
        }
    }
}

/// A gesture that may not be under way.
pub open spec fn optional_gesture(gesture: Option<DesktopPointerGesture>) -> Option<GestureView> {
    match gesture {
        Some(gesture) => Some(gesture@),
        None => None,
    }
}

/// Which menu the menu surface shows.
#[derive(Debug, Clone, Copy, PartialEq, Eq, Structural)]
pub enum MenuKind {
    Applications,
    Window(u32),
}

/// The modifier keys that are held down.
#[derive(Debug, Clone, Copy, PartialEq, Eq, Structural)]
pub struct Modifiers {
    pub ctrl: bool,
    pub alt: bool,
    pub shift: bool,
    pub logo: bool,
}

/// The colours of the shell and of the window decorations.
#[derive(Debug, Clone, Copy, PartialEq, Eq, Structural)]
pub struct ThemePalette {
    pub canvas: Color,
    pub surface: Color,
    pub raised: Color,
    pub menu: Color,
    pub border: Color,
    pub text: Color,
    pub text_secondary: Color,
    pub text_muted: Color,
    pub selection: Color,
    pub selected_text: Color,
    pub hover: Color,
    pub focus: Color,
    pub destructive: Color,
    pub destructive_icon: Color,
    pub folder: Color,
    pub folder_tab: Color,
}

/// A window under the identifier that the compositor gives it.
#[derive(Debug, Clone, PartialEq, Eq)]
pub struct ExactToplevel {
    pub identifier: String,
    pub window: GuestWindow,
}

/// How large things are and how they look.
#[derive(Debug, Clone, Copy)]
pub struct Look {
    pub desktop_size: (u32, u32),
    pub panel_size: (u32, u32),
    pub scale_120: u32,
    pub capped_task_buttons: bool,
    /// The width of the Applications menu that its fixed texts need.
    pub base_width: u32,
    pub palette: ThemePalette,
    pub background: Color,
}

/// Where the keyboard goes.
#[derive(Debug, Clone, Copy)]
pub struct InputState {
    pub keyboard_focus: Option<ShellSurface>,
    pub modifiers: Modifiers,
}

/// Which surfaces the compositor has given a size.
#[derive(Debug, Clone, Copy)]
pub struct Configured {
    pub desktop: bool,
    pub panel: bool,
    pub menu: bool,
    pub context: bool,
}

/// When things are due, in milliseconds.
#[derive(Debug, Clone, Copy)]
pub struct Timers {
    pub full_repaint_at: Option<u64>,
    pub application_rescan_at: Option<u64>,
    pub desktop_rescan_at: Option<u64>,
}

/// The menu surface.
#[derive(Debug, Clone, Copy)]
pub struct MenuState {
    pub menu_open: bool,
    pub menu_kind: MenuKind,
    pub menu_size: (u32, u32),
    pub menu_origin: (i32, i32),
    pub menu_scroll: usize,
    /// A window menu is open but waits for the pointer to say where.
    pub awaiting_pointer: bool,
    /// When the compositor is asked to repeat where the pointer is.
    pub pointer_refresh_at: Option<u64>,
    /// The surface has to be set up anew.
    pub menu_changed: bool,
}

/// The context surface.
#[derive(Debug, Clone, Copy)]
pub struct ContextFrame {
    pub context_size: (u32, u32),
    pub context_origin: (i32, i32),
    /// The surface has to be set up anew.
    pub context_changed: bool,
}

/// The numbers and switches of the shell.
#[derive(Debug, Clone, Copy)]
pub struct Chrome {
    pub look: Look,
    pub input: InputState,
    pub configured: Configured,
    pub timers: Timers,
    pub menu: MenuState,
    pub frame: ContextFrame,
    pub task_offset: usize,
    pub clipboard_generation: u64,
    pub paste_available: bool,
    pub exit: bool,
    pub dirty: bool,
}

/// The state of the shell.
#[derive(Debug)]
pub struct Shell {
    pub chrome: Chrome,
    pub context: ContextState,
    /// The selected desktop items, each once.
    pub selection: Vec<FilePath>,
    pub selection_anchor: Option<FilePath>,
    pub gesture: Option<DesktopPointerGesture>,
    pub last_click: Option<(FilePath, u32)>,
    pub clipboard: Option<GuestClipboardRecord>,
    pub pinned: Vec<String>,
    pub search: String,
    pub hovered: Option<ShellAction>,
    pub applications: Vec<Application>,
    /// The width of the menu row of each application.
    pub row_widths: Vec<u32>,
    /// The registration that each application launches, where it is a managed AppImage.
    pub registrations: Vec<Option<String>>,
    /// The targets of the desktop page that is shown.
    pub visible_targets: Vec<HitTarget>,
    /// The targets of all desktop pages.
    pub desktop_targets: Vec<HitTarget>,
    /// The windows, in ascending order of their identities.
    pub toplevels: Vec<ExactToplevel>,
    /// What the repaint request that was answered last held.
    pub repaint_generation: Option<String>,
}

/// A [`Shell`] with its texts and lists as sequences.
pub struct ShellView {
    pub chrome: Chrome,
    pub context: ContextView,
    pub selection: Seq<Seq<u8>>,
    pub selection_anchor: Option<Seq<u8>>,
    pub gesture: Option<GestureView>,
    pub last_click: Option<(Seq<u8>, u32)>,
    pub clipboard: Option<ClipboardView>,
    pub pinned: Seq<Seq<char>>,
    pub search: Seq<char>,
    pub hovered: Option<ActionView>,
    pub applications: Seq<ApplicationView>,
    pub row_widths: Seq<u32>,
    pub registrations: Seq<Option<Seq<char>>>,
    pub visible_targets: Seq<TargetView>,
    pub desktop_targets: Seq<TargetView>,
    pub toplevels: Seq<ExactToplevel>,
    pub repaint_generation: Option<Seq<char>>,
}

/// The record on the clipboard, where there is one.
pub open spec fn optional_clipboard(record: Option<GuestClipboardRecord>) -> Option<ClipboardView> {
    match record {
        Some(record) => Some(record@),
        None => None,
    }
}

/// What an action that may be absent asks for.
pub open spec fn optional_action(action: Option<ShellAction>) -> Option<ActionView> {
    match action {
        Some(action) => Some(action@),
        None => None,
    }
}

/// The last click on a desktop item, where there was one.
pub open spec fn optional_click(click: Option<(FilePath, u32)>) -> Option<(Seq<u8>, u32)> {
    match click {
        Some(click) => Some((click.0@, click.1)),
        None => None,
    }
}

impl View for Shell {
    type V = ShellView;

    open spec fn view(&self) -> ShellView {
        ShellView {
            chrome: self.chrome,
            context: self.context@,
            selection: path_views(self.selection@),
            selection_anchor: optional_path(self.selection_anchor),
            gesture: optional_gesture(self.gesture),
            last_click: optional_click(self.last_click),
            clipboard: optional_clipboard(self.clipboard),
            pinned: text_views(self.pinned@),
            search: self.search@,
            hovered: optional_action(self.hovered),
            applications: application_views(self.applications@),
            row_widths: self.row_widths@,
            registrations: optional_texts(self.registrations@),
            visible_targets: target_views(self.visible_targets@),
            desktop_targets: target_views(self.desktop_targets@),
            toplevels: self.toplevels@,
            repaint_generation: optional_text(self.repaint_generation),
        }
    }
}

/// Whether the windows are in ascending order of their identities, which the list then holds once.
pub open spec fn toplevels_sorted(toplevels: Seq<ExactToplevel>) -> bool {
    forall|left: int, right: int|
        0 <= left < right < toplevels.len() ==> (#[trigger] toplevels[left]).window.id < (
        #[trigger] toplevels[right]).window.id
}

/// Whether a rubber band holds no item twice.
pub open spec fn gesture_valid(gesture: Option<GestureView>) -> bool {
    match gesture {
        Some(GestureView::RubberBand(_, _, base)) => paths_differ(base),
        _ => true,
    }
}

/// The registration that each application is the launcher of.
pub open spec fn registrations_of(applications: Seq<ApplicationView>) -> Seq<Option<Seq<char>>> {
    applications.map_values(
        |application: ApplicationView| launcher_registration(application.id),
    )
}

/// What every step of the shell keeps: no item is selected twice, the windows are in order, and
/// each application has the width of its row and the registration that it is the launcher of.
pub open spec fn shell_valid(shell: ShellView) -> bool {
    &&& paths_differ(shell.selection)
    &&& toplevels_sorted(shell.toplevels)
    &&& shell.toplevels.len() <= i32::MAX
    &&& gesture_valid(shell.gesture)
    &&& shell.row_widths.len() == shell.applications.len()
    &&& shell.registrations == registrations_of(shell.applications)
}

/// The state of a shell that shows nothing yet.
pub open spec fn started(look: Look, pinned: Seq<Seq<char>>) -> ShellView {
    ShellView {
        chrome: Chrome {
            look,
            input: InputState {
                keyboard_focus: None,
                modifiers: Modifiers { ctrl: false, alt: false, shift: false, logo: false },
            },
            configured: Configured { desktop: false, panel: false, menu: false, context: false },
            timers: Timers {
                full_repaint_at: None,
                application_rescan_at: None,
                desktop_rescan_at: None,
            },
            menu: MenuState {
                menu_open: false,
                menu_kind: MenuKind::Applications,
                menu_size: (1, 1),
                menu_origin: (0, 0),
                menu_scroll: 0,
                awaiting_pointer: false,
                pointer_refresh_at: None,
                menu_changed: false,
            },
            frame: ContextFrame {
                context_size: (1, 1),
                context_origin: (0, 0),
                context_changed: false,
            },
            task_offset: 0,
            clipboard_generation: 0,
            paste_available: false,
            exit: false,
            dirty: true,
        },
        context: ContextView::Hidden,
        selection: Seq::empty(),
        selection_anchor: None,
        gesture: None,
        last_click: None,
        clipboard: None,
        pinned,
        search: Seq::empty(),
        hovered: None,
        applications: Seq::empty(),
        row_widths: Seq::empty(),
        registrations: Seq::empty(),
        visible_targets: Seq::empty(),
        desktop_targets: Seq::empty(),
        toplevels: Seq::empty(),
        repaint_generation: None,
    }
}

impl Shell {
    /// Whether this state is one that the shell can be in.
    pub open spec fn valid(&self) -> bool {
        shell_valid(self@)
    }

    /// A shell that shows nothing yet, with the applications of those names pinned.
    pub fn new(look: Look, pinned: Vec<String>) -> (shell: Shell)
        ensures
            shell@ == started(look, text_views(pinned@)),
            shell.valid(),
    {
        let modifiers = Modifiers { ctrl: false, alt: false, shift: false, logo: false };
        let chrome = Chrome {
            look,
            input: InputState { keyboard_focus: None, modifiers },
            configured: Configured { desktop: false, panel: false, menu: false, context: false },
            timers: Timers {
                full_repaint_at: None,
                application_rescan_at: None,
                desktop_rescan_at: None,
            },
            menu: MenuState {
                menu_open: false,
                menu_kind: MenuKind::Applications,
                menu_size: (1, 1),
                menu_origin: (0, 0),
                menu_scroll: 0,
                awaiting_pointer: false,
                pointer_refresh_at: None,
                menu_changed: false,
            },
            frame: ContextFrame {
                context_size: (1, 1),
                context_origin: (0, 0),
                context_changed: false,
            },
            task_offset: 0,
            clipboard_generation: 0,
            paste_available: false,
            exit: false,
            dirty: true,
        };
        let shell = Shell {
            chrome,
            context: ContextState::Hidden,
            selection: Vec::new(),
            selection_anchor: None,
            gesture: None,
            last_click: None,
            clipboard: None,
            pinned,
            search: String::new(),
            hovered: None,
            applications: Vec::new(),
            row_widths: Vec::new(),
            registrations: Vec::new(),
            visible_targets: Vec::new(),
            desktop_targets: Vec::new(),
            toplevels: Vec::new(),
            repaint_generation: None,
        };
        proof {
            assert(shell@.selection =~= Seq::empty());
            assert(shell@.search =~= Seq::empty());
            assert(shell@.applications =~= Seq::empty());
            assert(shell@.row_widths =~= Seq::empty());
            assert(shell@.registrations =~= Seq::empty());
            assert(registrations_of(shell@.applications) =~= Seq::empty());
            assert(shell@.visible_targets =~= Seq::empty());
            assert(shell@.desktop_targets =~= Seq::empty());
            assert(shell@.toplevels =~= Seq::empty());
        }
        shell
    }

    /// Replaces the numbers and switches.
    pub fn set_chrome(&mut self, chrome: Chrome)
        ensures
            final(self)@ == (ShellView { chrome, ..old(self)@ }),
            old(self).valid() ==> final(self).valid(),
    {
        self.chrome = chrome;
    }
}

/// A shell that starts shows no menu and no dialog, has nothing selected and no windows, has been
/// given no size yet, and is drawn.
pub proof fn shells_start_empty(look: Look, pinned: Seq<Seq<char>>)
    ensures
        ({
            let shell = started(look, pinned);
            &&& shell_valid(shell)
            &&& shell.chrome.look == look
            &&& shell.pinned == pinned
            &&& !shell.chrome.menu.menu_open
            &&& !shell.chrome.menu.awaiting_pointer
            &&& shell.context is Hidden
            &&& shell.selection.len() == 0
            &&& shell.toplevels.len() == 0
            &&& shell.applications.len() == 0
            &&& shell.search.len() == 0
            &&& shell.clipboard is None
            &&& shell.hovered is None
            &&& shell.gesture is None
            &&& shell.chrome.input.keyboard_focus is None
            &&& !shell.chrome.configured.desktop && !shell.chrome.configured.panel
            &&& !shell.chrome.configured.menu && !shell.chrome.configured.context
            &&& shell.chrome.timers.full_repaint_at is None
            &&& !shell.chrome.paste_available
            &&& !shell.chrome.exit
            &&& shell.chrome.dirty
        }),
{
    let none = Seq::<ApplicationView>::empty();
    assert(registrations_of(none) =~= Seq::<Option<Seq<char>>>::empty());
}

} // verus!
