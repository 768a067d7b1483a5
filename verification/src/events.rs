//! What the compositor, the files and assistive technology tell the shell.

use vstd::prelude::*;
use vstd::string::*;
use crate::accessibility::{AccessibleNode, AccessibleTarget};
use crate::accessibility::{node_views, optional_access, AccessView, NodeView};
use crate::arith::{max_u32, min_usize, sub_i32};
use crate::arith::{max_of, min_of, saturate_i32};
use crate::json::parse_json;
use crate::json::{parsed_json, text_member};
use crate::keyboard::searched;
use crate::menus::{applications_open, applications_placed, menu_hidden, scroll_clamped};
use crate::model::{same_applications, taskbar_max_offset, Application, GuestWindow, ShellAction};
use crate::model::{application_views, are_same_applications, max_task_offset, ActionView};
use crate::paths::from_utf8;
use crate::pointer::{
    application_context, menu_scrolled, row_in_view, surface_hit, taskbar_menu_origin,
    window_menu_opened,
};
use crate::selection::{only_selected, selection_toggled};
use crate::settings::{without_text, Settings};
use crate::settings::{is_other, SettingsView};
use crate::shell::Effect;
use crate::shell::{activated, toplevel_place};
use crate::state::{
    Chrome, Configured, ContextFrame, ContextState, ExactToplevel, InputState, Look, MenuKind, MenuState, Modifiers,
    Shell, ShellSurface, ThemePalette, Timers,
};
use crate::state::{registrations_of, toplevels_sorted, ContextView, ShellView};
use crate::store::managed_appimage_registration_id;
use crate::sway_ipc::WindowState;
use crate::sway_ipc::{window_views, WindowView};
use crate::text::{any_control, characters, copy_texts, list_has, text_is};
use crate::text::{has_control, optional_text, optional_texts};

verus! {

/// How long the shell waits for a size to settle before it draws everything, in milliseconds.
pub const OUTPUT_SETTLE_DEBOUNCE: u64 = 80;

/// How long files are left alone after a change before they are read, in milliseconds.
pub const FILE_MODEL_DEBOUNCE: u64 = 180;

/// What a watcher of files has to say.
#[derive(Debug, Clone, Copy, PartialEq, Eq, Structural)]
pub enum WatchOutcome {
    Quiet,
    Changed,
    /// The watcher does not work; the files are read at once.
    Failed,
}

/// What is left to do outside the shell after it looked around.
#[derive(Debug, Clone, Copy, PartialEq, Eq, Structural)]
pub struct Poll {
    /// The compositor is to say again where the pointer is.
    pub refresh_pointer: bool,
    /// The request to draw everything is to be acknowledged.
    pub acknowledge: bool,
    pub rescan_applications: bool,
    pub rescan_desktop: bool,
}

/// A time after `now`, which never wraps.
pub open spec fn later(now: u64, delay: u64) -> u64 {
    min_of(now + delay, u64::MAX as int) as u64
}

/// Whether a time has come.
pub open spec fn is_due(at: Option<u64>, now: u64) -> bool {
    match at {
        Some(at) => now >= at,
        None => false,
    }
}

/// The state after it was seen whether the pointer is to be refreshed.
pub open spec fn pointer_polled(shell: ShellView, now: u64) -> (ShellView, bool) {
    if is_due(shell.chrome.menu.pointer_refresh_at, now) && shell.chrome.menu.awaiting_pointer {
        (
            ShellView {
                chrome: Chrome {
                    menu: MenuState { pointer_refresh_at: None, ..shell.chrome.menu },
                    ..shell.chrome
                },
                ..shell
            },
            true,
        )
    } else {
        (shell, false)
    }
}

/// The state after a request to draw everything was read, and whether it is a new one. Requests
/// that come before everything is drawn delay that.
pub open spec fn repaint_asked(shell: ShellView, request: Option<Seq<char>>, now: u64) -> (
    ShellView,
    bool,
) {
    if request is Some && request != shell.repaint_generation {
        (
            ShellView {
                repaint_generation: request,
                chrome: Chrome {
                    timers: Timers {
                        full_repaint_at: Some(later(now, OUTPUT_SETTLE_DEBOUNCE)),
                        ..shell.chrome.timers
                    },
                    ..shell.chrome
                },
                ..shell
            },
            true,
        )
    } else {
        (shell, false)
    }
}

/// The state with everything to be drawn, where the time for it has come.
pub open spec fn repaint_polled(shell: ShellView, now: u64) -> ShellView {
    if is_due(shell.chrome.timers.full_repaint_at, now) {
        ShellView {
            chrome: Chrome {
                timers: Timers { full_repaint_at: None, ..shell.chrome.timers },
                dirty: true,
                ..shell.chrome
            },
            ..shell
        }
    } else {
        shell
    }
}

/// When files are to be read, after their watcher was asked, and whether that is now.
pub open spec fn rescan_time(at: Option<u64>, outcome: WatchOutcome, now: u64) -> (
    Option<u64>,
    bool,
) {
    let next = match outcome {
        WatchOutcome::Quiet => at,
        WatchOutcome::Changed => Some(later(now, FILE_MODEL_DEBOUNCE)),
        WatchOutcome::Failed => Some(now),
    };
    if is_due(next, now) {
        (None, true)
    } else {
        (next, false)
    }
}

/// The state after the watchers of files were asked, and which files are to be read.
pub open spec fn files_polled(
    shell: ShellView,
    applications: WatchOutcome,
    desktop: WatchOutcome,
    now: u64,
) -> (ShellView, bool, bool) {
    let (application_at, application_due) = rescan_time(
        shell.chrome.timers.application_rescan_at,
        applications,
        now,
    );
    let (desktop_at, desktop_due) = rescan_time(
        shell.chrome.timers.desktop_rescan_at,
        desktop,
        now,
    );
    (
        ShellView {
            chrome: Chrome {
                timers: Timers {
                    application_rescan_at: application_at,
                    desktop_rescan_at: desktop_at,
                    ..shell.chrome.timers
                },
                ..shell.chrome
            },
            ..shell
        },
        application_due,
        desktop_due,
    )
}

/// The state after the shell looked around, and what is left to do.
pub open spec fn polled(
    shell: ShellView,
    now: u64,
    request: Option<Seq<char>>,
    applications: WatchOutcome,
    desktop: WatchOutcome,
) -> (ShellView, Poll) {
    let (pointed, refresh_pointer) = pointer_polled(shell, now);
    let (asked, acknowledge) = repaint_asked(pointed, request, now);
    let painted = repaint_polled(asked, now);
    let (watched, rescan_applications, rescan_desktop) = files_polled(
        painted,
        applications,
        desktop,
        now,
    );
    (watched, Poll { refresh_pointer, acknowledge, rescan_applications, rescan_desktop })
}

/// Files that keep changing are not read before they have been left alone for long enough.
pub proof fn changes_put_off_reading(at: Option<u64>, now: u64, next: u64)
    requires
        now + FILE_MODEL_DEBOUNCE <= u64::MAX,
        now <= next < now + FILE_MODEL_DEBOUNCE,
    ensures
        ({
            let (waiting, due) = rescan_time(at, WatchOutcome::Changed, now);
            &&& !due
            &&& rescan_time(waiting, WatchOutcome::Quiet, next) == (waiting, false)
            &&& rescan_time(
                waiting,
                WatchOutcome::Quiet,
                (now + FILE_MODEL_DEBOUNCE) as u64,
            ).1
        }),
{
}

/// The compositor is asked at most once where the pointer is.
pub proof fn pointer_is_refreshed_once(shell: ShellView, now: u64, next: u64)
    ensures
        pointer_polled(shell, now).1 ==> !pointer_polled(pointer_polled(shell, now).0, next).1,
{
}

/// The last state that is reported of a window.
pub open spec fn last_state(states: Seq<WindowView>, identifier: Seq<char>) -> Option<WindowView>
    decreases states.len(),
{
    if states.len() == 0 {
        None
    } else if states.last().identifier == identifier {
        Some(states.last())
    } else {
        last_state(states.drop_last(), identifier)
    }
}

/// A window with what is reported of it.
pub open spec fn updated_window(toplevel: ExactToplevel, states: Seq<WindowView>) -> ExactToplevel {
    match last_state(states, toplevel.identifier@) {
        Some(state) => ExactToplevel {
            window: GuestWindow {
                focused: state.flags.focused,
                minimized: state.flags.minimized,
                maximized: state.flags.maximized,
                ..toplevel.window
            },
            ..toplevel
        },
        None => toplevel,
    }
}

/// The windows with what is reported of them.
pub open spec fn updated_windows(toplevels: Seq<ExactToplevel>, states: Seq<WindowView>) -> Seq<
    ExactToplevel,
> {
    toplevels.map_values(|toplevel: ExactToplevel| updated_window(toplevel, states))
}

/// The state after the compositor reported its windows.
#[verifier::opaque]
pub open spec fn windows_refreshed(shell: ShellView, states: Seq<WindowView>) -> ShellView {
    let toplevels = updated_windows(shell.toplevels, states);
    ShellView {
        toplevels,
        chrome: Chrome {
            dirty: shell.chrome.dirty || toplevels != shell.toplevels,
            ..shell.chrome
        },
        ..shell
    }
}

/// The windows with one that is new or replaces the one of its identity, in their order.
pub open spec fn with_toplevel(toplevels: Seq<ExactToplevel>, entry: ExactToplevel) -> Seq<
    ExactToplevel,
>
    decreases toplevels.len(),
{
    if toplevels.len() == 0 || toplevels.last().window.id < entry.window.id {
        toplevels.push(entry)
    } else if toplevels.last().window.id == entry.window.id {
        toplevels.drop_last().push(entry)
    } else {
        with_toplevel(toplevels.drop_last(), entry).push(toplevels.last())
    }
}

/// Adding a window keeps the order and adds at most one.
proof fn adding_keeps_order(toplevels: Seq<ExactToplevel>, entry: ExactToplevel)
    requires
        toplevels_sorted(toplevels),
    ensures
        toplevels_sorted(with_toplevel(toplevels, entry)),
        with_toplevel(toplevels, entry).len() <= toplevels.len() + 1,
        with_toplevel(toplevels, entry).len() > 0,
        forall|at: int|
            0 <= at < with_toplevel(toplevels, entry).len() ==> (#[trigger] with_toplevel(
                toplevels,
                entry,
            )[at]).window.id <= max_of(
                entry.window.id as int,
                if toplevels.len() > 0 {
                    toplevels.last().window.id as int
                } else {
                    0
                },
            ),
    decreases toplevels.len(),
{
    if toplevels.len() == 0 || toplevels.last().window.id < entry.window.id {
        let whole = toplevels.push(entry);
        assert forall|left: int, right: int| 0 <= left < right < whole.len() implies (
        #[trigger] whole[left]).window.id < (#[trigger] whole[right]).window.id by {
            if right == toplevels.len() {
                assert(left == toplevels.len() - 1 || toplevels[left].window.id
                    < toplevels[toplevels.len() - 1].window.id);
            }
        }
        assert forall|at: int| 0 <= at < whole.len() implies (#[trigger] whole[at]).window.id
            <= max_of(
            entry.window.id as int,
            if toplevels.len() > 0 {
                toplevels.last().window.id as int
            } else {
                0
            },
        ) by {
            if at < toplevels.len() {
                assert(at == toplevels.len() - 1 || toplevels[at].window.id
                    < toplevels[toplevels.len() - 1].window.id);
            }
        }
    } else if toplevels.last().window.id == entry.window.id {
        let front = toplevels.drop_last();
        let whole = front.push(entry);
        assert forall|left: int, right: int| 0 <= left < right < whole.len() implies (
        #[trigger] whole[left]).window.id < (#[trigger] whole[right]).window.id by {
            assert(toplevels[left].window.id < toplevels[right].window.id);
        }
        assert forall|at: int| 0 <= at < whole.len() implies (#[trigger] whole[at]).window.id
            <= max_of(entry.window.id as int, toplevels.last().window.id as int) by {
            if at < front.len() {
                assert(toplevels[at].window.id < toplevels[toplevels.len() - 1].window.id);
            }
        }
    } else {
        let front = toplevels.drop_last();
        let last = toplevels.last();
        adding_keeps_order(front, entry);
        let inner = with_toplevel(front, entry);
        let whole = inner.push(last);
        if front.len() > 0 {
            assert(toplevels[front.len() - 1].window.id < toplevels[front.len() as int].window.id);
        }
        assert forall|left: int, right: int| 0 <= left < right < whole.len() implies (
        #[trigger] whole[left]).window.id < (#[trigger] whole[right]).window.id by {
            if right == inner.len() {
                assert(inner[left].window.id < last.window.id);
            } else {
                assert(inner[left].window.id < inner[right].window.id);
            }
        }
        assert forall|at: int| 0 <= at < whole.len() implies (#[trigger] whole[at]).window.id
            <= max_of(entry.window.id as int, last.window.id as int) by {
            if at < inner.len() {
                assert(inner[at].window.id < last.window.id);
            }
        }
    }
}

/// Whether a window is another than the one with that identity.
pub open spec fn is_other_window(id: u32) -> spec_fn(ExactToplevel) -> bool {
    |toplevel: ExactToplevel| toplevel.window.id != id
}

/// Leaving windows out keeps the order of the others.
proof fn leaving_out_keeps_order(toplevels: Seq<ExactToplevel>, id: u32)
    requires
        toplevels_sorted(toplevels),
    ensures
        toplevels_sorted(toplevels.filter(is_other_window(id))),
        toplevels.filter(is_other_window(id)).len() <= toplevels.len(),
        forall|at: int|
            0 <= at < toplevels.filter(is_other_window(id)).len() ==> (#[trigger] toplevels.filter(
                is_other_window(id),
            )[at]).window.id <= toplevels.last().window.id,
    decreases toplevels.len(),
{
    reveal(Seq::filter);
    if toplevels.len() > 0 {
        let front = toplevels.drop_last();
        let last = toplevels.last();
        leaving_out_keeps_order(front, id);
        let kept = front.filter(is_other_window(id));
        if front.len() > 0 {
            assert(toplevels[front.len() - 1].window.id < toplevels[front.len() as int].window.id);
        }
        assert forall|at: int| 0 <= at < kept.len() implies (#[trigger] kept[at]).window.id
            < last.window.id by {
            assert(kept[at].window.id <= front.last().window.id);
        }
    }
}

/// The state after a window closed.
#[verifier::opaque]
pub open spec fn window_closed(shell: ShellView, id: u32) -> ShellView {
    let without = ShellView { toplevels: shell.toplevels.filter(is_other_window(id)), ..shell };
    let closed = if shell.chrome.menu.menu_kind == MenuKind::Window(id) {
        menu_hidden(without)
    } else {
        without
    };
    ShellView { chrome: Chrome { dirty: true, ..closed.chrome }, ..closed }
}

/// The state after the compositor gave the desktop a size. A menu that is open goes with it: the
/// Applications menu is placed anew, a window menu closes.
#[verifier::opaque]
pub open spec fn desktop_sized(shell: ShellView, size: (u32, u32)) -> ShellView {
    let chrome = shell.chrome;
    let wide = ShellView {
        chrome: Chrome {
            look: Look { desktop_size: size, ..chrome.look },
            configured: Configured { desktop: true, ..chrome.configured },
            ..chrome
        },
        ..shell
    };
    if !chrome.menu.menu_open || chrome.look.desktop_size == size {
        wide
    } else if chrome.menu.menu_kind is Applications {
        applications_placed(wide)
    } else {
        menu_hidden(wide)
    }
}

/// The state after the compositor gave the menu surface a size.
#[verifier::opaque]
pub open spec fn menu_sized(shell: ShellView, size: (u32, u32)) -> ShellView {
    scroll_clamped(
        ShellView {
            chrome: Chrome {
                menu: MenuState { menu_size: size, ..shell.chrome.menu },
                configured: Configured { menu: true, ..shell.chrome.configured },
                ..shell.chrome
            },
            ..shell
        },
    )
}

/// The state after the compositor gave the panel a size.
#[verifier::opaque]
pub open spec fn panel_sized(shell: ShellView, size: (u32, u32)) -> ShellView {
    ShellView {
        chrome: Chrome {
            look: Look { panel_size: size, ..shell.chrome.look },
            configured: Configured { panel: true, ..shell.chrome.configured },
            ..shell.chrome
        },
        ..shell
    }
}

/// The state after the compositor gave the context surface a size.
#[verifier::opaque]
pub open spec fn context_sized(shell: ShellView, size: (u32, u32)) -> ShellView {
    ShellView {
        chrome: Chrome {
            frame: ContextFrame { context_size: size, ..shell.chrome.frame },
            configured: Configured { context: true, ..shell.chrome.configured },
            ..shell.chrome
        },
        ..shell
    }
}

/// A size that is never zero.
pub open spec fn nonzero(size: (u32, u32)) -> (u32, u32) {
    (max_of(size.0 as int, 1) as u32, max_of(size.1 as int, 1) as u32)
}

/// The state in which everything is to be drawn.
pub open spec fn dirtied(shell: ShellView) -> ShellView {
    ShellView { chrome: Chrome { dirty: true, ..shell.chrome }, ..shell }
}

/// The state after the compositor gave a surface a size.
#[verifier::opaque]
pub open spec fn configured(shell: ShellView, surface: ShellSurface, size: (u32, u32)) -> ShellView {
    dirtied(
        match surface {
            ShellSurface::Desktop => desktop_sized(shell, nonzero(size)),
            ShellSurface::Panel => panel_sized(shell, nonzero(size)),
            ShellSurface::Menu => menu_sized(shell, nonzero(size)),
            ShellSurface::Context => context_sized(shell, nonzero(size)),
        },
    )
}

/// The state with settings in force.
#[verifier::opaque]
pub open spec fn settings_applied(
    shell: ShellView,
    settings: SettingsView,
    palette: ThemePalette,
) -> ShellView {
    ShellView {
        pinned: settings.pinned_applications,
        chrome: Chrome {
            look: Look {
                palette,
                background: settings.background,
                capped_task_buttons: settings.capped_task_buttons,
                ..shell.chrome.look
            },
            task_offset: min_of(
                shell.chrome.task_offset as int,
                max_task_offset(
                    shell.chrome.look.panel_size.0,
                    shell.toplevels.len(),
                    settings.capped_task_buttons,
                ),
            ) as usize,
            dirty: true,
            ..shell.chrome
        },
        ..shell
    }
}

/// The state after an application was pinned or unpinned in the settings.
#[verifier::opaque]
pub open spec fn pin_saved(shell: ShellView, id: Seq<char>, pinned: bool) -> ShellView {
    ShellView {
        pinned: if !pinned {
            shell.pinned.filter(is_other(id))
        } else if shell.pinned.contains(id) {
            shell.pinned
        } else {
            shell.pinned.push(id)
        },
        chrome: Chrome {
            menu: MenuState { menu_scroll: 0, ..shell.chrome.menu },
            dirty: true,
            ..shell.chrome
        },
        ..shell
    }
}

/// The state after the applications were read.
#[verifier::opaque]
pub open spec fn applications_read(
    shell: ShellView,
    applications: Seq<crate::model::ApplicationView>,
    row_widths: Seq<u32>,
) -> ShellView {
    if are_same_applications(applications, shell.applications) {
        shell
    } else {
        let clamped = scroll_clamped(
            ShellView {
                applications,
                row_widths,
                registrations: registrations_of(applications),
                ..shell
            },
        );
        let placed = if applications_open(clamped) {
            applications_placed(clamped)
        } else {
            clamped
        };
        ShellView { chrome: Chrome { dirty: true, ..placed.chrome }, ..placed }
    }
}

/// What assistive technology asks of a node.
#[derive(Debug)]
pub enum AccessibleRequest {
    Click,
    /// Sets or replaces its text.
    SetValue(String),
    ScrollDown,
    ScrollUp,
    ScrollIntoView,
}

/// An [`AccessibleRequest`] with its text as a sequence.
pub enum RequestView {
    Click,
    SetValue(Seq<char>),
    ScrollDown,
    ScrollUp,
    ScrollIntoView,
}

impl View for AccessibleRequest {
    type V = RequestView;

    open spec fn view(&self) -> RequestView {
        match *self {
            AccessibleRequest::Click => RequestView::Click,
            AccessibleRequest::SetValue(text) => RequestView::SetValue(text@),
            AccessibleRequest::ScrollDown => RequestView::ScrollDown,
            AccessibleRequest::ScrollUp => RequestView::ScrollUp,
            AccessibleRequest::ScrollIntoView => RequestView::ScrollIntoView,
        }
    }
}

/// The state and the effect of a request of assistive technology.
#[verifier::opaque]
pub open spec fn accessed(shell: ShellView, target: AccessView, request: RequestView) -> (
    ShellView,
    Effect,
) {
    match (request, target) {
        (RequestView::Click, AccessView::Activate(action, _)) => activated(shell, action),
        (RequestView::Click, AccessView::DesktopAction(path, action)) => activated(
            only_selected(shell, path),
            action,
        ),
        (RequestView::Click, AccessView::ToggleDesktopSelection(path)) => (
            selection_toggled(shell, path),
            Effect::Nothing,
        ),
        (RequestView::SetValue(text), AccessView::EditValue) => (
            match shell.context {
                ContextView::Edit(dialog) if !has_control(text) => crate::keyboard::edited(
                    shell,
                    dialog,
                    text,
                ),
                _ => shell,
            },
            Effect::Nothing,
        ),
        (RequestView::SetValue(text), AccessView::ApplicationSearch) => (
            if has_control(text) {
                shell
            } else {
                searched(shell, text)
            },
            Effect::Nothing,
        ),
        (RequestView::ScrollDown, AccessView::ScrollMenu) => (
            menu_scrolled(shell, true),
            Effect::Nothing,
        ),
        (RequestView::ScrollUp, AccessView::ScrollMenu) => (
            menu_scrolled(shell, false),
            Effect::Nothing,
        ),
        (RequestView::ScrollIntoView, AccessView::Activate(_, Some(index))) => (
            row_in_view(shell, index),
            Effect::Nothing,
        ),
        _ => (shell, Effect::Nothing),
    }
}

/// What a node with that identity asks for: the last one that asks for something.
pub open spec fn target_of(nodes: Seq<NodeView>, id: u64) -> Option<AccessView>
    decreases nodes.len(),
{
    if nodes.len() == 0 {
        None
    } else if nodes.last().id == id && nodes.last().target is Some {
        nodes.last().target
    } else {
        target_of(nodes.drop_last(), id)
    }
}

/// The place of the node that says what a request to that identity asks for.
pub fn find_target(nodes: &Vec<AccessibleNode>, id: u64) -> (place: Option<usize>)
    ensures
        match place {
            Some(at) => at < nodes.len() && nodes@[at as int].target is Some && target_of(
                node_views(nodes@),
                id,
            ) == optional_access(nodes@[at as int].target),
            None => target_of(node_views(nodes@), id) is None,
        },
{
    let ghost views = node_views(nodes@);
    let mut at: usize = nodes.len();
    assert(views.take(at as int) =~= views);
    while at > 0
        invariant
            at <= nodes.len(),
            views == node_views(nodes@),
            target_of(views, id) == target_of(views.take(at as int), id),
        decreases at,
    {
        let ghost front = views.take(at as int);
        assert(front.last() == nodes@[at - 1]@);
        assert(front.drop_last() =~= views.take(at - 1));
        if nodes[at - 1].id == id && nodes[at - 1].target.is_some() {
            return Some(at - 1);
        }
        at = at - 1;
    }
    None
}

/// The last state that is reported of a window.
fn find_last(states: &Vec<WindowState>, identifier: &String) -> (place: Option<usize>)
    ensures
        match place {
            Some(at) => at < states.len() && last_state(window_views(states@), identifier@) == Some(
                states@[at as int]@,
            ),
            None => last_state(window_views(states@), identifier@) is None,
        },
{
    let ghost views = window_views(states@);
    let mut at: usize = states.len();
    assert(views.take(at as int) =~= views);
    while at > 0
        invariant
            at <= states.len(),
            views == window_views(states@),
            last_state(views, identifier@) == last_state(views.take(at as int), identifier@),
        decreases at,
    {
        let ghost front = views.take(at as int);
        assert(front.last() == states@[at - 1]@);
        assert(front.drop_last() =~= views.take(at - 1));
        if text_is(&states[at - 1].identifier, identifier.as_str()) {
            return Some(at - 1);
        }
        at = at - 1;
    }
    None
}

/// When files are to be read, and whether that is now.
fn next_rescan(at: Option<u64>, outcome: WatchOutcome, now: u64) -> (next: (Option<u64>, bool))
    ensures
        next == rescan_time(at, outcome, now),
{
    let next: Option<u64> = match outcome {
        WatchOutcome::Quiet => at,
        WatchOutcome::Changed => Some(now.saturating_add(FILE_MODEL_DEBOUNCE)),
        WatchOutcome::Failed => Some(now),
    };
    match next {
        Some(time) => if now >= time {
            (None, true)
        } else {
            (next, false)
        },
        None => (None, false),
    }
}

/// The registration that each application is the launcher of.
fn read_registrations(applications: &Vec<Application>) -> (registrations: Vec<Option<String>>)
    ensures
        optional_texts(registrations@) == registrations_of(application_views(applications@)),
{
    let ghost views = application_views(applications@);
    let mut registrations: Vec<Option<String>> = Vec::new();
    let mut at: usize = 0;
    assert(optional_texts(registrations@) =~= registrations_of(views).take(0));
    while at < applications.len()
        invariant
            at <= applications.len(),
            views == application_views(applications@),
            optional_texts(registrations@) == registrations_of(views).take(at as int),
        decreases applications.len() - at,
    {
        assert(views[at as int] == applications@[at as int]@);
        let ghost before = optional_texts(registrations@);
        let registration = match managed_appimage_registration_id(applications[at].id.as_str()) {
            Some(id) => Some(id.text),
            None => None,
        };
        let ghost shown = optional_text(registration);
        registrations.push(registration);
        assert(optional_texts(registrations@) =~= before.push(shown));
        assert(before.push(shown) =~= registrations_of(views).take(at + 1));
        at = at + 1;
    }
    assert(registrations_of(views).take(at as int) =~= registrations_of(views));
    registrations
}

impl Shell {
    /// Looks whether the pointer is to be refreshed.
    fn poll_pointer(&mut self, now: u64) -> (refresh: bool)
        ensures
            (final(self)@, refresh) == pointer_polled(old(self)@, now),
            old(self).valid() ==> final(self).valid(),
    {
        let due = match self.chrome.menu.pointer_refresh_at {
            Some(at) => now >= at,
            None => false,
        };
        if !due || !self.chrome.menu.awaiting_pointer {
            return false;
        }
        let mut chrome = self.chrome;
        chrome.menu.pointer_refresh_at = None;
        self.set_chrome(chrome);
        true
    }

    /// Takes note of a request to draw everything.
    fn poll_request(&mut self, request: Option<String>, now: u64) -> (new: bool)
        ensures
            (final(self)@, new) == repaint_asked(old(self)@, optional_text(request), now),
            old(self).valid() ==> final(self).valid(),
    {
        let generation = match request {
            Some(generation) => generation,
            None => {
                return false;
            },
        };
        let known = match &self.repaint_generation {
            Some(known) => text_is(known, generation.as_str()),
            None => false,
        };
        if known {
            return false;
        }
        self.repaint_generation = Some(generation);
        let mut chrome = self.chrome;
        chrome.timers.full_repaint_at = Some(now.saturating_add(OUTPUT_SETTLE_DEBOUNCE));
        self.set_chrome(chrome);
        true
    }

    /// Looks whether it is time to draw everything.
    fn poll_repaint(&mut self, now: u64)
        ensures
            final(self)@ == repaint_polled(old(self)@, now),
            old(self).valid() ==> final(self).valid(),
    {
        let due = match self.chrome.timers.full_repaint_at {
            Some(at) => now >= at,
            None => false,
        };
        if due {
            let mut chrome = self.chrome;
            chrome.timers.full_repaint_at = None;
            chrome.dirty = true;
            self.set_chrome(chrome);
        }
    }

    /// Looks whether files are to be read.
    fn poll_files(&mut self, applications: WatchOutcome, desktop: WatchOutcome, now: u64) -> (due: (
        bool,
        bool,
    ))
        ensures
            (final(self)@, due.0, due.1) == files_polled(old(self)@, applications, desktop, now),
            old(self).valid() ==> final(self).valid(),
    {
        let (application_at, application_due) = next_rescan(
            self.chrome.timers.application_rescan_at,
            applications,
            now,
        );
        let (desktop_at, desktop_due) = next_rescan(
            self.chrome.timers.desktop_rescan_at,
            desktop,
            now,
        );
        let mut chrome = self.chrome;
        chrome.timers.application_rescan_at = application_at;
        chrome.timers.desktop_rescan_at = desktop_at;
        self.set_chrome(chrome);
        (application_due, desktop_due)
    }

    /// Looks around: `request` is what the file that asks to draw everything holds, the outcomes
    /// are what the watchers of files say.
    pub fn poll(
        &mut self,
        now: u64,
        request: Option<String>,
        applications: WatchOutcome,
        desktop: WatchOutcome,
    ) -> (poll: Poll)
        ensures
            (final(self)@, poll) == polled(
                old(self)@,
                now,
                optional_text(request),
                applications,
                desktop,
            ),
            old(self).valid() ==> final(self).valid(),
    {
        let refresh_pointer = self.poll_pointer(now);
        let acknowledge = self.poll_request(request, now);
        self.poll_repaint(now);
        let (rescan_applications, rescan_desktop) = self.poll_files(applications, desktop, now);
        Poll { refresh_pointer, acknowledge, rescan_applications, rescan_desktop }
    }

    /// Takes over what the compositor reports of the windows.
    pub fn refresh_window_states(&mut self, states: &Vec<WindowState>)
        requires
            old(self).valid(),
        ensures
            final(self)@ == windows_refreshed(old(self)@, window_views(states@)),
            final(self).valid(),
    {
        reveal(windows_refreshed);
        let ghost before = self@;
        let ghost whole = updated_windows(before.toplevels, window_views(states@));
        let mut updated: Vec<ExactToplevel> = Vec::new();
        let mut changed = false;
        let mut at: usize = 0;
        assert(whole.take(0) =~= before.toplevels.take(0));
        while at < self.toplevels.len()
            invariant
                at <= self.toplevels.len(),
                self@ == before,
                whole == updated_windows(before.toplevels, window_views(states@)),
                updated@ == whole.take(at as int),
                changed == (whole.take(at as int) != before.toplevels.take(at as int)),
            decreases self.toplevels.len() - at,
        {
            let toplevel = &self.toplevels[at];
            let mut window = toplevel.window.duplicate();
            let ghost old_window = toplevel.window;
            let mut differs = false;
            if let Some(place) = find_last(states, &toplevel.identifier) {
                let state = &states[place];
                differs = window.focused != state.focused || window.minimized != state.minimized
                    || window.maximized != state.maximized;
                window.focused = state.focused;
                window.minimized = state.minimized;
                window.maximized = state.maximized;
            }
            let entry = ExactToplevel { identifier: toplevel.identifier.clone(), window };
            assert(entry == whole[at as int]);
            assert(differs == (entry != before.toplevels[at as int]));
            updated.push(entry);
            proof {
                let next = whole.take(at + 1);
                let base = before.toplevels.take(at + 1);
                assert(next =~= whole.take(at as int).push(entry));
                assert(base =~= before.toplevels.take(at as int).push(
                    before.toplevels[at as int],
                ));
                if next == base {
                    assert(next.drop_last() =~= whole.take(at as int));
                    assert(base.drop_last() =~= before.toplevels.take(at as int));
                    assert(next.last() == base.last());
                }
            }
            changed = changed || differs;
            at = at + 1;
        }
        assert(whole.take(at as int) =~= whole);
        assert(before.toplevels.take(at as int) =~= before.toplevels);
        assert(toplevels_sorted(whole)) by {
            assert forall|left: int, right: int| 0 <= left < right < whole.len() implies (
            #[trigger] whole[left]).window.id < (#[trigger] whole[right]).window.id by {
                assert(before.toplevels[left].window.id < before.toplevels[right].window.id);
            }
        }
        self.toplevels = updated;
        if changed {
            let mut chrome = self.chrome;
            chrome.dirty = true;
            self.set_chrome(chrome);
        }
        assert(self@ == windows_refreshed(before, window_views(states@)));
    }

    /// Takes over what the compositor says of a window that is new or has changed. Its state is
    /// kept; which workspace and output it is on is not known until the windows are read again.
    pub fn update_exact_toplevel(
        &mut self,
        id: u32,
        identifier: String,
        title: String,
        app_id: String,
    )
        requires
            old(self).valid(),
            old(self).toplevels.len() < i32::MAX,
        ensures
            final(self).valid(),
            exists|entry: ExactToplevel|
                {
                    let known = toplevel_place(old(self)@.toplevels, id);
                    &&& entry.identifier == identifier
                    &&& entry.window.id == id
                    &&& entry.window.title == title
                    &&& entry.window.app_id == app_id
                    &&& entry.window.workspace_index == None::<u32>
                    &&& entry.window.workspace@ == Seq::<char>::empty()
                    &&& entry.window.output@ == Seq::<char>::empty()
                    &&& match known {
                        Some(at) => {
                            let window = old(self)@.toplevels[at as int].window;
                            &&& entry.window.focused == window.focused
                            &&& entry.window.minimized == window.minimized
                            &&& entry.window.maximized == window.maximized
                        },
                        None => !entry.window.focused && !entry.window.minimized
                            && !entry.window.maximized,
                    }
                    &&& final(self)@ == (ShellView {
                        toplevels: #[trigger] with_toplevel(old(self)@.toplevels, entry),
                        chrome: Chrome { dirty: true, ..old(self)@.chrome },
                        ..old(self)@
                    })
                },
    {
        let ghost before = self@;
        let mut window = GuestWindow::default();
        window.id = id;
        window.title = title;
        window.app_id = app_id;
        if let Some(at) = self.find_toplevel(id) {
            window.focused = self.toplevels[at].window.focused;
            window.minimized = self.toplevels[at].window.minimized;
            window.maximized = self.toplevels[at].window.maximized;
        }
        let entry = ExactToplevel { identifier, window };
        let ghost kept = entry;
        proof {
            adding_keeps_order(before.toplevels, entry);
        }
        insert_toplevel(&mut self.toplevels, entry);
        let mut chrome = self.chrome;
        chrome.dirty = true;
        self.set_chrome(chrome);
        assert(self@ == (ShellView {
            toplevels: with_toplevel(before.toplevels, kept),
            chrome: Chrome { dirty: true, ..before.chrome },
            ..before
        }));
    }

    /// Forgets a window that closed, and closes its menu.
    pub fn toplevel_closed(&mut self, id: u32)
        requires
            old(self).valid(),
        ensures
            final(self)@ == window_closed(old(self)@, id),
            final(self).valid(),
    {
        reveal(window_closed);
        let ghost before = self@;
        proof {
            leaving_out_keeps_order(before.toplevels, id);
            crate::lists::filter_ends(before.toplevels, is_other_window(id));
        }
        let mut kept: Vec<ExactToplevel> = Vec::new();
        let mut at: usize = 0;
        while at < self.toplevels.len()
            invariant
                at <= self.toplevels.len(),
                self@ == before,
                kept@ == before.toplevels.take(at as int).filter(is_other_window(id)),
            decreases self.toplevels.len() - at,
        {
            proof {
                crate::lists::filter_step(before.toplevels, is_other_window(id), at as int);
            }
            if self.toplevels[at].window.id != id {
                let toplevel = &self.toplevels[at];
                let entry = ExactToplevel {
                    identifier: toplevel.identifier.clone(),
                    window: toplevel.window.duplicate(),
                };
                assert(entry == *toplevel);
                kept.push(entry);
            }
            at = at + 1;
        }
        proof {
            crate::lists::filter_ends(before.toplevels, is_other_window(id));
        }
        self.toplevels = kept;
        if self.chrome.menu.menu_kind == MenuKind::Window(id) {
            self.hide_menu();
        }
        let mut chrome = self.chrome;
        chrome.dirty = true;
        self.set_chrome(chrome);
    }

    /// Gives the desktop a size.
    fn resize_desktop(&mut self, size: (u32, u32)) -> (changed: bool)
        requires
            old(self).valid(),
        ensures
            final(self)@ == desktop_sized(old(self)@, size),
            final(self).valid(),
            changed == (old(self)@.chrome.look.desktop_size != size),
    {
        reveal(desktop_sized);
        let mut chrome = self.chrome;
        let changed = chrome.look.desktop_size.0 != size.0 || chrome.look.desktop_size.1 != size.1;
        chrome.look.desktop_size = size;
        chrome.configured.desktop = true;
        self.set_chrome(chrome);
        if chrome.menu.menu_open && changed {
            match chrome.menu.menu_kind {
                MenuKind::Applications => self.apply_applications_menu_geometry(),
                MenuKind::Window(_) => self.hide_menu(),
            }
        }
        changed
    }

    /// Gives the menu surface a size.
    fn resize_menu(&mut self, size: (u32, u32))
        requires
            old(self).valid(),
        ensures
            final(self)@ == menu_sized(old(self)@, size),
            final(self).valid(),
    {
        reveal(menu_sized);
        let mut chrome = self.chrome;
        chrome.menu.menu_size = size;
        chrome.configured.menu = true;
        self.set_chrome(chrome);
        self.clamp_menu_scroll();
    }

    /// Gives the panel a size.
    fn resize_panel(&mut self, size: (u32, u32))
        requires
            old(self).valid(),
        ensures
            final(self)@ == panel_sized(old(self)@, size),
            final(self).valid(),
    {
        reveal(panel_sized);
        let mut chrome = self.chrome;
        chrome.look.panel_size = size;
        chrome.configured.panel = true;
        self.set_chrome(chrome);
    }

    /// Gives the context surface a size.
    fn resize_context(&mut self, size: (u32, u32))
        requires
            old(self).valid(),
        ensures
            final(self)@ == context_sized(old(self)@, size),
            final(self).valid(),
    {
        reveal(context_sized);
        let mut chrome = self.chrome;
        chrome.frame.context_size = size;
        chrome.configured.context = true;
        self.set_chrome(chrome);
    }

    /// Takes note that everything is to be drawn.
    pub fn mark_dirty(&mut self)
        ensures
            final(self)@ == dirtied(old(self)@),
            old(self).valid() ==> final(self).valid(),
    {
        let mut chrome = self.chrome;
        chrome.dirty = true;
        self.set_chrome(chrome);
    }

    /// Takes over the size that the compositor gives a surface. Where the size of the desktop
    /// changes, its items are to be placed anew.
    pub fn configure(&mut self, surface: ShellSurface, size: (u32, u32)) -> (reflow: bool)
        requires
            old(self).valid(),
        ensures
            final(self)@ == configured(old(self)@, surface, size),
            final(self).valid(),
            reflow == (surface == ShellSurface::Desktop && old(self)@.chrome.look.desktop_size
                != nonzero(size)),
    {
        reveal(configured);
        let size: (u32, u32) = (max_u32(size.0, 1), max_u32(size.1, 1));
        let mut reflow = false;
        match surface {
            ShellSurface::Desktop => {
                reflow = self.resize_desktop(size);
            },
            ShellSurface::Panel => self.resize_panel(size),
            ShellSurface::Menu => self.resize_menu(size),
            ShellSurface::Context => self.resize_context(size),
        }
        self.mark_dirty();
        reflow
    }

    /// Takes over the scale that the compositor prefers, which is never below one.
    pub fn set_scale(&mut self, scale: u32)
        ensures
            final(self)@ == if scale == old(self)@.chrome.look.scale_120 {
                old(self)@
            } else {
                ShellView {
                    chrome: Chrome {
                        look: Look {
                            scale_120: max_of(scale as int, 120) as u32,
                            ..old(self)@.chrome.look
                        },
                        dirty: true,
                        ..old(self)@.chrome
                    },
                    ..old(self)@
                }
            },
            final(self)@ == rescaled(old(self)@, scale),
            old(self).valid() ==> final(self).valid(),
    {
        if self.chrome.look.scale_120 != scale {
            let mut chrome = self.chrome;
            chrome.look.scale_120 = max_u32(scale, 120);
            chrome.dirty = true;
            self.set_chrome(chrome);
        }
    }

    /// Puts settings in force, whose theme has those colours.
    pub fn apply_settings(&mut self, settings: &Settings, palette: ThemePalette)
        requires
            old(self).valid(),
        ensures
            final(self)@ == settings_applied(old(self)@, settings@, palette),
            final(self).valid(),
    {
        reveal(settings_applied);
        let offset: usize = taskbar_max_offset(
            self.chrome.look.panel_size.0,
            self.toplevels.len(),
            settings.capped_task_buttons,
        );
        self.pinned = copy_texts(&settings.pinned_applications);
        let mut chrome = self.chrome;
        chrome.look.palette = palette;
        chrome.look.background = settings.background;
        chrome.look.capped_task_buttons = settings.capped_task_buttons;
        chrome.task_offset = min_usize(chrome.task_offset, offset);
        chrome.dirty = true;
        self.set_chrome(chrome);
    }

    /// Takes note that an application was pinned or unpinned in the settings.
    pub fn finish_pin(&mut self, id: &String, pinned: bool)
        ensures
            final(self)@ == pin_saved(old(self)@, id@, pinned),
            old(self).valid() ==> final(self).valid(),
    {
        reveal(pin_saved);
        let ghost before = self@.pinned;
        if !pinned {
            self.pinned = without_text(&self.pinned, id);
        } else if !list_has(&self.pinned, id) {
            self.pinned.push(id.clone());
            assert(self@.pinned =~= before.push(id@));
        }
        let mut chrome = self.chrome;
        chrome.menu.menu_scroll = 0;
        chrome.dirty = true;
        self.set_chrome(chrome);
    }

    /// Takes over the applications that were read, with the width of the row of each.
    pub fn set_applications(&mut self, applications: Vec<Application>, row_widths: Vec<u32>)
        requires
            old(self).valid(),
            row_widths.len() == applications.len(),
        ensures
            final(self)@ == applications_read(
                old(self)@,
                application_views(applications@),
                row_widths@,
            ),
            final(self).valid(),
    {
        reveal(applications_read);
        if same_applications(&applications, &self.applications) {
            return;
        }
        self.registrations = read_registrations(&applications);
        self.applications = applications;
        self.row_widths = row_widths;
        assert(self.valid());
        self.clamp_menu_scroll();
        if self.chrome.menu.menu_open && self.chrome.menu.menu_kind == MenuKind::Applications {
            self.apply_applications_menu_geometry();
        }
        let mut chrome = self.chrome;
        chrome.dirty = true;
        self.set_chrome(chrome);
    }

    /// Does what assistive technology asks of a node that asks for `target`.
    pub fn accessible_request(
        &mut self,
        target: &AccessibleTarget,
        request: &AccessibleRequest,
    ) -> (effect: Effect)
        requires
            old(self).valid(),
        ensures
            (final(self)@, effect) == accessed(old(self)@, target@, request@),
            final(self).valid(),
    {
        reveal(accessed);
        match (request, target) {
            (AccessibleRequest::Click, AccessibleTarget::Activate { action, .. }) => {
                self.activate(action)
            },
            (AccessibleRequest::Click, AccessibleTarget::DesktopAction { path, action }) => {
                self.select_only(path.duplicate());
                self.activate(action)
            },
            (AccessibleRequest::Click, AccessibleTarget::ToggleDesktopSelection(path)) => {
                self.toggle_selection(path.duplicate());
                Effect::Nothing
            },
            (AccessibleRequest::SetValue(text), AccessibleTarget::EditValue) => {
                if matches!(self.context, ContextState::Edit(_)) && !any_control(
                    characters(text.as_str()).as_slice(),
                ) {
                    self.set_edit_input(text.clone());
                }
                Effect::Nothing
            },
            (AccessibleRequest::SetValue(text), AccessibleTarget::ApplicationSearch) => {
                if !any_control(characters(text.as_str()).as_slice()) {
                    self.set_search(text.clone());
                }
                Effect::Nothing
            },
            (AccessibleRequest::ScrollDown, AccessibleTarget::ScrollMenu) => {
                self.scroll_menu(true);
                Effect::Nothing
            },
            (AccessibleRequest::ScrollUp, AccessibleTarget::ScrollMenu) => {
                self.scroll_menu(false);
                Effect::Nothing
            },
            (
                AccessibleRequest::ScrollIntoView,
                AccessibleTarget::Activate { menu_index: Some(index), .. },
            ) => {
                self.scroll_menu_item_into_view(*index);
                Effect::Nothing
            },
            _ => Effect::Nothing,
        }
    }

    /// The keyboard came to one of the surfaces, or to none.
    pub fn keyboard_enter(&mut self, surface: Option<ShellSurface>)
        ensures
            final(self)@ == (ShellView {
                chrome: Chrome {
                    input: InputState { keyboard_focus: surface, ..old(self)@.chrome.input },
                    ..old(self)@.chrome
                },
                ..old(self)@
            }),
            final(self)@ == keyboard_entered(old(self)@, surface),
            old(self).valid() ==> final(self).valid(),
    {
        let mut chrome = self.chrome;
        chrome.input.keyboard_focus = surface;
        self.set_chrome(chrome);
    }

    /// The keyboard left a surface: where it was there, it is nowhere now.
    pub fn keyboard_leave(&mut self, surface: Option<ShellSurface>)
        ensures
            final(self)@ == if surface is Some && old(self)@.chrome.input.keyboard_focus
                == surface {
                ShellView {
                    chrome: Chrome {
                        input: InputState { keyboard_focus: None, ..old(self)@.chrome.input },
                        ..old(self)@.chrome
                    },
                    ..old(self)@
                }
            } else {
                old(self)@
            },
            final(self)@ == keyboard_left(old(self)@, surface),
            old(self).valid() ==> final(self).valid(),
    {
        let left = match (surface, self.chrome.input.keyboard_focus) {
            (Some(surface), Some(focus)) => surface == focus,
            _ => false,
        };
        if left {
            let mut chrome = self.chrome;
            chrome.input.keyboard_focus = None;
            self.set_chrome(chrome);
        }
    }

    /// Other modifier keys are held down.
    pub fn update_modifiers(&mut self, modifiers: Modifiers)
        ensures
            final(self)@ == (ShellView {
                chrome: Chrome {
                    input: InputState { modifiers, ..old(self)@.chrome.input },
                    ..old(self)@.chrome
                },
                ..old(self)@
            }),
            old(self).valid() ==> final(self).valid(),
    {
        let mut chrome = self.chrome;
        chrome.input.modifiers = modifiers;
        self.set_chrome(chrome);
    }

    /// The pointer left: it is over nothing now.
    pub fn pointer_leave(&mut self)
        ensures
            final(self)@ == if old(self)@.hovered is Some {
                ShellView {
                    hovered: None,
                    chrome: Chrome { dirty: true, ..old(self)@.chrome },
                    ..old(self)@
                }
            } else {
                old(self)@
            },
            final(self)@ == pointer_left(old(self)@),
            old(self).valid() ==> final(self).valid(),
    {
        if self.hovered.is_some() {
            self.hovered = None;
            let mut chrome = self.chrome;
            chrome.dirty = true;
            self.set_chrome(chrome);
        }
    }

    /// Opens the menu of the window with that identifier, once the pointer says where.
    pub fn show_titlebar_window_menu(&mut self, identifier: &String, now: u64)
        ensures
            final(self)@ == match identified(old(self)@.toplevels, identifier@) {
                Some(id) => window_menu_opened(
                    old(self)@,
                    id,
                    (0, 0),
                    Some(later(now, crate::menus::WINDOW_MENU_POINTER_REFRESH_DELAY)),
                ),
                None => old(self)@,
            },
            final(self)@ == titlebar_menu_asked(old(self)@, identifier@, now),
            old(self).valid() ==> final(self).valid(),
    {
        if let Some(id) = find_identified(&self.toplevels, identifier) {
            let refresh_at: u64 = now.saturating_add(
                crate::menus::WINDOW_MENU_POINTER_REFRESH_DELAY,
            );
            self.open_window_menu(id, (0, 0), Some(refresh_at));
        }
    }

    /// The other button was pressed on the pixel (`x`, `y`) of the panel: over a window button its
    /// menu opens, elsewhere an open menu closes.
    pub fn secondary_click_panel(&mut self, x: i32, y: i32)
        requires
            old(self).valid(),
        ensures
            final(self)@ == panel_menu_asked(old(self)@, x as int, y as int),
            final(self).valid(),
    {
        let hit = self.target_at_surface(ShellSurface::Panel, x, y);
        if let Some(target) = hit {
            if let ShellAction::ActivateWindow(id) = target.action {
                self.show_taskbar_window_menu(id, x);
                return;
            }
        }
        self.hide_menu();
    }

    /// The other button was pressed on the pixel (`x`, `y`) of the menu surface: over an
    /// application its menu opens, elsewhere an open menu closes.
    pub fn secondary_click_applications_menu(&mut self, x: i32, y: i32)
        requires
            old(self).valid(),
        ensures
            final(self)@ == application_menu_asked(old(self)@, x as int, y as int),
            final(self).valid(),
    {
        let hit = self.target_at_surface(ShellSurface::Menu, x, y);
        let top: i32 = sub_i32(y, self.chrome.menu.menu_origin.1);
        if let Some(target) = hit {
            if let ShellAction::LaunchApplication(id) = target.action {
                self.show_application_context(id, x, top);
                return;
            }
        }
        self.hide_menu();
    }
}

/// The state after the other button was pressed on the panel.
pub open spec fn panel_menu_asked(shell: ShellView, x: int, y: int) -> ShellView {
    match surface_hit(shell, ShellSurface::Panel, x, y) {
        Some(target) => match target.action {
            ActionView::ActivateWindow(id) => window_menu_opened(
                shell,
                id,
                taskbar_menu_origin(shell, x),
                None,
            ),
            _ => menu_hidden(shell),
        },
        None => menu_hidden(shell),
    }
}

/// The state after the other button was pressed on the menu surface.
pub open spec fn application_menu_asked(shell: ShellView, x: int, y: int) -> ShellView {
    match surface_hit(shell, ShellSurface::Menu, x, y) {
        Some(target) => match target.action {
            ActionView::LaunchApplication(id) => application_context(
                shell,
                id,
                x,
                saturate_i32(y - shell.chrome.menu.menu_origin.1),
            ),
            _ => menu_hidden(shell),
        },
        None => menu_hidden(shell),
    }
}

/// The identity of the first window with that identifier.
pub open spec fn identified(toplevels: Seq<ExactToplevel>, identifier: Seq<char>) -> Option<u32>
    decreases toplevels.len(),
{
    if toplevels.len() == 0 {
        None
    } else {
        match identified(toplevels.drop_last(), identifier) {
            Some(id) => Some(id),
            None => if toplevels.last().identifier@ == identifier {
                Some(toplevels.last().window.id)
            } else {
                None
            },
        }
    }
}

/// A window that was found among the first ones is the one that is found among all.
proof fn identified_stays(toplevels: Seq<ExactToplevel>, identifier: Seq<char>, length: int)
    requires
        0 <= length <= toplevels.len(),
        identified(toplevels.take(length), identifier) is Some,
    ensures
        identified(toplevels, identifier) == identified(toplevels.take(length), identifier),
    decreases toplevels.len() - length,
{
    if length < toplevels.len() {
        assert(toplevels.take(length + 1).drop_last() =~= toplevels.take(length));
        identified_stays(toplevels, identifier, length + 1);
    } else {
        assert(toplevels.take(length) =~= toplevels);
    }
}

/// The identity of the first window with that identifier.
fn find_identified(toplevels: &Vec<ExactToplevel>, identifier: &String) -> (id: Option<u32>)
    ensures
        id == identified(toplevels@, identifier@),
{
    let mut at: usize = 0;
    while at < toplevels.len()
        invariant
            at <= toplevels.len(),
            identified(toplevels@.take(at as int), identifier@) is None,
        decreases toplevels.len() - at,
    {
        assert(toplevels@.take(at + 1).drop_last() =~= toplevels@.take(at as int));
        if text_is(&toplevels[at].identifier, identifier.as_str()) {
            proof {
                identified_stays(toplevels@, identifier@, at + 1);
            }
            return Some(toplevels[at].window.id);
        }
        at = at + 1;
    }
    assert(toplevels@.take(at as int) =~= toplevels@);
    None
}

/// Puts a window where it belongs.
fn insert_toplevel(toplevels: &mut Vec<ExactToplevel>, entry: ExactToplevel)
    ensures
        final(toplevels)@ == with_toplevel(old(toplevels)@, entry),
{
    let ghost before = toplevels@;
    let mut at: usize = toplevels.len();
    assert(before.take(at as int) =~= before);
    assert(with_toplevel(before, entry) =~= with_toplevel(before, entry) + before.skip(at as int));
    while at > 0 && toplevels[at - 1].window.id > entry.window.id
        invariant
            at <= toplevels.len(),
            toplevels@ == before,
            with_toplevel(before, entry) == with_toplevel(before.take(at as int), entry)
                + before.skip(at as int),
        decreases at,
    {
        let ghost front = before.take(at as int);
        assert(front.drop_last() =~= before.take(at - 1));
        assert(with_toplevel(before.take(at - 1), entry).push(front.last()) + before.skip(at as int)
            =~= with_toplevel(before.take(at - 1), entry) + before.skip(at - 1));
        at = at - 1;
    }
    let ghost front = before.take(at as int);
    if at > 0 && toplevels[at - 1].window.id == entry.window.id {
        toplevels.set(at - 1, entry);
        assert(toplevels@ =~= front.drop_last().push(entry) + before.skip(at as int));
    } else {
        toplevels.insert(at, entry);
        assert(toplevels@ =~= front.push(entry) + before.skip(at as int));
    }
}

/// The window whose menu a message asks for: what it names as a JSON document, or itself as text.
pub open spec fn requested_window(bytes: Seq<u8>, document: Option<crate::json::JsonView>) -> Option<
    Seq<char>,
> {
    let named = match document {
        Some(document) => text_member(document, "identifier"@),
        None => None,
    };
    match named {
        Some(identifier) if identifier.len() > 0 => Some(identifier),
        _ => if vstd::utf8::valid_utf8(bytes) && vstd::utf8::decode_utf8(bytes).len() > 0 {
            Some(vstd::utf8::decode_utf8(bytes))
        } else {
            None
        },
    }
}

/// The window that a message that was read asks for.
pub fn window_menu_request(bytes: &[u8], document: &Option<crate::json::Json>) -> (identifier: Option<
    String,
>)
    ensures
        optional_text(identifier) == requested_window(
            bytes@,
            match *document {
                Some(document) => Some(document@),
                None => None,
            },
        ),
{
    if let Some(document) = document {
        if let Some(identifier) = document.text("identifier") {
            if !identifier.as_str().is_empty() {
                return Some(identifier.clone());
            }
        }
    }
    match from_utf8(bytes) {
        Some(text) => if text.as_str().is_empty() {
            None
        } else {
            Some(text)
        },
        None => None,
    }
}

/// The window whose menu a message asks for.
pub fn parse_window_menu_request(bytes: &[u8]) -> (identifier: Option<String>)
    ensures
        optional_text(identifier) == requested_window(bytes@, parsed_json(bytes@)),
{
    window_menu_request(bytes, &parse_json(bytes))
}

/// What the pointer does.
#[derive(Debug, Clone, Copy, PartialEq, Eq, Structural)]
pub enum PointerInput {
    Enter,
    Motion,
    Leave,
    PressPrimary,
    ReleasePrimary,
    PressSecondary,
    Axis,
    Other,
}

/// Who deals with what the pointer does.
#[derive(Debug, Clone, Copy, PartialEq, Eq, Structural)]
pub enum PointerRoute {
    /// The pointer is over something else; where it came to the menu, a menu that waits is placed.
    Enter { places_menu: bool },
    /// The pointer is over something else; on the desktop a gesture may go on.
    Motion { gesture: bool },
    Leave,
    DesktopPress,
    Click,
    DesktopRelease,
    DesktopMenu,
    PanelMenu,
    ApplicationsMenu,
    ScrollMenu,
    ScrollDesktop,
    Nothing,
}

/// Who deals with what the pointer does on a surface.
pub open spec fn routed(input: PointerInput, surface: ShellSurface) -> PointerRoute {
    match (input, surface) {
        (PointerInput::Enter, _) => PointerRoute::Enter {
            places_menu: surface == ShellSurface::Menu,
        },
        (PointerInput::Motion, _) => PointerRoute::Motion {
            gesture: surface == ShellSurface::Desktop,
        },
        (PointerInput::Leave, _) => PointerRoute::Leave,
        (PointerInput::PressPrimary, ShellSurface::Desktop) => PointerRoute::DesktopPress,
        (PointerInput::PressPrimary, _) => PointerRoute::Click,
        (PointerInput::ReleasePrimary, ShellSurface::Desktop) => PointerRoute::DesktopRelease,
        (PointerInput::PressSecondary, ShellSurface::Desktop) => PointerRoute::DesktopMenu,
        (PointerInput::PressSecondary, ShellSurface::Panel) => PointerRoute::PanelMenu,
        (PointerInput::PressSecondary, ShellSurface::Menu) => PointerRoute::ApplicationsMenu,
        (PointerInput::Axis, ShellSurface::Menu) => PointerRoute::ScrollMenu,
        (PointerInput::Axis, ShellSurface::Desktop) => PointerRoute::ScrollDesktop,
        _ => PointerRoute::Nothing,
    }
}

/// Who deals with what the pointer does on a surface.
pub fn pointer_frame(input: PointerInput, surface: ShellSurface) -> (route: PointerRoute)
    ensures
        route == routed(input, surface),
{
    match (input, surface) {
        (PointerInput::Enter, _) => PointerRoute::Enter {
            places_menu: surface == ShellSurface::Menu,
        },
        (PointerInput::Motion, _) => PointerRoute::Motion {
            gesture: surface == ShellSurface::Desktop,
        },
        (PointerInput::Leave, _) => PointerRoute::Leave,
        (PointerInput::PressPrimary, ShellSurface::Desktop) => PointerRoute::DesktopPress,
        (PointerInput::PressPrimary, _) => PointerRoute::Click,
        (PointerInput::ReleasePrimary, ShellSurface::Desktop) => PointerRoute::DesktopRelease,
        (PointerInput::PressSecondary, ShellSurface::Desktop) => PointerRoute::DesktopMenu,
        (PointerInput::PressSecondary, ShellSurface::Panel) => PointerRoute::PanelMenu,
        (PointerInput::PressSecondary, ShellSurface::Menu) => PointerRoute::ApplicationsMenu,
        (PointerInput::Axis, ShellSurface::Menu) => PointerRoute::ScrollMenu,
        (PointerInput::Axis, ShellSurface::Desktop) => PointerRoute::ScrollDesktop,
        _ => PointerRoute::Nothing,
    }
}

/// How far a wheel turned: in 120ths of a notch, else in notches, else as it says.
pub fn axis_amount(value120: i32, discrete: i32, absolute: i32) -> (amount: i32)
    ensures
        amount == if value120 != 0 {
            value120
        } else if discrete != 0 {
            discrete
        } else {
            absolute
        },
        amount == turned_by(value120, discrete, absolute),
{
    if value120 != 0 {
        value120
    } else if discrete != 0 {
        discrete
    } else {
        absolute
    }
}

/// The place of the window with the focus that is not minimized, the first of those.
pub open spec fn is_focused_shown() -> spec_fn(WindowView) -> bool {
    |window: WindowView| window.flags.focused && !window.flags.minimized
}

/// The place of the first window that has the focus and is not minimized.
pub fn focused_window(windows: &Vec<WindowState>) -> (place: Option<usize>)
    ensures
        match place {
            Some(at) => at < windows.len() && crate::lists::first_kept(
                window_views(windows@),
                is_focused_shown(),
            ) == Some(windows@[at as int]@),
            None => crate::lists::first_kept(window_views(windows@), is_focused_shown()) is None,
        },
{
    let ghost views = window_views(windows@);
    let ghost keep = is_focused_shown();
    let mut at: usize = 0;
    proof {
        crate::lists::filter_ends(views, keep);
    }
    while at < windows.len()
        invariant
            at <= windows.len(),
            views == window_views(windows@),
            keep == is_focused_shown(),
            views.take(at as int).filter(keep).len() == 0,
        decreases windows.len() - at,
    {
        assert(views[at as int] == windows@[at as int]@);
        if windows[at].focused && !windows[at].minimized {
            proof {
                crate::lists::first_is_kept(views, keep, at as int);
            }
            return Some(at);
        }
        proof {
            crate::lists::filter_step(views, keep, at as int);
        }
        at = at + 1;
    }
    proof {
        crate::lists::filter_ends(views, keep);
    }
    None
}

/// The state after the compositor said which scale it prefers.
pub open spec fn rescaled(shell: ShellView, scale: u32) -> ShellView {
    if scale == shell.chrome.look.scale_120 {
        shell
    } else {
        dirtied(
            ShellView {
                chrome: Chrome {
                    look: Look { scale_120: max_of(scale as int, 120) as u32, ..shell.chrome.look },
                    ..shell.chrome
                },
                ..shell
            },
        )
    }
}

/// The state after the keyboard came to a surface, or to none.
pub open spec fn keyboard_entered(shell: ShellView, surface: Option<ShellSurface>) -> ShellView {
    ShellView {
        chrome: Chrome {
            input: InputState { keyboard_focus: surface, ..shell.chrome.input },
            ..shell.chrome
        },
        ..shell
    }
}

/// The state after the keyboard left a surface.
pub open spec fn keyboard_left(shell: ShellView, surface: Option<ShellSurface>) -> ShellView {
    if surface is Some && shell.chrome.input.keyboard_focus == surface {
        keyboard_entered(shell, None)
    } else {
        shell
    }
}

/// The state after the pointer left.
pub open spec fn pointer_left(shell: ShellView) -> ShellView {
    if shell.hovered is Some {
        dirtied(ShellView { hovered: None, ..shell })
    } else {
        shell
    }
}

/// The state after the menu of a window was asked for at its title.
pub open spec fn titlebar_menu_asked(shell: ShellView, identifier: Seq<char>, now: u64) -> ShellView {
    match identified(shell.toplevels, identifier) {
        Some(id) => window_menu_opened(
            shell,
            id,
            (0, 0),
            Some(later(now, crate::menus::WINDOW_MENU_POINTER_REFRESH_DELAY)),
        ),
        None => shell,
    }
}

/// How far a wheel turned.
pub open spec fn turned_by(value120: i32, discrete: i32, absolute: i32) -> i32 {
    if value120 != 0 {
        value120
    } else if discrete != 0 {
        discrete
    } else {
        absolute
    }
}

/// Every look around does what is due and nothing else: the pointer is refreshed only for a menu
/// that waits for it, a request is acknowledged when it is new and then delays the drawing, and a
/// drawing that is due marks everything and is not due again.
pub proof fn what_is_due_is_done(
    shell: ShellView,
    now: u64,
    request: Option<Seq<char>>,
    applications: WatchOutcome,
    desktop: WatchOutcome,
)
    requires
        now + FILE_MODEL_DEBOUNCE <= u64::MAX,
    ensures
        ({
            let (after, poll) = polled(shell, now, request, applications, desktop);
            let refresh_at = shell.chrome.menu.pointer_refresh_at;
            let repaint_at = shell.chrome.timers.full_repaint_at;
            &&& poll.refresh_pointer == (shell.chrome.menu.awaiting_pointer && refresh_at is Some
                && refresh_at->0 <= now)
            &&& poll.refresh_pointer ==> after.chrome.menu.pointer_refresh_at is None
            &&& !poll.refresh_pointer ==> after.chrome.menu == shell.chrome.menu
            &&& poll.acknowledge == (request is Some && request != shell.repaint_generation)
            &&& poll.acknowledge ==> {
                &&& after.repaint_generation == request
                &&& after.chrome.timers.full_repaint_at == Some((now + OUTPUT_SETTLE_DEBOUNCE) as u64)
                &&& after.chrome.dirty == shell.chrome.dirty
            }
            &&& !poll.acknowledge ==> after.repaint_generation == shell.repaint_generation
            &&& !poll.acknowledge && repaint_at is Some && repaint_at->0 <= now ==> {
                &&& after.chrome.dirty
                &&& after.chrome.timers.full_repaint_at is None
            }
            &&& !poll.acknowledge && !(repaint_at is Some && repaint_at->0 <= now) ==> {
                &&& after.chrome.dirty == shell.chrome.dirty
                &&& after.chrome.timers.full_repaint_at == repaint_at
            }
            &&& after.toplevels == shell.toplevels
            &&& after.selection == shell.selection
            &&& after.context == shell.context
        }),
{
}

/// Each kind of files is read when its own watcher fails, or when a change of it was long enough
/// ago, and never for what happens to the other kind.
pub proof fn files_are_read_when_they_changed(
    shell: ShellView,
    now: u64,
    request: Option<Seq<char>>,
    applications: WatchOutcome,
    desktop: WatchOutcome,
)
    requires
        now + FILE_MODEL_DEBOUNCE <= u64::MAX,
    ensures
        ({
            let (after, poll) = polled(shell, now, request, applications, desktop);
            let before = shell.chrome.timers;
            let next = after.chrome.timers;
            let wait = Some((now + FILE_MODEL_DEBOUNCE) as u64);
            &&& applications is Failed ==> poll.rescan_applications
            &&& applications is Changed ==> !poll.rescan_applications && next.application_rescan_at
                == wait
            &&& applications is Quiet ==> poll.rescan_applications == (
            before.application_rescan_at is Some && before.application_rescan_at->0 <= now)
            &&& applications is Quiet && !poll.rescan_applications ==> next.application_rescan_at
                == before.application_rescan_at
            &&& poll.rescan_applications ==> next.application_rescan_at is None
            &&& desktop is Failed ==> poll.rescan_desktop
            &&& desktop is Changed ==> !poll.rescan_desktop && next.desktop_rescan_at == wait
            &&& desktop is Quiet ==> poll.rescan_desktop == (before.desktop_rescan_at is Some
                && before.desktop_rescan_at->0 <= now)
            &&& desktop is Quiet && !poll.rescan_desktop ==> next.desktop_rescan_at
                == before.desktop_rescan_at
            &&& poll.rescan_desktop ==> next.desktop_rescan_at is None
        }),
{
}

/// The last state that is reported of a window is the one that no other of that window follows.
proof fn the_last_state_is_last(states: Seq<WindowView>, identifier: Seq<char>, place: int)
    requires
        0 <= place < states.len(),
        states[place].identifier == identifier,
        forall|next: int|
            place < next < states.len() ==> (#[trigger] states[next]).identifier != identifier,
    ensures
        last_state(states, identifier) == Some(states[place]),
    decreases states.len(),
{
    if place < states.len() - 1 {
        let front = states.drop_last();
        assert(states[states.len() - 1].identifier != identifier);
        assert(front[place] == states[place]);
        assert forall|next: int| place < next < front.len() implies (
        #[trigger] front[next]).identifier != identifier by {
            assert(states[next].identifier != identifier);
        }
        the_last_state_is_last(front, identifier, place);
    }
}

/// Of a window that is not reported nothing is known.
proof fn unreported_windows_have_no_state(states: Seq<WindowView>, identifier: Seq<char>)
    requires
        forall|at: int|
            0 <= at < states.len() ==> (#[trigger] states[at]).identifier != identifier,
    ensures
        last_state(states, identifier) is None,
    decreases states.len(),
{
    if states.len() > 0 {
        let front = states.drop_last();
        assert(states[states.len() - 1].identifier != identifier);
        assert forall|at: int| 0 <= at < front.len() implies (#[trigger] front[at]).identifier
            != identifier by {
            assert(states[at].identifier != identifier);
        }
        unreported_windows_have_no_state(front, identifier);
    }
}

/// A window that is reported has the focus, is minimized and is maximized as it is said last, and
/// keeps its name and its identity. A window that is not reported stays as it was.
pub proof fn windows_take_what_is_reported(
    shell: ShellView,
    states: Seq<WindowView>,
    at: int,
    place: int,
)
    requires
        0 <= at < shell.toplevels.len(),
    ensures
        ({
            let after = windows_refreshed(shell, states);
            let before = shell.toplevels[at];
            let window = after.toplevels[at].window;
            &&& after.toplevels.len() == shell.toplevels.len()
            &&& after.toplevels[at].identifier == before.identifier
            &&& window.id == before.window.id
            &&& window.title == before.window.title
            &&& window.app_id == before.window.app_id
            &&& window.workspace == before.window.workspace
            &&& window.output == before.window.output
            &&& 0 <= place < states.len() && states[place].identifier == before.identifier@ && (
            forall|next: int|
                place < next < states.len() ==> (#[trigger] states[next]).identifier
                    != before.identifier@) ==> {
                &&& window.focused == states[place].flags.focused
                &&& window.minimized == states[place].flags.minimized
                &&& window.maximized == states[place].flags.maximized
            }
            &&& (forall|other: int|
                0 <= other < states.len() ==> (#[trigger] states[other]).identifier
                    != before.identifier@) ==> after.toplevels[at] == before
            &&& after.toplevels[at] != before ==> after.chrome.dirty
            &&& shell.chrome.dirty ==> after.chrome.dirty
            &&& after.toplevels == shell.toplevels ==> after.chrome.dirty == shell.chrome.dirty
        }),
{
    reveal(windows_refreshed);
    let identifier = shell.toplevels[at].identifier@;
    if 0 <= place < states.len() && states[place].identifier == identifier && (forall|next: int|
        place < next < states.len() ==> (#[trigger] states[next]).identifier != identifier) {
        the_last_state_is_last(states, identifier, place);
    }
    if forall|other: int|
        0 <= other < states.len() ==> (#[trigger] states[other]).identifier != identifier {
        unreported_windows_have_no_state(states, identifier);
    }
}

/// A window that is new or has changed is there, once under its identity, and every other window
/// stays as it was.
pub proof fn windows_are_there_once(
    toplevels: Seq<ExactToplevel>,
    entry: ExactToplevel,
    other: ExactToplevel,
)
    requires
        toplevels_sorted(toplevels),
    ensures
        with_toplevel(toplevels, entry).contains(entry),
        other.window.id == entry.window.id && with_toplevel(toplevels, entry).contains(other)
            ==> other == entry,
        other.window.id != entry.window.id ==> with_toplevel(toplevels, entry).contains(other)
            == toplevels.contains(other),
    decreases toplevels.len(),
{
    let whole = with_toplevel(toplevels, entry);
    let last = whole.len() - 1;
    if toplevels.len() == 0 || toplevels.last().window.id < entry.window.id {
        assert(whole[last] == entry);
        assert forall|at: int| 0 <= at < toplevels.len() implies (#[trigger] whole[at]).window.id
            < entry.window.id && whole[at] == toplevels[at] by {
            assert(at == toplevels.len() - 1 || toplevels[at].window.id < toplevels[toplevels.len()
                - 1].window.id);
        }
        if toplevels.contains(other) {
            let at = choose|at: int| 0 <= at < toplevels.len() && toplevels[at] == other;
            assert(whole[at] == other);
        }
        if whole.contains(other) && other != entry {
            let at = choose|at: int| 0 <= at < whole.len() && whole[at] == other;
            assert(toplevels[at] == other);
        }
    } else if toplevels.last().window.id == entry.window.id {
        assert(whole[last] == entry);
        assert forall|at: int| 0 <= at < last implies (#[trigger] whole[at]).window.id
            < entry.window.id && whole[at] == toplevels[at] by {
            assert(toplevels[at].window.id < toplevels[toplevels.len() - 1].window.id);
        }
        if toplevels.contains(other) && other.window.id != entry.window.id {
            let at = choose|at: int| 0 <= at < toplevels.len() && toplevels[at] == other;
            assert(whole[at] == other);
        }
        if whole.contains(other) && other != entry {
            let at = choose|at: int| 0 <= at < whole.len() && whole[at] == other;
            assert(toplevels[at] == other);
        }
    } else {
        let front = toplevels.drop_last();
        let inner = with_toplevel(front, entry);
        windows_are_there_once(front, entry, other);
        let place = choose|place: int| 0 <= place < inner.len() && inner[place] == entry;
        assert(whole[place] == entry);
        assert(whole[last] == toplevels.last());
        if whole.contains(other) && other != toplevels.last() {
            let at = choose|at: int| 0 <= at < whole.len() && whole[at] == other;
            assert(inner[at] == other);
        }
        if inner.contains(other) {
            let at = choose|at: int| 0 <= at < inner.len() && inner[at] == other;
            assert(whole[at] == other);
        }
        if toplevels.contains(other) && other != toplevels.last() {
            let at = choose|at: int| 0 <= at < toplevels.len() && toplevels[at] == other;
            assert(front[at] == other);
        }
        if front.contains(other) {
            let at = choose|at: int| 0 <= at < front.len() && front[at] == other;
            assert(toplevels[at] == other);
        }
        assert(toplevels[toplevels.len() - 1] == toplevels.last());
    }
}

/// A window that closed is gone, its menu with it, and every other window and its menu stay.
pub proof fn closed_windows_are_gone(shell: ShellView, id: u32, other: ExactToplevel)
    ensures
        ({
            let after = window_closed(shell, id);
            &&& after.toplevels.contains(other) == (shell.toplevels.contains(other)
                && other.window.id != id)
            &&& shell.chrome.menu.menu_kind == MenuKind::Window(id) ==> !after.chrome.menu.menu_open
            &&& shell.chrome.menu.menu_kind != MenuKind::Window(id) ==> after.chrome.menu
                == shell.chrome.menu && after.context == shell.context
            &&& after.chrome.dirty
        }),
{
    reveal(window_closed);
    let keep = is_other_window(id);
    let after = window_closed(shell, id);
    let without = ShellView { toplevels: shell.toplevels.filter(keep), ..shell };
    crate::menus::hidden_menus_are_closed(without);
    assert(after.toplevels == shell.toplevels.filter(keep));
    if shell.toplevels.contains(other) && other.window.id != id {
        let place = choose|place: int|
            0 <= place < shell.toplevels.len() && shell.toplevels[place] == other;
        let at = crate::lists::kept_is_found(shell.toplevels, keep, place);
        assert(after.toplevels[at] == other);
    }
    if after.toplevels.contains(other) {
        let at = choose|at: int| 0 <= at < after.toplevels.len() && after.toplevels[at] == other;
        let place = crate::lists::kept_is_there(shell.toplevels, keep, at);
        assert(shell.toplevels[place] == other);
    }
}

/// A surface takes the size that it is given, at least one pixel each way, and is drawn. The other
/// surfaces keep theirs, except that a menu which is open goes with the desktop: a window menu
/// closes, and the Applications menu stays open.
pub proof fn surfaces_take_their_size(shell: ShellView, surface: ShellSurface, size: (u32, u32))
    ensures
        ({
            let after = configured(shell, surface, size);
            let given = (
                if size.0 == 0 {
                    1u32
                } else {
                    size.0
                },
                if size.1 == 0 {
                    1u32
                } else {
                    size.1
                },
            );
            let before = shell.chrome;
            let next = after.chrome;
            &&& next.dirty
            &&& surface is Desktop ==> next.look.desktop_size == given && next.configured.desktop
            &&& !(surface is Desktop) ==> next.look.desktop_size == before.look.desktop_size
                && next.configured.desktop == before.configured.desktop && next.menu.menu_open
                == before.menu.menu_open
            &&& surface is Panel ==> next.look.panel_size == given && next.configured.panel
            &&& !(surface is Panel) ==> next.look.panel_size == before.look.panel_size
                && next.configured.panel == before.configured.panel
            &&& surface is Menu ==> next.menu.menu_size == given && next.configured.menu
            &&& !(surface is Menu) ==> next.configured.menu == before.configured.menu
            &&& surface is Context ==> next.frame.context_size == given && next.configured.context
            &&& !(surface is Context) ==> next.configured.context == before.configured.context
            &&& surface is Desktop && before.menu.menu_open && given != before.look.desktop_size
                ==> next.menu.menu_open == (before.menu.menu_kind is Applications)
            &&& surface is Desktop && (!before.menu.menu_open || given == before.look.desktop_size)
                ==> next.menu == before.menu && next.frame == before.frame
        }),
{
    reveal(configured);
    reveal(desktop_sized);
    reveal(panel_sized);
    reveal(menu_sized);
    reveal(context_sized);
    reveal(scroll_clamped);
    reveal(applications_placed);
    reveal(menu_hidden);
    reveal(crate::menus::context_hidden);
}

/// Settings that are applied are in force: the pinned applications, the colours and the width of
/// the buttons are theirs, and the buttons are not scrolled past the last one.
pub proof fn settings_are_in_force(shell: ShellView, settings: SettingsView, palette: ThemePalette)
    ensures
        ({
            let after = settings_applied(shell, settings, palette);
            let last = max_task_offset(
                shell.chrome.look.panel_size.0,
                shell.toplevels.len(),
                settings.capped_task_buttons,
            );
            &&& after.pinned == settings.pinned_applications
            &&& after.chrome.look.palette == palette
            &&& after.chrome.look.background == settings.background
            &&& after.chrome.look.capped_task_buttons == settings.capped_task_buttons
            &&& after.chrome.look.desktop_size == shell.chrome.look.desktop_size
            &&& after.chrome.look.panel_size == shell.chrome.look.panel_size
            &&& after.chrome.look.scale_120 == shell.chrome.look.scale_120
            &&& after.chrome.dirty
            &&& shell.chrome.task_offset <= last ==> after.chrome.task_offset
                == shell.chrome.task_offset
            &&& 0 <= last < shell.chrome.task_offset ==> after.chrome.task_offset == last
            &&& after.toplevels == shell.toplevels
            &&& after.applications == shell.applications
        }),
{
    reveal(settings_applied);
}

/// An application that was pinned is pinned, one that was unpinned is not, no other one changes,
/// and the menu starts at its first row.
pub proof fn saved_pins_are_shown(shell: ShellView, id: Seq<char>, pinned: bool, other: Seq<char>)
    ensures
        ({
            let after = pin_saved(shell, id, pinned);
            &&& after.pinned.contains(id) == pinned
            &&& other != id ==> after.pinned.contains(other) == shell.pinned.contains(other)
            &&& pinned && shell.pinned.contains(id) ==> after.pinned == shell.pinned
            &&& pinned && !shell.pinned.contains(id) ==> after.pinned.last() == id
            &&& after.chrome.menu.menu_scroll == 0
            &&& after.chrome.dirty
            &&& after.applications == shell.applications
        }),
{
    reveal(pin_saved);
    let keep = is_other(id);
    let after = pin_saved(shell, id, pinned);
    if !pinned {
        if after.pinned.contains(id) {
            let at = choose|at: int| 0 <= at < after.pinned.len() && after.pinned[at] == id;
            let place = crate::lists::kept_is_there(shell.pinned, keep, at);
        }
        if after.pinned.contains(other) {
            let at = choose|at: int| 0 <= at < after.pinned.len() && after.pinned[at] == other;
            let place = crate::lists::kept_is_there(shell.pinned, keep, at);
            assert(shell.pinned[place] == other);
        }
        if shell.pinned.contains(other) && other != id {
            let place = choose|place: int|
                0 <= place < shell.pinned.len() && shell.pinned[place] == other;
            let at = crate::lists::kept_is_found(shell.pinned, keep, place);
            assert(after.pinned[at] == other);
        }
    } else if !shell.pinned.contains(id) {
        let last = shell.pinned.len() as int;
        assert(after.pinned[last] == id);
        if shell.pinned.contains(other) {
            let at = choose|at: int| 0 <= at < last && shell.pinned[at] == other;
            assert(after.pinned[at] == other);
        }
        if after.pinned.contains(other) && other != id {
            let at = choose|at: int| 0 <= at < after.pinned.len() && after.pinned[at] == other;
            assert(shell.pinned[at] == other);
        }
    }
}

/// Applications that were read take the place of those that were there, and everything is drawn.
/// Where they are the same nothing happens.
pub proof fn read_applications_are_shown(
    shell: ShellView,
    applications: Seq<crate::model::ApplicationView>,
    row_widths: Seq<u32>,
)
    ensures
        ({
            let after = applications_read(shell, applications, row_widths);
            &&& are_same_applications(applications, shell.applications) ==> after == shell
            &&& !are_same_applications(applications, shell.applications) ==> {
                &&& after.applications == applications
                &&& after.row_widths == row_widths
                &&& after.registrations.len() == applications.len()
                &&& after.chrome.dirty
                &&& after.chrome.menu.menu_open == shell.chrome.menu.menu_open
                &&& after.chrome.menu.menu_kind == shell.chrome.menu.menu_kind
                &&& after.chrome.menu.menu_scroll <= shell.chrome.menu.menu_scroll
                &&& after.search == shell.search
            }
        }),
{
    reveal(applications_read);
    reveal(scroll_clamped);
    reveal(applications_placed);
}

/// A node is clicked for what it stands for, and no text with control characters is taken over.
/// Other requests of a node do nothing.
pub proof fn requests_act_on_their_node(
    shell: ShellView,
    action: ActionView,
    row: Option<usize>,
    path: Seq<u8>,
    text: Seq<char>,
)
    ensures
        accessed(shell, AccessView::Activate(action, row), RequestView::Click) == activated(
            shell,
            action,
        ),
        accessed(shell, AccessView::DesktopAction(path, action), RequestView::Click) == activated(
            only_selected(shell, path),
            action,
        ),
        accessed(shell, AccessView::ToggleDesktopSelection(path), RequestView::Click)
            == (selection_toggled(shell, path), Effect::Nothing),
        accessed(shell, AccessView::ScrollMenu, RequestView::ScrollDown) == (
            menu_scrolled(shell, true),
            Effect::Nothing,
        ),
        accessed(shell, AccessView::ScrollMenu, RequestView::ScrollUp) == (
            menu_scrolled(shell, false),
            Effect::Nothing,
        ),
        row is Some ==> accessed(
            shell,
            AccessView::Activate(action, row),
            RequestView::ScrollIntoView,
        ) == (row_in_view(shell, row->0), Effect::Nothing),
        has_control(text) ==> accessed(shell, AccessView::EditValue, RequestView::SetValue(text))
            == (shell, Effect::Nothing) && accessed(
            shell,
            AccessView::ApplicationSearch,
            RequestView::SetValue(text),
        ) == (shell, Effect::Nothing),
        !has_control(text) ==> accessed(
            shell,
            AccessView::ApplicationSearch,
            RequestView::SetValue(text),
        ).0.search == text,
        !has_control(text) && shell.context is Edit ==> ({
            let (after, effect) = accessed(
                shell,
                AccessView::EditValue,
                RequestView::SetValue(text),
            );
            &&& effect is Nothing
            &&& after.context is Edit
            &&& (after.context->Edit_0).input == text
            &&& (after.context->Edit_0).error is None
        }),
        !(shell.context is Edit) ==> accessed(
            shell,
            AccessView::EditValue,
            RequestView::SetValue(text),
        ) == (shell, Effect::Nothing),
        accessed(shell, AccessView::EditValue, RequestView::Click) == (shell, Effect::Nothing),
        accessed(shell, AccessView::ApplicationSearch, RequestView::Click) == (
            shell,
            Effect::Nothing,
        ),
        accessed(shell, AccessView::Activate(action, row), RequestView::SetValue(text)) == (
            shell,
            Effect::Nothing,
        ),
        accessed(shell, AccessView::Activate(action, row), RequestView::ScrollDown) == (
            shell,
            Effect::Nothing,
        ),
{
    reveal(accessed);
    reveal(applications_placed);
}

/// A request goes to the last node of that identity that asks for something; where there is none,
/// nothing is asked for.
pub proof fn requests_find_their_node(nodes: Seq<NodeView>, id: u64)
    ensures
        match target_of(nodes, id) {
            Some(target) => exists|at: int|
                {
                    &&& 0 <= at < nodes.len()
                    &&& (#[trigger] nodes[at]).id == id
                    &&& nodes[at].target == Some(target)
                    &&& forall|next: int|
                        at < next < nodes.len() && (#[trigger] nodes[next]).id == id
                            ==> nodes[next].target is None
                },
            None => forall|at: int|
                0 <= at < nodes.len() && (#[trigger] nodes[at]).id == id ==> nodes[at].target is None,
        },
    decreases nodes.len(),
{
    if nodes.len() > 0 {
        let front = nodes.drop_last();
        let last = nodes.len() - 1;
        assert(nodes[last] == nodes.last());
        assert(forall|at: int| 0 <= at < front.len() ==> front[at] == #[trigger] nodes[at]);
        if !(nodes.last().id == id && nodes.last().target is Some) {
            requests_find_their_node(front, id);
            match target_of(front, id) {
                Some(target) => {
                    let at = choose|at: int|
                        {
                            &&& 0 <= at < front.len()
                            &&& (#[trigger] front[at]).id == id
                            &&& front[at].target == Some(target)
                            &&& forall|next: int|
                                at < next < front.len() && (#[trigger] front[next]).id == id
                                    ==> front[next].target is None
                        };
                    assert(nodes[at].id == id);
                    assert forall|next: int|
                        at < next < nodes.len() && (#[trigger] nodes[next]).id == id implies
                        nodes[next].target is None by {
                        if next < last {
                            assert(front[next].id == id);
                        }
                    }
                },
                None => {
                    assert forall|at: int|
                        0 <= at < nodes.len() && (#[trigger] nodes[at]).id == id implies
                        nodes[at].target is None by {
                        if at < last {
                            assert(front[at].id == id);
                        }
                    }
                },
            }
        }
    }
}

/// The other button opens the menu of the window or the application that it is pressed on, and
/// anything else closes the menu that is open.
pub proof fn the_other_button_opens_menus(shell: ShellView, x: int, y: int)
    ensures
        match surface_hit(shell, ShellSurface::Panel, x, y) {
            Some(target) => target.action is ActivateWindow ==> panel_menu_asked(shell, x, y)
                == window_menu_opened(
                shell,
                target.action->ActivateWindow_0,
                taskbar_menu_origin(shell, x),
                None,
            ),
            None => !panel_menu_asked(shell, x, y).chrome.menu.menu_open,
        },
        match surface_hit(shell, ShellSurface::Menu, x, y) {
            Some(target) => target.action is LaunchApplication ==> application_menu_asked(
                shell,
                x,
                y,
            ) == application_context(
                shell,
                target.action->LaunchApplication_0,
                x,
                saturate_i32(y - shell.chrome.menu.menu_origin.1),
            ),
            None => !application_menu_asked(shell, x, y).chrome.menu.menu_open,
        },
        ({
            let hit = surface_hit(shell, ShellSurface::Panel, x, y);
            hit is Some && !((hit->0).action is ActivateWindow) ==> !panel_menu_asked(
                shell,
                x,
                y,
            ).chrome.menu.menu_open
        }),
        ({
            let hit = surface_hit(shell, ShellSurface::Menu, x, y);
            hit is Some && !((hit->0).action is LaunchApplication) ==> !application_menu_asked(
                shell,
                x,
                y,
            ).chrome.menu.menu_open
        }),
{
    crate::menus::hidden_menus_are_closed(shell);
}

/// A window is found by its identifier: the first one that has it, and none where none has.
pub proof fn identifiers_name_windows(toplevels: Seq<ExactToplevel>, identifier: Seq<char>)
    ensures
        match identified(toplevels, identifier) {
            Some(id) => exists|at: int|
                {
                    &&& 0 <= at < toplevels.len()
                    &&& (#[trigger] toplevels[at]).identifier@ == identifier
                    &&& toplevels[at].window.id == id
                    &&& forall|earlier: int|
                        0 <= earlier < at ==> (#[trigger] toplevels[earlier]).identifier@
                            != identifier
                },
            None => forall|at: int|
                0 <= at < toplevels.len() ==> (#[trigger] toplevels[at]).identifier@ != identifier,
        },
    decreases toplevels.len(),
{
    if toplevels.len() > 0 {
        let front = toplevels.drop_last();
        identifiers_name_windows(front, identifier);
        assert(forall|at: int| 0 <= at < front.len() ==> front[at] == #[trigger] toplevels[at]);
        match identified(front, identifier) {
            Some(id) => {
                let at = choose|at: int|
                    {
                        &&& 0 <= at < front.len()
                        &&& (#[trigger] front[at]).identifier@ == identifier
                        &&& front[at].window.id == id
                        &&& forall|earlier: int|
                            0 <= earlier < at ==> (#[trigger] front[earlier]).identifier@
                                != identifier
                    };
                assert(toplevels[at].window.id == id);
                assert forall|earlier: int| 0 <= earlier < at implies (
                #[trigger] toplevels[earlier]).identifier@ != identifier by {
                    assert(front[earlier].identifier@ != identifier);
                }
            },
            None => {
                assert forall|at: int| 0 <= at < front.len() implies (
                #[trigger] toplevels[at]).identifier@ != identifier by {
                    assert(front[at].identifier@ != identifier);
                }
                assert(toplevels[toplevels.len() - 1] == toplevels.last());
            },
        }
    }
}

/// A message that is no document with an identifier is an identifier itself; an empty one asks for
/// nothing.
pub proof fn messages_name_a_window(text: Seq<char>, document: Option<crate::json::JsonView>)
    ensures
        ({
            let bytes = vstd::utf8::encode_utf8(text);
            &&& document is None && text.len() > 0 ==> requested_window(bytes, document) == Some(text)
            &&& document is None && text.len() == 0 ==> requested_window(bytes, document) is None
            &&& document is Some && text_member(document->0, "identifier"@) is Some && (text_member(
                document->0,
                "identifier"@,
            )->0).len() > 0 ==> requested_window(bytes, document) == text_member(
                document->0,
                "identifier"@,
            )
        }),
{
    broadcast use vstd::utf8::encode_utf8_valid_utf8, vstd::utf8::encode_utf8_decode_utf8;

}

/// Pressing and releasing go to whom they concern: a gesture begins, goes on and ends on the
/// desktop alone, only the menu and the desktop scroll, and each surface has its own menu.
pub proof fn the_pointer_is_routed_by_surface(surface: ShellSurface)
    ensures
        routed(PointerInput::PressPrimary, surface) == (if surface is Desktop {
            PointerRoute::DesktopPress
        } else {
            PointerRoute::Click
        }),
        routed(PointerInput::ReleasePrimary, surface) == (if surface is Desktop {
            PointerRoute::DesktopRelease
        } else {
            PointerRoute::Nothing
        }),
        routed(PointerInput::Motion, surface) == (PointerRoute::Motion {
            gesture: surface is Desktop,
        }),
        routed(PointerInput::Enter, surface) == (PointerRoute::Enter { places_menu: surface is Menu }),
        routed(PointerInput::Leave, surface) is Leave,
        routed(PointerInput::Other, surface) is Nothing,
        routed(PointerInput::Axis, surface) is ScrollMenu <==> surface is Menu,
        routed(PointerInput::Axis, surface) is ScrollDesktop <==> surface is Desktop,
        surface is Panel || surface is Context ==> routed(PointerInput::Axis, surface) is Nothing,
        routed(PointerInput::PressSecondary, surface) is DesktopMenu <==> surface is Desktop,
        routed(PointerInput::PressSecondary, surface) is PanelMenu <==> surface is Panel,
        routed(PointerInput::PressSecondary, surface) is ApplicationsMenu <==> surface is Menu,
        surface is Context ==> routed(PointerInput::PressSecondary, surface) is Nothing,
{
}

/// A wheel that tells fine steps is believed first, then one that tells notches, and a wheel that
/// tells nothing does not turn.
pub proof fn the_finest_steps_are_believed(value120: i32, discrete: i32, absolute: i32)
    ensures
        value120 != 0 ==> turned_by(value120, discrete, absolute) == value120,
        turned_by(0, discrete, absolute) == discrete || discrete == 0,
        turned_by(0, 0, absolute) == absolute,
{
}

/// The window with the focus is the first that has it and is not minimized.
pub proof fn the_focused_window_is_shown(windows: Seq<WindowView>)
    ensures
        match crate::lists::first_kept(windows, is_focused_shown()) {
            Some(window) => {
                &&& window.flags.focused
                &&& !window.flags.minimized
                &&& windows.contains(window)
            },
            None => forall|at: int|
                0 <= at < windows.len() && (#[trigger] windows[at]).flags.focused
                    ==> windows[at].flags.minimized,
        },
{
    crate::lists::first_kept_is_first(windows, is_focused_shown());
    let keep = is_focused_shown();
    match crate::lists::first_kept(windows, keep) {
        Some(window) => {
            assert(keep(window));
        },
        None => {
            assert forall|at: int|
                0 <= at < windows.len() && (#[trigger] windows[at]).flags.focused implies
                windows[at].flags.minimized by {
                assert(!keep(windows[at]));
            }
        },
    }
}

/// Another scale is taken over, though never one below the whole, and everything is drawn; the same
/// scale changes nothing.
pub proof fn scales_are_whole_or_more(shell: ShellView, scale: u32)
    ensures
        ({
            let after = rescaled(shell, scale);
            &&& scale == shell.chrome.look.scale_120 ==> after == shell
            &&& scale != shell.chrome.look.scale_120 ==> after.chrome.dirty
                && after.chrome.look.scale_120 >= 120 && (scale >= 120
                ==> after.chrome.look.scale_120 == scale)
            &&& scale != shell.chrome.look.scale_120 && scale < 120 ==> after.chrome.look.scale_120
                == 120
            &&& after.chrome.look.desktop_size == shell.chrome.look.desktop_size
            &&& after.chrome.menu == shell.chrome.menu
        }),
{
}

/// The keyboard is where it came last until it leaves that surface; leaving another one changes
/// nothing.
pub proof fn the_keyboard_is_where_it_came(shell: ShellView, surface: ShellSurface, other: ShellSurface)
    ensures
        keyboard_entered(shell, Some(surface)).chrome.input.keyboard_focus == Some(surface),
        keyboard_left(keyboard_entered(shell, Some(surface)), Some(surface))
            == keyboard_entered(shell, None),
        keyboard_entered(shell, None).chrome.input.keyboard_focus is None,
        other != surface ==> keyboard_left(keyboard_entered(shell, Some(surface)), Some(other))
            == keyboard_entered(shell, Some(surface)),
        keyboard_left(shell, None) == shell,
        keyboard_entered(shell, Some(surface)).chrome.input.modifiers
            == shell.chrome.input.modifiers,
{
}

/// A pointer that left is over nothing, and only what it was over is drawn anew.
pub proof fn the_pointer_leaves_nothing(shell: ShellView)
    ensures
        pointer_left(shell).hovered is None,
        shell.hovered is None ==> pointer_left(shell) == shell,
        shell.hovered is Some ==> pointer_left(shell).chrome.dirty,
        pointer_left(shell).selection == shell.selection,
        pointer_left(shell).chrome.menu == shell.chrome.menu,
{
}

/// The menu of a window that is asked for at its title opens for that window and waits for the
/// pointer; for a window that is not there nothing opens.
pub proof fn titlebar_menus_wait_for_the_pointer(shell: ShellView, identifier: Seq<char>, now: u64)
    requires
        now + crate::menus::WINDOW_MENU_POINTER_REFRESH_DELAY <= u64::MAX,
    ensures
        ({
            let after = titlebar_menu_asked(shell, identifier, now);
            let found = identified(shell.toplevels, identifier);
            &&& found is None ==> after == shell
            &&& found is Some && toplevel_place(shell.toplevels, found->0) is Some ==> {
                &&& after.chrome.menu.menu_open
                &&& after.chrome.menu.menu_kind == MenuKind::Window(found->0)
                &&& after.chrome.menu.awaiting_pointer
                &&& after.chrome.menu.pointer_refresh_at == Some(
                    (now + crate::menus::WINDOW_MENU_POINTER_REFRESH_DELAY) as u64,
                )
            }
        }),
{
    if let Some(id) = identified(shell.toplevels, identifier) {
        crate::pointer::window_menus_open_for_their_window(
            shell,
            id,
            (0, 0),
            Some(later(now, crate::menus::WINDOW_MENU_POINTER_REFRESH_DELAY)),
        );
    }
}

} // verus!
