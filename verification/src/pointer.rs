//! The pointer: what it hits, and what pressing, moving and releasing it does.
//!
//! Positions are in 256ths of a logical pixel, as the compositor reports them.

use vstd::prelude::*;
use vstd::string::*;
use crate::arith::{add_i32, clamp_i32, sub_i32, u32_as_i32};
use crate::arith::{clamp_of, max_of, min_of, saturate_i32};
use crate::dialogs::context_target_views;
use crate::menus::menu_listing;
use crate::menus::{
    applications_open, context_hidden, context_origin, context_shown, filtered, menu_hidden,
    overlay_size, preferred_size, scroll_clamped, titlebar_menu_origin, titlebar_origin,
    visible_rows, APPLICATION_CONTEXT_WIDTH, DESKTOP_CONTEXT_WIDTH, WINDOW_MENU_HEIGHT,
    WINDOW_MENU_WIDTH,
};
use crate::model::{
    applications_menu_close_target, menu_targets, panel_targets, window_menu_targets, GuestWindow,
    HitTarget, Rect, ShellAction, WorkspaceTab, MENU_ROW_HEIGHT, PANEL_HEIGHT,
};
use crate::model::{
    application_entries, menu, menu_close, panel, rows_of, same_action, target_views, window_controls, window_entries,
    ActionView, TargetView,
};
use crate::paths::{copy_paths, has_path, holds_path, paths_differ, same_place, FilePath};
use crate::paths::path_views;
use crate::selection::{item_clicked, only_selected, selection_stays_distinct, with_paths};
use crate::shell::{activated, application_place, toplevel_place, Effect};
use crate::state::{MenuState, 
    Chrome, ContextView, ExactToplevel, GestureView, ShellView,
};
use crate::state::{
    optional_click, ContextState, DesktopPointerGesture, MenuKind, Shell, ShellSurface,
};
use crate::sway_ipc;

verus! {

/// How many milliseconds two clicks may be apart to count as a double click.
pub const DOUBLE_CLICK_MILLIS: u32 = 400;

/// How far the pointer moves before a press becomes a drag, in logical pixels.
pub const DRAG_THRESHOLD: i64 = 6;

/// The pixel that holds `position`.
pub open spec fn pixel_of(position: i32) -> int {
    position as int / 256
}

/// The first pixel at or behind `position`.
pub open spec fn pixel_after(position: i32) -> int {
    (position + 255) / 256
}

/// The pixel that holds `position`.
pub fn pixel(position: i32) -> (at: i32)
    ensures
        at == pixel_of(position),
        -0x80_0000 <= at <= 0x7f_ffff,
{
    if position >= 0 {
        position / 256
    } else {
        -1 - (-1 - position) / 256
    }
}

/// The first pixel at or behind `position`.
fn next_pixel(position: i32) -> (at: i32)
    ensures
        at == pixel_after(position),
        -0x80_0000 <= at <= 0x80_0000,
{
    let low: i32 = pixel(position);
    if low * 256 == position {
        low
    } else {
        low + 1
    }
}

/// Whether `rect` holds the pixel (`x`, `y`).
pub open spec fn rect_holds(rect: Rect, x: int, y: int) -> bool {
    &&& rect.x <= x < saturate_i32(rect.x + rect.width)
    &&& rect.y <= y < saturate_i32(rect.y + rect.height)
}

impl Rect {
    /// Whether this rectangle holds the pixel (`x`, `y`).
    pub fn contains(self, x: i32, y: i32) -> (holds: bool)
        ensures
            holds == rect_holds(self, x as int, y as int),
    {
        x >= self.x && y >= self.y && x < add_i32(self.x, self.width) && y < add_i32(
            self.y,
            self.height,
        )
    }
}

/// The first of `targets` that holds the pixel (`x`, `y`).
pub open spec fn first_hit(targets: Seq<TargetView>, x: int, y: int) -> Option<TargetView>
    decreases targets.len(),
{
    if targets.len() == 0 {
        None
    } else {
        match first_hit(targets.drop_last(), x, y) {
            Some(target) => Some(target),
            None => if rect_holds(targets.last().rect, x, y) {
                Some(targets.last())
            } else {
                None
            },
        }
    }
}

/// What is hit among the first targets is what is hit among all of them.
proof fn first_hit_stays(targets: Seq<TargetView>, x: int, y: int, length: int)
    requires
        0 <= length <= targets.len(),
        first_hit(targets.take(length), x, y) is Some,
    ensures
        first_hit(targets, x, y) == first_hit(targets.take(length), x, y),
    decreases targets.len() - length,
{
    if length < targets.len() {
        assert(targets.take(length + 1).drop_last() =~= targets.take(length));
        first_hit_stays(targets, x, y, length + 1);
    } else {
        assert(targets.take(length) =~= targets);
    }
}

/// What a target that may be absent looks like.
pub open spec fn optional_target(target: Option<HitTarget>) -> Option<TargetView> {
    match target {
        Some(target) => Some(target@),
        None => None,
    }
}

/// The first of `targets` that holds the pixel (`x`, `y`).
pub fn hit_target(targets: &Vec<HitTarget>, x: i32, y: i32) -> (hit: Option<HitTarget>)
    ensures
        optional_target(hit) == first_hit(target_views(targets@), x as int, y as int),
{
    let ghost views = target_views(targets@);
    let mut at: usize = 0;
    while at < targets.len()
        invariant
            at <= targets.len(),
            views == target_views(targets@),
            first_hit(views.take(at as int), x as int, y as int) is None,
        decreases targets.len() - at,
    {
        assert(views.take(at + 1).drop_last() =~= views.take(at as int));
        assert(views[at as int] == targets@[at as int]@);
        if targets[at].rect.contains(x, y) {
            proof {
                first_hit_stays(views, x as int, y as int, at + 1);
            }
            return Some(targets[at].duplicate());
        }
        at = at + 1;
    }
    assert(views.take(views.len() as int) =~= views);
    None
}

/// The windows of the shell, in their order on the panel.
pub open spec fn windows_of(toplevels: Seq<ExactToplevel>) -> Seq<GuestWindow> {
    toplevels.map_values(|toplevel: ExactToplevel| toplevel.window)
}

/// The targets of the panel.
pub open spec fn shell_panel(shell: ShellView) -> Seq<TargetView> {
    panel(
        shell.chrome.look.panel_size.0,
        windows_of(shell.toplevels),
        shell.chrome.task_offset as nat,
        shell.chrome.look.capped_task_buttons,
    )
}

/// Where the content of the Applications menu begins on its surface.
pub open spec fn content_top(shell: ShellView) -> int {
    let top = max_of(shell.chrome.menu.menu_size.1 - preferred_size(shell).1, 0);
    if top > i32::MAX {
        0
    } else {
        top
    }
}

/// What the pixel (`x`, `y`) of the Applications menu hits.
#[verifier::opaque]
pub open spec fn applications_hit(shell: ShellView, x: int, y: int) -> Option<TargetView> {
    let size = preferred_size(shell);
    let top = content_top(shell);
    if x < 0 || y < top || x >= size.0 || y >= top + size.1 {
        None
    } else {
        first_hit(
            seq![menu_close(size.0 as u32)] + menu(
                size.0 as u32,
                size.1 as u32,
                filtered(shell),
                shell.chrome.menu.menu_scroll as nat,
            ),
            x,
            y - top,
        )
    }
}

/// What the pixel (`x`, `y`) of the surface of a window menu hits.
#[verifier::opaque]
pub open spec fn window_menu_hit(shell: ShellView, id: u32, x: int, y: int) -> Option<TargetView> {
    let left = x - shell.chrome.menu.menu_origin.0;
    let top = y - shell.chrome.menu.menu_origin.1;
    if shell.chrome.menu.awaiting_pointer || left < 0 || top < 0 || left >= WINDOW_MENU_WIDTH || top
        >= WINDOW_MENU_HEIGHT {
        None
    } else {
        match toplevel_place(shell.toplevels, id) {
            Some(at) => first_hit(
                rows_of(window_controls(shell.toplevels[at as int].window), 8, 44, 244),
                left,
                top,
            ),
            None => None,
        }
    }
}

/// What the pixel (`x`, `y`) of the context surface hits: paste only where there is something to.
#[verifier::opaque]
pub open spec fn context_hit(shell: ShellView, x: int, y: int) -> Option<TargetView> {
    if shell.context is Hidden {
        None
    } else {
        match first_hit(context_target_views(shell), x, y) {
            Some(target) => if target.action is DesktopPaste && !shell.chrome.paste_available {
                None
            } else {
                Some(target)
            },
            None => None,
        }
    }
}

/// What the pixel (`x`, `y`) of a surface hits.
#[verifier::opaque]
pub open spec fn surface_hit(shell: ShellView, surface: ShellSurface, x: int, y: int) -> Option<
    TargetView,
> {
    match surface {
        ShellSurface::Panel => first_hit(shell_panel(shell), x, y),
        ShellSurface::Menu => if !shell.chrome.menu.menu_open {
            None
        } else {
            match shell.chrome.menu.menu_kind {
                MenuKind::Applications => applications_hit(shell, x, y),
                MenuKind::Window(id) => window_menu_hit(shell, id, x, y),
            }
        },
        ShellSurface::Desktop => first_hit(shell.visible_targets, x, y),
        ShellSurface::Context => context_hit(shell, x, y),
    }
}

/// The rectangle that a rubber band from one position to another spans.
pub open spec fn band_between(start: (i32, i32), end: (i32, i32)) -> Rect {
    let left = pixel_of(min_of(start.0 as int, end.0 as int) as i32);
    let top = pixel_of(min_of(start.1 as int, end.1 as int) as i32);
    Rect {
        x: left as i32,
        y: top as i32,
        width: (pixel_after(max_of(start.0 as int, end.0 as int) as i32) - left) as i32,
        height: (pixel_after(max_of(start.1 as int, end.1 as int) as i32) - top) as i32,
    }
}

/// A rubber band spans the same rectangle whichever of its corners it was drawn from.
pub proof fn band_is_direction_independent(start: (i32, i32), end: (i32, i32))
    ensures
        band_between(start, end) == band_between(end, start),
{
}

/// The rectangle that a rubber band from one position to another spans: all pixels it touches.
pub fn rect_between(start: (i32, i32), end: (i32, i32)) -> (rect: Rect)
    ensures
        rect == band_between(start, end),
        0 <= rect.width,
        0 <= rect.height,
{
    let (low_x, high_x): (i32, i32) = if start.0 <= end.0 {
        (start.0, end.0)
    } else {
        (end.0, start.0)
    };
    let (low_y, high_y): (i32, i32) = if start.1 <= end.1 {
        (start.1, end.1)
    } else {
        (end.1, start.1)
    };
    let left: i32 = pixel(low_x);
    let top: i32 = pixel(low_y);
    Rect {
        x: left,
        y: top,
        width: next_pixel(high_x) - left,
        height: next_pixel(high_y) - top,
    }
}

/// Whether two rectangles share a pixel.
pub open spec fn rects_meet(left: Rect, right: Rect) -> bool {
    &&& left.x < saturate_i32(right.x + right.width)
    &&& saturate_i32(left.x + left.width) > right.x
    &&& left.y < saturate_i32(right.y + right.height)
    &&& saturate_i32(left.y + left.height) > right.y
}

/// Whether two rectangles share a pixel.
pub fn rects_intersect(left: Rect, right: Rect) -> (meet: bool)
    ensures
        meet == rects_meet(left, right),
{
    left.x < add_i32(right.x, right.width) && add_i32(left.x, left.width) > right.x && left.y
        < add_i32(right.y, right.height) && add_i32(left.y, left.height) > right.y
}

/// Two rectangles that are not empty meet exactly where some pixel lies in both.
pub proof fn meeting_rects_share_a_pixel(left: Rect, right: Rect)
    requires
        left.width > 0,
        left.height > 0,
        right.width > 0,
        right.height > 0,
    ensures
        rects_meet(left, right) <==> exists|x: int, y: int| #[trigger]
            rect_holds(left, x, y) && rect_holds(right, x, y),
{
    if rects_meet(left, right) {
        let x = max_of(left.x as int, right.x as int);
        let y = max_of(left.y as int, right.y as int);
        if x < i32::MAX && y < i32::MAX {
            assert(rect_holds(left, x, y) && rect_holds(right, x, y));
        }
    }
}

/// Whether a pointer that went from `start` to `end` dragged.
pub open spec fn is_drag(start: (i32, i32), end: (i32, i32)) -> bool {
    let x = start.0 - end.0;
    let y = start.1 - end.1;
    x * x + y * y >= (256 * DRAG_THRESHOLD) * (256 * DRAG_THRESHOLD)
}

/// Whether a pointer that went from `start` to `end` dragged: it is at least the threshold away.
pub fn dragged(start: (i32, i32), end: (i32, i32)) -> (drag: bool)
    ensures
        drag == is_drag(start, end),
{
    let x: i128 = start.0 as i128 - end.0 as i128;
    let y: i128 = start.1 as i128 - end.1 as i128;
    assert(0 <= x * x <= 0x1_0000_0000 * 0x1_0000_0000) by (nonlinear_arith)
        requires
            -0x1_0000_0000 <= x <= 0x1_0000_0000,
    ;
    assert(0 <= y * y <= 0x1_0000_0000 * 0x1_0000_0000) by (nonlinear_arith)
        requires
            -0x1_0000_0000 <= y <= 0x1_0000_0000,
    ;
    assert(256 * DRAG_THRESHOLD == 1536);
    assert(1536 * 1536 == 2_359_296);
    x * x + y * y >= 2_359_296
}

/// The items of the shown page that a rubber band touches.
pub open spec fn touched(targets: Seq<TargetView>, band: Rect) -> Seq<Seq<u8>>
    decreases targets.len(),
{
    if targets.len() == 0 {
        seq![]
    } else {
        let before = touched(targets.drop_last(), band);
        match targets.last().action {
            ActionView::OpenDesktopItem(path, _) => if rects_meet(band, targets.last().rect) {
                before.push(path)
            } else {
                before
            },
            _ => before,
        }
    }
}

/// The state with the pointer moved on the desktop.
#[verifier::opaque]
pub open spec fn pointer_moved(shell: ShellView, position: (i32, i32)) -> ShellView {
    match shell.gesture {
        None => shell,
        Some(GestureView::Item(path, start, time)) => ShellView {
            chrome: Chrome { dirty: true, ..shell.chrome },
            ..shell
        },
        Some(GestureView::RubberBand(start, _, base)) => ShellView {
            gesture: Some(GestureView::RubberBand(start, position, base)),
            selection: with_paths(
                base,
                touched(shell.visible_targets, band_between(start, position)),
            ),
            chrome: Chrome { dirty: true, ..shell.chrome },
            ..shell
        },
    }
}

/// The state and the effect of a press on the desktop.
#[verifier::opaque]
pub open spec fn pointer_pressed(shell: ShellView, position: (i32, i32), time: u32) -> (
    ShellView,
    Effect,
) {
    let bare = context_hidden(shell);
    match first_hit(bare.visible_targets, pixel_of(position.0), pixel_of(position.1)) {
        Some(target) => match target.action {
            ActionView::OpenDesktopItem(path, _) => (
                ShellView {
                    gesture: Some(GestureView::Item(path, position, time)),
                    ..item_clicked(bare, path)
                },
                Effect::Nothing,
            ),
            action => activated(bare, action),
        },
        None => {
            let base = if bare.chrome.input.modifiers.ctrl {
                bare.selection
            } else {
                seq![]
            };
            (
                ShellView {
                    selection: base,
                    selection_anchor: None,
                    gesture: Some(GestureView::RubberBand(position, position, base)),
                    chrome: Chrome { dirty: true, ..bare.chrome },
                    ..bare
                },
                Effect::Nothing,
            )
        },
    }
}

/// What releasing the pointer on the desktop leaves to do.
#[derive(Debug, Clone, PartialEq, Eq)]
pub enum Release {
    Nothing,
    /// The item goes to where the pointer is.
    Move(FilePath),
    Open(FilePath),
}

/// A [`Release`] with its path as bytes.
pub enum ReleaseView {
    Nothing,
    Move(Seq<u8>),
    Open(Seq<u8>),
}

impl View for Release {
    type V = ReleaseView;

    open spec fn view(&self) -> ReleaseView {
        match *self {
            Release::Nothing => ReleaseView::Nothing,
            Release::Move(path) => ReleaseView::Move(path@),
            Release::Open(path) => ReleaseView::Open(path@),
        }
    }
}

/// Whether the pointer is over the same thing as before.
pub open spec fn same_hover(hovered: Option<ActionView>, before: Option<ActionView>) -> bool {
    match (hovered, before) {
        (Some(left), Some(right)) => same_action(left, right),
        (None, None) => true,
        _ => false,
    }
}

/// How many milliseconds lie between two times of a clock that wraps.
pub open spec fn elapsed(from: u32, to: u32) -> int {
    if to >= from {
        to - from
    } else {
        0x1_0000_0000 + to - from
    }
}

/// Whether a click on `path` at `time` is the second of a double click.
pub open spec fn is_double_click(shell: ShellView, path: Seq<u8>, time: u32) -> bool {
    match shell.last_click {
        Some((previous, at)) => same_place(previous, path) && elapsed(at, time)
            <= DOUBLE_CLICK_MILLIS,
        None => false,
    }
}

/// The state after the pointer was released on the desktop, and what is left to do.
#[verifier::opaque]
pub open spec fn pointer_released(shell: ShellView, position: (i32, i32)) -> (
    ShellView,
    ReleaseView,
) {
    match shell.gesture {
        None => (shell, ReleaseView::Nothing),
        Some(gesture) => {
            let released = ShellView {
                gesture: None,
                chrome: Chrome { dirty: true, ..shell.chrome },
                ..shell
            };
            match gesture {
                GestureView::RubberBand(_, _, _) => (released, ReleaseView::Nothing),
                GestureView::Item(path, start, time) => if is_drag(start, position) {
                    (released, ReleaseView::Move(path))
                } else if is_double_click(shell, path, time) {
                    (ShellView { last_click: None, ..released }, ReleaseView::Open(path))
                } else {
                    (
                        ShellView { last_click: Some((path, time)), ..released },
                        ReleaseView::Nothing,
                    )
                },
            }
        },
    }
}

/// The rows of the menu of an application.
pub open spec fn application_rows(shell: ShellView, id: Seq<char>) -> int {
    match application_place(shell.applications, id) {
        Some(at) => if shell.registrations[at as int] is Some {
            7
        } else {
            3
        },
        None => 3,
    }
}

/// The state with the menu of an application opened at (`x`, `y`).
#[verifier::opaque]
pub open spec fn application_context(shell: ShellView, id: Seq<char>, x: int, y: int) -> ShellView {
    let size = (
        APPLICATION_CONTEXT_WIDTH,
        (12 + application_rows(shell, id) * MENU_ROW_HEIGHT) as u32,
    );
    context_shown(shell, ContextView::Application(id), size, context_origin(shell, size, x, y))
}

/// The state with the menu of the desktop opened at (`x`, `y`): that of the selected items, or that
/// of the desktop itself.
#[verifier::opaque]
pub open spec fn desktop_context(
    shell: ShellView,
    registered: Option<Option<bool>>,
    x: int,
    y: int,
) -> ShellView {
    let rows = match registered {
        Some(appimage) => crate::dialogs::item_entries(
            shell.selection.len() == 1,
            appimage,
        ).len() as int,
        None => 3,
    };
    let size = (DESKTOP_CONTEXT_WIDTH, (12 + rows * MENU_ROW_HEIGHT) as u32);
    context_shown(
        shell,
        match registered {
            Some(appimage) => ContextView::ItemMenu(appimage),
            None => ContextView::DesktopMenu,
        },
        size,
        context_origin(shell, size, x, y),
    )
}

/// The state with a menu opened for the window `id`, where there is one.
#[verifier::opaque]
pub open spec fn window_menu_opened(
    shell: ShellView,
    id: u32,
    origin: (i32, i32),
    refresh_at: Option<u64>,
) -> ShellView {
    if toplevel_place(shell.toplevels, id) is None {
        shell
    } else {
        ShellView {
            chrome: Chrome { menu: MenuState { menu_open: true, menu_kind: MenuKind::Window(id), awaiting_pointer: refresh_at is Some, pointer_refresh_at: refresh_at, menu_scroll: 0, menu_size: overlay_size(shell), menu_origin: origin, menu_changed: true, ..shell.chrome.menu }, dirty: true, ..shell.chrome },
            ..shell
        }
    }
}

/// Where the menu of a window button opens: above the panel, at the column `x` as far as it fits.
pub open spec fn taskbar_menu_origin(shell: ShellView, x: int) -> (i32, i32) {
    (
        clamp_of(
            x,
            0,
            saturate_i32(max_of(shell.chrome.look.panel_size.0 - WINDOW_MENU_WIDTH, 0)),
        ) as i32,
        saturate_i32(
            saturate_i32(
                saturate_i32(shell.chrome.look.desktop_size.1 as int) - PANEL_HEIGHT,
            ) - WINDOW_MENU_HEIGHT,
        ) as i32,
    )
}

/// The state with the menu scrolled by one row, down or up.
#[verifier::opaque]
pub open spec fn menu_scrolled(shell: ShellView, down: bool) -> ShellView {
    if !applications_open(shell) {
        shell
    } else {
        scrolled_to(
            shell,
            if down {
                min_of(shell.chrome.menu.menu_scroll + 1, usize::MAX as int)
            } else {
                max_of(shell.chrome.menu.menu_scroll - 1, 0)
            },
        )
    }
}

/// The state with the menu scrolled to `row`, as far as it goes.
#[verifier::opaque]
pub open spec fn scrolled_to(shell: ShellView, row: int) -> ShellView {
    let moved = scroll_clamped(
        ShellView { chrome: Chrome { menu: MenuState { menu_scroll: row as usize, ..shell.chrome.menu }, ..shell.chrome }, ..shell },
    );
    ShellView { chrome: Chrome { dirty: true, ..moved.chrome }, ..moved }
}

/// The state with the row at `index` of the menu in view.
#[verifier::opaque]
pub open spec fn row_in_view(shell: ShellView, index: usize) -> ShellView {
    let visible = visible_rows(shell);
    if !shell.chrome.menu.menu_open || visible == 0 {
        shell
    } else {
        scrolled_to(
            shell,
            if index < shell.chrome.menu.menu_scroll {
                index as int
            } else if index >= min_of(shell.chrome.menu.menu_scroll + visible, usize::MAX as int) {
                max_of(min_of(index + 1, usize::MAX as int) - visible, 0)
            } else {
                shell.chrome.menu.menu_scroll as int
            },
        )
    }
}

/// The controls of a window are the entries of its menu where there is no workspace to move it to.
pub proof fn controls_alone(window: GuestWindow)
    ensures
        window_entries(window, Seq::<WorkspaceTab>::empty()) == window_controls(window),
{
    reveal(Seq::filter);
    assert(window_entries(window, Seq::<WorkspaceTab>::empty()) =~= window_controls(window));
}

/// Adds to `paths` each item of `targets` that `band` touches.
fn add_touched(base: &Vec<FilePath>, targets: &Vec<HitTarget>, band: Rect) -> (paths: Vec<FilePath>)
    ensures
        path_views(paths@) == with_paths(
            path_views(base@),
            touched(target_views(targets@), band),
        ),
{
    let ghost views = target_views(targets@);
    let ghost start = path_views(base@);
    let mut paths = copy_paths(base);
    let mut at: usize = 0;
    assert(views.take(0) =~= seq![]);
    while at < targets.len()
        invariant
            at <= targets.len(),
            views == target_views(targets@),
            path_views(paths@) == with_paths(start, touched(views.take(at as int), band)),
        decreases targets.len() - at,
    {
        assert(views.take(at + 1).drop_last() =~= views.take(at as int));
        assert(views[at as int] == targets@[at as int]@);
        let ghost before = touched(views.take(at as int), band);
        if let ShellAction::OpenDesktopItem(path, kind) = &targets[at].action {
            if rects_intersect(band, targets[at].rect) {
                assert(before.push(path@).drop_last() =~= before);
                let ghost old_paths = path_views(paths@);
                if !has_path(&paths, path) {
                    paths.push(path.duplicate());
                    assert(path_views(paths@) =~= old_paths.push(path@));
                }
            }
        }
        at = at + 1;
    }
    assert(views.take(at as int) =~= views);
    paths
}

impl Shell {
    /// The windows of the shell, in ascending order of their identities: a window that gets the
    /// focus keeps its place.
    pub fn windows(&self) -> (windows: Vec<GuestWindow>)
        ensures
            windows@ == windows_of(self@.toplevels),
    {
        let mut windows: Vec<GuestWindow> = Vec::new();
        let mut at: usize = 0;
        while at < self.toplevels.len()
            invariant
                at <= self.toplevels.len(),
                windows@ =~= windows_of(self.toplevels@).take(at as int),
            decreases self.toplevels.len() - at,
        {
            windows.push(self.toplevels[at].window.duplicate());
            at = at + 1;
        }
        windows
    }

    /// The targets of the panel.
    pub fn panel_targets(&self) -> (targets: Vec<HitTarget>)
        requires
            self.valid(),
        ensures
            target_views(targets@) == shell_panel(self@),
    {
        let windows = self.windows();
        panel_targets(
            self.chrome.look.panel_size.0,
            windows.as_slice(),
            self.chrome.task_offset,
            self.chrome.look.capped_task_buttons,
        )
    }

    /// What the pixel (`x`, `y`) of the Applications menu hits.
    fn hit_applications(&self, x: i32, y: i32) -> (hit: Option<HitTarget>)
        requires
            self.valid(),
        ensures
            optional_target(hit) == applications_hit(self@, x as int, y as int),
    {
        reveal(applications_hit);
        let size = self.preferred_menu_size();
        let room: u32 = self.chrome.menu.menu_size.1.saturating_sub(size.1);
        let top: i32 = if room <= i32::MAX as u32 {
            room as i32
        } else {
            0
        };
        if x < 0 || y < top || x as i64 >= size.0 as i64 || y as i64 >= top as i64 + size.1 as i64 {
            return None;
        }
        let applications = self.filtered_applications();
        let mut rows = menu_targets(
            size.0,
            size.1,
            applications.as_slice(),
            self.chrome.menu.menu_scroll,
        );
        let ghost row_views = target_views(rows@);
        let mut targets: Vec<HitTarget> = Vec::new();
        targets.push(applications_menu_close_target(size.0));
        targets.append(&mut rows);
        assert(target_views(targets@) =~= seq![menu_close(size.0)] + row_views);
        hit_target(&targets, x, y - top)
    }

    /// What the pixel (`x`, `y`) of the surface of a window menu hits.
    fn hit_window_menu(&self, id: u32, x: i32, y: i32) -> (hit: Option<HitTarget>)
        ensures
            optional_target(hit) == window_menu_hit(self@, id, x as int, y as int),
    {
        reveal(window_menu_hit);
        let left: i64 = x as i64 - self.chrome.menu.menu_origin.0 as i64;
        let top: i64 = y as i64 - self.chrome.menu.menu_origin.1 as i64;
        if self.chrome.menu.awaiting_pointer || left < 0 || top < 0 || left >= WINDOW_MENU_WIDTH as i64
            || top >= WINDOW_MENU_HEIGHT as i64 {
            return None;
        }
        match self.find_toplevel(id) {
            Some(at) => {
                let none: Vec<WorkspaceTab> = Vec::new();
                proof {
                    controls_alone(self.toplevels@[at as int].window);
                    assert(none@ =~= Seq::<WorkspaceTab>::empty());
                }
                let targets = window_menu_targets(&self.toplevels[at].window, none.as_slice());
                hit_target(&targets, left as i32, top as i32)
            },
            None => None,
        }
    }

    /// What the pixel (`x`, `y`) of a surface hits.
    pub fn target_at_surface(&self, surface: ShellSurface, x: i32, y: i32) -> (hit: Option<
        HitTarget,
    >)
        requires
            self.valid(),
        ensures
            optional_target(hit) == surface_hit(self@, surface, x as int, y as int),
    {
        reveal(surface_hit);
        reveal(context_hit);
        match surface {
            ShellSurface::Panel => hit_target(&self.panel_targets(), x, y),
            ShellSurface::Menu => {
                if !self.chrome.menu.menu_open {
                    return None;
                }
                match self.chrome.menu.menu_kind {
                    MenuKind::Applications => self.hit_applications(x, y),
                    MenuKind::Window(id) => self.hit_window_menu(id, x, y),
                }
            },
            ShellSurface::Desktop => hit_target(&self.visible_targets, x, y),
            ShellSurface::Context => {
                if !self.context.is_visible() {
                    return None;
                }
                match hit_target(&self.context_targets(), x, y) {
                    Some(target) => {
                        if matches!(target.action, ShellAction::DesktopPaste)
                            && !self.chrome.paste_available {
                            None
                        } else {
                            Some(target)
                        }
                    },
                    None => None,
                }
            },
        }
    }

    /// Clicks the pixel (`x`, `y`) of a surface other than the desktop. A click beside an open menu
    /// closes it.
    pub fn click_surface(&mut self, surface: ShellSurface, x: i32, y: i32) -> (effect: Effect)
        requires
            old(self).valid(),
        ensures
            (final(self)@, effect) == (match surface_hit(old(self)@, surface, x as int, y as int) {
                Some(target) => activated(old(self)@, target.action),
                None => (
                    if surface == ShellSurface::Menu && old(self)@.chrome.menu.menu_open {
                        menu_hidden(old(self)@)
                    } else {
                        old(self)@
                    },
                    Effect::Nothing,
                ),
            }),
            final(self).valid(),
    {
        match self.target_at_surface(surface, x, y) {
            Some(target) => self.activate(&target.action),
            None => {
                if surface == ShellSurface::Menu && self.chrome.menu.menu_open {
                    self.hide_menu();
                }
                Effect::Nothing
            },
        }
    }

    /// Remembers what the pointer is over.
    pub fn update_hover(&mut self, surface: ShellSurface, x: i32, y: i32)
        requires
            old(self).valid(),
        ensures
            ({
                let hovered = match surface_hit(old(self)@, surface, x as int, y as int) {
                    Some(target) => Some(target.action),
                    None => None,
                };
                final(self)@ == (if same_hover(hovered, old(self)@.hovered) {
                    old(self)@
                } else {
                    ShellView {
                        hovered,
                        chrome: Chrome { dirty: true, ..old(self)@.chrome },
                        ..old(self)@
                    }
                })
            }),
            final(self).valid(),
    {
        let hovered: Option<ShellAction> = match self.target_at_surface(surface, x, y) {
            Some(target) => Some(target.action),
            None => None,
        };
        let same = match (&hovered, &self.hovered) {
            (Some(left), Some(right)) => left.same(right),
            (None, None) => true,
            _ => false,
        };
        if !same {
            self.hovered = hovered;
            let mut chrome = self.chrome;
            chrome.dirty = true;
            self.set_chrome(chrome);
        }
    }

    /// Presses the pointer on the desktop.
    pub fn desktop_pointer_press(&mut self, position: (i32, i32), time: u32) -> (effect: Effect)
        requires
            old(self).valid(),
        ensures
            (final(self)@, effect) == pointer_pressed(old(self)@, position, time),
            final(self).valid(),
    {
        reveal(pointer_pressed);
        self.hide_context();
        match hit_target(&self.visible_targets, pixel(position.0), pixel(position.1)) {
            Some(target) => {
                if let ShellAction::OpenDesktopItem(path, _) = &target.action {
                    self.select_desktop_item(path.duplicate());
                    self.set_gesture(
                        DesktopPointerGesture::Item {
                            path: path.duplicate(),
                            start: position,
                            time,
                        },
                    );
                    Effect::Nothing
                } else {
                    self.activate(&target.action)
                }
            },
            None => {
                self.begin_band(position);
                Effect::Nothing
            },
        }
    }

    /// Begins a gesture.
    fn set_gesture(&mut self, gesture: DesktopPointerGesture)
        ensures
            final(self)@ == (ShellView { gesture: Some(gesture@), ..old(self)@ }),
    {
        self.gesture = Some(gesture);
    }

    /// Begins a rubber band.
    fn begin_band(&mut self, position: (i32, i32))
        ensures
            ({
                let base = if old(self)@.chrome.input.modifiers.ctrl {
                    old(self)@.selection
                } else {
                    seq![]
                };
                final(self)@ == (ShellView {
                    selection: base,
                    selection_anchor: None,
                    gesture: Some(GestureView::RubberBand(position, position, base)),
                    chrome: Chrome { dirty: true, ..old(self)@.chrome },
                    ..old(self)@
                })
            }),
    {
        if !self.chrome.input.modifiers.ctrl {
            self.selection = Vec::new();
            assert(path_views(self.selection@) =~= seq![]);
        }
        self.selection_anchor = None;
        let base = copy_paths(&self.selection);
        self.gesture = Some(
            DesktopPointerGesture::RubberBand { start: position, current: position, base },
        );
        let mut chrome = self.chrome;
        chrome.dirty = true;
        self.set_chrome(chrome);
    }

    /// Moves the pointer on the desktop.
    pub fn desktop_pointer_motion(&mut self, position: (i32, i32))
        requires
            old(self).valid(),
        ensures
            final(self)@ == pointer_moved(old(self)@, position),
            final(self).valid(),
    {
        reveal(pointer_moved);
        let moved: Option<(Vec<FilePath>, DesktopPointerGesture)> = match &self.gesture {
            None => {
                return ;
            },
            Some(DesktopPointerGesture::Item { .. }) => None,
            Some(DesktopPointerGesture::RubberBand { start, current, base }) => {
                let band = rect_between(*start, position);
                proof {
                    selection_stays_distinct(
                        path_views(base@),
                        touched(self@.visible_targets, band),
                    );
                }
                Some(
                    (
                        add_touched(base, &self.visible_targets, band),
                        DesktopPointerGesture::RubberBand {
                            start: *start,
                            current: position,
                            base: copy_paths(base),
                        },
                    ),
                )
            },
        };
        if let Some((selection, gesture)) = moved {
            self.set_band(selection, gesture);
        }
        let mut chrome = self.chrome;
        chrome.dirty = true;
        self.set_chrome(chrome);
    }

    /// Replaces the selection and the gesture.
    fn set_band(&mut self, selection: Vec<FilePath>, gesture: DesktopPointerGesture)
        ensures
            final(self)@ == (ShellView {
                selection: path_views(selection@),
                gesture: Some(gesture@),
                ..old(self)@
            }),
    {
        self.selection = selection;
        self.gesture = Some(gesture);
    }

    /// What a release of the pointer at `position` means, with the click to remember.
    fn release_at(&self, position: (i32, i32)) -> (outcome: (Release, Option<(FilePath, u32)>))
        requires
            self@.gesture is Some,
        ensures
            outcome.0@ == pointer_released(self@, position).1,
            optional_click(outcome.1) == pointer_released(self@, position).0.last_click,
    {
        reveal(pointer_released);
        let last: Option<(FilePath, u32)> = match &self.last_click {
            Some((path, time)) => Some((path.duplicate(), *time)),
            None => None,
        };
        match &self.gesture {
            Some(DesktopPointerGesture::Item { path, start, time }) => {
                if dragged(*start, position) {
                    return (Release::Move(path.duplicate()), last);
                }
                let double = match &self.last_click {
                    Some((previous, at)) => {
                        let gap: u32 = time.wrapping_sub(*at);
                        assert(gap == elapsed(*at, *time));
                        previous.same(path) && gap <= DOUBLE_CLICK_MILLIS
                    },
                    None => false,
                };
                if double {
                    (Release::Open(path.duplicate()), None)
                } else {
                    (Release::Nothing, Some((path.duplicate(), *time)))
                }
            },
            _ => (Release::Nothing, last),
        }
    }

    /// Releases the pointer on the desktop.
    pub fn desktop_pointer_release(&mut self, position: (i32, i32)) -> (release: Release)
        requires
            old(self).valid(),
        ensures
            (final(self)@, release@) == pointer_released(old(self)@, position),
            final(self).valid(),
    {
        reveal(pointer_released);
        if self.gesture.is_none() {
            return Release::Nothing;
        }
        let (release, click) = self.release_at(position);
        self.end_gesture(click);
        release
    }

    /// Ends a gesture and remembers the last click.
    fn end_gesture(&mut self, click: Option<(FilePath, u32)>)
        ensures
            final(self)@ == (ShellView {
                gesture: None,
                last_click: optional_click(click),
                chrome: Chrome { dirty: true, ..old(self)@.chrome },
                ..old(self)@
            }),
    {
        self.gesture = None;
        self.last_click = click;
        let mut chrome = self.chrome;
        chrome.dirty = true;
        self.set_chrome(chrome);
    }

    /// Opens the menu of an application at (`x`, `y`).
    pub fn show_application_context(&mut self, id: String, x: i32, y: i32)
        requires
            old(self).valid(),
        ensures
            final(self)@ == application_context(old(self)@, id@, x as int, y as int),
            final(self).valid(),
    {
        reveal(application_context);
        assert(self@.registrations.len() == self.registrations@.len());
        assert(self@.applications.len() == self.applications@.len());
        let rows: u32 = match self.find_application(&id) {
            Some(at) => {
                assert((self@.registrations[at as int] is Some) == (self.registrations@[at as int] is Some));
                if self.registrations[at].is_some() {
                    7
                } else {
                    3
                }
            },
            None => 3,
        };
        let size: (u32, u32) = (APPLICATION_CONTEXT_WIDTH, 12 + rows * MENU_ROW_HEIGHT as u32);
        let origin = self.context_corner(size, x, y);
        self.show_context(ContextState::Application(id), size, origin);
    }

    /// Where a context menu of `size` opens for the point (`x`, `y`).
    fn context_corner(&self, size: (u32, u32), x: i32, y: i32) -> (origin: (i32, i32))
        ensures
            origin == context_origin(self@, size, x as int, y as int),
    {
        reveal(context_origin);
        let room: u32 = self.chrome.look.desktop_size.0.saturating_sub(size.0);
        let left: i32 = if room <= i32::MAX as u32 {
            room as i32
        } else {
            0
        };
        let height: u32 = self.chrome.look.desktop_size.1.saturating_sub(
            PANEL_HEIGHT as u32,
        ).saturating_sub(size.1);
        let top: i32 = if height <= i32::MAX as u32 {
            height as i32
        } else {
            0
        };
        (clamp_i32(x, 0, left), clamp_i32(y, 0, top))
    }

    /// Opens the menu of the desktop at (`x`, `y`). For the selected items `registered` says
    /// whether the only one is an AppImage that is among the applications; without it the menu is
    /// that of the desktop itself.
    pub fn show_desktop_context(&mut self, registered: Option<Option<bool>>, x: i32, y: i32)
        requires
            old(self).valid(),
        ensures
            final(self)@ == desktop_context(old(self)@, registered, x as int, y as int),
            final(self).valid(),
    {
        reveal(desktop_context);
        let (context, rows): (ContextState, u32) = match registered {
            Some(appimage) => {
                let mut rows: u32 = 4;
                if self.selection.len() == 1 {
                    rows = rows + 1;
                }
                if let Some(known) = appimage {
                    if !known {
                        rows = rows + 1;
                    }
                }
                (ContextState::ItemMenu { appimage_registered: appimage }, rows)
            },
            None => (ContextState::DesktopMenu, 3),
        };
        let size: (u32, u32) = (DESKTOP_CONTEXT_WIDTH, 12 + rows * MENU_ROW_HEIGHT as u32);
        let origin = self.context_corner(size, x, y);
        self.show_context(context, size, origin);
    }

    /// Selects what a menu for the pixel (`x`, `y`) of the desktop is about: the item there, if it
    /// is not selected already, or nothing. The result says whether there is an item.
    pub fn select_for_menu(&mut self, x: i32, y: i32) -> (item: bool)
        requires
            old(self).valid(),
        ensures
            (final(self)@, item) == (match first_hit(
                old(self)@.visible_targets,
                x as int,
                y as int,
            ) {
                Some(target) if target.action is OpenDesktopItem => (
                    if holds_path(old(self)@.selection, target.action->OpenDesktopItem_0) {
                        old(self)@
                    } else {
                        only_selected(old(self)@, target.action->OpenDesktopItem_0)
                    },
                    true,
                ),
                _ => (
                    ShellView {
                        selection: Seq::empty(),
                        selection_anchor: None,
                        chrome: Chrome { dirty: true, ..old(self)@.chrome },
                        ..old(self)@
                    },
                    false,
                ),
            }),
            final(self).valid(),
    {
        if let Some(target) = hit_target(&self.visible_targets, x, y) {
            if let ShellAction::OpenDesktopItem(path, kind) = &target.action {
                if !has_path(&self.selection, path) {
                    self.select_only(path.duplicate());
                }
                return true;
            }
        }
        self.clear_selection();
        false
    }

    /// Opens the menu of the window `id`, where there is one. With a time to refresh the pointer
    /// at, the menu waits for the pointer to say where it opens.
    pub fn open_window_menu(&mut self, id: u32, origin: (i32, i32), refresh_at: Option<u64>)
        ensures
            final(self)@ == window_menu_opened(old(self)@, id, origin, refresh_at),
            old(self).valid() ==> final(self).valid(),
    {
        reveal(window_menu_opened);
        if self.find_toplevel(id).is_none() {
            return ;
        }
        let overlay = self.menu_overlay_size();
        let mut chrome = self.chrome;
        chrome.menu.menu_open = true;
        chrome.menu.menu_kind = MenuKind::Window(id);
        chrome.menu.awaiting_pointer = refresh_at.is_some();
        chrome.menu.pointer_refresh_at = refresh_at;
        chrome.menu.menu_scroll = 0;
        chrome.menu.menu_size = overlay;
        chrome.menu.menu_origin = origin;
        chrome.menu.menu_changed = true;
        chrome.dirty = true;
        self.set_chrome(chrome);
    }

    /// Opens the menu of the window `id` above its button at the column `x`.
    pub fn show_taskbar_window_menu(&mut self, id: u32, x: i32)
        ensures
            final(self)@ == window_menu_opened(
                old(self)@,
                id,
                taskbar_menu_origin(old(self)@, x as int),
                None,
            ),
            old(self).valid() ==> final(self).valid(),
    {
        let room: i32 = u32_as_i32(self.chrome.look.panel_size.0.saturating_sub(WINDOW_MENU_WIDTH));
        let left: i32 = clamp_i32(x, 0, room);
        let top: i32 = sub_i32(
            sub_i32(u32_as_i32(self.chrome.look.desktop_size.1), PANEL_HEIGHT),
            WINDOW_MENU_HEIGHT as i32,
        );
        self.open_window_menu(id, (left, top), None);
    }

    /// Places a window menu that waited for the pointer: at its column, under the title bar of the
    /// window. Where the window is gone the menu closes.
    pub fn position_pending_window_menu(
        &mut self,
        pointer: Option<i32>,
        frame: Option<(sway_ipc::Rect, i32)>,
    )
        ensures
            final(self)@ == pending_menu_placed(old(self)@, pointer, frame),
            old(self).valid() ==> final(self).valid(),
    {
        reveal(pending_menu_placed);
        if !self.chrome.menu.awaiting_pointer {
            return ;
        }
        match self.chrome.menu.menu_kind {
            MenuKind::Applications => {
                let mut chrome = self.chrome;
                chrome.menu.awaiting_pointer = false;
                chrome.menu.pointer_refresh_at = None;
                self.set_chrome(chrome);
            },
            MenuKind::Window(id) => {
                let known = self.find_toplevel(id).is_some();
                match frame {
                    Some((rect, decoration)) if known => {
                        let origin = titlebar_menu_origin(
                            rect,
                            decoration,
                            self.chrome.look.desktop_size,
                            pointer,
                        );
                        let mut chrome = self.chrome;
                        chrome.menu.menu_origin = origin;
                        chrome.menu.awaiting_pointer = false;
                        chrome.menu.pointer_refresh_at = None;
                        chrome.dirty = true;
                        self.set_chrome(chrome);
                    },
                    _ => self.hide_menu(),
                }
            },
        }
    }

    /// Scrolls the Applications menu by one row.
    pub fn scroll_menu(&mut self, down: bool)
        requires
            old(self).valid(),
        ensures
            final(self)@ == menu_scrolled(old(self)@, down),
            final(self).valid(),
    {
        reveal(menu_scrolled);
        if !self.chrome.menu.menu_open || self.chrome.menu.menu_kind != MenuKind::Applications {
            return ;
        }
        let row: usize = if down {
            self.chrome.menu.menu_scroll.saturating_add(1)
        } else {
            self.chrome.menu.menu_scroll.saturating_sub(1)
        };
        self.scroll_to(row);
    }

    /// Scrolls the Applications menu to `row`, as far as it goes.
    fn scroll_to(&mut self, row: usize)
        requires
            old(self).valid(),
        ensures
            final(self)@ == scrolled_to(old(self)@, row as int),
            final(self).valid(),
    {
        reveal(scrolled_to);
        let mut chrome = self.chrome;
        chrome.menu.menu_scroll = row;
        self.set_chrome(chrome);
        self.clamp_menu_scroll();
        let mut clamped = self.chrome;
        clamped.dirty = true;
        self.set_chrome(clamped);
    }

    /// Scrolls the Applications menu so far that the row at `index` is in view.
    pub fn scroll_menu_item_into_view(&mut self, index: usize)
        requires
            old(self).valid(),
        ensures
            final(self)@ == row_in_view(old(self)@, index),
            final(self).valid(),
    {
        reveal(row_in_view);
        if !self.chrome.menu.menu_open {
            return ;
        }
        let visible: usize = self.visible_menu_rows();
        if visible == 0 {
            return ;
        }
        let row: usize = if index < self.chrome.menu.menu_scroll {
            index
        } else if index >= self.chrome.menu.menu_scroll.saturating_add(visible) {
            index.saturating_add(1).saturating_sub(visible)
        } else {
            self.chrome.menu.menu_scroll
        };
        self.scroll_to(row);
    }
}

/// The state with a window menu placed that waited for the pointer.
#[verifier::opaque]
pub open spec fn pending_menu_placed(
    shell: ShellView,
    pointer: Option<i32>,
    frame: Option<(sway_ipc::Rect, i32)>,
) -> ShellView {
    if !shell.chrome.menu.awaiting_pointer {
        shell
    } else {
        match shell.chrome.menu.menu_kind {
            MenuKind::Applications => ShellView {
                chrome: Chrome { menu: MenuState { awaiting_pointer: false, pointer_refresh_at: None, ..shell.chrome.menu }, ..shell.chrome },
                ..shell
            },
            MenuKind::Window(id) => match frame {
                Some((rect, decoration)) if toplevel_place(shell.toplevels, id) is Some => {
                    let origin = titlebar_origin(
                        rect,
                        decoration as int,
                        shell.chrome.look.desktop_size,
                        pointer,
                    );
                    ShellView {
                        chrome: Chrome { menu: MenuState { menu_origin: (origin.0 as i32, origin.1 as i32), awaiting_pointer: false, pointer_refresh_at: None, ..shell.chrome.menu }, dirty: true, ..shell.chrome },
                        ..shell
                    }
                },
                _ => menu_hidden(shell),
            },
        }
    }
}

/// A position is in the pixel that holds it, and a rectangle holds the pixels from its corner up to,
/// but not on, its far edges.
pub proof fn pixels_hold_their_positions(position: i32, rect: Rect, x: int, y: int)
    ensures
        pixel_of(position) * 256 <= position < (pixel_of(position) + 1) * 256,
        (pixel_after(position) - 1) * 256 < position <= pixel_after(position) * 256,
        rect.x + rect.width <= i32::MAX && rect.y + rect.height <= i32::MAX && rect.width >= 0
            && rect.height >= 0 ==> (rect_holds(rect, x, y) <==> 0 <= x - rect.x < rect.width && 0
            <= y - rect.y < rect.height),
{
}

/// What is hit is the first target that holds the pixel, and nothing where none does.
pub proof fn the_first_target_is_hit(targets: Seq<TargetView>, x: int, y: int)
    ensures
        match first_hit(targets, x, y) {
            Some(hit) => exists|at: int|
                {
                    &&& 0 <= at < targets.len()
                    &&& #[trigger] targets[at] == hit
                    &&& rect_holds(hit.rect, x, y)
                    &&& forall|earlier: int|
                        0 <= earlier < at ==> !rect_holds((#[trigger] targets[earlier]).rect, x, y)
                },
            None => forall|at: int|
                0 <= at < targets.len() ==> !rect_holds((#[trigger] targets[at]).rect, x, y),
        },
    decreases targets.len(),
{
    if targets.len() > 0 {
        let front = targets.drop_last();
        the_first_target_is_hit(front, x, y);
        assert(forall|at: int| 0 <= at < front.len() ==> front[at] == #[trigger] targets[at]);
        match first_hit(front, x, y) {
            Some(hit) => {
                let at = choose|at: int|
                    {
                        &&& 0 <= at < front.len()
                        &&& #[trigger] front[at] == hit
                        &&& rect_holds(hit.rect, x, y)
                        &&& forall|earlier: int|
                            0 <= earlier < at ==> !rect_holds(
                                (#[trigger] front[earlier]).rect,
                                x,
                                y,
                            )
                    };
                assert(targets[at] == hit);
            },
            None => {
                assert(targets[targets.len() - 1] == targets.last());
            },
        }
    }
}

/// A rubber band covers both of the positions that it was drawn between, and no more than the pixels
/// up to them.
pub proof fn bands_cover_their_ends(start: (i32, i32), end: (i32, i32))
    ensures
        ({
            let band = band_between(start, end);
            &&& band.x * 256 <= start.0 <= (band.x + band.width) * 256
            &&& band.x * 256 <= end.0 <= (band.x + band.width) * 256
            &&& band.y * 256 <= start.1 <= (band.y + band.height) * 256
            &&& band.y * 256 <= end.1 <= (band.y + band.height) * 256
            &&& (band.x + 1) * 256 > min_of(start.0 as int, end.0 as int)
            &&& (band.x + band.width - 1) * 256 < max_of(start.0 as int, end.0 as int)
            &&& (band.y + 1) * 256 > min_of(start.1 as int, end.1 as int)
            &&& (band.y + band.height - 1) * 256 < max_of(start.1 as int, end.1 as int)
        }),
{
}

/// A rubber band takes exactly the items whose icons it meets, in their order.
pub proof fn bands_take_what_they_meet(targets: Seq<TargetView>, band: Rect, at: int)
    ensures
        0 <= at < targets.len() && targets[at].action is OpenDesktopItem && rects_meet(
            band,
            targets[at].rect,
        ) ==> touched(targets, band).contains(targets[at].action->OpenDesktopItem_0),
        0 <= at < touched(targets, band).len() ==> exists|place: int|
            0 <= place < targets.len() && (#[trigger] targets[place]).action is OpenDesktopItem
                && targets[place].action->OpenDesktopItem_0 == touched(targets, band)[at]
                && rects_meet(band, targets[place].rect),
    decreases targets.len(),
{
    if targets.len() > 0 {
        let front = targets.drop_last();
        let last = targets.last();
        let before = touched(front, band);
        let all = touched(targets, band);
        bands_take_what_they_meet(front, band, at);
        assert(targets[targets.len() - 1] == last);
        if 0 <= at < front.len() {
            assert(front[at] == targets[at]);
            if before.contains(targets[at].action->OpenDesktopItem_0) {
                let place = choose|place: int|
                    0 <= place < before.len() && before[place]
                        == targets[at].action->OpenDesktopItem_0;
                assert(all[place] == before[place]);
            }
        } else if at == front.len() && last.action is OpenDesktopItem && rects_meet(
            band,
            last.rect,
        ) {
            assert(all[before.len() as int] == last.action->OpenDesktopItem_0);
        }
        if 0 <= at < before.len() {
            let place = choose|place: int|
                0 <= place < front.len() && (#[trigger] front[place]).action is OpenDesktopItem
                    && front[place].action->OpenDesktopItem_0 == before[at] && rects_meet(
                    band,
                    front[place].rect,
                );
            assert(targets[place] == front[place]);
            assert(all[at] == before[at]);
        }
    }
}

/// A pointer that stays within a few pixels does not drag, and one that goes further along one side
/// does; it does not matter which end it came from.
pub proof fn drags_go_some_way(start: (i32, i32), end: (i32, i32))
    ensures
        is_drag(start, end) == is_drag(end, start),
        !is_drag(start, start),
        start.0 - end.0 >= 6 * 256 || end.0 - start.0 >= 6 * 256 || start.1 - end.1 >= 6 * 256
            || end.1 - start.1 >= 6 * 256 ==> is_drag(start, end),
        -4 * 256 <= start.0 - end.0 <= 4 * 256 && -4 * 256 <= start.1 - end.1 <= 4 * 256
            ==> !is_drag(start, end),
{
    let x = start.0 - end.0;
    let y = start.1 - end.1;
    assert(x * x == (-x) * (-x) && y * y == (-y) * (-y)) by (nonlinear_arith);
    assert(x * x >= 0 && y * y >= 0) by (nonlinear_arith);
    assert((end.0 - start.0) * (end.0 - start.0) == x * x) by (nonlinear_arith)
        requires
            x == start.0 - end.0,
    ;
    assert((end.1 - start.1) * (end.1 - start.1) == y * y) by (nonlinear_arith)
        requires
            y == start.1 - end.1,
    ;
    if x >= 1536 || x <= -1536 {
        assert(x * x >= 1536 * 1536) by (nonlinear_arith)
            requires
                x >= 1536 || x <= -1536,
        ;
    }
    if y >= 1536 || y <= -1536 {
        assert(y * y >= 1536 * 1536) by (nonlinear_arith)
            requires
                y >= 1536 || y <= -1536,
        ;
    }
    if -1024 <= x <= 1024 && -1024 <= y <= 1024 {
        assert(x * x <= 1024 * 1024) by (nonlinear_arith)
            requires
                -1024 <= x <= 1024,
        ;
        assert(y * y <= 1024 * 1024) by (nonlinear_arith)
            requires
                -1024 <= y <= 1024,
        ;
    }
}

/// A press on an item takes hold of that item; one beside all items starts a rubber band there and
/// forgets the selection, unless control is held down; one on a shortcut that every desktop has does
/// what the shortcut does. An open menu closes.
pub proof fn presses_take_hold_of_what_is_hit(shell: ShellView, position: (i32, i32), time: u32)
    ensures
        ({
            let hit = first_hit(shell.visible_targets, pixel_of(position.0), pixel_of(position.1));
            let (after, effect) = pointer_pressed(shell, position, time);
            match hit {
                Some(target) => match target.action {
                    ActionView::OpenDesktopItem(path, _) => {
                        &&& after.gesture == Some(GestureView::Item(path, position, time))
                        &&& effect == Effect::Nothing
                        &&& after.context is Hidden
                        &&& !shell.chrome.input.modifiers.ctrl
                            && !shell.chrome.input.modifiers.shift ==> after.selection == seq![path]
                            && after.selection_anchor == Some(path)
                    },
                    action => (after, effect) == activated(context_hidden(shell), action),
                },
                None => {
                    let base = if shell.chrome.input.modifiers.ctrl {
                        shell.selection
                    } else {
                        Seq::empty()
                    };
                    &&& after.gesture == Some(GestureView::RubberBand(position, position, base))
                    &&& after.selection == base
                    &&& after.selection_anchor is None
                    &&& effect == Effect::Nothing
                    &&& after.context is Hidden
                },
            }
        }),
{
    reveal(pointer_pressed);
    reveal(context_hidden);
    reveal(item_clicked);
}

/// While a rubber band is drawn, what was selected before stays selected and what the band meets is
/// selected too. While an item is held, the selection stays.
pub proof fn bands_select_as_they_grow(shell: ShellView, position: (i32, i32))
    ensures
        match shell.gesture {
            Some(GestureView::RubberBand(start, _, base)) => paths_differ(base) ==> forall|
                path: Seq<u8>,
            | #[trigger]
                holds_path(pointer_moved(shell, position).selection, path) == (holds_path(
                    base,
                    path,
                ) || holds_path(
                    touched(shell.visible_targets, band_between(start, position)),
                    path,
                )),
            _ => pointer_moved(shell, position).selection == shell.selection,
        },
        pointer_moved(shell, position).gesture is Some <==> shell.gesture is Some,
        shell.gesture is None ==> pointer_moved(shell, position) == shell,
{
    reveal(pointer_moved);
    if let Some(GestureView::RubberBand(start, _, base)) = shell.gesture {
        if paths_differ(base) {
            selection_stays_distinct(
                base,
                touched(shell.visible_targets, band_between(start, position)),
            );
        }
    }
}

/// An item that was dragged is moved; one that was clicked twice in time is opened; one that was
/// clicked once is remembered for that. A rubber band ends without effect, and whatever was held is
/// let go.
pub proof fn releases_move_or_open(shell: ShellView, position: (i32, i32))
    ensures
        pointer_released(shell, position).0.gesture is None,
        pointer_released(shell, position).0.selection == shell.selection,
        match shell.gesture {
            Some(GestureView::Item(path, start, time)) => match pointer_released(
                shell,
                position,
            ).1 {
                ReleaseView::Move(moved) => moved == path && is_drag(start, position),
                ReleaseView::Open(opened) => {
                    &&& opened == path
                    &&& !is_drag(start, position)
                    &&& shell.last_click is Some
                    &&& same_place((shell.last_click->0).0, path)
                    &&& elapsed((shell.last_click->0).1, time) <= DOUBLE_CLICK_MILLIS
                    &&& pointer_released(shell, position).0.last_click is None
                },
                ReleaseView::Nothing => {
                    &&& !is_drag(start, position)
                    &&& pointer_released(shell, position).0.last_click == Some((path, time))
                    &&& shell.last_click is Some && same_place((shell.last_click->0).0, path)
                        ==> elapsed((shell.last_click->0).1, time) > DOUBLE_CLICK_MILLIS
                },
            },
            _ => pointer_released(shell, position).1 == ReleaseView::Nothing,
        },
{
    reveal(pointer_released);
}

/// The time between two clicks is counted round the end of the clock.
pub proof fn clocks_wrap(from: u32, to: u32)
    ensures
        0 <= elapsed(from, to) <= u32::MAX,
        (from + elapsed(from, to)) % 0x1_0000_0000 == to,
{
}

/// Each surface is hit at its own targets: none of a menu that is closed, none of a surface that is
/// hidden, and paste only where there is something to paste.
pub proof fn surfaces_are_hit_at_their_targets(
    shell: ShellView,
    surface: ShellSurface,
    x: int,
    y: int,
)
    ensures
        surface_hit(shell, ShellSurface::Desktop, x, y) == first_hit(shell.visible_targets, x, y),
        surface_hit(shell, ShellSurface::Panel, x, y) == first_hit(shell_panel(shell), x, y),
        !shell.chrome.menu.menu_open ==> surface_hit(shell, ShellSurface::Menu, x, y) is None,
        shell.context is Hidden ==> surface_hit(shell, ShellSurface::Context, x, y) is None,
        ({
            let under = first_hit(context_target_views(shell), x, y);
            let hit = surface_hit(shell, ShellSurface::Context, x, y);
            &&& hit is Some ==> hit == under
            &&& !(shell.context is Hidden) && under is Some && (shell.chrome.paste_available
                || !(under->0.action is DesktopPaste)) ==> hit == under
            &&& hit is Some && hit->0.action is DesktopPaste ==> shell.chrome.paste_available
        }),
        surface_hit(shell, ShellSurface::Menu, x, y) is Some && applications_open(shell)
            ==> ({
            let action = surface_hit(shell, ShellSurface::Menu, x, y)->0.action;
            action is LaunchApplication || action is CloseApplicationsMenu
        }),
{
    reveal(surface_hit);
    reveal(context_hit);
    reveal(applications_hit);
    if applications_open(shell) && surface_hit(shell, ShellSurface::Menu, x, y) is Some {
        let size = preferred_size(shell);
        let rows = menu(
            size.0 as u32,
            size.1 as u32,
            filtered(shell),
            shell.chrome.menu.menu_scroll as nat,
        );
        let targets = seq![menu_close(size.0 as u32)] + rows;
        the_first_target_is_hit(targets, x, y - content_top(shell));
        let hit = surface_hit(shell, ShellSurface::Menu, x, y)->0;
        let at = choose|at: int| 0 <= at < targets.len() && #[trigger] targets[at] == hit;
        if at > 0 {
            assert(targets[at] == rows[at - 1]);
        }
    }
}

/// The menu of an application has room for each of its rows, as has that of the desktop, and each is
/// about what it was opened for.
pub proof fn menus_have_room_for_their_rows(
    shell: ShellView,
    id: Seq<char>,
    registered: Option<Option<bool>>,
    x: int,
    y: int,
)
    ensures
        ({
            let after = application_context(shell, id, x, y);
            &&& after.context == ContextView::Application(id)
            &&& match application_place(shell.applications, id) {
                Some(at) => after.chrome.frame.context_size.1 == 12 + application_entries(
                    id,
                    shell.pinned.contains(id),
                    shell.registrations[at as int] is Some,
                ).len() * MENU_ROW_HEIGHT,
                None => true,
            }
        }),
        ({
            let after = desktop_context(shell, registered, x, y);
            &&& registered is None <==> after.context == ContextView::DesktopMenu
            &&& registered is Some ==> after.context == ContextView::ItemMenu(registered->0)
            &&& after.chrome.frame.context_size.1 == 12 + context_target_views(after).len()
                * MENU_ROW_HEIGHT
            &&& after.selection == shell.selection
        }),
{
    reveal(application_context);
    reveal(desktop_context);
    reveal(crate::menus::context_shown);
}

/// The wheel scrolls the open Applications menu by one row, within its bounds, and a row that is asked
/// for comes into view.
pub proof fn scrolling_shows_the_next_row(shell: ShellView, index: usize)
    requires
        applications_open(shell),
        menu_listing(shell).len() < usize::MAX,
        shell.chrome.menu.menu_scroll < usize::MAX,
        0 <= visible_rows(shell) < i32::MAX,
    ensures
        ({
            let down = menu_scrolled(shell, true).chrome.menu.menu_scroll;
            let up = menu_scrolled(shell, false).chrome.menu.menu_scroll;
            let visible = visible_rows(shell);
            let count = menu_listing(shell).len();
            let before = shell.chrome.menu.menu_scroll;
            &&& before + 1 + visible <= count ==> down == before + 1
            &&& down <= before + 1
            &&& 1 <= before && before - 1 + visible <= count ==> up == before - 1
            &&& up <= before
            &&& index < count && visible > 0 && before + visible <= count ==> ({
                let shown = row_in_view(shell, index).chrome.menu.menu_scroll;
                shown <= index < shown + visible
            })
        }),
{
    reveal(menu_scrolled);
    reveal(scrolled_to);
    reveal(row_in_view);
    reveal(scroll_clamped);
    reveal(visible_rows);
    reveal(menu_listing);
    reveal(preferred_size);
}

/// The menu of a window opens only where there is such a window, and is about it.
pub proof fn window_menus_open_for_their_window(
    shell: ShellView,
    id: u32,
    origin: (i32, i32),
    refresh_at: Option<u64>,
)
    ensures
        ({
            let after = window_menu_opened(shell, id, origin, refresh_at);
            &&& toplevel_place(shell.toplevels, id) is None ==> after == shell
            &&& toplevel_place(shell.toplevels, id) is Some ==> {
                &&& after.chrome.menu.menu_open
                &&& after.chrome.menu.menu_kind == MenuKind::Window(id)
                &&& after.chrome.menu.menu_origin == origin
                &&& after.chrome.menu.awaiting_pointer == (refresh_at is Some)
                &&& after.chrome.menu.pointer_refresh_at == refresh_at
            }
        }),
{
    reveal(window_menu_opened);
}

/// A menu that waits for the pointer is placed once: a window menu under the title of its window, as
/// long as that window is there, and otherwise it is closed. A menu that does not wait stays.
pub proof fn waiting_menus_are_placed_once(
    shell: ShellView,
    pointer: Option<i32>,
    frame: Option<(sway_ipc::Rect, i32)>,
)
    ensures
        ({
            let after = pending_menu_placed(shell, pointer, frame);
            &&& !shell.chrome.menu.awaiting_pointer ==> after == shell
            &&& shell.chrome.menu.awaiting_pointer && shell.chrome.menu.menu_kind is Window ==> ({
                let id = shell.chrome.menu.menu_kind->Window_0;
                let there = frame is Some && toplevel_place(shell.toplevels, id) is Some;
                &&& there ==> {
                    let origin = titlebar_origin(
                        (frame->0).0,
                        (frame->0).1 as int,
                        shell.chrome.look.desktop_size,
                        pointer,
                    );
                    &&& !after.chrome.menu.awaiting_pointer
                    &&& after.chrome.menu.pointer_refresh_at is None
                    &&& after.chrome.menu.menu_open == shell.chrome.menu.menu_open
                    &&& after.chrome.menu.menu_origin == (origin.0 as i32, origin.1 as i32)
                    &&& after.chrome.dirty
                }
                &&& !there ==> !after.chrome.menu.menu_open
            })
            &&& shell.chrome.menu.awaiting_pointer && shell.chrome.menu.menu_kind is Applications
                ==> !after.chrome.menu.awaiting_pointer && after.chrome.menu.menu_open
                == shell.chrome.menu.menu_open
            &&& after.selection == shell.selection
            &&& after.toplevels == shell.toplevels
        }),
{
    reveal(pending_menu_placed);
    crate::menus::hidden_menus_are_closed(shell);
}

/// A menu is hit only inside its own rectangle, wherever it lies on its surface: there a window menu
/// is hit at the rows of its window, and the Applications menu at its close button and its rows.
pub proof fn menus_are_hit_inside_their_rectangle(shell: ShellView, x: int, y: int)
    requires
        shell.chrome.menu.menu_open,
    ensures
        shell.chrome.menu.menu_kind is Window ==> ({
            let id = shell.chrome.menu.menu_kind->Window_0;
            let place = toplevel_place(shell.toplevels, id);
            let left = x - shell.chrome.menu.menu_origin.0;
            let top = y - shell.chrome.menu.menu_origin.1;
            let inside = 0 <= left < WINDOW_MENU_WIDTH && 0 <= top < WINDOW_MENU_HEIGHT;
            let hit = surface_hit(shell, ShellSurface::Menu, x, y);
            &&& !inside || shell.chrome.menu.awaiting_pointer || place is None ==> hit is None
            &&& inside && !shell.chrome.menu.awaiting_pointer && place is Some ==> hit == first_hit(
                rows_of(window_controls(shell.toplevels[place->0 as int].window), 8, 44, 244),
                left,
                top,
            )
        }),
        applications_open(shell) ==> ({
            let (width, height) = preferred_size(shell);
            let top = if shell.chrome.menu.menu_size.1 >= height {
                shell.chrome.menu.menu_size.1 - height
            } else {
                0
            };
            let inside = 0 <= x < width && 0 <= y - top < height;
            let hit = surface_hit(shell, ShellSurface::Menu, x, y);
            &&& top <= i32::MAX && !inside ==> hit is None
            &&& top <= i32::MAX && inside ==> hit == first_hit(
                seq![menu_close(width as u32)] + menu(
                    width as u32,
                    height as u32,
                    filtered(shell),
                    shell.chrome.menu.menu_scroll as nat,
                ),
                x,
                y - top,
            )
        }),
{
    reveal(surface_hit);
    reveal(window_menu_hit);
    reveal(applications_hit);
}

} // verus!
