//! What the surfaces show, as lists of things to draw in physical pixels.

use vstd::prelude::*;
use vstd::string::*;
use crate::arith::{add_i32, max_i32, sub_i32, u32_as_i32};
use crate::arith::{max_of, saturate_i32};
use crate::canvas::{inset, nonzero_size, scale_coord, scale_rect, Color};
use crate::canvas::{inset_rect, scaled, scaled_rect};
use crate::dialogs::context_target_views;
use crate::menus::{WINDOW_MENU_HEIGHT, WINDOW_MENU_WIDTH};
use crate::menus::{applications_open, filtered, preferred_size, visible_rows};
use crate::model::{
    applications_menu_close_target, menu_targets, panel_targets, window_menu_targets,
    DesktopItemKind, HitTarget, Rect, ShellAction, WorkspaceTab, APPLICATIONS_MENU_FOOTER_HEIGHT,
    APPLICATIONS_MENU_HEADER_HEIGHT, MENU_ROW_HEIGHT,
};
use crate::model::{
    menu, menu_close, panel, rows_of, same_action, target_views, window_controls, ActionView,
    TargetView,
};
use crate::paths::{from_utf8_lossy, has_path, holds_path};
use crate::paths::{file_name_of, lossy_text};
use crate::pointer::rect_between;
use crate::pointer::{band_between, controls_alone, windows_of};
use crate::shell::{application_place, toplevel_place};
use crate::state::{
    ContextState, DesktopPointerGesture, EditOperation, MenuKind, PasteSession, Shell, ThemePalette,
};
use crate::state::{ContextView, EditTargetView, GestureView, SessionView, ShellView};
use crate::text::{elide, join, list_has};
use crate::text::{elided, optional_text};

verus! {

/// A thing to draw, in physical pixels. The size of a text is in logical points.
#[derive(Debug)]
pub enum DrawOp {
    Fill { rect: Rect, color: Color },
    Outline { rect: Rect, thickness: i32, color: Color },
    /// A text from its upper left corner on; where `limit` is given, as much of it as is no wider
    /// in logical pixels.
    Text { text: String, x: i32, y: i32, size: u32, limit: Option<i32>, color: Color },
    /// A text in the middle of a rectangle.
    Centered { text: String, rect: Rect, size: u32, color: Color },
    /// The icon of the application or of the desktop item at that place in its list.
    Icon { rect: Rect, place: usize },
}

/// A [`DrawOp`] with its text as a sequence.
pub enum Paint {
    Fill(Rect, Color),
    Outline(Rect, int, Color),
    Text(Seq<char>, (int, int), u32, Option<int>, Color),
    Centered(Seq<char>, Rect, u32, Color),
    Icon(Rect, int),
}

impl View for DrawOp {
    type V = Paint;

    open spec fn view(&self) -> Paint {
        match *self {
            DrawOp::Fill { rect, color } => Paint::Fill(rect, color),
            DrawOp::Outline { rect, thickness, color } => Paint::Outline(
                rect,
                thickness as int,
                color,
            ),
            DrawOp::Text { text, x, y, size, limit, color } => Paint::Text(
                text@,
                (x as int, y as int),
                size,
                match limit {
                    Some(limit) => Some(limit as int),
                    None => None,
                },
                color,
            ),
            DrawOp::Centered { text, rect, size, color } => Paint::Centered(
                text@,
                rect,
                size,
                color,
            ),
            DrawOp::Icon { rect, place } => Paint::Icon(rect, place as int),
        }
    }
}

/// The things of a list, each by its view.
pub open spec fn paints(ops: Seq<DrawOp>) -> Seq<Paint> {
    ops.map_values(|op: DrawOp| op@)
}

/// Appends one thing.
fn draw(ops: &mut Vec<DrawOp>, op: DrawOp)
    ensures
        paints(final(ops)@) == paints(old(ops)@).push(op@),
{
    ops.push(op);
    assert(paints(ops@) =~= paints(old(ops)@).push(op@));
}

/// A filled rectangle, given in logical pixels.
pub open spec fn fill_paint(rect: Rect, scale: u32, color: Color) -> Paint {
    Paint::Fill(scaled_rect(rect, scale), color)
}

/// A text, whose corner is given in logical pixels.
pub open spec fn text_paint(
    text: Seq<char>,
    corner: (int, int),
    scale: u32,
    size: u32,
    color: Color,
) -> Paint {
    Paint::Text(text, (scaled(corner.0, scale), scaled(corner.1, scale)), size, None, color)
}

/// A text of limited width, whose corner is given in logical pixels.
pub open spec fn limited_paint(
    text: Seq<char>,
    corner: (int, int),
    scale: u32,
    size: u32,
    limit: int,
    color: Color,
) -> Paint {
    Paint::Text(text, (scaled(corner.0, scale), scaled(corner.1, scale)), size, Some(limit), color)
}

/// A text in the middle of a rectangle that is given in logical pixels.
pub open spec fn centered_paint(
    text: Seq<char>,
    rect: Rect,
    scale: u32,
    size: u32,
    color: Color,
) -> Paint {
    Paint::Centered(text, scaled_rect(rect, scale), size, color)
}

/// Appends a filled rectangle.
fn fill(ops: &mut Vec<DrawOp>, rect: Rect, scale: u32, color: Color)
    ensures
        paints(final(ops)@) == paints(old(ops)@).push(fill_paint(rect, scale, color)),
{
    draw(ops, DrawOp::Fill { rect: scale_rect(rect, scale), color });
}

/// Appends a text.
fn write(ops: &mut Vec<DrawOp>, text: String, corner: (i32, i32), scale: u32, size: u32, color: Color)
    ensures
        paints(final(ops)@) == paints(old(ops)@).push(
            text_paint(text@, (corner.0 as int, corner.1 as int), scale, size, color),
        ),
{
    let x: i32 = scale_coord(corner.0, scale);
    let y: i32 = scale_coord(corner.1, scale);
    draw(ops, DrawOp::Text { text, x, y, size, limit: None, color });
}

/// Appends a text of limited width.
fn write_limited(
    ops: &mut Vec<DrawOp>,
    text: String,
    corner: (i32, i32),
    scale: u32,
    size: u32,
    limit: i32,
    color: Color,
)
    ensures
        paints(final(ops)@) == paints(old(ops)@).push(
            limited_paint(
                text@,
                (corner.0 as int, corner.1 as int),
                scale,
                size,
                limit as int,
                color,
            ),
        ),
{
    let x: i32 = scale_coord(corner.0, scale);
    let y: i32 = scale_coord(corner.1, scale);
    draw(ops, DrawOp::Text { text, x, y, size, limit: Some(limit), color });
}

/// Appends a text in the middle of a rectangle.
fn center(ops: &mut Vec<DrawOp>, text: String, rect: Rect, scale: u32, size: u32, color: Color)
    ensures
        paints(final(ops)@) == paints(old(ops)@).push(
            centered_paint(text@, rect, scale, size, color),
        ),
{
    draw(ops, DrawOp::Centered { text, rect: scale_rect(rect, scale), size, color });
}

/// The part of `rect` at (`x`, `y`) in it, of that size.
pub open spec fn part_of(rect: Rect, x: int, y: int, width: i32, height: i32) -> Rect {
    Rect {
        x: saturate_i32(rect.x + x) as i32,
        y: saturate_i32(rect.y + y) as i32,
        width,
        height,
    }
}

/// The part of `rect` at (`x`, `y`) in it, of that size.
fn part(rect: Rect, x: i32, y: i32, width: i32, height: i32) -> (inner: Rect)
    ensures
        inner == part_of(rect, x as int, y as int, width, height),
{
    Rect { x: add_i32(rect.x, x), y: add_i32(rect.y, y), width, height }
}

/// Whether the pointer is over the target of an action.
pub open spec fn is_hovered(shell: ShellView, action: ActionView) -> bool {
    match shell.hovered {
        Some(hovered) => same_action(hovered, action),
        None => false,
    }
}

/// What a desktop item is, where an action opens one.
pub open spec fn item_kind(action: ActionView) -> Option<DesktopItemKind> {
    match action {
        ActionView::OpenDesktopItem(_, kind) => Some(kind),
        _ => None,
    }
}

/// Whether a target of the desktop is drawn as a folder.
pub open spec fn looks_like_folder(action: ActionView) -> bool {
    action is OpenFiles || action is OpenShared || item_kind(action) == Some(
        DesktopItemKind::Directory,
    )
}

/// A folder; the one that is shared has a mark.
#[verifier::opaque]
pub open spec fn folder_picture(rect: Rect, shared: bool, scale: u32, theme: ThemePalette) -> Seq<
    Paint,
> {
    let folder = part_of(rect, 18, 8, 52, 42);
    let body = seq![
        fill_paint(part_of(folder, 4, 0, 23, 10), scale, theme.folder_tab),
        fill_paint(folder, scale, theme.folder),
    ];
    if shared {
        body.push(fill_paint(part_of(folder, 19, 13, 14, 15), scale, theme.surface))
    } else {
        body
    }
}

/// A document; a link has an arrow.
#[verifier::opaque]
pub open spec fn document_picture(
    rect: Rect,
    kind: Option<DesktopItemKind>,
    scale: u32,
    theme: ThemePalette,
) -> Seq<Paint> {
    let document = part_of(rect, 24, 5, 40, 48);
    let sheet = fill_paint(
        document,
        scale,
        if kind == Some(DesktopItemKind::AppImage) {
            theme.selection
        } else {
            theme.raised
        },
    );
    if kind == Some(DesktopItemKind::SymbolicLink) {
        seq![
            sheet,
            centered_paint("↗"@, part_of(document, 18, 21, 20, 22), scale, 15, theme.text),
        ]
    } else {
        seq![sheet]
    }
}

/// The picture of a target of the desktop: a folder, its icon, or a document.
pub open spec fn shortcut_picture(
    target: TargetView,
    place: int,
    has_icon: bool,
    scale: u32,
    theme: ThemePalette,
) -> Seq<Paint> {
    if looks_like_folder(target.action) {
        folder_picture(target.rect, target.action is OpenShared, scale, theme)
    } else if has_icon {
        seq![Paint::Icon(scaled_rect(part_of(target.rect, 18, 4, 52, 52), scale), place)]
    } else {
        document_picture(target.rect, item_kind(target.action), scale, theme)
    }
}

/// Draws a folder.
fn draw_folder(ops: &mut Vec<DrawOp>, rect: Rect, shared: bool, scale: u32, theme: &ThemePalette)
    ensures
        paints(final(ops)@) == paints(old(ops)@) + folder_picture(rect, shared, scale, *theme),
{
    reveal(folder_picture);
    let ghost before = paints(ops@);
    let folder = part(rect, 18, 8, 52, 42);
    fill(ops, part(folder, 4, 0, 23, 10), scale, theme.folder_tab);
    fill(ops, folder, scale, theme.folder);
    if shared {
        fill(ops, part(folder, 19, 13, 14, 15), scale, theme.surface);
    }
    assert(paints(ops@) =~= before + folder_picture(rect, shared, scale, *theme));
}

/// Draws a document.
fn draw_document(
    ops: &mut Vec<DrawOp>,
    rect: Rect,
    kind: Option<DesktopItemKind>,
    scale: u32,
    theme: &ThemePalette,
)
    ensures
        paints(final(ops)@) == paints(old(ops)@) + document_picture(rect, kind, scale, *theme),
{
    reveal(document_picture);
    let ghost before = paints(ops@);
    let document = part(rect, 24, 5, 40, 48);
    let color = if kind == Some(DesktopItemKind::AppImage) {
        theme.selection
    } else {
        theme.raised
    };
    fill(ops, document, scale, color);
    if kind == Some(DesktopItemKind::SymbolicLink) {
        center(ops, "↗".to_string(), part(document, 18, 21, 20, 22), scale, 15, theme.text);
    }
    assert(paints(ops@) =~= before + document_picture(rect, kind, scale, *theme));
}

/// A target of the desktop: its picture and its name under it.
pub open spec fn shortcut(
    target: TargetView,
    place: int,
    has_icon: bool,
    scale: u32,
    theme: ThemePalette,
) -> Seq<Paint> {
    shortcut_picture(target, place, has_icon, scale, theme).push(
        centered_paint(
            target.label,
            part_of(target.rect, 0, 57, target.rect.width, 26),
            scale,
            13,
            theme.text,
        ),
    )
}

/// Draws a target of the desktop. `place` is where it stands in its list, `has_icon` whether an
/// icon was found for it.
pub fn draw_desktop_shortcut(
    ops: &mut Vec<DrawOp>,
    target: &HitTarget,
    place: usize,
    has_icon: bool,
    scale_120: u32,
    theme: &ThemePalette,
)
    ensures
        paints(final(ops)@) == paints(old(ops)@) + shortcut(
            target@,
            place as int,
            has_icon,
            scale_120,
            *theme,
        ),
{
    let ghost before = paints(ops@);
    let rect = target.rect;
    let kind: Option<DesktopItemKind> = match &target.action {
        ShellAction::OpenDesktopItem(_, kind) => Some(*kind),
        _ => None,
    };
    let shared = matches!(target.action, ShellAction::OpenShared);
    let folder = shared || matches!(target.action, ShellAction::OpenFiles) || kind == Some(
        DesktopItemKind::Directory,
    );
    if folder {
        draw_folder(ops, rect, shared, scale_120, theme);
    } else if has_icon {
        draw(ops, DrawOp::Icon { rect: scale_rect(part(rect, 18, 4, 52, 52), scale_120), place });
    } else {
        draw_document(ops, rect, kind, scale_120, theme);
    }
    assert(paints(ops@) =~= before + shortcut_picture(
        target@,
        place as int,
        has_icon,
        scale_120,
        *theme,
    ));
    center(
        ops,
        target.label.clone(),
        part(rect, 0, 57, rect.width, 26),
        scale_120,
        13,
        theme.text,
    );
    assert(paints(ops@) =~= before + shortcut(
        target@,
        place as int,
        has_icon,
        scale_120,
        *theme,
    ));
}

/// Whether a target of the desktop is a selected item.
pub open spec fn is_selected(shell: ShellView, action: ActionView) -> bool {
    match action {
        ActionView::OpenDesktopItem(path, _) => holds_path(shell.selection, path),
        _ => false,
    }
}

/// The target of the desktop at `place`, with the marks of selection and pointer under it.
pub open spec fn desktop_item(shell: ShellView, place: int, has_icon: bool) -> Seq<Paint> {
    let target = shell.visible_targets[place];
    let scale = shell.chrome.look.scale_120;
    let theme = shell.chrome.look.palette;
    (if is_selected(shell, target.action) {
        seq![fill_paint(inset_rect(target.rect, 2), scale, theme.selection)]
    } else {
        seq![]
    }) + (if is_hovered(shell, target.action) {
        seq![fill_paint(inset_rect(target.rect, 3), scale, theme.hover)]
    } else {
        seq![]
    }) + shortcut(target, place, has_icon, scale, theme)
}

/// The first `count` targets of the desktop.
pub open spec fn desktop_items(shell: ShellView, icons: Seq<bool>, count: int) -> Seq<Paint>
    decreases count,
{
    if count <= 0 {
        seq![]
    } else {
        desktop_items(shell, icons, count - 1) + desktop_item(shell, count - 1, icons[count - 1])
    }
}

/// What the desktop shows on its background.
pub open spec fn desktop_scene(shell: ShellView, icons: Seq<bool>) -> Seq<Paint> {
    let scale = shell.chrome.look.scale_120;
    desktop_items(shell, icons, shell.visible_targets.len() as int) + (match shell.gesture {
        Some(GestureView::RubberBand(start, current, _)) => seq![
            Paint::Outline(
                scaled_rect(band_between(start, current), scale),
                max_of(scaled(2, scale), 1),
                shell.chrome.look.palette.focus,
            ),
        ],
        _ => seq![],
    })
}

/// How a button of the panel looks: its colour, its text, and whether it is marked as active.
pub open spec fn panel_look(shell: ShellView, target: TargetView) -> Option<
    (Color, Seq<char>, bool),
> {
    let theme = shell.chrome.look.palette;
    let plain = if is_hovered(shell, target.action) {
        theme.hover
    } else {
        theme.surface
    };
    match target.action {
        ActionView::ToggleApplications => {
            let active = applications_open(shell);
            Some(
                (
                    if active {
                        theme.selection
                    } else {
                        plain
                    },
                    "Applications"@,
                    active,
                ),
            )
        },
        ActionView::OpenFiles => Some((plain, "Files"@, false)),
        ActionView::OpenShared => Some((plain, "Share"@, false)),
        ActionView::ActivateWindow(id) => match toplevel_place(shell.toplevels, id) {
            Some(at) => {
                let window = shell.toplevels[at as int].window;
                Some(
                    (
                        if window.focused {
                            theme.raised
                        } else {
                            plain
                        },
                        elided(window.title@, 25),
                        window.focused,
                    ),
                )
            },
            None => Some((plain, target.label, false)),
        },
        ActionView::TaskbarPrevious => Some((plain, "<"@, false)),
        ActionView::TaskbarNext => Some((plain, ">"@, false)),
        ActionView::ShowDesktop => Some((plain, ""@, false)),
        _ => None,
    }
}

/// A button of the panel.
pub open spec fn panel_button(shell: ShellView, target: TargetView) -> Seq<Paint> {
    let scale = shell.chrome.look.scale_120;
    let theme = shell.chrome.look.palette;
    let button = scaled_rect(target.rect, scale);
    match panel_look(shell, target) {
        Some((color, label, active)) => seq![Paint::Fill(button, color)] + (if active {
            seq![
                Paint::Fill(
                    Rect {
                        x: button.x,
                        y: saturate_i32(
                            button.y + saturate_i32(button.height - scaled(3, scale)),
                        ) as i32,
                        width: button.width,
                        height: scaled(3, scale) as i32,
                    },
                    theme.focus,
                ),
            ]
        } else {
            seq![]
        }) + seq![
            centered_paint(
                label,
                target.rect,
                scale,
                13,
                if color == theme.selection {
                    theme.selected_text
                } else {
                    theme.text
                },
            ),
        ],
        None => seq![],
    }
}

/// The buttons of the panel, one after the other.
pub open spec fn panel_buttons(shell: ShellView, targets: Seq<TargetView>) -> Seq<Paint>
    decreases targets.len(),
{
    if targets.len() == 0 {
        seq![]
    } else {
        panel_buttons(shell, targets.drop_last()) + panel_button(shell, targets.last())
    }
}

/// The width of the panel, which is never zero.
pub open spec fn panel_width(shell: ShellView) -> u32 {
    max_of(shell.chrome.look.panel_size.0 as int, 1) as u32
}

/// What the panel shows on its background.
pub open spec fn panel_scene(shell: ShellView) -> Seq<Paint> {
    let width = panel_width(shell);
    seq![
        fill_paint(
            Rect { x: 0, y: 0, width: saturate_i32(width as int) as i32, height: 1 },
            shell.chrome.look.scale_120,
            shell.chrome.look.palette.border,
        ),
    ] + panel_buttons(
        shell,
        panel(
            width,
            windows_of(shell.toplevels),
            shell.chrome.task_offset as nat,
            shell.chrome.look.capped_task_buttons,
        ),
    )
}

impl Shell {
    /// Whether the pointer is over the target of an action.
    fn hovers(&self, action: &ShellAction) -> (hovers: bool)
        ensures
            hovers == is_hovered(self@, action@),
    {
        match &self.hovered {
            Some(hovered) => hovered.same(action),
            None => false,
        }
    }

    /// Whether a target of the desktop is a selected item.
    fn selects(&self, action: &ShellAction) -> (selected: bool)
        ensures
            selected == is_selected(self@, action@),
    {
        match action {
            ShellAction::OpenDesktopItem(path, _) => has_path(&self.selection, path),
            _ => false,
        }
    }

    /// Draws the target of the desktop at `at`, with the marks of selection and pointer under it.
    fn draw_item(&self, ops: &mut Vec<DrawOp>, at: usize, has_icon: bool)
        requires
            at < self.visible_targets.len(),
        ensures
            paints(final(ops)@) == paints(old(ops)@) + desktop_item(self@, at as int, has_icon),
    {
        let ghost before = paints(ops@);
        let scale: u32 = self.chrome.look.scale_120;
        let theme = self.chrome.look.palette;
        let target = &self.visible_targets[at];
        assert(self@.visible_targets[at as int] == target@);
        let selected = self.selects(&target.action);
        if selected {
            fill(ops, inset(target.rect, 2), scale, theme.selection);
        }
        let hovered = self.hovers(&target.action);
        if hovered {
            fill(ops, inset(target.rect, 3), scale, theme.hover);
        }
        draw_desktop_shortcut(ops, target, at, has_icon, scale, &theme);
        assert(paints(ops@) =~= before + desktop_item(self@, at as int, has_icon));
    }

    /// What the desktop shows on its background. `icons` says of each of its targets whether an
    /// icon was found for it.
    pub fn draw_desktop(&self, icons: &Vec<bool>) -> (ops: Vec<DrawOp>)
        requires
            icons.len() == self.visible_targets.len(),
        ensures
            paints(ops@) == desktop_scene(self@, icons@),
    {
        let scale: u32 = self.chrome.look.scale_120;
        let theme = self.chrome.look.palette;
        let mut ops: Vec<DrawOp> = Vec::new();
        let mut at: usize = 0;
        assert(paints(ops@) =~= desktop_items(self@, icons@, 0));
        while at < self.visible_targets.len()
            invariant
                at <= self.visible_targets.len(),
                icons.len() == self.visible_targets.len(),
                paints(ops@) == desktop_items(self@, icons@, at as int),
            decreases self.visible_targets.len() - at,
        {
            self.draw_item(&mut ops, at, icons[at]);
            at = at + 1;
        }
        let ghost before = paints(ops@);
        if let Some(DesktopPointerGesture::RubberBand { start, current, .. }) = &self.gesture {
            let band = scale_rect(rect_between(*start, *current), scale);
            let thickness: i32 = max_i32(scale_coord(2, scale), 1);
            draw(&mut ops, DrawOp::Outline { rect: band, thickness, color: theme.focus });
        }
        assert(paints(ops@) =~= desktop_scene(self@, icons@));
        ops
    }

    /// How a button of the panel looks.
    fn button_look(&self, target: &HitTarget) -> (look: Option<(Color, String, bool)>)
        ensures
            match look {
                Some(look) => panel_look(self@, target@) == Some((look.0, look.1@, look.2)),
                None => panel_look(self@, target@) is None,
            },
    {
        let theme = self.chrome.look.palette;
        let plain = if self.hovers(&target.action) {
            theme.hover
        } else {
            theme.surface
        };
        match &target.action {
            ShellAction::ToggleApplications => {
                let active = self.chrome.menu.menu_open && self.chrome.menu.menu_kind
                    == MenuKind::Applications;
                let color = if active {
                    theme.selection
                } else {
                    plain
                };
                Some((color, "Applications".to_string(), active))
            },
            ShellAction::OpenFiles => Some((plain, "Files".to_string(), false)),
            ShellAction::OpenShared => Some((plain, "Share".to_string(), false)),
            ShellAction::ActivateWindow(id) => match self.find_toplevel(*id) {
                Some(at) => {
                    let window = &self.toplevels[at].window;
                    let color = if window.focused {
                        theme.raised
                    } else {
                        plain
                    };
                    Some((color, elide(window.title.as_str(), 25), window.focused))
                },
                None => Some((plain, target.label.clone(), false)),
            },
            ShellAction::TaskbarPrevious => Some((plain, "<".to_string(), false)),
            ShellAction::TaskbarNext => Some((plain, ">".to_string(), false)),
            ShellAction::ShowDesktop => Some((plain, "".to_string(), false)),
            _ => None,
        }
    }

    /// Draws a button of the panel.
    fn draw_button(&self, ops: &mut Vec<DrawOp>, target: &HitTarget)
        ensures
            paints(final(ops)@) == paints(old(ops)@) + panel_button(self@, target@),
    {
        let ghost before = paints(ops@);
        let scale: u32 = self.chrome.look.scale_120;
        let theme = self.chrome.look.palette;
        let (color, label, active) = match self.button_look(target) {
            Some(look) => look,
            None => {
                assert(paints(ops@) =~= before + panel_button(self@, target@));
                return;
            },
        };
        let button = scale_rect(target.rect, scale);
        draw(ops, DrawOp::Fill { rect: button, color });
        if active {
            let bar: i32 = scale_coord(3, scale);
            let rect = Rect {
                x: button.x,
                y: add_i32(button.y, sub_i32(button.height, bar)),
                width: button.width,
                height: bar,
            };
            draw(ops, DrawOp::Fill { rect, color: theme.focus });
        }
        let text = if color == theme.selection {
            theme.selected_text
        } else {
            theme.text
        };
        center(ops, label, target.rect, scale, 13, text);
        assert(paints(ops@) =~= before + panel_button(self@, target@));
    }

    /// What the panel shows on its background.
    pub fn draw_panel(&self) -> (ops: Vec<DrawOp>)
        requires
            self.valid(),
        ensures
            paints(ops@) == panel_scene(self@),
    {
        let width: u32 = nonzero_size(self.chrome.look.panel_size).0;
        let mut ops: Vec<DrawOp> = Vec::new();
        fill(
            &mut ops,
            Rect { x: 0, y: 0, width: u32_as_i32(width), height: 1 },
            self.chrome.look.scale_120,
            self.chrome.look.palette.border,
        );
        let ghost line = paints(ops@);
        let windows = self.windows();
        let targets = panel_targets(
            width,
            windows.as_slice(),
            self.chrome.task_offset,
            self.chrome.look.capped_task_buttons,
        );
        let ghost views = target_views(targets@);
        let mut at: usize = 0;
        assert(views.take(0) =~= seq![]);
        assert(line =~= line + panel_buttons(self@, views.take(0)));
        while at < targets.len()
            invariant
                at <= targets.len(),
                views == target_views(targets@),
                paints(ops@) == line + panel_buttons(self@, views.take(at as int)),
            decreases targets.len() - at,
        {
            assert(views.take(at + 1).drop_last() =~= views.take(at as int));
            assert(views[at as int] == targets@[at as int]@);
            self.draw_button(&mut ops, &targets[at]);
            assert(paints(ops@) =~= line + panel_buttons(self@, views.take(at + 1)));
            at = at + 1;
        }
        assert(views.take(at as int) =~= views);
        assert(paints(ops@) =~= panel_scene(self@));
        ops
    }
}

/// Nothing to be seen.
pub open spec fn transparent() -> Color {
    Color { red: 0, green: 0, blue: 0, alpha: 0 }
}

/// The size of what the menu surface shows.
pub open spec fn menu_content(shell: ShellView) -> (u32, u32) {
    if !shell.chrome.menu.menu_open {
        (
            max_of(shell.chrome.menu.menu_size.0 as int, 1) as u32,
            max_of(shell.chrome.menu.menu_size.1 as int, 1) as u32,
        )
    } else if shell.chrome.menu.menu_kind is Applications {
        (
            max_of(preferred_size(shell).0, 1) as u32,
            max_of(preferred_size(shell).1, 1) as u32,
        )
    } else {
        (WINDOW_MENU_WIDTH, WINDOW_MENU_HEIGHT)
    }
}

/// The colour behind what the menu surface shows.
pub open spec fn menu_ground(shell: ShellView) -> Color {
    if shell.chrome.menu.menu_open && !shell.chrome.menu.awaiting_pointer {
        shell.chrome.look.palette.menu
    } else {
        transparent()
    }
}

/// The colour that stands for a missing icon of a menu row.
pub open spec fn icon_color(action: ActionView, theme: ThemePalette) -> Color {
    match action {
        ActionView::OpenFiles | ActionView::OpenShared => theme.folder,
        ActionView::LaunchApplication(_) => theme.selection,
        _ => theme.text_secondary,
    }
}

/// The icon of a row of the Applications menu, or a colour in its place.
pub open spec fn row_icon(shell: ShellView, target: TargetView, icons: Seq<bool>) -> Paint {
    let rect = scaled_rect(part_of(target.rect, 9, 8, 20, 20), shell.chrome.look.scale_120);
    let missing = Paint::Fill(rect, icon_color(target.action, shell.chrome.look.palette));
    match target.action {
        ActionView::LaunchApplication(id) => match application_place(shell.applications, id) {
            Some(at) => if icons[at as int] {
                Paint::Icon(rect, at as int)
            } else {
                missing
            },
            None => missing,
        },
        _ => missing,
    }
}

/// The text of a row of the Applications menu: a pinned application has a star.
pub open spec fn row_label(shell: ShellView, target: TargetView) -> Seq<char> {
    match target.action {
        ActionView::LaunchApplication(id) => if shell.pinned.contains(id) {
            "★ "@ + target.label
        } else {
            target.label
        },
        _ => target.label,
    }
}

/// A row of the Applications menu.
pub open spec fn application_row(shell: ShellView, target: TargetView, icons: Seq<bool>) -> Seq<
    Paint,
> {
    let scale = shell.chrome.look.scale_120;
    let theme = shell.chrome.look.palette;
    seq![
        fill_paint(
            inset_rect(target.rect, 2),
            scale,
            if is_hovered(shell, target.action) {
                theme.hover
            } else {
                theme.menu
            },
        ),
        row_icon(shell, target, icons),
        limited_paint(
            row_label(shell, target),
            (saturate_i32(target.rect.x + 38), saturate_i32(target.rect.y + 10)),
            scale,
            13,
            saturate_i32(target.rect.width - 54),
            theme.text,
        ),
    ]
}

/// The rows of the Applications menu, one after the other.
pub open spec fn drawn_rows(
    shell: ShellView,
    targets: Seq<TargetView>,
    icons: Seq<bool>,
) -> Seq<Paint>
    decreases targets.len(),
{
    if targets.len() == 0 {
        seq![]
    } else {
        drawn_rows(shell, targets.drop_last(), icons) + application_row(
            shell,
            targets.last(),
            icons,
        )
    }
}

/// The head of the Applications menu.
pub open spec fn applications_head(shell: ShellView, width: u32) -> Seq<Paint> {
    let scale = shell.chrome.look.scale_120;
    let theme = shell.chrome.look.palette;
    let right = saturate_i32(width as int) as i32;
    let close = menu_close(width);
    seq![
        fill_paint(
            Rect { x: 0, y: 0, width: right, height: APPLICATIONS_MENU_HEADER_HEIGHT },
            scale,
            theme.raised,
        ),
        fill_paint(Rect { x: 0, y: 52, width: right, height: 2 }, scale, theme.selection),
        limited_paint("Applications"@, (18, 16), scale, 17, max_of(right - 72, 0), theme.text),
    ] + (if is_hovered(shell, close.action) {
        seq![fill_paint(inset_rect(close.rect, 3), scale, theme.hover)]
    } else {
        seq![]
    }) + seq![
        centered_paint("×"@, close.rect, scale, 18, theme.text),
        text_paint("ALL APPLICATIONS"@, (16, 61), scale, 10, theme.text_muted),
    ]
}

/// The field of the Applications menu that shows what is searched for.
pub open spec fn search_field(shell: ShellView, size: (u32, u32)) -> Seq<Paint> {
    let scale = shell.chrome.look.scale_120;
    let theme = shell.chrome.look.palette;
    let field = Rect {
        x: 8,
        y: (saturate_i32(size.1 as int) - APPLICATIONS_MENU_FOOTER_HEIGHT + 6) as i32,
        width: (saturate_i32(size.0 as int) - 16) as i32,
        height: MENU_ROW_HEIGHT,
    };
    let empty = shell.search.len() == 0;
    seq![
        fill_paint(field, scale, theme.raised),
        Paint::Outline(scaled_rect(field, scale), scaled(1, scale), theme.border),
        text_paint(
            if empty {
                "Search applications"@
            } else {
                shell.search
            },
            (18, field.y + 10),
            scale,
            13,
            if empty {
                theme.text_muted
            } else {
                theme.text
            },
        ),
    ]
}

/// The signs of the Applications menu that there is more above or below.
pub open spec fn scroll_signs(shell: ShellView, size: (u32, u32)) -> Seq<Paint> {
    let scale = shell.chrome.look.scale_120;
    let theme = shell.chrome.look.palette;
    let left = saturate_i32(size.0 as int) - 72;
    let scroll = shell.chrome.menu.menu_scroll;
    (if scroll > 0 {
        seq![text_paint("▲ more"@, (left, 61), scale, 9, theme.text_secondary)]
    } else {
        seq![]
    }) + (if scroll + visible_rows(shell) < filtered(shell).len() {
        seq![
            text_paint(
                "scroll ▼"@,
                (left, saturate_i32(size.1 as int) - 62),
                scale,
                9,
                theme.text_secondary,
            ),
        ]
    } else {
        seq![]
    })
}

/// What the Applications menu shows. `icons` says of each application whether its icon was found.
pub open spec fn applications_scene(shell: ShellView, icons: Seq<bool>) -> Seq<Paint> {
    let size = menu_content(shell);
    applications_head(shell, size.0) + search_field(shell, size) + drawn_rows(
        shell,
        menu(size.0, size.1, filtered(shell), shell.chrome.menu.menu_scroll as nat),
        icons,
    ) + scroll_signs(shell, size)
}

/// A row of a window menu.
pub open spec fn window_row(shell: ShellView, target: TargetView) -> Seq<Paint> {
    let scale = shell.chrome.look.scale_120;
    let theme = shell.chrome.look.palette;
    seq![
        fill_paint(
            inset_rect(target.rect, 2),
            scale,
            if !is_hovered(shell, target.action) {
                theme.menu
            } else if target.action is CloseWindow {
                theme.destructive
            } else {
                theme.hover
            },
        ),
        text_paint(
            target.label,
            (saturate_i32(target.rect.x + 12), saturate_i32(target.rect.y + 10)),
            scale,
            13,
            theme.text,
        ),
    ]
}

/// The rows of a window menu, one after the other.
pub open spec fn window_rows(shell: ShellView, targets: Seq<TargetView>) -> Seq<Paint>
    decreases targets.len(),
{
    if targets.len() == 0 {
        seq![]
    } else {
        window_rows(shell, targets.drop_last()) + window_row(shell, targets.last())
    }
}

/// What the menu of the window at `at` shows.
pub open spec fn window_scene(shell: ShellView, at: int) -> Seq<Paint> {
    let scale = shell.chrome.look.scale_120;
    let theme = shell.chrome.look.palette;
    let window = shell.toplevels[at].window;
    seq![
        fill_paint(Rect { x: 0, y: 0, width: 260, height: 44 }, scale, theme.raised),
        fill_paint(Rect { x: 0, y: 42, width: 260, height: 2 }, scale, theme.selection),
        text_paint(elided(window.title@, 28), (14, 13), scale, 14, theme.text),
    ] + window_rows(shell, rows_of(window_controls(window), 8, 44, 244))
}

/// What the menu surface shows on its ground.
pub open spec fn menu_scene(shell: ShellView, icons: Seq<bool>) -> Seq<Paint> {
    if applications_open(shell) {
        applications_scene(shell, icons)
    } else if shell.chrome.menu.menu_open && !shell.chrome.menu.awaiting_pointer {
        match shell.chrome.menu.menu_kind {
            MenuKind::Window(id) => match toplevel_place(shell.toplevels, id) {
                Some(at) => window_scene(shell, at as int),
                None => seq![],
            },
            MenuKind::Applications => seq![],
        }
    } else {
        seq![]
    }
}

/// Where the content of the menu surface lies on it along one axis, in physical pixels.
pub open spec fn destination(origin: i32, scale: u32, surface: u32, content: u32) -> int {
    let room = saturate_i32(max_of(surface - content, 0));
    if max_of(scaled(origin as int, scale), 0) <= room {
        max_of(scaled(origin as int, scale), 0)
    } else {
        room
    }
}

/// Where the content of the menu surface lies on it along one axis.
pub fn menu_destination(origin: i32, scale_120: u32, surface: u32, content: u32) -> (at: u32)
    ensures
        at == destination(origin, scale_120, surface, content),
{
    let room: i32 = u32_as_i32(surface.saturating_sub(content));
    let wanted: i32 = max_i32(scale_coord(origin, scale_120), 0);
    if wanted <= room {
        wanted as u32
    } else {
        room as u32
    }
}

/// The content of the menu surface never reaches over its edge where it fits.
pub proof fn menu_content_stays_on_its_surface(origin: i32, scale: u32, surface: u32, content: u32)
    requires
        content <= surface,
    ensures
        0 <= destination(origin, scale, surface, content),
        destination(origin, scale, surface, content) + content <= surface,
{
}

impl Shell {
    /// The size of what the menu surface shows.
    pub fn menu_content_size(&self) -> (size: (u32, u32))
        requires
            self.valid(),
        ensures
            size == menu_content(self@),
    {
        if !self.chrome.menu.menu_open {
            return nonzero_size(self.chrome.menu.menu_size);
        }
        match self.chrome.menu.menu_kind {
            MenuKind::Applications => nonzero_size(self.preferred_menu_size()),
            MenuKind::Window(_) => (WINDOW_MENU_WIDTH, WINDOW_MENU_HEIGHT),
        }
    }

    /// The colour behind what the menu surface shows.
    pub fn menu_background(&self) -> (color: Color)
        ensures
            color == menu_ground(self@),
    {
        if self.chrome.menu.menu_open && !self.chrome.menu.awaiting_pointer {
            self.chrome.look.palette.menu
        } else {
            Color { red: 0, green: 0, blue: 0, alpha: 0 }
        }
    }

    /// Draws the head of the Applications menu.
    fn draw_head(&self, ops: &mut Vec<DrawOp>, width: u32)
        ensures
            paints(final(ops)@) == paints(old(ops)@) + applications_head(self@, width),
    {
        let ghost before = paints(ops@);
        let scale: u32 = self.chrome.look.scale_120;
        let theme = self.chrome.look.palette;
        let right: i32 = u32_as_i32(width);
        fill(
            ops,
            Rect { x: 0, y: 0, width: right, height: APPLICATIONS_MENU_HEADER_HEIGHT },
            scale,
            theme.raised,
        );
        fill(
            ops,
            Rect { x: 0, y: APPLICATIONS_MENU_HEADER_HEIGHT - 2, width: right, height: 2 },
            scale,
            theme.selection,
        );
        let limit: i32 = max_i32(sub_i32(right, 72), 0);
        write_limited(ops, "Applications".to_string(), (18, 16), scale, 17, limit, theme.text);
        let close = applications_menu_close_target(width);
        if self.hovers(&close.action) {
            fill(ops, inset(close.rect, 3), scale, theme.hover);
        }
        center(ops, "×".to_string(), close.rect, scale, 18, theme.text);
        write(
            ops,
            "ALL APPLICATIONS".to_string(),
            (16, APPLICATIONS_MENU_HEADER_HEIGHT + 7),
            scale,
            10,
            theme.text_muted,
        );
        assert(paints(ops@) =~= before + applications_head(self@, width));
    }

    /// Draws the field of the Applications menu that shows what is searched for.
    fn draw_search(&self, ops: &mut Vec<DrawOp>, size: (u32, u32))
        ensures
            paints(final(ops)@) == paints(old(ops)@) + search_field(self@, size),
    {
        let ghost before = paints(ops@);
        let scale: u32 = self.chrome.look.scale_120;
        let theme = self.chrome.look.palette;
        let field = Rect {
            x: 8,
            y: add_i32(sub_i32(u32_as_i32(size.1), APPLICATIONS_MENU_FOOTER_HEIGHT), 6),
            width: sub_i32(u32_as_i32(size.0), 16),
            height: MENU_ROW_HEIGHT,
        };
        fill(ops, field, scale, theme.raised);
        draw(
            ops,
            DrawOp::Outline {
                rect: scale_rect(field, scale),
                thickness: scale_coord(1, scale),
                color: theme.border,
            },
        );
        if self.search.as_str().is_empty() {
            write(
                ops,
                "Search applications".to_string(),
                (field.x + 10, field.y + 10),
                scale,
                13,
                theme.text_muted,
            );
        } else {
            write(
                ops,
                self.search.clone(),
                (field.x + 10, field.y + 10),
                scale,
                13,
                theme.text,
            );
        }
        assert(paints(ops@) =~= before + search_field(self@, size));
    }

    /// Draws a row of the Applications menu.
    fn draw_application_row(&self, ops: &mut Vec<DrawOp>, target: &HitTarget, icons: &Vec<bool>)
        requires
            icons.len() == self.applications.len(),
        ensures
            paints(final(ops)@) == paints(old(ops)@) + application_row(self@, target@, icons@),
    {
        let ghost before = paints(ops@);
        let scale: u32 = self.chrome.look.scale_120;
        let theme = self.chrome.look.palette;
        let color = if self.hovers(&target.action) {
            theme.hover
        } else {
            theme.menu
        };
        fill(ops, inset(target.rect, 2), scale, color);
        let rect = scale_rect(part(target.rect, 9, 8, 20, 20), scale);
        assert(self@.applications.len() == self.applications@.len());
        let place: Option<usize> = match &target.action {
            ShellAction::LaunchApplication(id) => match self.find_application(id) {
                Some(at) => if icons[at] {
                    Some(at)
                } else {
                    None
                },
                None => None,
            },
            _ => None,
        };
        match place {
            Some(place) => draw(ops, DrawOp::Icon { rect, place }),
            None => draw_menu_icon(ops, rect, &target.action, &theme),
        }
        let pinned = match &target.action {
            ShellAction::LaunchApplication(id) => list_has(&self.pinned, id),
            _ => false,
        };
        let label = if pinned {
            join("★ ", target.label.as_str())
        } else {
            target.label.clone()
        };
        write_limited(
            ops,
            label,
            (add_i32(target.rect.x, 38), add_i32(target.rect.y, 10)),
            scale,
            13,
            sub_i32(target.rect.width, 54),
            theme.text,
        );
        assert(paints(ops@) =~= before + application_row(self@, target@, icons@));
    }

    /// Draws the signs that there is more above or below.
    fn draw_scroll_signs(&self, ops: &mut Vec<DrawOp>, size: (u32, u32), rows: usize, count: usize)
        requires
            rows == visible_rows(self@),
            count == filtered(self@).len(),
        ensures
            paints(final(ops)@) == paints(old(ops)@) + scroll_signs(self@, size),
    {
        let ghost before = paints(ops@);
        let scale: u32 = self.chrome.look.scale_120;
        let theme = self.chrome.look.palette;
        let left: i32 = sub_i32(u32_as_i32(size.0), 72);
        let scroll: usize = self.chrome.menu.menu_scroll;
        if scroll > 0 {
            write(
                ops,
                "▲ more".to_string(),
                (left, APPLICATIONS_MENU_HEADER_HEIGHT + 7),
                scale,
                9,
                theme.text_secondary,
            );
        }
        if scroll < count && rows < count - scroll {
            write(
                ops,
                "scroll ▼".to_string(),
                (left, sub_i32(u32_as_i32(size.1), 62)),
                scale,
                9,
                theme.text_secondary,
            );
        }
        assert(paints(ops@) =~= before + scroll_signs(self@, size));
    }

    /// What the Applications menu shows.
    fn draw_applications(&self, icons: &Vec<bool>) -> (ops: Vec<DrawOp>)
        requires
            self.valid(),
            icons.len() == self.applications.len(),
        ensures
            paints(ops@) == applications_scene(self@, icons@),
    {
        let size = self.menu_content_size();
        let mut ops: Vec<DrawOp> = Vec::new();
        assert(paints(ops@) =~= seq![]);
        self.draw_head(&mut ops, size.0);
        self.draw_search(&mut ops, size);
        let ghost top = paints(ops@);
        assert(top =~= applications_head(self@, size.0) + search_field(self@, size));
        let applications = self.filtered_applications();
        let count: usize = applications.len();
        assert(count == filtered(self@).len());
        let targets = menu_targets(
            size.0,
            size.1,
            applications.as_slice(),
            self.chrome.menu.menu_scroll,
        );
        let ghost views = target_views(targets@);
        let mut at: usize = 0;
        assert(views.take(0) =~= seq![]);
        assert(top =~= top + drawn_rows(self@, views.take(0), icons@));
        while at < targets.len()
            invariant
                at <= targets.len(),
                icons.len() == self.applications.len(),
                views == target_views(targets@),
                paints(ops@) == top + drawn_rows(self@, views.take(at as int), icons@),
            decreases targets.len() - at,
        {
            assert(views.take(at + 1).drop_last() =~= views.take(at as int));
            assert(views[at as int] == targets@[at as int]@);
            self.draw_application_row(&mut ops, &targets[at], icons);
            assert(paints(ops@) =~= top + drawn_rows(self@, views.take(at + 1), icons@));
            at = at + 1;
        }
        assert(views.take(at as int) =~= views);
        let rows: usize = self.visible_menu_rows();
        self.draw_scroll_signs(&mut ops, size, rows, count);
        assert(paints(ops@) =~= applications_scene(self@, icons@));
        ops
    }

    /// Draws a row of a window menu.
    fn draw_window_row(&self, ops: &mut Vec<DrawOp>, target: &HitTarget)
        ensures
            paints(final(ops)@) == paints(old(ops)@) + window_row(self@, target@),
    {
        let ghost before = paints(ops@);
        let scale: u32 = self.chrome.look.scale_120;
        let theme = self.chrome.look.palette;
        let color = if !self.hovers(&target.action) {
            theme.menu
        } else if matches!(target.action, ShellAction::CloseWindow(_)) {
            theme.destructive
        } else {
            theme.hover
        };
        fill(ops, inset(target.rect, 2), scale, color);
        write(
            ops,
            target.label.clone(),
            (add_i32(target.rect.x, 12), add_i32(target.rect.y, 10)),
            scale,
            13,
            theme.text,
        );
        assert(paints(ops@) =~= before + window_row(self@, target@));
    }

    /// What the menu of the window at `at` shows.
    fn draw_window_menu(&self, at: usize) -> (ops: Vec<DrawOp>)
        requires
            at < self.toplevels.len(),
        ensures
            paints(ops@) == window_scene(self@, at as int),
    {
        let scale: u32 = self.chrome.look.scale_120;
        let theme = self.chrome.look.palette;
        let window = &self.toplevels[at].window;
        let mut ops: Vec<DrawOp> = Vec::new();
        fill(&mut ops, Rect { x: 0, y: 0, width: 260, height: 44 }, scale, theme.raised);
        fill(&mut ops, Rect { x: 0, y: 42, width: 260, height: 2 }, scale, theme.selection);
        write(&mut ops, elide(window.title.as_str(), 28), (14, 13), scale, 14, theme.text);
        let ghost top = paints(ops@);
        let none: Vec<WorkspaceTab> = Vec::new();
        proof {
            controls_alone(*window);
            assert(none@ =~= Seq::<WorkspaceTab>::empty());
        }
        let targets = window_menu_targets(window, none.as_slice());
        let ghost views = target_views(targets@);
        let mut row: usize = 0;
        assert(views.take(0) =~= seq![]);
        assert(top =~= top + window_rows(self@, views.take(0)));
        while row < targets.len()
            invariant
                row <= targets.len(),
                views == target_views(targets@),
                paints(ops@) == top + window_rows(self@, views.take(row as int)),
            decreases targets.len() - row,
        {
            assert(views.take(row + 1).drop_last() =~= views.take(row as int));
            assert(views[row as int] == targets@[row as int]@);
            self.draw_window_row(&mut ops, &targets[row]);
            assert(paints(ops@) =~= top + window_rows(self@, views.take(row + 1)));
            row = row + 1;
        }
        assert(views.take(row as int) =~= views);
        assert(paints(ops@) =~= window_scene(self@, at as int));
        ops
    }

    /// What the menu surface shows on its ground. `icons` says of each application whether its
    /// icon was found.
    pub fn draw_menu(&self, icons: &Vec<bool>) -> (ops: Vec<DrawOp>)
        requires
            self.valid(),
            icons.len() == self.applications.len(),
        ensures
            paints(ops@) == menu_scene(self@, icons@),
    {
        if self.chrome.menu.menu_open {
            match self.chrome.menu.menu_kind {
                MenuKind::Applications => {
                    return self.draw_applications(icons);
                },
                MenuKind::Window(id) => if !self.chrome.menu.awaiting_pointer {
                    if let Some(at) = self.find_toplevel(id) {
                        return self.draw_window_menu(at);
                    }
                },
            }
        }
        let ops: Vec<DrawOp> = Vec::new();
        assert(paints(ops@) =~= seq![]);
        ops
    }
}

/// Draws the colour that stands for a missing icon of a menu row.
pub fn draw_menu_icon(
    ops: &mut Vec<DrawOp>,
    rect: Rect,
    action: &ShellAction,
    theme: &ThemePalette,
)
    ensures
        paints(final(ops)@) == paints(old(ops)@).push(
            Paint::Fill(rect, icon_color(action@, *theme)),
        ),
{
    let color = match action {
        ShellAction::OpenFiles | ShellAction::OpenShared => theme.folder,
        ShellAction::LaunchApplication(_) => theme.selection,
        _ => theme.text_secondary,
    };
    draw(ops, DrawOp::Fill { rect, color });
}

/// The texts of a dialog.
pub open spec fn dialog_texts(
    title: Seq<char>,
    detail: Seq<char>,
    error: Option<Seq<char>>,
    scale: u32,
    theme: ThemePalette,
) -> Seq<Paint> {
    seq![
        text_paint(title, (16, 18), scale, 17, theme.text),
        text_paint(elided(detail, 62), (16, 58), scale, 13, theme.text),
    ] + (match error {
        Some(error) => seq![
            text_paint(elided(error, 62), (16, 94), scale, 11, theme.destructive),
        ],
        None => seq![],
    })
}

/// Draws the texts of a dialog.
pub fn draw_dialog_text(
    ops: &mut Vec<DrawOp>,
    title: &str,
    detail: &str,
    error: &Option<String>,
    scale_120: u32,
    theme: &ThemePalette,
)
    ensures
        paints(final(ops)@) == paints(old(ops)@) + dialog_texts(
            title@,
            detail@,
            optional_text(*error),
            scale_120,
            *theme,
        ),
{
    let ghost before = paints(ops@);
    write(ops, title.to_string(), (16, 18), scale_120, 17, theme.text);
    write(ops, elide(detail, 62), (16, 58), scale_120, 13, theme.text);
    if let Some(error) = error {
        write(ops, elide(error.as_str(), 62), (16, 94), scale_120, 11, theme.destructive);
    }
    assert(paints(ops@) =~= before + dialog_texts(
        title@,
        detail@,
        optional_text(*error),
        scale_120,
        *theme,
    ));
}

/// The name of the item whose place is taken.
pub open spec fn collision_name(session: SessionView) -> Seq<char> {
    if 0 <= session.index < session.sources.len() {
        match file_name_of(session.sources[session.index]) {
            Some(name) => lossy_text(name),
            None => "item"@,
        }
    } else {
        "item"@
    }
}

/// The title of an edit dialog.
pub open spec fn edit_title(operation: EditTargetView) -> Seq<char> {
    match operation {
        EditTargetView::NewFolder => "New Folder"@,
        EditTargetView::Rename(_) => "Rename Item"@,
        EditTargetView::RenameApplication(_) => "Rename Application"@,
    }
}

/// The part of a dialog that is no button.
pub open spec fn dialog_body(context: ContextView, scale: u32, theme: ThemePalette) -> Seq<Paint> {
    match context {
        ContextView::Edit(dialog) => seq![
            text_paint(edit_title(dialog.operation), (16, 18), scale, 17, theme.text),
            fill_paint(Rect { x: 16, y: 54, width: 402, height: 42 }, scale, theme.surface),
            text_paint(elided(dialog.input, 48), (26, 67), scale, 14, theme.text),
        ] + (match dialog.error {
            Some(error) => seq![
                text_paint(elided(error, 58), (16, 108), scale, 11, theme.destructive),
            ],
            None => seq![],
        }),
        ContextView::Delete(dialog) => dialog_texts(
            "Delete permanently?"@,
            dialog.detail,
            dialog.error,
            scale,
            theme,
        ),
        ContextView::Collision(session) => dialog_texts(
            "An item already exists"@,
            "Choose how to paste ‘"@ + elided(collision_name(session), 34) + "’."@,
            None,
            scale,
            theme,
        ),
        ContextView::Error(title, detail) => dialog_texts(title, detail, None, scale, theme),
        _ => seq![],
    }
}

/// A row or a button of the context surface.
pub open spec fn context_row(shell: ShellView, target: TargetView) -> Seq<Paint> {
    let scale = shell.chrome.look.scale_120;
    let theme = shell.chrome.look.palette;
    let destructive = target.action is DesktopDelete || target.action is DesktopDeleteConfirm;
    let disabled = target.action is DesktopPaste && shell.context is DesktopMenu
        && !shell.chrome.paste_available;
    seq![
        fill_paint(
            inset_rect(target.rect, 2),
            scale,
            if destructive {
                theme.destructive
            } else if is_hovered(shell, target.action) {
                theme.hover
            } else {
                theme.menu
            },
        ),
        text_paint(
            target.label,
            (saturate_i32(target.rect.x + 10), saturate_i32(target.rect.y + 10)),
            scale,
            13,
            if destructive {
                theme.selected_text
            } else if disabled {
                theme.text_secondary
            } else {
                theme.text
            },
        ),
    ]
}

/// The rows of the context surface, one after the other.
pub open spec fn context_rows(shell: ShellView, targets: Seq<TargetView>) -> Seq<Paint>
    decreases targets.len(),
{
    if targets.len() == 0 {
        seq![]
    } else {
        context_rows(shell, targets.drop_last()) + context_row(shell, targets.last())
    }
}

/// What the context surface shows on its ground.
pub open spec fn context_scene(shell: ShellView) -> Seq<Paint> {
    dialog_body(shell.context, shell.chrome.look.scale_120, shell.chrome.look.palette)
        + context_rows(shell, context_target_views(shell))
}

/// Draws the part of a dialog that is no button.
fn draw_body(ops: &mut Vec<DrawOp>, context: &ContextState, scale: u32, theme: &ThemePalette)
    ensures
        paints(final(ops)@) == paints(old(ops)@) + dialog_body(context@, scale, *theme),
{
    let ghost before = paints(ops@);
    match context {
        ContextState::Edit(dialog) => {
            let title = match &dialog.operation {
                EditOperation::NewFolder => "New Folder",
                EditOperation::Rename(_) => "Rename Item",
                EditOperation::RenameApplication(_) => "Rename Application",
            };
            write(ops, title.to_string(), (16, 18), scale, 17, theme.text);
            fill(ops, Rect { x: 16, y: 54, width: 402, height: 42 }, scale, theme.surface);
            write(ops, elide(dialog.input.as_str(), 48), (26, 67), scale, 14, theme.text);
            if let Some(error) = &dialog.error {
                write(ops, elide(error.as_str(), 58), (16, 108), scale, 11, theme.destructive);
            }
        },
        ContextState::Delete(dialog) => {
            draw_dialog_text(
                ops,
                "Delete permanently?",
                dialog.detail.as_str(),
                &dialog.error,
                scale,
                theme,
            );
        },
        ContextState::Collision(session) => {
            let name = taken_name(session);
            let detail = join(
                join("Choose how to paste ‘", elide(name.as_str(), 34).as_str()).as_str(),
                "’.",
            );
            draw_dialog_text(
                ops,
                "An item already exists",
                detail.as_str(),
                &None,
                scale,
                theme,
            );
        },
        ContextState::Error { title, detail } => {
            draw_dialog_text(ops, title.as_str(), detail.as_str(), &None, scale, theme);
        },
        _ => {},
    }
    assert(paints(ops@) =~= before + dialog_body(context@, scale, *theme));
}

/// The name of the item whose place is taken.
fn taken_name(session: &PasteSession) -> (name: String)
    ensures
        name@ == collision_name(session@),
{
    if session.index < session.sources.len() {
        assert(session@.sources[session.index as int] == session.sources@[session.index as int]@);
        if let Some(name) = session.sources[session.index].file_name() {
            return from_utf8_lossy(name.as_slice());
        }
    }
    "item".to_string()
}

impl Shell {
    /// The colour behind what the context surface shows.
    pub fn context_background(&self) -> (color: Color)
        ensures
            color == if self@.context is Hidden {
                transparent()
            } else {
                self@.chrome.look.palette.menu
            },
    {
        if self.context.is_visible() {
            self.chrome.look.palette.menu
        } else {
            Color { red: 0, green: 0, blue: 0, alpha: 0 }
        }
    }

    /// Draws a row or a button of the context surface.
    fn draw_context_row(&self, ops: &mut Vec<DrawOp>, target: &HitTarget)
        ensures
            paints(final(ops)@) == paints(old(ops)@) + context_row(self@, target@),
    {
        let ghost before = paints(ops@);
        let scale: u32 = self.chrome.look.scale_120;
        let theme = self.chrome.look.palette;
        let destructive = matches!(
            target.action,
            ShellAction::DesktopDelete | ShellAction::DesktopDeleteConfirm
        );
        let disabled = matches!(target.action, ShellAction::DesktopPaste) && matches!(
            self.context,
            ContextState::DesktopMenu
        ) && !self.chrome.paste_available;
        let ground = if destructive {
            theme.destructive
        } else if self.hovers(&target.action) {
            theme.hover
        } else {
            theme.menu
        };
        fill(ops, inset(target.rect, 2), scale, ground);
        let text = if destructive {
            theme.selected_text
        } else if disabled {
            theme.text_secondary
        } else {
            theme.text
        };
        write(
            ops,
            target.label.clone(),
            (add_i32(target.rect.x, 10), add_i32(target.rect.y, 10)),
            scale,
            13,
            text,
        );
        assert(paints(ops@) =~= before + context_row(self@, target@));
    }

    /// What the context surface shows on its ground.
    pub fn draw_context(&self) -> (ops: Vec<DrawOp>)
        requires
            self.valid(),
        ensures
            paints(ops@) == context_scene(self@),
    {
        let mut ops: Vec<DrawOp> = Vec::new();
        assert(paints(ops@) =~= seq![]);
        draw_body(
            &mut ops,
            &self.context,
            self.chrome.look.scale_120,
            &self.chrome.look.palette,
        );
        let ghost top = paints(ops@);
        let targets = self.context_targets();
        let ghost views = target_views(targets@);
        let mut at: usize = 0;
        assert(views.take(0) =~= seq![]);
        assert(top =~= top + context_rows(self@, views.take(0)));
        while at < targets.len()
            invariant
                at <= targets.len(),
                views == target_views(targets@),
                paints(ops@) == top + context_rows(self@, views.take(at as int)),
            decreases targets.len() - at,
        {
            assert(views.take(at + 1).drop_last() =~= views.take(at as int));
            assert(views[at as int] == targets@[at as int]@);
            self.draw_context_row(&mut ops, &targets[at]);
            assert(paints(ops@) =~= top + context_rows(self@, views.take(at + 1)));
            at = at + 1;
        }
        assert(views.take(at as int) =~= views);
        assert(paints(ops@) =~= context_scene(self@));
        ops
    }
}

/// An action that cannot be undone is drawn in the colour of warnings whether or not the pointer is
/// over it.
pub proof fn deleting_is_always_marked(shell: ShellView, target: TargetView)
    requires
        target.action is DesktopDelete || target.action is DesktopDeleteConfirm,
    ensures
        context_row(shell, target)[0] == fill_paint(
            inset_rect(target.rect, 2),
            shell.chrome.look.scale_120,
            shell.chrome.look.palette.destructive,
        ),
{
}

/// A part of a rectangle lies as far from its corner as it says, and is as large.
pub proof fn parts_lie_in_their_rectangle(rect: Rect, x: int, y: int, width: i32, height: i32)
    requires
        i32::MIN <= rect.x + x <= i32::MAX,
        i32::MIN <= rect.y + y <= i32::MAX,
    ensures
        part_of(rect, x, y, width, height).x - rect.x == x,
        part_of(rect, x, y, width, height).y - rect.y == y,
        part_of(rect, x, y, width, height).width == width,
        part_of(rect, x, y, width, height).height == height,
{
}

/// Every target of the desktop shows its name under its picture. It is marked where it is selected
/// and where the pointer is over it, and not otherwise.
pub proof fn desktop_targets_show_their_name(shell: ShellView, place: int, has_icon: bool)
    requires
        0 <= place < shell.visible_targets.len(),
    ensures
        ({
            let target = shell.visible_targets[place];
            let scale = shell.chrome.look.scale_120;
            let theme = shell.chrome.look.palette;
            let drawn = desktop_item(shell, place, has_icon);
            let marks = (if is_selected(shell, target.action) {
                1int
            } else {
                0
            }) + (if is_hovered(shell, target.action) {
                1int
            } else {
                0
            });
            &&& drawn.last() is Centered
            &&& drawn.last()->Centered_0 == target.label
            &&& is_selected(shell, target.action) ==> drawn[0] == Paint::Fill(
                scaled_rect(inset_rect(target.rect, 2), scale),
                theme.selection,
            )
            &&& is_hovered(shell, target.action) ==> drawn[marks - 1] == Paint::Fill(
                scaled_rect(inset_rect(target.rect, 3), scale),
                theme.hover,
            )
            &&& drawn.skip(marks) == shortcut(target, place, has_icon, scale, theme)
        }),
{
    let target = shell.visible_targets[place];
    let scale = shell.chrome.look.scale_120;
    let theme = shell.chrome.look.palette;
    let drawn = desktop_item(shell, place, has_icon);
    let picture = shortcut(target, place, has_icon, scale, theme);
    assert(drawn.last() == picture.last());
    assert(drawn.skip(drawn.len() - picture.len()) =~= picture);
}

/// An item is marked as selected exactly where the selection holds its path; the shortcuts that every
/// desktop has are never selected.
pub proof fn selected_items_are_marked(shell: ShellView, path: Seq<u8>, kind: DesktopItemKind)
    ensures
        is_selected(shell, ActionView::OpenDesktopItem(path, kind)) == holds_path(
            shell.selection,
            path,
        ),
        !is_selected(shell, ActionView::OpenFiles),
        !is_selected(shell, ActionView::OpenShared),
        shell.hovered is None ==> !is_hovered(shell, ActionView::OpenDesktopItem(path, kind)),
        shell.hovered == Some(ActionView::OpenFiles) ==> is_hovered(shell, ActionView::OpenFiles)
            && !is_hovered(shell, ActionView::OpenShared),
{
}

/// A directory is drawn as a folder whether or not there is an icon, an item with an icon is drawn
/// with it, and every other item as a document, in which only a link has an arrow.
pub proof fn items_are_drawn_as_what_they_are(
    target: TargetView,
    place: int,
    has_icon: bool,
    scale: u32,
    theme: ThemePalette,
)
    ensures
        ({
            let picture = shortcut_picture(target, place, has_icon, scale, theme);
            let folder = target.action is OpenFiles || target.action is OpenShared || (
            target.action is OpenDesktopItem && target.action->OpenDesktopItem_1
                is Directory);
            let kind = item_kind(target.action);
            &&& folder ==> picture.len() == (if target.action is OpenShared {
                3int
            } else {
                2
            }) && picture[0] is Fill && picture[0]->Fill_1 == theme.folder_tab && picture[1] is Fill
                && picture[1]->Fill_1 == theme.folder
            &&& !folder && has_icon ==> picture.len() == 1 && picture[0] is Icon
                && picture[0]->Icon_1 == place
            &&& !folder && !has_icon ==> picture[0] is Fill && picture[0]->Fill_1 == (if kind == Some(
                DesktopItemKind::AppImage,
            ) {
                theme.selection
            } else {
                theme.raised
            }) && (picture.len() > 1 <==> kind == Some(DesktopItemKind::SymbolicLink))
        }),
{
    reveal(folder_picture);
    reveal(document_picture);
}

/// The desktop draws each of its targets, in order, and the rubber band over them while there is one.
pub proof fn rubber_bands_are_drawn_last(shell: ShellView, icons: Seq<bool>)
    ensures
        ({
            let items = desktop_items(shell, icons, shell.visible_targets.len() as int);
            let drawn = desktop_scene(shell, icons);
            match shell.gesture {
                Some(GestureView::RubberBand(start, current, _)) => {
                    &&& drawn.len() == items.len() + 1
                    &&& drawn.last() is Outline
                    &&& drawn.last()->Outline_0 == scaled_rect(
                        band_between(start, current),
                        shell.chrome.look.scale_120,
                    )
                    &&& drawn.last()->Outline_1 >= 1
                    &&& drawn.last()->Outline_2 == shell.chrome.look.palette.focus
                },
                _ => drawn == items,
            }
        }),
        forall|count: int|
            0 < count <= shell.visible_targets.len() ==> #[trigger] desktop_items(
                shell,
                icons,
                count,
            ) == desktop_items(shell, icons, count - 1) + desktop_item(
                shell,
                count - 1,
                icons[count - 1],
            ),
{
    let items = desktop_items(shell, icons, shell.visible_targets.len() as int);
    if !(shell.gesture is Some && shell.gesture->0 is RubberBand) {
        assert(desktop_scene(shell, icons) =~= items);
    }
}

/// The button of a window shows its title, shortened, and is marked exactly while the window has the
/// focus; the Applications button is marked exactly while its menu is open.
pub proof fn panel_buttons_show_their_state(shell: ShellView, target: TargetView)
    ensures
        match target.action {
            ActionView::ActivateWindow(id) => match toplevel_place(shell.toplevels, id) {
                Some(at) => {
                    let window = shell.toplevels[at as int].window;
                    let look = panel_look(shell, target)->0;
                    &&& look.2 == window.focused
                    &&& window.title@.len() <= 25 ==> look.1 == window.title@
                    &&& window.focused ==> look.0 == shell.chrome.look.palette.raised
                    &&& !window.focused && is_hovered(shell, target.action) ==> look.0
                        == shell.chrome.look.palette.hover
                    &&& !window.focused && !is_hovered(shell, target.action) ==> look.0
                        == shell.chrome.look.palette.surface
                },
                None => (panel_look(shell, target)->0).1 == target.label && !(panel_look(
                    shell,
                    target,
                )->0).2,
            },
            ActionView::ToggleApplications => {
                let look = panel_look(shell, target)->0;
                &&& look.2 == applications_open(shell)
                &&& look.1 == "Applications"@
                &&& applications_open(shell) ==> look.0 == shell.chrome.look.palette.selection
            },
            ActionView::TaskbarPrevious => (panel_look(shell, target)->0).1 == "<"@,
            ActionView::TaskbarNext => (panel_look(shell, target)->0).1 == ">"@,
            ActionView::OpenFiles => (panel_look(shell, target)->0).1 == "Files"@,
            ActionView::OpenShared => (panel_look(shell, target)->0).1 == "Share"@,
            _ => true,
        },
        match panel_look(shell, target) {
            Some((color, label, active)) => {
                let drawn = panel_button(shell, target);
                &&& drawn[0] == Paint::Fill(
                    scaled_rect(target.rect, shell.chrome.look.scale_120),
                    color,
                )
                &&& drawn.last() is Centered
                &&& drawn.last()->Centered_0 == label
                &&& drawn.len() == (if active {
                    3int
                } else {
                    2
                })
                &&& active ==> drawn[1] is Fill && drawn[1]->Fill_1
                    == shell.chrome.look.palette.focus
            },
            None => panel_button(shell, target).len() == 0,
        },
{
}

/// The menu surface shows something only while a menu is open and knows where: the size and the
/// ground of what is shown follow the kind of the menu.
pub proof fn closed_menus_show_nothing(shell: ShellView, icons: Seq<bool>)
    ensures
        !shell.chrome.menu.menu_open ==> menu_scene(shell, icons).len() == 0 && menu_ground(
            shell,
        ).alpha == 0,
        shell.chrome.menu.awaiting_pointer ==> menu_ground(shell).alpha == 0,
        shell.chrome.menu.awaiting_pointer && shell.chrome.menu.menu_kind is Window ==> menu_scene(
            shell,
            icons,
        ).len() == 0,
        shell.chrome.menu.menu_open && !shell.chrome.menu.awaiting_pointer ==> menu_ground(shell)
            == shell.chrome.look.palette.menu,
        applications_open(shell) ==> menu_scene(shell, icons) == applications_scene(shell, icons),
        shell.chrome.menu.menu_open && shell.chrome.menu.menu_kind is Window ==> menu_content(shell)
            == (WINDOW_MENU_WIDTH, WINDOW_MENU_HEIGHT),
        menu_content(shell).0 >= 1 || preferred_size(shell).0 > u32::MAX,
{
}

/// A row of the Applications menu has a star exactly where its application is pinned, shows the icon
/// of its application where one was found, and is marked while the pointer is over it.
pub proof fn rows_show_their_application(shell: ShellView, target: TargetView, icons: Seq<bool>)
    ensures
        match target.action {
            ActionView::LaunchApplication(id) => {
                &&& shell.pinned.contains(id) ==> row_label(shell, target) == "★ "@ + target.label
                &&& !shell.pinned.contains(id) ==> row_label(shell, target) == target.label
                &&& match application_place(shell.applications, id) {
                    Some(at) => if icons[at as int] {
                        row_icon(shell, target, icons) is Icon && row_icon(
                            shell,
                            target,
                            icons,
                        )->Icon_1 == at
                    } else {
                        row_icon(shell, target, icons) is Fill && row_icon(
                            shell,
                            target,
                            icons,
                        )->Fill_1 == shell.chrome.look.palette.selection
                    },
                    None => row_icon(shell, target, icons) is Fill,
                }
            },
            _ => row_label(shell, target) == target.label && row_icon(shell, target, icons) is Fill,
        },
        ({
            let drawn = application_row(shell, target, icons);
            &&& drawn.len() == 3
            &&& drawn[0] is Fill
            &&& drawn[0]->Fill_1 == (if is_hovered(shell, target.action) {
                shell.chrome.look.palette.hover
            } else {
                shell.chrome.look.palette.menu
            })
            &&& drawn[1] == row_icon(shell, target, icons)
            &&& drawn[2] is Text
            &&& drawn[2]->Text_0 == row_label(shell, target)
        }),
{
}

/// The search field shows what is searched for, or says what it is for where that is nothing.
pub proof fn the_search_is_shown(shell: ShellView, size: (u32, u32))
    ensures
        ({
            let drawn = search_field(shell, size);
            &&& drawn.len() == 3
            &&& drawn[2] is Text
            &&& shell.search.len() > 0 ==> drawn[2]->Text_0 == shell.search && drawn[2]->Text_4
                == shell.chrome.look.palette.text
            &&& shell.search.len() == 0 ==> drawn[2]->Text_0 == "Search applications"@
                && drawn[2]->Text_4 == shell.chrome.look.palette.text_muted
        }),
{
}

/// The menu says that there is more above exactly where it is scrolled, and below exactly where rows
/// are left.
pub proof fn hidden_rows_are_announced(shell: ShellView, size: (u32, u32))
    ensures
        ({
            let drawn = scroll_signs(shell, size);
            let above = shell.chrome.menu.menu_scroll > 0;
            let below = shell.chrome.menu.menu_scroll + visible_rows(shell) < filtered(shell).len();
            &&& drawn.len() == (if above {
                1int
            } else {
                0
            }) + (if below {
                1int
            } else {
                0
            })
            &&& above ==> drawn[0] is Text && drawn[0]->Text_0 == "▲ more"@
            &&& below ==> drawn.last() is Text && drawn.last()->Text_0 == "scroll ▼"@
        }),
{
}

/// A row of a window menu shows what it does, and the one that closes the window is drawn in the
/// colour of warnings while the pointer is over it.
pub proof fn closing_is_marked(shell: ShellView, target: TargetView)
    ensures
        ({
            let drawn = window_row(shell, target);
            let theme = shell.chrome.look.palette;
            &&& drawn.len() == 2
            &&& drawn[1] is Text
            &&& drawn[1]->Text_0 == target.label
            &&& drawn[0] is Fill
            &&& !is_hovered(shell, target.action) ==> drawn[0]->Fill_1 == theme.menu
            &&& is_hovered(shell, target.action) && target.action is CloseWindow ==> drawn[0]->Fill_1
                == theme.destructive
            &&& is_hovered(shell, target.action) && !(target.action is CloseWindow)
                ==> drawn[0]->Fill_1 == theme.hover
        }),
{
}

/// A window menu begins with the title of its window.
pub proof fn window_menus_show_their_title(shell: ShellView, at: int)
    requires
        0 <= at < shell.toplevels.len(),
    ensures
        window_scene(shell, at)[2] is Text,
        shell.toplevels[at].window.title@.len() <= 28 ==> window_scene(shell, at)[2]->Text_0
            == shell.toplevels[at].window.title@,
{
}

/// The content of the menu surface lies where the menu is, as far as it fits on the surface.
pub proof fn menus_lie_at_their_origin(origin: i32, scale: u32, surface: u32, content: u32)
    requires
        content <= surface <= i32::MAX,
    ensures
        0 <= scaled(origin as int, scale) <= surface - content ==> destination(
            origin,
            scale,
            surface,
            content,
        ) == scaled(origin as int, scale),
        scaled(origin as int, scale) > surface - content ==> destination(
            origin,
            scale,
            surface,
            content,
        ) == surface - content,
        scaled(origin as int, scale) < 0 ==> destination(origin, scale, surface, content) == 0,
{
}

/// Dialogs say what they are about: an edit dialog shows its title and what is typed, a question
/// before deleting its detail, a collision the name that is taken, and an error what it says. What
/// went wrong is drawn in the colour of warnings.
pub proof fn dialogs_say_what_they_are_about(context: ContextView, scale: u32, theme: ThemePalette)
    ensures
        ({
            let drawn = dialog_body(context, scale, theme);
            match context {
                ContextView::Edit(dialog) => {
                    &&& drawn[0] is Text
                    &&& drawn[0]->Text_0 == (match dialog.operation {
                        EditTargetView::NewFolder => "New Folder"@,
                        EditTargetView::Rename(_) => "Rename Item"@,
                        EditTargetView::RenameApplication(_) => "Rename Application"@,
                    })
                    &&& drawn[2] is Text
                    &&& dialog.input.len() <= 48 ==> drawn[2]->Text_0 == dialog.input
                    &&& dialog.error is None ==> drawn.len() == 3
                    &&& dialog.error is Some ==> drawn.len() == 4 && drawn[3]->Text_0 == elided(
                        dialog.error->0,
                        58,
                    ) && drawn[3]->Text_4 == theme.destructive
                },
                ContextView::Delete(dialog) => {
                    &&& drawn[0]->Text_0 == "Delete permanently?"@
                    &&& drawn[1]->Text_0 == elided(dialog.detail, 62)
                    &&& dialog.error is Some ==> drawn.len() == 3 && drawn[2]->Text_0 == elided(
                        dialog.error->0,
                        62,
                    ) && drawn[2]->Text_4 == theme.destructive
                    &&& dialog.error is None ==> drawn.len() == 2
                },
                ContextView::Collision(session) => {
                    &&& drawn.len() == 2
                    &&& drawn[0]->Text_0 == "An item already exists"@
                    &&& drawn[1]->Text_0 == elided(
                        "Choose how to paste ‘"@ + elided(collision_name(session), 34) + "’."@,
                        62,
                    )
                },
                ContextView::Error(title, detail) => {
                    &&& drawn.len() == 2
                    &&& drawn[0]->Text_0 == title
                    &&& drawn[1]->Text_0 == elided(detail, 62)
                },
                _ => drawn.len() == 0,
            }
        }),
{
}

/// A collision is about the item that is pasted now.
pub proof fn collisions_name_the_current_item(session: SessionView, name: Seq<u8>)
    ensures
        0 <= session.index < session.sources.len() && file_name_of(session.sources[session.index])
            == Some(name) ==> collision_name(session) == lossy_text(name),
        !(0 <= session.index < session.sources.len()) ==> collision_name(session) == "item"@,
{
}

/// Pasting is drawn as not available exactly in the menu of the desktop while there is nothing to
/// paste; other rows are never drawn so.
pub proof fn rows_show_whether_they_are_available(shell: ShellView, target: TargetView)
    requires
        !(target.action is DesktopDelete || target.action is DesktopDeleteConfirm),
    ensures
        ({
            let drawn = context_row(shell, target);
            let theme = shell.chrome.look.palette;
            &&& drawn.len() == 2
            &&& drawn[1] is Text
            &&& drawn[1]->Text_0 == target.label
            &&& target.action is DesktopPaste && shell.context is DesktopMenu
                && !shell.chrome.paste_available ==> drawn[1]->Text_4 == theme.text_secondary
            &&& !(target.action is DesktopPaste) || !(shell.context is DesktopMenu)
                || shell.chrome.paste_available ==> drawn[1]->Text_4 == theme.text
            &&& drawn[0] is Fill
            &&& drawn[0]->Fill_1 == (if is_hovered(shell, target.action) {
                theme.hover
            } else {
                theme.menu
            })
        }),
{
}

} // verus!
