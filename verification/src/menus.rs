//! The menu surface and the context surface: what they list, how large they are and where they are.

use vstd::prelude::*;
use crate::arith::{
    add_i32, clamp_i32, max_i32, max_u32, min_u32, min_usize, mul_i32, mul_u32, sub_i32,
    u32_as_i32, usize_as_i32,
};
use crate::arith::{clamp_of, max_of, min_of, saturate_i32, saturate_u32};
use crate::lists::{filter_ends, filter_step};
use crate::model::{Application, ApplicationView};
use crate::model::{application_views, menu_rows};
use crate::model::{
    APPLICATIONS_MENU_FOOTER_HEIGHT, APPLICATIONS_MENU_HEADER_HEIGHT,
    APPLICATIONS_MENU_SECTION_HEIGHT, MENU_ROW_HEIGHT, PANEL_HEIGHT,
};
use crate::state::{ContextFrame, MenuState, Chrome, ContextState, ContextView, MenuKind, Shell, ShellView};
use crate::sway_ipc::Rect;
use crate::text::{characters, contains_part, list_has, text_of, to_lowercase, trim};
use crate::text::{holds_part, lowercase, text_views, trimmed};

verus! {

pub const WINDOW_MENU_WIDTH: u32 = 260;

/// The height of a window menu with its five controls.
pub const WINDOW_MENU_HEIGHT: u32 = 224;

pub const APPLICATION_CONTEXT_WIDTH: u32 = 252;

pub const DESKTOP_CONTEXT_WIDTH: u32 = 272;

pub const DESKTOP_DIALOG_WIDTH: u32 = 430;

pub const DESKTOP_DIALOG_HEIGHT: u32 = 190;

/// How long after a window menu opened the pointer is asked for again, in milliseconds.
pub const WINDOW_MENU_POINTER_REFRESH_DELAY: u64 = 16;

/// What the text in the search field looks for.
pub open spec fn search_query(search: Seq<char>) -> Seq<char> {
    lowercase(trimmed(search))
}

/// Whether a category of `application` holds `query`.
pub open spec fn category_holds(application: ApplicationView, query: Seq<char>) -> bool {
    exists|at: int|
        0 <= at < application.categories.len() && holds_part(
            lowercase(#[trigger] application.categories[at]),
            query,
        )
}

/// Whether the menu lists `application` for `query`.
pub open spec fn is_listed(application: ApplicationView, query: Seq<char>) -> bool {
    ||| query.len() == 0
    ||| holds_part(lowercase(application.name), query)
    ||| application.generic_name is Some && holds_part(
        lowercase(application.generic_name->0),
        query,
    )
    ||| category_holds(application, query)
}

/// Whether the menu lists the application at `at`, among the pinned ones or among the others.
pub open spec fn in_part(
    applications: Seq<ApplicationView>,
    query: Seq<char>,
    pinned: Seq<Seq<char>>,
    part: bool,
) -> spec_fn(usize) -> bool {
    |at: usize|
        is_listed(applications[at as int], query) && pinned.contains(applications[at as int].id)
            == part
}

/// The positions of `count` applications.
pub open spec fn positions(count: nat) -> Seq<usize> {
    Seq::new(count, |at: int| at as usize)
}

/// The applications that the menu lists, by their positions: the pinned ones come last.
pub open spec fn listing(
    applications: Seq<ApplicationView>,
    query: Seq<char>,
    pinned: Seq<Seq<char>>,
) -> Seq<usize> {
    positions(applications.len()).filter(in_part(applications, query, pinned, false)) + positions(
        applications.len(),
    ).filter(in_part(applications, query, pinned, true))
}

/// The positions of the applications that the menu of `shell` lists.
#[verifier::opaque]
pub open spec fn menu_listing(shell: ShellView) -> Seq<usize> {
    listing(shell.applications, search_query(shell.search), shell.pinned)
}

/// The applications that the menu of `shell` lists.
pub open spec fn filtered(shell: ShellView) -> Seq<ApplicationView> {
    menu_listing(shell).map_values(|at: usize| shell.applications[at as int])
}

/// The width that the widest of the listed rows needs, and at least `base`.
pub open spec fn widest(listing: Seq<usize>, widths: Seq<u32>, base: int) -> int
    decreases listing.len(),
{
    if listing.len() == 0 {
        base
    } else {
        max_of(widest(listing.drop_last(), widths, base), widths[listing.last() as int] as int)
    }
}

/// The width of an Applications menu whose content needs `measured` on an output of `desktop`.
#[verifier::opaque]
pub open spec fn menu_width(measured: int, desktop: u32) -> int {
    let comfort = clamp_of(saturate_u32(desktop * 3) / 16, 220, 360);
    let cap = min_of(max_of(saturate_u32(desktop * 2) / 3, 1), max_of(desktop as int, 1));
    min_of(max_of(measured, comfort), cap)
}

/// The height of an Applications menu with `count` rows on an output of `desktop`.
#[verifier::opaque]
pub open spec fn menu_height(count: int, desktop: u32) -> int {
    let content = saturate_i32(
        APPLICATIONS_MENU_HEADER_HEIGHT + APPLICATIONS_MENU_SECTION_HEIGHT
            + APPLICATIONS_MENU_FOOTER_HEIGHT + saturate_i32(
            saturate_i32(count) * MENU_ROW_HEIGHT,
        ),
    );
    min_of(content, max_of(desktop - PANEL_HEIGHT, 1))
}

/// The size that the content of the Applications menu wants.
#[verifier::opaque]
pub open spec fn preferred_size(shell: ShellView) -> (int, int) {
    (
        menu_width(
            widest(menu_listing(shell), shell.row_widths, shell.chrome.look.base_width as int),
            shell.chrome.look.desktop_size.0,
        ),
        menu_height(menu_listing(shell).len() as int, shell.chrome.look.desktop_size.1),
    )
}

/// Whether the Applications menu is open.
pub open spec fn applications_open(shell: ShellView) -> bool {
    shell.chrome.menu.menu_open && shell.chrome.menu.menu_kind is Applications
}

/// How many rows of the Applications menu can be seen.
#[verifier::opaque]
pub open spec fn visible_rows(shell: ShellView) -> int {
    menu_rows(
        if applications_open(shell) {
            preferred_size(shell).1 as u32
        } else {
            shell.chrome.menu.menu_size.1
        },
    )
}

/// The state with the menu scrolled no further than to its last row.
#[verifier::opaque]
pub open spec fn scroll_clamped(shell: ShellView) -> ShellView {
    let limit = max_of(menu_listing(shell).len() - visible_rows(shell), 0);
    ShellView {
        chrome: Chrome { menu: MenuState { menu_scroll: min_of(shell.chrome.menu.menu_scroll as int, limit) as usize, ..shell.chrome.menu }, ..shell.chrome },
        ..shell
    }
}

/// The size of the surface that an open menu lies on: the whole output above the panel.
#[verifier::opaque]
pub open spec fn overlay_size(shell: ShellView) -> (u32, u32) {
    (
        max_of(shell.chrome.look.desktop_size.0 as int, 1) as u32,
        max_of(shell.chrome.look.desktop_size.1 - PANEL_HEIGHT, 1) as u32,
    )
}

/// The state with the Applications menu fitted to its content, above the panel on the left.
#[verifier::opaque]
pub open spec fn applications_placed(shell: ShellView) -> ShellView {
    let top = overlay_size(shell).1 - preferred_size(shell).1;
    ShellView {
        chrome: Chrome { menu: MenuState { menu_size: overlay_size(shell), menu_origin: (
                0,
                if 0 <= top <= i32::MAX {
                    top as i32
                } else {
                    0
                },
            ), menu_changed: true, ..shell.chrome.menu }, ..shell.chrome },
        ..shell
    }
}

/// The state with the context surface hidden.
#[verifier::opaque]
pub open spec fn context_hidden(shell: ShellView) -> ShellView {
    if shell.context is Hidden {
        shell
    } else {
        ShellView {
            context: ContextView::Hidden,
            chrome: Chrome { frame: ContextFrame { context_size: (1, 1), context_changed: true, ..shell.chrome.frame }, dirty: true, ..shell.chrome },
            ..shell
        }
    }
}

/// The state with both surfaces hidden.
#[verifier::opaque]
pub open spec fn menu_hidden(shell: ShellView) -> ShellView {
    let bare = context_hidden(shell);
    if !bare.chrome.menu.menu_open {
        bare
    } else {
        let applications = bare.chrome.menu.menu_kind is Applications;
        ShellView {
            search: if applications {
                Seq::empty()
            } else {
                bare.search
            },
            chrome: Chrome { menu: MenuState { menu_scroll: if applications {
                    0
                } else {
                    bare.chrome.menu.menu_scroll
                }, menu_open: false, awaiting_pointer: false, pointer_refresh_at: None, menu_size: (1, 1), menu_changed: true, ..bare.chrome.menu }, dirty: true, ..bare.chrome },
            ..bare
        }
    }
}

/// The state after the Applications button.
#[verifier::opaque]
pub open spec fn menu_toggled(shell: ShellView) -> ShellView {
    if applications_open(shell) {
        menu_hidden(shell)
    } else {
        let open = applications_placed(
            ShellView {
                chrome: Chrome { menu: MenuState { menu_open: true, menu_kind: MenuKind::Applications, awaiting_pointer: false, pointer_refresh_at: None, menu_scroll: 0, ..shell.chrome.menu }, ..shell.chrome },
                ..shell
            },
        );
        ShellView { chrome: Chrome { dirty: true, ..open.chrome }, ..open }
    }
}

/// The state with `context` shown.
#[verifier::opaque]
pub open spec fn context_shown(
    shell: ShellView,
    context: ContextView,
    size: (u32, u32),
    origin: (i32, i32),
) -> ShellView {
    ShellView {
        context,
        chrome: Chrome { frame: ContextFrame { context_size: size, context_origin: origin, context_changed: true, ..shell.chrome.frame }, dirty: true, ..shell.chrome },
        ..shell
    }
}

/// Where a dialog stands: in the middle of the output above the panel.
pub open spec fn dialog_origin(shell: ShellView) -> (i32, i32) {
    (
        (max_of(shell.chrome.look.desktop_size.0 - DESKTOP_DIALOG_WIDTH, 0) / 2) as i32,
        (max_of(
            shell.chrome.look.desktop_size.1 - PANEL_HEIGHT - DESKTOP_DIALOG_HEIGHT,
            0,
        ) / 2) as i32,
    )
}

/// The state with a dialog shown.
pub open spec fn dialog_shown(shell: ShellView, context: ContextView) -> ShellView {
    context_shown(
        shell,
        context,
        (DESKTOP_DIALOG_WIDTH, DESKTOP_DIALOG_HEIGHT),
        dialog_origin(shell),
    )
}

/// The largest corner of a surface of `length` on an output of `whole`; zero where there is none.
pub open spec fn corner_limit(whole: int, length: int) -> int {
    let room = max_of(whole - length, 0);
    if room > i32::MAX {
        0
    } else {
        room
    }
}

/// Where a context menu of `size` opens for the point (`x`, `y`).
#[verifier::opaque]
pub open spec fn context_origin(shell: ShellView, size: (u32, u32), x: int, y: int) -> (i32, i32) {
    (
        clamp_of(x, 0, corner_limit(shell.chrome.look.desktop_size.0 as int, size.0 as int)) as i32,
        clamp_of(
            y,
            0,
            corner_limit(
                max_of(shell.chrome.look.desktop_size.1 - PANEL_HEIGHT, 0),
                size.1 as int,
            ),
        ) as i32,
    )
}

/// Where the menu of a window opens whose title bar was hit at `pointer`.
pub open spec fn titlebar_origin(
    frame: Rect,
    decoration: int,
    desktop: (u32, u32),
    pointer: Option<i32>,
) -> (int, int) {
    let left = match pointer {
        Some(x) => x as int,
        None => frame.x as int,
    };
    (
        clamp_of(left, 0, max_of(saturate_i32(desktop.0 as int) - WINDOW_MENU_WIDTH, 0)),
        clamp_of(
            saturate_i32(frame.y + max_of(decoration, 1)),
            0,
            max_of(
                saturate_i32(desktop.1 as int) - PANEL_HEIGHT - WINDOW_MENU_HEIGHT,
                0,
            ),
        ),
    )
}

/// Where the menu of a window opens whose title bar was hit at the column `pointer`, or at the
/// left end of its frame where the column is not known.
pub fn titlebar_menu_origin(
    frame: Rect,
    decoration_height: i32,
    desktop_size: (u32, u32),
    pointer: Option<i32>,
) -> (origin: (i32, i32))
    ensures
        (origin.0 as int, origin.1 as int) == titlebar_origin(
            frame,
            decoration_height as int,
            desktop_size,
            pointer,
        ),
{
    let width: i32 = u32_as_i32(desktop_size.0);
    let height: i32 = u32_as_i32(desktop_size.1);
    let maximum_left: i32 = sub_i32(width, WINDOW_MENU_WIDTH as i32);
    let maximum_top: i32 = sub_i32(sub_i32(height, PANEL_HEIGHT), WINDOW_MENU_HEIGHT as i32);
    let left: i32 = match pointer {
        Some(x) => x,
        None => frame.x,
    };
    (
        clamp_i32(left, 0, max_i32(maximum_left, 0)),
        clamp_i32(
            add_i32(frame.y, max_i32(decoration_height, 1)),
            0,
            max_i32(maximum_top, 0),
        ),
    )
}

/// On an output that has room for it, a window menu opened from a title bar lies on the output
/// above the panel.
pub proof fn titlebar_menu_stays_visible(
    frame: Rect,
    decoration: int,
    desktop: (u32, u32),
    pointer: Option<i32>,
)
    requires
        WINDOW_MENU_WIDTH <= desktop.0 <= i32::MAX,
        PANEL_HEIGHT + WINDOW_MENU_HEIGHT <= desktop.1 <= i32::MAX,
    ensures
        ({
            let origin = titlebar_origin(frame, decoration, desktop, pointer);
            &&& 0 <= origin.0 <= desktop.0 - WINDOW_MENU_WIDTH
            &&& 0 <= origin.1 <= desktop.1 - PANEL_HEIGHT - WINDOW_MENU_HEIGHT
        }),
{
}

/// The width of an Applications menu whose rows need `widths` and whose fixed texts need `base`.
pub fn applications_menu_width(widths: &[u32], base: u32, desktop_width: u32) -> (width: u32)
    ensures
        width == menu_width(
            widest(positions(widths@.len()), widths@, base as int),
            desktop_width,
        ),
{
    let mut measured: u32 = base;
    let mut at: usize = 0;
    assert(positions(0) =~= Seq::<usize>::empty());
    while at < widths.len()
        invariant
            at <= widths.len(),
            measured == widest(positions(at as nat), widths@, base as int),
        decreases widths.len() - at,
    {
        assert(positions((at + 1) as nat).drop_last() =~= positions(at as nat));
        measured = max_u32(measured, widths[at]);
        at = at + 1;
    }
    fitted_width(measured, desktop_width)
}

/// The width of an Applications menu whose content needs `measured`.
fn fitted_width(measured: u32, desktop_width: u32) -> (width: u32)
    ensures
        width == menu_width(measured as int, desktop_width),
{
    reveal(menu_width);
    let share: u32 = mul_u32(desktop_width, 3) / 16;
    let comfort: u32 = if share < 220 {
        220
    } else if share > 360 {
        360
    } else {
        share
    };
    let cap: u32 = min_u32(max_u32(mul_u32(desktop_width, 2) / 3, 1), max_u32(desktop_width, 1));
    min_u32(max_u32(measured, comfort), cap)
}

/// The height of an Applications menu with `application_count` rows: all of them, or as much as
/// the output has room for above the panel.
pub fn applications_menu_height(application_count: usize, desktop_height: u32) -> (height: u32)
    ensures
        height == menu_height(application_count as int, desktop_height),
{
    reveal(menu_height);
    let fixed: i32 = APPLICATIONS_MENU_HEADER_HEIGHT + APPLICATIONS_MENU_SECTION_HEIGHT
        + APPLICATIONS_MENU_FOOTER_HEIGHT;
    let rows: i32 = usize_as_i32(application_count);
    let content: i32 = add_i32(fixed, mul_i32(rows, MENU_ROW_HEIGHT));
    let available: u32 = max_u32(desktop_height.saturating_sub(PANEL_HEIGHT as u32), 1);
    min_u32(content as u32, available)
}

/// The Applications menu never covers the panel nor the whole width of a larger output.
pub proof fn applications_menu_leaves_room(measured: int, count: int, desktop: (u32, u32))
    requires
        desktop.0 > 2,
        desktop.1 > PANEL_HEIGHT,
    ensures
        menu_width(measured, desktop.0) <= desktop.0 * 2 / 3,
        menu_height(count, desktop.1) <= desktop.1 - PANEL_HEIGHT,
{
    reveal(menu_width);
    reveal(menu_height);
}

/// Whether some text of `application` holds `query`.
fn holds_query(application: &Application, query: &[char]) -> (holds: bool)
    ensures
        holds == is_listed(application@, query@),
{
    if query.len() == 0 {
        return true;
    }
    let name = characters(to_lowercase(application.name.as_str()).as_str());
    if contains_part(name.as_slice(), query) {
        return true;
    }
    if let Some(generic) = &application.generic_name {
        let generic_name = characters(to_lowercase(generic.as_str()).as_str());
        if contains_part(generic_name.as_slice(), query) {
            return true;
        }
    }
    let mut at: usize = 0;
    while at < application.categories.len()
        invariant
            at <= application.categories.len(),
            forall|index: int|
                0 <= index < at ==> !holds_part(
                    lowercase(#[trigger] application@.categories[index]),
                    query@,
                ),
        decreases application.categories.len() - at,
    {
        let category = characters(to_lowercase(application.categories[at].as_str()).as_str());
        if contains_part(category.as_slice(), query) {
            assert(holds_part(lowercase(application@.categories[at as int]), query@));
            return true;
        }
        at = at + 1;
    }
    false
}

/// The positions of the applications that `query` lists, among the pinned ones or the others.
fn listed_part(
    applications: &Vec<Application>,
    query: &[char],
    pinned: &Vec<String>,
    part: bool,
) -> (listed: Vec<usize>)
    ensures
        listed@ == positions(applications@.len()).filter(
            in_part(application_views(applications@), query@, text_views(pinned@), part),
        ),
{
    let ghost views = application_views(applications@);
    let ghost keep = in_part(views, query@, text_views(pinned@), part);
    let ghost all = positions(applications@.len());
    let mut listed: Vec<usize> = Vec::new();
    let mut at: usize = 0;
    proof {
        filter_ends(all, keep);
    }
    while at < applications.len()
        invariant
            at <= applications.len(),
            views == application_views(applications@),
            keep == in_part(views, query@, text_views(pinned@), part),
            all == positions(applications@.len()),
            listed@ == all.take(at as int).filter(keep),
        decreases applications.len() - at,
    {
        proof {
            filter_step(all, keep, at as int);
            assert(all[at as int] == at);
            assert(views[at as int] == applications@[at as int]@);
        }
        if holds_query(&applications[at], query) && list_has(pinned, &applications[at].id) == part {
            listed.push(at);
        }
        at = at + 1;
    }
    proof {
        filter_ends(all, keep);
    }
    listed
}

impl Shell {
    /// The positions of the applications that the menu lists, in their order.
    pub fn menu_listing(&self) -> (listed: Vec<usize>)
        ensures
            listed@ == menu_listing(self@),
            forall|at: int|
                0 <= at < listed@.len() ==> (#[trigger] listed@[at]) < self.applications@.len(),
    {
        reveal(menu_listing);
        let trimmed_search = text_of(trim(characters(self.search.as_str()).as_slice()).as_slice());
        let query = characters(to_lowercase(trimmed_search.as_str()).as_str());
        let mut listed = listed_part(&self.applications, query.as_slice(), &self.pinned, false);
        let mut pinned = listed_part(&self.applications, query.as_slice(), &self.pinned, true);
        listed.append(&mut pinned);
        let count: usize = self.applications.len();
        assert(self@.applications.len() == count);
        proof {
            listing_in_range(self@);
        }
        listed
    }

    /// The applications that the menu lists: those that the search finds, the pinned ones last.
    pub fn filtered_applications(&self) -> (applications: Vec<Application>)
        ensures
            application_views(applications@) == filtered(self@),
    {
        let listed = self.menu_listing();
        let mut applications: Vec<Application> = Vec::new();
        let mut at: usize = 0;
        while at < listed.len()
            invariant
                at <= listed.len(),
                listed@ == menu_listing(self@),
                forall|index: int|
                    0 <= index < listed@.len() ==> (#[trigger] listed@[index])
                        < self.applications@.len(),
                application_views(applications@) =~= filtered(self@).take(at as int),
            decreases listed.len() - at,
        {
            let ghost before = application_views(applications@);
            assert(listed@[at as int] < self.applications@.len());
            applications.push(self.applications[listed[at]].duplicate());
            assert(application_views(applications@) =~= before.push(filtered(self@)[at as int]));
            at = at + 1;
        }
        assert(filtered(self@).take(filtered(self@).len() as int) =~= filtered(self@));
        applications
    }

    /// The size that the content of the Applications menu wants.
    pub fn preferred_menu_size(&self) -> (size: (u32, u32))
        requires
            self.valid(),
        ensures
            size.0 == preferred_size(self@).0,
            size.1 == preferred_size(self@).1,
    {
        reveal(preferred_size);
        let listed = self.menu_listing();
        let mut measured: u32 = self.chrome.look.base_width;
        let mut at: usize = 0;
        assert(listed@.take(0) =~= Seq::<usize>::empty());
        while at < listed.len()
            invariant
                at <= listed.len(),
                self.valid(),
                forall|index: int|
                    0 <= index < listed@.len() ==> (#[trigger] listed@[index])
                        < self.applications@.len(),
                measured == widest(
                    listed@.take(at as int),
                    self.row_widths@,
                    self.chrome.look.base_width as int,
                ),
            decreases listed.len() - at,
        {
            assert(listed@.take(at + 1).drop_last() =~= listed@.take(at as int));
            assert(listed@[at as int] < self.applications@.len());
            assert(self@.applications.len() == self.applications@.len());
            measured = max_u32(measured, self.row_widths[listed[at]]);
            at = at + 1;
        }
        assert(listed@.take(listed@.len() as int) =~= listed@);
        (
            fitted_width(measured, self.chrome.look.desktop_size.0),
            applications_menu_height(listed.len(), self.chrome.look.desktop_size.1),
        )
    }

    /// How many rows of the Applications menu can be seen.
    pub fn visible_menu_rows(&self) -> (rows: usize)
        requires
            self.valid(),
        ensures
            rows == visible_rows(self@),
    {
        reveal(visible_rows);
        reveal(menu_rows);
        let height: u32 = if self.chrome.menu.menu_open && self.chrome.menu.menu_kind
            == MenuKind::Applications {
            self.preferred_menu_size().1
        } else {
            self.chrome.menu.menu_size.1
        };
        let used: i32 = APPLICATIONS_MENU_HEADER_HEIGHT + APPLICATIONS_MENU_SECTION_HEIGHT
            + APPLICATIONS_MENU_FOOTER_HEIGHT;
        let space: i32 = sub_i32(u32_as_i32(height), used);
        if space < 0 {
            0
        } else {
            (space / MENU_ROW_HEIGHT) as usize
        }
    }

    /// Scrolls the menu back where it is past its end.
    pub fn clamp_menu_scroll(&mut self)
        requires
            old(self).valid(),
        ensures
            final(self)@ == scroll_clamped(old(self)@),
            final(self).valid(),
    {
        reveal(scroll_clamped);
        let count: usize = self.menu_listing().len();
        let visible: usize = self.visible_menu_rows();
        self.chrome.menu.menu_scroll = min_usize(
            self.chrome.menu.menu_scroll,
            count.saturating_sub(visible),
        );
        assert(self@ == scroll_clamped(old(self)@));
    }

    /// The size of the surface that an open menu lies on.
    pub fn menu_overlay_size(&self) -> (size: (u32, u32))
        ensures
            size == overlay_size(self@),
    {
        reveal(overlay_size);
        (
            max_u32(self.chrome.look.desktop_size.0, 1),
            max_u32(self.chrome.look.desktop_size.1.saturating_sub(PANEL_HEIGHT as u32), 1),
        )
    }

    /// Fits the Applications menu to its content.
    pub fn apply_applications_menu_geometry(&mut self)
        requires
            old(self).valid(),
        ensures
            final(self)@ == applications_placed(old(self)@),
            final(self).valid(),
    {
        reveal(applications_placed);
        let ghost before = self@;
        let content = self.preferred_menu_size();
        let overlay = self.menu_overlay_size();
        proof {
            height_fits(before);
        }
        let top: u32 = overlay.1.saturating_sub(content.1);
        let row: i32 = if top <= i32::MAX as u32 {
            top as i32
        } else {
            0
        };
        let mut chrome = self.chrome;
        chrome.menu.menu_size = overlay;
        chrome.menu.menu_origin = (0, row);
        chrome.menu.menu_changed = true;
        self.chrome = chrome;
        assert(self@.chrome == applications_placed(before).chrome);
        assert(self@ == applications_placed(before));
    }

    /// Hides the context surface.
    pub fn hide_context(&mut self)
        ensures
            final(self)@ == context_hidden(old(self)@),
            old(self).valid() ==> final(self).valid(),
    {
        reveal(context_hidden);
        if self.context.is_visible() {
            self.context = ContextState::Hidden;
            self.chrome.frame.context_size = (1, 1);
            self.chrome.frame.context_changed = true;
            self.chrome.dirty = true;
        }
        assert(self@ == context_hidden(old(self)@));
    }

    /// Hides the menu surface and the context surface.
    pub fn hide_menu(&mut self)
        ensures
            final(self)@ == menu_hidden(old(self)@),
            old(self).valid() ==> final(self).valid(),
    {
        reveal(menu_hidden);
        self.hide_context();
        if self.chrome.menu.menu_open {
            if self.chrome.menu.menu_kind == MenuKind::Applications {
                self.search = String::new();
                self.chrome.menu.menu_scroll = 0;
            }
            self.chrome.menu.menu_open = false;
            self.chrome.menu.awaiting_pointer = false;
            self.chrome.menu.pointer_refresh_at = None;
            self.chrome.menu.menu_size = (1, 1);
            self.chrome.menu.menu_changed = true;
            self.chrome.dirty = true;
        }
        assert(self@ == menu_hidden(old(self)@));
    }

    /// Opens the Applications menu, or closes it where it is open.
    pub fn toggle_menu(&mut self)
        requires
            old(self).valid(),
        ensures
            final(self)@ == menu_toggled(old(self)@),
            final(self).valid(),
    {
        reveal(menu_toggled);
        if self.chrome.menu.menu_open && self.chrome.menu.menu_kind == MenuKind::Applications {
            self.hide_menu();
            return ;
        }
        self.chrome.menu.menu_open = true;
        self.chrome.menu.menu_kind = MenuKind::Applications;
        self.chrome.menu.awaiting_pointer = false;
        self.chrome.menu.pointer_refresh_at = None;
        self.chrome.menu.menu_scroll = 0;
        self.apply_applications_menu_geometry();
        self.chrome.dirty = true;
        assert(self@ == menu_toggled(old(self)@));
    }

    /// Shows `context` on the context surface.
    pub fn show_context(&mut self, context: ContextState, size: (u32, u32), origin: (i32, i32))
        ensures
            final(self)@ == context_shown(old(self)@, context@, size, origin),
            old(self).valid() ==> final(self).valid(),
    {
        reveal(context_shown);
        self.context = context;
        self.chrome.frame.context_size = size;
        self.chrome.frame.context_origin = origin;
        self.chrome.frame.context_changed = true;
        self.chrome.dirty = true;
        assert(self@ == context_shown(old(self)@, context@, size, origin));
    }

    /// Shows a dialog in the middle of the output.
    pub fn show_dialog(&mut self, context: ContextState)
        ensures
            final(self)@ == dialog_shown(old(self)@, context@),
            old(self).valid() ==> final(self).valid(),
    {
        let left: u32 = self.chrome.look.desktop_size.0.saturating_sub(DESKTOP_DIALOG_WIDTH) / 2;
        let top: u32 = self.chrome.look.desktop_size.1.saturating_sub(
            PANEL_HEIGHT as u32,
        ).saturating_sub(DESKTOP_DIALOG_HEIGHT) / 2;
        self.show_context(
            context,
            (DESKTOP_DIALOG_WIDTH, DESKTOP_DIALOG_HEIGHT),
            (left as i32, top as i32),
        );
    }
}

/// The content of the Applications menu is never higher than the surface it lies on.
proof fn height_fits(shell: ShellView)
    ensures
        preferred_size(shell).1 <= overlay_size(shell).1,
{
    reveal(preferred_size);
    reveal(menu_height);
    reveal(overlay_size);
}

/// Every position that the menu lists is that of an application.
proof fn listing_in_range(shell: ShellView)
    requires
        shell.applications.len() <= usize::MAX,
    ensures
        forall|at: int|
            0 <= at < menu_listing(shell).len() ==> (#[trigger] menu_listing(shell)[at])
                < shell.applications.len(),
{
    reveal(menu_listing);
    let query = search_query(shell.search);
    let all = positions(shell.applications.len());
    let first = all.filter(in_part(shell.applications, query, shell.pinned, false));
    let second = all.filter(in_part(shell.applications, query, shell.pinned, true));
    assert forall|at: int| 0 <= at < menu_listing(shell).len() implies (#[trigger] menu_listing(
        shell,
    )[at]) < shell.applications.len() by {
        let listed = menu_listing(shell)[at];
        if at < first.len() {
            assert(first.contains(first[at]));
            all.lemma_filter_contains_rev(
                in_part(shell.applications, query, shell.pinned, false),
                listed,
            );
        } else {
            assert(second.contains(second[at - first.len()]));
            all.lemma_filter_contains_rev(
                in_part(shell.applications, query, shell.pinned, true),
                listed,
            );
        }
    }
}

/// The menu lists exactly the applications that the search finds, each once, and the pinned ones
/// behind the others; within both it keeps the order of the applications.
pub proof fn the_menu_lists_what_is_found(
    applications: Seq<ApplicationView>,
    query: Seq<char>,
    pinned: Seq<Seq<char>>,
)
    requires
        applications.len() <= usize::MAX,
    ensures
        forall|at: int|
            #![trigger applications[at]]
            0 <= at < applications.len() ==> listing(applications, query, pinned).contains(
                at as usize,
            ) == is_listed(applications[at], query),
        forall|place: int|
            #![trigger listing(applications, query, pinned)[place]]
            0 <= place < listing(applications, query, pinned).len() ==> listing(
                applications,
                query,
                pinned,
            )[place] < applications.len(),
        forall|left: int, right: int|
            #![trigger listing(applications, query, pinned)[left], listing(applications, query, pinned)[right]]
            0 <= left < right < listing(applications, query, pinned).len() ==> ({
                let one = listing(applications, query, pinned)[left];
                let other = listing(applications, query, pinned)[right];
                let first = pinned.contains(applications[one as int].id);
                let second = pinned.contains(applications[other as int].id);
                &&& first ==> second
                &&& first == second ==> one < other
            }),
{
    let all = positions(applications.len());
    let plain = in_part(applications, query, pinned, false);
    let held = in_part(applications, query, pinned, true);
    let front = all.filter(plain);
    let back = all.filter(held);
    let whole = listing(applications, query, pinned);
    assert(whole == front + back);
    positions_stay_in_order(applications.len(), plain);
    positions_stay_in_order(applications.len(), held);
    assert forall|at: int|
        #![trigger applications[at]]
        0 <= at < applications.len() implies whole.contains(at as usize) == is_listed(
        applications[at],
        query,
    ) by {
        assert(all[at] == at as usize);
        if is_listed(applications[at], query) {
            if pinned.contains(applications[at].id) {
                let found = crate::lists::kept_is_found(all, held, at);
                assert(whole[front.len() + found] == at as usize);
            } else {
                let found = crate::lists::kept_is_found(all, plain, at);
                assert(whole[found] == at as usize);
            }
        }
        if whole.contains(at as usize) {
            let place = choose|place: int| 0 <= place < whole.len() && whole[place] == at as usize;
            if place < front.len() {
                let there = crate::lists::kept_is_there(all, plain, place);
                assert(all[there] == at as usize);
            } else {
                let there = crate::lists::kept_is_there(all, held, place - front.len());
                assert(all[there] == at as usize);
            }
        }
    }
    assert forall|place: int| 0 <= place < whole.len() implies #[trigger] whole[place]
        < applications.len() && pinned.contains(applications[whole[place] as int].id) == (place
        >= front.len()) by {
        if place < front.len() {
            let there = crate::lists::kept_is_there(all, plain, place);
            assert(front[place] == all[there]);
        } else {
            let there = crate::lists::kept_is_there(all, held, place - front.len());
            assert(back[place - front.len()] == all[there]);
        }
    }
    assert forall|left: int, right: int|
        #![trigger whole[left], whole[right]]
        0 <= left < right < whole.len() implies ({
        let first = pinned.contains(applications[whole[left] as int].id);
        let second = pinned.contains(applications[whole[right] as int].id);
        &&& first ==> second
        &&& first == second ==> whole[left] < whole[right]
    }) by {
        assert(whole[left] < applications.len() && whole[right] < applications.len());
        if right < front.len() {
            assert(front[left] < front[right]);
        } else if left >= front.len() {
            assert(back[left - front.len()] < back[right - front.len()]);
        }
    }
}

/// What is kept of the positions rises.
proof fn positions_stay_in_order(count: nat, keep: spec_fn(usize) -> bool)
    requires
        count <= usize::MAX,
    ensures
        forall|left: int, right: int|
            #![trigger positions(count).filter(keep)[left], positions(count).filter(keep)[right]]
            0 <= left < right < positions(count).filter(keep).len() ==> positions(count).filter(
                keep,
            )[left] < positions(count).filter(keep)[right],
        forall|at: int|
            0 <= at < positions(count).filter(keep).len() ==> #[trigger] positions(count).filter(
                keep,
            )[at] < count,
    decreases count,
{
    reveal(Seq::filter);
    if count > 0 {
        let fewer = (count - 1) as nat;
        positions_stay_in_order(fewer, keep);
        assert(positions(count).drop_last() =~= positions(fewer));
        assert(positions(count).last() == fewer as usize);
        let before = positions(fewer).filter(keep);
        let all = positions(count).filter(keep);
        assert(all =~= if keep(fewer as usize) {
            before.push(fewer as usize)
        } else {
            before
        });
        assert forall|left: int, right: int|
            #![trigger all[left], all[right]]
            0 <= left < right < all.len() implies all[left] < all[right] by {
            assert(all[left] == before[left]);
            if right < before.len() {
                assert(all[right] == before[right]);
            }
        }
    }
}

/// A search without a text finds every application; another one finds those of which the name, the
/// generic name or a category holds it, whatever the case of the letters.
pub proof fn searching_looks_at_all_names(application: ApplicationView, query: Seq<char>, at: int)
    ensures
        is_listed(application, Seq::empty()),
        holds_part(lowercase(application.name), query) ==> is_listed(application, query),
        application.generic_name is Some && holds_part(
            lowercase(application.generic_name->0),
            query,
        ) ==> is_listed(application, query),
        0 <= at < application.categories.len() && holds_part(
            lowercase(application.categories[at]),
            query,
        ) ==> is_listed(application, query),
        query.len() > 0 && !holds_part(lowercase(application.name), query)
            && application.generic_name is None && application.categories.len() == 0 ==> !is_listed(
            application,
            query,
        ),
{
}

/// Hiding the menus leaves both closed and forgets the search of the Applications menu; the selection,
/// the clipboard and what is on the desktop stay.
pub proof fn hidden_menus_are_closed(shell: ShellView)
    ensures
        !menu_hidden(shell).chrome.menu.menu_open,
        menu_hidden(shell).context is Hidden,
        applications_open(shell) ==> menu_hidden(shell).search.len() == 0 && menu_hidden(
            shell,
        ).chrome.menu.menu_scroll == 0,
        !shell.chrome.menu.menu_open ==> menu_hidden(shell).search == shell.search,
        menu_hidden(shell).selection == shell.selection,
        menu_hidden(shell).clipboard == shell.clipboard,
        menu_hidden(shell).desktop_targets == shell.desktop_targets,
        menu_hidden(shell).toplevels == shell.toplevels,
        menu_hidden(menu_hidden(shell)) == menu_hidden(shell),
        context_hidden(shell).context is Hidden,
        context_hidden(shell).chrome.menu == shell.chrome.menu,
        context_hidden(shell).selection == shell.selection,
        shell.context is Hidden ==> context_hidden(shell) == shell,
{
    reveal(menu_hidden);
    reveal(context_hidden);
}

/// The Applications button opens the menu where it is not open, at its first row, and closes it where
/// it is.
pub proof fn the_applications_button_toggles(shell: ShellView)
    ensures
        applications_open(menu_toggled(shell)) <==> !applications_open(shell),
        !applications_open(shell) ==> menu_toggled(shell).chrome.menu.menu_scroll == 0
            && menu_toggled(shell).chrome.menu.menu_size == overlay_size(shell),
        applications_open(shell) ==> !menu_toggled(shell).chrome.menu.menu_open,
        menu_toggled(shell).selection == shell.selection,
        menu_toggled(shell).applications == shell.applications,
{
    reveal(menu_toggled);
    reveal(applications_placed);
    reveal(overlay_size);
    hidden_menus_are_closed(shell);
    reveal(menu_hidden);
    reveal(context_hidden);
}

/// The menu is scrolled at most so far that its last row is at its end, and stays where it is as far
/// as that.
pub proof fn menus_scroll_to_their_last_row(shell: ShellView)
    requires
        menu_listing(shell).len() <= usize::MAX,
    ensures
        ({
            let scroll = scroll_clamped(shell).chrome.menu.menu_scroll;
            &&& scroll <= shell.chrome.menu.menu_scroll
            &&& scroll == 0 || scroll + visible_rows(shell) <= menu_listing(shell).len()
            &&& shell.chrome.menu.menu_scroll + visible_rows(shell) <= menu_listing(shell).len()
                ==> scroll == shell.chrome.menu.menu_scroll
            &&& scroll_clamped(scroll_clamped(shell)).chrome.menu.menu_scroll == scroll
            &&& scroll_clamped(shell).search == shell.search
        }),
{
    reveal(scroll_clamped);
    reveal(visible_rows);
    reveal(menu_listing);
    reveal(preferred_size);
    let after = scroll_clamped(shell);
    assert(menu_listing(after) == menu_listing(shell));
    assert(visible_rows(after) == visible_rows(shell));
}

/// A dialog stands in the middle of the output above the panel, and all of it is there where it fits.
pub proof fn dialogs_stand_in_the_middle(shell: ShellView)
    requires
        430 <= shell.chrome.look.desktop_size.0 <= i32::MAX,
        190 + PANEL_HEIGHT <= shell.chrome.look.desktop_size.1 <= i32::MAX,
    ensures
        ({
            let (x, y) = dialog_origin(shell);
            let right = shell.chrome.look.desktop_size.0 - x - 430;
            let under = shell.chrome.look.desktop_size.1 - PANEL_HEIGHT - y - 190;
            &&& 0 <= x && 0 <= right && 0 <= right - x <= 1
            &&& 0 <= y && 0 <= under && 0 <= under - y <= 1
        }),
{
}

/// A menu opens where the pointer is, or as near to it as lets all of it be on the output above the
/// panel.
pub proof fn menus_open_at_the_pointer(shell: ShellView, size: (u32, u32), x: int, y: int)
    requires
        size.0 <= shell.chrome.look.desktop_size.0 <= i32::MAX,
        size.1 + PANEL_HEIGHT <= shell.chrome.look.desktop_size.1 <= i32::MAX,
    ensures
        ({
            let (left, top) = context_origin(shell, size, x, y);
            let width = shell.chrome.look.desktop_size.0;
            let height = shell.chrome.look.desktop_size.1 - PANEL_HEIGHT;
            &&& 0 <= left && left + size.0 <= width
            &&& 0 <= top && top + size.1 <= height
            &&& 0 <= x && x + size.0 <= width ==> left == x
            &&& 0 <= y && y + size.1 <= height ==> top == y
            &&& x < 0 ==> left == 0
            &&& x + size.0 > width ==> left + size.0 == width
            &&& y + size.1 > height ==> top + size.1 == height
        }),
{
    reveal(context_origin);
}

/// A window menu opens under the title bar, at the pointer where that is known and at the left end of
/// the window otherwise, as far as it stays on the output.
pub proof fn window_menus_open_under_the_title(
    frame: Rect,
    decoration: int,
    desktop: (u32, u32),
    pointer: Option<i32>,
)
    requires
        WINDOW_MENU_WIDTH <= desktop.0 <= i32::MAX,
        PANEL_HEIGHT + WINDOW_MENU_HEIGHT <= desktop.1 <= i32::MAX,
        decoration >= 1,
        0 <= frame.y + decoration <= desktop.1 - PANEL_HEIGHT - WINDOW_MENU_HEIGHT,
    ensures
        titlebar_origin(frame, decoration, desktop, pointer).1 == frame.y + decoration,
        match pointer {
            Some(x) => 0 <= x <= desktop.0 - WINDOW_MENU_WIDTH ==> titlebar_origin(
                frame,
                decoration,
                desktop,
                pointer,
            ).0 == x,
            None => 0 <= frame.x <= desktop.0 - WINDOW_MENU_WIDTH ==> titlebar_origin(
                frame,
                decoration,
                desktop,
                pointer,
            ).0 == frame.x,
        },
{
}

/// The Applications menu is as wide as its widest row where the output has room for that, and as high
/// as all of its rows where they fit.
pub proof fn the_menu_shows_its_rows_where_they_fit(measured: int, count: int, desktop: (u32, u32))
    requires
        0 <= count <= 1000000,
        desktop.0 <= i32::MAX,
        desktop.1 > PANEL_HEIGHT,
        desktop.1 <= i32::MAX,
    ensures
        360 <= measured <= desktop.0 * 2 / 3 ==> menu_width(measured, desktop.0) == measured,
        ({
            let content = APPLICATIONS_MENU_HEADER_HEIGHT + APPLICATIONS_MENU_SECTION_HEIGHT
                + APPLICATIONS_MENU_FOOTER_HEIGHT + count * MENU_ROW_HEIGHT;
            content <= desktop.1 - PANEL_HEIGHT ==> menu_height(count, desktop.1) == content
        }),
{
    reveal(menu_width);
    reveal(menu_height);
}

/// No row of the menu is wider than the menu asks for, and it asks for no more than a row or its
/// fixed texts need.
pub proof fn the_widest_row_fits(listing: Seq<usize>, widths: Seq<u32>, base: int)
    ensures
        widest(listing, widths, base) >= base,
        forall|at: int|
            0 <= at < listing.len() ==> widest(listing, widths, base)
                >= widths[#[trigger] listing[at] as int],
        widest(listing, widths, base) == base || exists|at: int|
            0 <= at < listing.len() && widest(listing, widths, base)
                == widths[#[trigger] listing[at] as int],
    decreases listing.len(),
{
    if listing.len() > 0 {
        let front = listing.drop_last();
        the_widest_row_fits(front, widths, base);
        assert(forall|at: int| 0 <= at < front.len() ==> front[at] == #[trigger] listing[at]);
        assert(listing[listing.len() - 1] == listing.last());
        let before = widest(front, widths, base);
        if widest(listing, widths, base) == before && before != base {
            let at = choose|at: int|
                0 <= at < front.len() && before == widths[#[trigger] front[at] as int];
            assert(listing[at] == front[at]);
        }
    }
}

} // verus!
