//! The tray: which applications have an item in it, and what is asked of them.

use vstd::prelude::*;
use vstd::string::*;
use crate::lists::{filter_ends, filter_step};
use crate::paths::same_bytes;
use crate::text::{characters, comes_before, copy_optional, join, same_optional, text_is};
use crate::text::{
    optional_text, text_before, text_order_is_total, text_order_is_transitive, text_views,
};
use crate::tray_menu::{
    bus_name, menu_entry, menu_item_actionable, registration_target, unique_name, TrayItem,
    TrayMenu, TrayMenuEntry, TrayPixmap,
};
use crate::tray_menu::{
    is_actionable, is_bus_name, is_unique_name, menu_entry_view, menu_entry_views, optional_pixmap,
    reachable_entry, registered_target, ItemView, MenuEntryView,
};

verus! {

/// The largest number of items, and of registrations under way.
pub const MAX_ITEMS: usize = 128;

/// What is under way for an item.
#[derive(Debug, Clone, Copy, PartialEq, Eq, Structural)]
pub struct TrayFlags {
    pub refreshing: bool,
    pub refresh_again: bool,
    pub menu_requested: bool,
    pub menu_refreshing: bool,
    pub menu_refresh_again: bool,
}

/// An item of the tray, from its registration on.
#[derive(Debug)]
pub struct TrayEntry {
    /// The owner on the bus and the path of the object.
    pub id: String,
    pub service: String,
    pub owner: String,
    pub path: String,
    /// Tells this registration from others under the same identity.
    pub serial: u64,
    pub item: Option<TrayItem>,
    pub menu_path: Option<String>,
    pub menu: Option<TrayMenu>,
    pub flags: TrayFlags,
}

/// What a [`TrayEntry`] shows.
pub struct ShownView {
    pub item: Option<ItemView>,
    pub menu_path: Option<Seq<char>>,
    pub menu: Option<(u32, Seq<MenuEntryView>)>,
}

/// A [`TrayEntry`] with its texts as sequences.
pub struct TrayEntryView {
    pub id: Seq<char>,
    pub service: Seq<char>,
    pub owner: Seq<char>,
    pub path: Seq<char>,
    pub serial: u64,
    pub shown: ShownView,
    pub flags: TrayFlags,
}

/// An item that may be absent.
pub open spec fn optional_item(item: Option<TrayItem>) -> Option<ItemView> {
    match item {
        Some(item) => Some(item@),
        None => None,
    }
}

/// A menu that may be absent.
pub open spec fn optional_menu(menu: Option<TrayMenu>) -> Option<(u32, Seq<MenuEntryView>)> {
    match menu {
        Some(menu) => Some((menu.revision, menu_entry_views(menu.entries@))),
        None => None,
    }
}

impl View for TrayEntry {
    type V = TrayEntryView;

    open spec fn view(&self) -> TrayEntryView {
        TrayEntryView {
            id: self.id@,
            service: self.service@,
            owner: self.owner@,
            path: self.path@,
            serial: self.serial,
            shown: ShownView {
                item: optional_item(self.item),
                menu_path: optional_text(self.menu_path),
                menu: optional_menu(self.menu),
            },
            flags: self.flags,
        }
    }
}

/// The entries of a list, each by its view.
pub open spec fn tray_views(entries: Seq<TrayEntry>) -> Seq<TrayEntryView> {
    entries.map_values(|entry: TrayEntry| entry@)
}

/// The tray.
#[derive(Debug)]
pub struct TrayState {
    /// The items, in the order of their identities.
    pub entries: Vec<TrayEntry>,
    pub next_serial: u64,
    pub pending_registrations: usize,
    pub dirty: bool,
    pub error: Option<String>,
}

/// A [`TrayState`] with its texts and lists as sequences.
pub struct TrayView {
    pub entries: Seq<TrayEntryView>,
    pub next_serial: u64,
    pub pending_registrations: usize,
    pub dirty: bool,
    pub error: Option<Seq<char>>,
}

impl View for TrayState {
    type V = TrayView;

    open spec fn view(&self) -> TrayView {
        TrayView {
            entries: tray_views(self.entries@),
            next_serial: self.next_serial,
            pending_registrations: self.pending_registrations,
            dirty: self.dirty,
            error: optional_text(self.error),
        }
    }
}

/// Whether the items are in the order of their identities, and not too many.
pub open spec fn tray_valid(tray: TrayView) -> bool {
    &&& tray.entries.len() <= MAX_ITEMS
    &&& tray.pending_registrations <= MAX_ITEMS
    &&& forall|left: int, right: int|
        0 <= left < right < tray.entries.len() ==> text_before(
            (#[trigger] tray.entries[left]).id,
            (#[trigger] tray.entries[right]).id,
        )
}

/// Where the item with that identity stands.
pub open spec fn entry_place(entries: Seq<TrayEntryView>, id: Seq<char>) -> Option<int>
    decreases entries.len(),
{
    if entries.len() == 0 {
        None
    } else {
        match entry_place(entries.drop_last(), id) {
            Some(at) => Some(at),
            None => if entries.last().id == id {
                Some(entries.len() - 1)
            } else {
                None
            },
        }
    }
}

/// A place that was found among the first items is the one that is found among all.
proof fn place_stays(entries: Seq<TrayEntryView>, id: Seq<char>, length: int)
    requires
        0 <= length <= entries.len(),
        entry_place(entries.take(length), id) is Some,
    ensures
        entry_place(entries, id) == entry_place(entries.take(length), id),
    decreases entries.len() - length,
{
    if length < entries.len() {
        assert(entries.take(length + 1).drop_last() =~= entries.take(length));
        place_stays(entries, id, length + 1);
    } else {
        assert(entries.take(length) =~= entries);
    }
}

/// A place that is found holds the item, and where none is found there is none.
proof fn place_is_right(entries: Seq<TrayEntryView>, id: Seq<char>)
    ensures
        match entry_place(entries, id) {
            Some(at) => 0 <= at < entries.len() && entries[at].id == id,
            None => forall|at: int| 0 <= at < entries.len() ==> (#[trigger] entries[at]).id != id,
        },
    decreases entries.len(),
{
    if entries.len() > 0 {
        place_is_right(entries.drop_last(), id);
        assert(entries[entries.len() - 1] == entries.last());
        assert forall|at: int| 0 <= at < entries.len() - 1 implies #[trigger] entries[at]
            == entries.drop_last()[at] by {}
    }
}

/// The tray with another entry at a place.
pub open spec fn with_entry_at(tray: TrayView, at: int, entry: TrayEntryView) -> TrayView {
    TrayView { entries: tray.entries.update(at, entry), ..tray }
}

/// An item in the order of the identities.
pub open spec fn with_item(entries: Seq<TrayEntryView>, entry: TrayEntryView) -> Seq<TrayEntryView>
    decreases entries.len(),
{
    if entries.len() == 0 || text_before(entries.last().id, entry.id) {
        entries.push(entry)
    } else {
        with_item(entries.drop_last(), entry).push(entries.last())
    }
}

/// How a request to register ends at first.
#[derive(Debug)]
pub enum Registration {
    /// The argument is no service and no path.
    InvalidArguments,
    /// The caller has no name of its own on the bus.
    NoOwner,
    /// Another host is welcome.
    HostAccepted,
    /// The name of the host is none.
    InvalidHost,
    /// The item is none.
    InvalidItem,
    /// Too many registrations are under way.
    LimitReached,
    /// The bus is to be asked whose service that is.
    AskOwner { service: String, path: String },
}

/// A [`Registration`] with its texts as sequences.
pub enum RegistrationView {
    InvalidArguments,
    NoOwner,
    HostAccepted,
    InvalidHost,
    InvalidItem,
    LimitReached,
    AskOwner(Seq<char>, Seq<char>),
}

impl View for Registration {
    type V = RegistrationView;

    open spec fn view(&self) -> RegistrationView {
        match *self {
            Registration::InvalidArguments => RegistrationView::InvalidArguments,
            Registration::NoOwner => RegistrationView::NoOwner,
            Registration::HostAccepted => RegistrationView::HostAccepted,
            Registration::InvalidHost => RegistrationView::InvalidHost,
            Registration::InvalidItem => RegistrationView::InvalidItem,
            Registration::LimitReached => RegistrationView::LimitReached,
            Registration::AskOwner { service, path } => RegistrationView::AskOwner(
                service@,
                path@,
            ),
        }
    }
}

/// How a request to register ends at first.
pub open spec fn registration_begun(
    tray: TrayView,
    sender: Option<Seq<char>>,
    host: bool,
    service: Option<Seq<char>>,
) -> RegistrationView {
    match (service, sender) {
        (None, _) => RegistrationView::InvalidArguments,
        (Some(_), None) => RegistrationView::NoOwner,
        (Some(service), Some(sender)) => if !is_unique_name(sender) {
            RegistrationView::NoOwner
        } else if host {
            if is_bus_name(service) {
                RegistrationView::HostAccepted
            } else {
                RegistrationView::InvalidHost
            }
        } else {
            match registered_target(sender, service) {
                None => RegistrationView::InvalidItem,
                Some(target) => if tray.pending_registrations >= MAX_ITEMS {
                    RegistrationView::LimitReached
                } else {
                    RegistrationView::AskOwner(target.0, target.1)
                },
            }
        },
    }
}

/// How a registration ends once the bus has said whose service it is.
#[derive(Debug, Clone, Copy, PartialEq, Eq, Structural)]
pub enum Registered {
    /// The service is not the caller's.
    Denied,
    /// The item was there already.
    Known,
    /// There are too many items.
    LimitReached,
    /// The item is new: others are told of it, and its properties are read.
    Added,
}

/// The entry of an item that was just registered.
pub open spec fn fresh_entry(
    owner: Seq<char>,
    service: Seq<char>,
    path: Seq<char>,
    serial: u64,
) -> TrayEntryView {
    TrayEntryView {
        id: owner + path,
        service,
        owner,
        path,
        serial,
        shown: ShownView { item: None, menu_path: None, menu: None },
        flags: TrayFlags {
            refreshing: false,
            refresh_again: false,
            menu_requested: false,
            menu_refreshing: false,
            menu_refresh_again: false,
        },
    }
}

/// The tray after a registration, and how it ends.
pub open spec fn registration_ended(
    tray: TrayView,
    sender: Seq<char>,
    service: Seq<char>,
    path: Seq<char>,
    owner: Option<Seq<char>>,
) -> (TrayView, Registered) {
    let released = TrayView {
        pending_registrations: (tray.pending_registrations - 1) as usize,
        ..tray
    };
    if owner != Some(sender) {
        (released, Registered::Denied)
    } else if entry_place(tray.entries, sender + path) is Some {
        (released, Registered::Known)
    } else if tray.entries.len() >= MAX_ITEMS {
        (released, Registered::LimitReached)
    } else {
        let serial = (tray.next_serial + 1) as u64;
        (
            TrayView {
                entries: with_item(tray.entries, fresh_entry(sender, service, path, serial)),
                next_serial: serial,
                ..released
            },
            Registered::Added,
        )
    }
}

/// Whether an item goes with an owner that left a name.
pub open spec fn leaves_with(name: Seq<char>, owner: Seq<char>) -> spec_fn(TrayEntryView) -> bool {
    |entry: TrayEntryView| entry.owner == owner && (entry.owner == name || entry.service == name)
}

/// Whether an item stays when an owner leaves a name.
pub open spec fn stays_without(name: Seq<char>, owner: Seq<char>) -> spec_fn(TrayEntryView) -> bool {
    |entry: TrayEntryView| !leaves_with(name, owner)(entry)
}

/// The identities of items.
pub open spec fn tray_ids(entries: Seq<TrayEntryView>) -> Seq<Seq<char>> {
    entries.map_values(|entry: TrayEntryView| entry.id)
}

/// What a signal on the bus is about.
#[derive(Debug, Clone, Copy, PartialEq, Eq, Structural)]
pub enum TraySignal {
    Properties,
    Layout,
    Nothing,
}

/// What a signal is about. `of_item` says whether it is about the properties of an item.
pub open spec fn signal_kind(interface: Seq<char>, member: Seq<char>, of_item: bool) -> TraySignal {
    if interface == "org.kde.StatusNotifierItem"@ && (member == "NewTitle"@ || member
        == "NewIcon"@ || member == "NewAttentionIcon"@ || member == "NewOverlayIcon"@ || member
        == "NewToolTip"@ || member == "NewStatus"@ || member == "NewMenu"@) {
        TraySignal::Properties
    } else if interface == "org.freedesktop.DBus.Properties"@ && member == "PropertiesChanged"@
        && of_item {
        TraySignal::Properties
    } else if interface == "com.canonical.dbusmenu"@ && (member == "LayoutUpdated"@ || member
        == "ItemsPropertiesUpdated"@) {
        TraySignal::Layout
    } else {
        TraySignal::Nothing
    }
}

/// What a signal is about.
pub fn classify_signal(interface: &String, member: &String, of_item: bool) -> (signal: TraySignal)
    ensures
        signal == signal_kind(interface@, member@, of_item),
{
    if text_is(interface, "org.kde.StatusNotifierItem") && (text_is(member, "NewTitle") || text_is(
        member,
        "NewIcon",
    ) || text_is(member, "NewAttentionIcon") || text_is(member, "NewOverlayIcon") || text_is(
        member,
        "NewToolTip",
    ) || text_is(member, "NewStatus") || text_is(member, "NewMenu")) {
        TraySignal::Properties
    } else if text_is(interface, "org.freedesktop.DBus.Properties") && text_is(
        member,
        "PropertiesChanged",
    ) && of_item {
        TraySignal::Properties
    } else if text_is(interface, "com.canonical.dbusmenu") && (text_is(member, "LayoutUpdated")
        || text_is(member, "ItemsPropertiesUpdated")) {
        TraySignal::Layout
    } else {
        TraySignal::Nothing
    }
}

/// Whether a signal of an owner about an object concerns an item.
pub open spec fn is_concerned(signal: TraySignal, sender: Seq<char>, path: Seq<char>) -> spec_fn(
    TrayEntryView,
) -> bool {
    |entry: TrayEntryView|
        entry.owner == sender && match signal {
            TraySignal::Layout => entry.flags.menu_requested && entry.shown.menu_path == Some(
                path,
            ),
            TraySignal::Properties => entry.path == path,
            TraySignal::Nothing => false,
        }
}

/// Whether the properties of an item are to be read now: where they are being read they are read
/// once more after that.
pub open spec fn item_refresh_begun(tray: TrayView, id: Seq<char>) -> (TrayView, bool) {
    match entry_place(tray.entries, id) {
        Some(at) => {
            let entry = tray.entries[at];
            if entry.flags.refreshing {
                (
                    with_entry_at(
                        tray,
                        at,
                        TrayEntryView {
                            flags: TrayFlags { refresh_again: true, ..entry.flags },
                            ..entry
                        },
                    ),
                    false,
                )
            } else {
                (
                    with_entry_at(
                        tray,
                        at,
                        TrayEntryView {
                            flags: TrayFlags { refreshing: true, ..entry.flags },
                            ..entry
                        },
                    ),
                    true,
                )
            }
        },
        None => (tray, false),
    }
}

/// What follows when the properties of an item were read.
#[derive(Debug, Clone, Copy, PartialEq, Eq, Structural)]
pub struct ItemRefresh {
    /// They are read once more.
    pub again: bool,
    /// Its menu is read.
    pub menu_changed: bool,
    /// It is gone, and others are told.
    pub removed: bool,
}

/// The entry after its properties were read.
pub open spec fn refreshed_entry(
    entry: TrayEntryView,
    parsed: Option<(ItemView, Option<Seq<char>>)>,
) -> TrayEntryView {
    let flags = TrayFlags { refreshing: false, refresh_again: false, ..entry.flags };
    match parsed {
        Some((item, menu_path)) => TrayEntryView {
            flags,
            shown: ShownView {
                item: Some(item),
                menu_path,
                menu: if entry.shown.menu_path != menu_path {
                    None
                } else {
                    entry.shown.menu
                },
            },
            ..entry
        },
        None => TrayEntryView { flags, ..entry },
    }
}

/// The tray after the properties of an item were read, and what follows. A reading that failed
/// leaves the item as it was, or takes it away if it is the first.
pub open spec fn item_refreshed(
    tray: TrayView,
    id: Seq<char>,
    serial: u64,
    parsed: Option<(ItemView, Option<Seq<char>>)>,
) -> (TrayView, ItemRefresh) {
    let nothing = ItemRefresh { again: false, menu_changed: false, removed: false };
    match entry_place(tray.entries, id) {
        Some(at) => {
            let entry = tray.entries[at];
            if entry.serial != serial {
                (tray, nothing)
            } else {
                let removed = parsed is None && entry.shown.item is None;
                let menu_changed = match parsed {
                    Some((_, menu_path)) => entry.shown.menu_path != menu_path,
                    None => false,
                };
                let changed = match parsed {
                    Some((item, _)) => entry.shown.item != Some(item) || menu_changed,
                    None => false,
                };
                (
                    TrayView {
                        entries: if removed {
                            tray.entries.remove(at)
                        } else {
                            tray.entries.update(at, refreshed_entry(entry, parsed))
                        },
                        dirty: tray.dirty || changed,
                        ..tray
                    },
                    ItemRefresh { again: entry.flags.refresh_again, menu_changed, removed },
                )
            }
        },
        None => (tray, nothing),
    }
}

/// Whether the menu of an item is to be read now: only while it is wanted, and where it is being
/// read it is read once more after that.
pub open spec fn menu_refresh_begun(tray: TrayView, id: Seq<char>) -> (TrayView, bool) {
    match entry_place(tray.entries, id) {
        Some(at) => {
            let entry = tray.entries[at];
            if !entry.flags.menu_requested {
                (tray, false)
            } else if entry.flags.menu_refreshing {
                (
                    with_entry_at(
                        tray,
                        at,
                        TrayEntryView {
                            flags: TrayFlags { menu_refresh_again: true, ..entry.flags },
                            ..entry
                        },
                    ),
                    false,
                )
            } else if entry.shown.menu_path is None {
                (tray, false)
            } else {
                (
                    with_entry_at(
                        tray,
                        at,
                        TrayEntryView {
                            flags: TrayFlags { menu_refreshing: true, ..entry.flags },
                            ..entry
                        },
                    ),
                    true,
                )
            }
        },
        None => (tray, false),
    }
}

/// The tray after the menu of an item was read from `path`, and whether it is read once more. A
/// menu of another path than the item has now is dropped.
pub open spec fn menu_refreshed(
    tray: TrayView,
    id: Seq<char>,
    serial: u64,
    path: Seq<char>,
    parsed: Option<(u32, Seq<MenuEntryView>)>,
) -> (TrayView, bool) {
    match entry_place(tray.entries, id) {
        Some(at) => {
            let entry = tray.entries[at];
            let rested = TrayEntryView {
                flags: TrayFlags {
                    menu_refreshing: false,
                    menu_refresh_again: false,
                    ..entry.flags
                },
                ..entry
            };
            if entry.serial != serial {
                (tray, false)
            } else if entry.shown.menu_path != Some(path) {
                (with_entry_at(tray, at, rested), entry.flags.menu_refresh_again)
            } else {
                let error = if parsed is None {
                    Some("The application tray menu is unavailable or invalid."@)
                } else {
                    tray.error
                };
                (
                    TrayView {
                        error,
                        dirty: tray.dirty || entry.shown.menu != parsed || error is Some,
                        ..with_entry_at(
                            tray,
                            at,
                            TrayEntryView {
                                shown: ShownView { menu: parsed, ..entry.shown },
                                ..rested
                            },
                        )
                    },
                    entry.flags.menu_refresh_again,
                )
            }
        },
        None => (tray, false),
    }
}

/// Why nothing is asked of an application.
#[derive(Debug, Clone, Copy, PartialEq, Eq, Structural)]
pub enum TrayError {
    /// The item is gone.
    NoItem,
    /// The item has no menu.
    NoMenu,
    /// The menu was not read yet.
    MenuNotLoaded,
    /// The entry of the menu is disabled, hidden, of another kind, or gone.
    EntryUnavailable,
}

/// Where an application is asked: the owner on the bus and the path of the object.
#[derive(Debug, PartialEq, Eq)]
pub struct TrayCall {
    pub owner: String,
    pub path: String,
    pub serial: u64,
}

/// Whether an identity comes before another.
fn id_before(left: &String, right: &String) -> (before: bool)
    ensures
        before == text_before(left@, right@),
{
    comes_before(characters(left.as_str()).as_slice(), characters(right.as_str()).as_slice())
}

/// Whether two lists of entries of menus are the same.
fn same_entries(left: &Vec<TrayMenuEntry>, right: &Vec<TrayMenuEntry>) -> (same: bool)
    ensures
        same == (menu_entry_views(left@) == menu_entry_views(right@)),
    decreases left@,
{
    assert(menu_entry_views(left@).len() == left@.len());
    assert(menu_entry_views(right@).len() == right@.len());
    if left.len() != right.len() {
        return false;
    }
    let mut at: usize = 0;
    while at < left.len()
        invariant
            at <= left.len(),
            left.len() == right.len(),
            forall|earlier: int|
                0 <= earlier < at ==> #[trigger] menu_entry_views(left@)[earlier]
                    == menu_entry_views(right@)[earlier],
        decreases left.len() - at,
    {
        let one = &left[at];
        let other = &right[at];
        assert(menu_entry_views(left@)[at as int] == menu_entry_view(*one));
        assert(menu_entry_views(right@)[at as int] == menu_entry_view(*other));
        assert(decreases_to!(left@ => left@[at as int]));
        assert(decreases_to!(*one => one.children));
        assert(decreases_to!(one.children => one.children@));
        assert(menu_entry_view(*one).children =~= menu_entry_views(one.children@));
        assert(menu_entry_view(*other).children =~= menu_entry_views(other.children@));
        let same_state = match (one.toggle_state, other.toggle_state) {
            (Some(one), Some(other)) => one == other,
            (None, None) => true,
            _ => false,
        };
        if one.id != other.id || one.enabled != other.enabled || one.visible != other.visible
            || one.separator != other.separator || one.submenu != other.submenu || !same_state
            || !text_is(&one.label, other.label.as_str()) || !same_optional(
            &one.toggle_type,
            &other.toggle_type,
        ) || !same_entries(&one.children, &other.children) {
            assert(menu_entry_views(left@)[at as int] != menu_entry_views(right@)[at as int]);
            return false;
        }
        at = at + 1;
    }
    assert(menu_entry_views(left@) =~= menu_entry_views(right@));
    true
}

/// Whether two menus that may be absent are the same.
fn same_menus(left: &Option<TrayMenu>, right: &Option<TrayMenu>) -> (same: bool)
    ensures
        same == (optional_menu(*left) == optional_menu(*right)),
{
    match (left, right) {
        (Some(left), Some(right)) => left.revision == right.revision && same_entries(
            &left.entries,
            &right.entries,
        ),
        (None, None) => true,
        _ => false,
    }
}

/// Whether two icons that may be absent are the same.
fn same_pixmaps(left: &Option<TrayPixmap>, right: &Option<TrayPixmap>) -> (same: bool)
    ensures
        same == (optional_pixmap(*left) == optional_pixmap(*right)),
{
    match (left, right) {
        (Some(left), Some(right)) => left.width == right.width && left.height == right.height
            && same_bytes(left.rgba.as_slice(), right.rgba.as_slice()),
        (None, None) => true,
        _ => false,
    }
}

/// Whether two items are the same.
fn same_items(left: &TrayItem, right: &TrayItem) -> (same: bool)
    ensures
        same == (left@ == right@),
{
    text_is(&left.id, right.id.as_str()) && text_is(&left.title, right.title.as_str())
        && same_optional(&left.icon_name, &right.icon_name) && same_pixmaps(
        &left.pixmap,
        &right.pixmap,
    ) && text_is(&left.status, right.status.as_str()) && left.item_is_menu == right.item_is_menu
        && left.has_menu == right.has_menu
}

/// Whether an item is one that the tray shows.
pub open spec fn is_active() -> spec_fn(TrayEntryView) -> bool {
    |entry: TrayEntryView|
        match entry.shown.item {
            Some(item) => item.status != "Passive"@,
            None => false,
        }
}

impl TrayState {
    /// An empty tray.
    pub fn new() -> (tray: TrayState)
        ensures
            tray@ == (TrayView {
                entries: seq![],
                next_serial: 0,
                pending_registrations: 0,
                dirty: false,
                error: None,
            }),
            tray_valid(tray@),
    {
        let tray = TrayState {
            entries: Vec::new(),
            next_serial: 0,
            pending_registrations: 0,
            dirty: false,
            error: None,
        };
        assert(tray@.entries =~= seq![]);
        tray
    }

    /// Where the item with that identity stands.
    fn find(&self, id: &String) -> (place: Option<usize>)
        ensures
            match place {
                Some(at) => entry_place(self@.entries, id@) == Some(at as int) && at
                    < self.entries.len() && self@.entries[at as int] == self.entries@[at as int]@,
                None => entry_place(self@.entries, id@) is None,
            },
    {
        let ghost views = self@.entries;
        let mut at: usize = 0;
        while at < self.entries.len()
            invariant
                at <= self.entries.len(),
                views == tray_views(self.entries@),
                entry_place(views.take(at as int), id@) is None,
            decreases self.entries.len() - at,
        {
            assert(views.take(at + 1).drop_last() =~= views.take(at as int));
            assert(views[at as int] == self.entries@[at as int]@);
            if text_is(&self.entries[at].id, id.as_str()) {
                proof {
                    place_stays(views, id@, at + 1);
                }
                return Some(at);
            }
            at = at + 1;
        }
        assert(views.take(at as int) =~= views);
        None
    }

    /// Begins a registration.
    pub fn begin_registration(
        &mut self,
        sender: &Option<String>,
        host: bool,
        service: &Option<String>,
    ) -> (registration: Registration)
        requires
            tray_valid(old(self)@),
        ensures
            registration@ == registration_begun(
                old(self)@,
                optional_text(*sender),
                host,
                optional_text(*service),
            ),
            final(self)@ == (TrayView {
                pending_registrations: if registration@ is AskOwner {
                    (old(self)@.pending_registrations + 1) as usize
                } else {
                    old(self)@.pending_registrations
                },
                ..old(self)@
            }),
            tray_valid(final(self)@),
    {
        let service = match service {
            Some(service) => service,
            None => {
                return Registration::InvalidArguments;
            },
        };
        let sender = match sender {
            Some(sender) => sender,
            None => {
                return Registration::NoOwner;
            },
        };
        if !unique_name(sender.as_str()) {
            return Registration::NoOwner;
        }
        if host {
            return if bus_name(service.as_str()) {
                Registration::HostAccepted
            } else {
                Registration::InvalidHost
            };
        }
        match registration_target(sender.as_str(), service.as_str()) {
            Some((service, path)) => {
                if self.pending_registrations >= MAX_ITEMS {
                    return Registration::LimitReached;
                }
                self.pending_registrations = self.pending_registrations + 1;
                Registration::AskOwner { service, path }
            },
            None => Registration::InvalidItem,
        }
    }

    /// Ends a registration, now that the bus has said whose service it is.
    pub fn finish_registration(
        &mut self,
        sender: &String,
        service: String,
        path: &String,
        owner: &Option<String>,
    ) -> (registered: Registered)
        requires
            tray_valid(old(self)@),
            old(self)@.pending_registrations > 0,
            old(self)@.next_serial < u64::MAX,
        ensures
            (final(self)@, registered) == registration_ended(
                old(self)@,
                sender@,
                service@,
                path@,
                optional_text(*owner),
            ),
            tray_valid(final(self)@),
    {
        let ghost before = self@;
        self.pending_registrations = self.pending_registrations - 1;
        let owned = match owner {
            Some(owner) => text_is(owner, sender.as_str()),
            None => false,
        };
        if !owned {
            return Registered::Denied;
        }
        let id = join(sender.as_str(), path.as_str());
        if self.find(&id).is_some() {
            return Registered::Known;
        }
        if self.entries.len() >= MAX_ITEMS {
            return Registered::LimitReached;
        }
        self.next_serial = self.next_serial + 1;
        let entry = TrayEntry {
            id,
            service,
            owner: sender.clone(),
            path: path.clone(),
            serial: self.next_serial,
            item: None,
            menu_path: None,
            menu: None,
            flags: TrayFlags {
                refreshing: false,
                refresh_again: false,
                menu_requested: false,
                menu_refreshing: false,
                menu_refresh_again: false,
            },
        };
        proof {
            place_is_right(before.entries, entry@.id);
            adding_keeps_valid(before.entries, entry@);
        }
        insert_item(&mut self.entries, entry);
        Registered::Added
    }

    /// An owner left a name: the items that go with it, which are taken away.
    pub fn name_owner_changed(&mut self, name: &String, old_owner: &String) -> (removed: Vec<String>)
        requires
            tray_valid(old(self)@),
        ensures
            ({
                let gone = if old_owner@.len() == 0 {
                    Seq::<TrayEntryView>::empty()
                } else {
                    old(self)@.entries.filter(leaves_with(name@, old_owner@))
                };
                &&& text_views(removed@) == tray_ids(gone)
                &&& final(self)@ == (TrayView {
                    entries: if old_owner@.len() == 0 {
                        old(self)@.entries
                    } else {
                        old(self)@.entries.filter(stays_without(name@, old_owner@))
                    },
                    dirty: old(self)@.dirty || gone.len() > 0,
                    ..old(self)@
                })
            }),
            (final(self)@, text_views(removed@)) == owner_gone(old(self)@, name@, old_owner@),
            tray_valid(final(self)@),
    {
        let mut removed: Vec<String> = Vec::new();
        assert(text_views(removed@) =~= tray_ids(Seq::<TrayEntryView>::empty()));
        if old_owner.as_str().is_empty() {
            return removed;
        }
        let ghost before = self@;
        let ghost leaves = leaves_with(name@, old_owner@);
        let ghost stays = stays_without(name@, old_owner@);
        let mut kept: Vec<TrayEntry> = Vec::new();
        let mut rest: Vec<TrayEntry> = Vec::new();
        std::mem::swap(&mut rest, &mut self.entries);
        let ghost mut done: int = 0;
        proof {
            filter_ends(before.entries, leaves);
            filter_ends(before.entries, stays);
            keeping_stays_valid(before.entries, stays);
        }
        assert(tray_views(kept@) =~= before.entries.take(0).filter(stays));
        assert(text_views(removed@) =~= tray_ids(before.entries.take(0).filter(leaves)));
        assert(tray_views(rest@) =~= before.entries.skip(0));
        while rest.len() > 0
            invariant
                0 <= done <= before.entries.len(),
                leaves == leaves_with(name@, old_owner@),
                stays == stays_without(name@, old_owner@),
                tray_views(rest@) == before.entries.skip(done),
                tray_views(kept@) == before.entries.take(done).filter(stays),
                text_views(removed@) == tray_ids(before.entries.take(done).filter(leaves)),
                self@ == (TrayView { entries: self@.entries, ..before }),
            decreases rest.len(),
        {
            let ghost whole = tray_views(rest@);
            let ghost gone = before.entries.take(done).filter(leaves);
            let ghost names = text_views(removed@);
            let ghost staying = tray_views(kept@);
            assert(whole.len() == rest@.len());
            proof {
                filter_step(before.entries, leaves, done);
                filter_step(before.entries, stays, done);
            }
            let entry = rest.remove(0);
            assert(whole[0] == entry@);
            assert(tray_views(rest@) =~= whole.skip(1));
            assert(before.entries[done] == entry@);
            assert(tray_views(rest@) =~= before.entries.skip(done + 1));
            if text_is(&entry.owner, old_owner.as_str()) && (text_is(&entry.owner, name.as_str())
                || text_is(&entry.service, name.as_str())) {
                let id = entry.id.clone();
                removed.push(id);
                assert(text_views(removed@) =~= names.push(id@));
                assert(tray_ids(gone.push(entry@)) =~= tray_ids(gone).push(id@));
            } else {
                kept.push(entry);
                assert(tray_views(kept@) =~= staying.push(entry@));
            }
            proof {
                done = done + 1;
            }
        }
        proof {
            assert(done == before.entries.len()) by {
                assert(tray_views(rest@).len() == rest@.len());
            }
            filter_ends(before.entries, leaves);
            filter_ends(before.entries, stays);
            assert(text_views(removed@).len() == removed@.len());
        }
        self.entries = kept;
        self.dirty = self.dirty || removed.len() > 0;
        removed
    }

    /// The items that a signal concerns.
    pub fn concerned(&self, signal: TraySignal, sender: &String, path: &String) -> (ids: Vec<String>)
        ensures
            text_views(ids@) == tray_ids(
                self@.entries.filter(is_concerned(signal, sender@, path@)),
            ),
    {
        let ghost views = self@.entries;
        let ghost keep = is_concerned(signal, sender@, path@);
        let mut ids: Vec<String> = Vec::new();
        let mut at: usize = 0;
        proof {
            filter_ends(views, keep);
        }
        assert(text_views(ids@) =~= tray_ids(views.take(0).filter(keep)));
        while at < self.entries.len()
            invariant
                at <= self.entries.len(),
                views == tray_views(self.entries@),
                keep == is_concerned(signal, sender@, path@),
                text_views(ids@) == tray_ids(views.take(at as int).filter(keep)),
            decreases self.entries.len() - at,
        {
            proof {
                filter_step(views, keep, at as int);
            }
            let ghost kept = views.take(at as int).filter(keep);
            let ghost names = text_views(ids@);
            let entry = &self.entries[at];
            assert(views[at as int] == entry@);
            let concerned = text_is(&entry.owner, sender.as_str()) && match signal {
                TraySignal::Layout => entry.flags.menu_requested && match &entry.menu_path {
                    Some(menu_path) => text_is(menu_path, path.as_str()),
                    None => false,
                },
                TraySignal::Properties => text_is(&entry.path, path.as_str()),
                TraySignal::Nothing => false,
            };
            if concerned {
                let id = entry.id.clone();
                ids.push(id);
                assert(text_views(ids@) =~= names.push(id@));
                assert(tray_ids(kept.push(entry@)) =~= tray_ids(kept).push(id@));
            }
            at = at + 1;
        }
        proof {
            filter_ends(views, keep);
        }
        ids
    }

    /// Replaces the flags of an item.
    fn set_flags(&mut self, at: usize, flags: TrayFlags)
        requires
            at < old(self).entries.len(),
        ensures
            final(self)@ == with_entry_at(
                old(self)@,
                at as int,
                TrayEntryView { flags, ..old(self)@.entries[at as int] },
            ),
            tray_valid(old(self)@) ==> tray_valid(final(self)@),
    {
        let ghost before = self@;
        self.entries[at].flags = flags;
        assert(self@.entries =~= before.entries.update(
            at as int,
            TrayEntryView { flags, ..before.entries[at as int] },
        ));
        proof {
            if tray_valid(before) {
                flags_keep_valid(before, at as int, self@);
            }
        }
    }

    /// Replaces what an item shows, and drops its menu if `drop_menu`.
    fn show(&mut self, at: usize, item: TrayItem, menu_path: Option<String>, drop_menu: bool)
        requires
            at < old(self).entries.len(),
        ensures
            final(self)@ == with_entry_at(
                old(self)@,
                at as int,
                TrayEntryView {
                    shown: ShownView {
                        item: Some(item@),
                        menu_path: optional_text(menu_path),
                        menu: if drop_menu {
                            None
                        } else {
                            old(self)@.entries[at as int].shown.menu
                        },
                    },
                    ..old(self)@.entries[at as int]
                },
            ),
    {
        let ghost before = self@;
        if drop_menu {
            self.entries[at].menu = None;
        }
        self.entries[at].item = Some(item);
        self.entries[at].menu_path = menu_path;
        let ghost entry = self.entries@[at as int]@;
        assert(self@.entries =~= before.entries.update(at as int, entry));
    }

    /// Begins to read the properties of an item: whom to ask for them, where they are to be read
    /// now.
    pub fn begin_item_refresh(&mut self, id: &String) -> (call: Option<TrayCall>)
        requires
            tray_valid(old(self)@),
        ensures
            ({
                let (tray, reads) = item_refresh_begun(old(self)@, id@);
                &&& final(self)@ == tray
                &&& tray_valid(final(self)@)
                &&& match call {
                    Some(call) => {
                        let entry = old(self)@.entries[entry_place(old(self)@.entries, id@)->0];
                        reads && call.owner@ == entry.owner && call.path@ == entry.path
                            && call.serial == entry.serial
                    },
                    None => !reads,
                }
            }),
    {
        let at: usize = match self.find(id) {
            Some(at) => at,
            None => {
                return None;
            },
        };
        let mut flags = self.entries[at].flags;
        if flags.refreshing {
            flags.refresh_again = true;
            self.set_flags(at, flags);
            return None;
        }
        flags.refreshing = true;
        let call = TrayCall {
            owner: self.entries[at].owner.clone(),
            path: self.entries[at].path.clone(),
            serial: self.entries[at].serial,
        };
        self.set_flags(at, flags);
        Some(call)
    }

    /// Takes over the properties of an item that were read.
    pub fn finish_item_refresh(
        &mut self,
        id: &String,
        serial: u64,
        parsed: Option<(TrayItem, Option<String>)>,
    ) -> (refresh: ItemRefresh)
        requires
            tray_valid(old(self)@),
        ensures
            (final(self)@, refresh) == item_refreshed(
                old(self)@,
                id@,
                serial,
                match parsed {
                    Some(parsed) => Some((parsed.0@, optional_text(parsed.1))),
                    None => None,
                },
            ),
            tray_valid(final(self)@),
    {
        let ghost before = self@;
        let nothing = ItemRefresh { again: false, menu_changed: false, removed: false };
        let at: usize = match self.find(id) {
            Some(at) => at,
            None => {
                return nothing;
            },
        };
        if self.entries[at].serial != serial {
            return nothing;
        }
        let ghost entry = before.entries[at as int];
        let mut flags = self.entries[at].flags;
        let again = flags.refresh_again;
        flags.refreshing = false;
        flags.refresh_again = false;
        match parsed {
            Some((item, menu_path)) => {
                let menu_changed = !same_optional(&self.entries[at].menu_path, &menu_path);
                let item_changed = match &self.entries[at].item {
                    Some(known) => !same_items(known, &item),
                    None => true,
                };
                self.set_flags(at, flags);
                self.show(at, item, menu_path, menu_changed);
                self.dirty = self.dirty || item_changed || menu_changed;
                assert(self@.entries =~= before.entries.update(
                    at as int,
                    refreshed_entry(entry, Some((item@, optional_text(menu_path)))),
                ));
                proof {
                    flags_keep_valid(before, at as int, self@);
                }
                ItemRefresh { again, menu_changed, removed: false }
            },
            None => {
                let removed = self.entries[at].item.is_none();
                if removed {
                    let _ = self.entries.remove(at);
                    assert(self@.entries =~= before.entries.remove(at as int));
                    proof {
                        removing_stays_valid(before, at as int);
                    }
                } else {
                    self.set_flags(at, flags);
                }
                ItemRefresh { again, menu_changed: false, removed }
            },
        }
    }

    /// Begins to read the menu of an item: whom to ask for it, where it is to be read now.
    pub fn begin_menu_refresh(&mut self, id: &String) -> (call: Option<TrayCall>)
        requires
            tray_valid(old(self)@),
        ensures
            ({
                let (tray, reads) = menu_refresh_begun(old(self)@, id@);
                &&& final(self)@ == tray
                &&& tray_valid(final(self)@)
                &&& match call {
                    Some(call) => {
                        let entry = old(self)@.entries[entry_place(old(self)@.entries, id@)->0];
                        reads && call.owner@ == entry.owner && Some(call.path@)
                            == entry.shown.menu_path && call.serial == entry.serial
                    },
                    None => !reads,
                }
            }),
    {
        let at: usize = match self.find(id) {
            Some(at) => at,
            None => {
                return None;
            },
        };
        let mut flags = self.entries[at].flags;
        if !flags.menu_requested {
            return None;
        }
        if flags.menu_refreshing {
            flags.menu_refresh_again = true;
            self.set_flags(at, flags);
            return None;
        }
        let path = match &self.entries[at].menu_path {
            Some(path) => path.clone(),
            None => {
                return None;
            },
        };
        let call = TrayCall {
            owner: self.entries[at].owner.clone(),
            path,
            serial: self.entries[at].serial,
        };
        flags.menu_refreshing = true;
        self.set_flags(at, flags);
        Some(call)
    }

    /// Takes over the menu of an item that was read from `path`.
    pub fn finish_menu_refresh(
        &mut self,
        id: &String,
        serial: u64,
        path: &String,
        parsed: Option<TrayMenu>,
    ) -> (again: bool)
        requires
            tray_valid(old(self)@),
        ensures
            (final(self)@, again) == menu_refreshed(
                old(self)@,
                id@,
                serial,
                path@,
                optional_menu(parsed),
            ),
            tray_valid(final(self)@),
    {
        let ghost before = self@;
        let at: usize = match self.find(id) {
            Some(at) => at,
            None => {
                return false;
            },
        };
        if self.entries[at].serial != serial {
            return false;
        }
        let mut flags = self.entries[at].flags;
        let again = flags.menu_refresh_again;
        flags.menu_refreshing = false;
        flags.menu_refresh_again = false;
        let current = match &self.entries[at].menu_path {
            Some(menu_path) => text_is(menu_path, path.as_str()),
            None => false,
        };
        self.set_flags(at, flags);
        if current {
            let ghost rested = self@;
            let changed = !same_menus(&self.entries[at].menu, &parsed);
            let failed = parsed.is_none();
            self.entries[at].menu = parsed;
            if failed {
                self.error = Some(
                    "The application tray menu is unavailable or invalid.".to_string(),
                );
            }
            self.dirty = self.dirty || changed || self.error.is_some();
            assert(self@.entries =~= rested.entries.update(
                at as int,
                TrayEntryView {
                    shown: ShownView {
                        menu: optional_menu(parsed),
                        ..rested.entries[at as int].shown
                    },
                    ..rested.entries[at as int]
                },
            ));
            assert(self@.entries =~= menu_refreshed(
                before,
                id@,
                serial,
                path@,
                optional_menu(parsed),
            ).0.entries);
            proof {
                flags_keep_valid(rested, at as int, self@);
            }
        }
        again
    }

    /// Whom to ask to do something with an item.
    pub fn item_call(&self, id: &String) -> (call: Result<TrayCall, TrayError>)
        ensures
            match entry_place(self@.entries, id@) {
                Some(at) => call is Ok && call->Ok_0.owner@ == self@.entries[at].owner
                    && call->Ok_0.path@ == self@.entries[at].path && call->Ok_0.serial
                    == self@.entries[at].serial,
                None => call == Err::<TrayCall, TrayError>(TrayError::NoItem),
            },
            optional_call(call) == whom_to_ask(self@, id@),
    {
        match self.find(id) {
            Some(at) => Ok(
                TrayCall {
                    owner: self.entries[at].owner.clone(),
                    path: self.entries[at].path.clone(),
                    serial: self.entries[at].serial,
                },
            ),
            None => Err(TrayError::NoItem),
        }
    }

    /// Begins to show the menu of an item: whom to tell that it is about to be shown.
    pub fn about_to_show(&mut self, id: &String) -> (call: Result<TrayCall, TrayError>)
        requires
            tray_valid(old(self)@),
        ensures
            tray_valid(final(self)@),
            match entry_place(old(self)@.entries, id@) {
                Some(at) => {
                    let entry = old(self)@.entries[at];
                    match entry.shown.menu_path {
                        Some(path) => {
                            &&& call is Ok
                            &&& call->Ok_0.owner@ == entry.owner
                            &&& call->Ok_0.path@ == path
                            &&& call->Ok_0.serial == entry.serial
                            &&& final(self)@ == with_entry_at(
                                old(self)@,
                                at,
                                TrayEntryView {
                                    flags: TrayFlags { menu_requested: true, ..entry.flags },
                                    ..entry
                                },
                            )
                        },
                        None => {
                            &&& call == Err::<TrayCall, TrayError>(TrayError::NoMenu)
                            &&& final(self)@ == old(self)@
                        },
                    }
                },
                None => call == Err::<TrayCall, TrayError>(TrayError::NoItem) && final(self)@
                    == old(self)@,
            },
            optional_call(call) == whom_to_warn(old(self)@, id@),
            final(self)@ == if call is Ok {
                menu_wanted(old(self)@, id@, true)
            } else {
                old(self)@
            },
    {
        let at: usize = match self.find(id) {
            Some(at) => at,
            None => {
                return Err(TrayError::NoItem);
            },
        };
        let path = match &self.entries[at].menu_path {
            Some(path) => path.clone(),
            None => {
                return Err(TrayError::NoMenu);
            },
        };
        let call = TrayCall {
            owner: self.entries[at].owner.clone(),
            path,
            serial: self.entries[at].serial,
        };
        let mut flags = self.entries[at].flags;
        flags.menu_requested = true;
        self.set_flags(at, flags);
        Ok(call)
    }

    /// Whether a registration is still the one that a menu was asked of.
    pub fn is_current(&self, id: &String, call: &TrayCall) -> (current: bool)
        ensures
            current == match entry_place(self@.entries, id@) {
                Some(at) => self@.entries[at].serial == call.serial
                    && self@.entries[at].shown.menu_path == Some(call.path@),
                None => false,
            },
            current == still_asked(self@, id@, call.path@, call.serial),
    {
        match self.find(id) {
            Some(at) => self.entries[at].serial == call.serial && match &self.entries[at].menu_path {
                Some(path) => text_is(path, call.path.as_str()),
                None => false,
            },
            None => false,
        }
    }

    /// Whether an entry of the menu of an item opens a menu of its own that can be shown.
    pub fn request_submenu(&self, id: &String, menu_id: i32) -> (allowed: bool)
        ensures
            allowed == match entry_place(self@.entries, id@) {
                Some(at) => match self@.entries[at].shown.menu {
                    Some(menu) => match reachable_entry(menu.1, menu_id) {
                        Some(entry) => entry.submenu,
                        None => false,
                    },
                    None => false,
                },
                None => false,
            },
            allowed == opens_submenu(self@, id@, menu_id),
    {
        match self.find(id) {
            Some(at) => match &self.entries[at].menu {
                Some(menu) => match menu_entry(&menu.entries, menu_id) {
                    Some(entry) => entry.submenu,
                    None => false,
                },
                None => false,
            },
            None => false,
        }
    }

    /// The menu of an item is not shown any more.
    pub fn close_menu(&mut self, id: &String)
        requires
            tray_valid(old(self)@),
        ensures
            tray_valid(final(self)@),
            final(self)@ == match entry_place(old(self)@.entries, id@) {
                Some(at) => {
                    let entry = old(self)@.entries[at];
                    with_entry_at(
                        old(self)@,
                        at,
                        TrayEntryView {
                            flags: TrayFlags { menu_requested: false, ..entry.flags },
                            ..entry
                        },
                    )
                },
                None => old(self)@,
            },
            final(self)@ == menu_wanted(old(self)@, id@, false),
    {
        if let Some(at) = self.find(id) {
            let mut flags = self.entries[at].flags;
            flags.menu_requested = false;
            self.set_flags(at, flags);
        }
    }

    /// Whom to tell that an entry of the menu of an item was chosen.
    pub fn activate_menu_item(&self, id: &String, menu_id: i32) -> (call: Result<TrayCall, TrayError>)
        ensures
            match entry_place(self@.entries, id@) {
                Some(at) => {
                    let entry = self@.entries[at];
                    match (entry.shown.menu, entry.shown.menu_path) {
                        (None, _) => call == Err::<TrayCall, TrayError>(TrayError::MenuNotLoaded),
                        (Some(menu), path) => if !is_actionable(menu.1, menu_id) {
                            call == Err::<TrayCall, TrayError>(TrayError::EntryUnavailable)
                        } else {
                            match path {
                                Some(path) => call is Ok && call->Ok_0.owner@ == entry.owner
                                    && call->Ok_0.path@ == path && call->Ok_0.serial
                                    == entry.serial,
                                None => call == Err::<TrayCall, TrayError>(TrayError::NoMenu),
                            }
                        },
                    }
                },
                None => call == Err::<TrayCall, TrayError>(TrayError::NoItem),
            },
            optional_call(call) == whom_to_tell(self@, id@, menu_id),
    {
        let at: usize = match self.find(id) {
            Some(at) => at,
            None => {
                return Err(TrayError::NoItem);
            },
        };
        let entry = &self.entries[at];
        let menu = match &entry.menu {
            Some(menu) => menu,
            None => {
                return Err(TrayError::MenuNotLoaded);
            },
        };
        if !menu_item_actionable(&menu.entries, menu_id) {
            return Err(TrayError::EntryUnavailable);
        }
        match &entry.menu_path {
            Some(path) => Ok(
                TrayCall { owner: entry.owner.clone(), path: path.clone(), serial: entry.serial },
            ),
            None => Err(TrayError::NoMenu),
        }
    }

    /// The places of the items that the tray shows: those that are not passive.
    pub fn items(&self) -> (places: Vec<usize>)
        ensures
            places@.len() == self@.entries.filter(is_active()).len(),
            forall|at: int|
                0 <= at < places@.len() ==> (#[trigger] places@[at]) < self.entries@.len()
                    && self@.entries[places@[at] as int] == self@.entries.filter(is_active())[at],
    {
        let ghost views = self@.entries;
        let ghost keep = is_active();
        let mut places: Vec<usize> = Vec::new();
        let mut at: usize = 0;
        proof {
            filter_ends(views, keep);
        }
        while at < self.entries.len()
            invariant
                at <= self.entries.len(),
                views == tray_views(self.entries@),
                keep == is_active(),
                places@.len() == views.take(at as int).filter(keep).len(),
                forall|place: int|
                    0 <= place < places@.len() ==> (#[trigger] places@[place])
                        < self.entries@.len() && views[places@[place] as int] == views.take(
                        at as int,
                    ).filter(keep)[place],
            decreases self.entries.len() - at,
        {
            proof {
                filter_step(views, keep, at as int);
            }
            assert(views[at as int] == self.entries@[at as int]@);
            let active = match &self.entries[at].item {
                Some(item) => !text_is(&item.status, "Passive"),
                None => false,
            };
            if active {
                places.push(at);
            }
            at = at + 1;
        }
        proof {
            filter_ends(views, keep);
        }
        places
    }

    /// Whether something changed since this was asked last.
    pub fn take_dirty(&mut self) -> (dirty: bool)
        ensures
            dirty == old(self)@.dirty,
            final(self)@ == (TrayView { dirty: false, ..old(self)@ }),
    {
        let dirty = self.dirty;
        self.dirty = false;
        dirty
    }

    /// What went wrong since this was asked last.
    pub fn take_error(&mut self) -> (error: Option<String>)
        ensures
            optional_text(error) == old(self)@.error,
            final(self)@ == (TrayView { error: None, ..old(self)@ }),
    {
        let error = copy_optional(&self.error);
        self.error = None;
        error
    }

    /// Takes note that an application did not do what it was asked.
    pub fn operation_error(&mut self, message: String)
        ensures
            final(self)@ == (TrayView { error: Some(message@), dirty: true, ..old(self)@ }),
    {
        self.error = Some(message);
        self.dirty = true;
    }
}

/// Changing an item but for its identity keeps the order.
proof fn flags_keep_valid(before: TrayView, at: int, after: TrayView)
    requires
        tray_valid(before),
        0 <= at < before.entries.len(),
        after.entries.len() == before.entries.len(),
        after.pending_registrations <= MAX_ITEMS,
        forall|place: int|
            0 <= place < before.entries.len() ==> (#[trigger] after.entries[place]).id
                == before.entries[place].id,
    ensures
        tray_valid(after),
{
    assert forall|left: int, right: int| 0 <= left < right < after.entries.len() implies
        text_before((#[trigger] after.entries[left]).id, (#[trigger] after.entries[right]).id) by {
        assert(text_before(before.entries[left].id, before.entries[right].id));
    }
}

/// Taking an item away keeps the order.
proof fn removing_stays_valid(tray: TrayView, at: int)
    requires
        tray_valid(tray),
        0 <= at < tray.entries.len(),
    ensures
        tray_valid(TrayView { entries: tray.entries.remove(at), ..tray }),
{
    let rest = tray.entries.remove(at);
    assert forall|left: int, right: int| 0 <= left < right < rest.len() implies text_before(
        (#[trigger] rest[left]).id,
        (#[trigger] rest[right]).id,
    ) by {
        let from = if left < at {
            left
        } else {
            left + 1
        };
        let to = if right < at {
            right
        } else {
            right + 1
        };
        assert(text_before(tray.entries[from].id, tray.entries[to].id));
    }
}

/// Keeping some of the items keeps their order.
proof fn keeping_stays_valid(entries: Seq<TrayEntryView>, keep: spec_fn(TrayEntryView) -> bool)
    requires
        forall|left: int, right: int|
            0 <= left < right < entries.len() ==> text_before(
                (#[trigger] entries[left]).id,
                (#[trigger] entries[right]).id,
            ),
    ensures
        entries.filter(keep).len() <= entries.len(),
        forall|at: int|
            0 <= at < entries.filter(keep).len() ==> entries.contains(
                #[trigger] entries.filter(keep)[at],
            ),
        forall|left: int, right: int|
            0 <= left < right < entries.filter(keep).len() ==> text_before(
                (#[trigger] entries.filter(keep)[left]).id,
                (#[trigger] entries.filter(keep)[right]).id,
            ),
    decreases entries.len(),
{
    reveal(Seq::filter);
    if entries.len() > 0 {
        let front = entries.drop_last();
        assert forall|left: int, right: int| 0 <= left < right < front.len() implies text_before(
            (#[trigger] front[left]).id,
            (#[trigger] front[right]).id,
        ) by {
            assert(text_before(entries[left].id, entries[right].id));
        }
        keeping_stays_valid(front, keep);
        let kept = front.filter(keep);
        let whole = entries.filter(keep);
        assert forall|at: int| 0 <= at < whole.len() implies entries.contains(
            #[trigger] whole[at],
        ) by {
            if at < kept.len() {
                assert(whole[at] == kept[at]);
                let from = choose|from: int| 0 <= from < front.len() && front[from] == kept[at];
                assert(entries[from] == whole[at]);
            } else {
                assert(entries[entries.len() - 1] == whole[at]);
            }
        }
        assert forall|left: int, right: int| 0 <= left < right < whole.len() implies text_before(
            (#[trigger] whole[left]).id,
            (#[trigger] whole[right]).id,
        ) by {
            if right == kept.len() {
                assert(whole[left] == kept[left]);
                let from = choose|from: int| 0 <= from < front.len() && front[from] == kept[left];
                assert(text_before(entries[from].id, entries[entries.len() - 1].id));
            } else {
                assert(text_before(kept[left].id, kept[right].id));
            }
        }
    }
}

/// Adding an item that is not there keeps the order.
proof fn adding_keeps_valid(entries: Seq<TrayEntryView>, entry: TrayEntryView)
    requires
        forall|left: int, right: int|
            0 <= left < right < entries.len() ==> text_before(
                (#[trigger] entries[left]).id,
                (#[trigger] entries[right]).id,
            ),
        forall|at: int| 0 <= at < entries.len() ==> (#[trigger] entries[at]).id != entry.id,
    ensures
        with_item(entries, entry).len() == entries.len() + 1,
        forall|at: int|
            0 <= at < with_item(entries, entry).len() ==> (#[trigger] with_item(entries, entry)[at])
                == entry || entries.contains(with_item(entries, entry)[at]),
        forall|left: int, right: int|
            0 <= left < right < with_item(entries, entry).len() ==> text_before(
                (#[trigger] with_item(entries, entry)[left]).id,
                (#[trigger] with_item(entries, entry)[right]).id,
            ),
    decreases entries.len(),
{
    let whole = with_item(entries, entry);
    if entries.len() == 0 || text_before(entries.last().id, entry.id) {
        assert forall|at: int| 0 <= at < whole.len() implies (#[trigger] whole[at]) == entry
            || entries.contains(whole[at]) by {
            if at < entries.len() {
                assert(entries[at] == whole[at]);
            }
        }
        assert forall|left: int, right: int| 0 <= left < right < whole.len() implies text_before(
            (#[trigger] whole[left]).id,
            (#[trigger] whole[right]).id,
        ) by {
            if right == entries.len() {
                if left < entries.len() - 1 {
                    assert(text_before(entries[left].id, entries[entries.len() - 1].id));
                    text_order_is_transitive(entries[left].id, entries.last().id, entry.id);
                }
            } else {
                assert(text_before(entries[left].id, entries[right].id));
            }
        }
    } else {
        let front = entries.drop_last();
        let last = entries.last();
        assert forall|left: int, right: int| 0 <= left < right < front.len() implies text_before(
            (#[trigger] front[left]).id,
            (#[trigger] front[right]).id,
        ) by {
            assert(text_before(entries[left].id, entries[right].id));
        }
        assert forall|at: int| 0 <= at < front.len() implies (#[trigger] front[at]).id
            != entry.id by {
            assert(entries[at].id != entry.id);
        }
        adding_keeps_valid(front, entry);
        let inner = with_item(front, entry);
        assert(entries[entries.len() - 1].id != entry.id);
        text_order_is_total(last.id, entry.id);
        assert forall|at: int| 0 <= at < whole.len() implies (#[trigger] whole[at]) == entry
            || entries.contains(whole[at]) by {
            if at < inner.len() {
                assert(whole[at] == inner[at]);
                if inner[at] != entry {
                    let from = choose|from: int| 0 <= from < front.len() && front[from] == inner[at];
                    assert(entries[from] == whole[at]);
                }
            } else {
                assert(entries[entries.len() - 1] == whole[at]);
            }
        }
        assert forall|left: int, right: int| 0 <= left < right < whole.len() implies text_before(
            (#[trigger] whole[left]).id,
            (#[trigger] whole[right]).id,
        ) by {
            if right == inner.len() {
                assert(whole[left] == inner[left]);
                if inner[left] != entry {
                    let from = choose|from: int|
                        0 <= from < front.len() && front[from] == inner[left];
                    assert(text_before(entries[from].id, entries[entries.len() - 1].id));
                }
            } else {
                assert(text_before(inner[left].id, inner[right].id));
            }
        }
    }
}

/// Puts an item where it belongs.
fn insert_item(entries: &mut Vec<TrayEntry>, entry: TrayEntry)
    ensures
        tray_views(final(entries)@) == with_item(tray_views(old(entries)@), entry@),
{
    let ghost views = tray_views(entries@);
    let mut at: usize = entries.len();
    assert(views.take(at as int) =~= views);
    assert(with_item(views, entry@) =~= with_item(views, entry@) + views.skip(at as int));
    while at > 0 && !id_before(&entries[at - 1].id, &entry.id)
        invariant
            at <= entries.len(),
            views == tray_views(entries@),
            with_item(views, entry@) == with_item(views.take(at as int), entry@) + views.skip(
                at as int,
            ),
        decreases at,
    {
        let ghost front = views.take(at as int);
        assert(front.last() == entries@[at - 1]@);
        assert(front.drop_last() =~= views.take(at - 1));
        assert(with_item(views.take(at - 1), entry@).push(front.last()) + views.skip(at as int)
            =~= with_item(views.take(at - 1), entry@) + views.skip(at - 1));
        at = at - 1;
    }
    assert(at > 0 ==> views.take(at as int).last() == entries@[at - 1]@);
    entries.insert(at, entry);
    assert(tray_views(entries@) =~= views.take(at as int).push(entry@) + views.skip(at as int));
}

/// A registration is accepted only from the owner of the service, and the item then belongs to
/// that owner whoever takes the service over later.
pub proof fn items_belong_to_who_registers_them(
    tray: TrayView,
    sender: Seq<char>,
    service: Seq<char>,
    path: Seq<char>,
    owner: Option<Seq<char>>,
)
    requires
        registration_ended(tray, sender, service, path, owner).1 == Registered::Added,
    ensures
        owner == Some(sender),
        fresh_entry(sender, service, path, (tray.next_serial + 1) as u64).owner == sender,
        registration_ended(tray, sender, service, path, owner).0.entries == with_item(
            tray.entries,
            fresh_entry(sender, service, path, (tray.next_serial + 1) as u64),
        ),
{
}

/// What was read for an earlier registration never changes a later one.
pub proof fn stale_replies_change_nothing(
    tray: TrayView,
    id: Seq<char>,
    serial: u64,
    parsed: Option<(ItemView, Option<Seq<char>>)>,
    path: Seq<char>,
    menu: Option<(u32, Seq<MenuEntryView>)>,
)
    requires
        entry_place(tray.entries, id) is Some,
        tray.entries[entry_place(tray.entries, id)->0].serial != serial,
    ensures
        item_refreshed(tray, id, serial, parsed).0 == tray,
        menu_refreshed(tray, id, serial, path, menu).0 == tray,
{
}

/// Whom to ask, with the text of their owner and path as sequences, or why nobody is asked.
pub open spec fn optional_call(call: Result<TrayCall, TrayError>) -> Result<
    (Seq<char>, Seq<char>, u64),
    TrayError,
> {
    match call {
        Ok(call) => Ok((call.owner@, call.path@, call.serial)),
        Err(error) => Err(error),
    }
}

/// The tray after an owner left a name, and the identities of the items that went with them.
pub open spec fn owner_gone(tray: TrayView, name: Seq<char>, owner: Seq<char>) -> (
    TrayView,
    Seq<Seq<char>>,
) {
    let gone = if owner.len() == 0 {
        Seq::<TrayEntryView>::empty()
    } else {
        tray.entries.filter(leaves_with(name, owner))
    };
    (
        TrayView {
            entries: if owner.len() == 0 {
                tray.entries
            } else {
                tray.entries.filter(stays_without(name, owner))
            },
            dirty: tray.dirty || gone.len() > 0,
            ..tray
        },
        tray_ids(gone),
    )
}

/// Whom to ask to do something with an item.
pub open spec fn whom_to_ask(tray: TrayView, id: Seq<char>) -> Result<
    (Seq<char>, Seq<char>, u64),
    TrayError,
> {
    match entry_place(tray.entries, id) {
        Some(at) => Ok((tray.entries[at].owner, tray.entries[at].path, tray.entries[at].serial)),
        None => Err(TrayError::NoItem),
    }
}

/// Whom to tell that the menu of an item is about to be shown.
pub open spec fn whom_to_warn(tray: TrayView, id: Seq<char>) -> Result<
    (Seq<char>, Seq<char>, u64),
    TrayError,
> {
    match entry_place(tray.entries, id) {
        Some(at) => match tray.entries[at].shown.menu_path {
            Some(path) => Ok((tray.entries[at].owner, path, tray.entries[at].serial)),
            None => Err(TrayError::NoMenu),
        },
        None => Err(TrayError::NoItem),
    }
}

/// The tray with the menu of an item wanted or not.
pub open spec fn menu_wanted(tray: TrayView, id: Seq<char>, wanted: bool) -> TrayView {
    match entry_place(tray.entries, id) {
        Some(at) => {
            let entry = tray.entries[at];
            with_entry_at(
                tray,
                at,
                TrayEntryView {
                    flags: TrayFlags { menu_requested: wanted, ..entry.flags },
                    ..entry
                },
            )
        },
        None => tray,
    }
}

/// Whether a registration is still the one that a menu was asked of.
pub open spec fn still_asked(tray: TrayView, id: Seq<char>, path: Seq<char>, serial: u64) -> bool {
    match entry_place(tray.entries, id) {
        Some(at) => tray.entries[at].serial == serial && tray.entries[at].shown.menu_path == Some(
            path,
        ),
        None => false,
    }
}

/// Whether an entry of the menu of an item opens a menu of its own that can be shown.
pub open spec fn opens_submenu(tray: TrayView, id: Seq<char>, menu_id: i32) -> bool {
    match entry_place(tray.entries, id) {
        Some(at) => match tray.entries[at].shown.menu {
            Some(menu) => match reachable_entry(menu.1, menu_id) {
                Some(entry) => entry.submenu,
                None => false,
            },
            None => false,
        },
        None => false,
    }
}

/// Whom to tell that an entry of the menu of an item was chosen.
pub open spec fn whom_to_tell(tray: TrayView, id: Seq<char>, menu_id: i32) -> Result<
    (Seq<char>, Seq<char>, u64),
    TrayError,
> {
    match entry_place(tray.entries, id) {
        Some(at) => {
            let entry = tray.entries[at];
            match (entry.shown.menu, entry.shown.menu_path) {
                (None, _) => Err(TrayError::MenuNotLoaded),
                (Some(menu), path) => if !is_actionable(menu.1, menu_id) {
                    Err(TrayError::EntryUnavailable)
                } else {
                    match path {
                        Some(path) => Ok((entry.owner, path, entry.serial)),
                        None => Err(TrayError::NoMenu),
                    }
                },
            }
        },
        None => Err(TrayError::NoItem),
    }
}

/// In a valid tray an item is found by its identity wherever it stands.
pub proof fn items_are_found_by_identity(tray: TrayView, at: int, id: Seq<char>)
    requires
        tray_valid(tray),
    ensures
        0 <= at < tray.entries.len() ==> entry_place(tray.entries, tray.entries[at].id) == Some(at),
        match entry_place(tray.entries, id) {
            Some(place) => 0 <= place < tray.entries.len() && tray.entries[place].id == id,
            None => forall|other: int|
                0 <= other < tray.entries.len() ==> (#[trigger] tray.entries[other]).id != id,
        },
{
    place_is_right(tray.entries, id);
    if 0 <= at < tray.entries.len() {
        let own = tray.entries[at].id;
        place_is_right(tray.entries, own);
        if let Some(place) = entry_place(tray.entries, own) {
            text_order_is_total(own, own);
            if place < at {
                assert(text_before(tray.entries[place].id, tray.entries[at].id));
            } else if at < place {
                assert(text_before(tray.entries[at].id, tray.entries[place].id));
            }
        }
    }
}

/// A connection without a name of its own registers nothing. A host is accepted by the name of a
/// service. The bus is asked only for an item that is one, while few enough are under way.
pub proof fn registrations_are_asked_about(
    tray: TrayView,
    sender: Option<Seq<char>>,
    host: bool,
    service: Option<Seq<char>>,
)
    ensures
        ({
            let begun = registration_begun(tray, sender, host, service);
            &&& service is None ==> begun is InvalidArguments
            &&& service is Some && (sender is None || !is_unique_name(sender->0)) ==> begun is NoOwner
            &&& service is Some && sender is Some && is_unique_name(sender->0) && host ==> (
            begun is HostAccepted <==> is_bus_name(service->0)) && (begun is InvalidHost
                <==> !is_bus_name(service->0))
            &&& begun is AskOwner ==> {
                &&& !host
                &&& tray.pending_registrations < MAX_ITEMS
                &&& service is Some && sender is Some
                &&& registered_target(sender->0, service->0) == Some(
                    (begun->AskOwner_0, begun->AskOwner_1),
                )
            }
            &&& begun is InvalidItem ==> !host && registered_target(sender->0, service->0) is None
            &&& begun is LimitReached ==> !host && tray.pending_registrations >= MAX_ITEMS
                && registered_target(sender->0, service->0) is Some
        }),
{
}

/// Every registration that ends is no longer under way. It adds an item only for the owner of the
/// service, once under its identity and with a number of its own, and changes no other item.
pub proof fn registrations_add_one_item(
    tray: TrayView,
    sender: Seq<char>,
    service: Seq<char>,
    path: Seq<char>,
    owner: Option<Seq<char>>,
    other: TrayEntryView,
)
    requires
        tray_valid(tray),
        tray.pending_registrations > 0,
        tray.next_serial < u64::MAX,
    ensures
        ({
            let (after, ended) = registration_ended(tray, sender, service, path, owner);
            let known = exists|at: int|
                0 <= at < tray.entries.len() && (#[trigger] tray.entries[at]).id == sender + path;
            &&& after.pending_registrations == tray.pending_registrations - 1
            &&& ended is Denied <==> owner != Some(sender)
            &&& ended is Known <==> owner == Some(sender) && known
            &&& ended is LimitReached <==> owner == Some(sender) && !known && tray.entries.len()
                >= MAX_ITEMS
            &&& !(ended is Added) ==> after.entries == tray.entries && after.next_serial
                == tray.next_serial
            &&& ended is Added ==> {
                &&& after.entries.len() == tray.entries.len() + 1
                &&& after.next_serial == tray.next_serial + 1
                &&& other.id != sender + path ==> after.entries.contains(other)
                    == tray.entries.contains(other)
                &&& exists|at: int|
                    {
                        &&& 0 <= at < after.entries.len()
                        &&& (#[trigger] after.entries[at]).id == sender + path
                        &&& after.entries[at].owner == sender
                        &&& after.entries[at].service == service
                        &&& after.entries[at].path == path
                        &&& after.entries[at].serial == tray.next_serial + 1
                        &&& after.entries[at].shown.item is None
                        &&& after.entries[at].shown.menu is None
                        &&& !after.entries[at].flags.refreshing
                        &&& !after.entries[at].flags.menu_requested
                    }
            }
        }),
{
    let id = sender + path;
    place_is_right(tray.entries, id);
    if let Some(at) = entry_place(tray.entries, id) {
        assert(tray.entries[at].id == id);
    }
    let (after, ended) = registration_ended(tray, sender, service, path, owner);
    if ended is Added {
        let entry = fresh_entry(sender, service, path, (tray.next_serial + 1) as u64);
        let at = added_items_are_there(tray.entries, entry, other);
        assert(after.entries[at].id == id);
    }
}

/// Adding an item adds that item and no other.
proof fn added_items_are_there(
    entries: Seq<TrayEntryView>,
    entry: TrayEntryView,
    other: TrayEntryView,
) -> (at: int)
    ensures
        0 <= at < with_item(entries, entry).len(),
        with_item(entries, entry)[at] == entry,
        with_item(entries, entry).len() == entries.len() + 1,
        other != entry ==> with_item(entries, entry).contains(other) == entries.contains(other),
    decreases entries.len(),
{
    let whole = with_item(entries, entry);
    if entries.len() == 0 || text_before(entries.last().id, entry.id) {
        if entries.contains(other) {
            let place = choose|place: int| 0 <= place < entries.len() && entries[place] == other;
            assert(whole[place] == other);
        }
        if whole.contains(other) && other != entry {
            let place = choose|place: int| 0 <= place < whole.len() && whole[place] == other;
            assert(entries[place] == other);
        }
        entries.len() as int
    } else {
        let front = entries.drop_last();
        let inner = with_item(front, entry);
        let at = added_items_are_there(front, entry, other);
        assert(whole[whole.len() - 1] == entries.last());
        assert(entries[entries.len() - 1] == entries.last());
        if whole.contains(other) && other != entries.last() {
            let place = choose|place: int| 0 <= place < whole.len() && whole[place] == other;
            assert(inner[place] == other);
        }
        if inner.contains(other) {
            let place = choose|place: int| 0 <= place < inner.len() && inner[place] == other;
            assert(whole[place] == other);
        }
        if entries.contains(other) && other != entries.last() {
            let place = choose|place: int| 0 <= place < entries.len() && entries[place] == other;
            assert(front[place] == other);
        }
        if front.contains(other) {
            let place = choose|place: int| 0 <= place < front.len() && front[place] == other;
            assert(entries[place] == other);
        }
        assert(whole[at] == inner[at]);
        at
    }
}

/// With an owner who leaves a name exactly their items of that name go, and others are told of each
/// of them.
pub proof fn items_leave_with_their_owner(
    tray: TrayView,
    name: Seq<char>,
    owner: Seq<char>,
    entry: TrayEntryView,
)
    ensures
        ({
            let (after, removed) = owner_gone(tray, name, owner);
            let leaves = owner.len() > 0 && entry.owner == owner && (name == owner || entry.service
                == name);
            &&& after.entries.contains(entry) == (tray.entries.contains(entry) && !leaves)
            &&& tray.entries.contains(entry) && leaves ==> removed.contains(entry.id)
                && after.dirty
            &&& removed.len() == 0 ==> after.dirty == tray.dirty
            &&& owner.len() == 0 ==> after == tray && removed.len() == 0
            &&& after.pending_registrations == tray.pending_registrations
            &&& after.next_serial == tray.next_serial
        }),
{
    let (after, removed) = owner_gone(tray, name, owner);
    let stay = stays_without(name, owner);
    let leave = leaves_with(name, owner);
    if owner.len() > 0 {
        if tray.entries.contains(entry) {
            let place = choose|place: int|
                0 <= place < tray.entries.len() && tray.entries[place] == entry;
            if stay(entry) {
                let at = crate::lists::kept_is_found(tray.entries, stay, place);
                assert(after.entries[at] == entry);
            } else {
                let at = crate::lists::kept_is_found(tray.entries, leave, place);
                assert(removed[at] == entry.id);
            }
        }
        if after.entries.contains(entry) {
            let at = choose|at: int| 0 <= at < after.entries.len() && after.entries[at] == entry;
            let place = crate::lists::kept_is_there(tray.entries, stay, at);
            assert(tray.entries[place] == entry);
        }
    }
}

/// A signal of an item makes its properties be read, and one of a menu the menu, each by the name
/// that its interface gives it; other signals are about nothing.
pub proof fn signals_are_about_their_interface(
    interface: Seq<char>,
    member: Seq<char>,
    of_item: bool,
    sender: Seq<char>,
    path: Seq<char>,
    entry: TrayEntryView,
)
    ensures
        signal_kind(interface, member, of_item) is Layout <==> interface
            == "com.canonical.dbusmenu"@ && (member == "LayoutUpdated"@ || member
            == "ItemsPropertiesUpdated"@),
        signal_kind(interface, member, of_item) is Properties ==> interface
            == "org.kde.StatusNotifierItem"@ || (interface == "org.freedesktop.DBus.Properties"@
            && member == "PropertiesChanged"@ && of_item),
        interface == "org.kde.StatusNotifierItem"@ ==> (signal_kind(
            interface,
            member,
            of_item,
        ) is Properties <==> seq![
            "NewTitle"@,
            "NewIcon"@,
            "NewAttentionIcon"@,
            "NewOverlayIcon"@,
            "NewToolTip"@,
            "NewStatus"@,
            "NewMenu"@,
        ].contains(member)),
        is_concerned(TraySignal::Properties, sender, path)(entry) <==> entry.owner == sender
            && entry.path == path,
        is_concerned(TraySignal::Layout, sender, path)(entry) <==> entry.owner == sender
            && entry.shown.menu_path == Some(path) && entry.flags.menu_requested,
        !is_concerned(TraySignal::Nothing, sender, path)(entry),
        interface == "org.freedesktop.DBus.Properties"@ && member == "PropertiesChanged"@ && of_item
            ==> signal_kind(interface, member, of_item) is Properties,
{
    reveal_strlit("com.canonical.dbusmenu");
    reveal_strlit("org.kde.StatusNotifierItem");
    reveal_strlit("org.freedesktop.DBus.Properties");
    assert("com.canonical.dbusmenu"@.len() != "org.kde.StatusNotifierItem"@.len());
    assert("com.canonical.dbusmenu"@.len() != "org.freedesktop.DBus.Properties"@.len());
    assert("org.kde.StatusNotifierItem"@.len() != "org.freedesktop.DBus.Properties"@.len());
    let members = seq![
        "NewTitle"@,
        "NewIcon"@,
        "NewAttentionIcon"@,
        "NewOverlayIcon"@,
        "NewToolTip"@,
        "NewStatus"@,
        "NewMenu"@,
    ];
    assert(members[0] == "NewTitle"@ && members[1] == "NewIcon"@ && members[2]
        == "NewAttentionIcon"@ && members[3] == "NewOverlayIcon"@ && members[4] == "NewToolTip"@
        && members[5] == "NewStatus"@ && members[6] == "NewMenu"@);
}

/// The properties of an item are read once at a time. What changes meanwhile is read after that,
/// once, and an item that is not there is not read.
pub proof fn properties_are_read_once_at_a_time(tray: TrayView, id: Seq<char>)
    requires
        tray_valid(tray),
    ensures
        ({
            let (after, read) = item_refresh_begun(tray, id);
            match entry_place(tray.entries, id) {
                Some(at) => {
                    let before = tray.entries[at];
                    &&& read == !before.flags.refreshing
                    &&& after.entries[at].flags.refreshing
                    &&& after.entries[at].flags.refresh_again == (before.flags.refresh_again
                        || before.flags.refreshing)
                    &&& after.entries[at].shown == before.shown
                    &&& after.entries[at].serial == before.serial
                    &&& !item_refresh_begun(after, id).1
                },
                None => !read && after == tray,
            }
        }),
{
    place_is_right(tray.entries, id);
    let (after, read) = item_refresh_begun(tray, id);
    if let Some(at) = entry_place(tray.entries, id) {
        changing_keeps_the_place(tray.entries, after.entries[at], at, id);
    }
}

/// An item that changes but keeps its identity stays where it is found.
proof fn changing_keeps_the_place(
    entries: Seq<TrayEntryView>,
    entry: TrayEntryView,
    at: int,
    id: Seq<char>,
)
    requires
        entry_place(entries, id) == Some(at),
        entry.id == id,
    ensures
        entry_place(entries.update(at, entry), id) == Some(at),
        0 <= at < entries.len(),
    decreases entries.len(),
{
    place_is_right(entries, id);
    if entries.len() > 0 {
        let front = entries.drop_last();
        let changed = entries.update(at, entry);
        match entry_place(front, id) {
            Some(place) => {
                changing_keeps_the_place(front, entry, at, id);
                assert(changed.drop_last() =~= front.update(at, entry));
            },
            None => {
                assert(at == entries.len() - 1);
                assert(changed.drop_last() =~= front);
            },
        }
    }
}

/// What was read of an item is what it shows, and a menu of another path is dropped with the path.
/// A reading that failed takes an item away only where nothing of it is shown yet.
pub proof fn read_properties_are_shown(
    tray: TrayView,
    id: Seq<char>,
    parsed: Option<(ItemView, Option<Seq<char>>)>,
    other: int,
)
    requires
        tray_valid(tray),
        entry_place(tray.entries, id) is Some,
    ensures
        ({
            let at = entry_place(tray.entries, id)->0;
            let before = tray.entries[at];
            let (after, follows) = item_refreshed(tray, id, before.serial, parsed);
            let entry = after.entries[at];
            &&& follows.again == before.flags.refresh_again
            &&& follows.removed == (parsed is None && before.shown.item is None)
            &&& follows.removed ==> after.entries.len() == tray.entries.len() - 1
            &&& !follows.removed ==> {
                &&& after.entries.len() == tray.entries.len()
                &&& !entry.flags.refreshing
                &&& !entry.flags.refresh_again
                &&& entry.id == before.id
                &&& entry.owner == before.owner
                &&& entry.serial == before.serial
                &&& entry.flags.menu_requested == before.flags.menu_requested
                &&& 0 <= other < tray.entries.len() && other != at ==> after.entries[other]
                    == tray.entries[other]
            }
            &&& parsed is Some ==> {
                &&& entry.shown.item == Some((parsed->0).0)
                &&& entry.shown.menu_path == (parsed->0).1
                &&& follows.menu_changed == (before.shown.menu_path != (parsed->0).1)
                &&& follows.menu_changed ==> entry.shown.menu is None
                &&& !follows.menu_changed ==> entry.shown.menu == before.shown.menu
                &&& before.shown.item != Some((parsed->0).0) || follows.menu_changed ==> after.dirty
            }
            &&& parsed is None ==> !follows.menu_changed && after.dirty == tray.dirty
            &&& parsed is None && before.shown.item is Some ==> entry.shown == before.shown
        }),
{
    place_is_right(tray.entries, id);
}

/// The menu of an item is read only while it is wanted and has a path, and once at a time.
pub proof fn menus_are_read_while_wanted(tray: TrayView, id: Seq<char>)
    ensures
        ({
            let (after, read) = menu_refresh_begun(tray, id);
            match entry_place(tray.entries, id) {
                Some(at) => {
                    let before = tray.entries[at];
                    &&& read == (before.flags.menu_requested && !before.flags.menu_refreshing
                        && before.shown.menu_path is Some)
                    &&& read ==> after.entries[at].flags.menu_refreshing
                    &&& before.flags.menu_requested && before.flags.menu_refreshing
                        ==> after.entries[at].flags.menu_refresh_again
                    &&& !before.flags.menu_requested ==> after == tray
                    &&& after.entries[at].shown == before.shown
                },
                None => !read && after == tray,
            }
        }),
{
    place_is_right(tray.entries, id);
}

/// A menu that was read from the path that the item has now is its menu, and one that could not be
/// read leaves none and says so. A menu from another path changes nothing that is shown.
pub proof fn read_menus_are_shown(
    tray: TrayView,
    id: Seq<char>,
    path: Seq<char>,
    parsed: Option<(u32, Seq<MenuEntryView>)>,
)
    requires
        entry_place(tray.entries, id) is Some,
    ensures
        ({
            let at = entry_place(tray.entries, id)->0;
            let before = tray.entries[at];
            let (after, again) = menu_refreshed(tray, id, before.serial, path, parsed);
            let entry = after.entries[at];
            &&& again == before.flags.menu_refresh_again
            &&& !entry.flags.menu_refreshing
            &&& !entry.flags.menu_refresh_again
            &&& entry.shown.item == before.shown.item
            &&& entry.shown.menu_path == before.shown.menu_path
            &&& before.shown.menu_path == Some(path) ==> {
                &&& entry.shown.menu == parsed
                &&& parsed is None ==> after.error is Some && after.dirty
                &&& parsed is Some ==> after.error == tray.error
                &&& before.shown.menu != parsed ==> after.dirty
            }
            &&& before.shown.menu_path != Some(path) ==> {
                &&& entry.shown.menu == before.shown.menu
                &&& after.dirty == tray.dirty
                &&& after.error == tray.error
            }
        }),
{
    place_is_right(tray.entries, id);
}

/// An application is asked at its own owner: about an item at the path of the item, about its menu
/// at the path of the menu, and never where that is not there.
pub proof fn applications_are_asked_at_their_owner(tray: TrayView, id: Seq<char>, menu_id: i32)
    ensures
        match entry_place(tray.entries, id) {
            Some(at) => {
                let entry = tray.entries[at];
                &&& whom_to_ask(tray, id) == Ok::<(Seq<char>, Seq<char>, u64), TrayError>(
                    (entry.owner, entry.path, entry.serial),
                )
                &&& match entry.shown.menu_path {
                    Some(path) => whom_to_warn(tray, id) == Ok::<
                        (Seq<char>, Seq<char>, u64),
                        TrayError,
                    >((entry.owner, path, entry.serial)),
                    None => whom_to_warn(tray, id) == Err::<
                        (Seq<char>, Seq<char>, u64),
                        TrayError,
                    >(TrayError::NoMenu) && !(whom_to_tell(tray, id, menu_id) is Ok),
                }
                &&& whom_to_tell(tray, id, menu_id) is Ok ==> {
                    &&& entry.shown.menu is Some
                    &&& is_actionable((entry.shown.menu->0).1, menu_id)
                    &&& whom_to_tell(tray, id, menu_id) == whom_to_warn(tray, id)
                }
                &&& entry.shown.menu is None ==> whom_to_tell(tray, id, menu_id) == Err::<
                    (Seq<char>, Seq<char>, u64),
                    TrayError,
                >(TrayError::MenuNotLoaded) && !opens_submenu(tray, id, menu_id)
                &&& entry.shown.menu is Some && entry.shown.menu_path is Some && is_actionable(
                    (entry.shown.menu->0).1,
                    menu_id,
                ) ==> whom_to_tell(tray, id, menu_id) is Ok
                &&& opens_submenu(tray, id, menu_id) ==> !(whom_to_tell(tray, id, menu_id) is Ok)
            },
            None => {
                &&& whom_to_ask(tray, id) == Err::<(Seq<char>, Seq<char>, u64), TrayError>(
                    TrayError::NoItem,
                )
                &&& whom_to_warn(tray, id) == whom_to_ask(tray, id)
                &&& whom_to_tell(tray, id, menu_id) == whom_to_ask(tray, id)
                &&& !opens_submenu(tray, id, menu_id)
            },
        },
{
}

/// A menu that is wanted is wanted until it is closed, and nothing else of the item changes.
pub proof fn menus_are_wanted_until_closed(tray: TrayView, id: Seq<char>, wanted: bool)
    ensures
        ({
            let after = menu_wanted(tray, id, wanted);
            match entry_place(tray.entries, id) {
                Some(at) => {
                    &&& after.entries[at].flags.menu_requested == wanted
                    &&& after.entries[at].shown == tray.entries[at].shown
                    &&& after.entries[at].flags.refreshing == tray.entries[at].flags.refreshing
                    &&& !wanted ==> !menu_refresh_begun(after, id).1
                    &&& after.dirty == tray.dirty
                },
                None => after == tray,
            }
        }),
{
    place_is_right(tray.entries, id);
    if let Some(at) = entry_place(tray.entries, id) {
        changing_keeps_the_place(
            tray.entries,
            menu_wanted(tray, id, wanted).entries[at],
            at,
            id,
        );
    }
}

/// An answer counts only for the registration and the menu that were asked.
pub proof fn answers_count_for_what_was_asked(
    tray: TrayView,
    id: Seq<char>,
    path: Seq<char>,
    serial: u64,
)
    ensures
        still_asked(tray, id, path, serial) <==> match whom_to_warn(tray, id) {
            Ok(call) => call.1 == path && call.2 == serial,
            Err(_) => false,
        },
{
}

/// The tray shows the items that were read and are not passive.
pub proof fn passive_items_are_not_shown(entry: TrayEntryView)
    ensures
        is_active()(entry) <==> entry.shown.item is Some && (entry.shown.item->0).status
            != "Passive"@,
{
}

} // verus!
