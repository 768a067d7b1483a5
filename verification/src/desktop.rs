//! The items on the desktop and the grid that they are laid out in.

use vstd::prelude::*;
use vstd::string::*;
use crate::arith::{add_i32, max_i32, min_u32, mul_i32, mul_u32, sub_i32, u32_as_i32};
use crate::arith::{max_of, min_of, saturate_i32, saturate_u32};
use crate::model::{builtin_desktop_targets, DesktopItemKind, HitTarget, Rect, ShellAction, PANEL_HEIGHT};
use crate::model::{builtin_desktop, target_views, ActionView, TargetView};
use crate::paths::{same_bytes, same_place, FilePath};
use crate::selection::still_selected;
use crate::state::Shell;
use crate::state::ShellView;
use crate::text::{
    characters, comes_before, list_has, slice_of, text_is, text_of, to_lowercase, trim,
};
use crate::text::{
    finishes_with, lowercase, optional_text, text_before, text_order_is_total,
    text_order_is_transitive, text_views, trimmed,
};

verus! {

/// The width of a cell of the grid.
pub const ICON_CELL_WIDTH: i32 = 96;

/// The height of a cell of the grid.
pub const ICON_CELL_HEIGHT: i32 = 100;

/// The left edge of the grid.
pub const ICON_LEFT: i32 = 14;

/// The upper edge of the grid.
pub const ICON_TOP: i32 = 16;

/// A cell of the grid on one of its pages.
#[derive(Debug, Clone, Copy, PartialEq, Eq, Structural)]
pub struct DesktopPosition {
    pub column: u32,
    pub row: u32,
    pub page: u32,
}

/// Where the item with that key was put.
#[derive(Debug, Clone, PartialEq, Eq)]
pub struct KeyedPosition {
    pub key: String,
    pub position: DesktopPosition,
}

impl View for KeyedPosition {
    type V = (Seq<char>, DesktopPosition);

    open spec fn view(&self) -> (Seq<char>, DesktopPosition) {
        (self.key@, self.position)
    }
}

/// The positions of a layout, each by its view.
pub open spec fn position_views(positions: Seq<KeyedPosition>) -> Seq<
    (Seq<char>, DesktopPosition),
> {
    positions.map_values(|entry: KeyedPosition| entry@)
}

/// An item on the desktop.
#[derive(Debug, Clone, PartialEq, Eq)]
pub struct DesktopEntry {
    pub path: FilePath,
    pub name: Vec<u8>,
    pub display_name: String,
    pub kind: DesktopItemKind,
    /// What its position is remembered under.
    pub key: String,
}

/// A [`DesktopEntry`] with its texts and paths as sequences.
pub struct EntryOf {
    pub path: Seq<u8>,
    pub name: Seq<u8>,
    pub display_name: Seq<char>,
    pub kind: DesktopItemKind,
    pub key: Seq<char>,
}

impl View for DesktopEntry {
    type V = EntryOf;

    open spec fn view(&self) -> EntryOf {
        EntryOf {
            path: self.path@,
            name: self.name@,
            display_name: self.display_name@,
            kind: self.kind,
            key: self.key@,
        }
    }
}

/// The items of a list, each by its view.
pub open spec fn entry_views(entries: Seq<DesktopEntry>) -> Seq<EntryOf> {
    entries.map_values(|entry: DesktopEntry| entry@)
}

/// Whether two items are the same: their paths lead the same way, and all else is equal.
pub open spec fn same_entry(left: EntryOf, right: EntryOf) -> bool {
    same_place(left.path, right.path) && (EntryOf { path: right.path, ..left }) == right
}

/// Whether two lists hold the same items.
pub open spec fn are_same_entries(left: Seq<EntryOf>, right: Seq<EntryOf>) -> bool {
    left.len() == right.len() && forall|at: int|
        0 <= at < left.len() ==> same_entry(#[trigger] left[at], #[trigger] right[at])
}

impl DesktopEntry {
    /// A copy of this item.
    pub fn duplicate(&self) -> (copy: DesktopEntry)
        ensures
            copy@ == self@,
    {
        DesktopEntry {
            path: self.path.duplicate(),
            name: crate::paths::copy_bytes(self.name.as_slice()),
            display_name: self.display_name.clone(),
            kind: self.kind,
            key: self.key.clone(),
        }
    }

    /// Whether this is the same item as `other`.
    pub fn same(&self, other: &DesktopEntry) -> (same: bool)
        ensures
            same == same_entry(self@, other@),
    {
        self.path.same(&other.path) && same_bytes(self.name.as_slice(), other.name.as_slice())
            && text_is(&self.display_name, other.display_name.as_str()) && self.kind == other.kind
            && text_is(&self.key, other.key.as_str())
    }
}

/// An item and where it is.
#[derive(Debug)]
pub struct PositionedDesktopItem {
    pub item: DesktopEntry,
    pub rect: Rect,
    pub page: u32,
}

/// A [`PositionedDesktopItem`] with its texts and paths as sequences.
pub struct PositionedView {
    pub item: EntryOf,
    pub rect: Rect,
    pub page: u32,
}

impl View for PositionedDesktopItem {
    type V = PositionedView;

    open spec fn view(&self) -> PositionedView {
        PositionedView { item: self.item@, rect: self.rect, page: self.page }
    }
}

/// The positioned items of a list, each by its view.
pub open spec fn positioned_views(items: Seq<PositionedDesktopItem>) -> Seq<PositionedView> {
    items.map_values(|item: PositionedDesktopItem| item@)
}

/// How many columns and rows a desktop of that size has.
pub open spec fn extent_of(size: (u32, u32)) -> (int, int) {
    (
        max_of(saturate_i32(size.0 as int) - 28, 96) / 96,
        max_of(saturate_i32(size.1 as int) - PANEL_HEIGHT - 32, 100) / 100,
    )
}

/// How many columns and rows a desktop of that size has: at least one of each.
pub fn grid_extent(desktop_size: (u32, u32)) -> (extent: (u32, u32))
    ensures
        extent.0 == extent_of(desktop_size).0,
        extent.1 == extent_of(desktop_size).1,
        extent.0 >= 1,
        extent.1 >= 1,
{
    let width: i32 = max_i32(sub_i32(u32_as_i32(desktop_size.0), ICON_LEFT * 2), ICON_CELL_WIDTH);
    let height: i32 = max_i32(
        sub_i32(sub_i32(u32_as_i32(desktop_size.1), PANEL_HEIGHT), ICON_TOP * 2),
        ICON_CELL_HEIGHT,
    );
    (width as u32 / 96, height as u32 / 100)
}

/// The cell that is the `linear`th from the first on, column by column and page by page.
pub open spec fn cell_at(linear: int, rows: int, slots: int) -> DesktopPosition {
    DesktopPosition {
        column: ((linear % slots) / rows) as u32,
        row: ((linear % slots) % rows) as u32,
        page: (linear / slots) as u32,
    }
}

/// Whether the `linear`th cell is on the grid and free.
pub open spec fn is_free(
    occupied: Seq<DesktopPosition>,
    columns: int,
    rows: int,
    slots: int,
    linear: int,
) -> bool {
    cell_at(linear, rows, slots).column < columns && !occupied.contains(
        cell_at(linear, rows, slots),
    )
}

/// The first free cell from the `linear`th on; the first of all where none is free.
pub open spec fn free_from(
    occupied: Seq<DesktopPosition>,
    columns: int,
    rows: int,
    slots: int,
    linear: int,
) -> DesktopPosition
    decreases u32::MAX - linear,
{
    if linear >= u32::MAX || linear < 0 {
        DesktopPosition { column: 0, row: 0, page: 0 }
    } else if is_free(occupied, columns, rows, slots, linear) {
        cell_at(linear, rows, slots)
    } else {
        free_from(occupied, columns, rows, slots, linear + 1)
    }
}

/// Whether a cell is in a list.
fn is_occupied(occupied: &Vec<DesktopPosition>, cell: DesktopPosition) -> (is: bool)
    ensures
        is == occupied@.contains(cell),
{
    let mut at: usize = 0;
    while at < occupied.len()
        invariant
            at <= occupied.len(),
            forall|earlier: int| 0 <= earlier < at ==> occupied@[earlier] != cell,
        decreases occupied.len() - at,
    {
        if occupied[at] == cell {
            assert(occupied@[at as int] == cell);
            return true;
        }
        at = at + 1;
    }
    false
}

/// The first free cell of the grid.
pub fn first_free_position(
    occupied: &Vec<DesktopPosition>,
    columns: u32,
    rows: u32,
    slots_per_page: u32,
) -> (position: DesktopPosition)
    requires
        rows >= 1,
        slots_per_page >= 1,
    ensures
        position == free_from(
            occupied@,
            columns as int,
            rows as int,
            slots_per_page as int,
            0,
        ),
{
    let mut linear: u32 = 0;
    while linear < u32::MAX
        invariant
            rows >= 1,
            slots_per_page >= 1,
            free_from(occupied@, columns as int, rows as int, slots_per_page as int, 0)
                == free_from(
                occupied@,
                columns as int,
                rows as int,
                slots_per_page as int,
                linear as int,
            ),
        decreases u32::MAX - linear,
    {
        let slot: u32 = linear % slots_per_page;
        let cell = DesktopPosition {
            column: slot / rows,
            row: slot % rows,
            page: linear / slots_per_page,
        };
        assert(cell == cell_at(linear as int, rows as int, slots_per_page as int));
        if cell.column < columns && !is_occupied(occupied, cell) {
            return cell;
        }
        linear = linear + 1;
    }
    DesktopPosition { column: 0, row: 0, page: 0 }
}

/// How many cells a page has.
pub open spec fn slots_of(columns: int, rows: int) -> int {
    saturate_u32(columns * rows)
}

/// Different numbers are different cells.
proof fn cells_differ(left: int, right: int, rows: int, slots: int)
    requires
        0 <= left < u32::MAX,
        0 <= right < u32::MAX,
        left != right,
        1 <= rows <= u32::MAX,
        1 <= slots <= u32::MAX,
    ensures
        cell_at(left, rows, slots) != cell_at(right, rows, slots),
{
    let a = cell_at(left, rows, slots);
    let b = cell_at(right, rows, slots);
    in_range(left, rows, slots);
    in_range(right, rows, slots);
    if a == b {
        assert(left / slots == right / slots);
        assert((left % slots) / rows == (right % slots) / rows);
        assert((left % slots) % rows == (right % slots) % rows);
        let p = left % slots;
        let q = right % slots;
        assert(p == rows * (p / rows) + p % rows) by (nonlinear_arith)
            requires
                rows >= 1,
        ;
        assert(q == rows * (q / rows) + q % rows) by (nonlinear_arith)
            requires
                rows >= 1,
        ;
        assert(left == slots * (left / slots) + left % slots) by (nonlinear_arith)
            requires
                slots >= 1,
        ;
        assert(right == slots * (right / slots) + right % slots) by (nonlinear_arith)
            requires
                slots >= 1,
        ;
    }
}

/// The parts of a cell can be held.
proof fn in_range(linear: int, rows: int, slots: int)
    requires
        0 <= linear < u32::MAX,
        1 <= rows <= u32::MAX,
        1 <= slots <= u32::MAX,
    ensures
        0 <= linear / slots <= linear,
        0 <= linear % slots <= linear,
        0 <= (linear % slots) / rows <= linear,
        0 <= (linear % slots) % rows <= linear,
{
    assert(0 <= linear / slots <= linear) by (nonlinear_arith)
        requires
            0 <= linear,
            slots >= 1,
    ;
    assert(0 <= linear % slots <= linear) by (nonlinear_arith)
        requires
            0 <= linear,
            slots >= 1,
    ;
    let slot = linear % slots;
    assert(0 <= slot / rows <= slot) by (nonlinear_arith)
        requires
            0 <= slot,
            rows >= 1,
    ;
    assert(0 <= slot % rows <= slot) by (nonlinear_arith)
        requires
            0 <= slot,
            rows >= 1,
    ;
}

/// Every cell that a number stands for is on the grid.
proof fn cells_are_on_the_grid(linear: int, columns: int, rows: int)
    requires
        0 <= linear < u32::MAX,
        1 <= columns <= u32::MAX,
        1 <= rows <= u32::MAX,
    ensures
        1 <= slots_of(columns, rows) <= u32::MAX,
        cell_at(linear, rows, slots_of(columns, rows)).column < columns,
        cell_at(linear, rows, slots_of(columns, rows)).row < rows,
{
    let slots = slots_of(columns, rows);
    assert(columns * rows >= 1) by (nonlinear_arith)
        requires
            columns >= 1,
            rows >= 1,
    ;
    in_range(linear, rows, slots);
    let slot = linear % slots;
    assert(slot < slots) by (nonlinear_arith)
        requires
            slots >= 1,
            slot == linear % slots,
    ;
    assert(slot < columns * rows);
    assert(slot / rows < columns) by (nonlinear_arith)
        requires
            0 <= slot < columns * rows,
            rows >= 1,
    ;
    assert(slot % rows < rows) by (nonlinear_arith)
        requires
            rows >= 1,
    ;
}

/// Of the first cells one more than are occupied, one is free.
proof fn some_cell_is_free(occupied: Seq<DesktopPosition>, columns: int, rows: int)
    requires
        occupied.len() < u32::MAX,
        1 <= columns <= u32::MAX,
        1 <= rows <= u32::MAX,
    ensures
        exists|linear: int|
            0 <= linear < u32::MAX && #[trigger] is_free(
                occupied,
                columns,
                rows,
                slots_of(columns, rows),
                linear,
            ),
{
    let slots = slots_of(columns, rows);
    let count = occupied.len() as int;
    if forall|linear: int|
        0 <= linear < u32::MAX ==> !#[trigger] is_free(occupied, columns, rows, slots, linear) {
        let numbers = vstd::set_lib::set_int_range(0, count + 1);
        vstd::set_lib::lemma_int_range(0, count + 1);
        let cells = numbers.map(|linear: int| cell_at(linear, rows, slots));
        assert forall|left: int, right: int|
            numbers.contains(left) && numbers.contains(right) && #[trigger] cell_at(
                left,
                rows,
                slots,
            ) == #[trigger] cell_at(right, rows, slots) implies left == right by {
            cells_are_on_the_grid(0, columns, rows);
            if left != right {
                cells_differ(left, right, rows, slots);
            }
        }
        vstd::set_lib::lemma_map_size(
            numbers,
            cells,
            |linear: int| cell_at(linear, rows, slots),
        );
        assert(cells.subset_of(occupied.to_set())) by {
            assert forall|cell: DesktopPosition| cells.contains(cell) implies
                occupied.to_set().contains(cell) by {
                let linear = choose|linear: int|
                    numbers.contains(linear) && cell_at(linear, rows, slots) == cell;
                assert(!is_free(occupied, columns, rows, slots, linear));
                cells_are_on_the_grid(linear, columns, rows);
                assert(occupied.contains(cell));
            }
        }
        occupied.lemma_cardinality_of_set();
        vstd::set_lib::lemma_len_subset(cells, occupied.to_set());
        assert(false);
    }
}

/// The first free cell is free and on the grid, as long as the cells can be numbered: a full page
/// is followed by another one.
pub proof fn free_position_is_free(occupied: Seq<DesktopPosition>, columns: int, rows: int)
    requires
        occupied.len() < u32::MAX,
        1 <= columns <= u32::MAX,
        1 <= rows <= u32::MAX,
    ensures
        ({
            let cell = free_from(occupied, columns, rows, slots_of(columns, rows), 0);
            &&& !occupied.contains(cell)
            &&& cell.column < columns
            &&& cell.row < rows
        }),
{
    some_cell_is_free(occupied, columns, rows);
    let slots = slots_of(columns, rows);
    let linear = choose|linear: int|
        0 <= linear < u32::MAX && #[trigger] is_free(occupied, columns, rows, slots, linear);
    first_free_before(occupied, columns, rows, 0, linear);
}

/// The first free cell from a number on, where one after it is free.
proof fn first_free_before(
    occupied: Seq<DesktopPosition>,
    columns: int,
    rows: int,
    from: int,
    linear: int,
)
    requires
        0 <= from <= linear < u32::MAX,
        1 <= columns <= u32::MAX,
        1 <= rows <= u32::MAX,
        is_free(occupied, columns, rows, slots_of(columns, rows), linear),
    ensures
        ({
            let cell = free_from(occupied, columns, rows, slots_of(columns, rows), from);
            &&& !occupied.contains(cell)
            &&& cell.column < columns
            &&& cell.row < rows
        }),
    decreases linear - from,
{
    cells_are_on_the_grid(from, columns, rows);
    if !is_free(occupied, columns, rows, slots_of(columns, rows), from) {
        first_free_before(occupied, columns, rows, from + 1, linear);
    }
}

/// The cells of the shortcuts that every desktop has.
pub open spec fn builtin_cells(rows: int, slots: int) -> Seq<DesktopPosition> {
    Seq::new(min_of(2, slots) as nat, |slot: int| cell_at(slot, rows, slots))
}

/// Which cells are taken, and by which items those after the first ones are.
pub struct Taken {
    pub cells: Seq<DesktopPosition>,
    pub owners: Seq<Seq<char>>,
}

/// The cells with those of a layout that are on the grid and free, each for the item that the
/// layout puts there first.
pub open spec fn kept_cells(
    positions: Seq<(Seq<char>, DesktopPosition)>,
    columns: int,
    rows: int,
    slots: int,
) -> Taken
    decreases positions.len(),
{
    if positions.len() == 0 {
        Taken { cells: builtin_cells(rows, slots), owners: seq![] }
    } else {
        let before = kept_cells(positions.drop_last(), columns, rows, slots);
        let (key, position) = positions.last();
        if position.column < columns && position.row < rows && !before.cells.contains(position) {
            Taken { cells: before.cells.push(position), owners: before.owners.push(key) }
        } else {
            before
        }
    }
}

/// A layout with a position for a key, in the order of the keys.
pub open spec fn with_position(
    positions: Seq<(Seq<char>, DesktopPosition)>,
    key: Seq<char>,
    position: DesktopPosition,
) -> Seq<(Seq<char>, DesktopPosition)>
    decreases positions.len(),
{
    if positions.len() == 0 || text_before(positions.last().0, key) {
        positions.push((key, position))
    } else if positions.last().0 == key {
        positions.drop_last().push((key, position))
    } else {
        with_position(positions.drop_last(), key, position).push(positions.last())
    }
}

/// A layout and the cells that it takes.
pub struct Placement {
    pub positions: Seq<(Seq<char>, DesktopPosition)>,
    pub taken: Taken,
}

/// The layout after each of the items that has no valid position was given one: `kept` are the
/// items that have.
pub open spec fn placed(
    start: Placement,
    kept: Seq<Seq<char>>,
    items: Seq<EntryOf>,
    columns: int,
    rows: int,
    slots: int,
) -> Placement
    decreases items.len(),
{
    if items.len() == 0 {
        start
    } else {
        let before = placed(start, kept, items.drop_last(), columns, rows, slots);
        let key = items.last().key;
        if kept.contains(key) {
            before
        } else {
            let cell = free_from(before.taken.cells, columns, rows, slots, 0);
            Placement {
                positions: with_position(before.positions, key, cell),
                taken: Taken {
                    cells: before.taken.cells.push(cell),
                    owners: before.taken.owners.push(key),
                },
            }
        }
    }
}

/// The layout of the items on a desktop of that size.
pub open spec fn laid_out(
    positions: Seq<(Seq<char>, DesktopPosition)>,
    items: Seq<EntryOf>,
    size: (u32, u32),
) -> Placement {
    let (columns, rows) = extent_of(size);
    let slots = slots_of(columns, rows);
    let taken = kept_cells(positions, columns, rows, slots);
    placed(Placement { positions, taken }, taken.owners, items, columns, rows, slots)
}

/// Whether every item has a valid position.
pub open spec fn all_kept(kept: Seq<Seq<char>>, items: Seq<EntryOf>) -> bool {
    forall|at: int| 0 <= at < items.len() ==> kept.contains((#[trigger] items[at]).key)
}

/// Whether positions are in the order of their keys, each of which is there once.
pub open spec fn keys_rise(positions: Seq<(Seq<char>, DesktopPosition)>) -> bool {
    forall|left: int, right: int|
        0 <= left < right < positions.len() ==> text_before(
            (#[trigger] positions[left]).0,
            (#[trigger] positions[right]).0,
        )
}

/// Whether no cell is taken twice, every cell but the first ones has an owner, and all of them are
/// on the grid.
pub open spec fn taken_well(taken: Taken, columns: int, rows: int, slots: int) -> bool {
    &&& taken.cells.no_duplicates()
    &&& taken.cells.len() == min_of(2, slots) + taken.owners.len()
    &&& forall|at: int|
        0 <= at < taken.cells.len() ==> (#[trigger] taken.cells[at]).column < columns
            && taken.cells[at].row < rows
    &&& forall|at: int|
        0 <= at < min_of(2, slots) ==> #[trigger] taken.cells[at] == builtin_cells(rows, slots)[at]
}

/// Taking a free cell leaves the cells well taken.
proof fn taking_stays_well(
    taken: Taken,
    cell: DesktopPosition,
    key: Seq<char>,
    columns: int,
    rows: int,
    slots: int,
)
    requires
        taken_well(taken, columns, rows, slots),
        !taken.cells.contains(cell),
        cell.column < columns,
        cell.row < rows,
    ensures
        taken_well(
            Taken { cells: taken.cells.push(cell), owners: taken.owners.push(key) },
            columns,
            rows,
            slots,
        ),
{
    let cells = taken.cells.push(cell);
    assert forall|left: int, right: int| 0 <= left < right < cells.len() implies cells[left]
        != cells[right] by {
        if right == taken.cells.len() {
            assert(taken.cells[left] == cells[left]);
        }
    }
}

/// The cells that a layout keeps are well taken.
proof fn keeping_is_well(
    positions: Seq<(Seq<char>, DesktopPosition)>,
    columns: int,
    rows: int,
)
    requires
        1 <= columns <= u32::MAX,
        1 <= rows <= u32::MAX,
    ensures
        taken_well(
            kept_cells(positions, columns, rows, slots_of(columns, rows)),
            columns,
            rows,
            slots_of(columns, rows),
        ),
        kept_cells(positions, columns, rows, slots_of(columns, rows)).owners.len()
            <= positions.len(),
    decreases positions.len(),
{
    let slots = slots_of(columns, rows);
    cells_are_on_the_grid(0, columns, rows);
    cells_are_on_the_grid(1, columns, rows);
    if positions.len() == 0 {
        cells_differ(0, 1, rows, slots);
    } else {
        keeping_is_well(positions.drop_last(), columns, rows);
        let before = kept_cells(positions.drop_last(), columns, rows, slots);
        let (key, position) = positions.last();
        if position.column < columns && position.row < rows && !before.cells.contains(position) {
            taking_stays_well(before, position, key, columns, rows, slots);
        }
    }
}

/// Laying items out leaves the cells well taken.
proof fn placing_is_well(
    start: Placement,
    kept: Seq<Seq<char>>,
    items: Seq<EntryOf>,
    columns: int,
    rows: int,
)
    requires
        1 <= columns <= u32::MAX,
        1 <= rows <= u32::MAX,
        taken_well(start.taken, columns, rows, slots_of(columns, rows)),
        start.taken.owners.len() + items.len() + 2 < u32::MAX,
    ensures
        taken_well(
            placed(start, kept, items, columns, rows, slots_of(columns, rows)).taken,
            columns,
            rows,
            slots_of(columns, rows),
        ),
        placed(start, kept, items, columns, rows, slots_of(columns, rows)).taken.owners.len()
            <= start.taken.owners.len() + items.len(),
    decreases items.len(),
{
    let slots = slots_of(columns, rows);
    if items.len() > 0 {
        placing_is_well(start, kept, items.drop_last(), columns, rows);
        let before = placed(start, kept, items.drop_last(), columns, rows, slots);
        let key = items.last().key;
        if !kept.contains(key) {
            free_position_is_free(before.taken.cells, columns, rows);
            let cell = free_from(before.taken.cells, columns, rows, slots, 0);
            taking_stays_well(before.taken, cell, key, columns, rows, slots);
        }
    }
}

/// The rectangle of an item in that cell.
pub open spec fn cell_rect(position: DesktopPosition) -> Rect {
    Rect {
        x: saturate_i32(
            14 + saturate_i32(saturate_i32(position.column as int) * ICON_CELL_WIDTH),
        ) as i32,
        y: saturate_i32(
            16 + saturate_i32(saturate_i32(position.row as int) * ICON_CELL_HEIGHT),
        ) as i32,
        width: 88,
        height: 92,
    }
}

/// The rectangle of an item in that cell.
fn rect_of_cell(position: DesktopPosition) -> (rect: Rect)
    ensures
        rect == cell_rect(position),
{
    Rect {
        x: add_i32(ICON_LEFT, mul_i32(u32_as_i32(position.column), ICON_CELL_WIDTH)),
        y: add_i32(ICON_TOP, mul_i32(u32_as_i32(position.row), ICON_CELL_HEIGHT)),
        width: ICON_CELL_WIDTH - 8,
        height: ICON_CELL_HEIGHT - 8,
    }
}

/// Items in different cells of one page do not meet.
pub proof fn cells_do_not_meet(left: DesktopPosition, right: DesktopPosition)
    requires
        left != right,
        left.page == right.page,
        ICON_LEFT + (left.column + 1) * ICON_CELL_WIDTH <= i32::MAX,
        ICON_LEFT + (right.column + 1) * ICON_CELL_WIDTH <= i32::MAX,
        ICON_TOP + (left.row + 1) * ICON_CELL_HEIGHT <= i32::MAX,
        ICON_TOP + (right.row + 1) * ICON_CELL_HEIGHT <= i32::MAX,
    ensures
        !crate::pointer::rects_meet(cell_rect(left), cell_rect(right)),
{
}

/// The item with that key: the last of those.
pub open spec fn item_with(items: Seq<EntryOf>, key: Seq<char>) -> Option<EntryOf>
    decreases items.len(),
{
    if items.len() == 0 {
        None
    } else if items.last().key == key {
        Some(items.last())
    } else {
        item_with(items.drop_last(), key)
    }
}

/// The items that a layout places, in the order of its keys.
pub open spec fn placed_items(
    positions: Seq<(Seq<char>, DesktopPosition)>,
    items: Seq<EntryOf>,
) -> Seq<PositionedView>
    decreases positions.len(),
{
    if positions.len() == 0 {
        seq![]
    } else {
        let before = placed_items(positions.drop_last(), items);
        let (key, position) = positions.last();
        match item_with(items, key) {
            Some(item) => before.push(
                PositionedView { item, rect: cell_rect(position), page: position.page },
            ),
            None => before,
        }
    }
}

/// The last page with an item.
pub open spec fn last_page(cells: Seq<DesktopPosition>) -> u32
    decreases cells.len(),
{
    if cells.len() == 0 {
        0
    } else {
        max_of(last_page(cells.drop_last()) as int, cells.last().page as int) as u32
    }
}

/// The last page of a layout.
pub open spec fn layout_pages(positions: Seq<(Seq<char>, DesktopPosition)>) -> u32
    decreases positions.len(),
{
    if positions.len() == 0 {
        0
    } else {
        max_of(layout_pages(positions.drop_last()) as int, positions.last().1.page as int) as u32
    }
}

/// The desktop and its layout.
#[derive(Debug)]
pub struct DesktopModel {
    /// The positions of the layout, in the order of their keys.
    pub positions: Vec<KeyedPosition>,
    pub generation: u64,
    /// Whether the layout may be saved: one that could not be read is left as it is.
    pub writable: bool,
    pub items: Vec<DesktopEntry>,
    pub page: u32,
}

/// A [`DesktopModel`] with its lists as sequences.
pub struct DesktopView {
    pub positions: Seq<(Seq<char>, DesktopPosition)>,
    pub generation: u64,
    pub writable: bool,
    pub items: Seq<EntryOf>,
    pub page: u32,
}

impl View for DesktopModel {
    type V = DesktopView;

    open spec fn view(&self) -> DesktopView {
        DesktopView {
            positions: position_views(self.positions@),
            generation: self.generation,
            writable: self.writable,
            items: entry_views(self.items@),
            page: self.page,
        }
    }
}

/// A generation that has risen by one.
pub open spec fn next_generation(generation: u64) -> u64 {
    min_of(generation + 1, u64::MAX as int) as u64
}

/// The desktop with every item in a cell.
pub open spec fn with_layout(desktop: DesktopView, size: (u32, u32)) -> DesktopView {
    let plan = laid_out(desktop.positions, desktop.items, size);
    let (columns, rows) = extent_of(size);
    let kept = kept_cells(desktop.positions, columns, rows, slots_of(columns, rows)).owners;
    DesktopView {
        positions: plan.positions,
        generation: if desktop.writable && !all_kept(kept, desktop.items) {
            next_generation(desktop.generation)
        } else {
            desktop.generation
        },
        page: min_of(desktop.page as int, last_page(plan.taken.cells) as int) as u32,
        ..desktop
    }
}

/// Whether an item is to be saved with a new position.
pub open spec fn layout_changes(desktop: DesktopView, size: (u32, u32)) -> bool {
    let (columns, rows) = extent_of(size);
    desktop.writable && !all_kept(
        kept_cells(desktop.positions, columns, rows, slots_of(columns, rows)).owners,
        desktop.items,
    )
}

/// Whether the name `left` comes before `right`.
fn key_before(left: &String, right: &String) -> (before: bool)
    ensures
        before == text_before(left@, right@),
{
    comes_before(characters(left.as_str()).as_slice(), characters(right.as_str()).as_slice())
}

/// Puts a position for a key into a layout.
fn insert_position(positions: &mut Vec<KeyedPosition>, key: String, position: DesktopPosition)
    ensures
        position_views(final(positions)@) == with_position(
            position_views(old(positions)@),
            key@,
            position,
        ),
        keys_rise(position_views(old(positions)@)) ==> keys_rise(position_views(final(positions)@)),
{
    let ghost views = position_views(positions@);
    proof {
        if keys_rise(views) {
            insertion_keeps_rising(views, key@, position);
        }
    }
    let mut at: usize = positions.len();
    assert(views.take(at as int) =~= views);
    assert(with_position(views, key@, position) =~= with_position(views, key@, position)
        + views.skip(at as int));
    while at > 0 && !key_before(&positions[at - 1].key, &key) && !text_is(
        &positions[at - 1].key,
        key.as_str(),
    )
        invariant
            at <= positions.len(),
            views == position_views(positions@),
            with_position(views, key@, position) == with_position(
                views.take(at as int),
                key@,
                position,
            ) + views.skip(at as int),
        decreases at,
    {
        let ghost front = views.take(at as int);
        assert(front.last() == positions@[at - 1]@);
        assert(front.drop_last() =~= views.take(at - 1));
        assert(with_position(views.take(at - 1), key@, position).push(front.last()) + views.skip(
            at as int,
        ) =~= with_position(views.take(at - 1), key@, position) + views.skip(at - 1));
        at = at - 1;
    }
    let ghost front = views.take(at as int);
    assert(at > 0 ==> front.last() == positions@[at - 1]@);
    let replaces = at > 0 && text_is(&positions[at - 1].key, key.as_str()) && !key_before(
        &positions[at - 1].key,
        &key,
    );
    let entry = KeyedPosition { key, position };
    if replaces {
        positions.set(at - 1, entry);
        assert(position_views(positions@) =~= front.drop_last().push(entry@) + views.skip(
            at as int,
        ));
    } else {
        positions.insert(at, entry);
        assert(position_views(positions@) =~= front.push(entry@) + views.skip(at as int));
    }
}

/// The cells that a layout keeps, and the keys that keep them.
fn keep_cells(positions: &Vec<KeyedPosition>, columns: u32, rows: u32, slots: u32) -> (taken: (
    Vec<DesktopPosition>,
    Vec<String>,
))
    requires
        rows >= 1,
        slots >= 1,
    ensures
        kept_cells(position_views(positions@), columns as int, rows as int, slots as int)
            == (Taken { cells: taken.0@, owners: text_views(taken.1@) }),
{
    let ghost views = position_views(positions@);
    let mut cells: Vec<DesktopPosition> = Vec::new();
    let mut owners: Vec<String> = Vec::new();
    cells.push(DesktopPosition { column: 0, row: 0, page: 0 });
    if slots >= 2 {
        cells.push(DesktopPosition { column: 1 / rows, row: 1 % rows, page: 0 });
    }
    proof {
        assert(0int % slots as int == 0 && 0int / slots as int == 0);
        assert(0int % rows as int == 0 && 0int / rows as int == 0);
        if slots >= 2 {
            assert(1int % slots as int == 1 && 1int / slots as int == 0) by (nonlinear_arith)
                requires
                    slots >= 2,
            ;
        }
        assert(cells@ =~= builtin_cells(rows as int, slots as int));
        assert(text_views(owners@) =~= seq![]);
        assert(views.take(0) =~= seq![]);
    }
    let mut at: usize = 0;
    while at < positions.len()
        invariant
            at <= positions.len(),
            views == position_views(positions@),
            kept_cells(views.take(at as int), columns as int, rows as int, slots as int) == (
            Taken { cells: cells@, owners: text_views(owners@) }),
        decreases positions.len() - at,
    {
        assert(views.take(at + 1).drop_last() =~= views.take(at as int));
        assert(views[at as int] == positions@[at as int]@);
        let position = positions[at].position;
        if position.column < columns && position.row < rows && !is_occupied(&cells, position) {
            let ghost before = text_views(owners@);
            let key = positions[at].key.clone();
            cells.push(position);
            owners.push(key);
            assert(text_views(owners@) =~= before.push(key@));
        }
        at = at + 1;
    }
    assert(views.take(at as int) =~= views);
    (cells, owners)
}

/// The last page with a cell of the list.
fn find_last_page(cells: &Vec<DesktopPosition>) -> (page: u32)
    ensures
        page == last_page(cells@),
{
    let mut page: u32 = 0;
    let mut at: usize = 0;
    assert(cells@.take(0) =~= seq![]);
    while at < cells.len()
        invariant
            at <= cells.len(),
            page == last_page(cells@.take(at as int)),
        decreases cells.len() - at,
    {
        assert(cells@.take(at + 1).drop_last() =~= cells@.take(at as int));
        if cells[at].page > page {
            page = cells[at].page;
        }
        at = at + 1;
    }
    assert(cells@.take(at as int) =~= cells@);
    page
}

/// The place of the item with that key, the last of those.
fn find_item(items: &Vec<DesktopEntry>, key: &String) -> (place: Option<usize>)
    ensures
        match place {
            Some(at) => at < items.len() && item_with(entry_views(items@), key@) == Some(
                items@[at as int]@,
            ),
            None => item_with(entry_views(items@), key@) is None,
        },
{
    let ghost views = entry_views(items@);
    let mut at: usize = items.len();
    assert(views.take(at as int) =~= views);
    while at > 0
        invariant
            at <= items.len(),
            views == entry_views(items@),
            item_with(views, key@) == item_with(views.take(at as int), key@),
        decreases at,
    {
        assert(views.take(at as int).last() == items@[at - 1]@);
        assert(views.take(at as int).drop_last() =~= views.take(at - 1));
        if text_is(&items[at - 1].key, key.as_str()) {
            return Some(at - 1);
        }
        at = at - 1;
    }
    None
}

/// How moving an item ends.
#[derive(Debug, Clone, Copy, PartialEq, Eq, Structural)]
pub enum MoveOutcome {
    /// The layout may not be saved.
    ReadOnly,
    /// Nothing moves.
    Unchanged,
    /// The item stays where it is. The layout is to be saved, as items without a cell got one.
    Placed,
    /// The item moves. The layout is to be saved.
    Moved,
}

/// How it ends that an item stays where it is.
pub open spec fn staying(layout_changed: bool) -> MoveOutcome {
    if layout_changed {
        MoveOutcome::Placed
    } else {
        MoveOutcome::Unchanged
    }
}

/// How it ends that an item stays where it is.
fn stays(layout_changed: bool) -> (outcome: MoveOutcome)
    ensures
        outcome == staying(layout_changed),
{
    if layout_changed {
        MoveOutcome::Placed
    } else {
        MoveOutcome::Unchanged
    }
}

/// The cell under a pixel.
pub open spec fn cell_under(x: int, y: int, page: u32, size: (u32, u32)) -> DesktopPosition {
    let (columns, rows) = extent_of(size);
    DesktopPosition {
        column: min_of(max_of(saturate_i32(x - ICON_LEFT), 0) / 96, columns - 1) as u32,
        row: min_of(max_of(saturate_i32(y - ICON_TOP), 0) / 100, rows - 1) as u32,
        page,
    }
}

/// The key of the first item with that path.
pub open spec fn key_of(items: Seq<EntryOf>, path: Seq<u8>) -> Option<Seq<char>>
    decreases items.len(),
{
    if items.len() == 0 {
        None
    } else {
        match key_of(items.drop_last(), path) {
            Some(key) => Some(key),
            None => if same_place(items.last().path, path) {
                Some(items.last().key)
            } else {
                None
            },
        }
    }
}

/// The position that a layout has for a key.
pub open spec fn position_for(positions: Seq<(Seq<char>, DesktopPosition)>, key: Seq<char>) -> Option<
    DesktopPosition,
>
    decreases positions.len(),
{
    if positions.len() == 0 {
        None
    } else if positions.last().0 == key {
        Some(positions.last().1)
    } else {
        position_for(positions.drop_last(), key)
    }
}

/// The first key, other than `key`, that a layout puts into a cell.
pub open spec fn occupant(
    positions: Seq<(Seq<char>, DesktopPosition)>,
    key: Seq<char>,
    cell: DesktopPosition,
) -> Option<Seq<char>>
    decreases positions.len(),
{
    if positions.len() == 0 {
        None
    } else {
        match occupant(positions.drop_last(), key, cell) {
            Some(other) => Some(other),
            None => if positions.last().0 != key && positions.last().1 == cell {
                Some(positions.last().0)
            } else {
                None
            },
        }
    }
}

/// A layout after an item was moved to a cell: an item that was there goes where it came from.
pub open spec fn swapped(
    positions: Seq<(Seq<char>, DesktopPosition)>,
    key: Seq<char>,
    from: DesktopPosition,
    to: DesktopPosition,
) -> Seq<(Seq<char>, DesktopPosition)> {
    with_position(
        match occupant(positions, key, to) {
            Some(other) => with_position(positions, other, from),
            None => positions,
        },
        key,
        to,
    )
}

/// The desktop after an item was dropped on a pixel, and how that ends.
pub open spec fn dropped(desktop: DesktopView, path: Seq<u8>, x: int, y: int, size: (u32, u32)) -> (
    DesktopView,
    MoveOutcome,
) {
    if !desktop.writable {
        (desktop, MoveOutcome::ReadOnly)
    } else {
        let ready = with_layout(desktop, size);
        let stay = staying(layout_changes(desktop, size));
        let to = cell_under(x, y, ready.page, size);
        let builtin = to.page == 0 && saturate_u32(
            saturate_u32(to.column * extent_of(size).1) + to.row,
        ) < 2;
        match key_of(ready.items, path) {
            Some(key) => match position_for(ready.positions, key) {
                Some(from) => if to == from || builtin {
                    (ready, stay)
                } else {
                    (
                        DesktopView {
                            positions: swapped(ready.positions, key, from, to),
                            generation: next_generation(ready.generation),
                            ..ready
                        },
                        MoveOutcome::Moved,
                    )
                },
                None => (ready, stay),
            },
            None => (ready, stay),
        }
    }
}

/// A key that was found among the first items is the one that is found among all.
proof fn key_stays(items: Seq<EntryOf>, path: Seq<u8>, length: int)
    requires
        0 <= length <= items.len(),
        key_of(items.take(length), path) is Some,
    ensures
        key_of(items, path) == key_of(items.take(length), path),
    decreases items.len() - length,
{
    if length < items.len() {
        assert(items.take(length + 1).drop_last() =~= items.take(length));
        key_stays(items, path, length + 1);
    } else {
        assert(items.take(length) =~= items);
    }
}

/// An occupant that was found among the first positions is the one that is found among all.
proof fn occupant_stays(
    positions: Seq<(Seq<char>, DesktopPosition)>,
    key: Seq<char>,
    cell: DesktopPosition,
    length: int,
)
    requires
        0 <= length <= positions.len(),
        occupant(positions.take(length), key, cell) is Some,
    ensures
        occupant(positions, key, cell) == occupant(positions.take(length), key, cell),
    decreases positions.len() - length,
{
    if length < positions.len() {
        assert(positions.take(length + 1).drop_last() =~= positions.take(length));
        occupant_stays(positions, key, cell, length + 1);
    } else {
        assert(positions.take(length) =~= positions);
    }
}

/// What a layout has for a key after it was given a position for one.
proof fn position_after_insertion(
    positions: Seq<(Seq<char>, DesktopPosition)>,
    key: Seq<char>,
    position: DesktopPosition,
    other: Seq<char>,
)
    requires
        keys_rise(positions),
    ensures
        position_for(with_position(positions, key, position), other) == if other == key {
            Some(position)
        } else {
            position_for(positions, other)
        },
    decreases positions.len(),
{
    if positions.len() == 0 || text_before(positions.last().0, key) {
        let whole = positions.push((key, position));
        assert(whole.drop_last() =~= positions);
    } else if positions.last().0 == key {
        let whole = positions.drop_last().push((key, position));
        assert(whole.drop_last() =~= positions.drop_last());
    } else {
        let front = positions.drop_last();
        let whole = with_position(front, key, position).push(positions.last());
        assert(whole.drop_last() =~= with_position(front, key, position));
        position_after_insertion(front, key, position, other);
    }
}

/// Inserting keeps the order of the keys, and they stay below what they were below.
proof fn insertion_keeps_rising(
    positions: Seq<(Seq<char>, DesktopPosition)>,
    key: Seq<char>,
    position: DesktopPosition,
)
    requires
        keys_rise(positions),
    ensures
        keys_rise(with_position(positions, key, position)),
        forall|bound: Seq<char>, at: int|
            #![trigger text_before(with_position(positions, key, position)[at].0, bound)]
            0 <= at < with_position(positions, key, position).len() && text_before(key, bound) && (
            forall|from: int| 0 <= from < positions.len() ==> text_before(
                (#[trigger] positions[from]).0,
                bound,
            )) ==> text_before(with_position(positions, key, position)[at].0, bound),
    decreases positions.len(),
{
    let whole = with_position(positions, key, position);
    if positions.len() == 0 || text_before(positions.last().0, key) {
        assert forall|left: int, right: int| 0 <= left < right < whole.len() implies text_before(
            (#[trigger] whole[left]).0,
            (#[trigger] whole[right]).0,
        ) by {
            if right == positions.len() {
                assert(whole[left] == positions[left]);
                if left < positions.len() - 1 {
                    assert(text_before(positions[left].0, positions[positions.len() - 1].0));
                    text_order_is_transitive(positions[left].0, positions.last().0, key);
                }
            } else {
                assert(text_before(positions[left].0, positions[right].0));
            }
        }
    } else if positions.last().0 == key {
        assert forall|left: int, right: int| 0 <= left < right < whole.len() implies text_before(
            (#[trigger] whole[left]).0,
            (#[trigger] whole[right]).0,
        ) by {
            assert(text_before(positions[left].0, positions[right].0));
        }
        assert forall|bound: Seq<char>, at: int|
            #![trigger text_before(whole[at].0, bound)]
            0 <= at < whole.len() && text_before(key, bound) && (forall|from: int|
                0 <= from < positions.len() ==> text_before((#[trigger] positions[from]).0, bound))
            implies text_before(whole[at].0, bound) by {
            assert(whole[at].0 == positions[at].0);
        }
    } else {
        let front = positions.drop_last();
        let last = positions.last();
        assert(keys_rise(front)) by {
            assert forall|left: int, right: int| 0 <= left < right < front.len() implies
                text_before((#[trigger] front[left]).0, (#[trigger] front[right]).0) by {
                assert(text_before(positions[left].0, positions[right].0));
            }
        }
        insertion_keeps_rising(front, key, position);
        let inner = with_position(front, key, position);
        text_order_is_total(last.0, key);
        assert(text_before(key, last.0));
        assert forall|from: int| 0 <= from < front.len() implies text_before(
            (#[trigger] front[from]).0,
            last.0,
        ) by {
            assert(text_before(positions[from].0, positions[positions.len() - 1].0));
        }
        assert forall|left: int, right: int| 0 <= left < right < whole.len() implies text_before(
            (#[trigger] whole[left]).0,
            (#[trigger] whole[right]).0,
        ) by {
            if right == inner.len() {
                assert(text_before(inner[left].0, last.0));
            } else {
                assert(text_before(inner[left].0, inner[right].0));
            }
        }
        assert forall|bound: Seq<char>, at: int|
            #![trigger text_before(whole[at].0, bound)]
            0 <= at < whole.len() && text_before(key, bound) && (forall|from: int|
                0 <= from < positions.len() ==> text_before((#[trigger] positions[from]).0, bound))
            implies text_before(whole[at].0, bound) by {
            if at < inner.len() {
                assert forall|from: int| 0 <= from < front.len() implies text_before(
                    (#[trigger] front[from]).0,
                    bound,
                ) by {
                    assert(text_before(positions[from].0, bound));
                }
                assert(text_before(inner[at].0, bound));
            } else {
                assert(text_before(positions[positions.len() - 1].0, bound));
            }
        }
    }
}

/// Whether a layout has an item in the cell that is taken for it, behind the first `first` cells.
spec fn is_settled(plan: Placement, first: int, key: Seq<char>) -> bool {
    exists|at: int|
        {
            &&& 0 <= at < plan.taken.owners.len()
            &&& #[trigger] plan.taken.owners[at] == key
            &&& position_for(plan.positions, key) == Some(plan.taken.cells[first + at])
        }
}

/// A position that a layout has for a key stands in the layout.
proof fn position_stands(positions: Seq<(Seq<char>, DesktopPosition)>, key: Seq<char>) -> (place:
    int)
    requires
        position_for(positions, key) is Some,
    ensures
        0 <= place < positions.len(),
        positions[place].0 == key,
        position_for(positions, key) == Some(positions[place].1),
    decreases positions.len(),
{
    if positions.last().0 == key {
        positions.len() - 1
    } else {
        position_stands(positions.drop_last(), key)
    }
}

/// Each entry of a layout in order is what the layout has for its key.
proof fn entry_is_found(positions: Seq<(Seq<char>, DesktopPosition)>, place: int)
    requires
        keys_rise(positions),
        0 <= place < positions.len(),
    ensures
        position_for(positions, positions[place].0) == Some(positions[place].1),
    decreases positions.len(),
{
    let front = positions.drop_last();
    if place < front.len() {
        assert(text_before(positions[place].0, positions[positions.len() - 1].0));
        text_order_is_total(positions[place].0, positions[place].0);
        rising_front(positions);
        assert(front[place] == positions[place]);
        entry_is_found(front, place);
    }
}

/// The front of a layout in order is in order.
proof fn rising_front(positions: Seq<(Seq<char>, DesktopPosition)>)
    requires
        keys_rise(positions),
        positions.len() > 0,
    ensures
        keys_rise(positions.drop_last()),
{
    let front = positions.drop_last();
    assert forall|left: int, right: int| 0 <= left < right < front.len() implies text_before(
        (#[trigger] front[left]).0,
        (#[trigger] front[right]).0,
    ) by {
        assert(text_before(positions[left].0, positions[right].0));
    }
}

/// The items whose cells a layout keeps are in these cells.
proof fn kept_are_settled(
    positions: Seq<(Seq<char>, DesktopPosition)>,
    columns: int,
    rows: int,
    slots: int,
)
    requires
        keys_rise(positions),
    ensures
        ({
            let taken = kept_cells(positions, columns, rows, slots);
            let first = builtin_cells(rows, slots).len() as int;
            &&& taken.cells.len() == first + taken.owners.len()
            &&& forall|at: int|
                0 <= at < taken.owners.len() ==> position_for(positions, #[trigger] taken.owners[at])
                    == Some(taken.cells[first + at])
        }),
    decreases positions.len(),
{
    if positions.len() > 0 {
        let front = positions.drop_last();
        rising_front(positions);
        kept_are_settled(front, columns, rows, slots);
        let before = kept_cells(front, columns, rows, slots);
        let taken = kept_cells(positions, columns, rows, slots);
        let first = builtin_cells(rows, slots).len() as int;
        assert forall|at: int| 0 <= at < taken.owners.len() implies position_for(
            positions,
            #[trigger] taken.owners[at],
        ) == Some(taken.cells[first + at]) by {
            if at < before.owners.len() {
                let key = before.owners[at];
                assert(taken.owners[at] == key);
                assert(taken.cells[first + at] == before.cells[first + at]);
                let place = position_stands(front, key);
                assert(text_before(positions[place].0, positions[positions.len() - 1].0));
                text_order_is_total(key, key);
            }
        }
    }
}

/// Laying items out puts each of them into the cell that is taken for it.
proof fn placed_are_settled(
    start: Placement,
    kept: Seq<Seq<char>>,
    items: Seq<EntryOf>,
    columns: int,
    rows: int,
    slots: int,
    first: int,
)
    requires
        keys_rise(start.positions),
        0 <= first,
        start.taken.cells.len() == first + start.taken.owners.len(),
        forall|key: Seq<char>| kept.contains(key) ==> #[trigger] is_settled(start, first, key),
    ensures
        ({
            let plan = placed(start, kept, items, columns, rows, slots);
            &&& keys_rise(plan.positions)
            &&& plan.taken.cells.len() == first + plan.taken.owners.len()
            &&& forall|key: Seq<char>| kept.contains(key) ==> #[trigger] is_settled(plan, first, key)
            &&& forall|at: int|
                0 <= at < items.len() ==> is_settled(plan, first, (#[trigger] items[at]).key)
        }),
    decreases items.len(),
{
    if items.len() > 0 {
        let front = items.drop_last();
        placed_are_settled(start, kept, front, columns, rows, slots, first);
        let before = placed(start, kept, front, columns, rows, slots);
        let plan = placed(start, kept, items, columns, rows, slots);
        let last = items.last().key;
        if !kept.contains(last) {
            let cell = free_from(before.taken.cells, columns, rows, slots, 0);
            insertion_keeps_rising(before.positions, last, cell);
            assert forall|key: Seq<char>| key == last || is_settled(before, first, key) implies
                #[trigger] is_settled(plan, first, key) by {
                position_after_insertion(before.positions, last, cell, key);
                if key == last {
                    let at = before.taken.owners.len() as int;
                    assert(plan.taken.owners[at] == key);
                    assert(plan.taken.cells[first + at] == cell);
                } else {
                    let at = choose|at: int|
                        {
                            &&& 0 <= at < before.taken.owners.len()
                            &&& #[trigger] before.taken.owners[at] == key
                            &&& position_for(before.positions, key) == Some(
                                before.taken.cells[first + at],
                            )
                        };
                    assert(plan.taken.owners[at] == key);
                    assert(plan.taken.cells[first + at] == before.taken.cells[first + at]);
                }
            }
        }
        assert forall|at: int| 0 <= at < items.len() implies is_settled(
            plan,
            first,
            (#[trigger] items[at]).key,
        ) by {
            if at < front.len() {
                assert(front[at] == items[at]);
                assert(is_settled(before, first, front[at].key));
            }
        }
    }
}

/// Where in a layout an item stands that it places.
spec fn place_of(
    positions: Seq<(Seq<char>, DesktopPosition)>,
    items: Seq<EntryOf>,
    at: int,
) -> int
    decreases positions.len(),
{
    if positions.len() == 0 {
        0
    } else if at < placed_items(positions.drop_last(), items).len() {
        place_of(positions.drop_last(), items, at)
    } else {
        positions.len() - 1
    }
}

/// The items that a layout places are those of its entries, in their order.
proof fn placed_items_stand(
    positions: Seq<(Seq<char>, DesktopPosition)>,
    items: Seq<EntryOf>,
)
    ensures
        ({
            let shown = placed_items(positions, items);
            &&& forall|at: int|
                0 <= at < shown.len() ==> {
                    let place = #[trigger] place_of(positions, items, at);
                    &&& 0 <= place < positions.len()
                    &&& item_with(items, positions[place].0) == Some(shown[at].item)
                    &&& shown[at].rect == cell_rect(positions[place].1)
                    &&& shown[at].page == positions[place].1.page
                }
            &&& forall|left: int, right: int|
                0 <= left < right < shown.len() ==> #[trigger] place_of(positions, items, left)
                    < #[trigger] place_of(positions, items, right)
        }),
    decreases positions.len(),
{
    if positions.len() > 0 {
        let front = positions.drop_last();
        placed_items_stand(front, items);
        let before = placed_items(front, items);
        let shown = placed_items(positions, items);
        assert forall|at: int| 0 <= at < before.len() implies #[trigger] place_of(
            positions,
            items,
            at,
        ) == place_of(front, items, at) && shown[at] == before[at] by {}
        assert forall|at: int| 0 <= at < shown.len() implies ({
            let place = #[trigger] place_of(positions, items, at);
            &&& 0 <= place < positions.len()
            &&& item_with(items, positions[place].0) == Some(shown[at].item)
            &&& shown[at].rect == cell_rect(positions[place].1)
            &&& shown[at].page == positions[place].1.page
        }) by {
            if at < before.len() {
                let place = place_of(front, items, at);
                assert(front[place] == positions[place]);
            }
        }
        assert forall|left: int, right: int|
            0 <= left < right < shown.len() implies #[trigger] place_of(positions, items, left)
            < #[trigger] place_of(positions, items, right) by {
            assert(left < before.len());
            assert(0 <= place_of(front, items, left) < front.len());
            if right < before.len() {
                assert(place_of(front, items, left) < place_of(front, items, right));
            }
        }
    }
}

/// An entry of a layout whose key is that of an item is placed.
proof fn entry_is_placed(
    positions: Seq<(Seq<char>, DesktopPosition)>,
    items: Seq<EntryOf>,
    place: int,
) -> (at: int)
    requires
        0 <= place < positions.len(),
        item_with(items, positions[place].0) is Some,
    ensures
        0 <= at < placed_items(positions, items).len(),
        Some(placed_items(positions, items)[at].item) == item_with(items, positions[place].0),
    decreases positions.len(),
{
    let front = positions.drop_last();
    let before = placed_items(front, items);
    if place < front.len() {
        assert(front[place] == positions[place]);
        let at = entry_is_placed(front, items, place);
        assert(placed_items(positions, items)[at] == before[at]);
        at
    } else {
        before.len() as int
    }
}

/// An item that is found by its key is one of the items, and has the key; every item's key finds
/// one.
proof fn item_is_found(items: Seq<EntryOf>, key: Seq<char>)
    ensures
        match item_with(items, key) {
            Some(item) => item.key == key && exists|at: int|
                0 <= at < items.len() && #[trigger] items[at] == item,
            None => forall|at: int| 0 <= at < items.len() ==> (#[trigger] items[at]).key != key,
        },
    decreases items.len(),
{
    if items.len() > 0 {
        let front = items.drop_last();
        item_is_found(front, key);
        if items.last().key == key {
            assert(items[items.len() - 1] == items.last());
        } else {
            match item_with(front, key) {
                Some(item) => {
                    let at = choose|at: int| 0 <= at < front.len() && #[trigger] front[at] == item;
                    assert(items[at] == item);
                },
                None => {
                    assert forall|at: int| 0 <= at < items.len() implies (
                    #[trigger] items[at]).key != key by {
                        if at < front.len() {
                            assert(front[at] == items[at]);
                        }
                    }
                },
            }
        }
    }
}

/// Of the items that a desktop shows, no two on one page meet, and none meets a shortcut that every
/// desktop has. Each is in a cell of the grid, and every item of the desktop is shown, by its key.
pub proof fn items_never_overlap(desktop: DesktopView, size: (u32, u32))
    requires
        keys_rise(desktop.positions),
        desktop.positions.len() + desktop.items.len() + 2 < u32::MAX,
    ensures
        ({
            let shown = placed_items(with_layout(desktop, size).positions, desktop.items);
            let (columns, rows) = extent_of(size);
            let builtin = builtin_cells(rows, slots_of(columns, rows));
            &&& forall|left: int, right: int|
                0 <= left < right < shown.len() && (#[trigger] shown[left]).page == (
                #[trigger] shown[right]).page ==> !crate::pointer::rects_meet(
                    shown[left].rect,
                    shown[right].rect,
                )
            &&& forall|at: int, slot: int|
                0 <= at < shown.len() && 0 <= slot < builtin.len() && (#[trigger] shown[at]).page
                    == 0 ==> !crate::pointer::rects_meet(
                    shown[at].rect,
                    cell_rect(#[trigger] builtin[slot]),
                )
            &&& forall|at: int|
                0 <= at < shown.len() ==> exists|cell: DesktopPosition|
                    cell.column < columns && cell.row < rows && cell.page == (
                    #[trigger] shown[at]).page && shown[at].rect == #[trigger] cell_rect(cell)
            &&& forall|place: int|
                0 <= place < desktop.items.len() ==> exists|at: int|
                    0 <= at < shown.len() && (#[trigger] shown[at]).item.key == (
                    #[trigger] desktop.items[place]).key
        }),
{
    let (columns, rows) = extent_of(size);
    let slots = slots_of(columns, rows);
    let items = desktop.items;
    let builtin = builtin_cells(rows, slots);
    let first = builtin.len() as int;
    let kept = kept_cells(desktop.positions, columns, rows, slots);
    let start = Placement { positions: desktop.positions, taken: kept };
    let plan = laid_out(desktop.positions, items, size);
    let shown = placed_items(plan.positions, items);
    keeping_is_well(desktop.positions, columns, rows);
    placing_is_well(start, kept.owners, items, columns, rows);
    kept_are_settled(desktop.positions, columns, rows, slots);
    assert forall|key: Seq<char>| kept.owners.contains(key) implies #[trigger] is_settled(
        start,
        first,
        key,
    ) by {
        let at = choose|at: int| 0 <= at < kept.owners.len() && kept.owners[at] == key;
        assert(start.taken.owners[at] == key);
    }
    placed_are_settled(start, kept.owners, items, columns, rows, slots, first);
    placed_items_stand(plan.positions, items);
    assert forall|at: int| 0 <= at < shown.len() implies 0 <= #[trigger] taken_place(
        plan,
        items,
        first,
        at,
    ) < plan.taken.owners.len() && plan.taken.owners[taken_place(plan, items, first, at)]
        == shown[at].item.key && plan.taken.cells[first + taken_place(plan, items, first, at)]
        == plan.positions[place_of(plan.positions, items, at)].1 by {
        let place = place_of(plan.positions, items, at);
        let key = plan.positions[place].0;
        item_is_found(items, key);
        let item = choose|item: int|
            0 <= item < items.len() && #[trigger] items[item] == shown[at].item;
        assert(items[item].key == key);
        assert(is_settled(plan, first, key));
        entry_is_found(plan.positions, place);
    }
    assert forall|left: int, right: int|
        0 <= left < right < shown.len() && (#[trigger] shown[left]).page == (
        #[trigger] shown[right]).page implies !crate::pointer::rects_meet(
        shown[left].rect,
        shown[right].rect,
    ) by {
        let one = taken_place(plan, items, first, left);
        let other = taken_place(plan, items, first, right);
        let left_place = place_of(plan.positions, items, left);
        let right_place = place_of(plan.positions, items, right);
        assert(left_place < right_place);
        assert(text_before(plan.positions[left_place].0, plan.positions[right_place].0));
        text_order_is_total(plan.positions[left_place].0, plan.positions[left_place].0);
        item_is_found(items, plan.positions[left_place].0);
        item_is_found(items, plan.positions[right_place].0);
        assert(one != other);
        assert(plan.taken.cells[first + one] != plan.taken.cells[first + other]);
        cells_do_not_meet(plan.taken.cells[first + one], plan.taken.cells[first + other]);
    }
    assert forall|at: int, slot: int|
        0 <= at < shown.len() && 0 <= slot < builtin.len() && (#[trigger] shown[at]).page
            == 0 implies !crate::pointer::rects_meet(
        shown[at].rect,
        cell_rect(#[trigger] builtin[slot]),
    ) by {
        let own = taken_place(plan, items, first, at);
        assert(plan.taken.cells[slot] == builtin[slot]);
        assert(plan.taken.cells[first + own] != plan.taken.cells[slot]);
        assert(slot / slots == 0) by (nonlinear_arith)
            requires
                0 <= slot < slots,
        ;
        cells_do_not_meet(plan.taken.cells[first + own], plan.taken.cells[slot]);
    }
    assert forall|at: int| 0 <= at < shown.len() implies exists|cell: DesktopPosition|
        cell.column < columns && cell.row < rows && cell.page == (#[trigger] shown[at]).page
            && shown[at].rect == #[trigger] cell_rect(cell) by {
        let own = taken_place(plan, items, first, at);
        let cell = plan.taken.cells[first + own];
        assert(shown[at].rect == cell_rect(cell));
    }
    assert forall|place: int| 0 <= place < items.len() implies exists|at: int|
        0 <= at < shown.len() && (#[trigger] shown[at]).item.key == (
        #[trigger] items[place]).key by {
        let key = items[place].key;
        assert(is_settled(plan, first, key));
        let entry = position_stands(plan.positions, key);
        item_is_found(items, key);
        let at = entry_is_placed(plan.positions, items, entry);
        assert(shown[at].item.key == key);
    }
}

/// Which of the owners of cells an item is that a layout places.
spec fn taken_place(plan: Placement, items: Seq<EntryOf>, first: int, at: int) -> int {
    let key = placed_items(plan.positions, items)[at].item.key;
    choose|place: int|
        {
            &&& 0 <= place < plan.taken.owners.len()
            &&& #[trigger] plan.taken.owners[place] == key
            &&& position_for(plan.positions, key) == Some(plan.taken.cells[first + place])
        }
}

/// Leaving entries of a layout out keeps the order of the keys.
proof fn filtering_keeps_rising(
    positions: Seq<(Seq<char>, DesktopPosition)>,
    keep: spec_fn((Seq<char>, DesktopPosition)) -> bool,
)
    requires
        keys_rise(positions),
    ensures
        keys_rise(positions.filter(keep)),
    decreases positions.len(),
{
    reveal(Seq::filter);
    if positions.len() > 0 {
        let front = positions.drop_last();
        let last = positions.last();
        rising_front(positions);
        filtering_keeps_rising(front, keep);
        let kept = front.filter(keep);
        if keep(last) {
            let whole = kept.push(last);
            assert(positions.filter(keep) =~= whole);
            assert forall|left: int, right: int| 0 <= left < right < whole.len() implies text_before(
                (#[trigger] whole[left]).0,
                (#[trigger] whole[right]).0,
            ) by {
                if right == kept.len() {
                    assert(kept.contains(kept[left]));
                    front.lemma_filter_contains_rev(keep, kept[left]);
                    let at = choose|at: int| 0 <= at < front.len() && front[at] == kept[left];
                    assert(positions[at] == kept[left]);
                    assert(text_before(positions[at].0, positions[positions.len() - 1].0));
                } else {
                    assert(whole[left] == kept[left] && whole[right] == kept[right]);
                }
            }
        }
    }
}

/// Dropping an item on another one swaps the two.
pub proof fn dropping_swaps(
    positions: Seq<(Seq<char>, DesktopPosition)>,
    key: Seq<char>,
    from: DesktopPosition,
    to: DesktopPosition,
)
    requires
        keys_rise(positions),
        position_for(positions, key) == Some(from),
    ensures
        position_for(swapped(positions, key, from, to), key) == Some(to),
        match occupant(positions, key, to) {
            Some(other) => position_for(swapped(positions, key, from, to), other) == Some(from),
            None => true,
        },
        forall|other: Seq<char>|
            other != key && Some(other) != occupant(positions, key, to) ==> #[trigger] position_for(
                swapped(positions, key, from, to),
                other,
            ) == position_for(positions, other),
        keys_rise(swapped(positions, key, from, to)),
{
    occupant_is_another(positions, key, to);
    let middle = match occupant(positions, key, to) {
        Some(other) => with_position(positions, other, from),
        None => positions,
    };
    if let Some(other) = occupant(positions, key, to) {
        insertion_keeps_rising(positions, other, from);
    }
    insertion_keeps_rising(middle, key, to);
    position_after_insertion(middle, key, to, key);
    if let Some(other) = occupant(positions, key, to) {
        position_after_insertion(middle, key, to, other);
        position_after_insertion(positions, other, from, other);
    }
    assert forall|other: Seq<char>|
        other != key && Some(other) != occupant(positions, key, to) implies #[trigger] position_for(
        swapped(positions, key, from, to),
        other,
    ) == position_for(positions, other) by {
        position_after_insertion(middle, key, to, other);
        if let Some(moved) = occupant(positions, key, to) {
            position_after_insertion(positions, moved, from, other);
        }
    }
}

/// An occupant is never the item itself.
proof fn occupant_is_another(
    positions: Seq<(Seq<char>, DesktopPosition)>,
    key: Seq<char>,
    cell: DesktopPosition,
)
    ensures
        occupant(positions, key, cell) != Some(key),
    decreases positions.len(),
{
    if positions.len() > 0 {
        occupant_is_another(positions.drop_last(), key, cell);
    }
}

impl DesktopModel {
    /// Gives every item a cell, and says whether the layout is to be saved.
    fn lay_out(&mut self, desktop_size: (u32, u32)) -> (save: bool)
        ensures
            final(self)@ == with_layout(old(self)@, desktop_size),
            save == layout_changes(old(self)@, desktop_size),
            keys_rise(old(self)@.positions) ==> keys_rise(final(self)@.positions),
    {
        let ghost before = self@;
        let (columns, rows) = grid_extent(desktop_size);
        let slots: u32 = mul_u32(columns, rows);
        proof {
            assert(columns * rows >= 1) by (nonlinear_arith)
                requires
                    columns >= 1,
                    rows >= 1,
            ;
        }
        let (mut cells, kept) = keep_cells(&self.positions, columns, rows, slots);
        let ghost kept_keys = text_views(kept@);
        let ghost mut owners = kept_keys;
        let ghost start = Placement {
            positions: before.positions,
            taken: Taken { cells: cells@, owners: kept_keys },
        };
        let ghost items = entry_views(self.items@);
        let mut changed = false;
        let mut at: usize = 0;
        assert(items.take(0) =~= seq![]);
        while at < self.items.len()
            invariant
                at <= self.items.len(),
                rows >= 1,
                slots >= 1,
                items == entry_views(self.items@),
                kept_keys == text_views(kept@),
                self@ == (DesktopView { positions: self@.positions, ..before }),
                placed(
                    start,
                    kept_keys,
                    items.take(at as int),
                    columns as int,
                    rows as int,
                    slots as int,
                ) == (Placement {
                    positions: self@.positions,
                    taken: Taken { cells: cells@, owners },
                }),
                changed == !all_kept(kept_keys, items.take(at as int)),
                keys_rise(before.positions) ==> keys_rise(self@.positions),
            decreases self.items.len() - at,
        {
            assert(items.take(at + 1).drop_last() =~= items.take(at as int));
            assert(items[at as int] == self.items@[at as int]@);
            let known = list_has(&kept, &self.items[at].key);
            proof {
                let front = items.take(at as int);
                let next = items.take(at + 1);
                assert(next[at as int] == items[at as int]);
                if all_kept(kept_keys, front) && known {
                    assert forall|place: int| 0 <= place < next.len() implies kept_keys.contains(
                        (#[trigger] next[place]).key,
                    ) by {
                        if place < at {
                            assert(next[place] == front[place]);
                        }
                    }
                }
                if !all_kept(kept_keys, front) {
                    let place = choose|place: int|
                        0 <= place < front.len() && !kept_keys.contains(
                            (#[trigger] front[place]).key,
                        );
                    assert(next[place] == front[place]);
                }
            }
            if !known {
                let position = first_free_position(&cells, columns, rows, slots);
                let key = self.items[at].key.clone();
                insert_position(&mut self.positions, key, position);
                cells.push(position);
                proof {
                    owners = owners.push(items[at as int].key);
                }
                changed = true;
            }
            at = at + 1;
        }
        assert(items.take(at as int) =~= items);
        assert(laid_out(before.positions, before.items, desktop_size) == (Placement {
            positions: self@.positions,
            taken: Taken { cells: cells@, owners },
        }));
        let save = changed && self.writable;
        if save {
            self.generation = self.generation.saturating_add(1);
        }
        let last: u32 = find_last_page(&cells);
        self.page = min_u32(self.page, last);
        save
    }

    /// The items with their places, in the order of their keys, and whether the layout is to be
    /// saved.
    pub fn positioned(&mut self, desktop_size: (u32, u32)) -> (result: (
        Vec<PositionedDesktopItem>,
        bool,
    ))
        ensures
            final(self)@ == with_layout(old(self)@, desktop_size),
            positioned_views(result.0@) == placed_items(
                with_layout(old(self)@, desktop_size).positions,
                old(self)@.items,
            ),
            result.1 == layout_changes(old(self)@, desktop_size),
            keys_rise(old(self)@.positions) ==> keys_rise(final(self)@.positions),
    {
        let save = self.lay_out(desktop_size);
        let ghost views = position_views(self.positions@);
        let ghost items = entry_views(self.items@);
        let mut list: Vec<PositionedDesktopItem> = Vec::new();
        let mut at: usize = 0;
        assert(views.take(0) =~= seq![]);
        assert(positioned_views(list@) =~= seq![]);
        while at < self.positions.len()
            invariant
                at <= self.positions.len(),
                views == position_views(self.positions@),
                items == entry_views(self.items@),
                positioned_views(list@) == placed_items(views.take(at as int), items),
            decreases self.positions.len() - at,
        {
            assert(views.take(at + 1).drop_last() =~= views.take(at as int));
            assert(views[at as int] == self.positions@[at as int]@);
            let ghost before = positioned_views(list@);
            let position = self.positions[at].position;
            if let Some(place) = find_item(&self.items, &self.positions[at].key) {
                let entry = PositionedDesktopItem {
                    item: self.items[place].duplicate(),
                    rect: rect_of_cell(position),
                    page: position.page,
                };
                list.push(entry);
                assert(positioned_views(list@) =~= before.push(entry@));
            }
            at = at + 1;
        }
        assert(views.take(at as int) =~= views);
        (list, save)
    }

    /// Shows the first page.
    pub fn show_first_page(&mut self)
        ensures
            final(self)@ == (DesktopView { page: 0, ..old(self)@ }),
    {
        self.page = 0;
    }

    /// Turns a page, forwards where the amount is positive, and says whether one was turned.
    pub fn scroll_page(&mut self, amount: i32) -> (turned: bool)
        ensures
            ({
                let next = if amount == 0 {
                    old(self)@.page as int
                } else if amount > 0 {
                    min_of(
                        min_of(old(self)@.page + 1, u32::MAX as int),
                        layout_pages(old(self)@.positions) as int,
                    )
                } else {
                    max_of(old(self)@.page - 1, 0)
                };
                &&& final(self)@ == (DesktopView { page: next as u32, ..old(self)@ })
                &&& turned == (next != old(self)@.page)
            }),
            (final(self)@, turned) == page_turned(old(self)@, amount),
    {
        if amount == 0 {
            return false;
        }
        let maximum: u32 = self.last_layout_page();
        let next: u32 = if amount > 0 {
            min_u32(self.page.saturating_add(1), maximum)
        } else {
            self.page.saturating_sub(1)
        };
        let turned = next != self.page;
        self.page = next;
        turned
    }

    /// The last page of the layout.
    fn last_layout_page(&self) -> (page: u32)
        ensures
            page == layout_pages(self@.positions),
    {
        let ghost views = position_views(self.positions@);
        let mut page: u32 = 0;
        let mut at: usize = 0;
        assert(views.take(0) =~= seq![]);
        while at < self.positions.len()
            invariant
                at <= self.positions.len(),
                views == position_views(self.positions@),
                page == layout_pages(views.take(at as int)),
            decreases self.positions.len() - at,
        {
            assert(views.take(at + 1).drop_last() =~= views.take(at as int));
            assert(views[at as int] == self.positions@[at as int]@);
            if self.positions[at].position.page > page {
                page = self.positions[at].position.page;
            }
            at = at + 1;
        }
        assert(views.take(at as int) =~= views);
        page
    }

    /// Forgets all positions, so that the items are laid out in the order of their names; whether
    /// that may be saved.
    pub fn arrange_icons(&mut self) -> (arranged: bool)
        ensures
            arranged == old(self)@.writable,
            final(self)@ == if arranged {
                DesktopView {
                    positions: seq![],
                    generation: next_generation(old(self)@.generation),
                    page: 0,
                    ..old(self)@
                }
            } else {
                old(self)@
            },
            (final(self)@, arranged) == icons_arranged(old(self)@),
            keys_rise(old(self)@.positions) ==> keys_rise(final(self)@.positions),
    {
        if !self.writable {
            return false;
        }
        self.positions = Vec::new();
        assert(position_views(self.positions@) =~= seq![]);
        self.generation = self.generation.saturating_add(1);
        self.page = 0;
        true
    }

    /// The key of the first item with that path.
    fn key_for(&self, path: &FilePath) -> (key: Option<String>)
        ensures
            optional_text(key) == key_of(self@.items, path@),
    {
        let ghost views = entry_views(self.items@);
        let mut at: usize = 0;
        while at < self.items.len()
            invariant
                at <= self.items.len(),
                views == entry_views(self.items@),
                key_of(views.take(at as int), path@) is None,
            decreases self.items.len() - at,
        {
            assert(views.take(at + 1).drop_last() =~= views.take(at as int));
            assert(views[at as int] == self.items@[at as int]@);
            if self.items[at].path.same(path) {
                proof {
                    key_stays(views, path@, at + 1);
                }
                return Some(self.items[at].key.clone());
            }
            at = at + 1;
        }
        assert(views.take(at as int) =~= views);
        None
    }

    /// The position that the layout has for a key.
    fn position_of(&self, key: &String) -> (position: Option<DesktopPosition>)
        ensures
            position == position_for(self@.positions, key@),
    {
        let ghost views = position_views(self.positions@);
        let mut at: usize = self.positions.len();
        assert(views.take(at as int) =~= views);
        while at > 0
            invariant
                at <= self.positions.len(),
                views == position_views(self.positions@),
                position_for(views, key@) == position_for(views.take(at as int), key@),
            decreases at,
        {
            assert(views.take(at as int).last() == self.positions@[at - 1]@);
            assert(views.take(at as int).drop_last() =~= views.take(at - 1));
            if text_is(&self.positions[at - 1].key, key.as_str()) {
                return Some(self.positions[at - 1].position);
            }
            at = at - 1;
        }
        None
    }

    /// The first key, other than `key`, that the layout puts into a cell.
    fn occupant_of(&self, key: &String, cell: DesktopPosition) -> (other: Option<String>)
        ensures
            optional_text(other) == occupant(self@.positions, key@, cell),
    {
        let ghost views = position_views(self.positions@);
        let mut at: usize = 0;
        while at < self.positions.len()
            invariant
                at <= self.positions.len(),
                views == position_views(self.positions@),
                occupant(views.take(at as int), key@, cell) is None,
            decreases self.positions.len() - at,
        {
            assert(views.take(at + 1).drop_last() =~= views.take(at as int));
            assert(views[at as int] == self.positions@[at as int]@);
            if self.positions[at].position == cell && !text_is(
                &self.positions[at].key,
                key.as_str(),
            ) {
                proof {
                    occupant_stays(views, key@, cell, at + 1);
                }
                return Some(self.positions[at].key.clone());
            }
            at = at + 1;
        }
        assert(views.take(at as int) =~= views);
        None
    }

    /// Moves an item to the cell under a pixel. An item that is there goes where this one came
    /// from; the shortcuts that every desktop has stay. The outcome says whether the layout is to be
    /// saved, be it for the items that had no cell before.
    pub fn move_item(&mut self, path: &FilePath, point: (i32, i32), desktop_size: (u32, u32)) -> (
        outcome: MoveOutcome)
        ensures
            (final(self)@, outcome) == dropped(
                old(self)@,
                path@,
                point.0 as int,
                point.1 as int,
                desktop_size,
            ),
            keys_rise(old(self)@.positions) ==> keys_rise(final(self)@.positions),
    {
        if !self.writable {
            return MoveOutcome::ReadOnly;
        }
        let save = self.lay_out(desktop_size);
        let key = match self.key_for(path) {
            Some(key) => key,
            None => {
                return stays(save);
            },
        };
        let from = match self.position_of(&key) {
            Some(from) => from,
            None => {
                return stays(save);
            },
        };
        let (columns, rows) = grid_extent(desktop_size);
        let column: u32 = min_u32(
            max_i32(sub_i32(point.0, ICON_LEFT), 0) as u32 / 96,
            columns - 1,
        );
        let row: u32 = min_u32(max_i32(sub_i32(point.1, ICON_TOP), 0) as u32 / 100, rows - 1);
        let to = DesktopPosition { column, row, page: self.page };
        if to == from {
            return stays(save);
        }
        let linear: u32 = mul_u32(column, rows).saturating_add(row);
        if to.page == 0 && linear < 2 {
            return stays(save);
        }
        if let Some(other) = self.occupant_of(&key, to) {
            insert_position(&mut self.positions, other, from);
        }
        insert_position(&mut self.positions, key, to);
        self.generation = self.generation.saturating_add(1);
        MoveOutcome::Moved
    }
}

/// The name of a launcher: the one that it gives itself, unless that is blank, or else the name of
/// its file without its suffix.
pub open spec fn launcher_name(given: Option<Seq<char>>, file: Seq<char>) -> Seq<char> {
    let suffix = ".desktop"@;
    match given {
        Some(name) if trimmed(name).len() > 0 => name,
        _ => if finishes_with(file, suffix) {
            file.take(file.len() - suffix.len())
        } else {
            file
        },
    }
}

/// The name of a launcher.
pub fn launcher_display_name(given: &Option<String>, file: &String) -> (name: String)
    ensures
        name@ == launcher_name(optional_text(*given), file@),
{
    if let Some(name) = given {
        let chars = characters(name.as_str());
        if trim(chars.as_slice()).len() > 0 {
            return name.clone();
        }
    }
    let chars = characters(file.as_str());
    if crate::text::ends_with(chars.as_slice(), ".desktop") {
        proof {
            reveal_strlit(".desktop");
        }
        let front = slice_of(chars.as_slice(), 0, chars.len() - 8);
        assert(front@ =~= file@.take(file@.len() - 8));
        return text_of(front.as_slice());
    }
    file.clone()
}

/// A launcher never shows the suffix of its file, however it is written.
pub proof fn launchers_hide_their_suffix(given: Option<Seq<char>>, stem: Seq<char>)
    requires
        given is None || trimmed(given->0).len() == 0,
    ensures
        launcher_name(given, stem + ".desktop"@) == stem,
{
    let suffix = ".desktop"@;
    let file = stem + suffix;
    assert(file.skip(file.len() - suffix.len()) =~= suffix);
    assert(file.take(file.len() - suffix.len()) =~= stem);
}

/// Whether the bytes `left` come before `right`.
pub open spec fn bytes_before(left: Seq<u8>, right: Seq<u8>) -> bool
    decreases left.len(),
{
    if right.len() == 0 {
        false
    } else if left.len() == 0 {
        true
    } else if left[0] != right[0] {
        left[0] < right[0]
    } else {
        bytes_before(left.skip(1), right.skip(1))
    }
}

/// Whether an item comes before another: by its name in lower case, then by the name of its file.
pub open spec fn entry_before(left: EntryOf, right: EntryOf) -> bool {
    let one = lowercase(left.display_name);
    let other = lowercase(right.display_name);
    text_before(one, other) || (one == other && bytes_before(left.name, right.name))
}

/// Items in their order with one more, which comes after those that it is not before.
pub open spec fn with_entry(entries: Seq<EntryOf>, entry: EntryOf) -> Seq<EntryOf>
    decreases entries.len(),
{
    if entries.len() == 0 || !entry_before(entry, entries.last()) {
        entries.push(entry)
    } else {
        with_entry(entries.drop_last(), entry).push(entries.last())
    }
}

/// Items in their order.
pub open spec fn in_order(entries: Seq<EntryOf>) -> Seq<EntryOf>
    decreases entries.len(),
{
    if entries.len() == 0 {
        seq![]
    } else {
        with_entry(in_order(entries.drop_last()), entries.last())
    }
}

/// Whether a position belongs to one of the items.
pub open spec fn is_live(items: Seq<EntryOf>) -> spec_fn((Seq<char>, DesktopPosition)) -> bool {
    |entry: (Seq<char>, DesktopPosition)| item_with(items, entry.0) is Some
}

/// Whether the bytes `left` come before `right`.
pub fn name_before(left: &[u8], right: &[u8]) -> (before: bool)
    ensures
        before == bytes_before(left@, right@),
{
    let mut at: usize = 0;
    assert(left@.skip(0) =~= left@);
    assert(right@.skip(0) =~= right@);
    while at < left.len() && at < right.len() && left[at] == right[at]
        invariant
            at <= left.len(),
            at <= right.len(),
            bytes_before(left@, right@) == bytes_before(
                left@.skip(at as int),
                right@.skip(at as int),
            ),
        decreases left.len() - at,
    {
        assert(left@.skip(at as int).skip(1) =~= left@.skip(at + 1));
        assert(right@.skip(at as int).skip(1) =~= right@.skip(at + 1));
        at = at + 1;
    }
    if at == right.len() {
        return false;
    }
    if at == left.len() {
        return true;
    }
    left[at] < right[at]
}

/// Whether an item comes before another.
fn item_before(left: &DesktopEntry, right: &DesktopEntry) -> (before: bool)
    ensures
        before == entry_before(left@, right@),
{
    let one = to_lowercase(left.display_name.as_str());
    let other = to_lowercase(right.display_name.as_str());
    if text_is(&one, other.as_str()) {
        proof {
            text_order_is_total(one@, other@);
        }
        name_before(left.name.as_slice(), right.name.as_slice())
    } else {
        key_before(&one, &other)
    }
}

/// Puts an item where it belongs.
fn insert_entry(entries: &mut Vec<DesktopEntry>, entry: DesktopEntry)
    ensures
        entry_views(final(entries)@) == with_entry(entry_views(old(entries)@), entry@),
{
    let ghost views = entry_views(entries@);
    let mut at: usize = entries.len();
    assert(views.take(at as int) =~= views);
    assert(with_entry(views, entry@) =~= with_entry(views, entry@) + views.skip(at as int));
    while at > 0 && item_before(&entry, &entries[at - 1])
        invariant
            at <= entries.len(),
            views == entry_views(entries@),
            with_entry(views, entry@) == with_entry(views.take(at as int), entry@) + views.skip(
                at as int,
            ),
        decreases at,
    {
        let ghost front = views.take(at as int);
        assert(front.last() == entries@[at - 1]@);
        assert(front.drop_last() =~= views.take(at - 1));
        assert(with_entry(views.take(at - 1), entry@).push(front.last()) + views.skip(at as int)
            =~= with_entry(views.take(at - 1), entry@) + views.skip(at - 1));
        at = at - 1;
    }
    assert(at > 0 ==> views.take(at as int).last() == entries@[at - 1]@);
    entries.insert(at, entry);
    assert(entry_views(entries@) =~= views.take(at as int).push(entry@) + views.skip(at as int));
}

/// Whether two lists hold the same items.
fn same_entries(left: &Vec<DesktopEntry>, right: &Vec<DesktopEntry>) -> (same: bool)
    ensures
        same == are_same_entries(entry_views(left@), entry_views(right@)),
{
    assert(entry_views(left@).len() == left@.len());
    assert(entry_views(right@).len() == right@.len());
    if left.len() != right.len() {
        return false;
    }
    let mut at: usize = 0;
    while at < left.len()
        invariant
            at <= left.len(),
            left.len() == right.len(),
            forall|earlier: int|
                0 <= earlier < at ==> same_entry(
                    #[trigger] entry_views(left@)[earlier],
                    #[trigger] entry_views(right@)[earlier],
                ),
        decreases left.len() - at,
    {
        assert(entry_views(left@)[at as int] == left@[at as int]@);
        assert(entry_views(right@)[at as int] == right@[at as int]@);
        if !left[at].same(&right[at]) {
            return false;
        }
        at = at + 1;
    }
    true
}

impl DesktopModel {
    /// Takes over the items that were read: in order, and without the positions of items that are
    /// gone. Whether the items changed.
    pub fn rescan(&mut self, found: &Vec<DesktopEntry>) -> (changed: bool)
        ensures
            ({
                let items = in_order(entry_views(found@));
                &&& changed == !are_same_entries(items, old(self)@.items)
                &&& final(self)@ == (DesktopView {
                    items,
                    positions: old(self)@.positions.filter(is_live(items)),
                    ..old(self)@
                })
            }),
            (final(self)@, changed) == rescanned(old(self)@, entry_views(found@)),
            keys_rise(old(self)@.positions) ==> keys_rise(final(self)@.positions),
    {
        let ghost before = self@;
        let ghost views = entry_views(found@);
        let mut items: Vec<DesktopEntry> = Vec::new();
        let mut at: usize = 0;
        assert(views.take(0) =~= seq![]);
        assert(entry_views(items@) =~= seq![]);
        while at < found.len()
            invariant
                at <= found.len(),
                views == entry_views(found@),
                entry_views(items@) == in_order(views.take(at as int)),
            decreases found.len() - at,
        {
            assert(views.take(at + 1).drop_last() =~= views.take(at as int));
            assert(views[at as int] == found@[at as int]@);
            insert_entry(&mut items, found[at].duplicate());
            at = at + 1;
        }
        assert(views.take(at as int) =~= views);
        let changed = !same_entries(&items, &self.items);
        let ghost live = is_live(entry_views(items@));
        let ghost positions = before.positions;
        let mut kept: Vec<KeyedPosition> = Vec::new();
        let mut place: usize = 0;
        proof {
            crate::lists::filter_ends(positions, live);
        }
        assert(position_views(kept@) =~= positions.take(0).filter(live));
        while place < self.positions.len()
            invariant
                place <= self.positions.len(),
                self@ == before,
                positions == position_views(self.positions@),
                live == is_live(entry_views(items@)),
                position_views(kept@) == positions.take(place as int).filter(live),
            decreases self.positions.len() - place,
        {
            proof {
                crate::lists::filter_step(positions, live, place as int);
            }
            assert(positions[place as int] == self.positions@[place as int]@);
            let ghost sofar = position_views(kept@);
            if find_item(&items, &self.positions[place].key).is_some() {
                let entry = KeyedPosition {
                    key: self.positions[place].key.clone(),
                    position: self.positions[place].position,
                };
                kept.push(entry);
                assert(position_views(kept@) =~= sofar.push(entry@));
            }
            place = place + 1;
        }
        proof {
            crate::lists::filter_ends(positions, live);
            if keys_rise(positions) {
                filtering_keeps_rising(positions, live);
            }
        }
        self.items = items;
        self.positions = kept;
        changed
    }
}

/// The target of an item on the desktop.
pub open spec fn item_target(item: PositionedView) -> TargetView {
    TargetView {
        rect: item.rect,
        label: item.item.display_name,
        action: ActionView::OpenDesktopItem(item.item.path, item.item.kind),
    }
}

/// Whether an item is on a page.
pub open spec fn is_on_page(page: u32) -> spec_fn(PositionedView) -> bool {
    |item: PositionedView| item.page == page
}

/// The targets of items.
pub open spec fn item_targets(items: Seq<PositionedView>) -> Seq<TargetView> {
    items.map_values(|item: PositionedView| item_target(item))
}

/// The state with the items of the desktop in it: those of the page that is shown can be hit, all
/// of them can be reached, and those that are gone are not selected any more.
#[verifier::opaque]
pub open spec fn desktop_rebuilt(shell: ShellView, items: Seq<PositionedView>, page: u32) -> ShellView {
    let all = builtin_desktop() + item_targets(items);
    ShellView {
        visible_targets: builtin_desktop() + item_targets(items.filter(is_on_page(page))),
        desktop_targets: all,
        selection: still_selected(shell.selection, all),
        ..shell
    }
}

impl Shell {
    /// Takes over the items of the desktop.
    pub fn rebuild_desktop_targets(&mut self, items: &Vec<PositionedDesktopItem>, page: u32)
        requires
            old(self).valid(),
        ensures
            final(self)@ == desktop_rebuilt(old(self)@, positioned_views(items@), page),
            final(self).valid(),
    {
        reveal(desktop_rebuilt);
        let ghost before = self@;
        let ghost views = positioned_views(items@);
        let ghost keep = is_on_page(page);
        let mut visible = builtin_desktop_targets();
        let mut all = builtin_desktop_targets();
        let mut at: usize = 0;
        proof {
            crate::lists::filter_ends(views, keep);
        }
        assert(target_views(visible@) =~= builtin_desktop() + item_targets(
            views.take(0).filter(keep),
        ));
        assert(target_views(all@) =~= builtin_desktop() + item_targets(views.take(0)));
        while at < items.len()
            invariant
                at <= items.len(),
                views == positioned_views(items@),
                keep == is_on_page(page),
                target_views(visible@) == builtin_desktop() + item_targets(
                    views.take(at as int).filter(keep),
                ),
                target_views(all@) == builtin_desktop() + item_targets(views.take(at as int)),
            decreases items.len() - at,
        {
            proof {
                crate::lists::filter_step(views, keep, at as int);
            }
            assert(views[at as int] == items@[at as int]@);
            let ghost shown = target_views(visible@);
            let ghost kept = views.take(at as int).filter(keep);
            let ghost whole = target_views(all@);
            let target = target_of_item(&items[at]);
            if items[at].page == page {
                let copy = target.duplicate();
                visible.push(copy);
                assert(target_views(visible@) =~= shown.push(copy@));
                assert(item_targets(kept.push(views[at as int])) =~= item_targets(kept).push(
                    copy@,
                ));
                assert(target_views(visible@) =~= builtin_desktop() + item_targets(
                    kept.push(views[at as int]),
                ));
            }
            all.push(target);
            assert(target_views(all@) =~= whole.push(target@));
            assert(target_views(all@) =~= builtin_desktop() + item_targets(views.take(at + 1)));
            at = at + 1;
        }
        proof {
            crate::lists::filter_ends(views, keep);
        }
        self.visible_targets = visible;
        self.desktop_targets = all;
        self.retain_selection();
    }
}

/// The target of an item on the desktop.
fn target_of_item(item: &PositionedDesktopItem) -> (target: HitTarget)
    ensures
        target@ == item_target(item@),
{
    HitTarget {
        rect: item.rect,
        label: item.item.display_name.clone(),
        action: ShellAction::OpenDesktopItem(item.item.path.duplicate(), item.item.kind),
    }
}

/// The desktop after a page was turned, forwards where the amount is positive, and whether one was.
pub open spec fn page_turned(desktop: DesktopView, amount: i32) -> (DesktopView, bool) {
    let next = if amount == 0 {
        desktop.page as int
    } else if amount > 0 {
        min_of(min_of(desktop.page + 1, u32::MAX as int), layout_pages(desktop.positions) as int)
    } else {
        max_of(desktop.page - 1, 0)
    };
    (DesktopView { page: next as u32, ..desktop }, next != desktop.page)
}

/// The desktop after its items were put in the order of their names, and whether they were.
pub open spec fn icons_arranged(desktop: DesktopView) -> (DesktopView, bool) {
    (
        if desktop.writable {
            DesktopView {
                positions: seq![],
                generation: next_generation(desktop.generation),
                page: 0,
                ..desktop
            }
        } else {
            desktop
        },
        desktop.writable,
    )
}

/// The desktop after its items were read, and whether they changed.
pub open spec fn rescanned(desktop: DesktopView, found: Seq<EntryOf>) -> (DesktopView, bool) {
    let items = in_order(found);
    (
        DesktopView { items, positions: desktop.positions.filter(is_live(items)), ..desktop },
        !are_same_entries(items, desktop.items),
    )
}

/// The grid has as many columns and rows as fit beside the margins and above the panel, and at
/// least one of each.
pub proof fn grids_fill_the_desktop(size: (u32, u32))
    requires
        size.0 <= i32::MAX,
        size.1 <= i32::MAX,
    ensures
        ({
            let (columns, rows) = extent_of(size);
            &&& columns >= 1
            &&& rows >= 1
            &&& columns > 1 ==> ICON_LEFT + columns * ICON_CELL_WIDTH + ICON_LEFT <= size.0
            &&& ICON_LEFT + (columns + 1) * ICON_CELL_WIDTH + ICON_LEFT > size.0
            &&& rows > 1 ==> ICON_TOP + rows * ICON_CELL_HEIGHT + ICON_TOP + PANEL_HEIGHT <= size.1
            &&& ICON_TOP + (rows + 1) * ICON_CELL_HEIGHT + ICON_TOP + PANEL_HEIGHT > size.1
        }),
{
}

/// An item that is dropped on a pixel of the grid goes to the cell that holds the pixel. Beside the
/// grid it goes to the nearest column or row, always on the page that is shown.
pub proof fn items_are_dropped_where_the_pointer_is(x: i32, y: i32, page: u32, size: (u32, u32))
    ensures
        ({
            let cell = cell_under(x as int, y as int, page, size);
            let (columns, rows) = extent_of(size);
            let left = ICON_LEFT + cell.column * ICON_CELL_WIDTH;
            let top = ICON_TOP + cell.row * ICON_CELL_HEIGHT;
            &&& cell.page == page
            &&& cell.column < columns
            &&& cell.row < rows
            &&& x < ICON_LEFT ==> cell.column == 0
            &&& ICON_LEFT <= x < ICON_LEFT + columns * ICON_CELL_WIDTH ==> left <= x < left
                + ICON_CELL_WIDTH
            &&& ICON_LEFT + columns * ICON_CELL_WIDTH <= x ==> cell.column == columns - 1
            &&& y < ICON_TOP ==> cell.row == 0
            &&& ICON_TOP <= y < ICON_TOP + rows * ICON_CELL_HEIGHT ==> top <= y < top
                + ICON_CELL_HEIGHT
            &&& ICON_TOP + rows * ICON_CELL_HEIGHT <= y ==> cell.row == rows - 1
        }),
{
}

/// Every pixel of an item lies in the cell of the item, so that dropping an item on itself leaves
/// it where it is.
pub proof fn items_stand_in_their_cells(position: DesktopPosition, size: (u32, u32), x: i32, y: i32)
    requires
        position.column < extent_of(size).0,
        position.row < extent_of(size).1,
        cell_rect(position).x <= x < cell_rect(position).x + cell_rect(position).width,
        cell_rect(position).y <= y < cell_rect(position).y + cell_rect(position).height,
    ensures
        cell_under(x as int, y as int, position.page, size) == position,
{
}

/// An item is found by its path: the first item that is there, and none where no item is.
pub proof fn items_have_their_key(items: Seq<EntryOf>, path: Seq<u8>)
    ensures
        match key_of(items, path) {
            Some(key) => exists|at: int|
                {
                    &&& 0 <= at < items.len()
                    &&& same_place((#[trigger] items[at]).path, path)
                    &&& items[at].key == key
                    &&& forall|earlier: int|
                        0 <= earlier < at ==> !same_place((#[trigger] items[earlier]).path, path)
                },
            None => forall|at: int|
                0 <= at < items.len() ==> !same_place((#[trigger] items[at]).path, path),
        },
    decreases items.len(),
{
    if items.len() > 0 {
        let front = items.drop_last();
        items_have_their_key(front, path);
        assert(forall|at: int| 0 <= at < front.len() ==> front[at] == #[trigger] items[at]);
        match key_of(front, path) {
            Some(key) => {
                let at = choose|at: int|
                    {
                        &&& 0 <= at < front.len()
                        &&& same_place((#[trigger] front[at]).path, path)
                        &&& front[at].key == key
                        &&& forall|earlier: int|
                            0 <= earlier < at ==> !same_place(
                                (#[trigger] front[earlier]).path,
                                path,
                            )
                    };
                assert(items[at].key == key);
                assert forall|earlier: int| 0 <= earlier < at implies !same_place(
                    (#[trigger] items[earlier]).path,
                    path,
                ) by {
                    assert(!same_place(front[earlier].path, path));
                }
            },
            None => {
                assert forall|at: int| 0 <= at < front.len() implies !same_place(
                    (#[trigger] items[at]).path,
                    path,
                ) by {
                    assert(!same_place(front[at].path, path));
                }
                assert(items[items.len() - 1] == items.last());
            },
        }
    }
}

/// The position of a key is the one that the layout holds for it.
pub proof fn keys_have_their_position(
    positions: Seq<(Seq<char>, DesktopPosition)>,
    key: Seq<char>,
    at: int,
)
    requires
        keys_rise(positions),
        0 <= at < positions.len(),
    ensures
        position_for(positions, positions[at].0) == Some(positions[at].1),
        position_for(positions, key) is Some ==> positions.contains(
            (key, position_for(positions, key)->0),
        ),
    decreases positions.len(),
{
    let front = positions.drop_last();
    let last = positions.len() - 1;
    if at < last {
        text_order_is_total(positions[at].0, positions[last].0);
        assert(front[at] == positions[at]);
    }
    if positions.last().0 == key {
        assert(positions[last] == (key, positions.last().1));
    } else if front.len() > 0 {
        keys_have_their_position(front, key, 0);
        if position_for(front, key) is Some {
            let entry = (key, position_for(front, key)->0);
            let place = choose|place: int| 0 <= place < front.len() && front[place] == entry;
            assert(positions[place] == entry);
        }
    }
    if at < last {
        keys_have_their_position(front, key, at);
    }
}

/// Whoever is in the way of an item stands in the cell that the item goes to, and is another one.
pub proof fn occupants_stand_in_the_way(
    positions: Seq<(Seq<char>, DesktopPosition)>,
    key: Seq<char>,
    cell: DesktopPosition,
)
    ensures
        match occupant(positions, key, cell) {
            Some(other) => other != key && positions.contains((other, cell)),
            None => forall|at: int|
                0 <= at < positions.len() && (#[trigger] positions[at]).1 == cell
                    ==> positions[at].0 == key,
        },
    decreases positions.len(),
{
    if positions.len() > 0 {
        let front = positions.drop_last();
        let last = positions.len() - 1;
        occupants_stand_in_the_way(front, key, cell);
        match occupant(front, key, cell) {
            Some(other) => {
                let place = choose|place: int|
                    0 <= place < front.len() && front[place] == (other, cell);
                assert(positions[place] == (other, cell));
            },
            None => {
                assert(forall|at: int|
                    0 <= at < front.len() ==> front[at] == #[trigger] positions[at]);
                assert(positions[last] == positions.last());
                assert(positions.last() == (positions.last().0, positions.last().1));
            },
        }
    }
}

/// Nothing moves on a desktop that may not be saved. Otherwise an item moves to the cell under the
/// pointer, except onto the first two cells, where the shortcuts stand, and every move raises the
/// generation and turns no page.
pub proof fn items_move_under_the_pointer(
    desktop: DesktopView,
    path: Seq<u8>,
    x: i32,
    y: i32,
    size: (u32, u32),
)
    ensures
        ({
            let (after, outcome) = dropped(desktop, path, x as int, y as int, size);
            let ready = with_layout(desktop, size);
            let cell = cell_under(x as int, y as int, ready.page, size);
            let shortcut = cell.page == 0 && ((cell.column == 0 && cell.row < 2) || (extent_of(
                size,
            ).1 == 1 && cell.column == 1 && cell.row == 0));
            &&& (outcome is ReadOnly) == !desktop.writable
            &&& outcome is ReadOnly ==> after == desktop
            &&& outcome is Unchanged || outcome is Placed ==> after == ready
            &&& outcome is Moved ==> {
                &&& desktop.writable
                &&& !shortcut
                &&& key_of(desktop.items, path) is Some
                &&& position_for(ready.positions, key_of(desktop.items, path)->0) is Some
                &&& position_for(ready.positions, key_of(desktop.items, path)->0) != Some(cell)
                &&& after.items == desktop.items
                &&& after.page == ready.page
                &&& keys_rise(ready.positions) ==> position_for(
                    after.positions,
                    key_of(desktop.items, path)->0,
                ) == Some(cell)
                &&& ready.generation < u64::MAX ==> after.generation == ready.generation + 1
            }
            &&& desktop.writable && !shortcut && key_of(desktop.items, path) is Some
                && position_for(ready.positions, key_of(desktop.items, path)->0) is Some
                && position_for(ready.positions, key_of(desktop.items, path)->0) != Some(cell)
                ==> outcome is Moved
        }),
{
    let ready = with_layout(desktop, size);
    let cell = cell_under(x as int, y as int, ready.page, size);
    let rows = extent_of(size).1;
    let column = cell.column;
    assert(column == 0 ==> column * rows == 0);
    assert(column == 1 ==> column * rows == rows);
    assert(column >= 2 ==> column * rows >= 2) by (nonlinear_arith)
        requires
            rows >= 1,
    ;
    if let Some(key) = key_of(desktop.items, path) {
        if let Some(from) = position_for(ready.positions, key) {
            if keys_rise(ready.positions) {
                dropping_swaps(ready.positions, key, from, cell);
            }
        }
    }
}

/// Every page of a layout is at most its last one, which holds an item unless it is the first.
pub proof fn the_last_page_is_the_last(positions: Seq<(Seq<char>, DesktopPosition)>)
    ensures
        forall|at: int|
            0 <= at < positions.len() ==> (#[trigger] positions[at]).1.page <= layout_pages(
                positions,
            ),
        layout_pages(positions) > 0 ==> exists|at: int|
            0 <= at < positions.len() && (#[trigger] positions[at]).1.page == layout_pages(
                positions,
            ),
    decreases positions.len(),
{
    if positions.len() > 0 {
        let front = positions.drop_last();
        the_last_page_is_the_last(front);
        assert(forall|at: int| 0 <= at < front.len() ==> front[at] == #[trigger] positions[at]);
        assert forall|at: int| 0 <= at < positions.len() implies (#[trigger] positions[at]).1.page
            <= layout_pages(positions) by {
            if at < front.len() {
                assert(front[at].1.page <= layout_pages(front));
            }
        }
        if layout_pages(positions) > 0 {
            if layout_pages(positions) == positions.last().1.page {
                assert(positions[positions.len() - 1].1.page == layout_pages(positions));
            } else {
                let at = choose|at: int|
                    0 <= at < front.len() && (#[trigger] front[at]).1.page == layout_pages(front);
                assert(positions[at].1.page == layout_pages(positions));
            }
        }
    }
}

/// Pages turn one at a time, forwards up to the last one and backwards to the first, and nothing
/// but the page changes.
pub proof fn pages_turn_one_at_a_time(desktop: DesktopView, amount: i32)
    requires
        desktop.page <= layout_pages(desktop.positions),
    ensures
        ({
            let (after, turned) = page_turned(desktop, amount);
            &&& after == (DesktopView { page: after.page, ..desktop })
            &&& turned == (after.page != desktop.page)
            &&& amount == 0 ==> !turned
            &&& amount > 0 && desktop.page < layout_pages(desktop.positions) ==> after.page
                == desktop.page + 1
            &&& amount > 0 && desktop.page == layout_pages(desktop.positions) ==> !turned
            &&& amount < 0 && desktop.page > 0 ==> after.page == desktop.page - 1
            &&& amount < 0 && desktop.page == 0 ==> !turned
        }),
{
}

/// Arranging forgets where every item was and shows the first page. A desktop that may not be
/// saved stays as it is.
pub proof fn arranging_forgets_positions(desktop: DesktopView, key: Seq<char>)
    ensures
        ({
            let (after, done) = icons_arranged(desktop);
            &&& done == desktop.writable
            &&& !desktop.writable ==> after == desktop
            &&& desktop.writable ==> {
                &&& position_for(after.positions, key) is None
                &&& after.page == 0
                &&& after.items == desktop.items
                &&& after.writable
                &&& desktop.generation < u64::MAX ==> after.generation == desktop.generation + 1
            }
        }),
{
}

/// Of bytes that begin alike, the smaller byte comes first where they part, and what ends first
/// comes before what goes on.
pub proof fn bytes_are_ordered_where_they_part(
    front: Seq<u8>,
    one: u8,
    left: Seq<u8>,
    other: u8,
    right: Seq<u8>,
)
    ensures
        one != other ==> bytes_before(front.push(one) + left, front.push(other) + right) == (one
            < other),
        bytes_before(front, front.push(one) + left),
        !bytes_before(front.push(one) + left, front),
        !bytes_before(front, front),
    decreases front.len(),
{
    let a = front.push(one) + left;
    let b = front.push(other) + right;
    if front.len() > 0 {
        let rest = front.skip(1);
        bytes_are_ordered_where_they_part(rest, one, left, other, right);
        assert(a.skip(1) =~= rest.push(one) + left);
        assert(b.skip(1) =~= rest.push(other) + right);
        assert(a[0] == front[0] && b[0] == front[0]);
    } else {
        assert(a[0] == one && b[0] == other);
    }
}

/// Names in lower case decide the order of items, and where they are the same the names of the
/// files do.
pub proof fn items_are_ordered_by_name(left: EntryOf, right: EntryOf)
    ensures
        text_before(lowercase(left.display_name), lowercase(right.display_name)) ==> entry_before(
            left,
            right,
        ) && !entry_before(right, left),
        lowercase(left.display_name) == lowercase(right.display_name) ==> entry_before(left, right)
            == bytes_before(left.name, right.name),
{
    text_order_is_total(lowercase(left.display_name), lowercase(right.display_name));
}

/// Bytes are never before one another both ways, and one of two different sequences is before the
/// other.
proof fn byte_order_is_total(left: Seq<u8>, right: Seq<u8>)
    ensures
        left == right ==> !bytes_before(left, right),
        left != right ==> bytes_before(left, right) != bytes_before(right, left),
    decreases left.len(),
{
    if left.len() > 0 && right.len() > 0 {
        if left[0] == right[0] {
            byte_order_is_total(left.skip(1), right.skip(1));
            assert(left =~= seq![left[0]] + left.skip(1));
            assert(right =~= seq![right[0]] + right.skip(1));
        }
    } else if left.len() == 0 && right.len() == 0 {
        assert(left =~= right);
    }
}

/// What is before something is before what comes after that.
proof fn byte_order_is_transitive(first: Seq<u8>, second: Seq<u8>, third: Seq<u8>)
    requires
        bytes_before(first, second),
        bytes_before(second, third),
    ensures
        bytes_before(first, third),
    decreases first.len(),
{
    if first.len() > 0 {
        if first[0] == second[0] && second[0] == third[0] {
            byte_order_is_transitive(first.skip(1), second.skip(1), third.skip(1));
        }
    }
}

/// What does not come after something does not come after what that is not after.
proof fn entry_order_is_transitive(first: EntryOf, second: EntryOf, third: EntryOf)
    requires
        !entry_before(second, first),
        !entry_before(third, second),
    ensures
        !entry_before(third, first),
{
    let (a, b, c) = (
        lowercase(first.display_name),
        lowercase(second.display_name),
        lowercase(third.display_name),
    );
    text_order_is_total(a, b);
    text_order_is_total(b, c);
    text_order_is_total(a, c);
    byte_order_is_total(first.name, second.name);
    byte_order_is_total(second.name, third.name);
    byte_order_is_total(first.name, third.name);
    if text_before(a, b) && text_before(b, c) {
        text_order_is_transitive(a, b, c);
    }
    if bytes_before(first.name, second.name) && bytes_before(second.name, third.name) {
        byte_order_is_transitive(first.name, second.name, third.name);
    }
}

/// Adding an item keeps the order, and adds that item and no other.
proof fn adding_an_item_keeps_order(entries: Seq<EntryOf>, entry: EntryOf)
    requires
        forall|left: int, right: int|
            0 <= left < right < entries.len() ==> !entry_before(
                #[trigger] entries[right],
                #[trigger] entries[left],
            ),
    ensures
        with_entry(entries, entry).len() == entries.len() + 1,
        with_entry(entries, entry).to_multiset() == entries.to_multiset().insert(entry),
        forall|left: int, right: int|
            0 <= left < right < with_entry(entries, entry).len() ==> !entry_before(
                #[trigger] with_entry(entries, entry)[right],
                #[trigger] with_entry(entries, entry)[left],
            ),
    decreases entries.len(),
{
    broadcast use vstd::seq_lib::group_to_multiset_ensures;

    let whole = with_entry(entries, entry);
    if entries.len() == 0 || !entry_before(entry, entries.last()) {
        assert forall|left: int, right: int| 0 <= left < right < whole.len() implies !entry_before(
            #[trigger] whole[right],
            #[trigger] whole[left],
        ) by {
            if right == entries.len() {
                let last = entries.len() - 1;
                if left < last {
                    assert(!entry_before(entries[last], entries[left]));
                    entry_order_is_transitive(entries[left], entries[last], entry);
                }
            } else {
                assert(!entry_before(entries[right], entries[left]));
            }
        }
    } else {
        let front = entries.drop_last();
        assert forall|left: int, right: int| 0 <= left < right < front.len() implies !entry_before(
            #[trigger] front[right],
            #[trigger] front[left],
        ) by {
            assert(!entry_before(entries[right], entries[left]));
        }
        adding_an_item_keeps_order(front, entry);
        let before = with_entry(front, entry);
        assert(entries =~= front.push(entries.last()));
        assert(whole.to_multiset() =~= entries.to_multiset().insert(entry));
        assert forall|left: int, right: int| 0 <= left < right < whole.len() implies !entry_before(
            #[trigger] whole[right],
            #[trigger] whole[left],
        ) by {
            if right == before.len() {
                assert(before.to_multiset().contains(before[left]));
                if before[left] != entry {
                    assert(front.to_multiset().contains(before[left]));
                    assert(front.contains(before[left]));
                    let place = choose|place: int|
                        0 <= place < front.len() && front[place] == before[left];
                    assert(entries[place] == before[left]);
                    assert(!entry_before(entries[entries.len() - 1], entries[place]));
                } else {
                    let one = lowercase(entry.display_name);
                    let other = lowercase(entries.last().display_name);
                    text_order_is_total(one, other);
                    byte_order_is_total(entry.name, entries.last().name);
                }
            } else {
                assert(!entry_before(before[right], before[left]));
            }
        }
    }
}

/// The desktop shows exactly the items that were found, in their order.
pub proof fn found_items_are_put_in_order(found: Seq<EntryOf>)
    ensures
        in_order(found).to_multiset() == found.to_multiset(),
        forall|left: int, right: int|
            0 <= left < right < in_order(found).len() ==> !entry_before(
                #[trigger] in_order(found)[right],
                #[trigger] in_order(found)[left],
            ),
    decreases found.len(),
{
    broadcast use vstd::seq_lib::group_to_multiset_ensures;

    if found.len() > 0 {
        let front = found.drop_last();
        found_items_are_put_in_order(front);
        adding_an_item_keeps_order(in_order(front), found.last());
        assert(found =~= front.push(found.last()));
        assert(in_order(found).to_multiset() =~= found.to_multiset());
    } else {
        assert(found =~= seq![]);
    }
}

/// An item is found by its key wherever there is one with that key.
proof fn keyed_items_are_found(items: Seq<EntryOf>, key: Seq<char>)
    ensures
        (item_with(items, key) is Some) == (exists|at: int|
            0 <= at < items.len() && (#[trigger] items[at]).key == key),
        item_with(items, key) is Some ==> items.contains(item_with(items, key)->0) && (item_with(
            items,
            key,
        )->0).key == key,
    decreases items.len(),
{
    if items.len() > 0 {
        let front = items.drop_last();
        keyed_items_are_found(front, key);
        if items.last().key == key {
            assert(items[items.len() - 1].key == key);
        } else if item_with(front, key) is Some {
            let item = item_with(front, key)->0;
            let at = choose|at: int| 0 <= at < front.len() && front[at] == item;
            assert(items[at] == item);
        } else if exists|at: int| 0 <= at < items.len() && (#[trigger] items[at]).key == key {
            let at = choose|at: int| 0 <= at < items.len() && (#[trigger] items[at]).key == key;
            assert(front[at].key == key);
        }
    }
}

/// After the items were read, exactly the positions of those that are still there are kept, and
/// nothing else changes.
pub proof fn only_positions_of_items_are_kept(
    desktop: DesktopView,
    found: Seq<EntryOf>,
    entry: (Seq<char>, DesktopPosition),
)
    ensures
        ({
            let (after, changed) = rescanned(desktop, found);
            &&& after.positions.contains(entry) == (desktop.positions.contains(entry) && exists|
                at: int,
            |
                0 <= at < found.len() && (#[trigger] found[at]).key == entry.0)
            &&& after.page == desktop.page
            &&& after.generation == desktop.generation
            &&& after.writable == desktop.writable
            &&& !changed ==> after.items.len() == desktop.items.len()
        }),
{
    broadcast use vstd::seq_lib::group_to_multiset_ensures;

    let items = in_order(found);
    let live = is_live(items);
    found_items_are_put_in_order(found);
    keyed_items_are_found(items, entry.0);
    let after = rescanned(desktop, found).0;
    if exists|at: int| 0 <= at < items.len() && (#[trigger] items[at]).key == entry.0 {
        let at = choose|at: int| 0 <= at < items.len() && (#[trigger] items[at]).key == entry.0;
        assert(items.to_multiset().contains(items[at]));
        assert(found.contains(items[at]));
        let place = choose|place: int| 0 <= place < found.len() && found[place] == items[at];
        assert(found[place].key == entry.0);
    }
    if exists|at: int| 0 <= at < found.len() && (#[trigger] found[at]).key == entry.0 {
        let at = choose|at: int| 0 <= at < found.len() && (#[trigger] found[at]).key == entry.0;
        assert(found.to_multiset().contains(found[at]));
        assert(items.contains(found[at]));
        let place = choose|place: int| 0 <= place < items.len() && items[place] == found[at];
        assert(items[place].key == entry.0);
    }
    if desktop.positions.contains(entry) && live(entry) {
        let place = choose|place: int|
            0 <= place < desktop.positions.len() && desktop.positions[place] == entry;
        let at = crate::lists::kept_is_found(desktop.positions, live, place);
        assert(after.positions[at] == entry);
    }
    if after.positions.contains(entry) {
        let at = choose|at: int| 0 <= at < after.positions.len() && after.positions[at] == entry;
        let place = crate::lists::kept_is_there(desktop.positions, live, at);
        assert(desktop.positions[place] == entry);
    }
}

/// Of the items of the desktop, exactly those on the page that is shown can be hit, where they are
/// shown and under their names, and all of them can be reached. What is selected can be reached.
pub proof fn items_of_the_page_can_be_hit(
    shell: ShellView,
    items: Seq<PositionedView>,
    page: u32,
    at: int,
)
    requires
        0 <= at < items.len(),
    ensures
        ({
            let after = desktop_rebuilt(shell, items, page);
            let target = TargetView {
                rect: items[at].rect,
                label: items[at].item.display_name,
                action: ActionView::OpenDesktopItem(items[at].item.path, items[at].item.kind),
            };
            &&& items[at].page == page ==> after.visible_targets.contains(target)
            &&& after.desktop_targets.contains(target)
            &&& after.desktop_targets.len() == builtin_desktop().len() + items.len()
            &&& forall|slot: int|
                builtin_desktop().len() <= slot < after.visible_targets.len() ==> exists|place: int|
                    {
                        &&& 0 <= place < items.len()
                        &&& (#[trigger] items[place]).page == page
                        &&& (#[trigger] after.visible_targets[slot]).rect == items[place].rect
                        &&& after.visible_targets[slot].action == ActionView::OpenDesktopItem(
                            items[place].item.path,
                            items[place].item.kind,
                        )
                    }
            &&& forall|slot: int|
                0 <= slot < builtin_desktop().len() ==> #[trigger] after.visible_targets[slot]
                    == builtin_desktop()[slot]
        }),
{
    reveal(desktop_rebuilt);
    let after = desktop_rebuilt(shell, items, page);
    let keep = is_on_page(page);
    let first = builtin_desktop().len() as int;
    let kept = items.filter(keep);
    if items[at].page == page {
        let place = crate::lists::kept_is_found(items, keep, at);
        assert(after.visible_targets[first + place] == item_target(items[at]));
    }
    assert(after.desktop_targets[first + at] == item_target(items[at]));
    assert forall|slot: int| first <= slot < after.visible_targets.len() implies exists|place: int|
        {
            &&& 0 <= place < items.len()
            &&& (#[trigger] items[place]).page == page
            &&& (#[trigger] after.visible_targets[slot]).rect == items[place].rect
            &&& after.visible_targets[slot].action == ActionView::OpenDesktopItem(
                items[place].item.path,
                items[place].item.kind,
            )
        } by {
        let place = crate::lists::kept_is_there(items, keep, slot - first);
        assert(after.visible_targets[slot] == item_target(kept[slot - first]));
        assert(items[place].page == page);
    }
}

/// A launcher that gives itself a name is shown under it; one without is shown under the name of
/// its file.
pub proof fn launchers_show_the_name_they_give(given: Option<Seq<char>>, file: Seq<char>)
    ensures
        given is Some && trimmed(given->0).len() > 0 ==> launcher_name(given, file) == given->0,
        given is None && !finishes_with(file, ".desktop"@) ==> launcher_name(given, file) == file,
{
}

/// An item whose cell is on the grid, and that no other one is given, stays in that cell when the
/// items are laid out.
pub proof fn items_stay_where_they_were_put(desktop: DesktopView, size: (u32, u32), at: int)
    requires
        keys_rise(desktop.positions),
        0 <= at < desktop.positions.len(),
        desktop.positions[at].1.column < extent_of(size).0,
        desktop.positions[at].1.row < extent_of(size).1,
        desktop.positions[at].1.page > 0 || desktop.positions[at].1.column > 1
            || desktop.positions[at].1.row > 1,
        forall|other: int|
            0 <= other < desktop.positions.len() && other != at ==> (
            #[trigger] desktop.positions[other]).1 != desktop.positions[at].1,
    ensures
        position_for(with_layout(desktop, size).positions, desktop.positions[at].0) == Some(
            desktop.positions[at].1,
        ),
{
    let (columns, rows) = extent_of(size);
    let slots = slots_of(columns, rows);
    let positions = desktop.positions;
    cells_are_on_the_grid(0, columns, rows);
    cells_are_on_the_grid(1, columns, rows);
    shortcuts_stand_first(rows, slots, positions[at].1);
    sole_owners_keep_their_cell(positions, columns, rows, slots, at);
    let taken = kept_cells(positions, columns, rows, slots);
    keys_have_their_position(positions, positions[at].0, at);
    placing_leaves_the_kept(
        Placement { positions, taken },
        taken.owners,
        desktop.items,
        columns,
        rows,
        slots,
        positions[at].0,
    );
}

/// The shortcuts that every desktop has stand in the first two cells.
proof fn shortcuts_stand_first(rows: int, slots: int, cell: DesktopPosition)
    requires
        1 <= rows <= u32::MAX,
        1 <= slots <= u32::MAX,
        cell.page > 0 || cell.column > 1 || cell.row > 1,
    ensures
        !builtin_cells(rows, slots).contains(cell),
{
    let first = cell_at(0, rows, slots);
    let second = cell_at(1, rows, slots);
    in_range(0, rows, slots);
    in_range(1, rows, slots);
    if builtin_cells(rows, slots).contains(cell) {
        let slot = choose|slot: int|
            0 <= slot < builtin_cells(rows, slots).len() && builtin_cells(rows, slots)[slot]
                == cell;
        if slot == 1 {
            assert(1int / slots == 0) by (nonlinear_arith)
                requires
                    slots >= 2,
            ;
        }
    }
}

/// A cell on the grid that one item alone is given stays with that item.
proof fn sole_owners_keep_their_cell(
    positions: Seq<(Seq<char>, DesktopPosition)>,
    columns: int,
    rows: int,
    slots: int,
    at: int,
)
    requires
        0 <= at < positions.len(),
        positions[at].1.column < columns,
        positions[at].1.row < rows,
        !builtin_cells(rows, slots).contains(positions[at].1),
        forall|other: int|
            0 <= other < positions.len() && other != at ==> (#[trigger] positions[other]).1
                != positions[at].1,
    ensures
        kept_cells(positions, columns, rows, slots).owners.contains(positions[at].0),
    decreases positions.len(),
{
    let front = positions.drop_last();
    let before = kept_cells(front, columns, rows, slots);
    let (key, position) = positions.last();
    if at == positions.len() - 1 {
        assert forall|other: int| 0 <= other < front.len() implies (#[trigger] front[other]).1
            != position by {
            assert(positions[other].1 != position);
        }
        free_cells_stay_free(front, columns, rows, slots, position);
        let owners = before.owners.push(key);
        assert(owners[before.owners.len() as int] == key);
    } else {
        assert(front[at] == positions[at]);
        assert forall|other: int| 0 <= other < front.len() && other != at implies (
        #[trigger] front[other]).1 != front[at].1 by {
            assert(positions[other].1 != positions[at].1);
        }
        sole_owners_keep_their_cell(front, columns, rows, slots, at);
        let place = choose|place: int|
            0 <= place < before.owners.len() && before.owners[place] == positions[at].0;
        let owners = before.owners.push(key);
        assert(owners[place] == positions[at].0);
    }
}

/// A cell that no item is given stays free.
proof fn free_cells_stay_free(
    positions: Seq<(Seq<char>, DesktopPosition)>,
    columns: int,
    rows: int,
    slots: int,
    cell: DesktopPosition,
)
    requires
        !builtin_cells(rows, slots).contains(cell),
        forall|at: int| 0 <= at < positions.len() ==> (#[trigger] positions[at]).1 != cell,
    ensures
        !kept_cells(positions, columns, rows, slots).cells.contains(cell),
    decreases positions.len(),
{
    if positions.len() > 0 {
        let front = positions.drop_last();
        assert forall|at: int| 0 <= at < front.len() implies (#[trigger] front[at]).1 != cell by {
            assert(positions[at].1 != cell);
        }
        free_cells_stay_free(front, columns, rows, slots, cell);
        assert(positions[positions.len() - 1].1 != cell);
        let before = kept_cells(front, columns, rows, slots);
        let after = before.cells.push(positions.last().1);
        if after.contains(cell) {
            let place = choose|place: int| 0 <= place < after.len() && after[place] == cell;
            assert(before.cells[place] == cell);
        }
    }
}

/// Giving cells to the other items leaves those that have one where they are.
proof fn placing_leaves_the_kept(
    start: Placement,
    kept: Seq<Seq<char>>,
    items: Seq<EntryOf>,
    columns: int,
    rows: int,
    slots: int,
    key: Seq<char>,
)
    requires
        keys_rise(start.positions),
        kept.contains(key),
    ensures
        keys_rise(placed(start, kept, items, columns, rows, slots).positions),
        position_for(placed(start, kept, items, columns, rows, slots).positions, key)
            == position_for(start.positions, key),
    decreases items.len(),
{
    if items.len() > 0 {
        let before = placed(start, kept, items.drop_last(), columns, rows, slots);
        placing_leaves_the_kept(start, kept, items.drop_last(), columns, rows, slots, key);
        let other = items.last().key;
        if !kept.contains(other) {
            let cell = free_from(before.taken.cells, columns, rows, slots, 0);
            insertion_keeps_rising(before.positions, other, cell);
            position_after_insertion(before.positions, other, cell, key);
        }
    }
}

/// Cells fill up in order, column by column and page by page: no cell before the first free one is
/// free.
pub proof fn cells_fill_up_in_order(
    occupied: Seq<DesktopPosition>,
    columns: int,
    rows: int,
    other: DesktopPosition,
)
    requires
        1 <= columns,
        1 <= rows,
        columns * rows <= u32::MAX,
        other.column < columns,
        other.row < rows,
        !occupied.contains(other),
        other.page * (columns * rows) + other.column * rows + other.row < u32::MAX,
    ensures
        ({
            let cell = free_from(occupied, columns, rows, slots_of(columns, rows), 0);
            &&& cell.page <= other.page
            &&& cell.page == other.page ==> cell.column <= other.column
            &&& cell.page == other.page && cell.column == other.column ==> cell.row <= other.row
        }),
{
    let slots = columns * rows;
    let (page, column, row) = (other.page as int, other.column as int, other.row as int);
    let slot = column * rows + row;
    let linear = page * slots + slot;
    assert(slots >= 1 && columns <= slots && rows <= slots) by (nonlinear_arith)
        requires
            columns >= 1,
            rows >= 1,
            slots == columns * rows,
    ;
    assert(0 <= slot < slots) by (nonlinear_arith)
        requires
            0 <= column < columns,
            0 <= row < rows,
            slot == column * rows + row,
            slots == columns * rows,
    ;
    vstd::arithmetic::div_mod::lemma_fundamental_div_mod_converse(linear, slots, page, slot);
    vstd::arithmetic::div_mod::lemma_fundamental_div_mod_converse(slot, rows, column, row);
    assert(0 <= page * slots) by (nonlinear_arith)
        requires
            page >= 0,
            slots >= 1,
    ;
    assert(cell_at(linear, rows, slots) == other);
    assert(is_free(occupied, columns, rows, slots, linear));
    let first = first_free_number(occupied, columns, rows, slots, 0, linear);
    in_range(first, rows, slots);
    let (slot_of_first, page_of_first) = (first % slots, first / slots);
    vstd::arithmetic::div_mod::lemma_fundamental_div_mod(first, slots);
    vstd::arithmetic::div_mod::lemma_fundamental_div_mod(slot_of_first, rows);
    vstd::arithmetic::div_mod::lemma_div_is_ordered(first, linear, slots);
    if page_of_first == page {
        assert(slots * page == page * slots) by (nonlinear_arith);
        assert(slot_of_first <= slot);
        vstd::arithmetic::div_mod::lemma_div_is_ordered(slot_of_first, slot, rows);
        if slot_of_first / rows == column {
            assert(rows * column == column * rows) by (nonlinear_arith);
        }
    }
}

/// The number of the first free cell, where one after it is free.
proof fn first_free_number(
    occupied: Seq<DesktopPosition>,
    columns: int,
    rows: int,
    slots: int,
    from: int,
    linear: int,
) -> (first: int)
    requires
        0 <= from <= linear < u32::MAX,
        is_free(occupied, columns, rows, slots, linear),
    ensures
        from <= first <= linear,
        free_from(occupied, columns, rows, slots, from) == cell_at(first, rows, slots),
    decreases linear - from,
{
    if is_free(occupied, columns, rows, slots, from) {
        from
    } else {
        first_free_number(occupied, columns, rows, slots, from + 1, linear)
    }
}

} // verus!
