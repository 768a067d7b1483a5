//! The icons of the desktop.

use buzzardos_guest::desktop::{
    first_free_position, grid_extent, launcher_display_name, DesktopEntry, DesktopModel,
    DesktopPosition, MoveOutcome, ICON_CELL_HEIGHT, ICON_LEFT, ICON_TOP,
};
use buzzardos_guest::model::{DesktopItemKind, Rect};
use buzzardos_guest::paths::FilePath;

fn path(text: &str) -> FilePath {
    FilePath {
        bytes: text.as_bytes().to_vec(),
    }
}

fn entry(name: &str) -> DesktopEntry {
    DesktopEntry {
        path: path(&format!("/home/user/Desktop/{name}")),
        name: name.as_bytes().to_vec(),
        display_name: name.into(),
        kind: DesktopItemKind::RegularFile,
        key: name.into(),
    }
}

fn model(names: &[&str]) -> DesktopModel {
    let mut model = DesktopModel {
        positions: Vec::new(),
        generation: 0,
        writable: true,
        items: Vec::new(),
        page: 0,
    };
    let found: Vec<DesktopEntry> = names.iter().map(|name| entry(name)).collect();
    assert!(model.rescan(&found));
    model
}

fn rect_of(model: &mut DesktopModel, name: &str) -> Rect {
    let wanted = path(&format!("/home/user/Desktop/{name}"));
    let (items, _) = model.positioned((800, 600));
    items
        .iter()
        .find(|item| item.item.path == wanted)
        .unwrap()
        .rect
}

#[test]
fn grid_is_adaptive_and_pages_instead_of_dropping_items() {
    assert_eq!(grid_extent((300, 300)), (2, 2));
    let occupied = (0..4)
        .map(|slot| DesktopPosition {
            page: 0,
            column: slot / 2,
            row: slot % 2,
        })
        .collect::<Vec<_>>();
    assert_eq!(
        first_free_position(&occupied, 2, 2, 4),
        DesktopPosition {
            column: 0,
            row: 0,
            page: 1,
        }
    );
}

#[test]
fn layouts_that_cannot_be_written_still_show_the_items() {
    let mut model = model(&["note.txt"]);
    model.writable = false;
    let (items, save) = model.positioned((800, 600));
    assert_eq!(items.len(), 1);
    assert!(!save);
}

#[test]
fn desktop_pages_scroll_and_clamp_without_hiding_the_model() {
    let mut model = model(&["item-0", "item-1", "item-2", "item-3", "item-4"]);
    let (all, _) = model.positioned((300, 300));
    assert_eq!(all.len(), 5);
    assert!(all.iter().any(|item| item.page > 0));
    assert!(model.scroll_page(1));
    assert_eq!(model.page, 1);
    assert!(model.scroll_page(-1));
    assert_eq!(model.page, 0);
    assert!(!model.scroll_page(-1));
}

#[test]
fn new_shortcut_uses_the_first_visible_cell_after_files_and_shared() {
    assert_eq!(
        launcher_display_name(
            &Some("Firefox ESR".to_string()),
            &"firefox-esr.desktop".to_string()
        ),
        "Firefox ESR"
    );
    assert_eq!(
        launcher_display_name(&None, &"firefox-esr.desktop".to_string()),
        "firefox-esr"
    );
    let mut model = model(&["firefox-esr.desktop"]);
    let (items, _) = model.positioned((800, 600));
    assert_eq!(items[0].page, 0);
    assert_eq!(items[0].rect.x, ICON_LEFT);
    assert_eq!(items[0].rect.y, ICON_TOP + 2 * ICON_CELL_HEIGHT);

    model.page = 3;
    model.show_first_page();
    assert_eq!(model.page, 0);
}

#[test]
fn dragging_swaps_items_and_persists_the_layout() {
    let mut model = model(&["alpha", "beta"]);
    let alpha_before = rect_of(&mut model, "alpha");
    let beta_before = rect_of(&mut model, "beta");
    assert_eq!(
        model.move_item(
            &path("/home/user/Desktop/alpha"),
            (beta_before.x + 4, beta_before.y + 4),
            (800, 600),
        ),
        MoveOutcome::Moved
    );
    assert_eq!(rect_of(&mut model, "alpha"), beta_before);
    assert_eq!(rect_of(&mut model, "beta"), alpha_before);
    assert_eq!(
        model.move_item(
            &path("/home/user/Desktop/alpha"),
            (beta_before.x + 4, beta_before.y + 4),
            (800, 600),
        ),
        MoveOutcome::Unchanged
    );
    model.writable = false;
    assert_eq!(
        model.move_item(
            &path("/home/user/Desktop/alpha"),
            (alpha_before.x + 4, alpha_before.y + 4),
            (800, 600),
        ),
        MoveOutcome::ReadOnly
    );
}

#[test]
fn arranging_returns_items_to_stable_name_order() {
    let mut model = model(&["alpha", "beta"]);
    let alpha_initial = rect_of(&mut model, "alpha");
    let beta_initial = rect_of(&mut model, "beta");
    model.move_item(
        &path("/home/user/Desktop/alpha"),
        (beta_initial.x + 4, beta_initial.y + 4),
        (800, 600),
    );
    assert!(model.arrange_icons());
    assert_eq!(rect_of(&mut model, "alpha"), alpha_initial);
    assert_eq!(rect_of(&mut model, "beta"), beta_initial);
}

#[test]
fn items_never_overlap() {
    let names: Vec<String> = (0..30).map(|index| format!("item-{index}")).collect();
    let names: Vec<&str> = names.iter().map(String::as_str).collect();
    let mut model = model(&names);
    let (items, _) = model.positioned((500, 400));
    assert_eq!(items.len(), 30);
    for (at, left) in items.iter().enumerate() {
        for right in &items[at + 1..] {
            assert!(left.page != right.page || left.rect != right.rect);
        }
    }
}

#[test]
fn a_layout_that_grew_is_saved_though_nothing_moved() {
    let mut model = model(&["alpha"]);
    let point = (ICON_LEFT, ICON_TOP + 2 * ICON_CELL_HEIGHT);
    let alpha = path("/home/user/Desktop/alpha");
    assert_eq!(
        model.move_item(&alpha, point, (800, 600)),
        MoveOutcome::Placed
    );
    assert_eq!(model.generation, 1);
    assert_eq!(
        model.move_item(&alpha, point, (800, 600)),
        MoveOutcome::Unchanged
    );
    assert_eq!(model.generation, 1);
}

#[test]
fn a_layout_that_grew_is_saved_though_the_item_is_unknown() {
    let mut model = model(&["alpha"]);
    let missing = path("/home/user/Desktop/missing");
    assert_eq!(
        model.move_item(&missing, (500, 300), (800, 600)),
        MoveOutcome::Placed
    );
    assert_eq!(
        model.move_item(&missing, (500, 300), (800, 600)),
        MoveOutcome::Unchanged
    );
}

#[test]
fn shown_items_do_not_meet() {
    let names: Vec<String> = (0..12).map(|number| format!("item-{number:02}")).collect();
    let names: Vec<&str> = names.iter().map(String::as_str).collect();
    let mut model = model(&names);
    let (items, _) = model.positioned((500, 400));
    assert_eq!(items.len(), 12);
    for (place, left) in items.iter().enumerate() {
        for right in &items[place + 1..] {
            let apart = left.rect.x + left.rect.width <= right.rect.x
                || right.rect.x + right.rect.width <= left.rect.x
                || left.rect.y + left.rect.height <= right.rect.y
                || right.rect.y + right.rect.height <= left.rect.y;
            assert!(left.page != right.page || apart);
        }
        let builtin = left.rect.x == ICON_LEFT && left.rect.y < ICON_TOP + 2 * ICON_CELL_HEIGHT;
        assert!(left.page != 0 || !builtin);
    }
}

#[test]
fn an_item_is_found_by_any_path_that_leads_to_it() {
    let mut model = model(&["alpha", "beta"]);
    let beta = rect_of(&mut model, "beta");
    assert_eq!(
        model.move_item(
            &path("/home//user/./Desktop/alpha"),
            (beta.x + 4, beta.y + 4),
            (800, 600),
        ),
        MoveOutcome::Moved
    );
    let mut found = vec![entry("alpha"), entry("beta")];
    found[0].path = path("/home//user/Desktop/alpha");
    assert!(!model.rescan(&found));
    let keys: Vec<&str> = model
        .positions
        .iter()
        .map(|position| position.key.as_str())
        .collect();
    assert_eq!(keys, ["alpha", "beta"]);
}
