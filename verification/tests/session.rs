//! The shell as a whole: pixels, keys, clicks, drawing and what is read aloud.

use buzzardos_guest::accessibility::{AccessibleTarget, ROOT_NODE};
use buzzardos_guest::canvas::{
    blend_pixel, clear, draw_app_icon, draw_glyph, draw_outline, fill_rect, inset, scale_coord,
    scale_rect, AppIcon, Color, Glyph,
};
use buzzardos_guest::events::{AccessibleRequest, WatchOutcome};
use buzzardos_guest::keyboard::Key;
use buzzardos_guest::paste::TokenError;
use buzzardos_guest::model::{
    Application, DesktopItemKind, HitTarget, Rect, ShellAction,
};
use buzzardos_guest::paths::FilePath;
use buzzardos_guest::scene::{menu_destination, DrawOp};
use buzzardos_guest::shell::Effect;
use buzzardos_guest::state::{
    ClipboardOperation, ContextState, DeleteConsequence, EditOperation, Look, MenuKind, Shell,
    ShellSurface, ThemePalette,
};

const WHITE: Color = Color {
    red: 255,
    green: 255,
    blue: 255,
    alpha: 255,
};

fn path(text: &str) -> FilePath {
    FilePath {
        bytes: text.as_bytes().to_vec(),
    }
}

fn palette() -> ThemePalette {
    let color = |value: u8| Color {
        red: value,
        green: value,
        blue: value,
        alpha: 255,
    };
    ThemePalette {
        canvas: color(1),
        surface: color(2),
        raised: color(3),
        menu: color(4),
        border: color(5),
        text: color(6),
        text_secondary: color(7),
        text_muted: color(8),
        selection: color(9),
        selected_text: color(10),
        hover: color(11),
        focus: color(12),
        destructive: color(13),
        destructive_icon: color(14),
        folder: color(15),
        folder_tab: color(16),
    }
}

fn app(name: &str) -> Application {
    Application {
        id: format!("{name}.desktop"),
        name: name.into(),
        generic_name: None,
        icon: None,
        categories: Vec::new(),
        source: path("/usr/share/applications/x.desktop"),
    }
}

fn item(name: &str, x: i32) -> HitTarget {
    HitTarget {
        rect: Rect {
            x,
            y: 300,
            width: 90,
            height: 90,
        },
        label: name.into(),
        action: ShellAction::OpenDesktopItem(
            path(&format!("/home/user/Desktop/{name}")),
            DesktopItemKind::RegularFile,
        ),
    }
}

fn shell() -> Shell {
    let mut shell = Shell::new(
        Look {
            desktop_size: (1280, 800),
            panel_size: (1280, 42),
            scale_120: 120,
            capped_task_buttons: true,
            base_width: 218,
            palette: palette(),
            background: WHITE,
        },
        Vec::new(),
    );
    shell.set_applications(
        vec![app("Browser"), app("Editor")],
        vec![145, 145],
    );
    shell.visible_targets = vec![item("one", 14), item("two", 120)];
    shell.desktop_targets = vec![item("one", 14), item("two", 120)];
    for (surface, size) in [
        (ShellSurface::Desktop, (1280, 800)),
        (ShellSurface::Panel, (1280, 42)),
    ] {
        shell.configure(surface, size);
    }
    shell
}

#[test]
fn pixels_are_filled_blended_and_outlined() {
    let red = Color {
        red: 200,
        green: 0,
        blue: 0,
        alpha: 255,
    };
    let mut canvas = vec![0; 4 * 4 * 4];
    clear(&mut canvas, WHITE);
    assert_eq!(canvas, vec![255; 64]);
    let rect = Rect {
        x: 1,
        y: 1,
        width: 2,
        height: 9,
    };
    fill_rect(&mut canvas, 4, 4, rect, red);
    assert_eq!(canvas[20..24], [0, 0, 200, 255]);
    assert_eq!(canvas[16..20], [255; 4]);
    assert_eq!(canvas[28..32], [255; 4]);
    blend_pixel(&mut canvas, 4, 4, 0, 0, red, 128);
    assert_eq!(canvas[..4], [127, 127, 227, 255]);
    blend_pixel(&mut canvas, 4, 4, 9, 9, red, 128);
    draw_outline(
        &mut canvas,
        4,
        4,
        Rect {
            x: 0,
            y: 0,
            width: 4,
            height: 4,
        },
        1,
        WHITE,
    );
    assert_eq!(canvas[..16], [255; 16]);
    assert_eq!(canvas[20..24], [0, 0, 200, 255]);
}

#[test]
fn icons_and_characters_are_drawn_pixel_by_pixel() {
    let icon = AppIcon {
        width: 1,
        height: 1,
        rgba: vec![10, 20, 30, 255],
    };
    let mut canvas = vec![0; 16];
    let whole = Rect {
        x: 0,
        y: 0,
        width: 2,
        height: 2,
    };
    draw_app_icon(&mut canvas, 2, 2, whole, &icon);
    assert_eq!(canvas, [30, 20, 10, 255].repeat(4));
    let glyph = Glyph {
        width: 2,
        height: 1,
        bitmap: vec![0, 255],
    };
    draw_glyph(&mut canvas, 2, 2, (0, 1), &glyph, WHITE);
    assert_eq!(canvas[8..12], [30, 20, 10, 255]);
    assert_eq!(canvas[12..16], [255; 4]);
}

#[test]
fn lengths_are_scaled() {
    assert_eq!(scale_coord(10, 180), 15);
    assert_eq!(scale_coord(-10, 180), -14);
    let rect = Rect {
        x: 0,
        y: 0,
        width: 10,
        height: 10,
    };
    assert_eq!(scale_rect(rect, 240).width, 20);
    assert_eq!(inset(rect, 2).width, 6);
    assert_eq!(menu_destination(10, 240, 100, 50), 20);
}

#[test]
fn the_menu_opens_and_closes() {
    let mut shell = shell();
    assert!(matches!(
        shell.activate(&ShellAction::ToggleApplications),
        Effect::Nothing
    ));
    assert!(shell.chrome.menu.menu_open);
    let labels: Vec<String> = shell
        .filtered_applications()
        .into_iter()
        .map(|application| application.name)
        .collect();
    assert_eq!(labels, ["Browser", "Editor"]);
    shell.handle_key(Key::Other, &Some("e".to_string()));
    shell.handle_key(Key::Other, &Some("d".to_string()));
    assert_eq!(shell.search, "ed");
    assert_eq!(shell.menu_listing(), [1]);
    let effect = shell.handle_key(Key::Return, &None);
    assert!(matches!(effect, Effect::LaunchApplication(1)));
    shell.handle_key(Key::Escape, &None);
    assert!(!shell.chrome.menu.menu_open);
}

#[test]
fn items_are_selected_copied_and_renamed() {
    let mut shell = shell();
    shell.select_only(path("/home/user/Desktop/one"));
    assert_eq!(
        shell.single_selected_path(),
        Some(path("/home/user/Desktop/one"))
    );
    shell.toggle_selection(path("/home/user/Desktop/two"));
    assert_eq!(shell.selected_paths().len(), 2);
    match shell.activate(&ShellAction::DesktopCut) {
        Effect::PublishClipboard(token) => {
            assert_eq!(token.operation, ClipboardOperation::Cut);
            shell.finish_clipboard(ClipboardOperation::Cut);
            let session = shell.paste_session_from_token(token).unwrap().unwrap();
            assert_eq!(session.sources.len(), 2);
        }
        other => panic!("unexpected {other:?}"),
    }
    shell.toggle_selection(path("/home/user/Desktop/two"));
    shell.activate(&ShellAction::DesktopRename);
    match &shell.context {
        ContextState::Edit(dialog) => {
            assert_eq!(dialog.input, "one");
            assert_eq!(
                dialog.operation,
                EditOperation::Rename(path("/home/user/Desktop/one"))
            );
        }
        other => panic!("unexpected {other:?}"),
    }
    shell.handle_key(Key::Escape, &None);
    assert!(!shell.context.is_visible());
}

#[test]
fn deleting_is_confirmed_item_by_item() {
    let mut shell = shell();
    shell.select_only(path("/home/user/Desktop/one"));
    assert!(matches!(
        shell.activate(&ShellAction::DesktopDelete),
        Effect::InspectDeletion
    ));
    shell.ask_deletion(vec![DeleteConsequence::RegularFile]);
    assert!(shell.context.is_dialog());
    match &shell.context {
        ContextState::Delete(dialog) => {
            assert!(dialog.confirms(0, DeleteConsequence::RegularFile));
            assert!(!dialog.confirms(0, DeleteConsequence::DirectoryTree));
        }
        other => panic!("unexpected {other:?}"),
    }
    let tree = shell.accessibility_tree(&vec![false, false]);
    assert!(tree.nodes.iter().any(|node| node.id == tree.focus));
}

#[test]
fn everything_is_drawn_and_reachable() {
    let mut shell = shell();
    assert!(!shell.draw_panel().is_empty());
    assert!(!shell.draw_desktop(&vec![false, false]).is_empty());
    shell.toggle_menu();
    let ops = shell.draw_menu(&vec![false, false]);
    assert!(ops.iter().any(|op| match op {
        DrawOp::Text { text, .. } => text == "Browser",
        _ => false,
    }));
    let tree = shell.accessibility_tree(&vec![false, false]);
    assert!(tree.nodes.iter().any(|node| node.id == ROOT_NODE));
    let node = tree
        .nodes
        .iter()
        .find(|node| node.label == "Browser")
        .unwrap();
    match &node.target {
        Some(target) => {
            let effect = shell.accessible_request(target, &AccessibleRequest::Click);
            assert!(matches!(effect, Effect::LaunchApplication(0)));
        }
        None => panic!("an application can be activated"),
    }
    assert!(matches!(
        shell.accessible_request(
            &AccessibleTarget::ApplicationSearch,
            &AccessibleRequest::SetValue("brow".to_string())
        ),
        Effect::Nothing
    ));
    assert_eq!(shell.search, "brow");
}

#[test]
fn changed_files_are_read_after_a_pause() {
    let mut shell = shell();
    let first = shell.poll(1000, None, WatchOutcome::Changed, WatchOutcome::Quiet);
    assert!(!first.rescan_applications);
    let second = shell.poll(1100, None, WatchOutcome::Quiet, WatchOutcome::Quiet);
    assert!(!second.rescan_applications);
    let third = shell.poll(1180, None, WatchOutcome::Quiet, WatchOutcome::Quiet);
    assert!(third.rescan_applications);
    assert!(!third.rescan_desktop);
    assert!(!shell.configure(ShellSurface::Panel, (1280, 42)));
    shell.set_scale(240);
    assert_eq!(shell.chrome.look.scale_120, 240);
}

#[test]
fn neighbours_stay_neighbours_when_scaled() {
    let left = Rect {
        x: 7,
        y: 0,
        width: 13,
        height: 5,
    };
    let right = Rect {
        x: 20,
        y: 0,
        width: 9,
        height: 5,
    };
    for scale in [120, 150, 161, 240] {
        let (first, second) = (scale_rect(left, scale), scale_rect(right, scale));
        assert_eq!(first.x + first.width, second.x);
    }
}

#[test]
fn dialogs_focus_and_keep_the_safe_choice() {
    let mut shell = shell();
    shell.select_only(path("/home/user/Desktop/one"));
    shell.ask_deletion(vec![DeleteConsequence::RegularFile]);
    let tree = shell.accessibility_tree(&vec![false, false]);
    let focused = tree
        .nodes
        .iter()
        .find(|node| node.id == tree.focus)
        .unwrap();
    assert!(matches!(
        &focused.target,
        Some(AccessibleTarget::Activate {
            action: ShellAction::DismissContext,
            ..
        })
    ));
    let marked = shell.draw_context().iter().any(|op| match op {
        DrawOp::Fill { color, .. } => *color == palette().destructive,
        _ => false,
    });
    assert!(marked);
    for key in [Key::Other, Key::Delete, Key::BackSpace, Key::Return] {
        assert!(matches!(
            shell.handle_key(key, &Some("y".to_string())),
            Effect::Nothing
        ));
    }
    assert!(!shell.context.is_visible());
    assert_eq!(shell.selected_paths().len(), 1);
}

#[test]
fn escape_clears_one_thing_after_the_other() {
    let mut shell = shell();
    shell.select_only(path("/home/user/Desktop/one"));
    shell.toggle_menu();
    shell.show_application_context("Browser.desktop".to_string(), 10, 10);
    assert!(shell.context.is_visible());
    shell.handle_key(Key::Escape, &None);
    assert!(!shell.context.is_visible());
    assert!(shell.chrome.menu.menu_open);
    shell.handle_key(Key::Escape, &None);
    assert!(!shell.chrome.menu.menu_open);
    assert_eq!(shell.selection.len(), 1);
    shell.handle_key(Key::Escape, &None);
    assert!(shell.selection.is_empty());
}

#[test]
fn menus_stay_on_their_surface() {
    for (origin, surface, content) in [(0, 100, 100), (500, 100, 30), (-20, 100, 30)] {
        let at = menu_destination(origin, 180, surface, content);
        assert!(at + content <= surface);
    }
}

#[test]
fn the_pointer_is_asked_for_once() {
    let mut shell = shell();
    shell.chrome.menu.menu_open = true;
    shell.chrome.menu.menu_kind = MenuKind::Window(7);
    shell.chrome.menu.awaiting_pointer = true;
    shell.chrome.menu.pointer_refresh_at = Some(100);
    let early = shell.poll(50, None, WatchOutcome::Quiet, WatchOutcome::Quiet);
    assert!(!early.refresh_pointer);
    let first = shell.poll(100, None, WatchOutcome::Quiet, WatchOutcome::Quiet);
    assert!(first.refresh_pointer);
    let second = shell.poll(200, None, WatchOutcome::Quiet, WatchOutcome::Quiet);
    assert!(!second.refresh_pointer);
}

#[test]
fn a_new_repaint_request_is_acknowledged_once() {
    let mut shell = shell();
    let first = shell.poll(
        10,
        Some("1".to_string()),
        WatchOutcome::Quiet,
        WatchOutcome::Quiet,
    );
    assert!(first.acknowledge);
    let second = shell.poll(
        20,
        Some("1".to_string()),
        WatchOutcome::Quiet,
        WatchOutcome::Failed,
    );
    assert!(!second.acknowledge);
    assert!(second.rescan_desktop);
    shell.poll(90, None, WatchOutcome::Quiet, WatchOutcome::Quiet);
    assert!(shell.chrome.dirty);
}

#[test]
fn desktop_clipboard_token_preserves_cut_semantics_without_paths() {
    let mut shell = shell();
    shell.chrome.clipboard_generation = 41;
    shell.select_only(path("/home/user/Desktop/one"));
    let token = match shell.activate(&ShellAction::DesktopCut) {
        Effect::PublishClipboard(token) => token,
        other => panic!("unexpected {other:?}"),
    };
    assert_eq!((token.schema, token.generation), (1, 42));
    assert!(!format!("{token:?}").contains("/Desktop/"));
    shell.finish_clipboard(ClipboardOperation::Cut);
    let session = shell.paste_session_from_token(token).unwrap().unwrap();
    assert_eq!(session.operation, ClipboardOperation::Cut);
    assert_eq!(session.sources, [path("/home/user/Desktop/one")]);
    let mut other = token;
    other.generation = 43;
    assert_eq!(shell.paste_session_from_token(other), Ok(None));
    other.schema = 2;
    assert_eq!(
        shell.paste_session_from_token(other),
        Err(TokenError::UnsupportedSchema)
    );
}

#[test]
fn paths_that_lead_the_same_way_are_one_item() {
    let mut shell = shell();
    shell.select_only(path("/home/user/Desktop/one"));
    shell.toggle_selection(path("/home/user//Desktop/./one/"));
    assert!(shell.selected_paths().is_empty());
    shell.select_only(path("/home/user//Desktop/one"));
    assert_eq!(shell.selected_paths(), [path("/home/user/Desktop/one")]);
    assert_eq!(
        shell.selected_item_kind(&path("/home//user/Desktop/one")),
        shell.selected_item_kind(&path("/home/user/Desktop/one"))
    );
    shell.retain_selection();
    assert_eq!(
        shell.single_selected_path(),
        Some(path("/home/user//Desktop/one"))
    );
    assert!(!path("home").same(&path("/home")));
    assert!(!path("./home").same(&path("home")));
}

#[test]
fn applications_carry_the_registration_that_they_launch() {
    let mut shell = shell();
    let mut managed = app("Managed");
    managed.id = "buzzardos-appimage-d5c17711-86d2-4989-9090-66bb94202d76.desktop".into();
    shell.set_applications(vec![app("Browser"), managed], vec![145, 145]);
    assert_eq!(
        shell.registrations,
        [None, Some("d5c17711-86d2-4989-9090-66bb94202d76".to_string())]
    );
}
