//! The shell's geometry, settings, clipboard and requests.

use buzzardos_guest::canvas::physical_size;
use buzzardos_guest::canvas::Color;
use buzzardos_guest::dialogs::delete_dialog_detail_from_consequences;
use buzzardos_guest::events::{axis_amount, parse_window_menu_request, window_menu_request};
use buzzardos_guest::menus::{
    applications_menu_height, applications_menu_width, titlebar_menu_origin, WINDOW_MENU_HEIGHT,
    WINDOW_MENU_WIDTH,
};
use buzzardos_guest::model::{Rect as ShellRect, PANEL_HEIGHT};
use buzzardos_guest::paste::{local_files, parse_uri_list, PasteRun, PasteStep, UriListError};
use buzzardos_guest::paths::FilePath;
use buzzardos_guest::pointer::{dragged, pixel, rect_between, rects_intersect};
use buzzardos_guest::settings::{PinOutcome, Settings, SettingsTracker, ThemeMode};
use buzzardos_guest::shell::CollisionChoice;
use buzzardos_guest::state::{ClipboardOperation, DeleteConsequence, PasteSession};
use buzzardos_guest::sway_ipc::Rect;

fn path(text: &str) -> FilePath {
    FilePath {
        bytes: text.as_bytes().to_vec(),
    }
}

/// A position of the pointer, in the unit of the protocol.
fn fixed(position: f64) -> i32 {
    (position * 256.0) as i32
}

#[test]
fn fractional_client_buffers_use_protocol_round_half_away() {
    assert_eq!(physical_size((1, 1), 160), (1, 1));
    assert_eq!(physical_size((2, 2), 150), (3, 3));
    assert_eq!(physical_size((3, 3), 150), (4, 4));
    assert_eq!(physical_size((1280, 800), 150), (1600, 1000));
}

#[test]
fn titlebar_context_menu_is_clamped_to_the_visible_guest_workspace() {
    assert_eq!(
        titlebar_menu_origin(
            Rect {
                x: -50,
                y: 20,
                width: 640,
                height: 480,
            },
            31,
            (1280, 800),
            Some(pixel(fixed(-50.0))),
        ),
        (0, 51)
    );
    assert_eq!(
        titlebar_menu_origin(
            Rect {
                x: 1_200,
                y: 740,
                width: 640,
                height: 480,
            },
            31,
            (1280, 800),
            Some(pixel(fixed(1_200.0))),
        ),
        (
            1_280 - WINDOW_MENU_WIDTH as i32,
            800 - PANEL_HEIGHT - WINDOW_MENU_HEIGHT as i32,
        )
    );
}

#[test]
fn titlebar_context_menu_uses_the_click_x_and_clamps_near_the_right_edge() {
    let frame = Rect {
        x: 100,
        y: 80,
        width: 900,
        height: 600,
    };
    assert_eq!(
        titlebar_menu_origin(frame, 31, (1280, 800), Some(pixel(fixed(640.75)))),
        (640, 111)
    );
    assert_eq!(
        titlebar_menu_origin(frame, 31, (800, 600), Some(pixel(fixed(790.0)))).0,
        800 - WINDOW_MENU_WIDTH as i32
    );
}

#[test]
fn applications_menu_height_fits_content_then_scrolls_at_the_output_edge() {
    assert_eq!(applications_menu_height(3, 1000), 238);
    assert_eq!(
        applications_menu_height(100, 500),
        500 - PANEL_HEIGHT as u32
    );
}

/// The width of a text where there is no font.
fn text_width(text: &str, size: f32) -> f32 {
    text.chars().count() as f32 * size * 0.62
}

fn row_width(text: &str) -> u32 {
    (text_width(text, 13.0) + 64.0).ceil() as u32
}

#[test]
fn applications_menu_width_tracks_output_and_measured_labels() {
    let header = (text_width("Applications", 17.0) + 82.0).ceil() as u32;
    let base = row_width("Search applications").max(header).max(1);
    let ordinary = applications_menu_width(&[row_width("Calculator")], base, 1600);
    let long = applications_menu_width(
        &[row_width(
            "A deliberately much longer installed application name",
        )],
        base,
        1600,
    );
    assert_eq!(ordinary, 300);
    assert!(long > ordinary);
    assert!(long <= 1600 * 2 / 3);
    assert!(applications_menu_width(&[row_width("Calculator")], base, 800) < ordinary);
}

#[test]
fn shell_control_request_carries_only_the_window_identity() {
    let request =
        parse_window_menu_request(br#"{"schema":1,"identifier":"window-id","x":712.5,"y":91.0}"#)
            .unwrap();
    assert_eq!(request, "window-id");
    assert_eq!(
        parse_window_menu_request(b"legacy-window-id").unwrap(),
        "legacy-window-id"
    );
}

#[test]
fn requests_that_are_none_are_refused() {
    assert_eq!(parse_window_menu_request(b""), None);
    assert_eq!(window_menu_request(b"plain", &None), Some("plain".into()));
    assert_eq!(parse_window_menu_request(b"\xff"), None);
    assert_eq!(
        parse_window_menu_request(br#"{"identifier":""}"#),
        Some(r#"{"identifier":""}"#.into())
    );
}

fn settings(generation: u64, theme: ThemeMode) -> Settings {
    Settings {
        generation,
        theme,
        background: Color {
            red: 1,
            green: 2,
            blue: 3,
            alpha: 255,
        },
        capped_task_buttons: true,
        pinned_applications: Vec::new(),
    }
}

#[test]
fn settings_tracker_accepts_only_new_generations_and_preserves_last_confirmed() {
    let mut tracker = SettingsTracker::new(settings(0, ThemeMode::Dark), 0);
    let light = settings(1, ThemeMode::Light);
    assert!(tracker.is_due(1_000_000));
    assert_eq!(
        tracker.candidate(Ok(light.duplicate())),
        Some(light.duplicate())
    );
    tracker.commit(light.duplicate());

    let invalid_same_generation = settings(1, ThemeMode::Dark);
    assert!(tracker.is_due(2_000_000));
    assert_eq!(tracker.candidate(Ok(invalid_same_generation)), None);
    assert_eq!(tracker.applied, light);
    assert!(tracker
        .last_error
        .as_deref()
        .is_some_and(|error| error.contains("without advancing generation")));
}

#[test]
fn settings_are_read_no_more_often_than_needed() {
    let mut tracker = SettingsTracker::new(settings(0, ThemeMode::Dark), 1_000_000);
    assert!(!tracker.is_due(1_000_000));
    assert_eq!(tracker.candidate(Err("unreadable".into())), None);
    assert_eq!(tracker.last_error.as_deref(), Some("unreadable"));
    assert_eq!(tracker.candidate(Ok(settings(0, ThemeMode::Dark))), None);
}

#[test]
fn unpinning_undoes_pinning() {
    let mut changed = settings(4, ThemeMode::Dark);
    let id = "browser.desktop".to_string();
    assert_eq!(changed.set_application_pinned(&id, true), PinOutcome::Changed);
    assert_eq!(changed.pinned_applications, ["browser.desktop"]);
    assert_eq!(changed.generation, 5);
    assert_eq!(changed.set_application_pinned(&id, true), PinOutcome::Unchanged);
    assert_eq!(changed.set_application_pinned(&id, false), PinOutcome::Changed);
    assert!(changed.pinned_applications.is_empty());
    let mut last = settings(u64::MAX, ThemeMode::Dark);
    assert_eq!(
        last.set_application_pinned(&id, true),
        PinOutcome::GenerationOverflow
    );
}

#[test]
fn desktop_uri_clipboard_accepts_only_local_file_uris() {
    let uris = parse_uri_list(b"# comment\r\nfile:///tmp/odd%20name.txt\r\n").unwrap();
    assert_eq!(uris, ["file:///tmp/odd%20name.txt"]);
    assert_eq!(
        local_files(&uris, &vec![Some(path("/tmp/odd name.txt"))]).unwrap(),
        vec![path("/tmp/odd name.txt")]
    );
    let remote = parse_uri_list(b"https://example.invalid/file\r\n").unwrap();
    assert_eq!(
        local_files(&remote, &vec![None]),
        Err(UriListError::NotLocal)
    );
    assert_eq!(
        parse_uri_list(b"file:///tmp/valid\0file:///tmp/hidden"),
        Err(UriListError::HoldsNul)
    );
    assert_eq!(
        parse_uri_list(b"file:///tmp/\xff\r\n"),
        Err(UriListError::NotText)
    );
    assert_eq!(
        local_files(&uris, &vec![None]),
        Err(UriListError::NoLocalPath)
    );
    assert_eq!(
        local_files(&uris, &vec![Some(path("relative"))]),
        Err(UriListError::NotAbsolute)
    );
}

#[test]
fn rubber_band_geometry_is_direction_independent() {
    let first = (fixed(10.2), fixed(15.7));
    let second = (fixed(90.1), fixed(110.9));
    let forward = rect_between(first, second);
    assert_eq!(forward, rect_between(second, first));
    assert!(rects_intersect(
        forward,
        ShellRect {
            x: 80,
            y: 100,
            width: 30,
            height: 30,
        }
    ));
    assert!(!rects_intersect(
        forward,
        ShellRect {
            x: 100,
            y: 120,
            width: 30,
            height: 30,
        }
    ));
}

#[test]
fn dragging_begins_after_some_pixels() {
    assert!(!dragged((fixed(10.0), fixed(10.0)), (fixed(12.0), fixed(12.0))));
    assert!(dragged((fixed(10.0), fixed(10.0)), (fixed(30.0), fixed(10.0))));
}

#[test]
fn delete_confirmation_distinguishes_shortcuts_links_and_directory_trees() {
    let detail = |name: &str, consequence: DeleteConsequence| {
        delete_dialog_detail_from_consequences(
            &vec![path(&format!("/home/user/Desktop/{name}"))],
            &vec![consequence],
        )
    };
    assert!(detail("Browser.desktop", DeleteConsequence::ShortcutOnly).contains("only the shortcut"));
    assert!(detail("Folder", DeleteConsequence::DirectoryTree).contains("everything inside"));
    assert!(detail("Folder link", DeleteConsequence::LinkOnly).contains("link only"));
    assert_eq!(
        detail("Folder", DeleteConsequence::DirectoryTree),
        "This permanently deletes \u{2018}Folder\u{2019} and everything inside it."
    );
    assert_eq!(
        detail("note.txt", DeleteConsequence::RegularFile),
        "This permanently deletes \u{2018}note.txt\u{2019}."
    );
}

#[test]
fn delete_confirmation_counts_what_is_deleted() {
    let items = vec![path("/home/user/Desktop/one"), path("/home/user/Desktop/two")];
    assert_eq!(
        delete_dialog_detail_from_consequences(
            &items,
            &vec![
                DeleteConsequence::DirectoryTree,
                DeleteConsequence::ShortcutOnly,
            ],
        ),
        "This permanently removes 2 selected items (1 shortcuts, 0 links, 1 folders). Shortcut and \
         link targets are not deleted; folder contents are."
    );
}

#[test]
fn every_collision_is_asked_about() {
    let desktop = path("/home/user/Desktop");
    let mut run = PasteRun {
        session: PasteSession {
            operation: ClipboardOperation::Copy,
            sources: vec![path("/tmp/one"), path("/tmp/two")],
            index: 0,
        },
        choice: None,
    };
    assert_eq!(run.step(&desktop, true), PasteStep::Ask);
    run.choice = Some(CollisionChoice::KeepBoth);
    assert_eq!(
        run.step(&desktop, true),
        PasteStep::Transfer(CollisionChoice::KeepBoth)
    );
    run.advance(true);
    assert_eq!(run.session.index, 1);
    assert_eq!(run.step(&desktop, true), PasteStep::Ask);
    run.advance(true);
    assert_eq!(run.step(&desktop, true), PasteStep::Finished);
}

#[test]
fn a_file_that_is_cut_where_it_is_stays() {
    let desktop = path("/home/user/Desktop");
    let run = PasteRun {
        session: PasteSession {
            operation: ClipboardOperation::Cut,
            sources: vec![path("/home/user/Desktop/one")],
            index: 0,
        },
        choice: None,
    };
    assert_eq!(run.step(&desktop, true), PasteStep::Skip);
}

#[test]
fn scrolling_goes_by_what_the_wheel_reports() {
    assert!(axis_amount(120, 0, 0) > 0);
    assert!(axis_amount(0, -1, 0) < 0);
    assert_eq!(axis_amount(0, 0, 0), 0);
}
