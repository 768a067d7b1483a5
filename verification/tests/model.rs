//! Workspaces, panels and menus.

use buzzardos_guest::model::{
    application_context_targets, applications_menu_close_target, builtin_desktop_targets,
    is_cua_workspace, menu_targets, next_manual_workspace, panel_targets, taskbar_max_offset,
    top_bar_targets, window_menu_height, window_menu_targets, workspace_index,
    workspace_menu_targets, workspace_name, Application, GuestWindow, ShellAction, WorkspaceTab,
    MANUAL_WORKSPACE_FLAG, TASK_PAGE_STEP,
};
use buzzardos_guest::paths::FilePath;

fn app(name: &str) -> Application {
    Application {
        id: format!("{name}.desktop"),
        name: name.to_owned(),
        generic_name: None,
        icon: None,
        categories: Vec::new(),
        source: FilePath { bytes: Vec::new() },
    }
}

#[test]
fn cua_and_manual_workspace_identities_do_not_overlap() {
    assert_eq!(workspace_index("Desktop"), Some(0));
    assert_eq!(workspace_index("CUA"), Some(1));
    assert_eq!(workspace_index("CUA19"), Some(19));
    assert_eq!(
        workspace_index("Workspace1"),
        Some(MANUAL_WORKSPACE_FLAG | 1)
    );
    assert_eq!(workspace_name(MANUAL_WORKSPACE_FLAG | 7), "Workspace7");
    assert!(is_cua_workspace(1));
    assert!(!is_cua_workspace(MANUAL_WORKSPACE_FLAG | 1));
}

#[test]
fn plus_allocates_only_the_next_manual_workspace() {
    let workspaces = vec![
        WorkspaceTab {
            index: 0,
            label: "Desktop".into(),
            active: true,
        },
        WorkspaceTab {
            index: 8,
            label: "CUA8".into(),
            active: false,
        },
        WorkspaceTab {
            index: MANUAL_WORKSPACE_FLAG | 2,
            label: "Workspace2".into(),
            active: false,
        },
    ];
    assert_eq!(
        next_manual_workspace(&workspaces),
        MANUAL_WORKSPACE_FLAG | 3
    );
}

#[test]
fn top_bar_keeps_selectors_and_plus_adjacent() {
    let workspaces = vec![
        WorkspaceTab {
            index: 0,
            label: "Desktop".into(),
            active: true,
        },
        WorkspaceTab {
            index: 1,
            label: "CUA".into(),
            active: false,
        },
    ];
    let targets = top_bar_targets(640, &workspaces);
    assert_eq!(targets.len(), 3);
    assert!(matches!(targets[0].action, ShellAction::SwitchWorkspace(0)));
    assert!(matches!(targets[1].action, ShellAction::SwitchWorkspace(1)));
    assert_eq!(targets[2].action, ShellAction::CreateWorkspace);
    assert_eq!(targets[1].rect.x + targets[1].rect.width, targets[2].rect.x);
}

#[test]
fn application_context_matches_gnozzard_menu_ownership() {
    let application = app("Fixture");
    let managed = application_context_targets(&application, false, true)
        .into_iter()
        .map(|target| target.label)
        .collect::<Vec<_>>();
    assert_eq!(
        managed,
        [
            "Open",
            "Extract and Run",
            "Extract and Run --no-sandbox",
            "Pin",
            "Add to Desktop",
            "Rename…",
            "Delete from Applications",
        ]
    );

    let ordinary = application_context_targets(&application, true, false)
        .into_iter()
        .map(|target| target.label)
        .collect::<Vec<_>>();
    assert_eq!(ordinary, ["Open", "Unpin", "Add to Desktop"]);
}

#[test]
fn taskbar_has_one_simple_button_per_visible_window() {
    let windows = vec![
        GuestWindow {
            id: 10,
            title: "Browser".into(),
            ..GuestWindow::default()
        },
        GuestWindow {
            id: 20,
            title: "Editor".into(),
            ..GuestWindow::default()
        },
    ];
    let targets = panel_targets(1280, &windows, 0, true);
    let actions: Vec<_> = targets
        .iter()
        .filter_map(|target| match target.action {
            ShellAction::ActivateWindow(id) => Some(id),
            _ => None,
        })
        .collect();
    assert_eq!(actions, [10, 20]);
    assert!(!targets.iter().any(|target| matches!(
        target.action,
        ShellAction::OpenFiles | ShellAction::OpenShared
    )));
    assert!(!targets
        .iter()
        .any(|target| target.label.contains("Minimize")
            || target.label.contains("Maximize")
            || target.label.contains("Close")));
    let show_desktop = targets.last().expect("show-desktop target");
    assert_eq!(show_desktop.action, ShellAction::ShowDesktop);
    assert_eq!(show_desktop.rect.x + show_desktop.rect.width, 1280);
}

#[test]
fn capped_taskbar_pages_by_five_only_after_minimum_width_is_exhausted() {
    let windows = (0..10)
        .map(|index| GuestWindow {
            id: index + 1,
            title: format!("Window {}", index + 1),
            ..GuestWindow::default()
        })
        .collect::<Vec<_>>();
    let first = panel_targets(640, &windows, 0, true);
    assert!(first
        .iter()
        .any(|target| target.action == ShellAction::TaskbarPrevious));
    assert!(first
        .iter()
        .any(|target| target.action == ShellAction::TaskbarNext));
    let first_ids = first
        .iter()
        .filter_map(|target| match target.action {
            ShellAction::ActivateWindow(id) => Some(id),
            _ => None,
        })
        .collect::<Vec<_>>();
    let second_ids = panel_targets(640, &windows, TASK_PAGE_STEP, true)
        .into_iter()
        .filter_map(|target| match target.action {
            ShellAction::ActivateWindow(id) => Some(id),
            _ => None,
        })
        .collect::<Vec<_>>();
    assert_eq!(first_ids, [1, 2, 3, 4]);
    assert_eq!(second_ids, [6, 7, 8, 9]);
    let applications = &first[0];
    let previous = first
        .iter()
        .find(|target| target.action == ShellAction::TaskbarPrevious)
        .expect("previous-page target");
    let next = first
        .iter()
        .find(|target| target.action == ShellAction::TaskbarNext)
        .expect("next-page target");
    assert_eq!(
        applications.rect.x + applications.rect.width,
        previous.rect.x
    );
    assert_eq!(previous.rect.x + previous.rect.width, next.rect.x);
    assert!(first_ids.iter().all(|id| {
        first
            .iter()
            .find(|target| target.action == ShellAction::ActivateWindow(*id))
            .is_some_and(|target| target.rect.x >= next.rect.x + next.rect.width)
    }));

    let fitting = panel_targets(640, &windows[..5], 0, true);
    assert!(!fitting.iter().any(|target| matches!(
        target.action,
        ShellAction::TaskbarPrevious | ShellAction::TaskbarNext
    )));
    for pair in fitting.windows(2) {
        if !matches!(pair[1].action, ShellAction::ShowDesktop) {
            assert_eq!(pair[0].rect.x + pair[0].rect.width, pair[1].rect.x);
        }
    }
}

#[test]
fn classic_menu_contains_applications_but_no_host_lifecycle_actions() {
    let targets = menu_targets(300, 208, &[app("Browser")], 0);
    assert_eq!(
        targets
            .iter()
            .filter(|target| matches!(target.action, ShellAction::LaunchApplication(_)))
            .count(),
        1
    );
    assert!(!targets.iter().any(|target| {
        matches!(
            target.action,
            ShellAction::OpenFiles | ShellAction::OpenShared
        )
    }));
}

#[test]
fn applications_menu_close_target_tracks_the_responsive_width() {
    let target = applications_menu_close_target(287);
    assert_eq!(target.action, ShellAction::CloseApplicationsMenu);
    assert_eq!(target.rect.x + target.rect.width, 287);
}

#[test]
fn applications_menu_can_have_no_visual_rows_on_an_extremely_short_output() {
    let targets = menu_targets(220, 120, &[app("Browser")], 0);
    assert!(targets
        .iter()
        .all(|target| !matches!(target.action, ShellAction::LaunchApplication(_))));
    assert!(targets.is_empty());
}

#[test]
fn task_context_menu_exposes_complete_window_controls() {
    let window = GuestWindow {
        id: 42,
        title: "Editor".into(),
        maximized: false,
        ..GuestWindow::default()
    };
    let targets = window_menu_targets(&window, &[]);
    assert_eq!(
        targets
            .iter()
            .map(|target| target.label.as_str())
            .collect::<Vec<_>>(),
        ["Focus", "Bring Into View", "Minimize", "Maximize", "Close",]
    );
    let maximized = GuestWindow {
        maximized: true,
        ..window
    };
    assert_eq!(window_menu_targets(&maximized, &[])[3].label, "Restore");
    let minimized = GuestWindow {
        minimized: true,
        maximized: false,
        ..maximized
    };
    assert_eq!(window_menu_targets(&minimized, &[])[3].label, "Restore");
}

#[test]
fn desktop_has_files_and_shared_shortcuts() {
    let labels: Vec<_> = builtin_desktop_targets()
        .into_iter()
        .map(|target| target.label)
        .collect();
    assert_eq!(labels, ["Files", "Shared"]);
}

#[test]
fn workspace_names_lead_back_to_their_numbers() {
    for index in [0, 1, 2, 19, MANUAL_WORKSPACE_FLAG | 1, MANUAL_WORKSPACE_FLAG | 40] {
        assert_eq!(workspace_index(&workspace_name(index)), Some(index));
    }
    for name in ["", "desktop", "CUA0", "CUA01", "Workspace", "Workspace0", "CUA-1"] {
        assert_eq!(workspace_index(name), None, "{name}");
    }
}

#[test]
fn taskbar_offset_ends_with_the_last_window() {
    assert_eq!(taskbar_max_offset(640, 3, true), 0);
    let last = taskbar_max_offset(640, 10, true);
    assert!(last > 0 && last < 10);
    let windows = (0..10)
        .map(|index| GuestWindow {
            id: index + 1,
            ..GuestWindow::default()
        })
        .collect::<Vec<_>>();
    let shown = panel_targets(640, &windows, last, true);
    assert!(shown
        .iter()
        .any(|target| target.action == ShellAction::ActivateWindow(10)));
}

#[test]
fn menus_of_windows_and_workspaces_have_their_rows() {
    let window = GuestWindow {
        id: 1,
        ..GuestWindow::default()
    };
    let rows = window_menu_targets(&window, &[]).len() as u32;
    assert!(window_menu_height(&window, &[]) > rows);
    assert!(!workspace_menu_targets(MANUAL_WORKSPACE_FLAG | 1).is_empty());
}

#[test]
fn panels_and_menus_show_no_more_than_fits() {
    let windows = (0..12)
        .map(|index| GuestWindow {
            id: index + 1,
            ..GuestWindow::default()
        })
        .collect::<Vec<_>>();
    let last = taskbar_max_offset(640, windows.len(), true);
    let labels = |offset: usize| {
        panel_targets(640, &windows, offset, true)
            .into_iter()
            .map(|target| target.action)
            .collect::<Vec<_>>()
    };
    assert_eq!(labels(last), labels(last + 100));
    let applications = (0..40)
        .map(|index| app(&format!("App {index}")))
        .collect::<Vec<_>>();
    let rows = menu_targets(300, 400, &applications, 3);
    assert!(!rows.is_empty());
    for (at, row) in rows.iter().enumerate() {
        assert_eq!(row.rect.y, 80 + at as i32 * 36);
        assert!(row.rect.y + row.rect.height + 50 <= 400);
    }
    assert_eq!(
        rows[0].action,
        ShellAction::LaunchApplication("App 3.desktop".into())
    );
}
