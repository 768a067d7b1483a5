//! The window manager's tree, and what it is told.

use buzzardos_guest::canvas::Color;
use buzzardos_guest::json::parse_json;
use buzzardos_guest::marks::{parse_restore_mark, restore_mark};
use buzzardos_guest::state::ThemePalette;
use buzzardos_guest::sway_ipc::{parse_tree, OutputState, Rect, WindowState, WorkspaceState};
use buzzardos_guest::windows::{
    can_be_clamped, clamp_to_workspace, constrain_new_window, frame_commands, maximize, minimize,
    minimize_all_visible, restore, toggle_maximize, Confirm, Stage, Step,
};
use buzzardos_guest::workspaces::{
    accepted, close_workspace, css, desktop_output, ensure_numbered_workspace,
    evacuate_workspace, is_event, list_outputs, list_workspaces, move_to_desktop,
    move_window_to_workspace, quote_sway, read_ipc_message, switch_workspace, switch_workspace_unlocked,
    theme_command, MessageError, Switch, SwitchPlan, WorkspaceError,
};

fn color(red: u8, green: u8, blue: u8) -> Color {
    Color {
        red,
        green,
        blue,
        alpha: 255,
    }
}

fn palette(focus: Color, text: Color) -> ThemePalette {
    let plain = color(0x20, 0x21, 0x22);
    ThemePalette {
        canvas: plain,
        surface: plain,
        raised: plain,
        menu: plain,
        border: plain,
        text,
        text_secondary: text,
        text_muted: text,
        selection: plain,
        selected_text: text,
        hover: plain,
        focus,
        destructive: color(0x90, 0x10, 0x10),
        destructive_icon: color(0x90, 0x10, 0x10),
        folder: plain,
        folder_tab: plain,
    }
}

#[test]
fn decoration_commands_change_only_typed_palette_values() {
    let dark = theme_command(&palette(color(0xff, 0x9b, 0x73), color(0xe8, 0xe8, 0xe8)));
    let light = theme_command(&palette(color(0xb5, 0x3b, 0x12), color(0x22, 0x22, 0x22)));
    for command in [
        "client.focused",
        "client.focused_inactive",
        "client.unfocused",
        "client.urgent",
    ] {
        assert!(dark.contains(command));
        assert!(light.contains(command));
    }
    assert!(dark.contains("#ff9b73"));
    assert!(light.contains("#b53b12"));
    assert!(!dark.contains("#ffffff"));
    assert!(!light.contains("#ffffff"));
}

#[test]
fn parses_exact_identifiers_and_scratchpad_state() {
    let tree = br#"{
          "type":"root",
          "nodes":[{
            "type":"output",
            "nodes":[{
              "type":"workspace",
              "name":"1",
              "rect":{"x":0,"y":0,"width":1707,"height":1025},
              "floating_nodes":[{
                "id":7,
                "foreign_toplevel_identifier":"visible-id",
                "rect":{"x":0,"y":25,"width":1707,"height":1000},
                "deco_rect":{"x":0,"y":0,"width":1707,"height":25},
                "marks":["__buzzardos_restore_v1_7_200_100_900_700"],
                "scratchpad_state":"none",
                "focused":true,
                "visible":true
              }]
            }]
          },{
            "type":"output",
            "nodes":[{
              "type":"workspace",
              "name":"__i3_scratch",
              "floating_nodes":[{
                "id":8,
                "foreign_toplevel_identifier":"hidden-id",
                "rect":{"x":50,"y":70,"width":800,"height":600},
                "deco_rect":{"x":50,"y":45,"width":800,"height":25},
                "scratchpad_state":"fresh",
                "visible":false
              }]
            }]
          }]
        }"#;
    let windows = parse_tree(tree).expect("parse tree");
    assert_eq!(windows.len(), 2);
    assert!(windows[0].focused);
    assert!(windows[0].maximized);
    assert!(!windows[0].minimized);
    assert_eq!(
        windows[0].rect,
        Rect {
            x: 0,
            y: 0,
            width: 1707,
            height: 1025,
        }
    );
    assert_eq!(windows[0].container_id, 7);
    assert_eq!(windows[0].decoration_height, 25);
    assert!(windows[1].minimized);
    assert!(!windows[1].maximized);
}

#[test]
fn nonzero_workspace_geometry_uses_absolute_outer_frame_and_restore_mark() {
    let tree = br#"{
          "type":"root","rect":{"x":0,"y":0,"width":2880,"height":900},
          "nodes":[{"type":"output","rect":{"x":1600,"y":0,"width":1280,"height":900},
            "nodes":[{"type":"workspace","name":"1",
              "rect":{"x":1600,"y":0,"width":1280,"height":858},
              "floating_nodes":[{
                "id":19,"foreign_toplevel_identifier":"xwayland-id",
                "rect":{"x":1600,"y":25,"width":1280,"height":833},
                "deco_rect":{"x":0,"y":0,"width":1280,"height":25},
                "marks":["__buzzardos_restore_v1_19_1720_90_800_600"],
                "scratchpad_state":"none","fullscreen_mode":0
              }]
            }]
          }]
        }"#;
    let window = parse_tree(tree).unwrap().remove(0);
    assert_eq!(
        window.rect,
        Rect {
            x: 1600,
            y: 0,
            width: 1280,
            height: 858,
        }
    );
    assert_eq!(window.rect, window.workspace_rect.unwrap());
    assert!(window.maximized);
    assert_eq!(
        window.restore_frame,
        Some(Rect {
            x: 1720,
            y: 90,
            width: 800,
            height: 600,
        })
    );
}

#[test]
fn frame_mutation_uses_root_absolute_coordinates() {
    let mut commands = Vec::new();
    frame_commands(
        Rect {
            x: 1600,
            y: 12,
            width: 1280,
            height: 846,
        },
        &mut commands,
    );
    assert_eq!(
        commands,
        [
            "fullscreen disable",
            "floating enable",
            "resize set width 1280 px height 846 px",
            "move absolute position 1600 px 12 px",
        ]
    );
}

#[test]
fn restore_frame_is_clamped_into_resized_usable_workspace() {
    assert_eq!(
        clamp_to_workspace(
            Rect {
                x: 1500,
                y: -20,
                width: 1400,
                height: 900,
            },
            Rect {
                x: 1600,
                y: 0,
                width: 1000,
                height: 700,
            },
        ),
        Rect {
            x: 1600,
            y: 0,
            width: 1000,
            height: 700,
        }
    );
}

#[test]
fn offscreen_window_is_clamped_back_into_the_usable_workspace() {
    assert_eq!(
        clamp_to_workspace(
            Rect {
                x: 1900,
                y: 900,
                width: 640,
                height: 480,
            },
            Rect {
                x: 0,
                y: 0,
                width: 1600,
                height: 958,
            },
        ),
        Rect {
            x: 960,
            y: 478,
            width: 640,
            height: 480,
        }
    );
}

#[test]
fn a_workspace_sized_window_without_our_restore_mark_is_not_maximized() {
    let tree = br#"{
          "type":"root","nodes":[{"type":"output","nodes":[{
            "type":"workspace","name":"1","rect":{"x":0,"y":0,"width":800,"height":558},
            "floating_nodes":[{
              "id":4,"foreign_toplevel_identifier":"plain",
              "rect":{"x":0,"y":25,"width":800,"height":533},
              "deco_rect":{"x":0,"y":0,"width":800,"height":25},
              "marks":[],"scratchpad_state":"none"
            }]
          }]}]
        }"#;
    let window = parse_tree(tree).unwrap().remove(0);
    assert_eq!(window.rect, window.workspace_rect.unwrap());
    assert!(!window.maximized);
}

fn window(identifier: &str, container_id: u64) -> WindowState {
    WindowState {
        identifier: identifier.into(),
        container_id,
        pid: 1,
        rect: Rect {
            x: 10,
            y: 20,
            width: 300,
            height: 200,
        },
        workspace_rect: Some(Rect {
            x: 0,
            y: 0,
            width: 1000,
            height: 700,
        }),
        workspace: "Desktop".into(),
        output: "HEADLESS-1".into(),
        focused: false,
        scratchpad: false,
        minimized: false,
        maximized: false,
        fullscreen: false,
        decoration_height: 25,
        restore_frame: None,
        restore_marks: Vec::new(),
    }
}

#[test]
fn marks_give_back_the_frame_of_their_own_window() {
    let frame = Rect {
        x: -5,
        y: 90,
        width: 800,
        height: 600,
    };
    let mark = restore_mark(19, frame);
    assert_eq!(mark, "__buzzardos_restore_v1_19_-5_90_800_600");
    assert_eq!(parse_restore_mark(&mark, 19), Some(frame));
    assert_eq!(parse_restore_mark(&mark, 20), None);
    assert_eq!(parse_restore_mark(&"__other".to_string(), 19), None);
}

#[test]
fn a_tree_that_is_no_document_is_refused() {
    assert!(parse_tree(b"{").is_none());
    assert!(parse_tree(b"[]").is_some_and(|windows| windows.is_empty()));
}

#[test]
fn maximizing_remembers_the_frame() {
    let state = window("one", 7);
    assert!(!toggle_maximize(&state));
    match maximize(Stage::Start, &state) {
        Step::Run { commands, .. } => {
            let mark = restore_mark(7, state.rect);
            assert!(commands.iter().any(|command| command.contains(&mark)));
        }
        _ => panic!("a window on a workspace can be maximized"),
    }
    let mut nowhere = window("one", 7);
    nowhere.workspace_rect = None;
    assert!(matches!(maximize(Stage::Start, &nowhere), Step::NoWorkspace));
}

#[test]
fn minimizing_ends_where_the_window_is_minimized() {
    let mut state = window("one", 7);
    match minimize(&state) {
        Step::Run { confirm, .. } => {
            assert_eq!(confirm, Confirm::Minimized);
            assert!(!confirm.holds(&state));
            state.minimized = true;
            state.scratchpad = true;
            assert!(confirm.holds(&state));
        }
        _ => panic!("a visible window can be minimized"),
    }
    assert!(minimize_all_visible(&vec![state]).is_none());
    let (command, identifiers) = minimize_all_visible(&vec![window("two", 8)]).unwrap();
    assert!(command.contains("[con_id=8]"));
    assert_eq!(identifiers, ["two"]);
}

#[test]
fn a_new_window_that_fits_stays() {
    assert!(matches!(constrain_new_window(&window("one", 7)), Step::Done));
    let mut outside = window("one", 7);
    outside.rect.x = 5000;
    assert!(matches!(constrain_new_window(&outside), Step::Run { .. }));
}

#[test]
fn names_are_quoted_and_others_refused() {
    assert_eq!(quote_sway("CUA 2_a-b").unwrap(), "\"CUA 2_a-b\"");
    for name in ["", "a\nb", "a\"b", "a;b"] {
        assert_eq!(quote_sway(name), Err(WorkspaceError::UnsafeName));
    }
}

#[test]
fn replies_are_accepted_only_when_all_succeeded() {
    let reply = |text: &str| parse_json(text.as_bytes()).unwrap();
    assert!(accepted(&reply(r#"[{"success":true}]"#)));
    assert!(!accepted(&reply(r#"[{"success":true},{"success":false}]"#)));
    assert!(!accepted(&reply("[]")));
    assert!(!accepted(&reply("{}")));
}

#[test]
fn workspaces_are_listed_by_name_and_outputs_by_place() {
    let reply = parse_json(
        br#"[{"name":"b","output":"X","focused":true,"visible":true,
             "rect":{"x":0,"y":0,"width":10,"height":20}},
            {"name":"a","output":"Y","focused":false,"visible":false,
             "rect":{"x":10,"y":0,"width":10,"height":20}}]"#,
    )
    .unwrap();
    let names: Vec<_> = list_workspaces(&reply)
        .unwrap()
        .into_iter()
        .map(|workspace| workspace.name)
        .collect();
    assert_eq!(names, ["a", "b"]);
    assert!(list_workspaces(&parse_json(b"{}").unwrap()).is_none());
    assert!(list_outputs(&parse_json(b"{}").unwrap(), &Vec::new()).is_none());
}

#[test]
fn messages_are_framed() {
    let mut header = b"i3-ipc".to_vec();
    header.extend_from_slice(&5u32.to_ne_bytes());
    header.extend_from_slice(&0u32.to_ne_bytes());
    assert_eq!(read_ipc_message(&header, 5), Ok(5));
    assert_eq!(
        read_ipc_message(&header, u32::MAX),
        Err(MessageError::Length)
    );
    header[0] = b'x';
    assert_eq!(read_ipc_message(&header, 5), Err(MessageError::Magic));
    assert!(is_event(0x8000_0003));
    assert!(!is_event(3));
}

#[test]
fn colours_are_written_in_hexadecimal() {
    assert_eq!(css(color(0xff, 0x9b, 0x03)), "#ff9b03");
}

fn output(id: u64, name: &str, x: i32, active: bool) -> OutputState {
    OutputState {
        id,
        name: name.into(),
        active,
        rect: Rect {
            x,
            y: 0,
            width: 1000,
            height: 700,
        },
        physical_width: 0,
        physical_height: 0,
        refresh_millihz: 60000,
        scale_milli: 1000,
    }
}

#[test]
fn new_outputs_lie_beside_the_others() {
    let before = vec![output(9, "B", 1000, true), output(4, "A", 0, true), output(1, "C", 0, false)];
    assert_eq!(desktop_output(&before).unwrap(), "A");
    assert_eq!(
        desktop_output(&vec![output(1, "C", 0, false)]),
        Err(WorkspaceError::NoActiveOutput)
    );
    let mut after = before.clone();
    after.push(output(12, "HEADLESS-2", 0, true));
    let command = ensure_numbered_workspace(
        3,
        &before,
        &after,
        &"A".to_string(),
        &"Desktop".to_string(),
    )
    .unwrap();
    assert!(command.contains("HEADLESS-2"));
    assert!(command.contains("CUA3"));
    assert!(command.contains("2000"));
    assert_eq!(
        ensure_numbered_workspace(
            3,
            &before,
            &before,
            &"A".to_string(),
            &"Desktop".to_string()
        ),
        Err(WorkspaceError::NoNewOutput)
    );
}

fn workspace(name: &str, output: &str, visible: bool) -> WorkspaceState {
    WorkspaceState {
        name: name.into(),
        output: output.into(),
        focused: visible,
        visible,
        rect: Rect {
            x: 0,
            y: 0,
            width: 1000,
            height: 700,
        },
    }
}

#[test]
fn switching_locks_the_seats_that_it_touches() {
    let outputs = vec![output(4, "A", 0, true), output(9, "B", 1000, true)];
    let workspaces = vec![workspace("CUA7", "A", true), workspace("CUA2", "B", true)];
    match switch_workspace("CUA2", &outputs, &workspaces).unwrap() {
        SwitchPlan::Switch {
            host_output,
            current,
            seats,
        } => {
            assert_eq!((host_output.as_str(), current.as_str()), ("A", "CUA7"));
            assert_eq!(seats, [2, 7]);
        }
        SwitchPlan::Nothing => panic!("another workspace is shown"),
    }
    assert!(matches!(
        switch_workspace("CUA7", &outputs, &workspaces),
        Ok(SwitchPlan::Nothing)
    ));
    assert!(matches!(
        switch_workspace("CUA7", &Vec::new(), &workspaces),
        Err(WorkspaceError::NoActiveOutput)
    ));
    assert!(matches!(
        switch_workspace("CUA7", &outputs, &Vec::new()),
        Err(WorkspaceError::NoVisibleWorkspace)
    ));
    match switch_workspace_unlocked("CUA2", "A", "CUA7", &workspaces).unwrap() {
        Switch::Swap(command) => assert_eq!(
            command,
            "workspace \"CUA2\"; move workspace to output \"A\"; workspace \"CUA7\"; move workspace to output \"B\"; workspace \"CUA2\""
        ),
        Switch::Show(_) => panic!("the workspace is elsewhere"),
    }
    assert!(matches!(
        switch_workspace_unlocked("gone", "A", "CUA7", &workspaces),
        Err(WorkspaceError::UnknownWorkspace)
    ));
}

#[test]
fn restoring_undoes_maximizing() {
    let mut state = window("one", 7);
    let frame = state.rect;
    let workspace = state.workspace_rect.unwrap();
    let Step::Run { confirm, .. } = maximize(Stage::Start, &state) else {
        panic!("a window on a workspace can be maximized");
    };
    state.rect = workspace;
    state.maximized = true;
    assert!(confirm.holds(&state));
    let mark = restore_mark(7, frame);
    state.restore_frame = parse_restore_mark(&mark, 7);
    state.restore_marks = vec![mark.clone()];
    assert_eq!(state.restore_frame, Some(frame));
    assert!(can_be_clamped(&state));
    let Step::Run {
        commands,
        confirm,
        next,
    } = restore(Stage::Start, &state)
    else {
        panic!("a maximized window can be restored");
    };
    let mut expected = vec![format!("unmark {mark}")];
    frame_commands(frame, &mut expected);
    expected.push("focus".into());
    assert_eq!(commands, expected);
    assert_eq!(confirm, Confirm::Restored);
    assert_eq!(next, None);
    state.workspace_rect = Some(Rect {
        x: 0,
        y: 0,
        width: 0,
        height: 10,
    });
    assert!(!can_be_clamped(&state));
}

#[test]
fn a_window_counts_as_moved_once_the_tree_shows_it_there() {
    let Ok(Step::Run {
        commands,
        confirm,
        next,
    }) = move_window_to_workspace("CUA 2", true)
    else {
        panic!("a safe name can be moved to");
    };
    assert_eq!(
        commands,
        [
            "move container to workspace \"CUA 2\"",
            "workspace \"CUA 2\"",
            "focus",
        ]
    );
    assert_eq!(confirm, Confirm::OnWorkspace("CUA 2".into()));
    assert_eq!(next, None);
    let mut state = window("one", 7);
    state.workspace = "Desktop".into();
    assert!(!confirm.holds(&state));
    state.workspace = "CUA 2".into();
    assert!(confirm.holds(&state));
    match move_window_to_workspace("CUA 2", false) {
        Ok(Step::Run { commands, .. }) => {
            assert_eq!(commands, ["move container to workspace \"CUA 2\""]);
        }
        _ => panic!("a safe name can be moved to"),
    }
    assert!(matches!(
        move_window_to_workspace("CUA;2", false),
        Err(WorkspaceError::UnsafeName)
    ));
}

#[test]
fn windows_leave_a_workspace_before_its_output_is_taken_away() {
    let name = buzzardos_guest::model::workspace_name(2);
    let listed = vec![
        workspace("Desktop", "HEADLESS-1", true),
        workspace(&name, "HEADLESS-2", true),
    ];
    assert_eq!(close_workspace(2, &listed, "HEADLESS-1"), Ok(false));
    assert_eq!(close_workspace(2, &listed, "HEADLESS-2"), Ok(true));
    assert_eq!(
        close_workspace(0, &listed, "HEADLESS-1"),
        Err(WorkspaceError::DesktopIsFixed)
    );
    assert_eq!(
        close_workspace(3, &listed, "HEADLESS-1"),
        Err(WorkspaceError::UnknownWorkspace)
    );
    let on = |identifier: &str, container_id: u64, workspace: &str| {
        let mut state = window(identifier, container_id);
        state.workspace = workspace.into();
        state
    };
    let before = vec![on("one", 7, &name), on("two", 8, "Desktop"), on("three", 9, &name)];
    assert_eq!(
        evacuate_workspace(2, &listed, "HEADLESS-2", &before),
        Err(WorkspaceError::HostOutput)
    );
    assert_eq!(
        evacuate_workspace(0, &listed, "HEADLESS-2", &before),
        Err(WorkspaceError::DesktopIsFixed)
    );
    assert_eq!(
        evacuate_workspace(3, &listed, "HEADLESS-1", &before),
        Err(WorkspaceError::UnknownWorkspace)
    );
    let mut leaving = evacuate_workspace(2, &listed, "HEADLESS-1", &before).unwrap();
    assert_eq!(leaving.output, "HEADLESS-2");
    let waiting: Vec<(&str, u64)> = leaving
        .waiting
        .iter()
        .map(|window| (window.identifier.as_str(), window.container_id))
        .collect();
    assert_eq!(waiting, [("one", 7), ("three", 9)]);
    let Step::Run {
        commands, confirm, ..
    } = move_to_desktop()
    else {
        panic!("windows are moved to the desktop");
    };
    assert_eq!(commands, ["move container to workspace \"Desktop\""]);
    assert!(!confirm.holds(&before[0]));
    assert!(confirm.holds(&on("one", 7, "Desktop")));

    assert!(!leaving.confirm(&before[0]));
    assert!(!leaving.confirm(&on("three", 9, "Desktop")));
    let after = vec![on("one", 7, "Desktop"), on("three", 9, "Desktop")];
    assert_eq!(
        leaving.unplug_command(&after),
        Err(WorkspaceError::StillInUse)
    );
    assert!(leaving.confirm(&after[0]));
    assert!(leaving.confirm(&after[1]));
    assert!(!leaving.confirm(&after[1]));
    assert_eq!(
        leaving.unplug_command(&before),
        Err(WorkspaceError::StillInUse)
    );
    assert_eq!(
        leaving.unplug_command(&after).unwrap(),
        "output \"HEADLESS-2\" unplug"
    );
    leaving.output = "a;b".into();
    assert_eq!(
        leaving.unplug_command(&after),
        Err(WorkspaceError::UnsafeName)
    );
}
