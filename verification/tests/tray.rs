//! The items of the tray and their menus.

use buzzardos_guest::tray::{Registered, Registration, TrayError, TrayState};
use buzzardos_guest::tray_menu::{
    bus_name, menu_item_actionable, menu_label, object_path, parse_item, parse_menu,
    parse_pixmaps, registration_target, unique_name, Property, PropertyValue, TrayPixmap,
    WireNode, WirePixmap,
};

fn property(name: &str, value: PropertyValue) -> Property {
    Property {
        name: name.into(),
        value,
    }
}

fn text(name: &str, value: &str) -> Property {
    property(name, PropertyValue::Text(value.into()))
}

fn node(id: i32, properties: Vec<Property>, children: Vec<WireNode>) -> WireNode {
    WireNode {
        id,
        properties,
        children,
    }
}

fn layout(children: Vec<WireNode>) -> WireNode {
    node(0, Vec::new(), children)
}

#[test]
fn registration_accepts_standard_names_and_sender_relative_paths() {
    assert_eq!(
        registration_target(":1.42", "/Item").unwrap(),
        (":1.42".into(), "/Item".into())
    );
    assert_eq!(
        registration_target(":1.42", "org.example.App").unwrap(),
        ("org.example.App".into(), "/StatusNotifierItem".into())
    );
    for invalid in ["", "invalid", "/bad-path", "/bad//path"] {
        assert!(registration_target(":1.42", invalid).is_none());
    }
    assert!(registration_target("org.example.App", "/Item").is_none());
}

#[test]
fn pixmaps_validate_sizes_and_convert_network_argb_without_losing_alpha() {
    let wire = vec![WirePixmap {
        width: 1,
        height: 1,
        argb: vec![128, 11, 22, 33],
    }];
    assert_eq!(
        parse_pixmaps(&wire, 32),
        Some(TrayPixmap {
            width: 1,
            height: 1,
            rgba: vec![11, 22, 33, 128]
        })
    );
    for (width, height, argb) in [
        (0, 1, vec![]),
        (1, 1, vec![0; 3]),
        (257, 1, vec![0; 1028]),
        (-1, 1, vec![0; 4]),
    ] {
        assert!(parse_pixmaps(
            &vec![WirePixmap {
                width,
                height,
                argb
            }],
            32
        )
        .is_none());
    }
}

#[test]
fn real_menu_layout_preserves_submenus_toggles_and_disabled_ancestors() {
    let menu = parse_menu(
        7,
        64,
        &layout(vec![
            node(1, vec![text("label", "_Open__file")], vec![]),
            node(
                2,
                vec![
                    text("label", "_Paused"),
                    text("toggle-type", "checkmark"),
                    property("toggle-state", PropertyValue::Number(1)),
                ],
                vec![],
            ),
            node(
                3,
                vec![property("enabled", PropertyValue::Flag(false))],
                vec![node(4, vec![text("label", "Child")], vec![])],
            ),
            node(5, vec![text("type", "separator")], vec![]),
            node(
                6,
                vec![property("visible", PropertyValue::Flag(false))],
                vec![],
            ),
        ]),
    )
    .unwrap();
    assert_eq!(menu.revision, 7);
    assert_eq!(menu.entries[0].label, "Open_file");
    assert_eq!(menu.entries[1].toggle_state, Some(1));
    assert!(menu_item_actionable(&menu.entries, 1));
    for id in [3, 4, 5, 6, 99] {
        assert!(!menu_item_actionable(&menu.entries, id));
    }
}

#[test]
fn menu_rejects_duplicates_depth_and_node_exhaustion() {
    assert!(parse_menu(
        7,
        64,
        &layout(vec![
            node(1, vec![], vec![]),
            node(1, vec![], vec![])
        ])
    )
    .is_none());
    let mut deep = node(20, vec![], vec![]);
    for id in (1..10).rev() {
        deep = node(id, vec![], vec![deep]);
    }
    assert!(parse_menu(7, 64, &layout(vec![deep])).is_none());
    assert!(parse_menu(
        7,
        64,
        &layout((1..=512).map(|id| node(id, vec![], vec![])).collect())
    )
    .is_none());
}

#[test]
fn attention_status_selects_attention_icon_and_menu_path_is_validated() {
    let properties = vec![
        text("Title", "Example"),
        text("Status", "NeedsAttention"),
        text("IconName", "ordinary"),
        text("AttentionIconName", "attention"),
        text("Menu", "/Menu"),
        property("ItemIsMenu", PropertyValue::Flag(true)),
    ];
    let (item, menu) = parse_item(":1.4/Item", &properties).unwrap();
    assert_eq!(item.icon_name.as_deref(), Some("attention"));
    assert_eq!(menu.as_deref(), Some("/Menu"));
    assert!(item.item_is_menu && item.has_menu);
}

#[test]
fn names_on_the_bus_have_their_form() {
    assert!(object_path("/"));
    assert!(object_path("/a/b_2"));
    assert!(!object_path("/a/"));
    assert!(unique_name(":1.42"));
    assert!(!unique_name("org.example"));
    assert!(bus_name("org.example.App"));
    assert!(!bus_name("org"));
    assert_eq!(menu_label("_a__b"), "a_b");
}

#[test]
fn items_are_registered_by_their_owner_and_leave_with_it() {
    let mut tray = TrayState::new();
    let sender = ":1.5".to_string();
    let (service, path) = match tray.begin_registration(
        &Some(sender.clone()),
        false,
        &Some("/Item".to_string()),
    ) {
        Registration::AskOwner { service, path } => (service, path),
        other => panic!("unexpected {other:?}"),
    };
    assert_eq!(service, ":1.5");
    let registered = tray.finish_registration(&sender, service, &path, &Some(sender.clone()));
    assert!(matches!(registered, Registered::Added));
    let id = tray.entries[0].id.clone();
    let call = tray.begin_item_refresh(&id).unwrap();
    assert_eq!(call.owner, sender);
    let removed = tray.name_owner_changed(&sender, &sender);
    assert_eq!(removed, [id.clone()]);
    assert!(tray.entries.is_empty());
    assert!(!tray.is_current(&id, &call));
    assert!(matches!(tray.item_call(&id), Err(TrayError::NoItem)));
}

#[test]
fn another_sender_cannot_register_a_foreign_service() {
    let mut tray = TrayState::new();
    let sender = ":1.5".to_string();
    let owner = ":1.6".to_string();
    let (service, path) = match tray.begin_registration(
        &Some(sender.clone()),
        false,
        &Some("org.example.App".to_string()),
    ) {
        Registration::AskOwner { service, path } => (service, path),
        other => panic!("unexpected {other:?}"),
    };
    let registered = tray.finish_registration(&sender, service, &path, &Some(owner));
    assert!(matches!(registered, Registered::Denied));
    assert!(tray.entries.is_empty());
}
