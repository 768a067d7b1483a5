//! Seats and their devices.

use buzzardos_guest::input::{Capability, SeatInput};
use buzzardos_guest::model::ShellAction;
use buzzardos_guest::paths::FilePath;
use buzzardos_guest::state::ShellSurface;
use std::cell::RefCell;
use std::collections::HashMap;
use std::rc::Rc;

struct Handle(&'static str, Rc<RefCell<Vec<&'static str>>>);

impl Drop for Handle {
    fn drop(&mut self) {
        self.1.borrow_mut().push(self.0);
    }
}

fn path(text: &str) -> FilePath {
    FilePath {
        bytes: text.as_bytes().to_vec(),
    }
}

#[test]
fn cua_churn_preserves_human_handles_and_interaction() {
    let drops = Rc::new(RefCell::new(Vec::new()));
    let mut seats: HashMap<&str, SeatInput<Handle, Handle>> = HashMap::new();
    let mut human = SeatInput::default();
    human.pointer = Some(Handle("human-pointer", drops.clone()));
    human.keyboard = Some(Handle("human-keyboard", drops.clone()));
    human.interaction.modifiers.shift = true;
    human.interaction.keyboard_focus = Some(ShellSurface::Desktop);
    human.interaction.hovered = Some(ShellAction::OpenFiles);
    human.interaction.last_desktop_click = Some((path("human"), 123));
    seats.insert("seat0", human);
    for _ in 0..100 {
        for seat in ["seat2", "seat1"] {
            let input = seats.entry(seat).or_default();
            input.pointer = Some(Handle("cua-pointer", drops.clone()));
            input.keyboard = Some(Handle("cua-keyboard", drops.clone()));
            input.interaction.modifiers.ctrl = true;
        }
        seats
            .get_mut("seat1")
            .unwrap()
            .remove_capability(Capability::Pointer);
        assert!(seats["seat1"].keyboard.is_some());
        seats
            .get_mut("seat2")
            .unwrap()
            .remove_capability(Capability::Keyboard);
        assert!(seats["seat2"].pointer.is_some());
        seats.remove("seat2");
        seats.remove("seat1");
        let human = &seats["seat0"];
        assert!(human.pointer.is_some() && human.keyboard.is_some());
        assert!(human.interaction.modifiers.shift);
        assert!(!human.interaction.modifiers.ctrl);
        assert_eq!(
            human.interaction.keyboard_focus,
            Some(ShellSurface::Desktop)
        );
        assert_eq!(human.interaction.hovered, Some(ShellAction::OpenFiles));
        assert_eq!(
            human.interaction.last_desktop_click,
            Some((path("human"), 123))
        );
    }
    assert_eq!(drops.borrow().len(), 400);
    assert!(!drops.borrow().iter().any(|name| name.starts_with("human")));
}

#[test]
fn keyboard_teardown_does_not_reset_its_seats_pointer_state() {
    let mut input: SeatInput<(), ()> = SeatInput::default();
    input.pointer = Some(());
    input.keyboard = Some(());
    input.interaction.hovered = Some(ShellAction::OpenFiles);
    input.interaction.last_desktop_click = Some((path("own"), 42));
    input.interaction.modifiers.ctrl = true;
    input.interaction.keyboard_focus = Some(ShellSurface::Menu);
    input.remove_capability(Capability::Keyboard);
    assert!(input.pointer.is_some());
    assert!(input.keyboard.is_none());
    assert!(!input.interaction.modifiers.ctrl);
    assert_eq!(input.interaction.keyboard_focus, None);
    assert_eq!(input.interaction.hovered, Some(ShellAction::OpenFiles));
    assert_eq!(
        input.interaction.last_desktop_click,
        Some((path("own"), 42))
    );
}

#[test]
fn pointer_teardown_does_not_reset_its_seats_keyboard_state() {
    let mut input: SeatInput<(), ()> = SeatInput::default();
    input.pointer = Some(());
    input.keyboard = Some(());
    input.interaction.keyboard_focus = Some(ShellSurface::Menu);
    input.interaction.hovered = Some(ShellAction::OpenFiles);
    input.remove_capability(Capability::Pointer);
    assert!(input.pointer.is_none() && input.keyboard.is_some());
    assert_eq!(input.interaction.keyboard_focus, Some(ShellSurface::Menu));
    assert_eq!(input.interaction.hovered, None);
}
