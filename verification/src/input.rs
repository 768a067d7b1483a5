//! What belongs to a seat, and what is left of it when it loses a device.

use vstd::prelude::*;
use crate::model::ActionView;
use crate::model::ShellAction;
use crate::paths::FilePath;
use crate::state::{optional_action, optional_click, optional_gesture, GestureView};
use crate::state::{DesktopPointerGesture, Modifiers, ShellSurface};

verus! {

/// A kind of device that a seat can have.
#[derive(Debug, Clone, Copy, PartialEq, Eq, Structural)]
pub enum Capability {
    Pointer,
    Keyboard,
    Touch,
}

/// What a seat is doing.
#[derive(Debug)]
pub struct SeatInteraction {
    pub keyboard_focus: Option<ShellSurface>,
    pub modifiers: Modifiers,
    pub hovered: Option<ShellAction>,
    pub desktop_pointer_gesture: Option<DesktopPointerGesture>,
    pub last_desktop_click: Option<(FilePath, u32)>,
}

/// A [`SeatInteraction`] with its texts and paths as sequences.
pub struct InteractionView {
    pub keyboard_focus: Option<ShellSurface>,
    pub modifiers: Modifiers,
    pub hovered: Option<ActionView>,
    pub gesture: Option<GestureView>,
    pub last_click: Option<(Seq<u8>, u32)>,
}

impl View for SeatInteraction {
    type V = InteractionView;

    open spec fn view(&self) -> InteractionView {
        InteractionView {
            keyboard_focus: self.keyboard_focus,
            modifiers: self.modifiers,
            hovered: optional_action(self.hovered),
            gesture: optional_gesture(self.desktop_pointer_gesture),
            last_click: optional_click(self.last_desktop_click),
        }
    }
}

/// No modifier key.
pub open spec fn no_modifiers() -> Modifiers {
    Modifiers { ctrl: false, alt: false, shift: false, logo: false }
}

/// What a seat is doing that does nothing.
pub open spec fn idle() -> InteractionView {
    InteractionView {
        keyboard_focus: None,
        modifiers: no_modifiers(),
        hovered: None,
        gesture: None,
        last_click: None,
    }
}

impl Default for Modifiers {
    fn default() -> (modifiers: Modifiers)
        ensures
            modifiers == no_modifiers(),
    {
        Modifiers { ctrl: false, alt: false, shift: false, logo: false }
    }
}

impl Default for SeatInteraction {
    fn default() -> (interaction: SeatInteraction)
        ensures
            interaction@ == idle(),
    {
        SeatInteraction {
            keyboard_focus: None,
            modifiers: Modifiers { ctrl: false, alt: false, shift: false, logo: false },
            hovered: None,
            desktop_pointer_gesture: None,
            last_desktop_click: None,
        }
    }
}

/// What belongs to a seat: its pointer, its keyboard, and what it is doing with them.
pub struct SeatInput<P, K> {
    pub pointer: Option<P>,
    pub keyboard: Option<K>,
    pub interaction: SeatInteraction,
}

impl<P, K> Default for SeatInput<P, K> {
    fn default() -> (input: SeatInput<P, K>)
        ensures
            input.pointer is None,
            input.keyboard is None,
            input.interaction@ == idle(),
    {
        SeatInput { pointer: None, keyboard: None, interaction: SeatInteraction::default() }
    }
}

/// What a seat is doing after it lost a device: what it did with that device is over.
pub open spec fn without_capability(interaction: InteractionView, capability: Capability) -> InteractionView {
    match capability {
        Capability::Pointer => InteractionView {
            hovered: None,
            gesture: None,
            last_click: None,
            ..interaction
        },
        Capability::Keyboard => InteractionView {
            keyboard_focus: None,
            modifiers: no_modifiers(),
            ..interaction
        },
        Capability::Touch => interaction,
    }
}

impl<P, K> SeatInput<P, K> {
    /// Takes a device away from the seat.
    pub fn remove_capability(&mut self, capability: Capability)
        ensures
            final(self).pointer == if capability == Capability::Pointer {
                None
            } else {
                old(self).pointer
            },
            final(self).keyboard == if capability == Capability::Keyboard {
                None
            } else {
                old(self).keyboard
            },
            final(self).interaction@ == without_capability(old(self).interaction@, capability),
    {
        match capability {
            Capability::Pointer => {
                self.pointer = None;
                self.interaction.hovered = None;
                self.interaction.desktop_pointer_gesture = None;
                self.interaction.last_desktop_click = None;
            },
            Capability::Keyboard => {
                self.keyboard = None;
                self.interaction.keyboard_focus = None;
                self.interaction.modifiers = Modifiers::default();
            },
            Capability::Touch => {},
        }
    }
}

/// Losing the keyboard leaves what the pointer does, and the other way round; losing both leaves
/// nothing, in whichever order.
pub proof fn devices_are_independent(interaction: InteractionView)
    ensures
        ({
            let typed = without_capability(interaction, Capability::Pointer);
            &&& typed.keyboard_focus == interaction.keyboard_focus
            &&& typed.modifiers == interaction.modifiers
        }),
        ({
            let pointed = without_capability(interaction, Capability::Keyboard);
            &&& pointed.hovered == interaction.hovered
            &&& pointed.gesture == interaction.gesture
            &&& pointed.last_click == interaction.last_click
        }),
        without_capability(
            without_capability(interaction, Capability::Pointer),
            Capability::Keyboard,
        ) == idle(),
        without_capability(
            without_capability(interaction, Capability::Keyboard),
            Capability::Pointer,
        ) == idle(),
        without_capability(interaction, Capability::Touch) == interaction,
{
}

/// A seat that lost its pointer is over nothing, drags nothing and has clicked nothing; one that lost
/// its keyboard types nowhere and holds no key down.
pub proof fn lost_devices_do_nothing(interaction: InteractionView)
    ensures
        ({
            let typed = without_capability(interaction, Capability::Pointer);
            &&& typed.hovered is None
            &&& typed.gesture is None
            &&& typed.last_click is None
        }),
        ({
            let pointed = without_capability(interaction, Capability::Keyboard);
            &&& pointed.keyboard_focus is None
            &&& !pointed.modifiers.ctrl
            &&& !pointed.modifiers.alt
            &&& !pointed.modifiers.shift
            &&& !pointed.modifiers.logo
        }),
{
}

} // verus!
