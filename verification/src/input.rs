//! The event vocabulary of the button and dial input collaborator.
//!
//! The input subsystem itself (interrupt handling, debouncing, queuing)
//! lives outside this library; what crosses the boundary is this closed
//! set of discrete event values with no payload beyond the tags.

use vstd::prelude::*;

verus! {

/// The six panel buttons.
#[derive(Clone, Copy, Debug, PartialEq, Eq, Structural)]
pub enum Button {
    /// The exit button.
    Exit,
    /// The menu button.
    Menu,
    /// The up button.
    Up,
    /// The down button.
    Down,
    /// The confirm button.
    Confirm,
    /// The reset button.
    Reset,
}

/// The electrical state of a button after debouncing.
#[derive(Clone, Copy, Debug, PartialEq, Eq, Structural)]
pub enum ButtonState {
    /// The button is held down.
    Pressed,
    /// The button is released.
    Released,
}

/// A debounced button event.
#[derive(Clone, Copy, Debug, PartialEq, Eq, Structural)]
pub enum ButtonEvent {
    /// The button went down.
    Pressed(Button),
    /// The button came up.
    Released(Button),
    /// The button was held beyond the long-press threshold.
    LongPress(Button),
}

/// Rotation direction of the dial.
#[derive(Clone, Copy, Debug, PartialEq, Eq, Structural)]
pub enum DialDirection {
    /// Clockwise rotation.
    Clockwise,
    /// Counter-clockwise rotation.
    CounterClockwise,
}

/// A rotary-dial event.
#[derive(Clone, Copy, Debug, PartialEq, Eq, Structural)]
pub enum DialEvent {
    /// The dial turned one detent.
    Rotated(DialDirection),
    /// The dial's push switch went down.
    Pressed,
    /// The dial's push switch came up.
    Released,
}

/// Any input event: a button event or a dial event.
#[derive(Clone, Copy, Debug, PartialEq, Eq, Structural)]
pub enum InputEvent {
    /// An event from one of the buttons.
    Button(ButtonEvent),
    /// An event from the dial.
    Dial(DialEvent),
}

impl From<ButtonEvent> for InputEvent {
    fn from(event: ButtonEvent) -> (r: InputEvent) {
        InputEvent::Button(event)
    }
}

impl vstd::std_specs::convert::FromSpecImpl<ButtonEvent> for InputEvent {
    open spec fn obeys_from_spec() -> bool {
        true
    }

    open spec fn from_spec(event: ButtonEvent) -> InputEvent {
        InputEvent::Button(event)
    }
}

impl From<DialEvent> for InputEvent {
    fn from(event: DialEvent) -> (r: InputEvent) {
        InputEvent::Dial(event)
    }
}

impl vstd::std_specs::convert::FromSpecImpl<DialEvent> for InputEvent {
    open spec fn obeys_from_spec() -> bool {
        true
    }

    open spec fn from_spec(event: DialEvent) -> InputEvent {
        InputEvent::Dial(event)
    }
}

} // verus!
