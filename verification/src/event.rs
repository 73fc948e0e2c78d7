//! Raw input events as they come from the device.

use vstd::prelude::*;

verus! {

/// Event type tag of key events.
pub const EV_KEY: u16 = 0x01;

/// Event type tag of LED events.
pub const EV_LED: u16 = 0x11;

/// Code of the num-lock LED.
pub const LED_NUML: u16 = 0x00;

/// Code of the caps-lock LED, which shows the pause state.
pub const LED_CAPSL: u16 = 0x01;

/// Code of the scroll-lock LED, which shows the grab state.
pub const LED_SCROLLL: u16 = 0x02;

/// Capture instant of an event: whole seconds and the sub-second part in
/// nanoseconds, both counted from the Unix epoch.
#[derive(Clone, Copy, Debug, PartialEq, Eq, Structural)]
pub struct Timestamp {
    pub secs: u64,
    pub nanos: u32,
}

/// One event as captured from the device. Every combination of field values
/// is a valid event.
#[derive(Clone, Copy, Debug, PartialEq, Eq, Structural)]
pub struct RawEvent {
    pub timestamp: Timestamp,
    /// Domain tag, for instance [`EV_KEY`] or [`EV_LED`].
    pub event_type: u16,
    /// Identifier within the domain, for instance a key code.
    pub code: u16,
    /// Payload, for a key 1 on press and 0 on release.
    pub value: i32,
}

impl RawEvent {
    /// An event from its four parts.
    pub fn new(timestamp: Timestamp, event_type: u16, code: u16, value: i32) -> (event: RawEvent)
        ensures
            event == (RawEvent { timestamp, event_type, code, value }),
    {
        RawEvent { timestamp, event_type, code, value }
    }

    /// Whether this is a key event.
    pub open spec fn spec_is_key(&self) -> bool {
        self.event_type == EV_KEY
    }

    /// Whether this is a key event.
    #[verifier::when_used_as_spec(spec_is_key)]
    pub fn is_key(&self) -> (b: bool)
        ensures
            b == self.spec_is_key(),
    {
        self.event_type == EV_KEY
    }

    /// Whether this is an LED event.
    pub open spec fn spec_is_led(&self) -> bool {
        self.event_type == EV_LED
    }

    /// Whether this is an LED event.
    #[verifier::when_used_as_spec(spec_is_led)]
    pub fn is_led(&self) -> (b: bool)
        ensures
            b == self.spec_is_led(),
    {
        self.event_type == EV_LED
    }
}

/// An LED state to be written back to the device: `on` lights the LED with
/// the given code.
#[derive(Clone, Copy, Debug, PartialEq, Eq, Structural)]
pub struct LedCommand {
    pub code: u16,
    pub on: bool,
}

impl LedCommand {
    /// The event that carries this command to the device: an LED event with
    /// the LED's code, value 1 for on and 0 for off.
    pub open spec fn spec_to_event(&self, timestamp: Timestamp) -> RawEvent {
        RawEvent {
            timestamp,
            event_type: EV_LED,
            code: self.code,
            value: if self.on { 1i32 } else { 0i32 },
        }
    }

    /// The event that carries this command to the device.
    pub fn to_event(&self, timestamp: Timestamp) -> (event: RawEvent)
        ensures
            event == self.spec_to_event(timestamp),
    {
        RawEvent {
            timestamp,
            event_type: EV_LED,
            code: self.code,
            value: if self.on { 1 } else { 0 },
        }
    }
}

} // verus!
