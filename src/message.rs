//! The messages exchanged over the link: commands from the host and the
//! device's responses.
use crate::date_time::SDateTime;
use vstd::prelude::*;

verus! {

/// Commands understood by the device.
#[derive(Clone, Copy, Debug, PartialEq, Eq, Structural)]
pub enum Command {
    /// Reset the application to its initial state.
    Reset,
    /// Return the device-internal counter.
    Counter,
    /// Set or clear the device's reference time.
    SetDateTime(Option<SDateTime>),
    /// Carry out a function now.
    Immediate(Funct),
    /// Carry out a function once the reference time reaches the given time.
    ///
    /// Once accepted, a scheduled function cannot be removed.
    Schedule(Funct, SDateTime),
}

/// A function of the device, carried out by `Immediate` or `Schedule`.
#[derive(Clone, Copy, Debug, PartialEq, Eq, Structural)]
pub enum Funct {
    /// Increment the device-internal counter.
    Increment,
    /// Blink the led, switching its state every `period_ms` milliseconds.
    EnableBlink { period_ms: u64 },
    /// Stop blinking and turn the led off.
    DisableBlink,
    /// Turn the RGB led on.
    EnableRgb,
    /// Turn the RGB led off.
    DisableRgb,
}

/// The device's answer to one command.
#[derive(Clone, Copy, Debug, PartialEq, Eq, Structural)]
pub enum Response {
    /// The command was accepted and processed, with an optional return value.
    Accepted(Option<Payload>),
    /// The command was not processed, for the given reason.
    Rejected(RejectReason),
    /// The frame was corrupted, but the given command was recovered from it
    /// and processed.
    OkRecovered(Option<Payload>, Command),
}

/// A command-specific return value.
#[derive(Clone, Copy, Debug, PartialEq, Eq, Structural)]
pub enum Payload {
    /// The value of the device-internal counter.
    Counter(u64),
}

/// Why a command was not processed.
#[derive(Clone, Copy, Debug, PartialEq, Eq, Structural)]
pub enum RejectReason {
    /// The received frame was invalid.
    CorruptedFrame,
    /// The command is not allowed in the device's current state.
    IllegalCommand,
    /// The device does not implement the command.
    NotImplemented,
    /// An unspecified internal fault of the device.
    InternalError,
}

impl Response {
    /// The payload that a response carries: `None` for `Rejected`.
    pub open spec fn payload_of(self) -> Option<Payload> {
        match self {
            Response::Accepted(p) => p,
            Response::OkRecovered(p, _) => p,
            Response::Rejected(_) => None,
        }
    }

    /// Whether the response is a positive one, as opposed to a rejection.
    pub fn is_ok(&self) -> (r: bool)
        ensures
            r == !(*self is Rejected),
    {
        match self {
            Response::Accepted(_) | Response::OkRecovered(..) => true,
            Response::Rejected(_) => false,
        }
    }

    /// The payload of an `Accepted` or `OkRecovered` response; `None` for
    /// `Rejected`.
    pub fn payload(&self) -> (r: Option<&Payload>)
        ensures
            r is Some <==> self.payload_of() is Some,
            r is Some ==> *r->0 == self.payload_of()->0,
    {
        match self {
            Response::Accepted(Some(p)) => Some(p),
            Response::OkRecovered(Some(p), _) => Some(p),
            _ => None,
        }
    }
}

} // verus!
