//! A framed request/response command protocol between a host and a small
//! device over a byte-oriented serial link.
//!
//! The message model, the fixed-width binary layout, the COBS framing, the
//! device's byte reassembly, the device's command state machine and the host's
//! response collection are verified.
pub mod cobs;
pub mod codec;
pub mod date_time;
pub mod device;
pub mod exchange;
pub mod message;
pub mod reassembly;
pub mod wire;

pub use codec::{
    Codec, DeserializeError, SerializeError, COMMAND_MAX_SERIALIZED_LEN,
    RESPONSE_MAX_SERIALIZED_LEN,
};
pub use date_time::SDateTime;
pub use device::{blink_step, DeviceState};
pub use exchange::{frame, ResponseCollector, ResponseError};
pub use message::{Command, Funct, Payload, RejectReason, Response};
pub use reassembly::{is_termination_byte, Received, Receiver};
