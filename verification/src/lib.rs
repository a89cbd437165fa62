//! A typed carrier over a byte stream, and the search session that runs on it.
//!
//! `wire` describes the frames, `codec` the payloads and their codec, `carrier`
//! the carrier itself; `protocol` holds the two machines of the search session,
//! `driver` walks them over a carrier, and `laws` proves what holds of every
//! session.

pub mod wire;
pub mod codec;
pub mod carrier;
pub mod protocol;
pub mod driver;
pub mod laws;

pub use carrier::{Channel, RWChannel, RecvError, SendError, Value};
