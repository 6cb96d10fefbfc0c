//! An MQTT client core: packet encoding and decoding, packet framing, the
//! subscription tree, and the client's protocol state machine. All of it works
//! on plain values; sockets, tasks and wakers live in the crate that drives it.

pub mod client;
pub mod errors;
pub mod futures;
pub mod options;
pub mod shared;
pub mod subs;
pub mod text;
pub mod time;
pub mod tls;
pub mod transceiver;
pub mod transport;
pub mod wrappers;

pub use client::{PublishEvent, SubscriptionStatus};
pub use errors::{ConnectError, PacketDecodeError, PublishError, ServerConnectError};
pub use errors::{SubscribeError, TimeoutKind, TryPublishError};
pub use options::{LastWill, Options};
pub use time::Duration;
pub use tls::OptionsWithTls;
pub use transceiver::packets::IncomingPublishPacket as Message;
pub use transceiver::packets::PublishFlags;
pub use transceiver::packets::PublishPacketInfo as MessageInfo;
pub use transceiver::ShutdownStatus;

use vstd::prelude::*;

verus! {

/// The **maximum** Quality of Service used to transmit and receive messages.
///
/// If the value used to publish a message is different than the value used
/// to subscribe to its corresponding topic, the **effective** quality of
/// service will be the lowest of these.
#[derive(Clone, Copy, Debug, PartialEq, Eq, PartialOrd, Ord, Structural)]
pub enum QoS {
    /// Messages will be transmitted or received at most once.
    AtMostOnce,
    /// Messages will be transmitted or received at least once.
    AtLeastOnce,
    /// Messages will be transmitted or received exactly once.
    ExactlyOnce,
}

impl QoS {
    /// The two-bit number that stands for this quality of service in packets.
    pub open spec fn spec_code(self) -> u8 {
        match self {
            QoS::AtMostOnce => 0,
            QoS::AtLeastOnce => 1,
            QoS::ExactlyOnce => 2,
        }
    }

    /// The quality of service that `code` stands for, if it stands for one.
    pub open spec fn spec_from_code(code: u8) -> Option<QoS> {
        if code == 0 {
            Some(QoS::AtMostOnce)
        } else if code == 1 {
            Some(QoS::AtLeastOnce)
        } else if code == 2 {
            Some(QoS::ExactlyOnce)
        } else {
            None
        }
    }

    /// Returns the number that stands for this quality of service in packets.
    pub fn code(self) -> (r: u8)
        ensures
            r == self.spec_code(),
    {
        match self {
            QoS::AtMostOnce => 0,
            QoS::AtLeastOnce => 1,
            QoS::ExactlyOnce => 2,
        }
    }

    /// Reads the number that stands for a quality of service in packets.
    pub fn from_code(code: u8) -> (r: Option<QoS>)
        ensures
            r == QoS::spec_from_code(code),
    {
        match code {
            0 => Some(QoS::AtMostOnce),
            1 => Some(QoS::AtLeastOnce),
            2 => Some(QoS::ExactlyOnce),
            _ => None,
        }
    }
}

} // verus!
