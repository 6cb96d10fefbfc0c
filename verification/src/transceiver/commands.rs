//! What the client's handles ask of the transceiver.

use std::sync::Arc;

use vstd::prelude::*;
use vstd::std_specs::convert::{FromSpec, FromSpecImpl};
use vstd::utf8::encode_utf8;

use crate::QoS;

verus! {

/// A fast callback, by its u32 ID. The function itself is kept by whoever calls it.
#[derive(Debug, Clone, Copy, PartialEq, Eq, Structural)]
pub struct FastCallback {
    pub id: u32,
}

/// All the different ways to subscribe to a topic. Queues are known by their numbers.
#[derive(Debug, Clone, Copy, PartialEq, Eq, Structural)]
pub enum SubscriptionKind {
    /// Registers the subscription with the broker (if it wasn't registered already)
    /// and nothing else.
    Void,
    /// Lossy subscriptions use a bounded queue to handle messages.
    /// If the queue is full, the message will be dropped (which is why it's
    /// called "Lossy" subscriptions).
    Lossy(u64),
    /// Unbounded subscription use an unbounded queue to handle
    /// messages. This is the safest, most convenient way to receive
    /// topic messages as it will never fail.
    Unbounded(u64),
    /// Fast callbacks are thread-safe functions that are not supposed to
    /// block. They will be called for each message received in a topic.
    FastCallback(FastCallback),
}

/// Instructs the transceiver to publish the packet provided in the
/// [`PublishCommand::packet`] field.
pub struct PublishCommand {
    pub packet_id: u16,
    pub qos: QoS,
    pub packet: Arc<[u8]>,
}

/// Instructs the transceiver to create the subscription provided in
/// the [`SubscribeCommand::kind`] field and to register it with the broker
/// if needed.
pub struct SubscribeCommand {
    pub topic: String,
    pub qos: QoS,
    pub kind: SubscriptionKind,
}

/// Ways to unsubscribe from a topic. Only [`UnsubKind::Immediate`] will
/// cause the transceiver to send an `UNSUBSCRIBE` packet.
///
/// This is a smaller set than [`SubscriptionKind`] because other types
/// of subscriptions can be closed by closing the queue.
#[derive(Debug, Clone, Copy, PartialEq, Eq, Structural)]
pub enum UnsubKind {
    /// Removes a [`FastCallback`] with the specified ID
    FastCallback(u32),
    /// Unsusbcribe from the topic immediately, no matter of how many
    /// objects (fast callbacks, queues, etc.) rely on that subscription.
    Immediate,
}

/// Instructs the transceiver to remove a subscription.
pub struct UnsubCommand {
    pub topic: String,
    pub kind: UnsubKind,
}

/// Wraps all the possible commands that can be sent to the transceiver.
pub enum Command {
    Publish(PublishCommand),
    Subscribe(SubscribeCommand),
    Unsub(UnsubCommand),
    /// Instructs the transceiver to disconnect gracefully
    /// (if possible) and then stop.
    Disconnect,
}

impl FromSpecImpl<PublishCommand> for Command {
    open spec fn obeys_from_spec() -> bool {
        true
    }

    open spec fn from_spec(v: PublishCommand) -> Self {
        Command::Publish(v)
    }
}

impl From<PublishCommand> for Command {
    fn from(v: PublishCommand) -> (r: Self) {
        Command::Publish(v)
    }
}

impl FromSpecImpl<SubscribeCommand> for Command {
    open spec fn obeys_from_spec() -> bool {
        true
    }

    open spec fn from_spec(v: SubscribeCommand) -> Self {
        Command::Subscribe(v)
    }
}

impl From<SubscribeCommand> for Command {
    fn from(v: SubscribeCommand) -> (r: Self) {
        Command::Subscribe(v)
    }
}

impl FromSpecImpl<UnsubCommand> for Command {
    open spec fn obeys_from_spec() -> bool {
        true
    }

    open spec fn from_spec(v: UnsubCommand) -> Self {
        Command::Unsub(v)
    }
}

impl From<UnsubCommand> for Command {
    fn from(v: UnsubCommand) -> (r: Self) {
        Command::Unsub(v)
    }
}

/// Whether a command can be carried out: a packet to be published is there, and a topic to
/// be subscribed to fits in a packet.
pub open spec fn command_fits(cmd: Command) -> bool {
    match cmd {
        Command::Publish(cmd) => cmd.packet@.len() > 0,
        Command::Subscribe(cmd) => encode_utf8(cmd.topic@).len() <= u16::MAX,
        _ => true,
    }
}

impl Command {
    /// Tells whether this command can be carried out.
    pub fn fits(&self) -> (r: bool)
        ensures
            r == command_fits(*self),
    {
        match self {
            Command::Publish(cmd) => cmd.packet.len() > 0,
            Command::Subscribe(cmd) => cmd.topic.as_str().as_bytes().len() <= 65535,
            _ => true,
        }
    }
}

/// A command can be carried out unless it publishes an empty packet or subscribes to a topic of
/// more than 65535 bytes.
pub proof fn law_command_fits(cmd: Command)
    ensures
        command_fits(cmd) <==> match cmd {
            Command::Publish(x) => x.packet@.len() > 0,
            Command::Subscribe(x) => encode_utf8(x.topic@).len() <= 65535,
            _ => true,
        },
{
}

/// What is wrapped in a command stays as it is.
pub proof fn law_wrapped_commands(a: PublishCommand, b: SubscribeCommand, c: UnsubCommand)
    ensures
        <Command as FromSpec<PublishCommand>>::from_spec(a) == Command::Publish(a),
        <Command as FromSpec<SubscribeCommand>>::from_spec(b) == Command::Subscribe(b),
        <Command as FromSpec<UnsubCommand>>::from_spec(c) == Command::Unsub(c),
        <Command as FromSpec<PublishCommand>>::obeys_from_spec(),
        <Command as FromSpec<SubscribeCommand>>::obeys_from_spec(),
        <Command as FromSpec<UnsubCommand>>::obeys_from_spec(),
{
}

} // verus!
