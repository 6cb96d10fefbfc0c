//! What a client decides while it connects, publishes and subscribes.

use std::io;

use vstd::prelude::*;
use vstd::utf8::encode_utf8;

use crate::errors::{ConnectError, PublishError, ServerConnectError, SubscribeError, TimeoutKind};
use crate::errors::{PacketDecodeError, TryPublishError};
use crate::futures::PublishStage;
use crate::options::{IpVersion, IpVersionSet, LastWill, OptionsT};
use crate::shared::{ClientShared, SharedView, SubscriptionState, SubscriptionStateView};
use crate::text::{decimal, find, len_before, lemma_len_before, to_decimal};
use crate::time::Duration;
use crate::transceiver::commands::{Command, PublishCommand, UnsubCommand, UnsubKind};
use crate::transceiver::packet_reader::{broker_supports_frame, decode_broker_frame};
use crate::transceiver::packet_reader::{law_connect_is_received, law_publish_is_received};
use crate::transceiver::packets::wire_laws::{law_packet_layout, law_publish_flag_bits};
use crate::transceiver::packets::{law_publish_flags, BrokerPacketView};
use crate::transceiver::packets::{packet_bytes, publish_flags, ConnectPacket, ConnectView, Encode};
use crate::transceiver::packets::{OutgoingPublishPacket, PacketType, PublishFlags, PublishView};
use crate::transceiver::state::TransceiverView;
use crate::transceiver::Transceiver;
use crate::wrappers::{topic_map_get, topic_map_insert};
use crate::QoS;

verus! {

/// Enumerates the different stages of publishing a message with [`QoS::ExactlyOnce`]
/// that can be awaited on.
#[derive(Debug, Clone, Copy, PartialEq, Eq, Structural)]
pub enum PublishEvent {
    /// Submit the publish packet to the transceiver task and return, do not wait
    /// for completion. Shutting down the transceiver task after this may result
    /// in the message not being transmitted at all.
    NoEvent,
    /// Submit the publish packet to the transceiver task and await its corresponding
    /// `PUBREC` packet, indicated that the server has received the message.
    ///
    /// Shutting down the transceiver task at this point may be safe.
    Received,
    /// Submit the publish packet to the transceiver task and await its corresponding
    /// `PUBCOMP` packet, marking the end the transmission of the message.
    ///
    /// Shutting down the transceiver task after this is safe.
    Complete,
}

/// A host to connect to.
pub struct HostParts {
    /// The host's name or address, a colon, and the port
    pub host_and_port: String,
    /// The host's name or address
    pub host_only: String,
}

/// Splits a host into its name or address and its port. If the port is missing, the default
/// port is added.
pub fn split_host(host: &str, default_port: u16) -> (r: HostParts)
    ensures
        r.host_only@ == host@.take(len_before(host@, ':') as int),
        r.host_and_port@ == (if len_before(host@, ':') < host@.len() {
            host@
        } else {
            host@ + ":"@ + decimal(default_port as nat)
        }),
{
    match find(host, ':') {
        Some(port_pos) => HostParts {
            host_and_port: host.to_owned(),
            host_only: host.substring_char(0, port_pos).to_owned(),
        },
        None => {
            let mut host_and_port = host.to_owned();
            host_and_port.append(":");
            host_and_port.append(to_decimal(default_port).as_str());
            assert(host@.take(host@.len() as int) =~= host@);
            HostParts { host_and_port, host_only: host.to_owned() }
        },
    }
}

/// The place of the first address whose version of the Internet Protocol is enabled, from
/// the `i`th on.
pub open spec fn first_enabled(versions: Seq<IpVersion>, enabled: IpVersionSet, i: nat) -> Option<
    nat,
>
    decreases versions.len() - i,
{
    if i >= versions.len() {
        None
    } else if enabled.contains(versions[i as int]) {
        Some(i)
    } else {
        first_enabled(versions, enabled, i + 1)
    }
}

/// Chooses an address to connect to, given the versions of the Internet Protocol of all the
/// addresses that a host has: the first one whose version is enabled.
pub fn choose_address(versions: &Vec<IpVersion>, enabled: IpVersionSet) -> (r: Option<usize>)
    ensures
        match r {
            Some(i) => first_enabled(versions@, enabled, 0) == Some(i as nat) && i
                < versions@.len(),
            None => first_enabled(versions@, enabled, 0) is None,
        },
        match r {
            Some(i) => i < versions@.len() && enabled.contains(versions@[i as int]) && forall|
                j: int,
            |
                0 <= j < i ==> !enabled.contains(#[trigger] versions@[j]),
            None => forall|j: int|
                0 <= j < versions@.len() ==> !enabled.contains(#[trigger] versions@[j]),
        },
{
    proof {
        law_chosen_address(versions@, enabled, 0);
    }
    let mut i: usize = 0;
    while i < versions.len()
        invariant
            i <= versions@.len(),
            first_enabled(versions@, enabled, 0) == first_enabled(versions@, enabled, i as nat),
        decreases versions@.len() - i,
    {
        if enabled.supports(versions[i]) {
            proof {
                law_chosen_address(versions@, enabled, 0);
            }
            return Some(i);
        }
        i += 1;
    }
    None
}

/// The address that is chosen is enabled, and none before it is; if none is chosen, none is
/// enabled.
pub proof fn law_chosen_address(versions: Seq<IpVersion>, enabled: IpVersionSet, i: nat)
    requires
        i <= versions.len(),
    ensures
        match first_enabled(versions, enabled, i) {
            Some(k) => i <= k < versions.len() && enabled.contains(versions[k as int]) && forall|
                j: int,
            |
                i <= j < k ==> !enabled.contains(#[trigger] versions[j]),
            None => forall|j: int|
                i <= j < versions.len() ==> !enabled.contains(#[trigger] versions[j]),
        },
    decreases versions.len() - i,
{
    if i < versions.len() && !enabled.contains(versions[i as int]) {
        law_chosen_address(versions, enabled, i + 1);
    }
}

/// What came of looking up a host.
pub enum LookupOutcome {
    /// It took too long
    TimedOut,
    /// Something went wrong
    Failed(io::Error),
    /// The host has addresses with these versions of the Internet Protocol
    Found(Vec<IpVersion>),
}

/// Tells which address to connect to after a host was looked up, or what went wrong.
pub fn lookup_result(outcome: LookupOutcome, enabled: IpVersionSet) -> (r: Result<
    usize,
    ConnectError,
>)
    ensures
        match outcome {
            LookupOutcome::TimedOut => r == Err::<usize, ConnectError>(
                ConnectError::Timeout(TimeoutKind::DnsLookup),
            ),
            LookupOutcome::Failed(e) => r == Err::<usize, ConnectError>(
                ConnectError::LookupHostError(e),
            ),
            LookupOutcome::Found(versions) => match first_enabled(versions@, enabled, 0) {
                Some(i) => r matches Ok(x) && x == i && x < versions@.len(),
                None => r == Err::<usize, ConnectError>(ConnectError::HostnameNotFound),
            },
        },
{
    match outcome {
        LookupOutcome::TimedOut => Err(ConnectError::Timeout(TimeoutKind::DnsLookup)),
        LookupOutcome::Failed(e) => Err(ConnectError::LookupHostError(e)),
        LookupOutcome::Found(versions) => match choose_address(&versions, enabled) {
            Some(i) => Ok(i),
            None => Err(ConnectError::HostnameNotFound),
        },
    }
}

/// What came of establishing a TCP connection.
pub enum TcpOutcome<S> {
    /// It took too long
    TimedOut,
    /// Something went wrong
    Failed(io::Error),
    /// The connection is established
    Connected(S),
}

/// Tells what came of establishing a TCP connection.
pub fn tcp_result<S>(outcome: TcpOutcome<S>) -> (r: Result<S, ConnectError>)
    ensures
        r == (match outcome {
            TcpOutcome::TimedOut => Err::<S, ConnectError>(
                ConnectError::Timeout(TimeoutKind::TcpConnect),
            ),
            TcpOutcome::Failed(e) => Err(ConnectError::IoError(e)),
            TcpOutcome::Connected(stream) => Ok(stream),
        }),
{
    match outcome {
        TcpOutcome::TimedOut => Err(ConnectError::Timeout(TimeoutKind::TcpConnect)),
        TcpOutcome::Failed(e) => Err(ConnectError::IoError(e)),
        TcpOutcome::Connected(stream) => Ok(stream),
    }
}

/// What the `CONNECT` packet says for the specified options.
pub open spec fn connect_view<T>(options: OptionsT<'_, T>) -> ConnectView {
    ConnectView {
        clean_session: options.clean_session,
        keep_alive: options.keep_alive,
        client_id: options.client_id@,
        will: match options.last_will {
            Some(w) => Some(w@),
            None => None,
        },
        username: match options.username {
            Some(x) => Some(x@),
            None => None,
        },
        password: match options.password {
            Some(x) => Some(x@),
            None => None,
        },
    }
}

/// Makes the `CONNECT` packet for the specified options.
pub fn connect_packet<'a, T>(options: &OptionsT<'a, T>) -> (r: ConnectPacket<'a>)
    ensures
        r@ == connect_view(*options),
        r.clean_session == options.clean_session,
        r.keep_alive == options.keep_alive,
        r.client_id == options.client_id,
        r.will == options.last_will,
        r.username == options.username,
        r.password == options.password,
{
    let will = match &options.last_will {
        Some(w) => Some(
            LastWill { topic: w.topic, message: w.message, retain: w.retain, qos: w.qos },
        ),
        None => None,
    };
    ConnectPacket {
        clean_session: options.clean_session,
        keep_alive: options.keep_alive,
        client_id: options.client_id,
        will,
        username: options.username,
        password: options.password,
    }
}

/// Creates the transceiver for the specified options, or nothing if a field of the `CONNECT`
/// packet is too long. Packets are not re-sent more often than once per second.
pub fn build_transceiver<T>(options: &OptionsT<'_, T>, now: u128) -> (r: Option<Transceiver>)
    ensures
        r is Some <==> connect_view(*options).fits(),
        r matches Some(t) ==> t.inv() && t@ == TransceiverView::starting(
            packet_bytes(PacketType::Connect, 0, connect_view(*options).body()),
            Duration::spec_from_secs(options.keep_alive as u64).nanos,
            options.packets_resend_delay.spec_max(Duration::spec_from_secs(1)).nanos,
            now,
        ),
        r matches Some(t) ==> t@.ping_interval == options.keep_alive * 1_000_000_000,
        r matches Some(t) ==> t@.packet_resend_delay == (if options.packets_resend_delay.nanos
            < 1_000_000_000 {
            1_000_000_000
        } else {
            options.packets_resend_delay.nanos
        }),
        r is Some <==> {
            &&& encode_utf8(options.client_id@).len() <= 65535
            &&& options.last_will matches Some(w) ==> encode_utf8(w.topic@).len() <= 65535
                && w.message@.len() <= 65535
            &&& options.username matches Some(x) ==> encode_utf8(x@).len() <= 65535
            &&& options.password matches Some(x) ==> x@.len() <= 65535
        },
        r matches Some(t) ==> ({
            let sent = t@.tx.packets;
            &&& sent.len() == 1 && !sent[0].set_dup && t@.tx.pos == 0 && t@.last_tx == now
            &&& broker_supports_frame(sent[0].bytes)
            &&& decode_broker_frame(sent[0].bytes) matches Ok(BrokerPacketView::Connect(c)) && {
                &&& c.clean_session == options.clean_session
                &&& c.keep_alive == options.keep_alive
                &&& c.client_id == options.client_id@
                &&& match options.last_will {
                    Some(w) => c.will matches Some(x) && x.topic == w.topic@ && x.message
                        == w.message@ && x.retain == w.retain && x.qos == w.qos,
                    None => c.will is None,
                }
                &&& match options.username {
                    Some(x) => c.username == Some(x@),
                    None => c.username is None,
                }
                &&& match options.password {
                    Some(x) => c.password == Some(x@),
                    None => c.password is None,
                }
            }
        }),
{
    proof {
        law_connect_carries_options(*options);
    }
    let packet = connect_packet(options);
    if !packet.is_encodable() {
        return None;
    }
    let ping_interval = Duration::from_secs(options.keep_alive as u64);
    let resend_delay = options.packets_resend_delay.max(Duration::from_secs(1));
    Some(
        Transceiver::new(
            packet.make_arc_packet(),
            ping_interval.nanos,
            resend_delay.nanos,
            now,
        ),
    )
}

/// What came of waiting for the broker's answer to the `CONNECT` packet.
#[derive(Debug, Clone, Copy)]
pub enum ConnectWait {
    /// The broker answered
    Answered(Result<bool, ServerConnectError>),
    /// The transceiver ended
    Ended,
    /// It took too long
    TimedOut,
}

/// How a connection attempt ends.
pub enum ConnectEnd {
    /// The connection is established. The value tells whether a session was present.
    Established(bool),
    /// The transceiver should be told to disconnect, and left alone
    Disconnect(ConnectError),
    /// The transceiver is about to end and should be awaited
    Await(ConnectError),
}

/// Tells how a connection attempt ends, given what came of waiting for the broker's answer.
pub fn connect_result(wait: ConnectWait) -> (r: ConnectEnd)
    ensures
        r == (match wait {
            ConnectWait::Answered(Ok(x)) => ConnectEnd::Established(x),
            ConnectWait::Answered(Err(x)) => ConnectEnd::Await(ConnectError::ServerError(x)),
            ConnectWait::Ended => ConnectEnd::Await(ConnectError::OneshotRecvError),
            ConnectWait::TimedOut => ConnectEnd::Disconnect(
                ConnectError::Timeout(TimeoutKind::MqttConnect),
            ),
        }),
{
    match wait {
        ConnectWait::Answered(Ok(x)) => ConnectEnd::Established(x),
        ConnectWait::Answered(Err(x)) => ConnectEnd::Await(ConnectError::ServerError(x)),
        ConnectWait::Ended => ConnectEnd::Await(ConnectError::OneshotRecvError),
        ConnectWait::TimedOut => ConnectEnd::Disconnect(
            ConnectError::Timeout(TimeoutKind::MqttConnect),
        ),
    }
}

/// What the `PUBLISH` packet of a new message says. There is no packet ID at
/// [`QoS::AtMostOnce`].
pub open spec fn publish_view(
    next_packet_id: u16,
    topic: Seq<char>,
    payload: Seq<u8>,
    qos: QoS,
    retain: bool,
) -> PublishView {
    PublishView {
        flags: publish_flags(false, qos, retain),
        topic,
        packet_id: if qos == QoS::AtMostOnce {
            0
        } else {
            next_packet_id
        },
        payload,
    }
}

/// Whether a message fits in a packet.
pub open spec fn message_fits(topic: Seq<char>, payload: Seq<u8>, qos: QoS, retain: bool) -> bool {
    publish_view(0, topic, payload, qos, retain).fits()
}

/// Tells whether a message fits in a packet.
pub fn check_message(topic: &str, payload: &[u8], qos: QoS, retain: bool) -> (r: bool)
    ensures
        r == message_fits(topic@, payload@, qos, retain),
        r == (encode_utf8(topic@).len() <= 65535 && encode_utf8(topic@).len() + payload@.len() + (
        if qos == QoS::AtMostOnce {
            2int
        } else {
            4
        }) <= 268_435_455),
{
    proof {
        law_message_fits(topic@, payload@, qos, retain);
    }
    let flags = PublishFlags::new(false, qos, retain);
    let pkt = OutgoingPublishPacket { flags, topic, packet_id: 0, payload };
    assert(pkt@ == publish_view(0, topic@, payload@, qos, retain));
    pkt.is_encodable()
}

impl ClientShared {
    /// Makes the command that publishes a message.
    pub fn make_publish_cmd(
        &mut self,
        topic: &str,
        payload: &[u8],
        qos: QoS,
        retain: bool,
    ) -> (r: PublishCommand)
        requires
            message_fits(topic@, payload@, qos, retain),
        ensures
            ({
                let v = publish_view(old(self)@.next_packet_id, topic@, payload@, qos, retain);
                &&& r.packet_id == v.packet_id
                &&& r.qos == qos
                &&& r.packet@ == packet_bytes(PacketType::Publish, v.flags, v.body())
                &&& r.packet@.len() > 0
            }),
            broker_supports_frame(r.packet@),
            decode_broker_frame(r.packet@) matches Ok(BrokerPacketView::Publish(m)) && {
                &&& m.topic == topic@
                &&& m.payload == payload@
                &&& m.flags < 16
                &&& m.flags / 8 == 0
                &&& m.flags % 2 == 1 <==> retain
                &&& m.flags / 2 % 4 == (match qos {
                    QoS::AtMostOnce => 0int,
                    QoS::AtLeastOnce => 1,
                    QoS::ExactlyOnce => 2,
                })
                &&& m.packet_id == r.packet_id
            },
            r.packet_id == (if qos == QoS::AtMostOnce {
                0
            } else {
                old(self)@.next_packet_id
            }),
            final(self)@ == (if qos == QoS::AtMostOnce {
                old(self)@
            } else {
                old(self)@.packet_id_taken()
            }),
    {
        let packet_id: u16 = if qos == QoS::AtMostOnce {
            0
        } else {
            self.take_packet_id()
        };
        let packet = OutgoingPublishPacket {
            flags: PublishFlags::new(false, qos, retain),
            topic,
            packet_id,
            payload,
        };
        proof {
            let v = packet@;
            assert(v == publish_view(old(self)@.next_packet_id, topic@, payload@, qos, retain));
            assert(v.body().len() == publish_view(0, topic@, payload@, qos, retain).body().len());
            law_message_fits(topic@, payload@, qos, retain);
            law_published_message(old(self)@.next_packet_id, topic@, payload@, qos, retain);
        }
        PublishCommand { packet_id, qos, packet: packet.make_arc_packet() }
    }

    /// Starts a subscription to the specified topic.
    pub fn begin_subscribe(&mut self, topic: &str) -> (r: SubWait)
        ensures
            ({
                let subs = old(self)@.subs;
                if subs.contains_key(topic@) {
                    &&& final(self)@ == old(self)@
                    &&& match subs[topic@] {
                        SubscriptionStateView::Existing(qos) => r == SubWait::DontWait(qos),
                        SubscriptionStateView::Pending(_) => r == SubWait::Before,
                    }
                } else {
                    &&& r == SubWait::After
                    &&& final(self)@ == (SharedView {
                        subs: subs.insert(topic@, SubscriptionStateView::Pending(Seq::empty())),
                        ..old(self)@
                    })
                }
            }),
    {
        let ghost before = self@.subs;
        match topic_map_get(&self.subs, topic) {
            Some(SubscriptionState::Existing(qos)) => {
                return SubWait::DontWait(*qos);
            },
            Some(SubscriptionState::Pending(_)) => {
                return SubWait::Before;
            },
            None => {},
        }
        topic_map_insert(&mut self.subs, topic.to_owned(), SubscriptionState::Pending(Vec::new()));
        assert(self@.subs =~= before.insert(
            topic@,
            SubscriptionStateView::Pending(Seq::empty()),
        ));
        SubWait::After
    }

    /// Returns the status of the subscription to the specified topic.
    pub fn get_subscription_status(&self, topic: &str) -> (r: SubscriptionStatus)
        ensures
            r == (if self@.subs.contains_key(topic@) {
                match self@.subs[topic@] {
                    SubscriptionStateView::Existing(_) => SubscriptionStatus::Live,
                    SubscriptionStateView::Pending(_) => SubscriptionStatus::Pending,
                }
            } else {
                SubscriptionStatus::Absent
            }),
    {
        match topic_map_get(&self.subs, topic) {
            Some(SubscriptionState::Existing(_)) => SubscriptionStatus::Live,
            Some(SubscriptionState::Pending(_)) => SubscriptionStatus::Pending,
            None => SubscriptionStatus::Absent,
        }
    }
}

/// The status of a subscription.
#[derive(Debug, Clone, Copy, PartialEq, Eq, Structural)]
pub enum SubscriptionStatus {
    /// The client is not subscribed to the topic
    Absent,
    /// The broker has yet to validate the subscription
    Pending,
    /// The client is subscribed to the topic
    Live,
}

/// What came of handing a command to the transceiver.
#[derive(Debug, Clone, Copy, PartialEq, Eq, Structural)]
pub enum SendStatus {
    /// The command is in the queue
    Sent,
    /// The queue is full
    Full,
    /// The transceiver ended
    Closed,
}

/// Tells what came of an attempt to publish a message without waiting.
pub fn try_publish_result(status: SendStatus) -> (r: Result<(), TryPublishError>)
    ensures
        r == (match status {
            SendStatus::Sent => Ok::<(), TryPublishError>(()),
            SendStatus::Full => Err(TryPublishError::QueueFull),
            SendStatus::Closed => Err(TryPublishError::TransceiverTaskTerminated),
        }),
{
    match status {
        SendStatus::Sent => Ok(()),
        SendStatus::Full => Err(TryPublishError::QueueFull),
        SendStatus::Closed => Err(TryPublishError::TransceiverTaskTerminated),
    }
}

/// The stage to be awaited for a message sent with [`QoS::AtLeastOnce`].
pub fn qos_1_stage(await_ack: bool) -> (r: Option<PublishStage>)
    ensures
        r == (if await_ack {
            Some(PublishStage::Ack)
        } else {
            None
        }),
{
    if await_ack {
        Some(PublishStage::Ack)
    } else {
        None
    }
}

/// The stage to be awaited for a message sent with [`QoS::ExactlyOnce`].
pub fn qos_2_stage(await_event: PublishEvent) -> (r: Option<PublishStage>)
    ensures
        r == (match await_event {
            PublishEvent::NoEvent => None,
            PublishEvent::Received => Some(PublishStage::Rec),
            PublishEvent::Complete => Some(PublishStage::Comp),
        }),
{
    match await_event {
        PublishEvent::NoEvent => None,
        PublishEvent::Received => Some(PublishStage::Rec),
        PublishEvent::Complete => Some(PublishStage::Comp),
    }
}

/// Tells what came of publishing a message, given whether the command could be sent and
/// whether the stage that was awaited, if any, failed.
pub fn publish_result(sent: bool, failed: Option<bool>) -> (r: Result<(), PublishError>)
    ensures
        r == (if !sent || failed == Some(true) {
            Err::<(), PublishError>(PublishError::TransceiverTaskTerminated)
        } else {
            Ok(())
        }),
{
    let failed = match failed {
        Some(x) => x,
        None => false,
    };
    if !sent || failed {
        Err(PublishError::TransceiverTaskTerminated)
    } else {
        Ok(())
    }
}

/// Utility enumeration specifying when to wait for a subscription future.
#[derive(Debug, Clone, Copy, PartialEq, Eq, Structural)]
pub enum SubWait {
    /// The subscription already exists and has the specified quality of service.
    /// No need to await the subscription's completion.
    DontWait(QoS),
    /// The subscription is pending. Wait for completion before sending the
    /// subscribe command to the transceiver task.
    Before,
    /// The subscription does not exist and has to be created. Send the subscribe
    /// command to the transceiver task right away and await completion after.
    After,
}

/// What to do next for a subscription.
#[derive(Debug, Clone, Copy, PartialEq, Eq)]
pub enum SubscribeStep {
    /// Wait for the broker's answer
    Wait,
    /// Send the subscribe command to the transceiver
    Send,
    /// Report how it went
    Done(Result<QoS, SubscribeError>),
}

/// A subscription in the making.
pub struct Subscribing {
    /// The quality of service of the subscription, if it is known
    pub qos: Option<QoS>,
    /// Whether the subscribe command has been sent
    pub sent: bool,
}

impl Subscribing {
    /// Starts making a subscription.
    pub fn start(wait: SubWait) -> (r: (Self, SubscribeStep))
        ensures
            !r.0.sent,
            match wait {
                SubWait::DontWait(qos) => r.0.qos == Some(qos) && r.1 == SubscribeStep::Send,
                SubWait::Before => r.0.qos is None && r.1 == SubscribeStep::Wait,
                SubWait::After => r.0.qos is None && r.1 == SubscribeStep::Send,
            },
    {
        match wait {
            SubWait::DontWait(qos) => (
                Subscribing { qos: Some(qos), sent: false },
                SubscribeStep::Send,
            ),
            SubWait::Before => (Subscribing { qos: None, sent: false }, SubscribeStep::Wait),
            SubWait::After => (Subscribing { qos: None, sent: false }, SubscribeStep::Send),
        }
    }

    /// Goes on after waiting for the broker's answer: the quality of service, or why there is
    /// no subscription.
    pub fn answered(&mut self, answer: Result<QoS, SubscribeError>) -> (r: SubscribeStep)
        ensures
            final(self).sent == old(self).sent,
            match answer {
                Ok(qos) => final(self).qos == Some(qos) && r == (if old(self).sent {
                    SubscribeStep::Done(Ok(qos))
                } else {
                    SubscribeStep::Send
                }),
                Err(e) => final(self).qos == old(self).qos && r == SubscribeStep::Done(Err(e)),
            },
    {
        match answer {
            Ok(qos) => {
                self.qos = Some(qos);
                if self.sent {
                    SubscribeStep::Done(Ok(qos))
                } else {
                    SubscribeStep::Send
                }
            },
            Err(e) => SubscribeStep::Done(Err(e)),
        }
    }

    /// Goes on after an attempt to send the subscribe command.
    pub fn command_sent(&mut self, ok: bool) -> (r: SubscribeStep)
        ensures
            final(self).qos == old(self).qos,
            final(self).sent == (old(self).sent || ok),
            r == (if !ok {
                SubscribeStep::Done(Err(SubscribeError::TransceiverTaskTerminated))
            } else {
                match old(self).qos {
                    Some(qos) => SubscribeStep::Done(Ok(qos)),
                    None => SubscribeStep::Wait,
                }
            }),
    {
        if !ok {
            return SubscribeStep::Done(Err(SubscribeError::TransceiverTaskTerminated));
        }
        self.sent = true;
        match self.qos {
            Some(qos) => SubscribeStep::Done(Ok(qos)),
            None => SubscribeStep::Wait,
        }
    }
}

/// Makes the command that unsubscribes from the specified topic, regardless of any existing
/// subscription to that topic.
pub fn unsubscribe_cmd(topic: String) -> (r: Command)
    ensures
        r == Command::Unsub(UnsubCommand { topic, kind: UnsubKind::Immediate }),
{
    Command::Unsub(UnsubCommand { topic, kind: UnsubKind::Immediate })
}

/// A message that the client publishes reaches the broker as it is.
pub proof fn law_published_message_arrives(
    next_packet_id: u16,
    topic: Seq<char>,
    payload: Seq<u8>,
    qos: QoS,
    retain: bool,
)
    requires
        message_fits(topic, payload, qos, retain),
    ensures
        ({
            let v = publish_view(next_packet_id, topic, payload, qos, retain);
            let packet = packet_bytes(PacketType::Publish, v.flags, v.body());
            &&& broker_supports_frame(packet)
            &&& decode_broker_frame(packet) == Ok::<BrokerPacketView, PacketDecodeError>(
                BrokerPacketView::Publish(v),
            )
        }),
{
    let v = publish_view(next_packet_id, topic, payload, qos, retain);
    assert(v.body().len() == publish_view(0, topic, payload, qos, retain).body().len());
    law_publish_flags(false, qos, retain);
    law_publish_is_received(v);
}

/// The options reach the broker as they are.
pub proof fn law_options_arrive<T>(options: OptionsT<'_, T>)
    requires
        connect_view(options).fits(),
    ensures
        ({
            let v = connect_view(options);
            let packet = packet_bytes(PacketType::Connect, 0, v.body());
            &&& broker_supports_frame(packet)
            &&& decode_broker_frame(packet) == Ok::<BrokerPacketView, PacketDecodeError>(
                BrokerPacketView::Connect(v),
            )
        }),
{
    law_connect_is_received(connect_view(options));
}

/// A host with a port in it is used as it is; the name of a host has no colon in it.
pub proof fn law_host(host: Seq<char>)
    ensures
        !host.take(len_before(host, ':') as int).contains(':'),
        len_before(host, ':') < host.len() <==> host.contains(':'),
{
    lemma_len_before(host, ':');
    let n = len_before(host, ':') as int;
    if host.contains(':') {
        let i = host.index_of(':');
        assert(host[i] == ':');
    } else if n < host.len() {
        assert(host.contains(host[n]));
    }
}

/// The broker reads the packet of a message as that message: the topic and the payload are
/// those given, the retain flag and the quality of service are those asked for, and it is no
/// duplicate. It has a packet ID, the next one, unless the quality of service is the lowest.
pub proof fn law_published_message(
    next_packet_id: u16,
    topic: Seq<char>,
    payload: Seq<u8>,
    qos: QoS,
    retain: bool,
)
    requires
        encode_utf8(topic).len() <= 65535,
        encode_utf8(topic).len() + payload.len() + (if qos == QoS::AtMostOnce {
            2int
        } else {
            4
        }) <= 268_435_455,
    ensures
        message_fits(topic, payload, qos, retain),
        ({
            let v = publish_view(next_packet_id, topic, payload, qos, retain);
            let packet = packet_bytes(PacketType::Publish, v.flags, v.body());
            &&& broker_supports_frame(packet)
            &&& decode_broker_frame(packet) matches Ok(BrokerPacketView::Publish(m)) && {
                &&& m.topic == topic
                &&& m.payload == payload
                &&& m.flags < 16
                &&& m.flags / 8 == 0
                &&& m.flags % 2 == 1 <==> retain
                &&& m.flags / 2 % 4 == (match qos {
                    QoS::AtMostOnce => 0int,
                    QoS::AtLeastOnce => 1,
                    QoS::ExactlyOnce => 2,
                })
                &&& qos != QoS::AtMostOnce ==> m.packet_id == next_packet_id
                &&& v.packet_id == m.packet_id
                &&& packet[0] == 0x30 + m.flags
            }
        }),
{
    let v = publish_view(next_packet_id, topic, payload, qos, retain);
    law_message_fits(topic, payload, qos, retain);
    law_published_message_arrives(next_packet_id, topic, payload, qos, retain);
    law_publish_flag_bits(false, qos, retain, 0);
    assert(v.flags < 16 && v.flags / 8 == 0 && v.topic == topic && v.payload == payload);
    assert(v.flags % 2 == 1 <==> retain);
    law_packet_layout(PacketType::Publish, v.flags, v.body());
}

/// A message fits in a packet if and only if its topic has at most 65535 bytes, and the rest of
/// the packet at most 268435455. Nothing else matters.
pub proof fn law_message_fits(topic: Seq<char>, payload: Seq<u8>, qos: QoS, retain: bool)
    ensures
        message_fits(topic, payload, qos, retain) <==> encode_utf8(topic).len() <= 65535
            && encode_utf8(topic).len() + payload.len() + (if qos == QoS::AtMostOnce {
            2int
        } else {
            4
        }) <= 268_435_455,
{
    law_publish_flag_bits(false, qos, retain, publish_flags(false, qos, retain));
}

/// The broker reads the `CONNECT` packet for some options as those options: each of the clean
/// session flag, the keep alive interval, the client ID, the last will, the user name and the
/// password is that of the options, and one that is not set is not there. The packet can be
/// made if and only if each of these has at most 65535 bytes.
pub proof fn law_connect_carries_options<T>(options: OptionsT<'_, T>)
    ensures
        connect_view(options).fits() <==> {
            &&& encode_utf8(options.client_id@).len() <= 65535
            &&& options.last_will matches Some(w) ==> encode_utf8(w.topic@).len() <= 65535
                && w.message@.len() <= 65535
            &&& options.username matches Some(x) ==> encode_utf8(x@).len() <= 65535
            &&& options.password matches Some(x) ==> x@.len() <= 65535
        },
        connect_view(options).fits() ==> ({
            let packet = packet_bytes(PacketType::Connect, 0, connect_view(options).body());
            &&& packet[0] == 0x10
            &&& broker_supports_frame(packet)
            &&& decode_broker_frame(packet) matches Ok(BrokerPacketView::Connect(c)) && {
                &&& c.clean_session == options.clean_session
                &&& c.keep_alive == options.keep_alive
                &&& c.client_id == options.client_id@
                &&& match options.last_will {
                    Some(w) => c.will matches Some(x) && x.topic == w.topic@ && x.message
                        == w.message@ && x.retain == w.retain && x.qos == w.qos,
                    None => c.will is None,
                }
                &&& match options.username {
                    Some(x) => c.username == Some(x@),
                    None => c.username is None,
                }
                &&& match options.password {
                    Some(x) => c.password == Some(x@),
                    None => c.password is None,
                }
            }
        }),
{
    if connect_view(options).fits() {
        law_options_arrive(options);
    }
}

} // verus!
