//! The states of a transceiver, and what comes of events.

use vstd::prelude::*;
use vstd::utf8::encode_utf8;

use super::byte_io::be_bytes;
use super::commands::{Command, SubscriptionKind, UnsubKind};
use super::packets::{filters_bytes, flags_qos, packet_bytes, topics_bytes};
use super::packets::{PacketType, PacketView, PublishView, SubscriptionResult};
use super::subscription::{covers, deliveries, gathered, increasing, pattern_matches};
use super::subscription::{receiver_of, valid_pattern};
use super::subscription::{Recipient, SubscriptionView};
use super::tx_queue::TxView;
use super::util::IdType;
use crate::errors::ServerConnectError;
use crate::shared::{lists, waiting_for, NotifyResult, SharedView, SubscriptionStateView};
use crate::QoS;

verus! {

/// Associates a packet ID to its transmission timestamp, in nanoseconds. This is used to
/// re-send packets if no reply is received within a reasonable delay.
#[derive(Debug, Clone, Copy, PartialEq, Eq, Structural)]
pub struct Timeout {
    pub t: u128,
    pub packet_id: IdType,
}

/// A subscription that awaits a response from the broker.
pub struct PendingSubView {
    pub topic: Seq<char>,
    pub kind: SubscriptionKind,
    pub packet: Seq<u8>,
}

/// The receivers of the specified pending subscriptions, in that order.
pub open spec fn awaiting(subs: Map<u32, PendingSubView>, ids: Seq<u32>) -> Seq<Recipient>
    decreases ids.len(),
{
    if ids.len() == 0 {
        Seq::empty()
    } else {
        awaiting(subs, ids.drop_last()) + receiver_of(subs[ids.last()].kind)
    }
}

/// The state of a transceiver.
pub struct TransceiverView {
    /// Whether the broker has answered the `CONNECT` packet.
    pub connected: bool,
    /// Packets that may be re-transmitted, by their keys.
    pub pending: Map<u32, Seq<u8>>,
    /// `SUBSCRIBE` packets that may be re-transmitted, by their packet IDs.
    pub pending_subs: Map<u32, PendingSubView>,
    /// The packets to be transmitted.
    pub tx: TxView,
    /// Last time a packet was transmitted.
    pub last_tx: u128,
    /// When packets that may be re-transmitted were last transmitted, the oldest first.
    pub timeouts: Seq<Timeout>,
    /// The subscription of every topic pattern.
    pub subs: Map<Seq<char>, SubscriptionView>,
    pub disconnect_sent: bool,
    pub cmd_queue_closed: bool,
    pub ping_interval: u128,
    pub packet_resend_delay: u128,
}

/// How much time passed between two timestamps; nothing if they are out of order.
pub open spec fn elapsed(since: u128, now: u128) -> u128 {
    if now >= since {
        (now - since) as u128
    } else {
        0
    }
}

/// The waker of an entry of a notifier map, if it has one.
pub open spec fn waker_of(map: Map<u32, NotifyResult>, id: u16) -> Seq<u64> {
    if map.contains_key(id as u32) {
        match map[id as u32] {
            NotifyResult::WithWaker(w) => seq![w],
            _ => Seq::empty(),
        }
    } else {
        Seq::empty()
    }
}

/// The `PUBACK` packet with the specified ID.
pub open spec fn pub_ack_packet(id: u16) -> Seq<u8> {
    packet_bytes(PacketType::PubAck, 0, be_bytes(id))
}

/// The `PUBREC` packet with the specified ID.
pub open spec fn pub_rec_packet(id: u16) -> Seq<u8> {
    packet_bytes(PacketType::PubRec, 0, be_bytes(id))
}

/// The `PUBREL` packet with the specified ID.
pub open spec fn pub_rel_packet(id: u16) -> Seq<u8> {
    packet_bytes(PacketType::PubRel, 2, be_bytes(id))
}

/// The `PUBCOMP` packet with the specified ID.
pub open spec fn pub_comp_packet(id: u16) -> Seq<u8> {
    packet_bytes(PacketType::PubComp, 0, be_bytes(id))
}

/// The `PINGREQ` packet.
pub open spec fn ping_packet() -> Seq<u8> {
    packet_bytes(PacketType::PingReq, 0, Seq::empty())
}

/// The `DISCONNECT` packet.
pub open spec fn disconnect_packet() -> Seq<u8> {
    packet_bytes(PacketType::Disconnect, 0, Seq::empty())
}

/// The `SUBSCRIBE` packet for a single topic.
pub open spec fn subscribe_packet(id: u16, topic: Seq<char>, qos: QoS) -> Seq<u8> {
    packet_bytes(PacketType::Subscribe, 2, be_bytes(id) + filters_bytes(seq![(topic, qos)]))
}

/// The `UNSUBSCRIBE` packet for a single topic.
pub open spec fn unsubscribe_packet(id: u16, topic: Seq<char>) -> Seq<u8> {
    packet_bytes(PacketType::Unsubscribe, 2, be_bytes(id) + topics_bytes(seq![topic]))
}

/// What comes of an event: the transceiver's and the client's new state, and what is to
/// be done.
pub struct Step {
    pub t: TransceiverView,
    pub shared: SharedView,
    /// Whether the transceiver should stop.
    pub stop: bool,
    /// The answer to the connection attempt, if there is one now.
    pub connect_result: Option<Result<bool, ServerConnectError>>,
    /// Whether a message that came in is to be handed to its recipients.
    pub deliver: bool,
    /// The wakers to be woken up.
    pub wakers: Seq<u64>,
    /// The receivers that nothing leads to any more, to be closed.
    pub released: Seq<Recipient>,
}

impl TransceiverView {
    /// The state in which a `CONNECT` packet is about to be transmitted.
    pub open spec fn starting(
        connect_packet: Seq<u8>,
        ping_interval: u128,
        packet_resend_delay: u128,
        now: u128,
    ) -> Self {
        TransceiverView {
            connected: false,
            pending: Map::empty(),
            pending_subs: Map::empty(),
            tx: TxView::idle().queued(connect_packet, false),
            last_tx: now,
            timeouts: Seq::empty(),
            subs: Map::new(|p: Seq<char>| true, |p: Seq<char>| SubscriptionView::empty()),
            disconnect_sent: false,
            cmd_queue_closed: false,
            ping_interval,
            packet_resend_delay,
        }
    }

    /// This state with a packet to be transmitted.
    pub open spec fn sending(self, bytes: Seq<u8>, set_dup: bool) -> Self {
        TransceiverView { tx: self.tx.queued(bytes, set_dup), ..self }
    }

    /// This state with a packet to be transmitted and stored for re-transmission.
    pub open spec fn sending_with_timeout(self, bytes: Seq<u8>, id: IdType, now: u128) -> Self {
        TransceiverView {
            pending: self.pending.insert(id.spec_key(), bytes),
            timeouts: if self.pending.contains_key(id.spec_key()) {
                self.timeouts
            } else {
                self.timeouts.push(Timeout { t: now, packet_id: id })
            },
            ..self.sending(bytes, false)
        }
    }

    /// This state with a packet marked as received by the broker.
    pub open spec fn cleared(self, id: IdType) -> Self {
        TransceiverView { pending: self.pending.remove(id.spec_key()), ..self }
    }

    /// Whether a packet may be re-transmitted.
    pub open spec fn is_pending(self, id: IdType) -> bool {
        self.pending.contains_key(id.spec_key())
    }

    /// The subscription of every topic pattern, as a function.
    pub open spec fn at(self) -> spec_fn(Seq<char>) -> SubscriptionView {
        |p: Seq<char>| self.subs[p]
    }

    /// Everything that a message with the specified topic goes to.
    pub open spec fn recipients(self, topic: Seq<char>) -> Seq<Recipient> {
        deliveries(self.at(), topic)
    }

    /// Whether `held` are all the receivers there are, in some order: those of every
    /// subscription, and those that await a response from the broker.
    pub open spec fn holds(self, held: Seq<Recipient>) -> bool {
        exists|patterns: Seq<Seq<char>>, ids: Seq<u32>|
            #![trigger covers(self.at(), patterns), lists(ids, self.pending_subs.dom())]
            {
                &&& covers(self.at(), patterns)
                &&& lists(ids, self.pending_subs.dom())
                &&& held == gathered(self.at(), patterns) + awaiting(self.pending_subs, ids)
            }
    }

    /// This state without the queues that turned out to be closed when a message with the
    /// specified topic was handed to them.
    pub open spec fn without_closed(self, topic: Seq<char>, closed: Seq<Recipient>) -> Self {
        TransceiverView {
            subs: Map::new(
                |p: Seq<char>| true,
                |p: Seq<char>|
                    if pattern_matches(p, topic) {
                        self.subs[p].pruned(closed)
                    } else {
                        self.subs[p]
                    },
            ),
            ..self
        }
    }

    /// Nothing more than a new state comes of an event.
    pub open spec fn quietly(self, shared: SharedView) -> Step {
        Step {
            t: self,
            shared,
            stop: false,
            connect_result: None,
            deliver: false,
            wakers: Seq::empty(),
            released: Seq::empty(),
        }
    }

    /// The first packet that comes in answers the connection attempt. Anything but a
    /// `CONNACK` packet is a protocol error, and an error stops the transceiver.
    pub open spec fn on_first_packet(self, shared: SharedView, pkt: PacketView) -> Step {
        let result = match pkt {
            PacketView::ConnAck(x) => x,
            _ => Err(ServerConnectError::ProtocolError),
        };
        Step {
            stop: result is Err,
            connect_result: Some(result),
            ..TransceiverView { connected: true, ..self }.quietly(shared)
        }
    }

    /// A `SUBACK` packet settles a pending subscription, by its first result.
    pub open spec fn on_sub_ack(
        self,
        shared: SharedView,
        packet_id: u16,
        results: Seq<SubscriptionResult>,
    ) -> Step {
        if !self.pending_subs.contains_key(packet_id as u32) {
            self.quietly(shared)
        } else {
            let sub = self.pending_subs[packet_id as u32];
            let t = TransceiverView {
                pending_subs: self.pending_subs.remove(packet_id as u32),
                ..self
            };
            if results.len() == 0 {
                Step { released: receiver_of(sub.kind), ..t.quietly(shared) }
            } else {
                match results[0] {
                    Ok(qos) => Step {
                        wakers: waiting_for(shared.subs, sub.topic),
                        released: if valid_pattern(sub.topic) {
                            Seq::empty()
                        } else {
                            receiver_of(sub.kind)
                        },
                        ..t.subscribed(sub.topic, sub.kind).quietly(
                            SharedView {
                                subs: shared.subs.insert(
                                    sub.topic,
                                    SubscriptionStateView::Existing(qos),
                                ),
                                ..shared
                            },
                        )
                    },
                    Err(_) => Step {
                        wakers: waiting_for(shared.subs, sub.topic),
                        released: receiver_of(sub.kind),
                        ..t.quietly(SharedView { subs: shared.subs.remove(sub.topic), ..shared })
                    },
                }
            }
        }
    }

    /// This state with a topic subscribed to and a receiver added, if the topic is a valid
    /// pattern.
    pub open spec fn subscribed(self, topic: Seq<char>, kind: SubscriptionKind) -> Self {
        if valid_pattern(topic) {
            TransceiverView {
                subs: self.subs.insert(
                    topic,
                    SubscriptionView { subscribed: true, ..self.subs[topic] }.with(kind),
                ),
                ..self
            }
        } else {
            self
        }
    }

    /// A message is acknowledged as its quality of service demands, and handed to its
    /// recipients unless it was received before.
    pub open spec fn on_publish(self, shared: SharedView, msg: PublishView, now: u128) -> Step {
        let id = IdType::spec_pub_rec(msg.packet_id);
        match flags_qos(msg.flags) {
            QoS::AtMostOnce => Step { deliver: true, ..self.quietly(shared) },
            QoS::AtLeastOnce => Step {
                deliver: true,
                ..self.sending(pub_ack_packet(msg.packet_id), false).quietly(shared)
            },
            QoS::ExactlyOnce => if self.is_pending(id) {
                self.sending(self.pending[id.spec_key()], false).quietly(shared)
            } else {
                Step {
                    deliver: true,
                    ..self.sending_with_timeout(pub_rec_packet(msg.packet_id), id, now).quietly(
                        shared,
                    )
                }
            },
        }
    }

    /// A `PUBACK` packet settles a message, and wakes up who waits for that.
    pub open spec fn on_pub_ack(self, shared: SharedView, packet_id: u16) -> Step {
        let id = IdType::spec_publish(packet_id);
        if self.is_pending(id) {
            Step {
                wakers: waker_of(shared.notify_ack, packet_id),
                ..self.cleared(id).quietly(
                    SharedView { notify_ack: shared.notify_ack.remove(packet_id as u32), ..shared },
                )
            }
        } else {
            self.quietly(shared)
        }
    }

    /// A `PUBREC` packet is answered by a `PUBREL` packet. It settles a message, and wakes
    /// up who waits for that.
    pub open spec fn on_pub_rec(self, shared: SharedView, packet_id: u16, now: u128) -> Step {
        let id = IdType::spec_publish(packet_id);
        let rel = IdType::spec_pub_rel(packet_id);
        let t = if self.is_pending(rel) {
            self.sending(self.pending[rel.spec_key()], false)
        } else {
            self.sending_with_timeout(pub_rel_packet(packet_id), rel, now)
        };
        if self.is_pending(id) {
            Step {
                wakers: waker_of(shared.notify_rec, packet_id),
                ..t.cleared(id).quietly(
                    SharedView { notify_rec: shared.notify_rec.remove(packet_id as u32), ..shared },
                )
            }
        } else {
            t.quietly(shared)
        }
    }

    /// A `PUBREL` packet is always answered by a `PUBCOMP` packet.
    pub open spec fn on_pub_rel(self, shared: SharedView, packet_id: u16) -> Step {
        self.cleared(IdType::spec_pub_rec(packet_id)).sending(
            pub_comp_packet(packet_id),
            false,
        ).quietly(shared)
    }

    /// A `PUBCOMP` packet settles a `PUBREL` packet, and wakes up who waits for that.
    pub open spec fn on_pub_comp(self, shared: SharedView, packet_id: u16) -> Step {
        let id = IdType::spec_pub_rel(packet_id);
        if self.is_pending(id) {
            Step {
                wakers: waker_of(shared.notify_comp, packet_id),
                ..self.cleared(id).quietly(
                    SharedView {
                        notify_comp: shared.notify_comp.remove(packet_id as u32),
                        ..shared
                    },
                )
            }
        } else {
            self.quietly(shared)
        }
    }

    /// What comes of an incoming packet.
    pub open spec fn on_packet(self, shared: SharedView, pkt: PacketView, now: u128) -> Step {
        if !self.connected {
            self.on_first_packet(shared, pkt)
        } else {
            match pkt {
                PacketView::ConnAck(_) => self.quietly(shared),
                PacketView::SubAck((id, results)) => self.on_sub_ack(shared, id, results),
                PacketView::Publish(msg) => self.on_publish(shared, msg, now),
                PacketView::PubAck(id) => self.on_pub_ack(shared, id),
                PacketView::PubRec(id) => self.on_pub_rec(shared, id, now),
                PacketView::PubRel(id) => self.on_pub_rel(shared, id),
                PacketView::PubComp(id) => self.on_pub_comp(shared, id),
                PacketView::UnsubAck(id) => self.cleared(IdType::spec_unsubscribe(id)).quietly(
                    shared,
                ),
                PacketView::PingResp => self.quietly(shared),
            }
        }
    }

    /// A command to subscribe adds a receiver to a topic that is subscribed to. Another
    /// topic is asked for with a `SUBSCRIBE` packet.
    pub open spec fn on_subscribe(
        self,
        shared: SharedView,
        topic: Seq<char>,
        qos: QoS,
        kind: SubscriptionKind,
        now: u128,
    ) -> Step {
        if self.subs[topic].subscribed {
            TransceiverView {
                subs: self.subs.insert(topic, self.subs[topic].with(kind)),
                ..self
            }.quietly(shared)
        } else {
            let id = shared.next_packet_id;
            let packet = subscribe_packet(id, topic, qos);
            TransceiverView {
                pending_subs: self.pending_subs.insert(
                    id as u32,
                    PendingSubView { topic, kind, packet },
                ),
                timeouts: self.timeouts.push(
                    Timeout { t: now, packet_id: IdType::spec_subscribe(id) },
                ),
                ..self.sending(packet, false)
            }.quietly(shared.packet_id_taken())
        }
    }

    /// A command to remove a callback removes it. A command to unsubscribe, from a topic
    /// that is subscribed to, removes all its receivers and sends an `UNSUBSCRIBE` packet.
    pub open spec fn on_unsub(
        self,
        shared: SharedView,
        topic: Seq<char>,
        kind: UnsubKind,
        now: u128,
    ) -> Step {
        match kind {
            UnsubKind::FastCallback(callback) => Step {
                released: if self.subs[topic].callbacks.contains(callback) {
                    seq![Recipient::Callback(callback)]
                } else {
                    Seq::empty()
                },
                ..TransceiverView {
                    subs: self.subs.insert(topic, self.subs[topic].without_callback(callback)),
                    ..self
                }.quietly(shared)
            },
            UnsubKind::Immediate => if self.subs[topic].subscribed {
                let id = shared.next_packet_id;
                Step {
                    released: self.subs[topic].recipients(),
                    ..TransceiverView {
                        subs: self.subs.insert(topic, SubscriptionView::empty()),
                        ..self
                    }.sending_with_timeout(
                        unsubscribe_packet(id, topic),
                        IdType::spec_unsubscribe(id),
                        now,
                    ).quietly(
                        SharedView { subs: shared.subs.remove(topic), ..shared }.packet_id_taken(),
                    )
                }
            } else {
                self.quietly(shared)
            },
        }
    }

    /// What comes of a command.
    pub open spec fn on_command(self, shared: SharedView, cmd: Command, now: u128) -> Step {
        match cmd {
            Command::Publish(cmd) => match cmd.qos {
                QoS::AtMostOnce => self.sending(cmd.packet@, false).quietly(shared),
                _ => self.sending_with_timeout(
                    cmd.packet@,
                    IdType::spec_publish(cmd.packet_id),
                    now,
                ).quietly(shared),
            },
            Command::Subscribe(cmd) => self.on_subscribe(
                shared,
                cmd.topic@,
                cmd.qos,
                cmd.kind,
                now,
            ),
            Command::Unsub(cmd) => self.on_unsub(shared, cmd.topic@, cmd.kind, now),
            Command::Disconnect => Step { stop: true, ..self.quietly(shared) },
        }
    }

    /// A `PINGREQ` packet is sent if nothing was transmitted for too long.
    pub open spec fn pinging(self, now: u128) -> Self {
        if elapsed(self.last_tx, now) >= self.ping_interval {
            TransceiverView { last_tx: now, ..self.sending(ping_packet(), false) }
        } else {
            self
        }
    }

    /// Whether the oldest timeout has been reached.
    pub open spec fn is_due(self, now: u128) -> bool {
        self.timeouts.len() > 0 && elapsed(self.timeouts[0].t, now) >= self.packet_resend_delay
    }

    /// The bytes to be re-transmitted for a packet, if it is still pending.
    pub open spec fn unanswered(self, id: IdType) -> Option<Seq<u8>> {
        if id.ty == PacketType::Subscribe {
            if self.pending_subs.contains_key(id.id as u32) {
                Some(self.pending_subs[id.id as u32].packet)
            } else {
                None
            }
        } else if self.is_pending(id) {
            Some(self.pending[id.spec_key()])
        } else {
            None
        }
    }

    /// The packet of the oldest timeout is sent again if it is still pending. `PUBLISH`
    /// packets are marked as duplicates.
    pub open spec fn resending_oldest(self, now: u128) -> Self {
        let id = self.timeouts[0].packet_id;
        let rest = TransceiverView { timeouts: self.timeouts.skip(1), ..self };
        match self.unanswered(id) {
            Some(bytes) => TransceiverView {
                timeouts: rest.timeouts.push(Timeout { t: now, packet_id: id }),
                ..rest.sending(bytes, id.ty == PacketType::Publish)
            },
            None => rest,
        }
    }

    /// The packets of the oldest timeouts that have been reached are sent again, each of
    /// at most `count` timeouts once.
    pub open spec fn resending(self, now: u128, count: nat) -> Self
        decreases count,
    {
        if count > 0 && self.is_due(now) {
            self.resending_oldest(now).resending(now, (count - 1) as nat)
        } else {
            self
        }
    }

    /// What comes of the alarm that goes off every second.
    pub open spec fn on_alarm(self, now: u128) -> Self {
        if self.connected {
            self.pinging(now).resending(now, self.timeouts.len())
        } else {
            self
        }
    }

    /// Every packet that may be re-transmitted has a timeout that will lead to it.
    pub open spec fn is_watched(self) -> bool {
        &&& forall|k: u32| #[trigger]
            self.pending.contains_key(k) ==> exists|i: int|
                0 <= i < self.timeouts.len() && (
                #[trigger] self.timeouts[i]).packet_id.spec_key() == k
                    && self.timeouts[i].packet_id.ty != PacketType::Subscribe
        &&& forall|k: u32| #[trigger]
            self.pending_subs.contains_key(k) ==> exists|i: int|
                0 <= i < self.timeouts.len() && (
                #[trigger] self.timeouts[i]).packet_id.ty == PacketType::Subscribe
                    && self.timeouts[i].packet_id.id == k
    }

    /// A topic that is not subscribed to has no receivers, the callbacks of the others are
    /// in order, and each of them has been written in a packet.
    pub open spec fn subs_are_sound(self) -> bool {
        &&& forall|p: Seq<char>| #[trigger] self.subs.contains_key(p)
        &&& forall|p: Seq<char>|
            !(#[trigger] self.subs[p]).subscribed ==> self.subs[p] == SubscriptionView::empty()
        &&& forall|p: Seq<char>| increasing((#[trigger] self.subs[p]).callbacks)
        &&& forall|p: Seq<char>|
            (#[trigger] self.subs[p]).subscribed ==> valid_pattern(p) && encode_utf8(p).len()
                <= u16::MAX
        &&& forall|k: u32| #[trigger]
            self.pending_subs.contains_key(k) ==> encode_utf8(self.pending_subs[k].topic).len()
                <= u16::MAX
    }

    /// No packet that may be re-transmitted is empty.
    pub open spec fn packets_are_sound(self) -> bool {
        &&& forall|k: u32| #[trigger] self.pending.contains_key(k) ==> self.pending[k].len() > 0
        &&& forall|k: u32| #[trigger]
            self.pending_subs.contains_key(k) ==> self.pending_subs[k].packet.len() > 0
    }

    /// What holds of a transceiver at all times.
    pub open spec fn is_sound(self) -> bool {
        self.is_watched() && self.subs_are_sound() && self.packets_are_sound()
    }
}

} // verus!
