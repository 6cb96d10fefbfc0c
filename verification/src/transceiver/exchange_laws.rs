//! Laws on what each packet, command and alarm leads to, in terms of what was there before:
//! the bytes that are sent, what is still waited for, who is told, and what stays as it is.

use vstd::prelude::*;
use vstd::utf8::encode_utf8;

use super::commands::{Command, PublishCommand, SubscribeCommand, SubscriptionKind, UnsubCommand};
use super::commands::UnsubKind;
use super::packet_reader::{broker_supports_frame, decode_broker_frame, law_subscribe_is_received};
use super::packet_reader::law_unsubscribe_is_received;
use super::packets::{filters_bytes, packet_bytes, size_bytes, topics_bytes, BrokerPacketView};
use super::packets::{Filter, PacketType, PacketView, PublishView, SubscriptionResult};
use super::state::{awaiting, Timeout, TransceiverView};
use super::subscription::{covers, gathered, law_dispatch_hands_out_once, law_gathered_once};
use super::subscription::{law_dispatch_counts, matched_times, receiver_of};
use super::subscription::{law_callback_ids, law_dispatch_follows_patterns, pattern_matches};
use super::subscription::{law_only_closed_queues_are_removed, valid_pattern};
use super::subscription::{increasing, Recipient, SubscriptionView};
use super::tx_queue::{OutgoingView, TxView};
use super::util::IdType;
use crate::errors::PacketDecodeError;
use crate::shared::{lemma_present, lists, present, NotifyResult, SharedView, SubscriptionStateView};
use crate::QoS;

verus! {

/// A packet that holds a packet ID and nothing else has four bytes.
proof fn lemma_ack_bytes(t: PacketType, flags: u8, id: u16)
    requires
        flags < 16,
    ensures
        packet_bytes(t, flags, super::byte_io::be_bytes(id)) == seq![
            (t.spec_id() * 16 + flags) as u8,
            2u8,
            (id / 256) as u8,
            (id % 256) as u8,
        ],
{
    reveal_with_fuel(size_bytes, 2);
    assert(packet_bytes(t, flags, super::byte_io::be_bytes(id)) =~= seq![
        (t.spec_id() * 16 + flags) as u8,
        2u8,
        (id / 256) as u8,
        (id % 256) as u8,
    ]);
}

/// A `PUBREC` packet is always answered by one `PUBREL` packet, whoever waits for it. That
/// packet is stored until it is answered in turn; one that is stored already is sent again. The
/// message with that ID is no longer stored. Whoever awaits its reception is told, and nothing
/// else changes.
pub proof fn law_pub_rec_is_answered(t: TransceiverView, shared: SharedView, id: u16, now: u128)
    requires
        t.connected,
    ensures
        ({
            let step = t.on_packet(shared, PacketView::PubRec(id), now);
            let rel = (6 * 65536 + id) as u32;
            let publish = (3 * 65536 + id) as u32;
            let bytes = if t.pending.contains_key(rel) {
                t.pending[rel]
            } else {
                seq![0x62u8, 2u8, (id / 256) as u8, (id % 256) as u8]
            };
            &&& step.t == (TransceiverView {
                tx: TxView {
                    packets: t.tx.packets.push(OutgoingView { bytes, set_dup: false }),
                    pos: t.tx.pos,
                    immediate: t.tx.packets.len() == 0 || t.tx.immediate,
                },
                pending: t.pending.insert(rel, bytes).remove(publish),
                timeouts: if t.pending.contains_key(rel) {
                    t.timeouts
                } else {
                    t.timeouts.push(
                        Timeout { t: now, packet_id: IdType { ty: PacketType::PubRel, id } },
                    )
                },
                ..t
            })
            &&& step.t.pending.contains_key(rel) && step.t.pending[rel] == bytes
            &&& !step.t.pending.contains_key(publish)
            &&& step.shared == (SharedView {
                notify_rec: if t.pending.contains_key(publish) {
                    shared.notify_rec.remove(id as u32)
                } else {
                    shared.notify_rec
                },
                ..shared
            })
            &&& forall|w: u64| #[trigger]
                step.wakers.contains(w) <==> t.pending.contains_key(publish)
                    && shared.notify_rec.contains_key(id as u32) && shared.notify_rec[id as u32]
                    == NotifyResult::WithWaker(w)
            &&& step.wakers.len() <= 1
            &&& !step.stop && !step.deliver && step.connect_result is None
            &&& step.released == Seq::<Recipient>::empty()
        }),
{
    let step = t.on_packet(shared, PacketView::PubRec(id), now);
    let rel = (6 * 65536 + id) as u32;
    let publish = (3 * 65536 + id) as u32;
    lemma_ack_bytes(PacketType::PubRel, 2, id);
    let bytes = if t.pending.contains_key(rel) {
        t.pending[rel]
    } else {
        seq![0x62u8, 2u8, (id / 256) as u8, (id % 256) as u8]
    };
    assert(rel != publish);
    assert(step.t.pending =~= t.pending.insert(rel, bytes).remove(publish));
    lemma_one_waker(shared.notify_rec, id, step.wakers);
}

proof fn lemma_one_waker(map: Map<u32, NotifyResult>, id: u16, wakers: Seq<u64>)
    ensures
        wakers == super::state::waker_of(map, id) ==> (wakers.len() <= 1 && forall|w: u64| #[trigger]
            wakers.contains(w) <==> map.contains_key(id as u32) && map[id as u32]
                == NotifyResult::WithWaker(w)),
{
    if wakers == super::state::waker_of(map, id) {
        assert forall|w: u64| #[trigger] wakers.contains(w) <==> map.contains_key(id as u32)
            && map[id as u32] == NotifyResult::WithWaker(w) by {
            if map.contains_key(id as u32) && map[id as u32] == NotifyResult::WithWaker(w) {
                assert(wakers[0] == w);
            }
        }
    }
}

/// A `PUBACK` packet settles the message with its ID: it is no longer stored, whoever awaits
/// that. Who does is told. Nothing is sent, and nothing else changes.
pub proof fn law_pub_ack_settles(t: TransceiverView, shared: SharedView, id: u16, now: u128)
    requires
        t.connected,
    ensures
        ({
            let step = t.on_packet(shared, PacketView::PubAck(id), now);
            let publish = (3 * 65536 + id) as u32;
            &&& step.t == (TransceiverView { pending: t.pending.remove(publish), ..t })
            &&& !step.t.pending.contains_key(publish)
            &&& step.shared == (SharedView {
                notify_ack: if t.pending.contains_key(publish) {
                    shared.notify_ack.remove(id as u32)
                } else {
                    shared.notify_ack
                },
                ..shared
            })
            &&& forall|w: u64| #[trigger]
                step.wakers.contains(w) <==> t.pending.contains_key(publish)
                    && shared.notify_ack.contains_key(id as u32) && shared.notify_ack[id as u32]
                    == NotifyResult::WithWaker(w)
            &&& step.wakers.len() <= 1
            &&& !step.stop && !step.deliver && step.connect_result is None
            &&& step.released == Seq::<Recipient>::empty()
        }),
{
    let step = t.on_packet(shared, PacketView::PubAck(id), now);
    let publish = (3 * 65536 + id) as u32;
    assert(step.t.pending =~= t.pending.remove(publish));
    lemma_one_waker(shared.notify_ack, id, step.wakers);
}

/// A `PUBCOMP` packet settles the `PUBREL` packet with its ID: it is no longer stored, whoever
/// awaits that. Who does is told. Nothing is sent, and nothing else changes.
pub proof fn law_pub_comp_settles(t: TransceiverView, shared: SharedView, id: u16, now: u128)
    requires
        t.connected,
    ensures
        ({
            let step = t.on_packet(shared, PacketView::PubComp(id), now);
            let rel = (6 * 65536 + id) as u32;
            &&& step.t == (TransceiverView { pending: t.pending.remove(rel), ..t })
            &&& !step.t.pending.contains_key(rel)
            &&& step.shared == (SharedView {
                notify_comp: if t.pending.contains_key(rel) {
                    shared.notify_comp.remove(id as u32)
                } else {
                    shared.notify_comp
                },
                ..shared
            })
            &&& forall|w: u64| #[trigger]
                step.wakers.contains(w) <==> t.pending.contains_key(rel)
                    && shared.notify_comp.contains_key(id as u32) && shared.notify_comp[id as u32]
                    == NotifyResult::WithWaker(w)
            &&& step.wakers.len() <= 1
            &&& !step.stop && !step.deliver && step.connect_result is None
            &&& step.released == Seq::<Recipient>::empty()
        }),
{
    let step = t.on_packet(shared, PacketView::PubComp(id), now);
    let rel = (6 * 65536 + id) as u32;
    assert(step.t.pending =~= t.pending.remove(rel));
    lemma_one_waker(shared.notify_comp, id, step.wakers);
}

/// A `PUBREL` packet is always answered by one `PUBCOMP` packet, and the `PUBREC` packet with
/// its ID is no longer stored. Nothing else changes, and nobody is told.
pub proof fn law_pub_rel_is_answered(t: TransceiverView, shared: SharedView, id: u16, now: u128)
    requires
        t.connected,
    ensures
        ({
            let step = t.on_packet(shared, PacketView::PubRel(id), now);
            let rec = (5 * 65536 + id) as u32;
            &&& step.t == (TransceiverView {
                tx: TxView {
                    packets: t.tx.packets.push(
                        OutgoingView {
                            bytes: seq![0x70u8, 2u8, (id / 256) as u8, (id % 256) as u8],
                            set_dup: false,
                        },
                    ),
                    pos: t.tx.pos,
                    immediate: t.tx.packets.len() == 0 || t.tx.immediate,
                },
                pending: t.pending.remove(rec),
                ..t
            })
            &&& !step.t.pending.contains_key(rec)
            &&& step.shared == shared
            &&& step.wakers == Seq::<u64>::empty()
            &&& !step.stop && !step.deliver && step.connect_result is None
            &&& step.released == Seq::<Recipient>::empty()
        }),
{
    lemma_ack_bytes(PacketType::PubComp, 0, id);
}

/// An `UNSUBACK` packet settles the `UNSUBSCRIBE` packet with its ID: it is no longer stored.
/// Packets that answer nothing change nothing.
pub proof fn law_unsub_ack_settles(
    t: TransceiverView,
    shared: SharedView,
    id: u16,
    pkt: PacketView,
    now: u128,
)
    requires
        t.connected,
        pkt is UnsubAck || pkt is PingResp || pkt is ConnAck,
    ensures
        ({
            let step = t.on_packet(shared, pkt, now);
            &&& match pkt {
                PacketView::UnsubAck(id) => step.t == (TransceiverView {
                    pending: t.pending.remove((10 * 65536 + id) as u32),
                    ..t
                }) && !step.t.pending.contains_key((10 * 65536 + id) as u32),
                _ => step.t == t,
            }
            &&& step.shared == shared
            &&& step.wakers == Seq::<u64>::empty()
            &&& !step.stop && !step.deliver && step.connect_result is None
            &&& step.released == Seq::<Recipient>::empty()
        }),
{
}

/// A packet that is not stored any more is never sent again: after the answer to a stored
/// packet, that packet is not stored.
pub proof fn law_answer_ends_resending(
    t: TransceiverView,
    shared: SharedView,
    id: u16,
    now: u128,
)
    requires
        t.connected,
    ensures
        ({
            let publish = IdType { ty: PacketType::Publish, id };
            let rec = IdType { ty: PacketType::PubRec, id };
            let rel = IdType { ty: PacketType::PubRel, id };
            let unsub = IdType { ty: PacketType::Unsubscribe, id };
            let sub = IdType { ty: PacketType::Subscribe, id };
            &&& t.on_packet(shared, PacketView::PubAck(id), now).t.unanswered(publish) is None
            &&& t.on_packet(shared, PacketView::PubRec(id), now).t.unanswered(publish) is None
            &&& t.on_packet(shared, PacketView::PubRel(id), now).t.unanswered(rec) is None
            &&& t.on_packet(shared, PacketView::PubComp(id), now).t.unanswered(rel) is None
            &&& t.on_packet(shared, PacketView::UnsubAck(id), now).t.unanswered(unsub) is None
            &&& forall|results: Seq<SubscriptionResult>|
                (#[trigger] t.on_packet(
                    shared,
                    PacketView::SubAck((id, results)),
                    now,
                )).t.unanswered(sub) is None
        }),
{
    law_pub_ack_settles(t, shared, id, now);
    law_pub_rec_is_answered(t, shared, id, now);
    law_pub_rel_is_answered(t, shared, id, now);
    law_pub_comp_settles(t, shared, id, now);
    assert(IdType { ty: PacketType::Publish, id }.spec_key() == 3 * 65536 + id);
    assert(IdType { ty: PacketType::PubRec, id }.spec_key() == 5 * 65536 + id);
    assert(IdType { ty: PacketType::PubRel, id }.spec_key() == 6 * 65536 + id);
}

/// What is to be sent again for a packet is what is stored for it, a `SUBSCRIBE` packet under
/// its ID and any other packet under its type and ID.
pub proof fn law_unanswered_is_what_is_stored(t: TransceiverView, id: IdType)
    ensures
        id.ty == PacketType::Subscribe ==> t.unanswered(id) == (if t.pending_subs.contains_key(
            id.id as u32,
        ) {
            Some(t.pending_subs[id.id as u32].packet)
        } else {
            None
        }),
        id.ty != PacketType::Subscribe ==> ({
            let key = (id.ty.spec_id() * 65536 + id.id) as u32;
            t.unanswered(id) == (if t.pending.contains_key(key) {
                Some(t.pending[key])
            } else {
                None
            })
        }),
{
}

/// A message that comes in is acknowledged as its quality of service demands. At the lowest
/// one nothing is sent. At the next one a `PUBACK` packet is. At the highest one a `PUBREC`
/// packet is, and stored; if one is stored already the message was received before, the stored
/// one is sent again, and the message is not handed out. Any other message is handed out.
pub proof fn law_message_is_acknowledged(
    t: TransceiverView,
    shared: SharedView,
    msg: PublishView,
    now: u128,
)
    requires
        t.connected,
        msg.flags / 2 % 4 <= 2,
    ensures
        ({
            let step = t.on_packet(shared, PacketView::Publish(msg), now);
            let id = msg.packet_id;
            let qos = msg.flags / 2 % 4;
            let rec = (5 * 65536 + id) as u32;
            let known = qos == 2 && t.pending.contains_key(rec);
            let bytes = if known {
                t.pending[rec]
            } else {
                seq![
                    (if qos == 1 {
                        0x40u8
                    } else {
                        0x50u8
                    }),
                    2u8,
                    (id / 256) as u8,
                    (id % 256) as u8,
                ]
            };
            let sent = TxView {
                packets: t.tx.packets.push(OutgoingView { bytes, set_dup: false }),
                pos: t.tx.pos,
                immediate: t.tx.packets.len() == 0 || t.tx.immediate,
            };
            &&& step.t == (TransceiverView {
                tx: if qos == 0 {
                    t.tx
                } else {
                    sent
                },
                pending: if qos == 2 {
                    t.pending.insert(rec, bytes)
                } else {
                    t.pending
                },
                timeouts: if qos == 2 && !known {
                    t.timeouts.push(
                        Timeout { t: now, packet_id: IdType { ty: PacketType::PubRec, id } },
                    )
                } else {
                    t.timeouts
                },
                ..t
            })
            &&& step.deliver == !known
            &&& step.shared == shared
            &&& step.wakers == Seq::<u64>::empty()
            &&& !step.stop && step.connect_result is None
            &&& step.released == Seq::<Recipient>::empty()
        }),
{
    let step = t.on_packet(shared, PacketView::Publish(msg), now);
    lemma_ack_bytes(PacketType::PubAck, 0, msg.packet_id);
    lemma_ack_bytes(PacketType::PubRec, 0, msg.packet_id);
    let rec = (5 * 65536 + msg.packet_id) as u32;
    if t.pending.contains_key(rec) {
        assert(t.pending.insert(rec, t.pending[rec]) =~= t.pending);
    }
}

/// A message is handed to exactly the receivers that are subscribed to a pattern which matches
/// its topic.
pub proof fn law_message_reaches_subscribers(
    t: TransceiverView,
    topic: Seq<char>,
    r: Recipient,
)
    ensures
        t.recipients(topic).contains(r) <==> exists|p: Seq<char>| #[trigger]
            pattern_matches(p, topic) && match r {
                Recipient::Lossy(q) => t.subs[p].lossy.contains(q),
                Recipient::Unbounded(q) => t.subs[p].unbounded.contains(q),
                Recipient::Callback(id) => t.subs[p].callbacks.contains(id),
            },
{
    law_dispatch_follows_patterns(t.at(), topic, r);
    if exists|p: Seq<char>| #[trigger]
        pattern_matches(p, topic) && t.at()(p).recipients().contains(r) {
        let p = choose|p: Seq<char>| #[trigger]
            pattern_matches(p, topic) && t.at()(p).recipients().contains(r);
        super::subscription::law_recipients(t.subs[p], r);
        assert(pattern_matches(p, topic));
    }
    if exists|p: Seq<char>| #[trigger]
        pattern_matches(p, topic) && match r {
            Recipient::Lossy(q) => t.subs[p].lossy.contains(q),
            Recipient::Unbounded(q) => t.subs[p].unbounded.contains(q),
            Recipient::Callback(id) => t.subs[p].callbacks.contains(id),
        } {
        let p = choose|p: Seq<char>| #[trigger]
            pattern_matches(p, topic) && match r {
                Recipient::Lossy(q) => t.subs[p].lossy.contains(q),
                Recipient::Unbounded(q) => t.subs[p].unbounded.contains(q),
                Recipient::Callback(id) => t.subs[p].callbacks.contains(id),
            };
        super::subscription::law_recipients(t.subs[p], r);
        assert(t.at()(p).recipients().contains(r));
        assert(pattern_matches(p, topic) && t.at()(p).recipients().contains(r));
    }
}

/// A `SUBACK` packet settles the subscription with its ID by its first result, whatever other
/// results it holds: the `SUBSCRIBE` packet is no longer stored. If the broker accepts the
/// subscription, the client knows the quality of service that was granted, and the receiver is
/// added to the topic, which is subscribed to. If the broker refuses it, the client forgets the
/// topic. Who waits for the topic is told in both cases. A receiver that is not added is
/// released. One without results settles nothing but the packet, and one that answers nothing
/// changes nothing.
pub proof fn law_sub_ack_settles(
    t: TransceiverView,
    shared: SharedView,
    id: u16,
    results: Seq<SubscriptionResult>,
    now: u128,
)
    requires
        t.connected,
    ensures
        ({
            let step = t.on_packet(shared, PacketView::SubAck((id, results)), now);
            let sub = t.pending_subs[id as u32];
            let topic = sub.topic;
            let before = t.subs[topic];
            let asked = t.pending_subs.contains_key(id as u32);
            let accepted = asked && results.len() > 0 && results[0] is Ok;
            let refused = asked && results.len() > 0 && results[0] is Err;
            let added = accepted && valid_pattern(topic);
            &&& step.t == (TransceiverView {
                pending_subs: t.pending_subs.remove(id as u32),
                subs: step.t.subs,
                ..t
            })
            &&& !step.t.pending_subs.contains_key(id as u32)
            &&& !added ==> step.t.subs == t.subs
            &&& added ==> ({
                let after = step.t.subs[topic];
                &&& step.t.subs == t.subs.insert(topic, after)
                &&& after.subscribed
                &&& match sub.kind {
                    SubscriptionKind::Void => after == (SubscriptionView {
                        subscribed: true,
                        ..before
                    }),
                    SubscriptionKind::Lossy(q) => after == (SubscriptionView {
                        subscribed: true,
                        lossy: before.lossy.push(q),
                        ..before
                    }),
                    SubscriptionKind::Unbounded(q) => after == (SubscriptionView {
                        subscribed: true,
                        unbounded: before.unbounded.push(q),
                        ..before
                    }),
                    SubscriptionKind::FastCallback(cb) => after == (SubscriptionView {
                        subscribed: true,
                        callbacks: after.callbacks,
                        ..before
                    }) && (increasing(before.callbacks) ==> increasing(after.callbacks) && forall|
                        x: u32,
                    | #[trigger]
                        after.callbacks.contains(x) <==> before.callbacks.contains(x) || x == cb.id),
                }
            })
            &&& step.shared == (SharedView {
                subs: if accepted {
                    shared.subs.insert(topic, SubscriptionStateView::Existing(results[0]->Ok_0))
                } else if refused {
                    shared.subs.remove(topic)
                } else {
                    shared.subs
                },
                ..shared
            })
            &&& forall|w: u64| #[trigger]
                step.wakers.contains(w) <==> (accepted || refused) && shared.subs.contains_key(
                    topic,
                ) && (shared.subs[topic] matches SubscriptionStateView::Pending(wakers)
                    && wakers.contains(Some(w)))
            &&& (accepted || refused) && shared.subs.contains_key(topic) ==> (
            shared.subs[topic] matches SubscriptionStateView::Pending(wakers) ==> step.wakers
                == present(wakers))
            &&& step.released == (if !asked || added {
                Seq::empty()
            } else {
                match sub.kind {
                    SubscriptionKind::Void => Seq::<Recipient>::empty(),
                    SubscriptionKind::Lossy(q) => seq![Recipient::Lossy(q)],
                    SubscriptionKind::Unbounded(q) => seq![Recipient::Unbounded(q)],
                    SubscriptionKind::FastCallback(cb) => seq![Recipient::Callback(cb.id)],
                }
            })
            &&& !step.stop && !step.deliver && step.connect_result is None
        }),
{
    let step = t.on_packet(shared, PacketView::SubAck((id, results)), now);
    let sub = t.pending_subs[id as u32];
    let topic = sub.topic;
    if !t.pending_subs.contains_key(id as u32) {
        assert(t.pending_subs.remove(id as u32) =~= t.pending_subs);
    } else {
        if let SubscriptionKind::FastCallback(cb) = sub.kind {
            if increasing(t.subs[topic].callbacks) {
                law_callback_ids(t.subs[topic].callbacks, cb.id);
            }
        }
    }
    assert forall|w: u64| #[trigger] step.wakers.contains(w) <==> t.pending_subs.contains_key(
        id as u32,
    ) && results.len() > 0 && shared.subs.contains_key(topic) && (
    shared.subs[topic] matches SubscriptionStateView::Pending(wakers) && wakers.contains(
        Some(w),
    )) by {
        if shared.subs.contains_key(topic) {
            if let SubscriptionStateView::Pending(wakers) = shared.subs[topic] {
                lemma_present(wakers, w);
            }
        }
    }
}

/// A command to publish sends the packet of the message as it is. At the lowest quality of
/// service that is all. At any other one the packet is stored under its ID until it is
/// answered.
pub proof fn law_publish_sends(
    t: TransceiverView,
    shared: SharedView,
    cmd: PublishCommand,
    now: u128,
)
    ensures
        ({
            let step = t.on_command(shared, Command::Publish(cmd), now);
            let key = (3 * 65536 + cmd.packet_id) as u32;
            let stored = cmd.qos != QoS::AtMostOnce;
            &&& step.t == (TransceiverView {
                tx: TxView {
                    packets: t.tx.packets.push(
                        OutgoingView { bytes: cmd.packet@, set_dup: false },
                    ),
                    pos: t.tx.pos,
                    immediate: t.tx.packets.len() == 0 || t.tx.immediate,
                },
                pending: if stored {
                    t.pending.insert(key, cmd.packet@)
                } else {
                    t.pending
                },
                timeouts: if stored && !t.pending.contains_key(key) {
                    t.timeouts.push(
                        Timeout {
                            t: now,
                            packet_id: IdType { ty: PacketType::Publish, id: cmd.packet_id },
                        },
                    )
                } else {
                    t.timeouts
                },
                ..t
            })
            &&& step.shared == shared
            &&& !step.stop && step.released == Seq::<Recipient>::empty()
        }),
{
}

/// A command to subscribe to a topic that is not subscribed to sends exactly one packet. The
/// broker reads it as a `SUBSCRIBE` packet with the next packet ID, for that topic and nothing
/// else, with the quality of service of the command, whatever kind of subscription it is. The
/// packet is stored with the topic and the receiver until it is answered.
pub proof fn law_subscribe_sends(
    t: TransceiverView,
    shared: SharedView,
    cmd: SubscribeCommand,
    now: u128,
)
    requires
        !t.subs[cmd.topic@].subscribed,
        encode_utf8(cmd.topic@).len() <= 65535,
    ensures
        ({
            let step = t.on_command(shared, Command::Subscribe(cmd), now);
            let id = shared.next_packet_id;
            let bytes = step.t.tx.packets.last().bytes;
            &&& step.t.tx == (TxView {
                packets: t.tx.packets.push(OutgoingView { bytes, set_dup: false }),
                pos: t.tx.pos,
                immediate: t.tx.packets.len() == 0 || t.tx.immediate,
            })
            &&& bytes[0] == 0x82
            &&& broker_supports_frame(bytes)
            &&& decode_broker_frame(bytes) == Ok::<BrokerPacketView, PacketDecodeError>(
                BrokerPacketView::Subscribe((id, seq![(cmd.topic@, cmd.qos)])),
            )
            &&& step.t.pending_subs == t.pending_subs.insert(
                id as u32,
                super::state::PendingSubView { topic: cmd.topic@, kind: cmd.kind, packet: bytes },
            )
            &&& step.t.timeouts == t.timeouts.push(
                Timeout { t: now, packet_id: IdType { ty: PacketType::Subscribe, id } },
            )
            &&& step.t == (TransceiverView {
                tx: step.t.tx,
                pending_subs: step.t.pending_subs,
                timeouts: step.t.timeouts,
                ..t
            })
            &&& step.shared == (SharedView {
                next_packet_id: if id == 65535 {
                    0
                } else {
                    (id + 1) as u16
                },
                ..shared
            })
            &&& !step.stop && step.released == Seq::<Recipient>::empty()
        }),
{
    let step = t.on_command(shared, Command::Subscribe(cmd), now);
    let filters: Seq<Filter> = seq![(cmd.topic@, cmd.qos)];
    law_subscribe_is_received(shared.next_packet_id, filters);
    assert(step.t.tx.packets.last().bytes == packet_bytes(
        PacketType::Subscribe,
        2,
        super::byte_io::be_bytes(shared.next_packet_id) + filters_bytes(filters),
    ));
}

/// A command to subscribe to a topic that is subscribed to sends nothing, whatever quality of
/// service it asks for. It adds its receiver to the topic, and nothing else changes.
pub proof fn law_subscribe_adds_receiver(
    t: TransceiverView,
    shared: SharedView,
    cmd: SubscribeCommand,
    now: u128,
)
    requires
        t.subs[cmd.topic@].subscribed,
        increasing(t.subs[cmd.topic@].callbacks),
    ensures
        ({
            let step = t.on_command(shared, Command::Subscribe(cmd), now);
            let before = t.subs[cmd.topic@];
            let after = step.t.subs[cmd.topic@];
            &&& step.t == (TransceiverView { subs: t.subs.insert(cmd.topic@, after), ..t })
            &&& match cmd.kind {
                SubscriptionKind::Void => after == before,
                SubscriptionKind::Lossy(q) => after == (SubscriptionView {
                    lossy: before.lossy.push(q),
                    ..before
                }),
                SubscriptionKind::Unbounded(q) => after == (SubscriptionView {
                    unbounded: before.unbounded.push(q),
                    ..before
                }),
                SubscriptionKind::FastCallback(cb) => after == (SubscriptionView {
                    callbacks: after.callbacks,
                    ..before
                }) && increasing(after.callbacks) && forall|x: u32| #[trigger]
                    after.callbacks.contains(x) <==> before.callbacks.contains(x) || x == cb.id,
            }
            &&& step.shared == shared
            &&& !step.stop && step.released == Seq::<Recipient>::empty()
        }),
{
    if let SubscriptionKind::FastCallback(cb) = cmd.kind {
        law_callback_ids(t.subs[cmd.topic@].callbacks, cb.id);
    }
}

/// A command to unsubscribe from a topic that is subscribed to sends exactly one packet. The
/// broker reads it as an `UNSUBSCRIBE` packet with the next packet ID, for that topic and
/// nothing else. It is stored until it is answered. All receivers of the topic are released,
/// and the client forgets the topic. No other topic changes. If the topic is not subscribed to,
/// nothing happens.
pub proof fn law_unsubscribe_sends(
    t: TransceiverView,
    shared: SharedView,
    cmd: UnsubCommand,
    now: u128,
)
    requires
        cmd.kind == UnsubKind::Immediate,
        encode_utf8(cmd.topic@).len() <= 65535,
    ensures
        ({
            let step = t.on_command(shared, Command::Unsub(cmd), now);
            let topic = cmd.topic@;
            let id = shared.next_packet_id;
            let bytes = step.t.tx.packets.last().bytes;
            let key = (10 * 65536 + id) as u32;
            &&& !t.subs[topic].subscribed ==> step.t == t && step.shared == shared && step.released
                == Seq::<Recipient>::empty()
            &&& t.subs[topic].subscribed ==> ({
                &&& step.t == (TransceiverView {
                    tx: TxView {
                        packets: t.tx.packets.push(OutgoingView { bytes, set_dup: false }),
                        pos: t.tx.pos,
                        immediate: t.tx.packets.len() == 0 || t.tx.immediate,
                    },
                    subs: t.subs.insert(
                        topic,
                        SubscriptionView {
                            lossy: Seq::empty(),
                            unbounded: Seq::empty(),
                            callbacks: Seq::empty(),
                            subscribed: false,
                        },
                    ),
                    pending: t.pending.insert(key, bytes),
                    timeouts: if t.pending.contains_key(key) {
                        t.timeouts
                    } else {
                        t.timeouts.push(
                            Timeout {
                                t: now,
                                packet_id: IdType { ty: PacketType::Unsubscribe, id },
                            },
                        )
                    },
                    ..t
                })
                &&& bytes[0] == 0xa2
                &&& broker_supports_frame(bytes)
                &&& decode_broker_frame(bytes) == Ok::<BrokerPacketView, PacketDecodeError>(
                    BrokerPacketView::Unsubscribe((id, seq![topic])),
                )
                &&& step.shared == (SharedView {
                    subs: shared.subs.remove(topic),
                    next_packet_id: if id == 65535 {
                        0
                    } else {
                        (id + 1) as u16
                    },
                    ..shared
                })
                &&& forall|r: Recipient| #[trigger]
                    step.released.contains(r) <==> match r {
                        Recipient::Lossy(q) => t.subs[topic].lossy.contains(q),
                        Recipient::Unbounded(q) => t.subs[topic].unbounded.contains(q),
                        Recipient::Callback(id) => t.subs[topic].callbacks.contains(id),
                    }
                &&& step.released.len() == t.subs[topic].lossy.len() + t.subs[topic].unbounded.len()
                    + t.subs[topic].callbacks.len()
            })
            &&& !step.stop
        }),
{
    let step = t.on_command(shared, Command::Unsub(cmd), now);
    let topic = cmd.topic@;
    let topics = seq![topic];
    law_unsubscribe_is_received(shared.next_packet_id, topics);
    if t.subs[topic].subscribed {
        assert(step.t.tx.packets.last().bytes == packet_bytes(
            PacketType::Unsubscribe,
            2,
            super::byte_io::be_bytes(shared.next_packet_id) + topics_bytes(topics),
        ));
        assert forall|r: Recipient| #[trigger] step.released.contains(r) <==> match r {
            Recipient::Lossy(q) => t.subs[topic].lossy.contains(q),
            Recipient::Unbounded(q) => t.subs[topic].unbounded.contains(q),
            Recipient::Callback(id) => t.subs[topic].callbacks.contains(id),
        } by {
            super::subscription::law_recipients(t.subs[topic], r);
        }
    }
}

/// A command to remove a callback removes it from the callbacks of the topic and releases it
/// if it was there. Nothing is sent, and nothing else changes. A command to disconnect stops
/// the transceiver, and no other command does.
pub proof fn law_remove_callback(
    t: TransceiverView,
    shared: SharedView,
    cmd: UnsubCommand,
    id: u32,
    now: u128,
)
    requires
        cmd.kind == UnsubKind::FastCallback(id),
        increasing(t.subs[cmd.topic@].callbacks),
    ensures
        ({
            let step = t.on_command(shared, Command::Unsub(cmd), now);
            let before = t.subs[cmd.topic@];
            let after = step.t.subs[cmd.topic@];
            &&& step.t == (TransceiverView { subs: t.subs.insert(cmd.topic@, after), ..t })
            &&& after == (SubscriptionView { callbacks: after.callbacks, ..before })
            &&& increasing(after.callbacks)
            &&& forall|x: u32| #[trigger]
                after.callbacks.contains(x) <==> before.callbacks.contains(x) && x != id
            &&& step.released == (if before.callbacks.contains(id) {
                seq![Recipient::Callback(id)]
            } else {
                Seq::empty()
            })
            &&& step.shared == shared
            &&& !step.stop
        }),
        ({
            let step = t.on_command(shared, Command::Disconnect, now);
            step.stop && step.t == t && step.shared == shared && step.released == Seq::<
                Recipient,
            >::empty()
        }),
{
    law_callback_ids(t.subs[cmd.topic@].callbacks, id);
}

/// What is sent again for the timeouts from the `i`th up to the `k`th: what is stored for each,
/// marked as a duplicate if it is a `PUBLISH` packet, and nothing if nothing is stored.
pub open spec fn repeats(t: TransceiverView, i: nat, k: nat) -> Seq<OutgoingView>
    decreases k - i,
{
    if i >= k {
        Seq::empty()
    } else {
        let id = t.timeouts[i as int].packet_id;
        let key = (id.ty.spec_id() * 65536 + id.id) as u32;
        (if id.ty == PacketType::Subscribe {
            if t.pending_subs.contains_key(id.id as u32) {
                seq![OutgoingView { bytes: t.pending_subs[id.id as u32].packet, set_dup: false }]
            } else {
                Seq::empty()
            }
        } else if t.pending.contains_key(key) {
            seq![OutgoingView { bytes: t.pending[key], set_dup: id.ty == PacketType::Publish }]
        } else {
            Seq::empty()
        }) + repeats(t, i + 1, k)
    }
}

/// The timeouts from the `i`th up to the `k`th whose packets are still stored, as of `now`.
pub open spec fn renewed(t: TransceiverView, i: nat, k: nat, now: u128) -> Seq<Timeout>
    decreases k - i,
{
    if i >= k {
        Seq::empty()
    } else {
        let id = t.timeouts[i as int].packet_id;
        let key = (id.ty.spec_id() * 65536 + id.id) as u32;
        (if id.ty == PacketType::Subscribe && t.pending_subs.contains_key(id.id as u32) || id.ty
            != PacketType::Subscribe && t.pending.contains_key(key) {
            seq![Timeout { t: now, packet_id: id }]
        } else {
            Seq::empty()
        }) + renewed(t, i + 1, k, now)
    }
}

proof fn lemma_shifted(t: TransceiverView, u: TransceiverView, i: nat, k: nat, now: u128)
    requires
        1 <= i,
        k <= t.timeouts.len(),
        forall|j: int| 1 <= j < k ==> #[trigger] t.timeouts[j] == u.timeouts[j - 1],
        u.pending == t.pending,
        u.pending_subs == t.pending_subs,
    ensures
        k >= 1 ==> repeats(t, i, k) == repeats(u, (i - 1) as nat, (k - 1) as nat),
        k >= 1 ==> renewed(t, i, k, now) == renewed(u, (i - 1) as nat, (k - 1) as nat, now),
    decreases k - i,
{
    if i < k {
        assert(t.timeouts[i as int] == u.timeouts[i - 1]);
        lemma_shifted(t, u, i + 1, k, now);
    }
}

/// For each timeout in turn: a `PUBLISH` packet that is still stored is sent again marked as a
/// duplicate, any other packet that is still stored is sent again as it is, and the time of both
/// starts anew. For a packet that is not stored any more nothing is sent.
pub proof fn law_each_timeout(t: TransceiverView, i: nat, k: nat, now: u128)
    requires
        i < k,
    ensures
        ({
            let timeout = t.timeouts[i as int];
            let id = timeout.packet_id;
            let key = (id.ty.spec_id() * 65536 + id.id) as u32;
            let sub = id.ty == PacketType::Subscribe;
            let later = repeats(t, i + 1, k);
            let later_timeouts = renewed(t, i + 1, k, now);
            let again = seq![Timeout { t: now, packet_id: id }];
            &&& id.ty == PacketType::Publish && t.pending.contains_key(key) ==> repeats(t, i, k)
                == seq![OutgoingView { bytes: t.pending[key], set_dup: true }] + later && renewed(
                t,
                i,
                k,
                now,
            ) == again + later_timeouts
            &&& id.ty != PacketType::Publish && !sub && t.pending.contains_key(key) ==> repeats(
                t,
                i,
                k,
            ) == seq![OutgoingView { bytes: t.pending[key], set_dup: false }] + later && renewed(
                t,
                i,
                k,
                now,
            ) == again + later_timeouts
            &&& sub && t.pending_subs.contains_key(id.id as u32) ==> repeats(t, i, k) == seq![
                OutgoingView { bytes: t.pending_subs[id.id as u32].packet, set_dup: false },
            ] + later && renewed(t, i, k, now) == again + later_timeouts
            &&& (sub && !t.pending_subs.contains_key(id.id as u32)) || (!sub
                && !t.pending.contains_key(key)) ==> repeats(t, i, k) == later && renewed(
                t,
                i,
                k,
                now,
            ) == later_timeouts
        }),
        repeats(t, k, k) == Seq::<OutgoingView>::empty(),
        renewed(t, k, k, now) == Seq::<Timeout>::empty(),
{
    assert(Seq::<OutgoingView>::empty() + repeats(t, i + 1, k) =~= repeats(t, i + 1, k));
    assert(Seq::<Timeout>::empty() + renewed(t, i + 1, k, now) =~= renewed(t, i + 1, k, now));
}

/// What is sent again starts with what is sent again for the first timeout.
proof fn lemma_first_of_several(t: TransceiverView, k: nat, now: u128)
    requires
        0 < k,
    ensures
        repeats(t, 0, k) == repeats(t, 0, 1) + repeats(t, 1, k),
        renewed(t, 0, k, now) == renewed(t, 0, 1, now) + renewed(t, 1, k, now),
{
    assert(repeats(t, 1, 1) =~= Seq::empty());
    assert(renewed(t, 1, 1, now) =~= Seq::empty());
    assert(repeats(t, 0, k) =~= repeats(t, 0, 1) + repeats(t, 1, k));
    assert(renewed(t, 0, k, now) =~= renewed(t, 0, 1, now) + renewed(t, 1, k, now));
}

proof fn lemma_oldest(t: TransceiverView, now: u128)
    requires
        t.timeouts.len() > 0,
    ensures
        ({
            let u = t.resending_oldest(now);
            &&& u.tx.packets == t.tx.packets + repeats(t, 0, 1)
            &&& u.tx.pos == t.tx.pos
            &&& u.tx.immediate == (t.tx.immediate || t.tx.packets.len() == 0
                && u.tx.packets.len() > 0)
            &&& u.timeouts == t.timeouts.skip(1) + renewed(t, 0, 1, now)
            &&& u == (TransceiverView { tx: u.tx, timeouts: u.timeouts, ..t })
        }),
{
    let u = t.resending_oldest(now);
    assert(repeats(t, 1, 1) =~= Seq::empty());
    assert(renewed(t, 1, 1, now) =~= Seq::empty());
    assert(u.tx.packets =~= t.tx.packets + repeats(t, 0, 1));
    assert(u.timeouts =~= t.timeouts.skip(1) + renewed(t, 0, 1, now));
}

proof fn lemma_resending(t: TransceiverView, now: u128, count: nat, k: nat)
    requires
        k <= count <= t.timeouts.len(),
        forall|j: int|
            0 <= j < k ==> t.packet_resend_delay == 0 || (#[trigger] t.timeouts[j]).t
                + t.packet_resend_delay <= now,
        k < count ==> t.packet_resend_delay > 0 && t.timeouts[k as int].t + t.packet_resend_delay
            > now,
    ensures
        ({
            let u = t.resending(now, count);
            &&& u.tx.packets == t.tx.packets + repeats(t, 0, k)
            &&& u.tx.pos == t.tx.pos
            &&& u.tx.immediate == (t.tx.immediate || t.tx.packets.len() == 0
                && u.tx.packets.len() > 0)
            &&& u.timeouts == t.timeouts.skip(k as int) + renewed(t, 0, k, now)
            &&& u == (TransceiverView { tx: u.tx, timeouts: u.timeouts, ..t })
        }),
    decreases count,
{
    if k == 0 {
        assert(repeats(t, 0, 0) =~= Seq::empty());
        assert(renewed(t, 0, 0, now) =~= Seq::empty());
        assert(t.tx.packets + repeats(t, 0, 0) =~= t.tx.packets);
        assert(t.timeouts.skip(0) + renewed(t, 0, 0, now) =~= t.timeouts);
        if count > 0 {
            assert(!t.is_due(now));
        }
    } else {
        let u = t.resending_oldest(now);
        let k1 = (k - 1) as nat;
        let n1 = (count - 1) as nat;
        let e = renewed(t, 0, 1, now);
        let later = renewed(t, 1, k, now);
        lemma_oldest(t, now);
        assert(t.timeouts[0].t + t.packet_resend_delay <= now || t.packet_resend_delay == 0);
        assert(t.is_due(now));
        assert(t.resending(now, count) == u.resending(now, n1));
        assert forall|j: int| 1 <= j < t.timeouts.len() implies #[trigger] t.timeouts[j]
            == u.timeouts[j - 1] by {}
        assert forall|j: int| 0 <= j < k1 implies u.packet_resend_delay == 0 || (
        #[trigger] u.timeouts[j]).t + u.packet_resend_delay <= now by {
            assert(t.timeouts[j + 1] == u.timeouts[j]);
        }
        if k < count {
            assert(u.timeouts[k1 as int] == t.timeouts[k as int]);
        }
        lemma_resending(u, now, n1, k1);
        lemma_shifted(t, u, 1, k, now);
        lemma_first_of_several(t, k, now);
        assert(t.tx.packets + repeats(t, 0, 1) + repeats(t, 1, k) =~= t.tx.packets + (repeats(
            t,
            0,
            1,
        ) + repeats(t, 1, k)));
        assert(u.timeouts.skip(k1 as int) =~= t.timeouts.skip(k as int) + e);
        assert(t.timeouts.skip(k as int) + e + later =~= t.timeouts.skip(k as int) + (e + later));
    }
}

/// An alarm sends a `PINGREQ` packet if and only if no packet was transmitted for the ping
/// interval, and then counts as a transmission. Of the oldest timeouts, those `k` that were
/// reached before the first one that was not: each packet that is still stored is sent once
/// more as it is, marked as a duplicate if and only if it is a `PUBLISH` packet, and its time
/// starts anew; the others are forgotten. Nothing else is sent, and nothing else changes.
pub proof fn law_alarm(t: TransceiverView, now: u128, k: nat)
    requires
        t.connected,
        k <= t.timeouts.len(),
        forall|j: int|
            0 <= j < k ==> t.packet_resend_delay == 0 || (#[trigger] t.timeouts[j]).t
                + t.packet_resend_delay <= now,
        k < t.timeouts.len() ==> t.packet_resend_delay > 0 && t.timeouts[k as int].t
            + t.packet_resend_delay > now,
    ensures
        ({
            let u = t.on_alarm(now);
            let silent = t.ping_interval == 0 || t.last_tx + t.ping_interval <= now;
            let ping = if silent {
                seq![OutgoingView { bytes: seq![0xc0u8, 0u8], set_dup: false }]
            } else {
                Seq::empty()
            };
            &&& u.tx.packets == t.tx.packets + ping + repeats(t, 0, k)
            &&& u.tx.pos == t.tx.pos
            &&& u.tx.immediate == (t.tx.immediate || t.tx.packets.len() == 0
                && u.tx.packets.len() > 0)
            &&& u.timeouts == t.timeouts.skip(k as int) + renewed(t, 0, k, now)
            &&& u.last_tx == (if silent {
                now
            } else {
                t.last_tx
            })
            &&& u == (TransceiverView {
                tx: u.tx,
                timeouts: u.timeouts,
                last_tx: u.last_tx,
                ..t
            })
        }),
{
    let v = t.pinging(now);
    lemma_resending(v, now, t.timeouts.len(), k);
    lemma_same(t, v, 0, k, now);
    reveal_with_fuel(size_bytes, 2);
    assert(super::state::ping_packet() =~= seq![0xc0u8, 0u8]);
    let silent = t.ping_interval == 0 || t.last_tx + t.ping_interval <= now;
    let ping = if silent {
        seq![OutgoingView { bytes: seq![0xc0u8, 0u8], set_dup: false }]
    } else {
        Seq::empty()
    };
    assert(v.tx.packets =~= t.tx.packets + ping);
}

/// Before the connection is answered, an alarm does nothing.
pub proof fn law_alarm_before_connection(t: TransceiverView, now: u128)
    requires
        !t.connected,
    ensures
        t.on_alarm(now) == t,
{
}

proof fn lemma_same(t: TransceiverView, u: TransceiverView, i: nat, k: nat, now: u128)
    requires
        u.timeouts == t.timeouts,
        u.pending == t.pending,
        u.pending_subs == t.pending_subs,
    ensures
        repeats(t, i, k) == repeats(u, i, k),
        renewed(t, i, k, now) == renewed(u, i, k, now),
    decreases k - i,
{
    if i < k {
        lemma_same(t, u, i + 1, k, now);
    }
}

/// When the transceiver starts, it has the `CONNECT` packet to transmit and nothing else: no
/// packet is stored, no topic has receivers, and the broker has not answered.
pub proof fn law_start(packet: Seq<u8>, ping: u128, delay: u128, now: u128, p: Seq<char>)
    ensures
        ({
            let t = TransceiverView::starting(packet, ping, delay, now);
            &&& t.tx.packets == seq![OutgoingView { bytes: packet, set_dup: false }]
            &&& t.tx.pos == 0 && t.tx.immediate
            &&& !t.connected && !t.disconnect_sent && !t.cmd_queue_closed
            &&& t.pending == Map::<u32, Seq<u8>>::empty()
            &&& t.pending_subs == Map::<u32, super::state::PendingSubView>::empty()
            &&& t.timeouts == Seq::<Timeout>::empty()
            &&& t.subs[p].lossy.len() == 0 && t.subs[p].unbounded.len() == 0
            &&& t.subs[p].callbacks.len() == 0 && !t.subs[p].subscribed
            &&& t.ping_interval == ping && t.packet_resend_delay == delay && t.last_tx == now
        }),
{
    assert(TransceiverView::starting(packet, ping, delay, now).tx.packets =~= seq![
        OutgoingView { bytes: packet, set_dup: false },
    ]);
}

/// A graceful disconnect sends the two bytes of a `DISCONNECT` packet.
pub proof fn law_disconnect_bytes(t: TransceiverView)
    ensures
        t.sending(super::state::disconnect_packet(), false) == (TransceiverView {
            tx: TxView {
                packets: t.tx.packets.push(
                    OutgoingView { bytes: seq![0xe0u8, 0u8], set_dup: false },
                ),
                pos: t.tx.pos,
                immediate: t.tx.packets.len() == 0 || t.tx.immediate,
            },
            ..t
        }),
{
    reveal_with_fuel(size_bytes, 2);
    assert(super::state::disconnect_packet() =~= seq![0xe0u8, 0u8]);
}

/// Queues that turn out to be closed are removed from the patterns that match the topic of the
/// message, and from no other; the queues that are not closed stay, and so does everything
/// else.
pub proof fn law_closed_queues(
    t: TransceiverView,
    topic: Seq<char>,
    closed: Seq<Recipient>,
    p: Seq<char>,
)
    ensures
        ({
            let u = t.without_closed(topic, closed);
            &&& u == (TransceiverView { subs: u.subs, ..t })
            &&& !pattern_matches(p, topic) ==> u.subs[p] == t.subs[p]
            &&& pattern_matches(p, topic) ==> ({
                &&& u.subs[p].lossy.to_multiset() == t.subs[p].lossy.to_multiset().filter(
                    |q: u64| !closed.contains(Recipient::Lossy(q)),
                )
                &&& u.subs[p].unbounded.to_multiset() == t.subs[p].unbounded.to_multiset().filter(
                    |q: u64| !closed.contains(Recipient::Unbounded(q)),
                )
                &&& u.subs[p].callbacks == t.subs[p].callbacks
                &&& u.subs[p].subscribed == t.subs[p].subscribed
            })
        }),
{
    let lossy = t.subs[p].lossy;
    let unbounded = t.subs[p].unbounded;
    law_only_closed_queues_are_removed(lossy, 0, closed, true);
    law_only_closed_queues_are_removed(unbounded, 0, closed, false);
    assert(lossy.to_multiset().filter(
        |q: u64| !closed.contains(super::subscription::queue_recipient(true, q)),
    ) =~= lossy.to_multiset().filter(|q: u64| !closed.contains(Recipient::Lossy(q))));
    assert(unbounded.to_multiset().filter(
        |q: u64| !closed.contains(super::subscription::queue_recipient(false, q)),
    ) =~= unbounded.to_multiset().filter(|q: u64| !closed.contains(Recipient::Unbounded(q))));
}

/// Handing a message out does not change to whom the next one goes: the recipients of a topic
/// depend on the subscriptions and on nothing else. A topic that only one pattern matches goes
/// to the receivers of that pattern, each as often as it is there.
pub proof fn law_recipients_depend_on_subscriptions(
    t: TransceiverView,
    u: TransceiverView,
    topic: Seq<char>,
)
    requires
        t.subs == u.subs,
    ensures
        t.recipients(topic) == u.recipients(topic),
{
    assert(t.at() =~= u.at());
}

/// A message is handed to a receiver as often as the patterns that match its topic hold the
/// receiver, all together.
pub proof fn law_message_is_counted(
    t: TransceiverView,
    patterns: Seq<Seq<char>>,
    topic: Seq<char>,
    r: Recipient,
)
    requires
        patterns.no_duplicates(),
        forall|p: Seq<char>| (#[trigger] t.subs[p]).recipients().contains(r) ==> patterns.contains(p),
    ensures
        t.recipients(topic).to_multiset().count(r) == matched_times(
            |p: Seq<char>| t.subs[p],
            patterns,
            topic,
            r,
        ),
{
    let at = |p: Seq<char>| t.subs[p];
    assert(t.at() =~= at);
    law_dispatch_counts(at, patterns, topic, r);
}

/// A message is handed to a receiver that is held under one pattern only as often as it is held
/// there, if that pattern matches the topic, and otherwise not at all. When the transceiver
/// shuts down, a receiver that is held under one pattern only, and that no pending subscription
/// has, is released as often as it is held there.
pub proof fn law_receivers_are_counted(
    t: TransceiverView,
    pattern: Seq<char>,
    topic: Seq<char>,
    held: Seq<Recipient>,
    r: Recipient,
)
    requires
        forall|p: Seq<char>| p != pattern ==> !(#[trigger] t.subs[p]).recipients().contains(r),
        forall|k: u32| #[trigger]
            t.pending_subs.contains_key(k) ==> !receiver_of(t.pending_subs[k].kind).contains(r),
        t.holds(held),
    ensures
        t.recipients(topic).to_multiset().count(r) == (if pattern_matches(pattern, topic) {
            t.subs[pattern].recipients().to_multiset().count(r)
        } else {
            0
        }),
        held.to_multiset().count(r) == t.subs[pattern].recipients().to_multiset().count(r),
{
    broadcast use vstd::seq_lib::group_to_multiset_ensures;

    assert forall|p: Seq<char>| p != pattern implies !(#[trigger] t.at()(
        p,
    )).recipients().contains(r) by {
        assert(!t.subs[p].recipients().contains(r));
    }
    law_dispatch_hands_out_once(t.at(), pattern, topic, r);
    let (patterns, ids) = choose|patterns: Seq<Seq<char>>, ids: Seq<u32>|
        #![trigger covers(t.at(), patterns), lists(ids, t.pending_subs.dom())]
        {
            &&& covers(t.at(), patterns)
            &&& lists(ids, t.pending_subs.dom())
            &&& held == gathered(t.at(), patterns) + awaiting(t.pending_subs, ids)
        };
    law_gathered_once(t.at(), patterns, pattern, r);
    assert forall|i: int| 0 <= i < ids.len() implies !receiver_of(
        t.pending_subs[#[trigger] ids[i]].kind,
    ).contains(r) by {
        assert(ids.to_set().contains(ids[i]));
        assert(t.pending_subs.contains_key(ids[i]));
    }
    lemma_not_awaiting(t.pending_subs, ids, r);
    let a = gathered(t.at(), patterns);
    let b = awaiting(t.pending_subs, ids);
    vstd::seq_lib::lemma_multiset_commutative(a, b);
    assert(b.to_multiset().count(r) == 0);
}

proof fn lemma_not_awaiting(
    subs: Map<u32, super::state::PendingSubView>,
    ids: Seq<u32>,
    r: Recipient,
)
    requires
        forall|i: int|
            0 <= i < ids.len() ==> !receiver_of(subs[#[trigger] ids[i]].kind).contains(r),
    ensures
        !awaiting(subs, ids).contains(r),
    decreases ids.len(),
{
    if ids.len() > 0 {
        let rest = ids.drop_last();
        assert forall|i: int| 0 <= i < rest.len() implies !receiver_of(
            subs[#[trigger] rest[i]].kind,
        ).contains(r) by {
            assert(rest[i] == ids[i]);
        }
        lemma_not_awaiting(subs, rest, r);
        assert(ids[ids.len() - 1] == ids.last());
        let all = awaiting(subs, ids);
        if all.contains(r) {
            let i = all.index_of(r);
            let a = awaiting(subs, rest);
            if i < a.len() {
                assert(a[i] == r);
            } else {
                assert(receiver_of(subs[ids.last()].kind)[i - a.len()] == r);
            }
        }
    }
}

} // verus!
