//! Laws on how a transceiver follows the protocol.

use vstd::prelude::*;

use super::commands::{command_fits, Command, SubscribeCommand, SubscriptionKind, UnsubKind};
use super::laws::{law_alarms_keep_soundness, law_closed_queues_keep_soundness};
use super::laws::{law_commands_keep_soundness, law_packets_keep_soundness, lemma_fewer_pending};
use super::packets::{flags_qos, packet_bytes, valid_publish_flags, PublishView};
use super::packets::{PacketType, PacketView, SubscriptionResult};
use super::state::{awaiting, disconnect_packet, elapsed, ping_packet, pub_ack_packet};
use super::state::{pub_comp_packet, pub_rec_packet, unsubscribe_packet};
use super::state::{PendingSubView, Timeout, TransceiverView};
use super::subscription::{covers, gathered, increasing, law_added_receiver_is_reached};
use super::subscription::{law_callback_ids, law_gathered_is_everything, receiver_of};
use super::subscription::{law_matching_patterns_are_valid, pattern_matches};
use super::subscription::{Recipient, SubscriptionView};
use super::tx_queue::{law_queue_is_fifo, wire_all, OutgoingView};
use super::util::{law_keys_are_unique, IdType};
use crate::errors::ServerConnectError;
use crate::shared::{lists, SharedView};
use crate::QoS;

verus! {

/// Something that happens to a transceiver.
pub enum Event {
    /// A packet comes in
    Packet(PacketView),
    /// A command comes in
    Command(Command),
    /// The alarm goes off
    Alarm,
    /// Queues turn out to be closed when a message with this topic is handed to them
    Closed(Seq<char>, Seq<Recipient>),
    /// So many bytes of the current packet are written
    Written(nat),
    /// The connection is about to be ended
    Disconnect,
}

/// The states after an event.
pub open spec fn after(
    t: TransceiverView,
    shared: SharedView,
    event: Event,
    now: u128,
) -> (TransceiverView, SharedView) {
    match event {
        Event::Packet(pkt) => (t.on_packet(shared, pkt, now).t, t.on_packet(shared, pkt, now).shared),
        Event::Command(cmd) => (
            t.on_command(shared, cmd, now).t,
            t.on_command(shared, cmd, now).shared,
        ),
        Event::Alarm => (t.on_alarm(now), shared),
        Event::Closed(topic, closed) => (t.without_closed(topic, closed), shared),
        Event::Written(n) => (
            TransceiverView {
                tx: t.tx.after_write(n),
                last_tx: if t.tx.completes(n) {
                    now
                } else {
                    t.last_tx
                },
                ..t
            },
            shared,
        ),
        Event::Disconnect => (t.sending(disconnect_packet(), false), shared),
    }
}

/// The states after some events, each with its time.
pub open spec fn after_all(
    t: TransceiverView,
    shared: SharedView,
    events: Seq<(Event, u128)>,
) -> (TransceiverView, SharedView)
    decreases events.len(),
{
    if events.len() == 0 {
        (t, shared)
    } else {
        let (t, shared) = after_all(t, shared, events.drop_last());
        after(t, shared, events.last().0, events.last().1)
    }
}

/// Whether a packet is what a pending packet waits for.
pub open spec fn answers(pkt: PacketView, id: IdType) -> bool {
    match pkt {
        PacketView::PubAck(x) => id == IdType::spec_publish(x),
        PacketView::PubRec(x) => id == IdType::spec_publish(x),
        PacketView::PubRel(x) => id == IdType::spec_pub_rec(x),
        PacketView::PubComp(x) => id == IdType::spec_pub_rel(x),
        PacketView::UnsubAck(x) => id == IdType::spec_unsubscribe(x),
        _ => false,
    }
}

/// Whether an event uses the ID of a pending packet again, for another packet.
pub open spec fn reuses(event: Event, shared: SharedView, id: IdType) -> bool {
    match event {
        Event::Command(Command::Publish(cmd)) => id == IdType::spec_publish(cmd.packet_id),
        Event::Command(Command::Unsub(_)) => id == IdType::spec_unsubscribe(shared.next_packet_id),
        _ => false,
    }
}

proof fn lemma_key_differs(a: IdType, b: IdType)
    ensures
        a != b ==> a.spec_key() != b.spec_key(),
{
    if a.spec_key() == b.spec_key() {
        law_keys_are_unique(a, b);
    }
}

proof fn lemma_resending_keeps(t: TransceiverView, now: u128, count: nat)
    ensures
        ({
            let u = t.resending(now, count);
            &&& u.pending == t.pending
            &&& u.pending_subs == t.pending_subs
            &&& u.subs == t.subs
            &&& u.connected == t.connected
            &&& u.last_tx == t.last_tx
            &&& u.packet_resend_delay == t.packet_resend_delay
        }),
    decreases count,
{
    if count > 0 && t.is_due(now) {
        lemma_resending_keeps(t.resending_oldest(now), now, (count - 1) as nat);
    }
}

/// A packet that may be re-transmitted stays as it is, whatever happens, until it is answered
/// or its ID is used again.
pub proof fn law_pending_until_answered(
    t: TransceiverView,
    shared: SharedView,
    event: Event,
    now: u128,
    id: IdType,
)
    requires
        t.is_pending(id),
        event matches Event::Packet(pkt) ==> !answers(pkt, id),
        !reuses(event, shared, id),
    ensures
        after(t, shared, event, now).0.is_pending(id),
        after(t, shared, event, now).0.pending[id.spec_key()] == t.pending[id.spec_key()],
{
    match event {
        Event::Packet(pkt) => {
            match pkt {
                PacketView::Publish(msg) => lemma_key_differs(
                    id,
                    IdType::spec_pub_rec(msg.packet_id),
                ),
                PacketView::PubAck(x) => lemma_key_differs(id, IdType::spec_publish(x)),
                PacketView::PubRec(x) => {
                    lemma_key_differs(id, IdType::spec_publish(x));
                    lemma_key_differs(id, IdType::spec_pub_rel(x));
                },
                PacketView::PubRel(x) => lemma_key_differs(id, IdType::spec_pub_rec(x)),
                PacketView::PubComp(x) => lemma_key_differs(id, IdType::spec_pub_rel(x)),
                PacketView::UnsubAck(x) => lemma_key_differs(id, IdType::spec_unsubscribe(x)),
                _ => {},
            }
        },
        Event::Command(cmd) => {
            match cmd {
                Command::Publish(cmd) => lemma_key_differs(
                    id,
                    IdType::spec_publish(cmd.packet_id),
                ),
                _ => lemma_key_differs(id, IdType::spec_unsubscribe(shared.next_packet_id)),
            }
        },
        Event::Alarm => lemma_resending_keeps(t.pinging(now), now, t.timeouts.len()),
        _ => {},
    }
}

/// A `SUBSCRIBE` packet that may be re-transmitted stays as it is, whatever happens, until
/// it is answered or its ID is used again.
pub proof fn law_subscribe_until_answered(
    t: TransceiverView,
    shared: SharedView,
    event: Event,
    now: u128,
    id: u16,
)
    requires
        t.pending_subs.contains_key(id as u32),
        event matches Event::Packet(PacketView::SubAck((x, _))) ==> x != id,
        event matches Event::Command(Command::Subscribe(_)) ==> shared.next_packet_id != id,
    ensures
        after(t, shared, event, now).0.pending_subs.contains_key(id as u32),
        after(t, shared, event, now).0.pending_subs[id as u32] == t.pending_subs[id as u32],
{
    if event is Alarm {
        lemma_resending_keeps(t.pinging(now), now, t.timeouts.len());
    }
}

/// A connection, once answered, stays answered.
pub proof fn law_stays_connected(
    t: TransceiverView,
    shared: SharedView,
    event: Event,
    now: u128,
)
    requires
        t.connected,
    ensures
        after(t, shared, event, now).0.connected,
{
    if event is Alarm {
        lemma_resending_keeps(t.pinging(now), now, t.timeouts.len());
    }
}

/// Whether no event releases the message with the specified ID.
pub open spec fn unreleased(events: Seq<(Event, u128)>, packet_id: u16) -> bool {
    forall|i: int|
        0 <= i < events.len() ==> (#[trigger] events[i]).0 != Event::Packet(
            PacketView::PubRel(packet_id),
        )
}

proof fn lemma_received_is_remembered(
    t: TransceiverView,
    shared: SharedView,
    events: Seq<(Event, u128)>,
    packet_id: u16,
)
    requires
        t.connected,
        t.is_pending(IdType::spec_pub_rec(packet_id)),
        unreleased(events, packet_id),
    ensures
        ({
            let id = IdType::spec_pub_rec(packet_id);
            let u = after_all(t, shared, events).0;
            u.connected && u.is_pending(id) && u.pending[id.spec_key()]
                == t.pending[id.spec_key()]
        }),
    decreases events.len(),
{
    if events.len() > 0 {
        let earlier = events.drop_last();
        assert forall|i: int| 0 <= i < earlier.len() implies (#[trigger] earlier[i]).0
            != Event::Packet(PacketView::PubRel(packet_id)) by {
            assert(earlier[i] == events[i]);
        }
        lemma_received_is_remembered(t, shared, earlier, packet_id);
        let (u, s) = after_all(t, shared, earlier);
        let (event, now) = events.last();
        assert(events[events.len() - 1].0 != Event::Packet(PacketView::PubRel(packet_id)));
        law_pending_until_answered(u, s, event, now, IdType::spec_pub_rec(packet_id));
        law_stays_connected(u, s, event, now);
    }
}

/// A message of [`QoS::ExactlyOnce`] is handed to its recipients once. After it was received,
/// and whatever happens until its ID is released, another message with that ID is not handed
/// to anyone, and the `PUBREC` packet is sent again.
pub proof fn law_exactly_once(
    t: TransceiverView,
    shared: SharedView,
    first: PublishView,
    now: u128,
    events: Seq<(Event, u128)>,
    again: PublishView,
    later: u128,
)
    requires
        t.connected,
        flags_qos(first.flags) == QoS::ExactlyOnce,
        flags_qos(again.flags) == QoS::ExactlyOnce,
        first.packet_id == again.packet_id,
        !t.is_pending(IdType::spec_pub_rec(first.packet_id)),
        unreleased(events, first.packet_id),
    ensures
        ({
            let received = t.on_packet(shared, PacketView::Publish(first), now);
            let (u, s) = after_all(received.t, received.shared, events);
            let repeated = u.on_packet(s, PacketView::Publish(again), later);
            &&& received.deliver
            &&& received.t.tx == t.tx.queued(pub_rec_packet(first.packet_id), false)
            &&& !repeated.deliver
            &&& repeated.t.tx == u.tx.queued(pub_rec_packet(first.packet_id), false)
        }),
{
    let received = t.on_packet(shared, PacketView::Publish(first), now);
    lemma_received_is_remembered(received.t, received.shared, events, first.packet_id);
}

/// A `PUBREL` packet is always answered by a `PUBCOMP` packet, and makes room for a new
/// message with the same ID.
pub proof fn law_release(
    t: TransceiverView,
    shared: SharedView,
    packet_id: u16,
    now: u128,
    msg: PublishView,
    later: u128,
)
    requires
        t.connected,
        msg.packet_id == packet_id,
    ensures
        ({
            let released = t.on_packet(shared, PacketView::PubRel(packet_id), now);
            &&& released.t.tx == t.tx.queued(pub_comp_packet(packet_id), false)
            &&& !released.t.is_pending(IdType::spec_pub_rec(packet_id))
            &&& released.t.on_packet(
                released.shared,
                PacketView::Publish(msg),
                later,
            ).deliver
        }),
{
}

/// A message of a lower quality of service is handed to its recipients whenever it is
/// received. One of [`QoS::AtLeastOnce`] is acknowledged, one of [`QoS::AtMostOnce`] is not.
pub proof fn law_lower_qos_is_delivered(
    t: TransceiverView,
    shared: SharedView,
    msg: PublishView,
    now: u128,
)
    requires
        t.connected,
        valid_publish_flags(msg.flags),
        flags_qos(msg.flags) != QoS::ExactlyOnce,
    ensures
        ({
            let step = t.on_packet(shared, PacketView::Publish(msg), now);
            &&& step.deliver
            &&& step.shared == shared
            &&& step.t == (if flags_qos(msg.flags) == QoS::AtLeastOnce {
                t.sending(pub_ack_packet(msg.packet_id), false)
            } else {
                t
            })
        }),
{
}

/// The first packet decides on the connection: anything but a `CONNACK` packet that
/// accepts it stops the transceiver, and nothing else happens.
pub proof fn law_first_packet_decides(
    t: TransceiverView,
    shared: SharedView,
    pkt: PacketView,
    now: u128,
)
    requires
        !t.connected,
    ensures
        ({
            let step = t.on_packet(shared, pkt, now);
            &&& step.t == (TransceiverView { connected: true, ..t })
            &&& step.shared == shared
            &&& !step.deliver
            &&& step.wakers == Seq::<u64>::empty()
            &&& step.released == Seq::<Recipient>::empty()
            &&& step.stop <==> !(pkt matches PacketView::ConnAck(Ok(_)))
            &&& match pkt {
                PacketView::ConnAck(x) => step.connect_result == Some(x),
                _ => step.connect_result == Some(
                    Err::<bool, ServerConnectError>(ServerConnectError::ProtocolError),
                ),
            }
        }),
{
}

/// After the first one, no packet stops the transceiver.
pub proof fn law_later_packets_do_not_stop(
    t: TransceiverView,
    shared: SharedView,
    pkt: PacketView,
    now: u128,
)
    requires
        t.connected,
    ensures
        !t.on_packet(shared, pkt, now).stop,
        t.on_packet(shared, pkt, now).connect_result is None,
{
}

/// What is sent again for the timeouts from the `i`th up to the first one that has not been
/// reached, out of the first `count`.
pub open spec fn resent(t: TransceiverView, now: u128, i: nat, count: nat) -> Seq<OutgoingView>
    decreases count - i,
{
    if i < count && elapsed(t.timeouts[i as int].t, now) >= t.packet_resend_delay {
        let id = t.timeouts[i as int].packet_id;
        (match t.unanswered(id) {
            Some(bytes) => seq![OutgoingView { bytes, set_dup: id.ty == PacketType::Publish }],
            None => Seq::empty(),
        }) + resent(t, now, i + 1, count)
    } else {
        Seq::empty()
    }
}

proof fn lemma_resent_shifts(
    t: TransceiverView,
    u: TransceiverView,
    now: u128,
    i: nat,
    count: nat,
)
    requires
        1 <= i <= count <= t.timeouts.len(),
        u.timeouts.len() >= count - 1,
        forall|j: int| 1 <= j < count ==> #[trigger] t.timeouts[j] == u.timeouts[j - 1],
        u.pending == t.pending,
        u.pending_subs == t.pending_subs,
        u.packet_resend_delay == t.packet_resend_delay,
    ensures
        resent(t, now, i, count) == resent(u, now, (i - 1) as nat, (count - 1) as nat),
    decreases count - i,
{
    if i < count {
        assert(t.timeouts[i as int] == u.timeouts[i - 1]);
        if elapsed(t.timeouts[i as int].t, now) >= t.packet_resend_delay {
            let id = t.timeouts[i as int].packet_id;
            assert(t.unanswered(id) == u.unanswered(id));
            lemma_resent_shifts(t, u, now, i + 1, count);
        }
    }
}

proof fn lemma_resending_sends(t: TransceiverView, now: u128, count: nat)
    requires
        count <= t.timeouts.len(),
    ensures
        t.resending(now, count).tx.packets == t.tx.packets + resent(t, now, 0, count),
    decreases count,
{
    if count > 0 && t.is_due(now) {
        let u = t.resending_oldest(now);
        let id = t.timeouts[0].packet_id;
        lemma_resending_sends(u, now, (count - 1) as nat);
        assert forall|j: int| 1 <= j < count implies #[trigger] t.timeouts[j] == u.timeouts[j
            - 1] by {}
        lemma_resent_shifts(t, u, now, 1, count);
        let rest = resent(t, now, 1, count);
        match t.unanswered(id) {
            Some(bytes) => {
                let p = OutgoingView { bytes, set_dup: id.ty == PacketType::Publish };
                assert(u.tx.packets == t.tx.packets.push(p));
                assert(t.tx.packets.push(p) + rest =~= t.tx.packets + (seq![p] + rest));
            },
            None => {
                assert(u.tx.packets == t.tx.packets);
                assert(Seq::<OutgoingView>::empty() + rest =~= rest);
            },
        }
    } else {
        assert(t.tx.packets + Seq::<OutgoingView>::empty() =~= t.tx.packets);
    }
}

/// An alarm sends a `PINGREQ` packet if and only if nothing was transmitted for the ping
/// interval, then each packet that was not answered in time once more, the oldest first,
/// marked as a duplicate if it is a `PUBLISH` packet. It sends nothing else.
pub proof fn law_alarm_sends(t: TransceiverView, now: u128)
    requires
        t.connected,
    ensures
        t.on_alarm(now).tx.packets == t.tx.packets + (if elapsed(t.last_tx, now)
            >= t.ping_interval {
            seq![OutgoingView { bytes: ping_packet(), set_dup: false }]
        } else {
            Seq::empty()
        }) + resent(t, now, 0, t.timeouts.len()),
{
    let u = t.pinging(now);
    let count = t.timeouts.len();
    let ping = if elapsed(t.last_tx, now) >= t.ping_interval {
        seq![OutgoingView { bytes: ping_packet(), set_dup: false }]
    } else {
        Seq::empty()
    };
    lemma_resending_sends(u, now, count);
    lemma_resent_same(t, u, now, 0, count);
    assert(u.tx.packets =~= t.tx.packets + ping);
}

proof fn lemma_resent_same(t: TransceiverView, u: TransceiverView, now: u128, i: nat, count: nat)
    requires
        u.timeouts == t.timeouts,
        u.pending == t.pending,
        u.pending_subs == t.pending_subs,
        u.packet_resend_delay == t.packet_resend_delay,
    ensures
        resent(t, now, i, count) == resent(u, now, i, count),
    decreases count - i,
{
    if i < count {
        let id = t.timeouts[i as int].packet_id;
        assert(t.unanswered(id) == u.unanswered(id));
        lemma_resent_same(t, u, now, i + 1, count);
    }
}

/// A packet that was not answered in time is sent again, as soon as every older timeout has
/// been reached too.
pub proof fn law_unanswered_is_resent(t: TransceiverView, now: u128, i: nat)
    requires
        t.connected,
        i < t.timeouts.len(),
        forall|j: int|
            0 <= j <= i ==> elapsed((#[trigger] t.timeouts[j]).t, now) >= t.packet_resend_delay,
        t.unanswered(t.timeouts[i as int].packet_id) is Some,
    ensures
        t.on_alarm(now).tx.packets.contains(
            OutgoingView {
                bytes: t.unanswered(t.timeouts[i as int].packet_id)->0,
                set_dup: t.timeouts[i as int].packet_id.ty == PacketType::Publish,
            },
        ),
{
    law_alarm_sends(t, now);
    lemma_resent_contains(t, now, 0, i, t.timeouts.len());
    let p = OutgoingView {
        bytes: t.unanswered(t.timeouts[i as int].packet_id)->0,
        set_dup: t.timeouts[i as int].packet_id.ty == PacketType::Publish,
    };
    let list = resent(t, now, 0, t.timeouts.len());
    let all = t.on_alarm(now).tx.packets;
    let k = list.index_of(p);
    assert(all[all.len() - list.len() + k] == p);
}

proof fn lemma_resent_contains(t: TransceiverView, now: u128, from: nat, i: nat, count: nat)
    requires
        from <= i < count <= t.timeouts.len(),
        forall|j: int|
            0 <= j <= i ==> elapsed((#[trigger] t.timeouts[j]).t, now) >= t.packet_resend_delay,
        t.unanswered(t.timeouts[i as int].packet_id) is Some,
    ensures
        resent(t, now, from, count).contains(
            OutgoingView {
                bytes: t.unanswered(t.timeouts[i as int].packet_id)->0,
                set_dup: t.timeouts[i as int].packet_id.ty == PacketType::Publish,
            },
        ),
    decreases i - from,
{
    let p = OutgoingView {
        bytes: t.unanswered(t.timeouts[i as int].packet_id)->0,
        set_dup: t.timeouts[i as int].packet_id.ty == PacketType::Publish,
    };
    assert(elapsed(t.timeouts[from as int].t, now) >= t.packet_resend_delay);
    let rest = resent(t, now, from + 1, count);
    if from == i {
        assert(resent(t, now, from, count)[0] == p);
    } else {
        lemma_resent_contains(t, now, from + 1, i, count);
        let all = resent(t, now, from, count);
        let k = rest.index_of(p);
        assert(all[all.len() - rest.len() + k] == p);
    }
}

/// Whether the timeouts are in the order of their times, none of them later than `now`.
pub open spec fn in_order(timeouts: Seq<Timeout>, now: u128) -> bool {
    &&& forall|i: int, j: int|
        0 <= i < j < timeouts.len() ==> (#[trigger] timeouts[i]).t <= (#[trigger] timeouts[j]).t
    &&& forall|i: int| 0 <= i < timeouts.len() ==> (#[trigger] timeouts[i]).t <= now
}

proof fn lemma_resending_keeps_order(t: TransceiverView, now: u128, count: nat)
    requires
        in_order(t.timeouts, now),
    ensures
        in_order(t.resending(now, count).timeouts, now),
    decreases count,
{
    if count > 0 && t.is_due(now) {
        let u = t.resending_oldest(now);
        assert forall|i: int| 0 <= i < u.timeouts.len() implies (#[trigger] u.timeouts[i]).t
            <= now by {
            if i + 1 < t.timeouts.len() {
                assert(u.timeouts[i] == t.timeouts[i + 1]);
            }
        }
        assert forall|i: int, j: int| 0 <= i < j < u.timeouts.len() implies (
        #[trigger] u.timeouts[i]).t <= (#[trigger] u.timeouts[j]).t by {
            assert(u.timeouts[i] == t.timeouts[i + 1]);
            if j + 1 < t.timeouts.len() {
                assert(u.timeouts[j] == t.timeouts[j + 1]);
            }
        }
        lemma_resending_keeps_order(u, now, (count - 1) as nat);
    }
}

/// As time goes on, the oldest timeout stays the first one.
pub proof fn law_timeouts_stay_in_order(
    t: TransceiverView,
    shared: SharedView,
    event: Event,
    before: u128,
    now: u128,
)
    requires
        in_order(t.timeouts, before),
        before <= now,
    ensures
        in_order(after(t, shared, event, now).0.timeouts, now),
{
    let u = after(t, shared, event, now).0;
    assert(in_order(t.timeouts, now)) by {
        assert forall|i: int| 0 <= i < t.timeouts.len() implies (#[trigger] t.timeouts[i]).t
            <= now by {
            assert(t.timeouts[i].t <= before);
        }
    }
    match event {
        Event::Alarm => lemma_resending_keeps_order(t.pinging(now), now, t.timeouts.len()),
        _ => {
            assert(u.timeouts == t.timeouts || (u.timeouts.len() == t.timeouts.len() + 1
                && u.timeouts.last().t == now && u.timeouts.drop_last() =~= t.timeouts));
            assert forall|i: int| 0 <= i < t.timeouts.len() implies u.timeouts[i]
                == t.timeouts[i] by {
                if u.timeouts != t.timeouts {
                    assert(u.timeouts.drop_last()[i] == t.timeouts[i]);
                }
            }
        },
    }
}

/// Every packet that was not answered in time is sent again.
pub proof fn law_every_unanswered_packet_is_resent(t: TransceiverView, now: u128, i: nat)
    requires
        t.connected,
        in_order(t.timeouts, now),
        i < t.timeouts.len(),
        elapsed(t.timeouts[i as int].t, now) >= t.packet_resend_delay,
        t.unanswered(t.timeouts[i as int].packet_id) is Some,
    ensures
        t.on_alarm(now).tx.packets.contains(
            OutgoingView {
                bytes: t.unanswered(t.timeouts[i as int].packet_id)->0,
                set_dup: t.timeouts[i as int].packet_id.ty == PacketType::Publish,
            },
        ),
{
    assert forall|j: int| 0 <= j <= i implies elapsed((#[trigger] t.timeouts[j]).t, now)
        >= t.packet_resend_delay by {
        if j < i {
            assert(t.timeouts[j].t <= t.timeouts[i as int].t);
        }
    }
    law_unanswered_is_resent(t, now, i);
}

/// A `PUBLISH` packet that is sent again is received as the same message, marked as a
/// duplicate.
pub proof fn law_resent_publish_is_duplicate(v: PublishView)
    requires
        v.fits(),
        valid_publish_flags(v.flags),
    ensures
        ({
            let p = OutgoingView {
                bytes: packet_bytes(PacketType::Publish, v.flags, v.body()),
                set_dup: true,
            };
            let dup = PublishView {
                flags: if v.flags / 8 == 1 {
                    v.flags
                } else {
                    (v.flags + 8) as u8
                },
                ..v
            };
            &&& p.wire() == packet_bytes(PacketType::Publish, dup.flags, dup.body())
            &&& dup.fits()
            &&& valid_publish_flags(dup.flags)
            &&& dup.flags / 8 == 1
            &&& flags_qos(dup.flags) == flags_qos(v.flags)
            &&& dup.flags % 2 == v.flags % 2
        }),
{
    let dup = PublishView {
        flags: if v.flags / 8 == 1 {
            v.flags
        } else {
            (v.flags + 8) as u8
        },
        ..v
    };
    let bytes = packet_bytes(PacketType::Publish, v.flags, v.body());
    let first = bytes[0];
    assert(first == 48 + v.flags);
    assert(first | 8 == (if (first / 8) % 2 == 1 {
        first
    } else {
        (first + 8) as u8
    })) by (bit_vector)
        requires
            48 <= first < 64,
    ;
    assert(dup.body() == v.body());
    assert(bytes.update(0, first | 8) =~= packet_bytes(
        PacketType::Publish,
        dup.flags,
        dup.body(),
    ));
}

/// A `DISCONNECT` packet is transmitted after everything else.
pub proof fn law_disconnect_comes_last(t: TransceiverView)
    requires
        t.tx.pos <= wire_all(t.tx.packets).len(),
    ensures
        t.sending(disconnect_packet(), false).tx.stream() == t.tx.stream() + disconnect_packet(),
{
    law_queue_is_fifo(t.tx, disconnect_packet(), false);
}

/// An `UNSUBSCRIBE` packet is only sent on a command to unsubscribe: neither a message
/// without a receiver nor the removal of the last receiver leads to one.
pub proof fn law_only_unsubscribing_unsubscribes(
    t: TransceiverView,
    shared: SharedView,
    event: Event,
    now: u128,
    id: u16,
)
    requires
        !t.is_pending(IdType::spec_unsubscribe(id)),
        !(event matches Event::Command(Command::Unsub(cmd)) && cmd.kind == UnsubKind::Immediate
            && t.subs[cmd.topic@].subscribed && id == shared.next_packet_id),
    ensures
        !after(t, shared, event, now).0.is_pending(IdType::spec_unsubscribe(id)),
{
    let unsub = IdType::spec_unsubscribe(id);
    match event {
        Event::Packet(pkt) => {
            match pkt {
                PacketView::Publish(msg) => lemma_key_differs(
                    unsub,
                    IdType::spec_pub_rec(msg.packet_id),
                ),
                PacketView::PubRec(x) => lemma_key_differs(unsub, IdType::spec_pub_rel(x)),
                _ => {},
            }
        },
        Event::Command(cmd) => {
            match cmd {
                Command::Publish(cmd) => lemma_key_differs(
                    unsub,
                    IdType::spec_publish(cmd.packet_id),
                ),
                _ => lemma_key_differs(unsub, IdType::spec_unsubscribe(shared.next_packet_id)),
            }
        },
        Event::Alarm => lemma_resending_keeps(t.pinging(now), now, t.timeouts.len()),
        _ => {},
    }
}

/// Unsubscribing from a topic that is subscribed to removes all its receivers and forgets
/// the subscription, and the `UNSUBSCRIBE` packet is sent. Every other topic stays as it is.
pub proof fn law_unsubscribe(
    t: TransceiverView,
    shared: SharedView,
    topic: Seq<char>,
    now: u128,
    other: Seq<char>,
)
    requires
        t.subs[topic].subscribed,
        other != topic,
        t.subs.contains_key(other),
    ensures
        ({
            let step = t.on_unsub(shared, topic, UnsubKind::Immediate, now);
            let id = shared.next_packet_id;
            &&& step.t.subs[topic] == SubscriptionView::empty()
            &&& step.t.subs[other] == t.subs[other]
            &&& !step.shared.subs.contains_key(topic)
            &&& step.shared.next_packet_id != id
            &&& step.t.tx == t.tx.queued(unsubscribe_packet(id, topic), false)
            &&& step.t.is_pending(IdType::spec_unsubscribe(id))
        }),
{
}

/// A subscription that the broker accepts works: from then on, its receiver is among the
/// recipients of every message whose topic matches.
pub proof fn law_accepted_subscription_receives(
    t: TransceiverView,
    shared: SharedView,
    cmd: SubscribeCommand,
    now: u128,
    granted: QoS,
    later: u128,
    topic: Seq<char>,
)
    requires
        t.is_sound(),
        t.connected,
        command_fits(Command::Subscribe(cmd)),
        pattern_matches(cmd.topic@, topic),
    ensures
        ({
            let asked = t.on_command(shared, Command::Subscribe(cmd), now);
            let done = if t.subs[cmd.topic@].subscribed {
                asked
            } else {
                asked.t.on_packet(
                    asked.shared,
                    PacketView::SubAck((shared.next_packet_id, seq![Ok(granted)])),
                    later,
                )
            };
            let recipients = done.t.recipients(topic);
            &&& done.t.subs[cmd.topic@].subscribed
            &&& cmd.kind matches SubscriptionKind::Lossy(q) ==> recipients.contains(
                Recipient::Lossy(q),
            )
            &&& cmd.kind matches SubscriptionKind::Unbounded(q) ==> recipients.contains(
                Recipient::Unbounded(q),
            )
            &&& cmd.kind matches SubscriptionKind::FastCallback(cb) ==> recipients.contains(
                Recipient::Callback(cb.id),
            )
        }),
{
    let pattern = cmd.topic@;
    law_matching_patterns_are_valid(pattern, topic);
    let asked = t.on_command(shared, Command::Subscribe(cmd), now);
    let done = if t.subs[pattern].subscribed {
        asked
    } else {
        asked.t.on_packet(
            asked.shared,
            PacketView::SubAck((shared.next_packet_id, seq![Ok(granted)])),
            later,
        )
    };
    let before = SubscriptionView { subscribed: true, ..t.subs[pattern] };
    let at = done.t.at();
    assert(done.t.subs[pattern] == before.with(cmd.kind));
    law_added_receiver_is_reached(at, pattern, cmd.kind, before, topic);
}

/// A subscription that the broker refuses leaves every receiver as it was, and the client
/// forgets about it.
pub proof fn law_refused_subscription(
    t: TransceiverView,
    shared: SharedView,
    packet_id: u16,
    results: Seq<SubscriptionResult>,
    now: u128,
)
    requires
        t.connected,
        t.pending_subs.contains_key(packet_id as u32),
        results.len() > 0,
        results[0] is Err,
    ensures
        ({
            let step = t.on_packet(shared, PacketView::SubAck((packet_id, results)), now);
            &&& step.t.subs == t.subs
            &&& !step.shared.subs.contains_key(t.pending_subs[packet_id as u32].topic)
            &&& !step.t.pending_subs.contains_key(packet_id as u32)
        }),
{
}

/// A subscription to a topic that is subscribed to sends nothing: it only adds a receiver.
pub proof fn law_existing_subscription_sends_nothing(
    t: TransceiverView,
    shared: SharedView,
    topic: Seq<char>,
    qos: QoS,
    kind: SubscriptionKind,
    now: u128,
)
    requires
        t.subs[topic].subscribed,
    ensures
        ({
            let step = t.on_subscribe(shared, topic, qos, kind, now);
            &&& step.t == (TransceiverView {
                subs: t.subs.insert(topic, t.subs[topic].with(kind)),
                ..t
            })
            &&& step.shared == shared
        }),
{
}

/// Unsubscribing from a topic that is not subscribed to has no effect.
pub proof fn law_unsubscribe_without_subscription(
    t: TransceiverView,
    shared: SharedView,
    topic: Seq<char>,
    now: u128,
)
    requires
        !t.subs[topic].subscribed,
    ensures
        t.on_unsub(shared, topic, UnsubKind::Immediate, now) == t.quietly(shared),
{
}

/// A callback that is removed is no longer called for its topic, and nothing else changes.
pub proof fn law_removed_callback(
    t: TransceiverView,
    shared: SharedView,
    topic: Seq<char>,
    id: u32,
    now: u128,
)
    requires
        t.is_sound(),
    ensures
        ({
            let step = t.on_unsub(shared, topic, UnsubKind::FastCallback(id), now);
            &&& !step.t.subs[topic].callbacks.contains(id)
            &&& forall|x: u32|
                x != id ==> (#[trigger] step.t.subs[topic].callbacks.contains(x)
                    <==> t.subs[topic].callbacks.contains(x))
            &&& step.t.subs[topic].lossy == t.subs[topic].lossy
            &&& step.t.subs[topic].unbounded == t.subs[topic].unbounded
            &&& step.t.subs[topic].subscribed == t.subs[topic].subscribed
            &&& step.t.tx == t.tx
            &&& step.shared == shared
        }),
{
    assert(increasing(t.subs[topic].callbacks));
    law_callback_ids(t.subs[topic].callbacks, id);
}

proof fn lemma_awaiting_contains(subs: Map<u32, PendingSubView>, ids: Seq<u32>, r: Recipient)
    ensures
        awaiting(subs, ids).contains(r) <==> exists|i: int|
            0 <= i < ids.len() && receiver_of(subs[#[trigger] ids[i]].kind).contains(r),
    decreases ids.len(),
{
    if ids.len() > 0 {
        let less = ids.drop_last();
        let (a, b) = (awaiting(subs, less), receiver_of(subs[ids.last()].kind));
        lemma_awaiting_contains(subs, less, r);
        lemma_contains2(a, b, r);
        if a.contains(r) {
            let i = choose|i: int|
                0 <= i < less.len() && receiver_of(subs[#[trigger] less[i]].kind).contains(r);
            assert(ids[i] == less[i]);
        }
        if b.contains(r) {
            assert(receiver_of(subs[ids[ids.len() - 1]].kind).contains(r));
        }
        if exists|i: int|
            0 <= i < ids.len() && receiver_of(subs[#[trigger] ids[i]].kind).contains(r) {
            let i = choose|i: int|
                0 <= i < ids.len() && receiver_of(subs[#[trigger] ids[i]].kind).contains(r);
            if i < less.len() {
                assert(less[i] == ids[i]);
            }
        }
    }
}

proof fn lemma_contains2(a: Seq<Recipient>, b: Seq<Recipient>, r: Recipient)
    ensures
        (a + b).contains(r) <==> a.contains(r) || b.contains(r),
{
    if a.contains(r) {
        assert((a + b)[a.index_of(r)] == r);
    }
    if b.contains(r) {
        assert((a + b)[a.len() + b.index_of(r)] == r);
    }
    if (a + b).contains(r) {
        let i = (a + b).index_of(r);
        if i < a.len() {
            assert(a[i] == r);
        } else {
            assert(b[i - a.len()] == r);
        }
    }
}

/// What is closed when the transceiver shuts down is every receiver of a subscription, and
/// every one that awaits a response from the broker.
pub proof fn law_everything_is_released(t: TransceiverView, held: Seq<Recipient>, r: Recipient)
    requires
        t.holds(held),
    ensures
        held.contains(r) <==> (exists|p: Seq<char>|
            (#[trigger] t.subs[p]).recipients().contains(r)) || (exists|id: u32| #[trigger]
            t.pending_subs.contains_key(id) && receiver_of(t.pending_subs[id].kind).contains(r)),
{
    let (patterns, ids) = choose|patterns: Seq<Seq<char>>, ids: Seq<u32>|
        #![trigger covers(t.at(), patterns), lists(ids, t.pending_subs.dom())]
        {
            &&& covers(t.at(), patterns)
            &&& lists(ids, t.pending_subs.dom())
            &&& held == gathered(t.at(), patterns) + awaiting(t.pending_subs, ids)
        };
    law_gathered_is_everything(t.at(), patterns, r);
    lemma_awaiting_contains(t.pending_subs, ids, r);
    lemma_contains2(gathered(t.at(), patterns), awaiting(t.pending_subs, ids), r);
    if exists|p: Seq<char>| (#[trigger] t.at()(p)).recipients().contains(r) {
        let p = choose|p: Seq<char>| (#[trigger] t.at()(p)).recipients().contains(r);
        assert(t.subs[p].recipients().contains(r));
    }
    if exists|p: Seq<char>| (#[trigger] t.subs[p]).recipients().contains(r) {
        let p = choose|p: Seq<char>| (#[trigger] t.subs[p]).recipients().contains(r);
        assert(t.at()(p).recipients().contains(r));
    }
    if exists|i: int|
        0 <= i < ids.len() && receiver_of(t.pending_subs[#[trigger] ids[i]].kind).contains(r) {
        let i = choose|i: int|
            0 <= i < ids.len() && receiver_of(t.pending_subs[#[trigger] ids[i]].kind).contains(r);
        assert(ids.to_set().contains(ids[i]));
        assert(t.pending_subs.contains_key(ids[i]));
    }
    if exists|id: u32| #[trigger]
        t.pending_subs.contains_key(id) && receiver_of(t.pending_subs[id].kind).contains(r) {
        let id = choose|id: u32| #[trigger]
            t.pending_subs.contains_key(id) && receiver_of(t.pending_subs[id].kind).contains(r);
        assert(ids.to_set().contains(id));
        assert(ids[ids.index_of(id)] == id);
    }
}

/// A transceiver is sound when it starts.
pub proof fn law_starts_sound(
    connect_packet: Seq<u8>,
    ping_interval: u128,
    packet_resend_delay: u128,
    now: u128,
)
    ensures
        TransceiverView::starting(
            connect_packet,
            ping_interval,
            packet_resend_delay,
            now,
        ).is_sound(),
{
}

/// A transceiver that is sound stays so, whatever happens.
pub proof fn law_always_sound(t: TransceiverView, shared: SharedView, events: Seq<(Event, u128)>)
    requires
        t.is_sound(),
        forall|i: int|
            0 <= i < events.len() ==> ((#[trigger] events[i]).0 matches Event::Command(cmd)
                ==> command_fits(cmd)),
    ensures
        after_all(t, shared, events).0.is_sound(),
    decreases events.len(),
{
    if events.len() > 0 {
        let earlier = events.drop_last();
        assert forall|i: int| 0 <= i < earlier.len() implies ((
        #[trigger] earlier[i]).0 matches Event::Command(cmd) ==> command_fits(cmd)) by {
            assert(earlier[i] == events[i]);
        }
        law_always_sound(t, shared, earlier);
        let (u, s) = after_all(t, shared, earlier);
        let (event, now) = events.last();
        assert(events[events.len() - 1] == (event, now));
        match event {
            Event::Packet(pkt) => law_packets_keep_soundness(u, s, pkt, now),
            Event::Command(cmd) => law_commands_keep_soundness(u, s, cmd, now),
            Event::Alarm => law_alarms_keep_soundness(u, now),
            Event::Closed(topic, closed) => law_closed_queues_keep_soundness(u, topic, closed),
            _ => lemma_fewer_pending(u, after(u, s, event, now).0),
        }
    }
}

} // verus!
