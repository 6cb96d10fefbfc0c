//! Laws on what holds of a transceiver at all times.

use vstd::prelude::*;
use vstd::utf8::encode_utf8;

use super::commands::{command_fits, Command, SubscriptionKind, UnsubKind};
use super::packets::{flags_qos, PacketType, PacketView};
use super::state::{pub_ack_packet, pub_comp_packet, pub_rec_packet, pub_rel_packet};
use super::state::{unsubscribe_packet, TransceiverView};
use super::subscription::{increasing, law_callback_ids, valid_pattern};
use super::subscription::{Recipient, SubscriptionView};
use super::util::IdType;
use crate::shared::SharedView;
use crate::QoS;

verus! {

/// What waits for fewer answers, and is otherwise the same, is as sound.
pub(crate) proof fn lemma_fewer_pending(t: TransceiverView, u: TransceiverView)
    requires
        t.is_sound(),
        u.timeouts == t.timeouts,
        u.subs == t.subs,
        forall|k: u32| #[trigger]
            u.pending.contains_key(k) ==> t.pending.contains_key(k) && u.pending[k] == t.pending[k],
        forall|k: u32| #[trigger]
            u.pending_subs.contains_key(k) ==> t.pending_subs.contains_key(k) && u.pending_subs[k]
                == t.pending_subs[k],
    ensures
        u.is_sound(),
{
    assert forall|k: u32| #[trigger] u.pending.contains_key(k) implies exists|i: int|
        0 <= i < u.timeouts.len() && (#[trigger] u.timeouts[i]).packet_id.spec_key() == k
            && u.timeouts[i].packet_id.ty != PacketType::Subscribe by {
        assert(t.pending.contains_key(k));
    }
    assert forall|k: u32| #[trigger] u.pending_subs.contains_key(k) implies exists|i: int|
        0 <= i < u.timeouts.len() && (#[trigger] u.timeouts[i]).packet_id.ty
            == PacketType::Subscribe && u.timeouts[i].packet_id.id == k by {
        assert(t.pending_subs.contains_key(k));
    }
}

proof fn lemma_sending(t: TransceiverView, bytes: Seq<u8>, set_dup: bool)
    requires
        t.is_sound(),
    ensures
        t.sending(bytes, set_dup).is_sound(),
{
    lemma_fewer_pending(t, t.sending(bytes, set_dup));
}

proof fn lemma_sending_with_timeout(t: TransceiverView, bytes: Seq<u8>, id: IdType, now: u128)
    requires
        t.is_sound(),
        bytes.len() > 0,
        id.ty != PacketType::Subscribe,
    ensures
        t.sending_with_timeout(bytes, id, now).is_sound(),
{
    let u = t.sending_with_timeout(bytes, id, now);
    assert forall|i: int| 0 <= i < t.timeouts.len() implies u.timeouts[i] == t.timeouts[i] by {}
    assert forall|k: u32| #[trigger] u.pending.contains_key(k) implies exists|i: int|
        0 <= i < u.timeouts.len() && (#[trigger] u.timeouts[i]).packet_id.spec_key() == k
            && u.timeouts[i].packet_id.ty != PacketType::Subscribe by {
        if t.pending.contains_key(k) {
            let i = choose|i: int|
                0 <= i < t.timeouts.len() && (#[trigger] t.timeouts[i]).packet_id.spec_key() == k
                    && t.timeouts[i].packet_id.ty != PacketType::Subscribe;
            assert(u.timeouts[i] == t.timeouts[i]);
        } else {
            assert(u.timeouts[t.timeouts.len() as int].packet_id == id);
        }
    }
    assert forall|k: u32| #[trigger] u.pending_subs.contains_key(k) implies exists|i: int|
        0 <= i < u.timeouts.len() && (#[trigger] u.timeouts[i]).packet_id.ty
            == PacketType::Subscribe && u.timeouts[i].packet_id.id == k by {
        let i = choose|i: int|
            0 <= i < t.timeouts.len() && (#[trigger] t.timeouts[i]).packet_id.ty
                == PacketType::Subscribe && t.timeouts[i].packet_id.id == k;
        assert(u.timeouts[i] == t.timeouts[i]);
    }
}

proof fn lemma_cleared(t: TransceiverView, id: IdType)
    requires
        t.is_sound(),
    ensures
        t.cleared(id).is_sound(),
{
    lemma_fewer_pending(t, t.cleared(id));
}

pub(crate) proof fn lemma_resending_oldest(t: TransceiverView, now: u128)
    requires
        t.is_sound(),
        t.timeouts.len() > 0,
    ensures
        t.resending_oldest(now).is_sound(),
{
    let u = t.resending_oldest(now);
    let id = t.timeouts[0].packet_id;
    let last = t.timeouts.len() - 1;
    assert forall|i: int| 1 <= i < t.timeouts.len() implies u.timeouts[i - 1] == t.timeouts[i] by {}
    assert forall|k: u32| #[trigger] u.pending.contains_key(k) implies exists|i: int|
        0 <= i < u.timeouts.len() && (#[trigger] u.timeouts[i]).packet_id.spec_key() == k
            && u.timeouts[i].packet_id.ty != PacketType::Subscribe by {
        let i = choose|i: int|
            0 <= i < t.timeouts.len() && (#[trigger] t.timeouts[i]).packet_id.spec_key() == k
                && t.timeouts[i].packet_id.ty != PacketType::Subscribe;
        if i == 0 {
            assert(u.timeouts[last].packet_id == id);
        } else {
            assert(u.timeouts[i - 1] == t.timeouts[i]);
        }
    }
    assert forall|k: u32| #[trigger] u.pending_subs.contains_key(k) implies exists|i: int|
        0 <= i < u.timeouts.len() && (#[trigger] u.timeouts[i]).packet_id.ty
            == PacketType::Subscribe && u.timeouts[i].packet_id.id == k by {
        let i = choose|i: int|
            0 <= i < t.timeouts.len() && (#[trigger] t.timeouts[i]).packet_id.ty
                == PacketType::Subscribe && t.timeouts[i].packet_id.id == k;
        if i == 0 {
            assert(u.timeouts[last].packet_id == id);
        } else {
            assert(u.timeouts[i - 1] == t.timeouts[i]);
        }
    }
}

proof fn lemma_resending(t: TransceiverView, now: u128, count: nat)
    requires
        t.is_sound(),
    ensures
        t.resending(now, count).is_sound(),
    decreases count,
{
    if count > 0 && t.is_due(now) {
        lemma_resending_oldest(t, now);
        lemma_resending(t.resending_oldest(now), now, (count - 1) as nat);
    }
}

/// A subscription with one more receiver still has its callbacks in order.
proof fn lemma_with(sub: SubscriptionView, kind: SubscriptionKind)
    requires
        increasing(sub.callbacks),
    ensures
        increasing(sub.with(kind).callbacks),
        sub.with(kind).subscribed == sub.subscribed,
{
    if let SubscriptionKind::FastCallback(cb) = kind {
        law_callback_ids(sub.callbacks, cb.id);
    }
}

/// A transceiver is sound after every packet that comes in: what is not answered will be
/// sent again, only topics that are subscribed to have receivers, and callbacks are in
/// order.
pub proof fn law_packets_keep_soundness(
    t: TransceiverView,
    shared: SharedView,
    pkt: PacketView,
    now: u128,
)
    requires
        t.is_sound(),
    ensures
        t.on_packet(shared, pkt, now).t.is_sound(),
{
    let u = t.on_packet(shared, pkt, now).t;
    if t.connected {
        match pkt {
            PacketView::SubAck((id, results)) => {
                if t.pending_subs.contains_key(id as u32) {
                    let sub = t.pending_subs[id as u32];
                    let v = TransceiverView { pending_subs: t.pending_subs.remove(id as u32), ..t };
                    lemma_fewer_pending(t, v);
                    lemma_subscribed(v, sub.topic, sub.kind);
                } else {
                    lemma_fewer_pending(t, u);
                }
            },
            PacketView::Publish(msg) => {
                let id = IdType::spec_pub_rec(msg.packet_id);
                match flags_qos(msg.flags) {
                    QoS::AtMostOnce => lemma_fewer_pending(t, u),
                    QoS::AtLeastOnce => lemma_sending(t, pub_ack_packet(msg.packet_id), false),
                    QoS::ExactlyOnce => {
                        lemma_sending(t, t.pending[id.spec_key()], false);
                        lemma_sending_with_timeout(t, pub_rec_packet(msg.packet_id), id, now);
                    },
                }
            },
            PacketView::PubRec(id) => {
                let rel = IdType::spec_pub_rel(id);
                let v = if t.is_pending(rel) {
                    t.sending(t.pending[rel.spec_key()], false)
                } else {
                    t.sending_with_timeout(pub_rel_packet(id), rel, now)
                };
                lemma_sending(t, t.pending[rel.spec_key()], false);
                lemma_sending_with_timeout(t, pub_rel_packet(id), rel, now);
                lemma_cleared(v, IdType::spec_publish(id));
            },
            PacketView::PubRel(id) => {
                let v = t.cleared(IdType::spec_pub_rec(id));
                lemma_cleared(t, IdType::spec_pub_rec(id));
                lemma_sending(v, pub_comp_packet(id), false);
            },
            _ => {
                lemma_fewer_pending(t, u);
            },
        }
    } else {
        lemma_fewer_pending(t, u);
    }
}

proof fn lemma_subscribed(t: TransceiverView, topic: Seq<char>, kind: SubscriptionKind)
    requires
        t.is_sound(),
        encode_utf8(topic).len() <= u16::MAX,
    ensures
        t.subscribed(topic, kind).is_sound(),
{
    let sub = SubscriptionView { subscribed: true, ..t.subs[topic] };
    lemma_with(sub, kind);
    if valid_pattern(topic) {
        lemma_subs_replaced(t, topic, sub.with(kind));
    }
}

/// What has another subscription that is as sound is as sound.
proof fn lemma_subs_replaced(t: TransceiverView, topic: Seq<char>, sub: SubscriptionView)
    requires
        t.is_sound(),
        !sub.subscribed ==> sub == SubscriptionView::empty(),
        increasing(sub.callbacks),
        sub.subscribed ==> valid_pattern(topic) && encode_utf8(topic).len() <= u16::MAX,
    ensures
        (TransceiverView { subs: t.subs.insert(topic, sub), ..t }).is_sound(),
{
    let u = TransceiverView { subs: t.subs.insert(topic, sub), ..t };
    assert(u.timeouts == t.timeouts);
    assert(u.pending == t.pending);
    assert(u.pending_subs == t.pending_subs);
    assert(u.is_watched());
    assert(u.subs_are_sound());
    assert(u.packets_are_sound());
}

/// A transceiver is sound after every command.
pub proof fn law_commands_keep_soundness(
    t: TransceiverView,
    shared: SharedView,
    cmd: Command,
    now: u128,
)
    requires
        t.is_sound(),
        command_fits(cmd),
    ensures
        t.on_command(shared, cmd, now).t.is_sound(),
{
    match cmd {
        Command::Publish(cmd) => {
            lemma_sending(t, cmd.packet@, false);
            lemma_sending_with_timeout(
                t,
                cmd.packet@,
                IdType::spec_publish(cmd.packet_id),
                now,
            );
        },
        Command::Subscribe(cmd) => {
            let topic = cmd.topic@;
            lemma_with(t.subs[topic], cmd.kind);
            if t.subs[topic].subscribed {
                lemma_subs_replaced(t, topic, t.subs[topic].with(cmd.kind));
            }
            if !t.subs[topic].subscribed {
                let u = t.on_subscribe(shared, topic, cmd.qos, cmd.kind, now).t;
                assert forall|i: int| 0 <= i < t.timeouts.len() implies u.timeouts[i]
                    == t.timeouts[i] by {}
                assert forall|k: u32| #[trigger] u.pending.contains_key(k) implies exists|i: int|
                    0 <= i < u.timeouts.len() && (#[trigger] u.timeouts[i]).packet_id.spec_key()
                        == k && u.timeouts[i].packet_id.ty != PacketType::Subscribe by {
                    let i = choose|i: int|
                        0 <= i < t.timeouts.len() && (
                        #[trigger] t.timeouts[i]).packet_id.spec_key() == k
                            && t.timeouts[i].packet_id.ty != PacketType::Subscribe;
                    assert(u.timeouts[i] == t.timeouts[i]);
                }
                assert forall|k: u32| #[trigger] u.pending_subs.contains_key(k) implies exists|
                    i: int,
                |
                    0 <= i < u.timeouts.len() && (#[trigger] u.timeouts[i]).packet_id.ty
                        == PacketType::Subscribe && u.timeouts[i].packet_id.id == k by {
                    if k == shared.next_packet_id {
                        assert(u.timeouts[t.timeouts.len() as int].packet_id
                            == IdType::spec_subscribe(shared.next_packet_id));
                    } else {
                        let i = choose|i: int|
                            0 <= i < t.timeouts.len() && (#[trigger] t.timeouts[i]).packet_id.ty
                                == PacketType::Subscribe && t.timeouts[i].packet_id.id == k;
                        assert(u.timeouts[i] == t.timeouts[i]);
                    }
                }
            }
        },
        Command::Unsub(cmd) => {
            let topic = cmd.topic@;
            match cmd.kind {
                UnsubKind::FastCallback(id) => {
                    law_callback_ids(t.subs[topic].callbacks, id);
                    lemma_subs_replaced(t, topic, t.subs[topic].without_callback(id));
                },
                UnsubKind::Immediate => {
                    let u = TransceiverView {
                        subs: t.subs.insert(topic, SubscriptionView::empty()),
                        ..t
                    };
                    lemma_subs_replaced(t, topic, SubscriptionView::empty());
                    lemma_sending_with_timeout(
                        u,
                        unsubscribe_packet(shared.next_packet_id, topic),
                        IdType::spec_unsubscribe(shared.next_packet_id),
                        now,
                    );
                },
            }
        },
        Command::Disconnect => {},
    }
}

/// A transceiver is sound after every alarm.
pub proof fn law_alarms_keep_soundness(t: TransceiverView, now: u128)
    requires
        t.is_sound(),
    ensures
        t.on_alarm(now).is_sound(),
{
    lemma_resending(t.pinging(now), now, t.timeouts.len());
}

/// A transceiver is sound after closed queues were removed.
pub proof fn law_closed_queues_keep_soundness(
    t: TransceiverView,
    topic: Seq<char>,
    closed: Seq<Recipient>,
)
    requires
        t.is_sound(),
    ensures
        t.without_closed(topic, closed).is_sound(),
{
    let u = t.without_closed(topic, closed);
    lemma_fewer_pending(t, TransceiverView { subs: t.subs, ..u });
    assert(SubscriptionView::empty().pruned(closed) == SubscriptionView::empty());
    assert forall|p: Seq<char>| increasing((#[trigger] u.subs[p]).callbacks) by {
        assert(u.subs[p].callbacks == t.subs[p].callbacks);
    }
    assert forall|p: Seq<char>| (#[trigger] u.subs[p]).subscribed implies valid_pattern(p)
        && encode_utf8(p).len() <= u16::MAX by {
        assert(u.subs[p].subscribed == t.subs[p].subscribed);
    }
    assert forall|p: Seq<char>| !(#[trigger] u.subs[p]).subscribed implies u.subs[p]
        == SubscriptionView::empty() by {
        assert(u.subs[p].subscribed == t.subs[p].subscribed);
    }
    assert(u.is_watched());
}

} // verus!
