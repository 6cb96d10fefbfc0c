//! The client's protocol state machine: what to send, what to hand to whom, and when.

pub mod byte_io;
pub mod commands;
pub mod exchange_laws;
pub mod laws;
pub mod packet_reader;
pub mod packets;
pub mod protocol_laws;
pub mod state;
pub mod subscription;
pub mod tx_queue;
pub mod util;

use std::collections::VecDeque;
use std::sync::Arc;

use vstd::prelude::*;
use vstd::utf8::encode_utf8;

use crate::errors::{PacketDecodeError, ServerConnectError};
use crate::shared::{lists, present_wakers, ClientShared, NotifierMap, NotifyResult};
use crate::shared::{SharedView, SubscriptionState};
use crate::wrappers::{topic_map_insert, topic_map_remove};
use crate::wrappers::{id_map_get, id_map_insert, id_map_keys, id_map_new, id_map_remove, LmcHashMap};
use crate::QoS;
use commands::{command_fits, Command, SubscriptionKind, UnsubKind};
use laws::{law_alarms_keep_soundness, law_commands_keep_soundness};
use laws::{law_closed_queues_keep_soundness, law_packets_keep_soundness};
use laws::{lemma_fewer_pending, lemma_resending_oldest};
use packet_reader::{decode_frame, step, wanted, PacketReadState, PacketReader};
use packets::{filters_bytes, topics_bytes, Encode, Filter, IncomingPacket, IncomingPublishPacket};
use packets::{DisconnectPacket, PacketType, PacketView, PingReqPacket, PubAckPacket, PubCompPacket};
use packets::{PubRecPacket, PubRelPacket, SubAckPacket, SubscribePacket, UnsubscribePacket};
use state::{awaiting, disconnect_packet, elapsed, ping_packet, waker_of};
use state::{PendingSubView, Step, Timeout, TransceiverView};
use subscription::{covers, gathered, list_receiver, receiver_of, Recipient, SubscriptionSet, SubscriptionView};
use tx_queue::{TxChunk, TxProgress, TxQueue};
use util::{law_keys_are_unique, IdType};

verus! {

/// A pending subscription awaiting a response from the server before.
/// This is used to re-transmit the `SUBSCRIBE` packet if no reply is
/// received in a reasonable time frame.
/// If the subscription succeeds, the subscription stored in
/// [`PendingSub::kind`] is created.
struct PendingSub {
    topic: String,
    kind: SubscriptionKind,
    packet: Arc<[u8]>,
}

spec fn pending_view(m: Map<u32, Arc<[u8]>>) -> Map<u32, Seq<u8>> {
    m.map_values(|bytes: Arc<[u8]>| bytes@)
}

spec fn pending_subs_view(m: Map<u32, PendingSub>) -> Map<u32, PendingSubView> {
    m.map_values(
        |sub: PendingSub| PendingSubView { topic: sub.topic@, kind: sub.kind, packet: sub.packet@ },
    )
}

spec fn subs_view(subs: SubscriptionSet) -> Map<Seq<char>, SubscriptionView> {
    Map::new(|p: Seq<char>| true, |p: Seq<char>| subs.at(p))
}

/// Contains the state of the transceiver. Timestamps and delays are in nanoseconds.
pub struct Transceiver {
    /// Whether the broker has answered the `CONNECT` packet.
    connected: bool,
    /// A map used to store packets that may be re-transmitted. This one excludes
    /// `SUBSCRIBE` packet as they require additional metadata and are thus stored
    /// in their own map.
    pending_packets: LmcHashMap<u32, Arc<[u8]>>,
    /// Pending `SUBSCRIBE` packets that may be re-transmitted.
    pending_subs: LmcHashMap<u32, PendingSub>,
    /// Packets being transmitted. When the transceiver is created, this field will
    /// contain the `CONNECT` packet.
    tx: TxQueue,
    /// Ping interval, as defined by the developer in the options.
    ping_interval: u128,
    /// Last time a packet was transmitted. This is used to send `PINGREQ`
    /// packets.
    last_tx: u128,
    /// A queue used to keep track of which packets have timed-out and need to be
    /// resent. The front correspond to the oldest packet that needs to be checked.
    timeout_queue: VecDeque<Timeout>,
    subscriptions: SubscriptionSet,
    disconnect_sent: bool,
    cmd_queue_closed: bool,
    /// A cached `PINGREQ` packet. It's always the same, so no need to re-allocate
    /// it every time.
    ping_req: Arc<[u8]>,
    /// The amount of time to wait before re-sending a packet, should the broker
    /// not answer beforehand. This value is used to pop the elements of
    /// [`Self::timeout_queue`], and is set by the developer through the options.
    packet_resend_delay: u128,
}

/// What is to be done after a packet came in.
pub struct PacketOutcome {
    /// Whether the transceiver should stop.
    pub stop: bool,
    /// The answer to the connection attempt, if there is one now.
    pub connect_result: Option<Result<bool, ServerConnectError>>,
    /// Who a message that came in is to be handed to, if it is.
    pub recipients: Option<Vec<Recipient>>,
    /// The wakers to be woken up.
    pub wakers: Vec<u64>,
    /// The receivers that nothing leads to any more, to be closed.
    pub released: Vec<Recipient>,
}

/// What is to be done after a command.
pub struct CommandOutcome {
    /// Whether the transceiver should stop.
    pub stop: bool,
    /// The receivers that nothing leads to any more, to be closed.
    pub released: Vec<Recipient>,
}

impl PacketOutcome {
    /// Whether this says what is to be done according to `step`, after `pkt` came in.
    pub open spec fn tells(self, step: Step, pkt: PacketView) -> bool {
        &&& self.stop == step.stop
        &&& self.connect_result == step.connect_result
        &&& self.wakers@ == step.wakers
        &&& self.released@ == step.released
        &&& match self.recipients {
            Some(recipients) => step.deliver && (pkt matches PacketView::Publish(msg)
                && recipients@ == step.t.recipients(msg.topic)),
            None => !step.deliver,
        }
    }

    /// Nothing is to be done.
    fn quiet() -> (r: Self)
        ensures
            !r.stop,
            r.connect_result is None,
            r.recipients is None,
            r.wakers@ == Seq::<u64>::empty(),
            r.released@ == Seq::<Recipient>::empty(),
    {
        PacketOutcome {
            stop: false,
            connect_result: None,
            recipients: None,
            wakers: Vec::new(),
            released: Vec::new(),
        }
    }
}

impl Transceiver {
    /// The state of this transceiver.
    pub closed spec fn view(&self) -> TransceiverView {
        TransceiverView {
            connected: self.connected,
            pending: pending_view(self.pending_packets@),
            pending_subs: pending_subs_view(self.pending_subs@),
            tx: self.tx@,
            last_tx: self.last_tx,
            timeouts: self.timeout_queue@,
            subs: subs_view(self.subscriptions),
            disconnect_sent: self.disconnect_sent,
            cmd_queue_closed: self.cmd_queue_closed,
            ping_interval: self.ping_interval,
            packet_resend_delay: self.packet_resend_delay,
        }
    }

    spec fn parts_inv(&self) -> bool {
        self.tx.inv() && self.ping_req@ == ping_packet()
    }

    /// What holds of a transceiver at all times.
    pub closed spec fn inv(&self) -> bool {
        self.parts_inv() && self@.is_sound()
    }

    /// What holds of a transceiver at all times is what holds of its state.
    pub proof fn lemma_inv(&self)
        requires
            self.inv(),
        ensures
            self@.is_sound(),
    {
    }

    fn queue_internal_packet(&mut self, bytes: Arc<[u8]>, set_dup: bool)
        requires
            old(self).parts_inv(),
            bytes@.len() > 0,
        ensures
            final(self).parts_inv(),
            final(self)@ == old(self)@.sending(bytes@, set_dup),
    {
        self.tx.queue_internal_packet(bytes, set_dup);
    }

    /// Attempts to transmit the specified packet using [`Self::queue_internal_packet()`], but also
    /// stores for re-transmission (should the server take too long to acknowledge that packet).
    ///
    /// This should not be used for `SUBSCRIBE` packets as they have their dedicated map.
    fn queue_internal_packet_with_timeout(&mut self, pkt: Arc<[u8]>, id: IdType, now: u128)
        requires
            old(self).parts_inv(),
            pkt@.len() > 0,
        ensures
            final(self).parts_inv(),
            final(self)@ == old(self)@.sending_with_timeout(pkt@, id, now),
    {
        if id_map_insert(&mut self.pending_packets, id.key(), pkt.clone()).is_none() {
            self.timeout_queue.push_back(Timeout { t: now, packet_id: id });
        }
        assert(self@.pending =~= old(self)@.pending.insert(id.spec_key(), pkt@));
        self.queue_internal_packet(pkt, false);
    }

    /// Removes a packet from the [`Self::pending_packet`] map, effectively marking it as received by
    /// the broker.
    ///
    /// This should not be used for `SUBSCRIBE` packets as they have their dedicated map.
    fn clear_packet_timeout(&mut self, packet_id: IdType) -> (r: bool)
        requires
            old(self).parts_inv(),
        ensures
            final(self).parts_inv(),
            final(self)@ == old(self)@.cleared(packet_id),
            r == old(self)@.is_pending(packet_id),
    {
        let r = id_map_remove(&mut self.pending_packets, packet_id.key()).is_some();
        assert(self@.pending =~= old(self)@.pending.remove(packet_id.spec_key()));
        r
    }

    /// Finds a packet that may be re-transmitted.
    fn pending_packet(&self, packet_id: IdType) -> (r: Option<Arc<[u8]>>)
        requires
            self@.packets_are_sound(),
        ensures
            match r {
                Some(bytes) => self@.is_pending(packet_id) && bytes@
                    == self@.pending[packet_id.spec_key()] && bytes@.len() > 0,
                None => !self@.is_pending(packet_id),
            },
    {
        match id_map_get(&self.pending_packets, packet_id.key()) {
            Some(bytes) => {
                assert(self@.pending.contains_key(packet_id.spec_key()));
                Some(bytes.clone())
            },
            None => None,
        }
    }

    /// Lists the recipients that a message with the specified topic is to be handed to.
    fn dispatch_message(&self, topic: &str) -> (r: Vec<Recipient>)
        ensures
            r@ == self@.recipients(topic@),
    {
        assert(self@.at() =~= self.subscriptions.subs());
        self.subscriptions.dispatch(topic)
    }

    /// Returns the wakers to be woken up and the receivers to be closed.
    fn process_sub_ack(&mut self, shared: &mut ClientShared, ack: &SubAckPacket) -> (r: (
        Vec<u64>,
        Vec<Recipient>,
    ))
        requires
            old(self).parts_inv(),
        ensures
            final(self).parts_inv(),
            ({
                let step = old(self)@.on_sub_ack(old(shared)@, ack.packet_id, ack.results());
                &&& final(self)@ == step.t
                &&& final(shared)@ == step.shared
                &&& r.0@ == step.wakers
                &&& r.1@ == step.released
            }),
    {
        let ghost before = self@;
        let ghost id = ack.packet_id as u32;
        let opt_sub = id_map_remove(&mut self.pending_subs, ack.packet_id as u32);
        assert(self@.pending_subs =~= before.pending_subs.remove(id));
        let pending_sub = match opt_sub {
            Some(x) => x,
            None => {
                assert(self@.pending_subs =~= before.pending_subs);
                return (Vec::new(), Vec::new());
            },
        };
        let results = ack.sub_results();
        if results.len() < 1 {
            return (Vec::new(), list_receiver(pending_sub.kind));
        }
        let ghost topic = pending_sub.topic@;
        let mut released: Vec<Recipient> = Vec::new();
        let old_state = match results[0] {
            Ok(qos) => {
                let name = pending_sub.topic.clone();
                let old_state = topic_map_insert(
                    &mut shared.subs,
                    name,
                    SubscriptionState::Existing(qos),
                );
                assert(shared@.subs =~= old(shared)@.subs.insert(
                    topic,
                    SubscriptionState::Existing(qos)@,
                ));
                match self.subscriptions.get_or_create(pending_sub.topic.as_str()) {
                    Ok(sub) => {
                        sub.set_subscribed();
                        sub.add(pending_sub.kind);
                    },
                    Err(_) => {
                        released = list_receiver(pending_sub.kind);
                    },
                }
                assert(self@.subs =~= before.subscribed(topic, pending_sub.kind).subs);
                old_state
            },
            Err(()) => {
                let old_state = topic_map_remove(&mut shared.subs, pending_sub.topic.as_str());
                assert(shared@.subs =~= old(shared)@.subs.remove(topic));
                released = list_receiver(pending_sub.kind);
                old_state
            },
        };
        let wakers = match old_state {
            Some(SubscriptionState::Pending(wakers)) => present_wakers(&wakers),
            _ => Vec::new(),
        };
        (wakers, released)
    }

    fn process_publish(&mut self, msg: &IncomingPublishPacket, now: u128) -> (r: Option<
        Vec<Recipient>,
    >)
        requires
            old(self).parts_inv(),
            old(self)@.packets_are_sound(),
        ensures
            final(self).parts_inv(),
            forall|shared: SharedView|
                ({
                    let step = #[trigger] old(self)@.on_publish(shared, msg@, now);
                    &&& final(self)@ == step.t
                    &&& match r {
                        Some(recipients) => step.deliver && recipients@ == step.t.recipients(
                            msg@.topic,
                        ),
                        None => !step.deliver,
                    }
                }),
    {
        let info = msg.info();
        match info.flags.qos() {
            QoS::AtMostOnce => {},
            QoS::AtLeastOnce => {
                //Reply with PubAck
                let pkt = PubAckPacket::new(info.packet_id).make_arc_packet();
                self.queue_internal_packet(pkt, false);
            },
            QoS::ExactlyOnce => {
                //Reply with PubRec
                let pub_rec_id = IdType::pub_rec(info.packet_id);
                match self.pending_packet(pub_rec_id) {
                    Some(existing) => {
                        //If it exists already, that means we've already received this message!
                        //Re-send the existing PubRec packet. Timeout should already be there.
                        //Obviously, don't re-dispatch that message
                        self.queue_internal_packet(existing, false);
                        return None;
                    },
                    None => {
                        //If it doesn't, create it, send it, store it, and create a timeout
                        let pkt = PubRecPacket::new(info.packet_id).make_arc_packet();
                        self.queue_internal_packet_with_timeout(pkt, pub_rec_id, now);
                    },
                }
            },
        }
        Some(self.dispatch_message(msg.topic()))
    }

    fn process_pub_rec(&mut self, shared: &mut ClientShared, packet_id: u16, now: u128) -> (r: Vec<
        u64,
    >)
        requires
            old(self).parts_inv(),
            old(self)@.packets_are_sound(),
        ensures
            final(self).parts_inv(),
            ({
                let step = old(self)@.on_pub_rec(old(shared)@, packet_id, now);
                final(self)@ == step.t && final(shared)@ == step.shared && r@ == step.wakers
            }),
    {
        //First, reply with `PubRel`
        let pub_rel_id = IdType::pub_rel(packet_id);
        match self.pending_packet(pub_rel_id) {
            Some(existing) => {
                //If it exists already, just send it back.
                //No need to create a new timeout as there should already be one somewhere
                //(though it might fire too early but that's okay)
                self.queue_internal_packet(existing, false);
            },
            None => {
                //If it doesn't, create it, send it, store it, and create a timeout
                let pkt = PubRelPacket::new(packet_id).make_arc_packet();
                self.queue_internal_packet_with_timeout(pkt, pub_rel_id, now);
            },
        }
        let ghost id = IdType::spec_publish(packet_id);
        let ghost replied = self@;
        proof {
            law_keys_differ(id, pub_rel_id);
        }

        //Then, if there was a backed-up `Publish` packet, release it
        if self.clear_packet_timeout(IdType::publish(packet_id)) {
            //Finally, if something was awaiting this `PubRel`, wake it up
            notify(&mut shared.notify_rec, packet_id)
        } else {
            assert(replied.pending.remove(id.spec_key()) =~= replied.pending);
            Vec::new()
        }
    }

    /// Handles an incoming packet
    pub fn process_packet(
        &mut self,
        shared: &mut ClientShared,
        pkt: &IncomingPacket,
        now: u128,
    ) -> (r: PacketOutcome)
        requires
            old(self).inv(),
        ensures
            final(self).inv(),
            ({
                let step = old(self)@.on_packet(old(shared)@, pkt@, now);
                final(self)@ == step.t && final(shared)@ == step.shared && r.tells(step, pkt@)
            }),
            ({
                let step = old(self)@.on_packet(old(shared)@, pkt@, now);
                &&& r.stop == step.stop
                &&& r.connect_result == step.connect_result
                &&& r.wakers@ == step.wakers
                &&& r.released@ == step.released
                &&& r.recipients is Some <==> step.deliver
                &&& r.recipients matches Some(recipients) ==> (pkt matches IncomingPacket::Publish(
                    msg,
                ) && recipients@ == step.t.recipients(msg@.topic))
            }),
    {
        proof {
            law_packets_keep_soundness(self@, shared@, pkt@, now);
        }
        let mut ret = PacketOutcome::quiet();
        if !self.connected {
            self.connected = true;
            let conn_result = match pkt {
                IncomingPacket::ConnAck(x) => x.0,
                _ => Err(ServerConnectError::ProtocolError),
            };
            ret.connect_result = Some(conn_result);
            ret.stop = conn_result.is_err();  //Stop task if error
            return ret;
        }
        match pkt {
            IncomingPacket::ConnAck(_) => {},
            IncomingPacket::SubAck(ack) => {
                let (wakers, released) = self.process_sub_ack(shared, ack);
                ret.wakers = wakers;
                ret.released = released;
            },
            IncomingPacket::Publish(msg) => {
                ret.recipients = self.process_publish(msg, now);
                assert(ret.tells(old(self)@.on_publish(old(shared)@, msg@, now), pkt@));
            },
            IncomingPacket::PubAck(ack) => {
                if self.clear_packet_timeout(IdType::publish(ack.packet_id)) {
                    ret.wakers = notify(&mut shared.notify_ack, ack.packet_id);
                } else {
                    assert(self@.pending =~= old(self)@.pending);
                }
            },
            IncomingPacket::PubRec(rec) => {
                ret.wakers = self.process_pub_rec(shared, rec.packet_id, now);
            },
            IncomingPacket::PubRel(rel) => {
                self.clear_packet_timeout(IdType::pub_rec(rel.packet_id));

                //Always reply with PubComp
                let pkt = PubCompPacket::new(rel.packet_id).make_arc_packet();
                self.queue_internal_packet(pkt, false);
            },
            IncomingPacket::PubComp(comp) => {
                if self.clear_packet_timeout(IdType::pub_rel(comp.packet_id)) {
                    ret.wakers = notify(&mut shared.notify_comp, comp.packet_id);
                } else {
                    assert(self@.pending =~= old(self)@.pending);
                }
            },
            IncomingPacket::UnsubAck(ack) => {
                self.clear_packet_timeout(IdType::unsubscribe(ack.packet_id));
            },
            IncomingPacket::PingResp(_) => {},
        }
        ret
    }
}

/// What became of bytes that came in.
pub enum Received {
    /// They complete this packet, which has been handled
    Packet(IncomingPacket, PacketOutcome),
    /// The connection has been closed
    ConnectionClosed,
    /// They do not complete a packet
    NeedMoreData,
}

impl Transceiver {
    /// Hands the bytes that came in to the packet reader, and handles the packet that they
    /// complete, if any. See [`PacketReader::recv`].
    pub fn receive(
        &mut self,
        rx_pkt: &mut PacketReader,
        shared: &mut ClientShared,
        data: &[u8],
        now: u128,
    ) -> (r: Result<Received, PacketDecodeError>)
        requires
            old(self).inv(),
            old(rx_pkt).inv(),
            data@.len() <= wanted(old(rx_pkt)@),
        ensures
            final(self).inv(),
            final(rx_pkt).inv(),
            final(rx_pkt)@ == step(old(rx_pkt)@, data@).1,
            match step(old(rx_pkt)@, data@).0 {
                Some(packet) => match decode_frame(packet) {
                    Ok(v) => r matches Ok(Received::Packet(pkt, outcome)) && pkt@ == v && ({
                        let step = old(self)@.on_packet(old(shared)@, v, now);
                        &&& final(self)@ == step.t
                        &&& final(shared)@ == step.shared
                        &&& outcome.tells(step, v)
                        &&& outcome.stop == step.stop
                        &&& outcome.connect_result == step.connect_result
                        &&& outcome.wakers@ == step.wakers
                        &&& outcome.released@ == step.released
                        &&& outcome.recipients is Some <==> step.deliver
                        &&& outcome.recipients matches Some(recipients) ==> (
                        v matches PacketView::Publish(msg) && recipients@ == step.t.recipients(
                            msg.topic,
                        ))
                    }),
                    Err(e) => r == Err::<Received, PacketDecodeError>(e) && final(self)@ == old(
                        self,
                    )@ && final(shared)@ == old(shared)@,
                },
                None => {
                    &&& final(self)@ == old(self)@
                    &&& final(shared)@ == old(shared)@
                    &&& if wanted(old(rx_pkt)@) > 0 && data@.len() == 0 {
                        r matches Ok(Received::ConnectionClosed)
                    } else {
                        r matches Ok(Received::NeedMoreData)
                    }
                },
            },
    {
        match rx_pkt.recv(data)? {
            PacketReadState::Incoming(pkt) => {
                let outcome = self.process_packet(shared, &pkt, now);
                Ok(Received::Packet(pkt, outcome))
            },
            PacketReadState::ConnectionClosed => Ok(Received::ConnectionClosed),
            PacketReadState::NeedMoreData => Ok(Received::NeedMoreData),
        }
    }

    /// Creates a transceiver that is about to transmit the specified `CONNECT` packet.
    pub fn new(
        connect_packet: Arc<[u8]>,
        ping_interval: u128,
        packet_resend_delay: u128,
        now: u128,
    ) -> (r: Self)
        requires
            connect_packet@.len() > 0,
        ensures
            r.inv(),
            r@ == TransceiverView::starting(
                connect_packet@,
                ping_interval,
                packet_resend_delay,
                now,
            ),
    {
        let mut tx = TxQueue::new();
        let ghost bytes = connect_packet@;
        tx.queue_internal_packet(connect_packet, false);
        let r = Transceiver {
            connected: false,
            pending_packets: id_map_new(),
            pending_subs: id_map_new(),
            tx,
            ping_interval,
            last_tx: now,
            timeout_queue: VecDeque::with_capacity(1024),
            subscriptions: SubscriptionSet::new(),
            disconnect_sent: false,
            cmd_queue_closed: false,
            ping_req: PingReqPacket.make_arc_packet(),
            packet_resend_delay,
        };
        assert(r@.pending =~= Map::empty());
        assert(r@.pending_subs =~= Map::empty());
        assert(r@.timeouts =~= Seq::empty());
        assert(r@.subs =~= Map::new(
            |p: Seq<char>| true,
            |p: Seq<char>| SubscriptionView::empty(),
        ));
        r
    }

    /// Returns whether the broker has answered the `CONNECT` packet.
    pub fn connected(&self) -> (r: bool)
        ensures
            r == self@.connected,
    {
        self.connected
    }

    /// Returns whether the next command can be carried out.
    pub fn accepts_commands(&self) -> (r: bool)
        requires
            self.inv(),
        ensures
            r == (!self@.cmd_queue_closed && self@.connected && self@.tx.packets.len() == 0),
    {
        !self.cmd_queue_closed && self.connected && self.tx.is_idle()
    }

    /// Takes note that no more commands will come.
    pub fn close_commands(&mut self)
        requires
            old(self).inv(),
        ensures
            final(self).inv(),
            final(self)@ == (TransceiverView { cmd_queue_closed: true, ..old(self)@ }),
    {
        let ghost before = self@;
        self.cmd_queue_closed = true;
        proof {
            lemma_fewer_pending(before, self@);
        }
    }

    /// Carries out a command.
    pub fn process_command(&mut self, shared: &mut ClientShared, cmd: Command, now: u128) -> (r:
        CommandOutcome)
        requires
            old(self).inv(),
            command_fits(cmd),
        ensures
            final(self).inv(),
            ({
                let step = old(self)@.on_command(old(shared)@, cmd, now);
                &&& final(self)@ == step.t
                &&& final(shared)@ == step.shared
                &&& r.stop == step.stop
                &&& r.released@ == step.released
            }),
    {
        proof {
            law_commands_keep_soundness(self@, shared@, cmd, now);
        }
        let mut ret = CommandOutcome { stop: false, released: Vec::new() };
        match cmd {
            Command::Publish(cmd) => match cmd.qos {
                QoS::AtMostOnce => self.queue_internal_packet(cmd.packet, false),
                _ => self.queue_internal_packet_with_timeout(
                    cmd.packet,
                    IdType::publish(cmd.packet_id),
                    now,
                ),
            },
            Command::Subscribe(cmd) => self.subscribe(shared, cmd.topic, cmd.qos, cmd.kind, now),
            Command::Unsub(cmd) => match cmd.kind {
                UnsubKind::FastCallback(id) => {
                    if self.remove_fast_callback(cmd.topic.as_str(), id) {
                        ret.released.push(Recipient::Callback(id));
                    }
                    assert(ret.released@ =~= old(self)@.on_unsub(
                        old(shared)@,
                        cmd.topic@,
                        cmd.kind,
                        now,
                    ).released);
                },
                UnsubKind::Immediate => {
                    ret.released = self.unsub_immediate(shared, cmd.topic.as_str(), now);
                },
            },
            Command::Disconnect => {
                ret.stop = true;
            },
        }
        ret
    }

    fn subscribe(
        &mut self,
        shared: &mut ClientShared,
        topic: String,
        qos: QoS,
        kind: SubscriptionKind,
        now: u128,
    )
        requires
            old(self).parts_inv(),
            encode_utf8(topic@).len() <= u16::MAX,
        ensures
            final(self).parts_inv(),
            ({
                let step = old(self)@.on_subscribe(old(shared)@, topic@, qos, kind, now);
                final(self)@ == step.t && final(shared)@ == step.shared
            }),
    {
        let ghost before = self@;
        proof {
            self.subscriptions.lemma_absent(topic@);
        }
        if let Ok(Some(sub)) = self.subscriptions.get(topic.as_str()) {
            if sub.is_subscribed() {
                sub.add(kind);
                assert(self@.subs =~= before.subs.insert(topic@, before.subs[topic@].with(kind)));
                return ;
            }
        }
        assert(self@.subs =~= before.subs);
        let packet_id: u16 = shared.take_packet_id();
        let filter: [(&str, QoS); 1] = [(topic.as_str(), qos)];
        let pkt = SubscribePacket { packet_id, topics: &filter };
        proof {
            lemma_single_filter(pkt.filters(), topic@, qos);
        }
        let pkt = pkt.make_arc_packet();
        id_map_insert(
            &mut self.pending_subs,
            packet_id as u32,
            PendingSub { topic, kind, packet: pkt.clone() },
        );
        assert(self@.pending_subs =~= before.pending_subs.insert(
            packet_id as u32,
            PendingSubView { topic: topic@, kind, packet: pkt@ },
        ));
        self.queue_internal_packet(pkt, false);
        self.timeout_queue.push_back(Timeout { t: now, packet_id: IdType::subscribe(packet_id) });
    }

    /// Removes a callback from a topic. Returns whether it was there.
    fn remove_fast_callback(&mut self, topic: &str, id: u32) -> (r: bool)
        requires
            old(self).parts_inv(),
        ensures
            final(self).parts_inv(),
            r == old(self)@.subs[topic@].callbacks.contains(id),
            final(self)@ == (TransceiverView {
                subs: old(self)@.subs.insert(
                    topic@,
                    old(self)@.subs[topic@].without_callback(id),
                ),
                ..old(self)@
            }),
    {
        let ghost before = self@;
        let mut found = false;
        if let Ok(Some(sub)) = self.subscriptions.get(topic) {
            found = sub.remove_fast_callback(id);
        } else {
            proof {
                self.subscriptions.lemma_absent(topic@);
            }
            assert(before.subs[topic@] == SubscriptionView::empty());
        }
        assert(self@.subs =~= before.subs.insert(
            topic@,
            before.subs[topic@].without_callback(id),
        ));
        found
    }

    /// If the topic is subscribed to, deletes the subscription and sends an `UNSUBSCRIBE`
    /// packet. Returns the receivers that it had.
    fn unsub_immediate(&mut self, shared: &mut ClientShared, topic: &str, now: u128) -> (r: Vec<
        Recipient,
    >)
        requires
            old(self).inv(),
        ensures
            final(self).parts_inv(),
            ({
                let step = old(self)@.on_unsub(
                    old(shared)@,
                    topic@,
                    UnsubKind::Immediate,
                    now,
                );
                &&& final(self)@ == step.t
                &&& final(shared)@ == step.shared
                &&& r@ == step.released
            }),
    {
        let ghost before = self@;
        let mut released: Vec<Recipient> = Vec::new();
        proof {
            self.subscriptions.lemma_absent(topic@);
        }
        if let Ok(Some(sub)) = self.subscriptions.get(topic) {
            if sub.is_subscribed() {
                sub.dispatch(&mut released);
            }
        }
        assert(self@.subs =~= before.subs);
        match self.subscriptions.clear(topic) {
            Ok(true) => {},
            _ => {
                assert(self@.subs =~= before.subs);
                return released;
            },
        }
        assert(released@ =~= before.subs[topic@].recipients());
        assert(self@.subs =~= before.subs.insert(topic@, SubscriptionView::empty()));
        topic_map_remove(&mut shared.subs, topic);
        assert(shared@.subs =~= old(shared)@.subs.remove(topic@));

        //Finish by sending the `Unsub` packet
        let packet_id: u16 = shared.take_packet_id();
        let topics: [&str; 1] = [topic];
        let pkt = UnsubscribePacket { packet_id, topics: &topics };
        proof {
            lemma_single_topic(pkt.names(), topic@);
        }
        let pkt = pkt.make_arc_packet();
        self.queue_internal_packet_with_timeout(pkt, IdType::unsubscribe(packet_id), now);
        released
    }

    /// Handles the alarm that goes off every second: sends a `PINGREQ` packet if nothing was
    /// transmitted for too long, and re-sends the packets that were not answered in time.
    pub fn process_alarm(&mut self, now: u128)
        requires
            old(self).inv(),
        ensures
            final(self).inv(),
            final(self)@ == old(self)@.on_alarm(now),
    {
        proof {
            law_alarms_keep_soundness(self@, now);
        }
        if !self.connected {
            return ;
        }
        let ghost before = self@;
        let mut count: usize = self.timeout_queue.len();
        if time_since(self.last_tx, now) >= self.ping_interval {
            //Even though this is not a TX operation, we need it to prevent spamming ping requests
            self.last_tx = now;
            self.queue_internal_packet(self.ping_req.clone(), false);
        }
        assert(self@ == before.pinging(now));
        proof {
            lemma_fewer_pending(before, self@);
        }
        let ghost goal = self@.resending(now, count as nat);
        while count > 0
            invariant
                self.parts_inv(),
                self@.is_sound(),
                self@.resending(now, count as nat) == goal,
            ensures
                self.parts_inv(),
                self@ == goal,
            decreases count,
        {
            let ghost at = self@;
            if self.timeout_queue.len() == 0 {
                break ;
            }
            let to = self.timeout_queue[0];
            if time_since(to.t, now) < self.packet_resend_delay {
                break ;
            }
            proof {
                lemma_resending_oldest(at, now);
            }
            self.timeout_queue.pop_front();
            assert(self@.timeouts =~= at.timeouts.skip(1));
            match self.unanswered(to.packet_id) {
                Some(pkt) => {
                    self.queue_internal_packet(pkt, to.packet_id.ty == PacketType::Publish);
                    self.timeout_queue.push_back(Timeout { t: now, packet_id: to.packet_id });
                    assert(self@.timeouts =~= at.resending_oldest(now).timeouts);
                },
                None => {},
            }
            assert(self@ == at.resending_oldest(now));
            count -= 1;
        }
    }

    /// Finds the bytes to be re-transmitted for a packet, if it is still pending.
    fn unanswered(&self, id: IdType) -> (r: Option<Arc<[u8]>>)
        requires
            self@.packets_are_sound(),
        ensures
            match r {
                Some(bytes) => self@.unanswered(id) == Some(bytes@) && bytes@.len() > 0,
                None => self@.unanswered(id) is None,
            },
    {
        if id.ty == PacketType::Subscribe {
            //Special treatment for the Subscribe packet as we store it in a different hash map
            match id_map_get(&self.pending_subs, id.id as u32) {
                Some(sub) => {
                    assert(self@.pending_subs.contains_key(id.id as u32));
                    Some(sub.packet.clone())
                },
                None => None,
            }
        } else {
            self.pending_packet(id)
        }
    }

    /// Removes the queues that turned out to be closed when a message with the specified
    /// topic was handed to them.
    pub fn remove_closed(&mut self, topic: &str, closed: &Vec<Recipient>)
        requires
            old(self).inv(),
        ensures
            final(self).inv(),
            final(self)@ == old(self)@.without_closed(topic@, closed@),
    {
        let ghost before = self@;
        self.subscriptions.remove_closed(topic, closed);
        proof {
            assert(self@.subs =~= before.without_closed(topic@, closed@).subs);
            law_closed_queues_keep_soundness(before, topic@, closed@);
        }
    }

    /// Lists all the receivers that there still are, for them to be closed when the transceiver
    /// shuts down.
    pub fn release_all(&self) -> (r: Vec<Recipient>)
        ensures
            self@.holds(r@),
    {
        let mut held = self.subscriptions.recipients();
        assert(self@.at() =~= self.subscriptions.subs());
        let ghost at = self@.at();
        let ghost patterns = choose|patterns: Seq<Seq<char>>| #[trigger]
            covers(at, patterns) && held@ == gathered(at, patterns);
        let ghost found = held@;
        let ids = id_map_keys(&self.pending_subs);
        proof {
            assert(ids@.to_set() =~= self@.pending_subs.dom()) by {
                assert forall|k: u32| ids@.to_set().contains(k) <==> self@.pending_subs.dom().contains(
                    k,
                ) by {
                    assert(self.pending_subs@.contains_key(k) <==> ids@.contains(k));
                }
            }
            assert(awaiting(self@.pending_subs, ids@.take(0)) =~= Seq::empty());
        }
        let mut i: usize = 0;
        while i < ids.len()
            invariant
                i <= ids@.len(),
                forall|k: u32| #[trigger] self.pending_subs@.contains_key(k) <==> ids@.contains(k),
                held@ == found + awaiting(self@.pending_subs, ids@.take(i as int)),
            decreases ids@.len() - i,
        {
            assert(ids@.contains(ids@[i as int]));
            assert(ids@.take(i + 1).drop_last() =~= ids@.take(i as int));
            let ghost before = held@;
            if let Some(sub) = id_map_get(&self.pending_subs, ids[i]) {
                let mut receiver = list_receiver(sub.kind);
                held.append(&mut receiver);
            }
            assert(held@ =~= before + receiver_of(self@.pending_subs[ids@[i as int]].kind));
            i += 1;
            assert(held@ =~= found + awaiting(self@.pending_subs, ids@.take(i as int)));
        }
        proof {
            assert(ids@.take(i as int) =~= ids@);
            assert(covers(self@.at(), patterns));
            assert(lists(ids@, self@.pending_subs.dom()));
        }
        held
    }

    /// Returns whether there is nothing to transmit.
    pub fn is_idle(&self) -> (r: bool)
        requires
            self.inv(),
        ensures
            r == (self@.tx.packets.len() == 0),
    {
        self.tx.is_idle()
    }

    /// Returns whether the current packet can be written without waiting for the
    /// transport to become ready.
    pub fn is_immediate(&self) -> (r: bool)
        ensures
            r == self@.tx.immediate,
    {
        self.tx.is_immediate()
    }

    /// Returns the bytes to be written next, if there are any.
    pub fn next_write(&self) -> (r: Option<TxChunk>)
        requires
            self.inv(),
        ensures
            r is None <==> self@.tx.packets.len() == 0,
            r matches Some(chunk) ==> chunk@ == self@.tx.chunk() && chunk@.len() > 0
                && chunk@.is_prefix_of(self@.tx.stream()),
            r matches Some(TxChunk::Dup(b)) ==> self@.tx.chunk() == seq![b],
            r matches Some(TxChunk::Bytes(bytes)) ==> self@.tx.chunk() == bytes@,
    {
        self.tx.next_write()
    }

    /// Takes note of how many bytes of the last [`Self::next_write`] have been written.
    pub fn written(&mut self, n: usize, now: u128) -> (r: TxProgress)
        requires
            old(self).inv(),
            old(self)@.tx.packets.len() > 0,
            n <= old(self)@.tx.chunk().len(),
        ensures
            final(self).inv(),
            r == (if !old(self)@.tx.immediate && n == 0 {
                TxProgress::ConnectionClosed
            } else if old(self)@.tx.completes(n as nat) {
                TxProgress::Complete
            } else {
                TxProgress::Incomplete
            }),
            final(self)@ == (TransceiverView {
                tx: if r == TxProgress::ConnectionClosed {
                    old(self)@.tx
                } else {
                    old(self)@.tx.after_write(n as nat)
                },
                last_tx: if r == TxProgress::Complete {
                    now
                } else {
                    old(self)@.last_tx
                },
                ..old(self)@
            }),
            final(self)@.tx.stream() == old(self)@.tx.stream().skip(n as int),
    {
        let ghost before = self@;
        let r = self.tx.written(n);
        if r == TxProgress::Complete {
            self.last_tx = now;
        }
        proof {
            lemma_fewer_pending(before, self@);
        }
        r
    }

    /// Starts a graceful disconnect by queueing a `DISCONNECT` packet. Returns whether
    /// there is a connection to be ended that way.
    pub fn begin_disconnect(&mut self) -> (r: bool)
        requires
            old(self).inv(),
        ensures
            final(self).inv(),
            r == old(self)@.connected,
            final(self)@ == (if r {
                old(self)@.sending(disconnect_packet(), false)
            } else {
                old(self)@
            }),
    {
        if !self.connected {
            return false;
        }
        let ghost before = self@;
        let disconnect_pkt = DisconnectPacket.make_arc_packet();
        self.queue_internal_packet(disconnect_pkt, false);
        proof {
            lemma_fewer_pending(before, self@);
        }
        true
    }

    /// Ends a graceful disconnect once the transport wants neither to read nor to write any
    /// more: everything has been transmitted. Returns whether that is the case.
    pub fn finish_disconnect(&mut self, wants_read: bool, wants_write: bool) -> (r: bool)
        requires
            old(self).inv(),
        ensures
            final(self).inv(),
            r == (!wants_read && !wants_write),
            final(self)@ == (TransceiverView {
                disconnect_sent: old(self)@.disconnect_sent || r,
                ..old(self)@
            }),
    {
        let ghost before = self@;
        if !wants_read && !wants_write {
            self.disconnect_sent = true;
        }
        proof {
            lemma_fewer_pending(before, self@);
        }
        !wants_read && !wants_write
    }

    /// Reports the state in which the transceiver finished. `graceful` tells whether the
    /// shutdown sequence succeeded, if it was completed in time; there is none if the
    /// connection was closed.
    pub fn shutdown_status(&self, connection_closed: bool, graceful: Option<bool>) -> (r:
        ShutdownStatus)
        ensures
            r == (if connection_closed {
                ShutdownStatus { disconnect_sent: false, clean: false }
            } else {
                ShutdownStatus {
                    disconnect_sent: self@.disconnect_sent,
                    clean: graceful == Some(true),
                }
            }),
    {
        if connection_closed {
            return ShutdownStatus { disconnect_sent: false, clean: false };
        }
        let clean = match graceful {
            Some(x) => x,
            None => false,
        };
        ShutdownStatus { disconnect_sent: self.disconnect_sent, clean }
    }
}

/// Describes the state in which the client's transceiver task finished.
#[derive(Debug, Clone, Copy, PartialEq, Eq, Structural)]
pub struct ShutdownStatus {
    /// If this value is true, then the `DISCONNECT` packet has successfully
    /// been sent, and it's very unlikely that the last will message has been
    /// sent.
    pub disconnect_sent: bool,
    /// If this value is true, everything is proceeding as I have forseen and
    /// the connection has been closed cleanly.
    pub clean: bool,
}

/// Computes how much time passed between two timestamps.
fn time_since(since: u128, now: u128) -> (r: u128)
    ensures
        r == elapsed(since, now),
{
    if now >= since {
        now - since
    } else {
        0
    }
}

/// The body of a packet that subscribes to a single topic.
proof fn lemma_single_filter(filters: Seq<Filter>, topic: Seq<char>, qos: QoS)
    requires
        filters.len() == 1,
        filters[0] == (topic, qos),
        encode_utf8(topic).len() <= u16::MAX,
    ensures
        filters_bytes(filters) == filters_bytes(seq![(topic, qos)]),
        filters_bytes(filters).len() <= 65538,
{
    assert(filters =~= seq![(topic, qos)]);
    assert(filters.skip(1) =~= Seq::empty());
    assert(filters_bytes(Seq::<Filter>::empty()) =~= Seq::<u8>::empty());
}

/// The body of a packet that unsubscribes from a single topic.
proof fn lemma_single_topic(topics: Seq<Seq<char>>, topic: Seq<char>)
    requires
        topics.len() == 1,
        topics[0] == topic,
        encode_utf8(topic).len() <= u16::MAX,
    ensures
        topics_bytes(topics) == topics_bytes(seq![topic]),
        topics_bytes(topics).len() <= 65537,
{
    assert(topics =~= seq![topic]);
    assert(topics.skip(1) =~= Seq::empty());
    assert(topics_bytes(Seq::<Seq<char>>::empty()) =~= Seq::<u8>::empty());
}

/// Keys of different packets are different.
proof fn law_keys_differ(a: IdType, b: IdType)
    requires
        a != b,
    ensures
        a.spec_key() != b.spec_key(),
{
    if a.spec_key() == b.spec_key() {
        law_keys_are_unique(a, b);
    }
}

/// Removes the entry of a packet ID, and returns the waker to be woken up if it has one.
fn notify(map: &mut NotifierMap, packet_id: u16) -> (r: Vec<u64>)
    ensures
        final(map)@ == old(map)@.remove(packet_id as u32),
        r@ == waker_of(old(map)@, packet_id),
{
    let mut wakers: Vec<u64> = Vec::new();
    if let Some(NotifyResult::WithWaker(waker)) = id_map_remove(map, packet_id as u32) {
        wakers.push(waker);
    }
    assert(wakers@ =~= waker_of(old(map)@, packet_id));
    wakers
}

} // verus!
