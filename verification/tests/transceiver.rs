use lmc::client::build_transceiver;
use lmc::shared::{ClientShared, NotifyResult, SubscriptionState};
use lmc::time::Duration;
use lmc::transceiver::byte_io::ByteReader;
use lmc::transceiver::commands::{
    Command, FastCallback, PublishCommand, SubscribeCommand, SubscriptionKind, UnsubCommand, UnsubKind,
};
use lmc::transceiver::packet_reader::{PacketReadState, PacketReader, PacketSizeInfo};
use lmc::transceiver::packets::{
    ConnAckPacket, ControlField, Encode, IncomingPacket, OutgoingPublishPacket, PacketType,
    PingRespPacket, PubAckPacket, PubCompPacket, PubRecPacket, PubRelPacket, PublishFlags, SubAckPacket,
    UnsubAckPacket,
};
use lmc::transceiver::subscription::{Recipient, Subscription, SubscriptionSet};
use lmc::transceiver::tx_queue::{TxChunk, TxProgress, TxQueue};
use lmc::transceiver::util::IdType;
use lmc::transceiver::{Received, ShutdownStatus, Transceiver};
use lmc::{Options, PacketDecodeError, QoS, ServerConnectError};

const SEC: u128 = 1_000_000_000;

fn packet(bytes: &[u8]) -> IncomingPacket {
    let mut rd = ByteReader::new(&bytes[2..]);
    IncomingPacket::from_bytes(&mut rd, ControlField(bytes[0])).ok().unwrap()
}

fn message(topic: &str, qos: QoS, packet_id: u16) -> IncomingPacket {
    let flags = PublishFlags::new(false, qos, false);
    packet(&OutgoingPublishPacket { flags, topic, packet_id, payload: b"x" }.make_packet())
}

/// Writes everything that can be written, and returns it.
fn flush(t: &mut Transceiver, now: u128) -> Vec<u8> {
    let mut out = Vec::new();
    loop {
        let bytes = match t.next_write() {
            None => return out,
            Some(TxChunk::Dup(b)) => vec![b],
            Some(TxChunk::Bytes(b)) => b.to_vec(),
        };
        out.extend_from_slice(&bytes);
        t.written(bytes.len(), now);
    }
}

fn connected() -> (Transceiver, ClientShared) {
    let mut shared = ClientShared::new();
    let mut t = build_transceiver(Options::new("id").set_keep_alive(10), 0).unwrap();
    assert!(!t.connected());
    assert!(!t.accepts_commands());
    assert_eq!(flush(&mut t, 0)[..2], [0x10, 14]);
    let out = t.process_packet(&mut shared, &packet(&ConnAckPacket(Ok(true)).make_packet()), 0);
    assert!(!out.stop);
    assert_eq!(out.connect_result, Some(Ok(true)));
    assert!(t.accepts_commands());
    (t, shared)
}

fn subscribe(t: &mut Transceiver, shared: &mut ClientShared, topic: &str, kind: SubscriptionKind) {
    shared.begin_subscribe(topic);
    let id = shared.next_packet_id;
    let cmd = SubscribeCommand { topic: topic.to_string(), qos: QoS::AtMostOnce, kind };
    t.process_command(shared, cmd.into(), 0);
    if !flush(t, 0).is_empty() {
        let ack = SubAckPacket::new(id, &[Ok(QoS::AtMostOnce)]).make_packet();
        t.process_packet(shared, &packet(&ack), 0);
    }
}

#[test]
fn reader_cuts_packets_out_of_chunks() {
    let mut stream = PubAckPacket::new(7).make_packet().to_vec();
    stream.extend_from_slice(&PingRespPacket.make_packet());
    let flags = PublishFlags::new(false, QoS::AtMostOnce, false);
    let payload = vec![1u8; 300];
    stream.extend_from_slice(&OutgoingPublishPacket { flags, topic: "t", packet_id: 0, payload: &payload }.make_packet());

    for step in 1..12 {
        let mut reader = PacketReader::new();
        let mut pos = 0;
        let mut seen = Vec::new();
        while seen.len() < 3 {
            let n = reader.bytes_wanted().min(step).min(stream.len() - pos);
            match reader.recv(&stream[pos..pos + n]) {
                Ok(PacketReadState::Incoming(p)) => {
                    if let IncomingPacket::Publish(m) = &p {
                        assert_eq!(m.payload(), &payload[..]);
                    }
                    seen.push(p.packet_type());
                }
                Ok(PacketReadState::NeedMoreData) => {}
                _ => panic!(),
            }
            pos += n;
        }
        assert_eq!(seen, vec![PacketType::PubAck, PacketType::PingResp, PacketType::Publish]);
        assert_eq!(pos, stream.len());
        assert!(matches!(reader.recv(&[]), Ok(PacketReadState::ConnectionClosed)));
    }
}

#[test]
fn reader_goes_on_after_a_bad_packet() {
    let mut reader = PacketReader::new();
    assert_eq!(reader.bytes_wanted(), 5);
    assert!(matches!(reader.recv(&[0xf0, 0, 0xd0, 0]), Ok(PacketReadState::NeedMoreData)));
    assert_eq!(reader.bytes_wanted(), 0);
    assert!(matches!(reader.recv(&[]), Err(PacketDecodeError::InvalidPacketId(15))));
    assert!(matches!(reader.recv(&[]), Ok(PacketReadState::Incoming(IncomingPacket::PingResp(_)))));
}

#[test]
fn reader_reports_a_closed_connection_in_the_middle() {
    let mut reader = PacketReader::new();
    assert!(matches!(reader.recv(&[0x40, 2, 0]), Ok(PacketReadState::NeedMoreData)));
    assert_eq!(reader.bytes_wanted(), 1);
    assert!(matches!(reader.recv(&[]), Ok(PacketReadState::ConnectionClosed)));
    assert!(matches!(reader.recv(&[9]), Ok(PacketReadState::Incoming(IncomingPacket::PubAck(p))) if p.packet_id == 9));
}

#[test]
fn tx_queue_is_first_in_first_out() {
    let mut q = TxQueue::new();
    assert!(q.is_idle());
    assert!(q.next_write().is_none());
    q.queue_internal_packet(vec![0x30, 1, 2].into(), true);
    q.queue_internal_packet(vec![0x40, 2].into(), false);
    assert!(!q.is_idle());
    assert!(q.is_immediate());
    assert!(matches!(q.next_write(), Some(TxChunk::Dup(0x38))));
    assert_eq!(q.written(1), TxProgress::Incomplete);
    assert!(q.is_immediate());
    assert!(matches!(q.next_write(), Some(TxChunk::Bytes(&[1, 2]))));
    assert_eq!(q.written(1), TxProgress::Incomplete);
    assert!(!q.is_immediate());
    assert!(matches!(q.next_write(), Some(TxChunk::Bytes(&[2]))));
    assert_eq!(q.written(0), TxProgress::ConnectionClosed);
    assert_eq!(q.written(1), TxProgress::Complete);
    assert!(q.is_immediate());
    assert_eq!(q.written(0), TxProgress::Incomplete);
    assert!(!q.is_immediate());
    assert!(matches!(q.next_write(), Some(TxChunk::Bytes(&[0x40, 2]))));
    assert_eq!(q.written(2), TxProgress::Complete);
    assert!(q.is_idle());
}

#[test]
fn anything_but_conn_ack_is_a_protocol_error() {
    let mut shared = ClientShared::new();
    let mut t = build_transceiver(&Options::new("id"), 0).unwrap();
    let out = t.process_packet(&mut shared, &packet(&PingRespPacket.make_packet()), 0);
    assert!(out.stop);
    assert_eq!(out.connect_result, Some(Err(ServerConnectError::ProtocolError)));

    let mut t = build_transceiver(&Options::new("id"), 0).unwrap();
    let refusal = ConnAckPacket(Err(ServerConnectError::NotAuthorized)).make_packet();
    let out = t.process_packet(&mut shared, &packet(&refusal), 0);
    assert!(out.stop);
    assert_eq!(out.connect_result, Some(Err(ServerConnectError::NotAuthorized)));
}

#[test]
fn second_conn_ack_is_ignored() {
    let (mut t, mut shared) = connected();
    let out = t.process_packet(&mut shared, &packet(&ConnAckPacket(Ok(true)).make_packet()), 0);
    assert!(!out.stop);
    assert_eq!(out.connect_result, None);
    assert!(t.is_idle());
}

#[test]
fn qos_0_message_is_delivered() {
    let (mut t, mut shared) = connected();
    subscribe(&mut t, &mut shared, "a", SubscriptionKind::Lossy(1));
    let out = t.process_packet(&mut shared, &message("a", QoS::AtMostOnce, 0), 0);
    assert_eq!(out.recipients, Some(vec![Recipient::Lossy(1)]));
    assert!(t.is_idle());
    let out = t.process_packet(&mut shared, &message("b", QoS::AtMostOnce, 0), 0);
    assert_eq!(out.recipients, Some(vec![]));
}

#[test]
fn qos_1_message_is_acknowledged() {
    let (mut t, mut shared) = connected();
    for _ in 0..2 {
        let out = t.process_packet(&mut shared, &message("a", QoS::AtLeastOnce, 5), 0);
        assert!(out.recipients.is_some());
        assert_eq!(flush(&mut t, 0), vec![0x40, 2, 0, 5]);
    }
}

#[test]
fn qos_2_message_is_delivered_once() {
    let (mut t, mut shared) = connected();
    let out = t.process_packet(&mut shared, &message("a", QoS::ExactlyOnce, 5), 0);
    assert!(out.recipients.is_some());
    assert_eq!(flush(&mut t, 0), vec![0x50, 2, 0, 5]);
    let out = t.process_packet(&mut shared, &message("a", QoS::ExactlyOnce, 5), 0);
    assert!(out.recipients.is_none());
    assert_eq!(flush(&mut t, 0), vec![0x50, 2, 0, 5]);
    t.process_packet(&mut shared, &packet(&PubRelPacket::new(5).make_packet()), 0);
    assert_eq!(flush(&mut t, 0), vec![0x70, 2, 0, 5]);
    let out = t.process_packet(&mut shared, &message("a", QoS::ExactlyOnce, 5), 0);
    assert!(out.recipients.is_some());
}

#[test]
fn pub_rel_is_always_answered() {
    let (mut t, mut shared) = connected();
    t.process_packet(&mut shared, &packet(&PubRelPacket::new(77).make_packet()), 0);
    assert_eq!(flush(&mut t, 0), vec![0x70, 2, 0, 77]);
}

#[test]
fn qos_1_publish_is_resent_until_acknowledged() {
    let (mut t, mut shared) = connected();
    let cmd = shared.make_publish_cmd("t", b"x", QoS::AtLeastOnce, false);
    let bytes = cmd.packet.to_vec();
    shared.notify_ack.insert(1, NotifyResult::WithWaker(42));
    t.process_command(&mut shared, cmd.into(), 0);
    assert!(!t.accepts_commands());
    assert_eq!(flush(&mut t, 0), bytes);

    t.process_alarm(SEC - 1);
    assert!(t.is_idle());
    t.process_alarm(SEC);
    let mut dup = bytes.clone();
    dup[0] |= 8;
    assert_eq!(flush(&mut t, SEC), dup);
    t.process_alarm(2 * SEC - 1);
    assert!(t.is_idle());
    t.process_alarm(2 * SEC);
    assert_eq!(flush(&mut t, 2 * SEC), dup);

    let out = t.process_packet(&mut shared, &packet(&PubAckPacket::new(1).make_packet()), 2 * SEC);
    assert_eq!(out.wakers, vec![42]);
    assert!(shared.notify_ack.is_empty());
    t.process_alarm(4 * SEC);
    assert!(t.is_idle());
    let out = t.process_packet(&mut shared, &packet(&PubAckPacket::new(1).make_packet()), 4 * SEC);
    assert!(out.wakers.is_empty());
}

#[test]
fn qos_2_publish_goes_through_its_stages() {
    let (mut t, mut shared) = connected();
    let cmd = shared.make_publish_cmd("t", b"x", QoS::ExactlyOnce, false);
    shared.notify_rec.insert(1, NotifyResult::WithWaker(1));
    shared.notify_comp.insert(1, NotifyResult::WithWaker(2));
    t.process_command(&mut shared, cmd.into(), 0);
    flush(&mut t, 0);
    let out = t.process_packet(&mut shared, &packet(&PubRecPacket::new(1).make_packet()), 0);
    assert_eq!(out.wakers, vec![1]);
    assert_eq!(flush(&mut t, 0), vec![0x62, 2, 0, 1]);
    //The PUBREL packet is sent again for every PUBREC packet, and when it is not answered
    let out = t.process_packet(&mut shared, &packet(&PubRecPacket::new(1).make_packet()), 0);
    assert!(out.wakers.is_empty());
    assert_eq!(flush(&mut t, 0), vec![0x62, 2, 0, 1]);
    t.process_alarm(SEC);
    assert_eq!(flush(&mut t, SEC), vec![0x62, 2, 0, 1]);
    let out = t.process_packet(&mut shared, &packet(&PubCompPacket::new(1).make_packet()), SEC);
    assert_eq!(out.wakers, vec![2]);
    t.process_alarm(3 * SEC);
    assert!(t.is_idle());
}

#[test]
fn qos_0_publish_is_sent_once() {
    let (mut t, mut shared) = connected();
    let cmd = PublishCommand { packet_id: 0, qos: QoS::AtMostOnce, packet: vec![0x30, 0].into() };
    t.process_command(&mut shared, Command::from(cmd), 0);
    assert_eq!(flush(&mut t, 0), vec![0x30, 0]);
    t.process_alarm(5 * SEC);
    assert!(t.is_idle());
}

#[test]
fn ping_after_silence() {
    let (mut t, mut shared) = connected();
    t.process_alarm(10 * SEC - 1);
    assert!(t.is_idle());
    t.process_alarm(10 * SEC);
    assert_eq!(flush(&mut t, 10 * SEC), vec![0xc0, 0]);
    t.process_packet(&mut shared, &packet(&PingRespPacket.make_packet()), 10 * SEC);
    t.process_alarm(20 * SEC - 1);
    assert!(t.is_idle());
    //Any packet will do
    t.process_packet(&mut shared, &message("a", QoS::AtLeastOnce, 5), 20 * SEC - 1);
    flush(&mut t, 20 * SEC - 1);
    t.process_alarm(20 * SEC);
    assert!(t.is_idle());
}

#[test]
fn nothing_happens_before_the_connection() {
    let mut t = build_transceiver(&Options::new("id"), 0).unwrap();
    flush(&mut t, 0);
    t.process_alarm(100 * SEC);
    assert!(t.is_idle());
    assert!(!t.begin_disconnect());
    assert!(t.is_idle());
}

#[test]
fn resend_delay_is_at_least_a_second() {
    let mut shared = ClientShared::new();
    let mut opts = Options::new("id");
    opts.set_packets_resend_delay(Duration::from_nanos(5));
    let mut t = build_transceiver(&opts, 0).unwrap();
    flush(&mut t, 0);
    t.process_packet(&mut shared, &packet(&ConnAckPacket(Ok(false)).make_packet()), 0);
    let cmd = shared.make_publish_cmd("t", b"x", QoS::AtLeastOnce, false);
    t.process_command(&mut shared, cmd.into(), 0);
    flush(&mut t, 0);
    t.process_alarm(SEC - 1);
    assert!(t.is_idle());
    t.process_alarm(SEC);
    assert!(!t.is_idle());
}

#[test]
fn subscribing_and_receiving() {
    let (mut t, mut shared) = connected();
    shared.begin_subscribe("a/*");
    shared.subs.insert("a/*".to_string(), SubscriptionState::Pending(vec![Some(5), None]));
    let cmd = SubscribeCommand {
        topic: "a/*".to_string(),
        qos: QoS::ExactlyOnce,
        kind: SubscriptionKind::Unbounded(3),
    };
    let out = t.process_command(&mut shared, cmd.into(), 0);
    assert!(!out.stop && out.released.is_empty());
    assert_eq!(flush(&mut t, 0), vec![0x82, 8, 0, 1, 0, 3, b'a', b'/', b'*', 2]);
    let out = t.process_packet(&mut shared, &message("a/b", QoS::AtMostOnce, 0), 0);
    assert_eq!(out.recipients, Some(vec![]));

    let ack = SubAckPacket::new(1, &[Ok(QoS::AtLeastOnce)]).make_packet();
    let out = t.process_packet(&mut shared, &packet(&ack), 0);
    assert_eq!(out.wakers, vec![5]);
    assert!(matches!(shared.subs.get("a/*"), Some(SubscriptionState::Existing(QoS::AtLeastOnce))));
    let out = t.process_packet(&mut shared, &message("a/b", QoS::AtMostOnce, 0), 0);
    assert_eq!(out.recipients, Some(vec![Recipient::Unbounded(3)]));
    let out = t.process_packet(&mut shared, &message("a/b/c", QoS::AtMostOnce, 0), 0);
    assert_eq!(out.recipients, Some(vec![]));

    //A second receiver needs no packet
    subscribe(&mut t, &mut shared, "a/*", SubscriptionKind::Void);
    subscribe(&mut t, &mut shared, "a/*", SubscriptionKind::Lossy(4));
    assert_eq!(shared.next_packet_id, 2);
    let out = t.process_packet(&mut shared, &message("a/b", QoS::AtMostOnce, 0), 0);
    assert_eq!(out.recipients, Some(vec![Recipient::Lossy(4), Recipient::Unbounded(3)]));
    t.remove_closed("a/b", &vec![Recipient::Unbounded(3), Recipient::Lossy(3)]);
    let out = t.process_packet(&mut shared, &message("a/b", QoS::AtMostOnce, 0), 0);
    assert_eq!(out.recipients, Some(vec![Recipient::Lossy(4)]));
}

#[test]
fn refused_subscription_is_forgotten() {
    let (mut t, mut shared) = connected();
    shared.begin_subscribe("a");
    let cmd = SubscribeCommand {
        topic: "a".to_string(),
        qos: QoS::ExactlyOnce,
        kind: SubscriptionKind::Lossy(3),
    };
    t.process_command(&mut shared, cmd.into(), 0);
    flush(&mut t, 0);
    t.process_alarm(SEC);
    assert_eq!(flush(&mut t, SEC)[0], 0x82);
    let ack = SubAckPacket::new(1, &[Err(())]).make_packet();
    let out = t.process_packet(&mut shared, &packet(&ack), 0);
    assert_eq!(out.released, vec![Recipient::Lossy(3)]);
    assert!(shared.subs.is_empty());
    let out = t.process_packet(&mut shared, &message("a", QoS::AtMostOnce, 0), 0);
    assert_eq!(out.recipients, Some(vec![]));
    t.process_alarm(3 * SEC);
    assert!(t.is_idle());
    //An answer without results, or to nothing, changes nothing
    let out = t.process_packet(&mut shared, &packet(&SubAckPacket::new(1, &[]).make_packet()), 0);
    assert!(out.wakers.is_empty());
}

#[test]
fn callbacks_are_called_in_order_until_removed() {
    let (mut t, mut shared) = connected();
    for id in [4, 2, 9, 2] {
        subscribe(&mut t, &mut shared, "a", SubscriptionKind::FastCallback(FastCallback { id }));
    }
    let out = t.process_packet(&mut shared, &message("a", QoS::AtMostOnce, 0), 0);
    assert_eq!(
        out.recipients,
        Some(vec![Recipient::Callback(2), Recipient::Callback(4), Recipient::Callback(9)])
    );
    for id in [2, 4, 9] {
        let cmd = UnsubCommand { topic: "a".to_string(), kind: UnsubKind::FastCallback(id) };
        let out = t.process_command(&mut shared, cmd.into(), 0);
        assert_eq!(out.released, vec![Recipient::Callback(id)]);
    }
    //Removing callbacks does not unsubscribe
    assert!(t.is_idle());
    assert!(shared.subs.contains_key("a"));
    let cmd = UnsubCommand { topic: "a".to_string(), kind: UnsubKind::FastCallback(2) };
    assert!(t.process_command(&mut shared, cmd.into(), 0).released.is_empty());
}

#[test]
fn unsubscribing() {
    let (mut t, mut shared) = connected();
    subscribe(&mut t, &mut shared, "a", SubscriptionKind::Lossy(1));
    let unsub = || UnsubCommand { topic: "a".to_string(), kind: UnsubKind::Immediate };
    let out = t.process_command(&mut shared, unsub().into(), 0);
    assert_eq!(out.released, vec![Recipient::Lossy(1)]);
    assert!(shared.subs.is_empty());
    assert_eq!(flush(&mut t, 0), vec![0xa2, 5, 0, 2, 0, 1, b'a']);
    let out = t.process_packet(&mut shared, &message("a", QoS::AtMostOnce, 0), 0);
    assert_eq!(out.recipients, Some(vec![]));
    t.process_alarm(SEC);
    assert_eq!(flush(&mut t, SEC), vec![0xa2, 5, 0, 2, 0, 1, b'a']);
    t.process_packet(&mut shared, &packet(&UnsubAckPacket::new(2).make_packet()), SEC);
    t.process_alarm(3 * SEC);
    assert!(t.is_idle());
    //There is nothing to unsubscribe from any more
    t.process_command(&mut shared, unsub().into(), 0);
    assert!(t.is_idle());
}

#[test]
fn disconnecting() {
    let (mut t, mut shared) = connected();
    assert!(t.process_command(&mut shared, Command::Disconnect, 0).stop);
    assert!(t.begin_disconnect());
    assert!(!t.finish_disconnect(false, true));
    assert_eq!(
        t.shutdown_status(false, None),
        ShutdownStatus { disconnect_sent: false, clean: false }
    );
    assert_eq!(flush(&mut t, 0), vec![0xe0, 0]);
    assert!(t.finish_disconnect(false, false));
    assert_eq!(
        t.shutdown_status(false, Some(true)),
        ShutdownStatus { disconnect_sent: true, clean: true }
    );
    assert_eq!(
        t.shutdown_status(true, None),
        ShutdownStatus { disconnect_sent: false, clean: false }
    );
    t.close_commands();
    assert!(!t.accepts_commands());
}

#[test]
fn subscription_objects() {
    let mut sub = Subscription::new();
    assert!(!sub.is_subscribed());
    sub.set_subscribed();
    sub.add(SubscriptionKind::Lossy(1));
    sub.add(SubscriptionKind::Lossy(2));
    sub.add(SubscriptionKind::Lossy(1));
    sub.add(SubscriptionKind::FastCallback(FastCallback { id: 3 }));
    sub.remove_closed(&vec![Recipient::Lossy(1), Recipient::Unbounded(2)]);
    let mut out = Vec::new();
    sub.dispatch(&mut out);
    assert_eq!(out, vec![Recipient::Lossy(2), Recipient::Callback(3)]);
    assert!(sub.remove_fast_callback(3));
    assert!(!sub.remove_fast_callback(3));
}

#[test]
fn patterns() {
    let mut set = SubscriptionSet::new();
    let patterns = ["a/b", "a/*", "*/b", "a/#", "#", "*", "a", "*/*/c"];
    for (i, p) in patterns.iter().enumerate() {
        set.get_or_create(p).unwrap().add(SubscriptionKind::Lossy(i as u64));
    }
    let reached = |set: &SubscriptionSet, topic: &str| {
        let mut v: Vec<u64> = set
            .dispatch(topic)
            .iter()
            .map(|r| match r {
                Recipient::Lossy(q) => *q,
                _ => panic!(),
            })
            .collect();
        v.sort();
        v
    };
    assert_eq!(reached(&set, "a/b"), vec![0, 1, 2, 3, 4]);
    assert_eq!(reached(&set, "a"), vec![4, 5, 6]);
    assert_eq!(reached(&set, "a/b/c"), vec![3, 4, 7]);
    assert_eq!(reached(&set, "x/y"), vec![4]);
    assert_eq!(reached(&set, "x/b"), vec![2, 4]);
    assert_eq!(reached(&set, "a/"), vec![1, 3, 4]);
    assert_eq!(reached(&set, ""), vec![4, 5]);
    assert_eq!(reached(&set, "*"), vec![4, 5]);

    assert!(set.get_or_create("a/#/b").is_err());
    assert!(set.get("#/b").is_err());
    assert!(set.get("zzz/#/b").is_err());
    assert!(set.clear("a/#/b").is_err());
    assert!(set.get("zzz").unwrap().is_none());
    assert!(set.get("a/b").unwrap().is_some());
    assert_eq!(set.clear("a/b"), Ok(false));
    set.get("a/b").unwrap().unwrap().set_subscribed();
    assert_eq!(set.clear("a/b"), Ok(true));
    assert_eq!(set.clear("a/b"), Ok(false));
    assert_eq!(reached(&set, "a/b"), vec![1, 2, 3, 4]);
    set.remove_closed("q/b", &vec![Recipient::Lossy(2), Recipient::Lossy(1)]);
    assert_eq!(reached(&set, "a/b"), vec![1, 3, 4]);
}

#[test]
fn keys_differ() {
    let ids = [
        IdType::publish(1),
        IdType::subscribe(1),
        IdType::pub_rec(1),
        IdType::pub_rel(1),
        IdType::unsubscribe(1),
        IdType::publish(2),
    ];
    for (i, a) in ids.iter().enumerate() {
        for (j, b) in ids.iter().enumerate() {
            assert_eq!(a.key() == b.key(), i == j);
        }
    }
    assert_eq!(IdType::publish(2).key(), 3 * 65536 + 2);
}

#[test]
fn oldest_packets_are_resent_first() {
    let (mut t, mut shared) = connected();
    for (i, time) in [0, SEC / 2].iter().enumerate() {
        let cmd = shared.make_publish_cmd("t", &[i as u8], QoS::AtLeastOnce, false);
        t.process_command(&mut shared, cmd.into(), *time);
        flush(&mut t, *time);
    }
    t.process_alarm(SEC);
    assert_eq!(flush(&mut t, SEC), vec![0x3a, 6, 0, 1, b't', 0, 1, 0]);
    t.process_alarm(2 * SEC);
    assert_eq!(
        flush(&mut t, 2 * SEC),
        vec![0x3a, 6, 0, 1, b't', 0, 2, 1, 0x3a, 6, 0, 1, b't', 0, 1, 0]
    );
}

#[test]
fn receiving_bytes() {
    let (mut t, mut shared) = connected();
    let mut rx = PacketReader::new();
    let bytes = PubRelPacket::new(3).make_packet();
    let r = t.receive(&mut rx, &mut shared, &bytes[..3], 0);
    assert!(matches!(r, Ok(Received::NeedMoreData)));
    match t.receive(&mut rx, &mut shared, &bytes[3..], 0) {
        Ok(Received::Packet(IncomingPacket::PubRel(rel), outcome)) => {
            assert_eq!(rel.packet_id, 3);
            assert!(!outcome.stop);
        }
        _ => panic!(),
    }
    assert_eq!(flush(&mut t, 0), vec![0x70, 2, 0, 3]);
    assert!(matches!(t.receive(&mut rx, &mut shared, &[], 0), Ok(Received::ConnectionClosed)));
    assert!(matches!(t.receive(&mut rx, &mut shared, &[0xf0, 0], 0), Ok(Received::NeedMoreData)));
    let r = t.receive(&mut rx, &mut shared, &[], 0);
    assert!(matches!(r, Err(PacketDecodeError::InvalidPacketId(15))));
    assert!(t.is_idle());
}

#[test]
fn an_endless_size_never_makes_a_packet() {
    let mut reader = PacketReader::new();
    assert!(matches!(reader.recv(&[0x30, 0x80, 0x80, 0x80, 0x80]), Ok(PacketReadState::NeedMoreData)));
    assert_eq!(reader.bytes_wanted(), 0);
    assert!(matches!(reader.recv(&[]), Ok(PacketReadState::NeedMoreData)));
}

#[test]
fn commands_that_fit() {
    let subscribe = |topic: String| {
        Command::from(SubscribeCommand { topic, qos: QoS::AtMostOnce, kind: SubscriptionKind::Void })
    };
    assert!(subscribe("t".repeat(65535)).fits());
    assert!(!subscribe("t".repeat(65536)).fits());
    assert!(Command::Disconnect.fits());
    let empty = PublishCommand { packet_id: 0, qos: QoS::AtMostOnce, packet: vec![].into() };
    assert!(!Command::from(empty).fits());
}

#[test]
fn disconnect_comes_last() {
    let (mut t, mut shared) = connected();
    t.process_packet(&mut shared, &message("a", QoS::AtLeastOnce, 5), 0);
    t.begin_disconnect();
    assert_eq!(flush(&mut t, 0), vec![0x40, 2, 0, 5, 0xe0, 0]);
}

#[test]
fn shutdown_releases_every_receiver() {
    let (mut t, mut shared) = connected();
    assert!(t.release_all().is_empty());
    subscribe(&mut t, &mut shared, "a/*/c", SubscriptionKind::Lossy(1));
    subscribe(&mut t, &mut shared, "a", SubscriptionKind::Unbounded(2));
    subscribe(&mut t, &mut shared, "#", SubscriptionKind::FastCallback(FastCallback { id: 3 }));
    subscribe(&mut t, &mut shared, "a", SubscriptionKind::Void);
    subscribe(&mut t, &mut shared, "*/#", SubscriptionKind::Lossy(4));
    let cmd = SubscribeCommand {
        topic: "pending".to_string(),
        qos: QoS::AtMostOnce,
        kind: SubscriptionKind::Lossy(5),
    };
    t.process_command(&mut shared, cmd.into(), 0);
    let held = t.release_all();
    assert_eq!(held.len(), 5);
    for r in [
        Recipient::Lossy(1),
        Recipient::Unbounded(2),
        Recipient::Callback(3),
        Recipient::Lossy(4),
        Recipient::Lossy(5),
    ] {
        assert!(held.contains(&r));
    }
}

#[test]
fn every_pattern_is_there_once_created() {
    let mut set = SubscriptionSet::new();
    assert!(set.get("#").unwrap().is_some());
    for p in ["#", "*", "a/#", "a/b"] {
        set.get_or_create(p).unwrap().add(SubscriptionKind::Lossy(1));
        assert!(set.get(p).unwrap().is_some());
        let mut out = Vec::new();
        set.get_or_create(p).unwrap().dispatch(&mut out);
        assert_eq!(out, vec![Recipient::Lossy(1)]);
    }
    assert_eq!(set.recipients(), vec![Recipient::Lossy(1); 4]);
}

#[test]
fn a_receiver_gets_a_message_once() {
    let mut set = SubscriptionSet::new();
    set.get_or_create("a/*").unwrap().add(SubscriptionKind::Lossy(1));
    set.get_or_create("a/b").unwrap().add(SubscriptionKind::Lossy(2));
    set.get_or_create("#").unwrap().add(SubscriptionKind::Lossy(3));
    let times = |topic: &str| set.dispatch(topic).iter().filter(|r| **r == Recipient::Lossy(1)).count();
    assert_eq!(times("a/b"), 1);
    assert_eq!(times("a/c"), 1);
    assert_eq!(times("a"), 0);
}

#[test]
fn a_partial_header_tells_nothing() {
    let mut reader = PacketReader::new();
    assert!(matches!(reader.recv(&[0x30]), Ok(PacketReadState::NeedMoreData)));
    assert_eq!(reader.bytes_wanted(), 4);
    assert!(matches!(reader.recv(&[0xcb]), Ok(PacketReadState::NeedMoreData)));
    assert_eq!(reader.bytes_wanted(), 3);
    assert!(matches!(reader.recv(&[1]), Ok(PacketReadState::NeedMoreData)));
    assert_eq!(reader.bytes_wanted(), 203);
}

#[test]
fn sizes_are_parsed_whatever_follows() {
    let parse = |bytes: &[u8]| PacketReader::parse_packet_size(&bytes.to_vec()).unwrap();
    assert_eq!(parse(&[]), None);
    assert_eq!(parse(&[0x30]), None);
    assert_eq!(parse(&[0x30, 0xff, 0xff, 0xff]), None);
    assert_eq!(parse(&[0x30, 0]), Some(PacketSizeInfo { size: 2, start_offset: 2 }));
    assert_eq!(
        parse(&[0x30, 0xcb, 1, 9, 9, 9, 9, 9]),
        Some(PacketSizeInfo { size: 206, start_offset: 3 })
    );
    assert_eq!(
        parse(&[0x30, 0xff, 0xff, 0xff, 0x7f, 1]),
        Some(PacketSizeInfo { size: 268_435_460, start_offset: 5 })
    );
}
