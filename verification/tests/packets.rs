use std::mem::size_of;

use lmc::errors::PacketDecodeError;
use lmc::options::LastWill;
use lmc::transceiver::byte_io::{BigEndian, ByteReader, ByteWriter};
use lmc::transceiver::packets::{
    ConnAckPacket, ConnectPacket, ControlField, DisconnectPacket, Encode, IncomingBrokerPacket,
    IncomingConnectPacket, IncomingPacket, IncomingPublishPacket, IncomingSubscribePacket,
    IncomingUnsubPacket, OutgoingPublishPacket, Packet, PacketContainer, PacketType, PingReqPacket,
    PingRespPacket, PubAckPacket, PubCompPacket, PubRecPacket, PubRelPacket, PublishFlags,
    SubAckPacket, SubscribePacket, SubscriptionResult, SubscriptionResultList, UnsubAckPacket,
    UnsubscribePacket, MAX_STATIC_SUBS,
};
use lmc::{QoS, ServerConnectError};

fn gen_publish_packet(dup: bool, qos: QoS, retain: bool) -> IncomingPublishPacket {
    let flags = PublishFlags::new(dup, qos, retain);
    let packet_id = 1234u16;

    let pkt = OutgoingPublishPacket {
        flags,
        packet_id,
        topic: "hello there",
        payload: b"general kenobi",
    }
    .make_arc_packet();

    let mut rd = ByteReader::new(&pkt[2..]);
    IncomingPublishPacket::decode(
        &mut rd,
        ControlField::from_type_and_flags(PacketType::Publish, flags.into_inner()),
    )
    .unwrap()
}

#[test]
fn test_incoming_pkt() {
    let qos0 = gen_publish_packet(true, QoS::AtMostOnce, false);
    let qos1 = gen_publish_packet(false, QoS::AtLeastOnce, true);

    assert_eq!(qos0.info().flags.is_dup(), true);
    assert_eq!(qos0.info().flags.qos(), QoS::AtMostOnce);
    assert_eq!(qos0.info().flags.was_retained(), false);
    assert_eq!(qos0.info().packet_id, 0);
    assert_eq!(qos0.topic(), "hello there");
    assert_eq!(qos0.payload(), b"general kenobi");

    assert_eq!(qos1.info().flags.is_dup(), false);
    assert_eq!(qos1.info().flags.qos(), QoS::AtLeastOnce);
    assert_eq!(qos1.info().flags.was_retained(), true);
    assert_eq!(qos1.info().packet_id, 1234u16);
    assert_eq!(qos1.topic(), "hello there");
    assert_eq!(qos1.payload(), b"general kenobi");
}

#[test]
fn print_sizes() {
    println!("sizeof(SubscriptionResult) = {}", size_of::<SubscriptionResult>()); //1 byte, surprisingly
    println!("sizeof(Vec<u8>) = {}", size_of::<Vec<u8>>());
    println!("MAX_STATIC_SUBS = {}", MAX_STATIC_SUBS);
    println!("sizeof(SubscriptionResultList) = {}", size_of::<SubscriptionResultList>());
}

#[test]
fn static_results_take_no_more_room_than_a_vec() {
    let room = size_of::<Vec<SubscriptionResult>>() - size_of::<usize>();
    assert_eq!(MAX_STATIC_SUBS, room / size_of::<SubscriptionResult>());
}

fn decode(bytes: &[u8]) -> Result<IncomingPacket, PacketDecodeError> {
    let mut rd = ByteReader::new(&bytes[2..]);
    IncomingPacket::from_bytes(&mut rd, ControlField(bytes[0]))
}

fn decode_broker(bytes: &[u8]) -> Result<IncomingBrokerPacket, PacketDecodeError> {
    let mut rd = ByteReader::new(&bytes[2..]);
    IncomingBrokerPacket::from_bytes(&mut rd, ControlField(bytes[0]))
}

#[test]
fn big_endian() {
    let x = BigEndian::from_native(0x1234);
    assert_eq!(x.0, [0x12, 0x34]);
    assert_eq!(x.to_native(), 0x1234);
    assert_eq!(BigEndian([0xff, 0x00]).to_native(), 0xff00);
}

#[test]
fn reader_reads_and_fails_at_the_end() {
    let mut rd = ByteReader::new(&[7, 0, 2, b'h', b'i', 0, 9, 1, 2]);
    assert_eq!(rd.read_u8().unwrap(), 7);
    assert_eq!(rd.read_utf8().unwrap(), "hi");
    assert_eq!(rd.remaining(), 4);
    assert!(matches!(rd.read_byte_array(), Err(PacketDecodeError::ReachedEndUnexpectedly)));
    assert_eq!(rd.remaining(), 2);
    assert_eq!(rd.read_remaining(), &[1, 2]);
    assert!(matches!(rd.read_u8(), Err(PacketDecodeError::ReachedEndUnexpectedly)));
    assert!(matches!(rd.read_u16(), Err(PacketDecodeError::ReachedEndUnexpectedly)));
    assert!(matches!(rd.read_trivial(1), Err(PacketDecodeError::ReachedEndUnexpectedly)));
    assert_eq!(rd.read_trivial(0).unwrap().len(), 0);
}

#[test]
fn reader_rejects_malformed_utf8() {
    let mut rd = ByteReader::new(&[0, 2, 0xc3, 0x28, 5]);
    let err = rd.read_utf8().unwrap_err();
    assert!(matches!(err, PacketDecodeError::Utf8Error(_)));
    assert_eq!(err.source().unwrap().valid_up_to(), 0);
    assert_eq!(rd.remaining(), 1);
}

#[test]
fn writer_appends() {
    let mut wr = ByteWriter::new(vec![9], 11);
    wr.write_u8(1).write_u16(BigEndian::from_native(515)).write_bytes(b"abc").write_bytes_no_len(b"xyz");
    assert_eq!(wr.finish_and_check(), vec![9, 1, 2, 3, 0, 3, b'a', b'b', b'c', b'x', b'y', b'z']);
}

#[test]
fn control_field() {
    let c = ControlField::from_type_and_flags(PacketType::PubRel, 2);
    assert_eq!(c.0, 0x62);
    assert_eq!(c.packet_type(), 6);
    assert_eq!(c.flags(), 2);
}

#[test]
fn packet_type_ids() {
    assert_eq!(PacketType::Connect.id(), 1);
    assert_eq!(PacketType::SubAck.id(), 9);
    assert_eq!(PacketType::Disconnect.id(), 14);
    assert_eq!(PubCompPacket::packet_type(), PacketType::PubComp);
}

#[test]
fn publish_flags_are_validated() {
    assert_eq!(PublishFlags::new(true, QoS::ExactlyOnce, true).into_inner(), 13);
    assert_eq!(PublishFlags::try_from(5).unwrap().qos(), QoS::ExactlyOnce);
    assert!(matches!(PublishFlags::try_from(6), Err(PacketDecodeError::MalformedPacket)));
    assert!(matches!(PublishFlags::try_from(16), Err(PacketDecodeError::MalformedPacket)));
    assert_eq!(PublishFlags::DUP | PublishFlags::QOS_MASK | PublishFlags::RETAIN, PublishFlags::ALL_BITS);
}

#[test]
fn publish_bytes() {
    let pkt = OutgoingPublishPacket {
        flags: PublishFlags::new(false, QoS::AtLeastOnce, false),
        topic: "a/b",
        packet_id: 10,
        payload: b"!",
    };
    assert!(pkt.is_encodable());
    assert_eq!(&*pkt.make_packet(), &[0x32, 8, 0, 3, b'a', b'/', b'b', 0, 10, b'!']);
}

#[test]
fn long_packet_has_a_long_size() {
    let payload = vec![7u8; 200];
    let pkt = OutgoingPublishPacket {
        flags: PublishFlags::new(false, QoS::AtMostOnce, false),
        topic: "t",
        packet_id: 0,
        payload: &payload,
    }
    .make_packet();
    assert_eq!(&pkt[..3], &[0x30, 203 - 128 + 128, 1]);
    assert_eq!(pkt.len(), 3 + 203);
}

#[test]
fn too_long_topics_do_not_fit() {
    let topic = "x".repeat(65536);
    let flags = PublishFlags::new(false, QoS::AtMostOnce, false);
    assert!(!OutgoingPublishPacket { flags, topic: &topic, packet_id: 0, payload: b"" }.is_encodable());
    assert!(OutgoingPublishPacket { flags, topic: &topic[1..], packet_id: 0, payload: b"" }.is_encodable());
    assert!(!SubscribePacket { packet_id: 1, topics: &[(&topic, QoS::AtMostOnce)] }.is_encodable());
    assert!(!UnsubscribePacket { packet_id: 1, topics: &[&topic] }.is_encodable());
}

#[test]
fn publish_errors() {
    assert!(matches!(decode(&[0x36, 0]), Err(PacketDecodeError::MalformedPacket)));
    assert!(matches!(decode(&[0x30, 1, 0]), Err(PacketDecodeError::ReachedEndUnexpectedly)));
    assert!(matches!(decode(&[0x32, 3, 0, 1, b'x', 0]), Err(PacketDecodeError::ReachedEndUnexpectedly)));
    assert!(matches!(decode(&[0x30, 3, 0, 1, 0xff]), Err(PacketDecodeError::Utf8Error(_))));
}

#[test]
fn messages_can_be_cloned_and_sent_on() {
    let msg = gen_publish_packet(false, QoS::ExactlyOnce, true);
    let copy = msg.clone();
    assert_eq!(copy.topic(), msg.topic());
    assert_eq!(copy.payload_as_utf8().unwrap(), "general kenobi");
    let out = msg.to_outgoing(QoS::AtLeastOnce, false, 77);
    assert_eq!(out.packet_id, 77);
    assert_eq!(out.flags.into_inner(), 2);
    assert_eq!(out.topic, "hello there");
    assert_eq!(out.payload, b"general kenobi");
}

#[test]
fn payload_that_is_not_text() {
    let pkt = OutgoingPublishPacket {
        flags: PublishFlags::new(false, QoS::AtMostOnce, false),
        topic: "t",
        packet_id: 0,
        payload: &[b'a', 0xff],
    }
    .make_packet();
    match decode(&pkt) {
        Ok(IncomingPacket::Publish(msg)) => {
            assert_eq!(msg.payload_as_utf8().unwrap_err().valid_up_to(), 1)
        }
        _ => panic!(),
    }
}

#[test]
fn simple_packets_round_trip() {
    assert_eq!(&*PubRelPacket::new(258).make_packet(), &[0x62, 2, 1, 2]);
    assert!(matches!(decode(&PubAckPacket::new(3).make_packet()), Ok(IncomingPacket::PubAck(p)) if p.packet_id == 3));
    assert!(matches!(decode(&PubRecPacket::new(4).make_packet()), Ok(IncomingPacket::PubRec(p)) if p.packet_id == 4));
    assert!(matches!(decode(&PubRelPacket::new(5).make_packet()), Ok(IncomingPacket::PubRel(p)) if p.packet_id == 5));
    assert!(matches!(decode(&PubCompPacket::new(6).make_packet()), Ok(IncomingPacket::PubComp(p)) if p.packet_id == 6));
    assert!(matches!(decode(&UnsubAckPacket::new(7).make_packet()), Ok(IncomingPacket::UnsubAck(p)) if p.packet_id == 7));
    assert!(matches!(decode(&[0x40, 1, 0]), Err(PacketDecodeError::ReachedEndUnexpectedly)));
}

#[test]
fn empty_packets_round_trip() {
    assert_eq!(&*PingReqPacket.make_arc_packet(), &[0xc0, 0]);
    assert_eq!(&*DisconnectPacket.make_arc_packet(), &[0xe0, 0]);
    let pong = decode(&PingRespPacket.make_packet()).unwrap();
    assert_eq!(pong.packet_type(), PacketType::PingResp);
    assert!(matches!(decode_broker(&PingReqPacket.make_packet()), Ok(IncomingBrokerPacket::PingReq(_))));
    let bye = decode_broker(&DisconnectPacket.make_packet()).unwrap();
    assert_eq!(bye.packet_type(), PacketType::Disconnect);
}

#[test]
fn packets_for_the_broker_are_invalid_for_the_client() {
    assert!(matches!(decode(&PingReqPacket.make_packet()), Err(PacketDecodeError::InvalidPacketId(12))));
    assert!(matches!(decode_broker(&PingRespPacket.make_packet()), Err(PacketDecodeError::InvalidPacketId(13))));
    assert!(matches!(decode(&[0xf0, 0]), Err(PacketDecodeError::InvalidPacketId(15))));
}

#[test]
fn connect_bytes() {
    let pkt = ConnectPacket {
        clean_session: true,
        keep_alive: 10,
        client_id: "me",
        will: Some(LastWill { topic: "w", message: b"x", retain: true, qos: QoS::AtLeastOnce }),
        username: Some("u"),
        password: Some(b"p"),
    };
    assert!(pkt.is_encodable());
    assert_eq!(
        &*pkt.make_packet(),
        &[
            0x10, 26, 0, 4, b'M', b'Q', b'T', b'T', 4, 0xee, 0, 10, 0, 2, b'm', b'e', 0, 1, b'w', 0, 1,
            b'x', 0, 1, b'u', 0, 1, b'p'
        ]
    );
}

#[test]
fn connect_round_trip() {
    let pkt = ConnectPacket {
        clean_session: false,
        keep_alive: 600,
        client_id: "client",
        will: Some(LastWill { topic: "status", message: b"gone", retain: false, qos: QoS::ExactlyOnce }),
        username: None,
        password: Some(&[1, 2, 3]),
    }
    .make_packet();
    match decode_broker(&pkt).unwrap() {
        IncomingBrokerPacket::Connect(IncomingConnectPacket {
            clean_session,
            keep_alive,
            client_id,
            will,
            username,
            password,
        }) => {
            assert_eq!(clean_session, false);
            assert_eq!(keep_alive, 600);
            assert_eq!(client_id, "client");
            let will = will.unwrap();
            assert_eq!(will.topic, "status");
            assert_eq!(will.message, b"gone");
            assert_eq!(will.retain, false);
            assert_eq!(will.qos, QoS::ExactlyOnce);
            assert_eq!(username, None);
            assert_eq!(password, Some(vec![1, 2, 3]));
        }
        _ => panic!(),
    }
    assert!(matches!(decode_broker(&pkt[..20]), Err(PacketDecodeError::ReachedEndUnexpectedly)));
}

#[test]
fn conn_ack_round_trip() {
    let errors = [
        ServerConnectError::UnacceptableProtocolVersion,
        ServerConnectError::IdentifierRejected,
        ServerConnectError::ServerUnavailable,
        ServerConnectError::BadUserNameOrPassword,
        ServerConnectError::NotAuthorized,
        ServerConnectError::Unknown(42),
    ];
    for (i, e) in errors.iter().enumerate() {
        let bytes = ConnAckPacket(Err(*e)).make_packet();
        assert_eq!(bytes[3], if i < 5 { i as u8 + 1 } else { 42 });
        assert!(matches!(decode(&bytes), Ok(IncomingPacket::ConnAck(ConnAckPacket(Err(x)))) if x == *e));
    }
    assert!(matches!(decode(&[0x20, 2, 1, 0]), Ok(IncomingPacket::ConnAck(ConnAckPacket(Ok(true))))));
    assert!(matches!(decode(&[0x20, 2, 2, 0]), Ok(IncomingPacket::ConnAck(ConnAckPacket(Ok(false))))));
    assert!(!ConnAckPacket(Err(ServerConnectError::ProtocolError)).is_encodable());
}

#[test]
fn subscribe_round_trip() {
    let topics = [("a/b", QoS::AtLeastOnce), ("c", QoS::ExactlyOnce)];
    let pkt = SubscribePacket { packet_id: 5, topics: &topics }.make_packet();
    assert_eq!(
        &*pkt,
        &[0x82, 12, 0, 5, 0, 3, b'a', b'/', b'b', 1, 0, 1, b'c', 2]
    );
    match decode_broker(&pkt).unwrap() {
        IncomingBrokerPacket::Subscribe(IncomingSubscribePacket { packet_id, topics }) => {
            assert_eq!(packet_id, 5);
            assert_eq!(
                topics,
                vec![("a/b".to_string(), QoS::AtLeastOnce), ("c".to_string(), QoS::ExactlyOnce)]
            );
        }
        _ => panic!(),
    }
}

#[test]
fn unsubscribe_round_trip() {
    let pkt = UnsubscribePacket { packet_id: 6, topics: &["a", "bc"] }.make_packet();
    assert_eq!(&*pkt, &[0xa2, 9, 0, 6, 0, 1, b'a', 0, 2, b'b', b'c']);
    match decode_broker(&pkt).unwrap() {
        IncomingBrokerPacket::Unsubscribe(IncomingUnsubPacket { packet_id, topics }) => {
            assert_eq!(packet_id, 6);
            assert_eq!(topics, vec!["a".to_string(), "bc".to_string()]);
        }
        _ => panic!(),
    }
    assert!(matches!(decode_broker(&[0xa2, 3, 0, 6, 0]), Err(PacketDecodeError::ReachedEndUnexpectedly)));
}

#[test]
fn sub_ack_round_trip() {
    let results = [Ok(QoS::AtMostOnce), Err(()), Ok(QoS::ExactlyOnce)];
    let pkt = SubAckPacket::new(9, &results).make_packet();
    assert_eq!(&*pkt, &[0x90, 5, 0, 9, 0, 128, 2]);
    match decode(&pkt).unwrap() {
        IncomingPacket::SubAck(ack) => {
            assert_eq!(ack.packet_id, 9);
            assert_eq!(ack.sub_results(), &results);
        }
        _ => panic!(),
    }
    assert!(matches!(decode(&[0x90, 3, 0, 9, 3]), Err(PacketDecodeError::MalformedPacket)));
}

#[test]
fn sub_ack_with_many_results() {
    let results = vec![Ok(QoS::AtLeastOnce); 40];
    let ack = SubAckPacket::new(1, &results);
    assert_eq!(ack.sub_results(), &results[..]);
    match decode(&ack.make_packet()).unwrap() {
        IncomingPacket::SubAck(ack) => assert_eq!(ack.sub_results(), &results[..]),
        _ => panic!(),
    }
}

#[test]
fn containers_hold_what_they_were_made_of() {
    let b: Box<[u8]> = PacketContainer::create(vec![1, 2, 3]);
    assert_eq!(b.access_bytes(), &[1, 2, 3]);
    let a: std::sync::Arc<[u8]> = PacketContainer::create(vec![4, 5]);
    assert_eq!(a.access_bytes(), &[4, 5]);
}

#[test]
fn decode_error_messages() {
    assert_eq!(PacketDecodeError::ReachedEndUnexpectedly.message(), "reached end of packet unexpectedly");
    assert_eq!(PacketDecodeError::MalformedPacket.message(), "packet contained invalid values");
    assert_eq!(PacketDecodeError::ReachedMaxSize.message(), "maximum packet size reached");
    assert_eq!(PacketDecodeError::InvalidPacketId(15).message(), "packet with id 0x0f is invalid");
    assert_eq!(PacketDecodeError::InvalidPacketId(0xa3).message(), "packet with id 0xa3 is invalid");
    assert!(PacketDecodeError::MalformedPacket.source().is_none());
}
