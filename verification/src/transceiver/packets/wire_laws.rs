//! Laws on what packets look like on the wire, byte by byte, and on what is read from any bytes.

use vstd::prelude::*;
use vstd::utf8::{decode_utf8, encode_utf8, valid_utf8};

use super::super::byte_io::{be_bytes, be_value, parse_array, parse_bytes, parse_u16, parse_u8};
use super::super::byte_io::{parse_utf8, with_len};
use super::{filters_bytes, packet_bytes, parse_packet, parse_publish, size_bytes};
use super::{broker_supports, filters_are_supported, parse_broker_packet, parse_filters};
use super::parse_topics;
use super::{flags_qos, publish_flags, sub_result_of, topics_bytes};
use super::{valid_publish_flags, BrokerPacketView, PublishView, WillView};
use super::{ConnAckPacket, ConnectPacket, ControlField, DisconnectPacket, Encode, Filter};
use super::{IncomingBrokerPacket, IncomingConnectPacket, IncomingLastWill, IncomingPacket};
use super::{IncomingPublishPacket, IncomingSubscribePacket, IncomingUnsubPacket, OutgoingPublishPacket, Packet};
use super::{PacketType, PacketView, PingReqPacket, PingRespPacket, PubAckPacket, PubCompPacket};
use super::{PubRecPacket, PubRelPacket, SubAckPacket, SubscribePacket};
use super::{UnsubAckPacket, UnsubscribePacket};
use crate::errors::{utf8_error, PacketDecodeError, ServerConnectError};
use crate::options::LastWill;
use crate::QoS;

verus! {

/// The numbers of the qualities of service, and that no other number stands for one.
pub proof fn law_qos_numbers(code: u8)
    ensures
        QoS::AtMostOnce.spec_code() == 0,
        QoS::AtLeastOnce.spec_code() == 1,
        QoS::ExactlyOnce.spec_code() == 2,
        code == 0 ==> QoS::spec_from_code(code) == Some(QoS::AtMostOnce),
        code == 1 ==> QoS::spec_from_code(code) == Some(QoS::AtLeastOnce),
        code == 2 ==> QoS::spec_from_code(code) == Some(QoS::ExactlyOnce),
        code > 2 ==> QoS::spec_from_code(code) is None,
{
}

/// The numbers of the packet types, and where they stand in a control field.
pub proof fn law_packet_type_numbers(control: u8)
    ensures
        PacketType::Connect.spec_id() == 1,
        PacketType::ConnAck.spec_id() == 2,
        PacketType::Publish.spec_id() == 3,
        PacketType::PubAck.spec_id() == 4,
        PacketType::PubRec.spec_id() == 5,
        PacketType::PubRel.spec_id() == 6,
        PacketType::PubComp.spec_id() == 7,
        PacketType::Subscribe.spec_id() == 8,
        PacketType::SubAck.spec_id() == 9,
        PacketType::Unsubscribe.spec_id() == 10,
        PacketType::UnsubAck.spec_id() == 11,
        PacketType::PingReq.spec_id() == 12,
        PacketType::PingResp.spec_id() == 13,
        PacketType::Disconnect.spec_id() == 14,
        control == ControlField(control).spec_packet_type() * 16 + ControlField(
            control,
        ).spec_flags(),
        ControlField(control).spec_flags() < 16,
{
}

/// Numbers and lengths are written with their more significant byte first.
pub proof fn law_big_endian(n: u16, bytes: Seq<u8>, hi: u8, lo: u8)
    requires
        bytes.len() <= 65535,
    ensures
        be_bytes(n).len() == 2,
        be_bytes(n)[0] * 256 + be_bytes(n)[1] == n,
        be_value(hi, lo) == hi * 256 + lo,
        with_len(bytes).len() == bytes.len() + 2,
        with_len(bytes)[0] * 256 + with_len(bytes)[1] == bytes.len(),
        with_len(bytes).skip(2) == bytes,
{
    assert(with_len(bytes).skip(2) =~= bytes);
}

/// A packet starts with its type and flags, then comes the length of the rest, then the rest.
pub proof fn law_packet_layout(t: PacketType, flags: u8, body: Seq<u8>)
    requires
        flags < 16,
    ensures
        ({
            let p = packet_bytes(t, flags, body);
            let k = size_bytes(body.len()).len() as int;
            &&& p.len() == 1 + k + body.len()
            &&& p[0] == t.spec_id() * 16 + flags
            &&& p.subrange(1, 1 + k) == size_bytes(body.len())
            &&& p.skip(1 + k) == body
            &&& body.len() < 128 ==> k == 1 && p[1] == body.len()
        }),
{
    let p = packet_bytes(t, flags, body);
    let k = size_bytes(body.len()).len() as int;
    assert(p.subrange(1, 1 + k) =~= size_bytes(body.len()));
    assert(p.skip(1 + k) =~= body);
}

/// What is read from any bytes: a byte, a number, so many bytes. If there are too few bytes,
/// nothing is read.
pub proof fn law_reading_numbers(s: Seq<u8>, n: nat)
    ensures
        s.len() >= 1 ==> parse_u8(s) == (Ok::<u8, PacketDecodeError>(s[0]), s.skip(1)),
        s.len() < 1 ==> parse_u8(s) == (
            Err::<u8, PacketDecodeError>(PacketDecodeError::ReachedEndUnexpectedly),
            s,
        ),
        s.len() >= 2 ==> parse_u16(s) == (
            Ok::<u16, PacketDecodeError>((s[0] * 256 + s[1]) as u16),
            s.skip(2),
        ),
        s.len() < 2 ==> parse_u16(s) == (
            Err::<u16, PacketDecodeError>(PacketDecodeError::ReachedEndUnexpectedly),
            s,
        ),
        s.len() >= n ==> parse_bytes(s, n) == (
            Ok::<Seq<u8>, PacketDecodeError>(s.take(n as int)),
            s.skip(n as int),
        ),
        s.len() < n ==> parse_bytes(s, n) == (
            Err::<Seq<u8>, PacketDecodeError>(PacketDecodeError::ReachedEndUnexpectedly),
            s,
        ),
{
}

/// What is read from any bytes: a byte array or a string with its length before it. If there
/// are too few bytes, or they are no text, that is the error.
pub proof fn law_reading_arrays(s: Seq<u8>)
    ensures
        ({
            let n = s[0] * 256 + s[1];
            let whole = s.len() >= 2 && s.len() >= 2 + n;
            &&& whole ==> parse_array(s) == (
                Ok::<Seq<u8>, PacketDecodeError>(s.subrange(2, 2 + n)),
                s.skip(2 + n),
            )
            &&& !whole ==> parse_array(s).0 == Err::<Seq<u8>, PacketDecodeError>(
                PacketDecodeError::ReachedEndUnexpectedly,
            )
            &&& whole && valid_utf8(s.subrange(2, 2 + n)) ==> parse_utf8(s) == (
                Ok::<Seq<char>, PacketDecodeError>(decode_utf8(s.subrange(2, 2 + n))),
                s.skip(2 + n),
            )
            &&& whole && !valid_utf8(s.subrange(2, 2 + n)) ==> parse_utf8(s).0 == Err::<
                Seq<char>,
                PacketDecodeError,
            >(PacketDecodeError::Utf8Error(utf8_error(s.subrange(2, 2 + n))))
            &&& !whole ==> parse_utf8(s).0 == Err::<Seq<char>, PacketDecodeError>(
                PacketDecodeError::ReachedEndUnexpectedly,
            )
        }),
{
    let n = s[0] * 256 + s[1];
    if s.len() >= 2 && s.len() >= 2 + n {
        assert(s.skip(2).take(n) =~= s.subrange(2, 2 + n));
        assert(s.skip(2).skip(n) =~= s.skip(2 + n));
    }
}

/// Publish flags hold the duplicate flag, the quality of service and the retain flag, and
/// nothing else; any two sets of flags that say different things are different.
pub proof fn law_publish_flag_bits(dup: bool, qos: QoS, retain: bool, flags: u8)
    ensures
        ({
            let f = publish_flags(dup, qos, retain);
            &&& f < 16
            &&& f / 8 == 1 <==> dup
            &&& f % 2 == 1 <==> retain
            &&& f / 2 % 4 == (match qos {
                QoS::AtMostOnce => 0int,
                QoS::AtLeastOnce => 1,
                QoS::ExactlyOnce => 2,
            })
        }),
        valid_publish_flags(flags) <==> flags < 16 && flags / 2 % 4 != 3,
        flags / 2 % 4 == 0 ==> flags_qos(flags) == QoS::AtMostOnce,
        flags / 2 % 4 == 1 ==> flags_qos(flags) == QoS::AtLeastOnce,
        flags / 2 % 4 == 2 ==> flags_qos(flags) == QoS::ExactlyOnce,
{
}

/// The bytes of a `PUBLISH` packet: its flags are in the first byte; then come the topic with
/// its length, the packet ID unless the quality of service is the lowest, and the payload. It
/// can be written if and only if the topic has at most 65535 bytes and the rest fits.
pub proof fn law_publish_bytes(p: OutgoingPublishPacket)
    requires
        p.flags@ < 16,
    ensures
        ({
            let name = encode_utf8(p.topic@);
            let id = if p.flags@ / 2 % 4 == 0 {
                Seq::empty()
            } else {
                seq![(p.packet_id / 256) as u8, (p.packet_id % 256) as u8]
            };
            let body = seq![(name.len() as u16 / 256) as u8, (name.len() as u16 % 256) as u8] + name
                + id + p.payload@;
            let bytes = packet_bytes(
                OutgoingPublishPacket::spec_packet_type(),
                p.control_flags(),
                p.body(),
            );
            &&& bytes[0] == 0x30 + p.flags@
            &&& p.flags@ / 2 % 4 != 3 ==> p.body() == body
            &&& p.flags@ / 2 % 4 != 3 ==> (p.encodable() <==> name.len() <= 65535 && body.len()
                <= 268_435_455)
        }),
{
    let name = encode_utf8(p.topic@);
    law_publish_flag_bits(false, QoS::AtMostOnce, false, p.flags@);
    if p.flags@ / 2 % 4 != 3 {
        let id = if p.flags@ / 2 % 4 == 0 {
            Seq::empty()
        } else {
            seq![(p.packet_id / 256) as u8, (p.packet_id % 256) as u8]
        };
        let body = seq![(name.len() as u16 / 256) as u8, (name.len() as u16 % 256) as u8] + name
            + id + p.payload@;
        assert(p.body() =~= body);
    }
}

/// What is read from the bytes of a `PUBLISH` packet, whatever they are: the flags decide
/// whether there is a packet ID, and what is left is the payload.
pub proof fn law_reading_publish(flags: u8, s: Seq<u8>)
    ensures
        ({
            let r = parse_publish(flags, s).0;
            let (topic, rest) = parse_utf8(s);
            &&& flags >= 16 || flags / 2 % 4 == 3 ==> r == Err::<PublishView, PacketDecodeError>(
                PacketDecodeError::MalformedPacket,
            )
            &&& flags < 16 && flags / 2 % 4 != 3 ==> match topic {
                Err(e) => r == Err::<PublishView, PacketDecodeError>(e),
                Ok(topic) => if flags / 2 % 4 == 0 {
                    r == Ok::<PublishView, PacketDecodeError>(
                        PublishView { flags, topic, packet_id: 0, payload: rest },
                    )
                } else if rest.len() < 2 {
                    r == Err::<PublishView, PacketDecodeError>(
                        PacketDecodeError::ReachedEndUnexpectedly,
                    )
                } else {
                    r == Ok::<PublishView, PacketDecodeError>(
                        PublishView {
                            flags,
                            topic,
                            packet_id: (rest[0] * 256 + rest[1]) as u16,
                            payload: rest.skip(2),
                        },
                    )
                },
            }
        }),
{
}

/// What is read from the bytes behind any control field by a client.
pub proof fn law_reading_packets(control: u8, s: Seq<u8>)
    ensures
        ({
            let id = control / 16;
            let r = parse_packet(ControlField(control), s).0;
            let short = Err::<PacketView, PacketDecodeError>(
                PacketDecodeError::ReachedEndUnexpectedly,
            );
            let n = (s[0] * 256 + s[1]) as u16;
            &&& (id == 2 || id == 4 || id == 5 || id == 6 || id == 7 || id == 9 || id == 11)
                && s.len() < 2 ==> r == short
            &&& s.len() >= 2 ==> ({
                &&& id == 2 && s[1] == 0 ==> r == Ok::<PacketView, PacketDecodeError>(
                    PacketView::ConnAck(Ok(s[0] % 2 == 1)),
                )
                &&& id == 2 && s[1] == 1 ==> r == Ok::<PacketView, PacketDecodeError>(
                    PacketView::ConnAck(Err(ServerConnectError::UnacceptableProtocolVersion)),
                )
                &&& id == 2 && s[1] == 2 ==> r == Ok::<PacketView, PacketDecodeError>(
                    PacketView::ConnAck(Err(ServerConnectError::IdentifierRejected)),
                )
                &&& id == 2 && s[1] == 3 ==> r == Ok::<PacketView, PacketDecodeError>(
                    PacketView::ConnAck(Err(ServerConnectError::ServerUnavailable)),
                )
                &&& id == 2 && s[1] == 4 ==> r == Ok::<PacketView, PacketDecodeError>(
                    PacketView::ConnAck(Err(ServerConnectError::BadUserNameOrPassword)),
                )
                &&& id == 2 && s[1] == 5 ==> r == Ok::<PacketView, PacketDecodeError>(
                    PacketView::ConnAck(Err(ServerConnectError::NotAuthorized)),
                )
                &&& id == 2 && s[1] > 5 ==> r == Ok::<PacketView, PacketDecodeError>(
                    PacketView::ConnAck(Err(ServerConnectError::Unknown(s[1]))),
                )
                &&& id == 4 ==> r == Ok::<PacketView, PacketDecodeError>(PacketView::PubAck(n))
                &&& id == 5 ==> r == Ok::<PacketView, PacketDecodeError>(PacketView::PubRec(n))
                &&& id == 6 ==> r == Ok::<PacketView, PacketDecodeError>(PacketView::PubRel(n))
                &&& id == 7 ==> r == Ok::<PacketView, PacketDecodeError>(PacketView::PubComp(n))
                &&& id == 11 ==> r == Ok::<PacketView, PacketDecodeError>(PacketView::UnsubAck(n))
            })
            &&& id == 3 ==> match parse_publish((control % 16) as u8, s).0 {
                Ok(msg) => r == Ok::<PacketView, PacketDecodeError>(PacketView::Publish(msg)),
                Err(e) => r == Err::<PacketView, PacketDecodeError>(e),
            }
            &&& id == 13 ==> r == Ok::<PacketView, PacketDecodeError>(PacketView::PingResp)
            &&& id == 0 || id == 1 || id == 8 || id == 10 || id == 12 || id >= 14 ==> r == Err::<
                PacketView,
                PacketDecodeError,
            >(PacketDecodeError::InvalidPacketId(id as u8))
        }),
{
}

/// What is read from the bytes of a `SUBACK` packet: its packet ID, and for every further byte
/// the quality of service that was granted or, for 128, a refusal. Any other byte is an error.
pub proof fn law_reading_sub_ack(control: u8, s: Seq<u8>)
    requires
        control / 16 == 9,
        s.len() >= 2,
    ensures
        ({
            let r = parse_packet(ControlField(control), s).0;
            let sound = forall|i: int|
                2 <= i < s.len() ==> #[trigger] s[i] == 0 || s[i] == 1 || s[i] == 2 || s[i] == 128;
            &&& !sound ==> r == Err::<PacketView, PacketDecodeError>(
                PacketDecodeError::MalformedPacket,
            )
            &&& sound ==> (r matches Ok(PacketView::SubAck((id, results))) && id == s[0] * 256
                + s[1] && results.len() == s.len() - 2 && forall|i: int|
                2 <= i < s.len() ==> results[i - 2] == (if #[trigger] s[i] == 0 {
                    Ok::<QoS, ()>(QoS::AtMostOnce)
                } else if s[i] == 1 {
                    Ok(QoS::AtLeastOnce)
                } else if s[i] == 2 {
                    Ok(QoS::ExactlyOnce)
                } else {
                    Err(())
                }))
        }),
{
    let rest = s.skip(2);
    let sound = forall|i: int|
        2 <= i < s.len() ==> #[trigger] s[i] == 0 || s[i] == 1 || s[i] == 2 || s[i] == 128;
    if sound {
        assert forall|i: int| 0 <= i < rest.len() implies sub_result_of(#[trigger] rest[i]) is Some by {
            assert(rest[i] == s[i + 2]);
        }
        assert forall|i: int| 2 <= i < s.len() implies rest[i - 2] == #[trigger] s[i] by {}
    } else {
        let i = choose|i: int|
            2 <= i < s.len() && !(#[trigger] s[i] == 0 || s[i] == 1 || s[i] == 2 || s[i] == 128);
        assert(sub_result_of(rest[i - 2]) is None);
    }
}

/// The bytes of packets that hold nothing but a packet ID, or nothing at all.
pub proof fn law_ack_bytes(id: u16)
    ensures
        ({
            let hi = (id / 256) as u8;
            let lo = (id % 256) as u8;
            let ack = PubAckPacket { packet_id: id };
            let rec = PubRecPacket { packet_id: id };
            let rel = PubRelPacket { packet_id: id };
            let comp = PubCompPacket { packet_id: id };
            let unsub = UnsubAckPacket { packet_id: id };
            &&& packet_bytes(PubAckPacket::spec_packet_type(), ack.control_flags(), ack.body())
                == seq![0x40u8, 2u8, hi, lo]
            &&& packet_bytes(PubRecPacket::spec_packet_type(), rec.control_flags(), rec.body())
                == seq![0x50u8, 2u8, hi, lo]
            &&& packet_bytes(PubRelPacket::spec_packet_type(), rel.control_flags(), rel.body())
                == seq![0x62u8, 2u8, hi, lo]
            &&& packet_bytes(PubCompPacket::spec_packet_type(), comp.control_flags(), comp.body())
                == seq![0x70u8, 2u8, hi, lo]
            &&& packet_bytes(
                UnsubAckPacket::spec_packet_type(),
                unsub.control_flags(),
                unsub.body(),
            ) == seq![0xb0u8, 2u8, hi, lo]
            &&& packet_bytes(
                PingReqPacket::spec_packet_type(),
                PingReqPacket.control_flags(),
                PingReqPacket.body(),
            ) == seq![0xc0u8, 0u8]
            &&& packet_bytes(
                PingRespPacket::spec_packet_type(),
                PingRespPacket.control_flags(),
                PingRespPacket.body(),
            ) == seq![0xd0u8, 0u8]
            &&& packet_bytes(
                DisconnectPacket::spec_packet_type(),
                DisconnectPacket.control_flags(),
                DisconnectPacket.body(),
            ) == seq![0xe0u8, 0u8]
            &&& ack.encodable() && rec.encodable() && rel.encodable() && comp.encodable()
            &&& unsub.encodable() && PingReqPacket.encodable() && PingRespPacket.encodable()
            &&& DisconnectPacket.encodable()
        }),
{
    let hi = (id / 256) as u8;
    let lo = (id % 256) as u8;
    assert(size_bytes(2) =~= seq![2u8]);
    assert(size_bytes(0) =~= seq![0u8]);
    let b = be_bytes(id);
    assert(packet_bytes(PacketType::PubAck, 0, b) =~= seq![0x40u8, 2u8, hi, lo]);
    assert(packet_bytes(PacketType::PubRec, 0, b) =~= seq![0x50u8, 2u8, hi, lo]);
    assert(packet_bytes(PacketType::PubRel, 2, b) =~= seq![0x62u8, 2u8, hi, lo]);
    assert(packet_bytes(PacketType::PubComp, 0, b) =~= seq![0x70u8, 2u8, hi, lo]);
    assert(packet_bytes(PacketType::UnsubAck, 0, b) =~= seq![0xb0u8, 2u8, hi, lo]);
    assert(packet_bytes(PacketType::PingReq, 0, Seq::empty()) =~= seq![0xc0u8, 0u8]);
    assert(packet_bytes(PacketType::PingResp, 0, Seq::empty()) =~= seq![0xd0u8, 0u8]);
    assert(packet_bytes(PacketType::Disconnect, 0, Seq::empty()) =~= seq![0xe0u8, 0u8]);
}

/// The bytes of a `CONNECT` packet. The protocol's name and level come first. Each connect flag
/// is set if and only if what it stands for is there. Then come the keep alive interval, the
/// client ID, the last will's topic and message, the user name and the password, each with its
/// length, as far as they are there. It can be written if and only if each of these has at most
/// 65535 bytes.
pub proof fn law_connect_bytes(p: ConnectPacket)
    ensures
        ({
            let b = p.body();
            let field = |x: Seq<u8>|
                seq![(x.len() as u16 / 256) as u8, (x.len() as u16 % 256) as u8] + x;
            let will = match p.will {
                Some(w) => field(encode_utf8(w.topic@)) + field(w.message@),
                None => Seq::empty(),
            };
            let username = match p.username {
                Some(x) => field(encode_utf8(x@)),
                None => Seq::empty(),
            };
            let password = match p.password {
                Some(x) => field(x@),
                None => Seq::empty(),
            };
            &&& ConnectPacket::spec_packet_type().spec_id() * 16 + p.control_flags() == 0x10
            &&& b.take(7) == seq![0u8, 4u8, 77u8, 81u8, 84u8, 84u8, 4u8]
            &&& b[7] / 128 == 1 <==> p.username is Some
            &&& b[7] / 64 % 2 == 1 <==> p.password is Some
            &&& b[7] / 32 % 2 == 1 <==> (p.will matches Some(w) && w.retain)
            &&& b[7] / 8 % 4 == (match p.will {
                Some(w) => match w.qos {
                    QoS::AtMostOnce => 0int,
                    QoS::AtLeastOnce => 1,
                    QoS::ExactlyOnce => 2,
                },
                None => 0,
            })
            &&& b[7] / 4 % 2 == 1 <==> p.will is Some
            &&& b[7] / 2 % 2 == 1 <==> p.clean_session
            &&& b[7] % 2 == 0
            &&& b[8] * 256 + b[9] == p.keep_alive
            &&& b.skip(10) == field(encode_utf8(p.client_id@)) + will + username + password
            &&& p.encodable() <==> {
                &&& encode_utf8(p.client_id@).len() <= 65535
                &&& p.will matches Some(w) ==> encode_utf8(w.topic@).len() <= 65535
                    && w.message@.len() <= 65535
                &&& p.username matches Some(x) ==> encode_utf8(x@).len() <= 65535
                &&& p.password matches Some(x) ==> x@.len() <= 65535
            }
        }),
{
    let v = p@;
    let b = p.body();
    let field = |x: Seq<u8>| seq![(x.len() as u16 / 256) as u8, (x.len() as u16 % 256) as u8] + x;
    super::connect::lemma_connect_flags(v);
    let after = with_len(encode_utf8(v.client_id)) + v.will_bytes() + v.username_bytes()
        + v.password_bytes();
    assert(b =~= v.header() + after);
    assert(b.take(7) =~= seq![0u8, 4u8, 77u8, 81u8, 84u8, 84u8, 4u8]);
    assert(b.skip(10) =~= after);
    assert(b[7] == v.flags());
    assert forall|x: Seq<u8>| #[trigger] with_len(x) =~= field(x) by {}
    if let Some(w) = p.will {
        assert(with_len(encode_utf8(w.topic@)) =~= field(encode_utf8(w.topic@)));
        assert(with_len(w.message@) =~= field(w.message@));
    }
    if let Some(x) = p.username {
        assert(with_len(encode_utf8(x@)) =~= field(encode_utf8(x@)));
    }
    if let Some(x) = p.password {
        assert(with_len(x@) =~= field(x@));
    }
    assert(with_len(encode_utf8(p.client_id@)) =~= field(encode_utf8(p.client_id@)));
}

/// The bytes of a `CONNACK` packet.
pub proof fn law_conn_ack_packet_bytes(p: ConnAckPacket)
    ensures
        ({
            let b = p.body();
            &&& ConnAckPacket::spec_packet_type().spec_id() * 16 + p.control_flags() == 0x20
            &&& p.encodable() <==> !(p.0 matches Err(ServerConnectError::ProtocolError))
            &&& match p.0 {
                Ok(true) => b == seq![1u8, 0u8],
                Ok(false) => b == seq![0u8, 0u8],
                Err(ServerConnectError::UnacceptableProtocolVersion) => b == seq![0u8, 1u8],
                Err(ServerConnectError::IdentifierRejected) => b == seq![0u8, 2u8],
                Err(ServerConnectError::ServerUnavailable) => b == seq![0u8, 3u8],
                Err(ServerConnectError::BadUserNameOrPassword) => b == seq![0u8, 4u8],
                Err(ServerConnectError::NotAuthorized) => b == seq![0u8, 5u8],
                Err(ServerConnectError::Unknown(x)) => b == seq![0u8, x],
                Err(ServerConnectError::ProtocolError) => true,
            }
        }),
{
}

/// The bytes of a `SUBSCRIBE` packet: the packet ID, then each topic with its length, followed
/// by the quality of service that is asked for, in the order given.
pub proof fn law_subscribe_bytes(p: SubscribePacket, filters: Seq<Filter>, first: Filter)
    ensures
        SubscribePacket::spec_packet_type().spec_id() * 16 + p.control_flags() == 0x82,
        ({
            let asked = Seq::new(p.topics@.len(), |i: int| (p.topics@[i].0@, p.topics@[i].1));
            p.body() == seq![(p.packet_id / 256) as u8, (p.packet_id % 256) as u8] + filters_bytes(
                asked,
            )
        }),
        filters_bytes(Seq::empty()) == Seq::<u8>::empty(),
        ({
            let name = encode_utf8(first.0);
            let code = match first.1 {
                QoS::AtMostOnce => 0u8,
                QoS::AtLeastOnce => 1u8,
                QoS::ExactlyOnce => 2u8,
            };
            filters_bytes(seq![first] + filters) == seq![
                (name.len() as u16 / 256) as u8,
                (name.len() as u16 % 256) as u8,
            ] + name + seq![code] + filters_bytes(filters)
        }),
        p.encodable() <==> p.body().len() <= 268_435_455 && forall|i: int|
            0 <= i < p.topics@.len() ==> encode_utf8(#[trigger] p.topics@[i].0@).len() <= 65535,
{
    assert(p.body() =~= seq![(p.packet_id / 256) as u8, (p.packet_id % 256) as u8]
        + filters_bytes(p.filters()));
    let all = seq![first] + filters;
    assert(all.skip(1) =~= filters);
    let name = encode_utf8(first.0);
    assert(with_len(name) =~= seq![
        (name.len() as u16 / 256) as u8,
        (name.len() as u16 % 256) as u8,
    ] + name);
}

/// The bytes of an `UNSUBSCRIBE` packet: the packet ID, then each topic with its length, in the
/// order given.
pub proof fn law_unsubscribe_bytes(p: UnsubscribePacket, topics: Seq<Seq<char>>, first: Seq<char>)
    ensures
        UnsubscribePacket::spec_packet_type().spec_id() * 16 + p.control_flags() == 0xa2,
        p.body() == seq![(p.packet_id / 256) as u8, (p.packet_id % 256) as u8] + topics_bytes(
            Seq::new(p.topics@.len(), |i: int| p.topics@[i]@),
        ),
        topics_bytes(Seq::empty()) == Seq::<u8>::empty(),
        ({
            let name = encode_utf8(first);
            topics_bytes(seq![first] + topics) == seq![
                (name.len() as u16 / 256) as u8,
                (name.len() as u16 % 256) as u8,
            ] + name + topics_bytes(topics)
        }),
        p.encodable() <==> p.body().len() <= 268_435_455 && forall|i: int|
            0 <= i < p.topics@.len() ==> encode_utf8(#[trigger] p.topics@[i]@).len() <= 65535,
{
    assert(p.body() =~= seq![(p.packet_id / 256) as u8, (p.packet_id % 256) as u8]
        + topics_bytes(p.names()));
    let all = seq![first] + topics;
    assert(all.skip(1) =~= topics);
    let name = encode_utf8(first);
    assert(with_len(name) =~= seq![
        (name.len() as u16 / 256) as u8,
        (name.len() as u16 % 256) as u8,
    ] + name);
}

/// The bytes of a `SUBACK` packet: the packet ID, then a byte for each result.
pub proof fn law_sub_ack_bytes(p: SubAckPacket, i: int)
    requires
        0 <= i < p.results().len(),
    ensures
        SubAckPacket::spec_packet_type().spec_id() * 16 + p.control_flags() == 0x90,
        p.body().len() == 2 + p.results().len(),
        p.body()[0] * 256 + p.body()[1] == p.packet_id,
        p.body()[2 + i] == (match p.results()[i] {
            Ok(QoS::AtMostOnce) => 0u8,
            Ok(QoS::AtLeastOnce) => 1u8,
            Ok(QoS::ExactlyOnce) => 2u8,
            Err(_) => 128u8,
        }),
        p.encodable() <==> p.results().len() <= 268_435_453,
{
}

/// What the views of packets say is what their fields hold.
pub proof fn law_packets_say_what_they_hold(
    connect: ConnectPacket,
    incoming: IncomingConnectPacket,
    will: LastWill,
    incoming_will: IncomingLastWill,
    publish: OutgoingPublishPacket,
)
    ensures
        will@ == (WillView {
            topic: will.topic@,
            message: will.message@,
            retain: will.retain,
            qos: will.qos,
        }),
        incoming_will@ == (WillView {
            topic: incoming_will.topic@,
            message: incoming_will.message@,
            retain: incoming_will.retain,
            qos: incoming_will.qos,
        }),
        connect@.clean_session == connect.clean_session,
        connect@.keep_alive == connect.keep_alive,
        connect@.client_id == connect.client_id@,
        connect@.will is Some <==> connect.will is Some,
        connect.will matches Some(w) ==> connect@.will == Some(w@),
        connect@.username is Some <==> connect.username is Some,
        connect.username matches Some(x) ==> connect@.username == Some(x@),
        connect@.password is Some <==> connect.password is Some,
        connect.password matches Some(x) ==> connect@.password == Some(x@),
        incoming@.clean_session == incoming.clean_session,
        incoming@.keep_alive == incoming.keep_alive,
        incoming@.client_id == incoming.client_id@,
        incoming@.will is Some <==> incoming.will is Some,
        incoming.will matches Some(w) ==> incoming@.will == Some(w@),
        incoming@.username is Some <==> incoming.username is Some,
        incoming.username matches Some(x) ==> incoming@.username == Some(x@),
        incoming@.password is Some <==> incoming.password is Some,
        incoming.password matches Some(x) ==> incoming@.password == Some(x@),
        publish@ == (PublishView {
            flags: publish.flags@,
            topic: publish.topic@,
            packet_id: publish.packet_id,
            payload: publish.payload@,
        }),
{
}

/// What is said of a packet that was received is what it is and what it holds.
pub proof fn law_incoming_packets_say_what_they_hold(p: IncomingPacket, b: IncomingBrokerPacket)
    ensures
        match p {
            IncomingPacket::ConnAck(x) => p@ == PacketView::ConnAck(x.0),
            IncomingPacket::SubAck(x) => p@ == PacketView::SubAck((x.packet_id, x.sub_results@)),
            IncomingPacket::Publish(x) => p@ == PacketView::Publish(x@),
            IncomingPacket::PubAck(x) => p@ == PacketView::PubAck(x.packet_id),
            IncomingPacket::PubRec(x) => p@ == PacketView::PubRec(x.packet_id),
            IncomingPacket::PubRel(x) => p@ == PacketView::PubRel(x.packet_id),
            IncomingPacket::PubComp(x) => p@ == PacketView::PubComp(x.packet_id),
            IncomingPacket::UnsubAck(x) => p@ == PacketView::UnsubAck(x.packet_id),
            IncomingPacket::PingResp(_) => p@ == PacketView::PingResp,
        },
        match b {
            IncomingBrokerPacket::Connect(x) => b@ == BrokerPacketView::Connect(x@),
            IncomingBrokerPacket::Subscribe(x) => b@ matches BrokerPacketView::Subscribe(
                (id, filters),
            ) && id == x.packet_id && filters.len() == x.topics@.len() && forall|i: int|
                0 <= i < filters.len() ==> #[trigger] filters[i] == (
                    x.topics@[i].0@,
                    x.topics@[i].1,
                ),
            IncomingBrokerPacket::Publish(x) => b@ == BrokerPacketView::Publish(x@),
            IncomingBrokerPacket::PubAck(x) => b@ == BrokerPacketView::PubAck(x.packet_id),
            IncomingBrokerPacket::PubRec(x) => b@ == BrokerPacketView::PubRec(x.packet_id),
            IncomingBrokerPacket::PubRel(x) => b@ == BrokerPacketView::PubRel(x.packet_id),
            IncomingBrokerPacket::PubComp(x) => b@ == BrokerPacketView::PubComp(x.packet_id),
            IncomingBrokerPacket::Unsubscribe(x) => b@ matches BrokerPacketView::Unsubscribe(
                (id, topics),
            ) && id == x.packet_id && topics.len() == x.topics@.len() && forall|i: int|
                0 <= i < topics.len() ==> #[trigger] topics[i] == x.topics@[i]@,
            IncomingBrokerPacket::PingReq(_) => b@ == BrokerPacketView::PingReq,
            IncomingBrokerPacket::Disconnect(_) => b@ == BrokerPacketView::Disconnect,
        },
{
}

/// The length of the rest of a packet takes one to four bytes, seven bits in each, the lowest
/// first. The top bit of each byte says whether another one follows.
pub proof fn law_length_bytes(n: nat)
    ensures
        n < 128 ==> size_bytes(n) == seq![n as u8],
        128 <= n < 16_384 ==> size_bytes(n) == seq![(n % 128 + 128) as u8, (n / 128) as u8],
        16_384 <= n < 2_097_152 ==> size_bytes(n) == seq![
            (n % 128 + 128) as u8,
            (n / 128 % 128 + 128) as u8,
            (n / 16_384) as u8,
        ],
        2_097_152 <= n < 268_435_456 ==> size_bytes(n) == seq![
            (n % 128 + 128) as u8,
            (n / 128 % 128 + 128) as u8,
            (n / 16_384 % 128 + 128) as u8,
            (n / 2_097_152) as u8,
        ],
{
    reveal_with_fuel(size_bytes, 4);
    assert(n / 128 / 128 == n / 16_384);
    assert(n / 16_384 / 128 == n / 2_097_152);
    if n < 128 {
    } else if n < 16_384 {
        assert(size_bytes(n) =~= seq![(n % 128 + 128) as u8, (n / 128) as u8]);
    } else if n < 2_097_152 {
        assert(size_bytes(n) =~= seq![
            (n % 128 + 128) as u8,
            (n / 128 % 128 + 128) as u8,
            (n / 16_384) as u8,
        ]);
    } else if n < 268_435_456 {
        assert(size_bytes(n) =~= seq![
            (n % 128 + 128) as u8,
            (n / 128 % 128 + 128) as u8,
            (n / 16_384 % 128 + 128) as u8,
            (n / 2_097_152) as u8,
        ]);
    }
}

/// What is read from the bytes behind any control field by a broker.
pub proof fn law_broker_reading_packets(control: u8, s: Seq<u8>)
    ensures
        ({
            let id = control / 16;
            let r = parse_broker_packet(ControlField(control), s).0;
            let short = Err::<BrokerPacketView, PacketDecodeError>(
                PacketDecodeError::ReachedEndUnexpectedly,
            );
            let n = (s[0] * 256 + s[1]) as u16;
            &&& (id == 4 || id == 5 || id == 6 || id == 7 || id == 8 || id == 10) && s.len() < 2
                ==> r == short
            &&& s.len() >= 2 ==> ({
                &&& id == 4 ==> r == Ok::<BrokerPacketView, PacketDecodeError>(
                    BrokerPacketView::PubAck(n),
                )
                &&& id == 5 ==> r == Ok::<BrokerPacketView, PacketDecodeError>(
                    BrokerPacketView::PubRec(n),
                )
                &&& id == 6 ==> r == Ok::<BrokerPacketView, PacketDecodeError>(
                    BrokerPacketView::PubRel(n),
                )
                &&& id == 7 ==> r == Ok::<BrokerPacketView, PacketDecodeError>(
                    BrokerPacketView::PubComp(n),
                )
                &&& id == 8 ==> r == (match parse_filters(s.skip(2), Seq::empty()).0 {
                    Ok(filters) => Ok::<BrokerPacketView, PacketDecodeError>(
                        BrokerPacketView::Subscribe((n, filters)),
                    ),
                    Err(e) => Err(e),
                })
                &&& id == 10 ==> r == (match parse_topics(s.skip(2), Seq::empty()).0 {
                    Ok(topics) => Ok::<BrokerPacketView, PacketDecodeError>(
                        BrokerPacketView::Unsubscribe((n, topics)),
                    ),
                    Err(e) => Err(e),
                })
            })
            &&& id == 3 ==> r == (match parse_publish((control % 16) as u8, s).0 {
                Ok(msg) => Ok::<BrokerPacketView, PacketDecodeError>(BrokerPacketView::Publish(msg)),
                Err(e) => Err(e),
            })
            &&& id == 12 ==> r == Ok::<BrokerPacketView, PacketDecodeError>(
                BrokerPacketView::PingReq,
            )
            &&& id == 14 ==> r == Ok::<BrokerPacketView, PacketDecodeError>(
                BrokerPacketView::Disconnect,
            )
            &&& id == 0 || id == 2 || id == 9 || id == 11 || id == 13 || id == 15 ==> r == Err::<
                BrokerPacketView,
                PacketDecodeError,
            >(PacketDecodeError::InvalidPacketId(id as u8))
        }),
{
}

/// Topics are read one after the other until nothing is left: each with its length, followed by
/// a quality of service where they are to be subscribed to. The first error is the result.
pub proof fn law_reading_topics(s: Seq<u8>, found: Seq<Filter>, names: Seq<Seq<char>>)
    ensures
        s.len() == 0 ==> parse_filters(s, found).0 == Ok::<Seq<Filter>, PacketDecodeError>(found),
        s.len() == 0 ==> parse_topics(s, names).0 == Ok::<Seq<Seq<char>>, PacketDecodeError>(names),
        s.len() > 0 ==> match parse_utf8(s).0 {
            Err(e) => parse_filters(s, found).0 == Err::<Seq<Filter>, PacketDecodeError>(e)
                && parse_topics(s, names).0 == Err::<Seq<Seq<char>>, PacketDecodeError>(e),
            Ok(topic) => {
                let rest = parse_utf8(s).1;
                &&& parse_topics(s, names).0 == parse_topics(rest, names.push(topic)).0
                &&& rest.len() == 0 ==> parse_filters(s, found).0 == Err::<
                    Seq<Filter>,
                    PacketDecodeError,
                >(PacketDecodeError::ReachedEndUnexpectedly)
                &&& rest.len() > 0 && rest[0] == 0 ==> parse_filters(s, found).0 == parse_filters(
                    rest.skip(1),
                    found.push((topic, QoS::AtMostOnce)),
                ).0
                &&& rest.len() > 0 && rest[0] == 1 ==> parse_filters(s, found).0 == parse_filters(
                    rest.skip(1),
                    found.push((topic, QoS::AtLeastOnce)),
                ).0
                &&& rest.len() > 0 && rest[0] == 2 ==> parse_filters(s, found).0 == parse_filters(
                    rest.skip(1),
                    found.push((topic, QoS::ExactlyOnce)),
                ).0
            },
        },
{
}

/// What is read from the bytes of a `CONNECT` packet, whatever they are: the connect flags in
/// the eighth byte decide what is there, and the first part that cannot be read is the error.
pub proof fn law_reading_connect(control: u8, s: Seq<u8>)
    requires
        control / 16 == 1,
    ensures
        ({
            let r = parse_broker_packet(ControlField(control), s).0;
            let flags = s[7];
            let with_will = flags / 4 % 2 == 1;
            let (id, s1) = parse_utf8(s.skip(10));
            let (topic, s2) = if with_will {
                parse_utf8(s1)
            } else {
                (Ok(Seq::empty()), s1)
            };
            let (message, s3) = if with_will {
                parse_array(s2)
            } else {
                (Ok(Seq::empty()), s2)
            };
            let (username, s4) = if flags / 128 == 1 {
                parse_utf8(s3)
            } else {
                (Ok(Seq::empty()), s3)
            };
            let password = if flags / 64 % 2 == 1 {
                parse_array(s4).0
            } else {
                Ok(Seq::empty())
            };
            if s.len() < 10 {
                r == Err::<BrokerPacketView, PacketDecodeError>(
                    PacketDecodeError::ReachedEndUnexpectedly,
                )
            } else if id is Err {
                r == Err::<BrokerPacketView, PacketDecodeError>(id->Err_0)
            } else if topic is Err {
                r == Err::<BrokerPacketView, PacketDecodeError>(topic->Err_0)
            } else if message is Err {
                r == Err::<BrokerPacketView, PacketDecodeError>(message->Err_0)
            } else if username is Err {
                r == Err::<BrokerPacketView, PacketDecodeError>(username->Err_0)
            } else if password is Err {
                r == Err::<BrokerPacketView, PacketDecodeError>(password->Err_0)
            } else {
                r matches Ok(BrokerPacketView::Connect(c)) && {
                    &&& c.clean_session <==> flags / 2 % 2 == 1
                    &&& c.keep_alive == s[8] * 256 + s[9]
                    &&& c.client_id == id->Ok_0
                    &&& c.will is Some <==> with_will
                    &&& c.will matches Some(w) ==> {
                        &&& w.topic == topic->Ok_0
                        &&& w.message == message->Ok_0
                        &&& w.retain <==> flags / 32 % 2 == 1
                        &&& flags / 8 % 4 == 0 ==> w.qos == QoS::AtMostOnce
                        &&& flags / 8 % 4 == 1 ==> w.qos == QoS::AtLeastOnce
                        &&& flags / 8 % 4 == 2 ==> w.qos == QoS::ExactlyOnce
                    }
                    &&& c.username == (if flags / 128 == 1 {
                        Some(username->Ok_0)
                    } else {
                        None
                    })
                    &&& c.password == (if flags / 64 % 2 == 1 {
                        Some(password->Ok_0)
                    } else {
                        None
                    })
                }
            }
        }),
{
}

/// Which packets a broker can take: those that a client must not send with other control flags
/// have the right ones, a `CONNECT` packet has the right protocol name and level, and whatever
/// stands for a quality of service is one.
pub proof fn law_broker_takes(control: u8, s: Seq<u8>)
    ensures
        ({
            let id = control / 16;
            let flags = control % 16;
            let takes = broker_supports(ControlField(control), s);
            &&& id != 1 && id != 8 && id != 10 && id != 12 && id != 14 ==> takes
            &&& id == 10 ==> (takes <==> flags == 2)
            &&& id == 12 || id == 14 ==> (takes <==> flags == 0)
            &&& id == 8 ==> (takes <==> flags == 2 && (s.len() >= 2 ==> filters_are_supported(
                s.skip(2),
            )))
            &&& id == 1 && s.len() < 10 ==> (takes <==> flags == 0)
            &&& id == 1 && s.len() >= 10 && s[7] / 4 % 2 == 0 ==> (takes <==> flags == 0 && s.take(7)
                == seq![0u8, 4u8, 77u8, 81u8, 84u8, 84u8, 4u8])
            &&& id == 1 && s.len() >= 10 && s[7] / 8 % 4 != 3 ==> (takes <==> flags == 0 && s.take(7)
                == seq![0u8, 4u8, 77u8, 81u8, 84u8, 84u8, 4u8])
        }),
        s.len() == 0 ==> filters_are_supported(s),
        s.len() > 0 ==> (filters_are_supported(s) <==> (parse_utf8(s).0 is Ok && parse_utf8(
            s,
        ).1.len() > 0 ==> parse_utf8(s).1[0] <= 2 && filters_are_supported(
            parse_utf8(s).1.skip(1),
        ))),
{
}

/// Each packet that is received tells its own type.
pub proof fn law_incoming_packet_types(p: IncomingPacket, b: IncomingBrokerPacket)
    ensures
        p.spec_packet_type() == (match p {
            IncomingPacket::ConnAck(_) => PacketType::ConnAck,
            IncomingPacket::SubAck(_) => PacketType::SubAck,
            IncomingPacket::Publish(_) => PacketType::Publish,
            IncomingPacket::PubAck(_) => PacketType::PubAck,
            IncomingPacket::PubRec(_) => PacketType::PubRec,
            IncomingPacket::PubRel(_) => PacketType::PubRel,
            IncomingPacket::PubComp(_) => PacketType::PubComp,
            IncomingPacket::UnsubAck(_) => PacketType::UnsubAck,
            IncomingPacket::PingResp(_) => PacketType::PingResp,
        }),
        b.spec_packet_type() == (match b {
            IncomingBrokerPacket::Connect(_) => PacketType::Connect,
            IncomingBrokerPacket::Subscribe(_) => PacketType::Subscribe,
            IncomingBrokerPacket::Publish(_) => PacketType::Publish,
            IncomingBrokerPacket::PubAck(_) => PacketType::PubAck,
            IncomingBrokerPacket::PubRec(_) => PacketType::PubRec,
            IncomingBrokerPacket::PubRel(_) => PacketType::PubRel,
            IncomingBrokerPacket::PubComp(_) => PacketType::PubComp,
            IncomingBrokerPacket::Unsubscribe(_) => PacketType::Unsubscribe,
            IncomingBrokerPacket::PingReq(_) => PacketType::PingReq,
            IncomingBrokerPacket::Disconnect(_) => PacketType::Disconnect,
        }),
        IncomingConnectPacket::spec_packet_type() == PacketType::Connect,
        IncomingSubscribePacket::spec_packet_type() == PacketType::Subscribe,
        IncomingUnsubPacket::spec_packet_type() == PacketType::Unsubscribe,
        IncomingPublishPacket::spec_packet_type() == PacketType::Publish,
        OutgoingPublishPacket::spec_packet_type() == PacketType::Publish,
{
}

} // verus!
