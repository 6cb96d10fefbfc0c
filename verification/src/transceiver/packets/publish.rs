//! The packets that carry messages.

use std::str::Utf8Error;
use std::sync::Arc;

use vstd::prelude::*;
use vstd::utf8::{decode_utf8, encode_utf8, valid_utf8};

use super::connect::{array_size, bit, slice_to_vec};
use super::{ControlField, Encode, Packet, PacketType, MAX_BODY_SIZE};
use super::super::byte_io::{be_bytes, law_u16_round_trip, law_utf8_round_trip};
use super::super::byte_io::{parse_u16, parse_utf8, with_len};
use super::super::byte_io::{BigEndian, ByteReader, ByteWriter, Parsed};
use crate::errors::{utf8_error, PacketDecodeError};
use crate::QoS;

verus! {

/// Whether `flags` can stand in a `PUBLISH` packet's control field: it has four bits,
/// and the middle two are a quality of service.
pub open spec fn valid_publish_flags(flags: u8) -> bool {
    flags < 16 && flags / 2 % 4 != 3
}

/// The quality of service in publish flags.
pub open spec fn flags_qos(flags: u8) -> QoS {
    QoS::spec_from_code((flags / 2 % 4) as u8)->0
}

/// The publish flags that say the specified things.
pub open spec fn publish_flags(dup: bool, qos: QoS, retain: bool) -> u8 {
    (8 * bit(dup) + 2 * qos.spec_code() + bit(retain)) as u8
}

/// This struct allows the developer to create and parse valid publish
/// flags. See MQTT v3 protocol for more information.
#[derive(Debug, Clone, Copy, PartialEq, Eq, Structural)]
pub struct PublishFlags(u8);

impl View for PublishFlags {
    type V = u8;

    /// The flags in their raw byte form.
    closed spec fn view(&self) -> u8 {
        self.0
    }
}

impl PublishFlags {
    /// The bit used to indicate a duplicate message
    pub const DUP: u8 = 8;

    /// Mask for the [`QoS`] bits
    pub const QOS_MASK: u8 = 6;

    /// The bit used for the retain flag
    pub const RETAIN: u8 = 1;

    /// Mask containing all bits that may consitute valid publish flags
    pub const ALL_BITS: u8 = 15;

    #[verifier::type_invariant]
    spec fn is_valid(self) -> bool {
        valid_publish_flags(self.0)
    }

    /// Instantiates a new set of publish flags with the specified values:
    ///  - `dup` indicates that the message was already sent by the client
    ///    before, but is about to be re-transmitted due to a lack of
    ///    acknowledgment from the broker
    ///  - `qos` indicates the quality of service that will be used to
    ///    **send** the message
    ///  - `retain` indicates that the message should be stored by the
    ///    broker and transmitted when clients subscribe to the corresponding
    ///    topic
    pub fn new(dup: bool, qos: QoS, retain: bool) -> (r: Self)
        ensures
            r@ == publish_flags(dup, qos, retain),
    {
        let mut ret: u8 = qos.code() * 2;
        if dup {
            ret += Self::DUP;
        }
        if retain {
            ret += Self::RETAIN;
        }
        PublishFlags(ret)
    }

    /// Indicates that the message was a retained message that is being
    /// transmitted by the broker in response to a topic subscription.
    pub fn was_retained(self) -> (r: bool)
        ensures
            r == (self@ % 2 == 1),
    {
        self.0 % 2 == 1
    }

    /// Indicates the quality of service used to **receive** the message.
    /// The client that sent the message initially might have used a
    /// different quality of service to transmit it.
    pub fn qos(self) -> (r: QoS)
        ensures
            r == flags_qos(self@),
    {
        proof {
            use_type_invariant(&self);
        }
        match self.0 / 2 % 4 {
            0 => QoS::AtMostOnce,
            1 => QoS::AtLeastOnce,
            _ => QoS::ExactlyOnce,
        }
    }

    /// Indicates that this publish packet was already sent by the broker
    /// before, but was re-transmitted due to a lack of acknowledgment from
    /// the client.
    pub fn is_dup(self) -> (r: bool)
        ensures
            r == (self@ / 8 == 1),
    {
        proof {
            use_type_invariant(&self);
        }
        self.0 / 8 == 1
    }

    /// Converts the flags into their raw byte form.
    pub fn into_inner(self) -> (r: u8)
        ensures
            r == self@,
            valid_publish_flags(r),
    {
        proof {
            use_type_invariant(&self);
        }
        self.0
    }

    /// Validates [`PublishFlags`] in their raw byte form. If
    /// invalid bits are detected,
    /// [`PacketDecodeError::MalformedPacket`] is returned.
    pub fn try_from(value: u8) -> (r: Result<Self, PacketDecodeError>)
        ensures
            r is Ok <==> valid_publish_flags(value),
            r matches Ok(flags) ==> flags@ == value,
            r matches Err(e) ==> e == PacketDecodeError::MalformedPacket,
    {
        if value > Self::ALL_BITS {
            return Err(PacketDecodeError::MalformedPacket);
        }
        if value / 2 % 4 > 2 {
            return Err(PacketDecodeError::MalformedPacket);
        }
        Ok(PublishFlags(value))
    }
}

/// Publish flags say what they were made of.
pub proof fn law_publish_flags(dup: bool, qos: QoS, retain: bool)
    ensures
        valid_publish_flags(publish_flags(dup, qos, retain)),
        publish_flags(dup, qos, retain) / 8 == bit(dup),
        flags_qos(publish_flags(dup, qos, retain)) == qos,
        publish_flags(dup, qos, retain) % 2 == bit(retain),
{
}

/// What a `PUBLISH` packet says.
pub struct PublishView {
    pub flags: u8,
    pub topic: Seq<char>,
    pub packet_id: u16,
    pub payload: Seq<u8>,
}

impl PublishView {
    /// The packet's body. There is no packet ID at [`QoS::AtMostOnce`].
    pub open spec fn body(self) -> Seq<u8> {
        with_len(encode_utf8(self.topic)) + (if flags_qos(self.flags) == QoS::AtMostOnce {
            Seq::empty()
        } else {
            be_bytes(self.packet_id)
        }) + self.payload
    }

    /// Whether the packet can be written.
    pub open spec fn fits(self) -> bool {
        encode_utf8(self.topic).len() <= u16::MAX && self.body().len() <= MAX_BODY_SIZE
    }
}

/// Reads the body of a `PUBLISH` packet with the specified flags.
pub open spec fn parse_publish(flags: u8, s: Seq<u8>) -> Parsed<PublishView> {
    if !valid_publish_flags(flags) {
        (Err(PacketDecodeError::MalformedPacket), s)
    } else {
        let (topic, rest) = parse_utf8(s);
        match topic {
            Err(e) => (Err(e), rest),
            Ok(topic) => if flags_qos(flags) == QoS::AtMostOnce {
                (Ok(PublishView { flags, topic, packet_id: 0, payload: rest }), Seq::empty())
            } else {
                let (packet_id, rest) = parse_u16(rest);
                match packet_id {
                    Err(e) => (Err(e), rest),
                    Ok(packet_id) => (
                        Ok(PublishView { flags, topic, packet_id, payload: rest }),
                        Seq::empty(),
                    ),
                }
            },
        }
    }
}

/// A message on its way to the broker.
pub struct OutgoingPublishPacket<'a> {
    pub flags: PublishFlags,
    pub topic: &'a str,
    pub packet_id: u16,
    pub payload: &'a [u8],
}

impl<'a> View for OutgoingPublishPacket<'a> {
    type V = PublishView;

    open spec fn view(&self) -> PublishView {
        PublishView {
            flags: self.flags@,
            topic: self.topic@,
            packet_id: self.packet_id,
            payload: self.payload@,
        }
    }
}

impl<'a> Packet for OutgoingPublishPacket<'a> {
    open spec fn spec_packet_type() -> PacketType {
        PacketType::Publish
    }

    fn packet_type() -> (r: PacketType) {
        PacketType::Publish
    }
}

impl<'a> Encode for OutgoingPublishPacket<'a> {
    open spec fn body(&self) -> Seq<u8> {
        self@.body()
    }

    open spec fn control_flags(&self) -> u8 {
        self.flags@
    }

    open spec fn encodable(&self) -> bool {
        self@.fits()
    }

    fn is_encodable(&self) -> (r: bool) {
        let id_size: usize = if self.flags.qos() == QoS::AtMostOnce {
            0
        } else {
            2
        };
        let topic_len: usize = self.topic.as_bytes().len();
        topic_len <= 65535 && self.payload.len() <= MAX_BODY_SIZE - 2 - topic_len - id_size
    }

    fn compute_size(&self) -> (r: usize) {
        let mut ret: usize = array_size(self.topic.as_bytes());
        if self.flags.qos() != QoS::AtMostOnce {
            ret += 2;
        }
        ret + self.payload.len()
    }

    fn encode(&self, wr: &mut ByteWriter) -> (flags: u8) {
        wr.write_bytes(self.topic.as_bytes());
        if self.flags.qos() != QoS::AtMostOnce {
            wr.write_u16(BigEndian::from_native(self.packet_id));
        }
        wr.write_bytes_no_len(self.payload);
        assert(wr@ =~= old(wr)@ + self@.body());
        self.flags.into_inner()
    }
}

/// A simple struct containing the flags used by the broker to
/// transmit the message, as well as the packet ID (if applicable).
#[derive(Debug, Clone, Copy, PartialEq, Eq, Structural)]
pub struct PublishPacketInfo {
    /// The flags used by the broker to transmit the message to
    /// the client. This can be used to know if the message is
    /// a duplicate, if the message was retained and what quality
    /// of service was used to transmit it.
    ///
    /// For more information, see [`PublishFlags`].
    pub flags: PublishFlags,
    /// The packet ID used by the broker for this message. Note
    /// that this value is invalid when using [`QoS::AtMostOnce`],
    /// and thus will be zero.
    pub packet_id: u16,
}

/// What all the clones of a message share.
struct PublishContents {
    info: PublishPacketInfo,
    topic: String,
    payload: Vec<u8>,
}

/// A message received from the broker. Its contents are wrapped in
/// an [`Arc`], so this value can be safely cloned with no extra
/// mallocs.
pub struct IncomingPublishPacket(Arc<PublishContents>);

impl View for IncomingPublishPacket {
    type V = PublishView;

    closed spec fn view(&self) -> PublishView {
        PublishView {
            flags: self.0.info.flags@,
            topic: self.0.topic@,
            packet_id: self.0.info.packet_id,
            payload: self.0.payload@,
        }
    }
}

impl Clone for IncomingPublishPacket {
    fn clone(&self) -> (r: Self)
        ensures
            r == *self,
    {
        IncomingPublishPacket(self.0.clone())
    }
}

impl Packet for IncomingPublishPacket {
    open spec fn spec_packet_type() -> PacketType {
        PacketType::Publish
    }

    fn packet_type() -> (r: PacketType) {
        PacketType::Publish
    }
}

impl IncomingPublishPacket {
    /// Returns basic information about this message (flags and packet ID).
    pub fn info(&self) -> (r: PublishPacketInfo)
        ensures
            r.flags@ == self@.flags,
            r.packet_id == self@.packet_id,
    {
        self.0.info
    }

    /// Returns the topic of this message.
    pub fn topic(&self) -> (r: &str)
        ensures
            r@ == self@.topic,
    {
        self.0.topic.as_str()
    }

    /// Returns the payload (contents) of this message as raw bytes.
    pub fn payload(&self) -> (r: &[u8])
        ensures
            r@ == self@.payload,
    {
        self.0.payload.as_slice()
    }

    /// Verifies that the payload (contents) of this message is valid UTF-8
    /// and returns it as a [`str`] if that is the case. Returns an [`Utf8Error`]
    /// if it contains malformed UTF-8.
    pub fn payload_as_utf8(&self) -> (r: Result<&str, Utf8Error>)
        ensures
            r is Ok <==> valid_utf8(self@.payload),
            r matches Ok(s) ==> s@ == decode_utf8(self@.payload),
            r matches Err(e) ==> e == utf8_error(self@.payload),
    {
        broadcast use vstd::utf8::encode_utf8_decode_utf8;

        std::str::from_utf8(self.payload())
    }

    /// Reads the body of a `PUBLISH` packet.
    pub fn decode(rd: &mut ByteReader, ctrl_field: ControlField) -> (r: Result<
        Self,
        PacketDecodeError,
    >)
        ensures
            match parse_publish(ctrl_field.spec_flags(), old(rd)@).0 {
                Ok(v) => r matches Ok(p) && p@ == v,
                Err(e) => r == Err::<Self, PacketDecodeError>(e),
            },
            final(rd)@ == parse_publish(ctrl_field.spec_flags(), old(rd)@).1,
    {
        let flags = PublishFlags::try_from(ctrl_field.flags())?;
        let topic = rd.read_utf8()?.to_owned();
        let packet_id: u16 = if flags.qos() != QoS::AtMostOnce {
            rd.read_u16()?.to_native()
        } else {
            0
        };
        let payload = slice_to_vec(rd.read_remaining());
        let info = PublishPacketInfo { flags, packet_id };
        Ok(IncomingPublishPacket(Arc::new(PublishContents { info, topic, payload })))
    }

    /// Turns this message into one that can be sent on, as a broker does.
    pub fn to_outgoing<'a>(&'a self, qos: QoS, retain: bool, packet_id: u16) -> (r:
        OutgoingPublishPacket<'a>)
        ensures
            r@ == (PublishView {
                flags: publish_flags(false, qos, retain),
                topic: self@.topic,
                packet_id,
                payload: self@.payload,
            }),
    {
        OutgoingPublishPacket {
            flags: PublishFlags::new(false, qos, retain),
            topic: self.topic(),
            packet_id,
            payload: self.payload(),
        }
    }
}

/// What is read out of a `PUBLISH` packet is what was put in, except that a packet
/// ID at [`QoS::AtMostOnce`] is not sent and reads as zero.
pub proof fn law_publish_round_trip(v: PublishView)
    requires
        v.fits(),
        valid_publish_flags(v.flags),
    ensures
        parse_publish(v.flags, v.body()) == (
            Ok::<PublishView, PacketDecodeError>(
                PublishView {
                    packet_id: if flags_qos(v.flags) == QoS::AtMostOnce {
                        0
                    } else {
                        v.packet_id
                    },
                    ..v
                },
            ),
            Seq::<u8>::empty(),
        ),
{
    let s = v.body();
    let topic = with_len(encode_utf8(v.topic));
    if flags_qos(v.flags) == QoS::AtMostOnce {
        assert(s =~= topic + v.payload);
        law_utf8_round_trip(v.topic, v.payload);
    } else {
        let after_topic = be_bytes(v.packet_id) + v.payload;
        assert(s =~= topic + after_topic);
        law_utf8_round_trip(v.topic, after_topic);
        law_u16_round_trip(v.packet_id, v.payload);
    }
}

} // verus!
