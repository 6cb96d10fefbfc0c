//! The packets of the protocol and their encoding.

mod acks;
mod connect;
mod incoming;
mod publish;
mod subscribe;
pub mod wire_laws;

pub use acks::{DisconnectPacket, PingReqPacket, PingRespPacket};
pub use acks::{PubAckPacket, PubCompPacket, PubRecPacket, PubRelPacket, UnsubAckPacket};
pub(crate) use connect::slice_to_vec;
pub use connect::{ConnAckPacket, ConnectPacket, IncomingConnectPacket, IncomingLastWill};
pub use connect::{bit, conn_ack_bytes, conn_ack_of, connect_is_supported, parse_conn_ack, parse_connect};
pub use connect::{law_conn_ack_round_trip, law_connect_round_trip, ConnectView, WillView};
pub use incoming::{broker_supports, parse_broker_packet, parse_packet};
pub use incoming::{BrokerPacketView, IncomingBrokerPacket, IncomingPacket, PacketView};
pub use publish::{IncomingPublishPacket, OutgoingPublishPacket, PublishFlags, PublishPacketInfo};
pub use publish::{flags_qos, parse_publish, publish_flags, valid_publish_flags, PublishView};
pub use publish::{law_publish_flags, law_publish_round_trip};
pub use subscribe::{IncomingSubscribePacket, IncomingUnsubPacket, SubAckPacket, SubscribePacket};
pub use subscribe::{SubscriptionResult, SubscriptionResultList, UnsubscribePacket, MAX_STATIC_SUBS};
pub use subscribe::{filters_are_supported, filters_bytes, parse_filters, parse_subscribe, Filter};
pub use subscribe::{law_sub_ack_round_trip, law_subscribe_round_trip, law_unsubscribe_round_trip};
pub use subscribe::{parse_sub_ack, sub_result_byte, sub_result_of};
pub use subscribe::{parse_topics, parse_unsubscribe, topics_bytes};

use std::sync::Arc;

use vstd::prelude::*;

use super::byte_io::ByteWriter;

verus! {

/// 1 byte control field + up to 4 bytes of 'remaining length' field
pub const MAX_HEADER_SIZE: usize = 5;

/// The largest number of bytes that can follow a fixed header.
pub const MAX_BODY_SIZE: usize = 268_435_455;

/// Listing of the different MQTT packet types.
#[derive(Debug, Clone, Copy, PartialEq, Eq, Hash, Structural)]
pub enum PacketType {
    Connect,
    ConnAck,
    Publish,
    PubAck,
    PubRec,
    PubRel,
    PubComp,
    Subscribe,
    SubAck,
    Unsubscribe,
    UnsubAck,
    PingReq,
    PingResp,
    Disconnect,
}

impl PacketType {
    /// The ID associated with this packet type.
    pub open spec fn spec_id(self) -> u8 {
        match self {
            PacketType::Connect => 1,
            PacketType::ConnAck => 2,
            PacketType::Publish => 3,
            PacketType::PubAck => 4,
            PacketType::PubRec => 5,
            PacketType::PubRel => 6,
            PacketType::PubComp => 7,
            PacketType::Subscribe => 8,
            PacketType::SubAck => 9,
            PacketType::Unsubscribe => 10,
            PacketType::UnsubAck => 11,
            PacketType::PingReq => 12,
            PacketType::PingResp => 13,
            PacketType::Disconnect => 14,
        }
    }

    /// Returns the ID associated with this packet type.
    pub fn id(self) -> (r: u8)
        ensures
            r == self.spec_id(),
            1 <= r <= 14,
    {
        match self {
            PacketType::Connect => 1,
            PacketType::ConnAck => 2,
            PacketType::Publish => 3,
            PacketType::PubAck => 4,
            PacketType::PubRec => 5,
            PacketType::PubRel => 6,
            PacketType::PubComp => 7,
            PacketType::Subscribe => 8,
            PacketType::SubAck => 9,
            PacketType::Unsubscribe => 10,
            PacketType::UnsubAck => 11,
            PacketType::PingReq => 12,
            PacketType::PingResp => 13,
            PacketType::Disconnect => 14,
        }
    }
}

/// The first byte of every packet: the packet type's ID in the upper four bits,
/// flags in the lower four.
#[derive(Clone, Copy, Debug, PartialEq, Eq, Structural)]
pub struct ControlField(pub u8);

impl ControlField {
    /// Puts a control field together.
    pub fn from_type_and_flags(t: PacketType, flags: u8) -> (r: Self)
        requires
            flags < 16,
        ensures
            r.0 == t.spec_id() * 16 + flags,
            r.spec_packet_type() == t.spec_id(),
            r.spec_flags() == flags,
    {
        ControlField(t.id() * 16 + flags)
    }

    /// The upper four bits.
    pub open spec fn spec_packet_type(self) -> u8 {
        (self.0 / 16) as u8
    }

    /// The lower four bits.
    pub open spec fn spec_flags(self) -> u8 {
        (self.0 % 16) as u8
    }

    /// Returns the packet type's ID.
    pub fn packet_type(self) -> (r: u8)
        ensures
            r == self.spec_packet_type(),
            r < 16,
    {
        self.0 / 16
    }

    /// Returns the flags.
    pub fn flags(self) -> (r: u8)
        ensures
            r == self.spec_flags(),
            r < 16,
    {
        self.0 % 16
    }
}

/// The 'remaining length' field for `n`: seven bits per byte, the lowest first,
/// with the top bit set on every byte but the last.
pub open spec fn size_bytes(n: nat) -> Seq<u8>
    decreases n,
{
    if n < 128 {
        seq![n as u8]
    } else {
        seq![(n % 128 + 128) as u8] + size_bytes(n / 128)
    }
}

/// A whole packet: control field, 'remaining length' field, body.
pub open spec fn packet_bytes(t: PacketType, flags: u8, body: Seq<u8>) -> Seq<u8> {
    seq![(t.spec_id() * 16 + flags) as u8] + size_bytes(body.len()) + body
}

/// Appends the 'remaining length' field for `sz` to `dst`.
fn encode_packet_size(sz: usize, dst: &mut Vec<u8>)
    ensures
        final(dst)@ == old(dst)@ + size_bytes(sz as nat),
        sz <= MAX_BODY_SIZE ==> size_bytes(sz as nat).len() <= 4,
{
    proof {
        lemma_size_bytes_len(sz as nat);
    }
    let mut left: usize = sz;
    while left >= 128
        invariant
            old(dst)@ + size_bytes(sz as nat) == dst@ + size_bytes(left as nat),
        decreases left,
    {
        let ghost before = dst@;
        let low: u8 = (left % 128 + 128) as u8;
        assert(size_bytes(left as nat) == seq![low] + size_bytes(left as nat / 128));
        dst.push(low);
        left = left / 128;
        assert(before + (seq![low] + size_bytes(left as nat)) =~= dst@ + size_bytes(left as nat));
    }
    dst.push(left as u8);
    assert(size_bytes(left as nat) =~= seq![left as u8]);
    assert(dst@ =~= old(dst)@ + size_bytes(sz as nat));
}

proof fn lemma_size_bytes_len(n: nat)
    ensures
        n <= MAX_BODY_SIZE ==> size_bytes(n).len() <= 4,
{
    reveal_with_fuel(size_bytes, 4);
}

/// The number that the lowest seven bits of some bytes stand for, the lowest ones first.
pub open spec fn size_value(bytes: Seq<u8>) -> nat
    decreases bytes.len(),
{
    if bytes.len() == 0 {
        0
    } else {
        (bytes[0] as nat) % 128 + 128 * size_value(bytes.skip(1))
    }
}

/// A 'remaining length' field stands for its size, has its top bit set on every byte but the
/// last, and is as short as can be: its last byte is zero only for the size zero.
pub proof fn law_size_bytes(n: nat)
    ensures
        size_bytes(n).len() >= 1,
        size_value(size_bytes(n)) == n,
        forall|i: int|
            0 <= i < size_bytes(n).len() ==> (#[trigger] size_bytes(n)[i] >= 128 <==> i
                < size_bytes(n).len() - 1),
        n > 0 ==> size_bytes(n).last() > 0,
    decreases n,
{
    let s = size_bytes(n);
    if n < 128 {
        assert(s.skip(1) =~= Seq::empty());
        assert(size_value(s.skip(1)) == 0);
    } else {
        let rest = size_bytes(n / 128);
        law_size_bytes(n / 128);
        assert(s.skip(1) =~= rest);
        assert forall|i: int| 0 <= i < s.len() implies (#[trigger] s[i] >= 128 <==> i < s.len()
            - 1) by {
            if i > 0 {
                assert(s[i] == rest[i - 1]);
            }
        }
        assert(s.last() == rest.last());
    }
}

/// What a finished packet is kept in. Implemented for [`Box`] and [`Arc`].
pub trait PacketContainer: Sized {
    /// The bytes in this container.
    spec fn bytes(&self) -> Seq<u8>;

    /// Creates a container that holds the specified bytes.
    fn create(bytes: Vec<u8>) -> (r: Self)
        ensures
            r.bytes() == bytes@,
    ;

    /// Accesses the bytes.
    fn access_bytes(&self) -> (r: &[u8])
        ensures
            r@ == self.bytes(),
    ;
}

/// `Vec::into_boxed_slice` keeps the elements and their order.
#[verifier::external_body]
fn vec_into_box(bytes: Vec<u8>) -> (r: Box<[u8]>)
    ensures
        r@ == bytes@,
{
    bytes.into_boxed_slice()
}

/// `Arc::from` on a `Vec` keeps the elements and their order.
#[verifier::external_body]
fn vec_into_arc(bytes: Vec<u8>) -> (r: Arc<[u8]>)
    ensures
        r@ == bytes@,
{
    Arc::from(bytes)
}

impl PacketContainer for Box<[u8]> {
    open spec fn bytes(&self) -> Seq<u8> {
        self@
    }

    fn create(bytes: Vec<u8>) -> (r: Self) {
        vec_into_box(bytes)
    }

    fn access_bytes(&self) -> (r: &[u8]) {
        &**self
    }
}

impl PacketContainer for Arc<[u8]> {
    open spec fn bytes(&self) -> Seq<u8> {
        self@
    }

    fn create(bytes: Vec<u8>) -> (r: Self) {
        vec_into_arc(bytes)
    }

    fn access_bytes(&self) -> (r: &[u8]) {
        &**self
    }
}

/// A trait implemented by all packets. Simply associates
/// a [`PacketType`] to the struct.
pub trait Packet {
    /// The type of packet that the implementing structure represents.
    spec fn spec_packet_type() -> PacketType;

    /// The type of packet that the implementing structure represents.
    fn packet_type() -> (r: PacketType)
        ensures
            r == Self::spec_packet_type(),
    ;
}

/// A trait implemented by all packets that can be written. Provides the
/// [`Encode::make_packet()`] and [`Encode::make_arc_packet()`]
/// utility functions to build packets (= byte arrays) wrapped
/// in [`Box`] and [`Arc`], respectively.
pub trait Encode: Packet {
    /// The bytes that follow the packet's fixed header.
    spec fn body(&self) -> Seq<u8>;

    /// The flags in the control field.
    spec fn control_flags(&self) -> u8;

    /// Whether the packet can be written: every field whose length is written as
    /// two bytes has at most 65535 bytes, and the body at most [`MAX_BODY_SIZE`].
    spec fn encodable(&self) -> bool;

    /// Tells whether the packet can be written.
    fn is_encodable(&self) -> (r: bool)
        ensures
            r == self.encodable(),
    ;

    /// Returns the size, in bytes, needed to encode this packet.
    ///
    /// This value does not cover the space needed for the fixed
    /// header (e.g. control field and packet size).
    fn compute_size(&self) -> (r: usize)
        requires
            self.encodable(),
        ensures
            r == self.body().len(),
            r <= MAX_BODY_SIZE,
    ;

    /// Converts the packet into raw bytes using the provided
    /// [`ByteWriter`], excluding the fixed header (control field
    /// and packet size). Returns the flags in the control field that
    /// will be prepended to the packet by the caller.
    fn encode(&self, wr: &mut ByteWriter) -> (flags: u8)
        requires
            self.encodable(),
            old(wr).space() >= self.body().len(),
        ensures
            final(wr)@ == old(wr)@ + self.body(),
            final(wr).space() == old(wr).space() - self.body().len(),
            flags == self.control_flags(),
            flags < 16,
    ;

    /// Encodes the packet into raw bytes and wraps the resulting byte
    /// array into the specified [`PacketContainer`]. This function
    /// should not be used directly and the [`Encode::make_packet`]
    /// and [`Encode::make_arc_packet`] utility functions should be
    /// used instead.
    fn make_packet_t<C: PacketContainer>(&self) -> (r: C)
        requires
            self.encodable(),
        ensures
            r.bytes() == packet_bytes(Self::spec_packet_type(), self.control_flags(), self.body()),
    {
        let content_sz: usize = self.compute_size();
        let mut header: Vec<u8> = Vec::with_capacity(MAX_HEADER_SIZE + content_sz);
        header.push(0);
        encode_packet_size(content_sz, &mut header);

        let mut wr = ByteWriter::new(header, content_sz);
        let flags: u8 = self.encode(&mut wr);
        let mut bytes = wr.finish_and_check();
        bytes.set(0, ControlField::from_type_and_flags(Self::packet_type(), flags).0);
        assert(bytes@ =~= packet_bytes(
            Self::spec_packet_type(),
            self.control_flags(),
            self.body(),
        ));
        C::create(bytes)
    }

    /// Encodes the packet into raw bytes and wraps the resulting byte
    /// array into a new [`Box`].
    fn make_packet(&self) -> (r: Box<[u8]>)
        requires
            self.encodable(),
        ensures
            r@ == packet_bytes(Self::spec_packet_type(), self.control_flags(), self.body()),
    {
        self.make_packet_t::<Box<[u8]>>()
    }

    /// Encodes the packet into raw bytes and wraps the resulting byte
    /// array into a new [`Arc`].
    fn make_arc_packet(&self) -> (r: Arc<[u8]>)
        requires
            self.encodable(),
        ensures
            r@ == packet_bytes(Self::spec_packet_type(), self.control_flags(), self.body()),
    {
        self.make_packet_t::<Arc<[u8]>>()
    }
}

} // verus!
