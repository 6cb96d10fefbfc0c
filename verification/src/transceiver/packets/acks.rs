//! Packets with nothing but a packet ID, or nothing at all.

use vstd::prelude::*;

use super::{ControlField, Encode, Packet, PacketType};
use super::super::byte_io::{be_bytes, parse_u16, BigEndian, ByteReader, ByteWriter};
use crate::errors::PacketDecodeError;

verus! {

/// Acknowledges a message sent with [`crate::QoS::AtLeastOnce`].
#[derive(Debug, Clone, Copy, PartialEq, Eq, Structural)]
pub struct PubAckPacket {
    pub packet_id: u16,
}

impl Packet for PubAckPacket {
    open spec fn spec_packet_type() -> PacketType {
        PacketType::PubAck
    }

    fn packet_type() -> (r: PacketType) {
        PacketType::PubAck
    }
}

impl PubAckPacket {
    /// Instantiates a new packet with the specified packet ID.
    pub fn new(packet_id: u16) -> (r: Self)
        ensures
            r.packet_id == packet_id,
    {
        PubAckPacket { packet_id }
    }

    /// Reads the packet's body.
    pub fn decode(rd: &mut ByteReader, _ctrl_field: ControlField) -> (r: Result<
        Self,
        PacketDecodeError,
    >)
        ensures
            match parse_u16(old(rd)@).0 {
                Ok(packet_id) => r == Ok::<Self, PacketDecodeError>(PubAckPacket { packet_id }),
                Err(e) => r == Err::<Self, PacketDecodeError>(e),
            },
            final(rd)@ == parse_u16(old(rd)@).1,
    {
        let packet_id: u16 = rd.read_u16()?.to_native();
        Ok(PubAckPacket { packet_id })
    }
}

impl Encode for PubAckPacket {
    open spec fn body(&self) -> Seq<u8> {
        be_bytes(self.packet_id)
    }

    open spec fn control_flags(&self) -> u8 {
        0
    }

    open spec fn encodable(&self) -> bool {
        true
    }

    fn is_encodable(&self) -> (r: bool) {
        true
    }

    fn compute_size(&self) -> (r: usize) {
        2
    }

    fn encode(&self, wr: &mut ByteWriter) -> (flags: u8) {
        wr.write_u16(BigEndian::from_native(self.packet_id));
        0
    }
}

/// Tells that a message sent with [`crate::QoS::ExactlyOnce`] was received.
#[derive(Debug, Clone, Copy, PartialEq, Eq, Structural)]
pub struct PubRecPacket {
    pub packet_id: u16,
}

impl Packet for PubRecPacket {
    open spec fn spec_packet_type() -> PacketType {
        PacketType::PubRec
    }

    fn packet_type() -> (r: PacketType) {
        PacketType::PubRec
    }
}

impl PubRecPacket {
    /// Instantiates a new packet with the specified packet ID.
    pub fn new(packet_id: u16) -> (r: Self)
        ensures
            r.packet_id == packet_id,
    {
        PubRecPacket { packet_id }
    }

    /// Reads the packet's body.
    pub fn decode(rd: &mut ByteReader, _ctrl_field: ControlField) -> (r: Result<
        Self,
        PacketDecodeError,
    >)
        ensures
            match parse_u16(old(rd)@).0 {
                Ok(packet_id) => r == Ok::<Self, PacketDecodeError>(PubRecPacket { packet_id }),
                Err(e) => r == Err::<Self, PacketDecodeError>(e),
            },
            final(rd)@ == parse_u16(old(rd)@).1,
    {
        let packet_id: u16 = rd.read_u16()?.to_native();
        Ok(PubRecPacket { packet_id })
    }
}

impl Encode for PubRecPacket {
    open spec fn body(&self) -> Seq<u8> {
        be_bytes(self.packet_id)
    }

    open spec fn control_flags(&self) -> u8 {
        0
    }

    open spec fn encodable(&self) -> bool {
        true
    }

    fn is_encodable(&self) -> (r: bool) {
        true
    }

    fn compute_size(&self) -> (r: usize) {
        2
    }

    fn encode(&self, wr: &mut ByteWriter) -> (flags: u8) {
        wr.write_u16(BigEndian::from_native(self.packet_id));
        0
    }
}

/// Releases a message sent with [`crate::QoS::ExactlyOnce`].
#[derive(Debug, Clone, Copy, PartialEq, Eq, Structural)]
pub struct PubRelPacket {
    pub packet_id: u16,
}

impl Packet for PubRelPacket {
    open spec fn spec_packet_type() -> PacketType {
        PacketType::PubRel
    }

    fn packet_type() -> (r: PacketType) {
        PacketType::PubRel
    }
}

impl PubRelPacket {
    /// Instantiates a new packet with the specified packet ID.
    pub fn new(packet_id: u16) -> (r: Self)
        ensures
            r.packet_id == packet_id,
    {
        PubRelPacket { packet_id }
    }

    /// Reads the packet's body.
    pub fn decode(rd: &mut ByteReader, _ctrl_field: ControlField) -> (r: Result<
        Self,
        PacketDecodeError,
    >)
        ensures
            match parse_u16(old(rd)@).0 {
                Ok(packet_id) => r == Ok::<Self, PacketDecodeError>(PubRelPacket { packet_id }),
                Err(e) => r == Err::<Self, PacketDecodeError>(e),
            },
            final(rd)@ == parse_u16(old(rd)@).1,
    {
        let packet_id: u16 = rd.read_u16()?.to_native();
        Ok(PubRelPacket { packet_id })
    }
}

impl Encode for PubRelPacket {
    open spec fn body(&self) -> Seq<u8> {
        be_bytes(self.packet_id)
    }

    open spec fn control_flags(&self) -> u8 {
        2
    }

    open spec fn encodable(&self) -> bool {
        true
    }

    fn is_encodable(&self) -> (r: bool) {
        true
    }

    fn compute_size(&self) -> (r: usize) {
        2
    }

    fn encode(&self, wr: &mut ByteWriter) -> (flags: u8) {
        wr.write_u16(BigEndian::from_native(self.packet_id));
        2
    }
}

/// Completes the delivery of a message sent with [`crate::QoS::ExactlyOnce`].
#[derive(Debug, Clone, Copy, PartialEq, Eq, Structural)]
pub struct PubCompPacket {
    pub packet_id: u16,
}

impl Packet for PubCompPacket {
    open spec fn spec_packet_type() -> PacketType {
        PacketType::PubComp
    }

    fn packet_type() -> (r: PacketType) {
        PacketType::PubComp
    }
}

impl PubCompPacket {
    /// Instantiates a new packet with the specified packet ID.
    pub fn new(packet_id: u16) -> (r: Self)
        ensures
            r.packet_id == packet_id,
    {
        PubCompPacket { packet_id }
    }

    /// Reads the packet's body.
    pub fn decode(rd: &mut ByteReader, _ctrl_field: ControlField) -> (r: Result<
        Self,
        PacketDecodeError,
    >)
        ensures
            match parse_u16(old(rd)@).0 {
                Ok(packet_id) => r == Ok::<Self, PacketDecodeError>(PubCompPacket { packet_id }),
                Err(e) => r == Err::<Self, PacketDecodeError>(e),
            },
            final(rd)@ == parse_u16(old(rd)@).1,
    {
        let packet_id: u16 = rd.read_u16()?.to_native();
        Ok(PubCompPacket { packet_id })
    }
}

impl Encode for PubCompPacket {
    open spec fn body(&self) -> Seq<u8> {
        be_bytes(self.packet_id)
    }

    open spec fn control_flags(&self) -> u8 {
        0
    }

    open spec fn encodable(&self) -> bool {
        true
    }

    fn is_encodable(&self) -> (r: bool) {
        true
    }

    fn compute_size(&self) -> (r: usize) {
        2
    }

    fn encode(&self, wr: &mut ByteWriter) -> (flags: u8) {
        wr.write_u16(BigEndian::from_native(self.packet_id));
        0
    }
}

/// Acknowledges an `UNSUBSCRIBE` packet.
#[derive(Debug, Clone, Copy, PartialEq, Eq, Structural)]
pub struct UnsubAckPacket {
    pub packet_id: u16,
}

impl Packet for UnsubAckPacket {
    open spec fn spec_packet_type() -> PacketType {
        PacketType::UnsubAck
    }

    fn packet_type() -> (r: PacketType) {
        PacketType::UnsubAck
    }
}

impl UnsubAckPacket {
    /// Instantiates a new packet with the specified packet ID.
    pub fn new(packet_id: u16) -> (r: Self)
        ensures
            r.packet_id == packet_id,
    {
        UnsubAckPacket { packet_id }
    }

    /// Reads the packet's body.
    pub fn decode(rd: &mut ByteReader, _ctrl_field: ControlField) -> (r: Result<
        Self,
        PacketDecodeError,
    >)
        ensures
            match parse_u16(old(rd)@).0 {
                Ok(packet_id) => r == Ok::<Self, PacketDecodeError>(UnsubAckPacket { packet_id }),
                Err(e) => r == Err::<Self, PacketDecodeError>(e),
            },
            final(rd)@ == parse_u16(old(rd)@).1,
    {
        let packet_id: u16 = rd.read_u16()?.to_native();
        Ok(UnsubAckPacket { packet_id })
    }
}

impl Encode for UnsubAckPacket {
    open spec fn body(&self) -> Seq<u8> {
        be_bytes(self.packet_id)
    }

    open spec fn control_flags(&self) -> u8 {
        0
    }

    open spec fn encodable(&self) -> bool {
        true
    }

    fn is_encodable(&self) -> (r: bool) {
        true
    }

    fn compute_size(&self) -> (r: usize) {
        2
    }

    fn encode(&self, wr: &mut ByteWriter) -> (flags: u8) {
        wr.write_u16(BigEndian::from_native(self.packet_id));
        0
    }
}

/// Asks the broker for a sign of life.
#[derive(Debug, Clone, Copy, PartialEq, Eq, Structural)]
pub struct PingReqPacket;

impl Packet for PingReqPacket {
    open spec fn spec_packet_type() -> PacketType {
        PacketType::PingReq
    }

    fn packet_type() -> (r: PacketType) {
        PacketType::PingReq
    }
}

impl PingReqPacket {
    /// Reads nothing: the packet has no body.
    pub fn decode(rd: &mut ByteReader, _ctrl_field: ControlField) -> (r: Result<Self, PacketDecodeError>)
        requires
            _ctrl_field.spec_flags() == 0,
        ensures
            r == Ok::<Self, PacketDecodeError>(PingReqPacket),
            *final(rd) == *old(rd),
    {
        Ok(PingReqPacket)
    }
}

impl Encode for PingReqPacket {
    open spec fn body(&self) -> Seq<u8> {
        Seq::empty()
    }

    open spec fn control_flags(&self) -> u8 {
        0
    }

    open spec fn encodable(&self) -> bool {
        true
    }

    fn is_encodable(&self) -> (r: bool) {
        true
    }

    fn compute_size(&self) -> (r: usize) {
        0
    }

    fn encode(&self, wr: &mut ByteWriter) -> (flags: u8) {
        assert(wr@ =~= wr@ + self.body());
        0
    }
}

/// Announces that the client is about to close the connection.
#[derive(Debug, Clone, Copy, PartialEq, Eq, Structural)]
pub struct DisconnectPacket;

impl Packet for DisconnectPacket {
    open spec fn spec_packet_type() -> PacketType {
        PacketType::Disconnect
    }

    fn packet_type() -> (r: PacketType) {
        PacketType::Disconnect
    }
}

impl DisconnectPacket {
    /// Reads nothing: the packet has no body.
    pub fn decode(rd: &mut ByteReader, _ctrl_field: ControlField) -> (r: Result<Self, PacketDecodeError>)
        requires
            _ctrl_field.spec_flags() == 0,
        ensures
            r == Ok::<Self, PacketDecodeError>(DisconnectPacket),
            *final(rd) == *old(rd),
    {
        Ok(DisconnectPacket)
    }
}

impl Encode for DisconnectPacket {
    open spec fn body(&self) -> Seq<u8> {
        Seq::empty()
    }

    open spec fn control_flags(&self) -> u8 {
        0
    }

    open spec fn encodable(&self) -> bool {
        true
    }

    fn is_encodable(&self) -> (r: bool) {
        true
    }

    fn compute_size(&self) -> (r: usize) {
        0
    }

    fn encode(&self, wr: &mut ByteWriter) -> (flags: u8) {
        assert(wr@ =~= wr@ + self.body());
        0
    }
}

/// The broker's answer to a `PINGREQ` packet.
#[derive(Debug, Clone, Copy, PartialEq, Eq, Structural)]
pub struct PingRespPacket;

impl Packet for PingRespPacket {
    open spec fn spec_packet_type() -> PacketType {
        PacketType::PingResp
    }

    fn packet_type() -> (r: PacketType) {
        PacketType::PingResp
    }
}

impl PingRespPacket {
    /// Reads nothing: the packet has no body.
    pub fn decode(rd: &mut ByteReader, _ctrl_field: ControlField) -> (r: Result<Self, PacketDecodeError>)
        ensures
            r == Ok::<Self, PacketDecodeError>(PingRespPacket),
            *final(rd) == *old(rd),
    {
        Ok(PingRespPacket)
    }
}

impl Encode for PingRespPacket {
    open spec fn body(&self) -> Seq<u8> {
        Seq::empty()
    }

    open spec fn control_flags(&self) -> u8 {
        0
    }

    open spec fn encodable(&self) -> bool {
        true
    }

    fn is_encodable(&self) -> (r: bool) {
        true
    }

    fn compute_size(&self) -> (r: usize) {
        0
    }

    fn encode(&self, wr: &mut ByteWriter) -> (flags: u8) {
        assert(wr@ =~= wr@ + self.body());
        0
    }
}

} // verus!
