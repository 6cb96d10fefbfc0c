//! The packets that a client or a broker can receive.

use vstd::prelude::*;

use super::{parse_conn_ack, parse_connect, parse_publish, parse_sub_ack, parse_subscribe};
use super::{connect_is_supported, filters_are_supported, parse_unsubscribe};
use super::{ConnAckPacket, IncomingConnectPacket, IncomingPublishPacket, IncomingSubscribePacket};
use super::{ConnectView, Filter, PublishView, SubscriptionResult};
use super::{ControlField, Packet, PacketType};
use super::{DisconnectPacket, PingReqPacket, PingRespPacket, UnsubAckPacket};
use super::{IncomingUnsubPacket, SubAckPacket};
use super::{PubAckPacket, PubCompPacket, PubRecPacket, PubRelPacket};
use super::super::byte_io::{parse_u16, ByteReader, Parsed};
use crate::errors::{PacketDecodeError, ServerConnectError};

verus! {

/// What a packet received by a client says.
pub enum PacketView {
    ConnAck(Result<bool, ServerConnectError>),
    SubAck((u16, Seq<SubscriptionResult>)),
    Publish(PublishView),
    PubAck(u16),
    PubRec(u16),
    PubRel(u16),
    PubComp(u16),
    UnsubAck(u16),
    PingResp,
}

/// Reads the packet that follows the specified control field.
pub open spec fn parse_packet(ctrl_field: ControlField, s: Seq<u8>) -> Parsed<PacketView> {
    let id = ctrl_field.spec_packet_type();
    if id == PacketType::ConnAck.spec_id() {
        let (p, rest) = parse_conn_ack(s);
        match p {
            Ok(p) => (Ok(PacketView::ConnAck(p)), rest),
            Err(e) => (Err(e), rest),
        }
    } else if id == PacketType::SubAck.spec_id() {
        let (p, rest) = parse_sub_ack(s);
        match p {
            Ok(p) => (Ok(PacketView::SubAck(p)), rest),
            Err(e) => (Err(e), rest),
        }
    } else if id == PacketType::Publish.spec_id() {
        let (p, rest) = parse_publish(ctrl_field.spec_flags(), s);
        match p {
            Ok(p) => (Ok(PacketView::Publish(p)), rest),
            Err(e) => (Err(e), rest),
        }
    } else if id == PacketType::PubAck.spec_id() {
        let (p, rest) = parse_u16(s);
        match p {
            Ok(p) => (Ok(PacketView::PubAck(p)), rest),
            Err(e) => (Err(e), rest),
        }
    } else if id == PacketType::PubRec.spec_id() {
        let (p, rest) = parse_u16(s);
        match p {
            Ok(p) => (Ok(PacketView::PubRec(p)), rest),
            Err(e) => (Err(e), rest),
        }
    } else if id == PacketType::PubRel.spec_id() {
        let (p, rest) = parse_u16(s);
        match p {
            Ok(p) => (Ok(PacketView::PubRel(p)), rest),
            Err(e) => (Err(e), rest),
        }
    } else if id == PacketType::PubComp.spec_id() {
        let (p, rest) = parse_u16(s);
        match p {
            Ok(p) => (Ok(PacketView::PubComp(p)), rest),
            Err(e) => (Err(e), rest),
        }
    } else if id == PacketType::UnsubAck.spec_id() {
        let (p, rest) = parse_u16(s);
        match p {
            Ok(p) => (Ok(PacketView::UnsubAck(p)), rest),
            Err(e) => (Err(e), rest),
        }
    } else if id == PacketType::PingResp.spec_id() {
        (Ok(PacketView::PingResp), s)
    } else {
        (Err(PacketDecodeError::InvalidPacketId(id)), s)
    }
}

/// An enumeration of all the packets that can possibly be received
/// by an MQTT client.
pub enum IncomingPacket {
    ConnAck(ConnAckPacket),
    SubAck(SubAckPacket),
    Publish(IncomingPublishPacket),
    PubAck(PubAckPacket),
    PubRec(PubRecPacket),
    PubRel(PubRelPacket),
    PubComp(PubCompPacket),
    UnsubAck(UnsubAckPacket),
    PingResp(PingRespPacket),
}

impl View for IncomingPacket {
    type V = PacketView;

    open spec fn view(&self) -> PacketView {
        match *self {
            IncomingPacket::ConnAck(p) => PacketView::ConnAck(p.0),
            IncomingPacket::SubAck(p) => PacketView::SubAck((p.packet_id, p.results())),
            IncomingPacket::Publish(p) => PacketView::Publish(p@),
            IncomingPacket::PubAck(p) => PacketView::PubAck(p.packet_id),
            IncomingPacket::PubRec(p) => PacketView::PubRec(p.packet_id),
            IncomingPacket::PubRel(p) => PacketView::PubRel(p.packet_id),
            IncomingPacket::PubComp(p) => PacketView::PubComp(p.packet_id),
            IncomingPacket::UnsubAck(p) => PacketView::UnsubAck(p.packet_id),
            IncomingPacket::PingResp(_) => PacketView::PingResp,
        }
    }
}

impl IncomingPacket {
    /// The [`PacketType`] of the underlying packet.
    pub open spec fn spec_packet_type(&self) -> PacketType {
        match *self {
            IncomingPacket::ConnAck(_) => PacketType::ConnAck,
            IncomingPacket::SubAck(_) => PacketType::SubAck,
            IncomingPacket::Publish(_) => PacketType::Publish,
            IncomingPacket::PubAck(_) => PacketType::PubAck,
            IncomingPacket::PubRec(_) => PacketType::PubRec,
            IncomingPacket::PubRel(_) => PacketType::PubRel,
            IncomingPacket::PubComp(_) => PacketType::PubComp,
            IncomingPacket::UnsubAck(_) => PacketType::UnsubAck,
            IncomingPacket::PingResp(_) => PacketType::PingResp,
        }
    }

    /// Attempts to parse the bytes from the specified [`ByteReader`] into a packet
    /// struct that corresponds to the packet ID contained in the specified [`ControlField`].
    pub fn from_bytes(rd: &mut ByteReader, ctrl_field: ControlField) -> (r: Result<
        Self,
        PacketDecodeError,
    >)
        ensures
            match parse_packet(ctrl_field, old(rd)@).0 {
                Ok(v) => r matches Ok(p) && p@ == v && p.spec_packet_type().spec_id()
                    == ctrl_field.spec_packet_type(),
                Err(e) => r == Err::<Self, PacketDecodeError>(e),
            },
            final(rd)@ == parse_packet(ctrl_field, old(rd)@).1,
    {
        match ctrl_field.packet_type() {
            2 => Ok(IncomingPacket::ConnAck(ConnAckPacket::decode(rd, ctrl_field)?)),
            9 => Ok(IncomingPacket::SubAck(SubAckPacket::decode(rd, ctrl_field)?)),
            3 => Ok(IncomingPacket::Publish(IncomingPublishPacket::decode(rd, ctrl_field)?)),
            4 => Ok(IncomingPacket::PubAck(PubAckPacket::decode(rd, ctrl_field)?)),
            5 => Ok(IncomingPacket::PubRec(PubRecPacket::decode(rd, ctrl_field)?)),
            6 => Ok(IncomingPacket::PubRel(PubRelPacket::decode(rd, ctrl_field)?)),
            7 => Ok(IncomingPacket::PubComp(PubCompPacket::decode(rd, ctrl_field)?)),
            11 => Ok(IncomingPacket::UnsubAck(UnsubAckPacket::decode(rd, ctrl_field)?)),
            13 => Ok(IncomingPacket::PingResp(PingRespPacket::decode(rd, ctrl_field)?)),
            id => Err(PacketDecodeError::InvalidPacketId(id)),
        }
    }

    /// Returns the [`PacketType`] of the underlying packet.
    pub fn packet_type(&self) -> (r: PacketType)
        ensures
            r == self.spec_packet_type(),
    {
        match self {
            IncomingPacket::ConnAck(_) => ConnAckPacket::packet_type(),
            IncomingPacket::SubAck(_) => SubAckPacket::packet_type(),
            IncomingPacket::Publish(_) => IncomingPublishPacket::packet_type(),
            IncomingPacket::PubAck(_) => PubAckPacket::packet_type(),
            IncomingPacket::PubRec(_) => PubRecPacket::packet_type(),
            IncomingPacket::PubRel(_) => PubRelPacket::packet_type(),
            IncomingPacket::PubComp(_) => PubCompPacket::packet_type(),
            IncomingPacket::UnsubAck(_) => UnsubAckPacket::packet_type(),
            IncomingPacket::PingResp(_) => PingRespPacket::packet_type(),
        }
    }
}

/// Whether the packet that follows `ctrl_field` is one that a broker of this protocol
/// can take: the control flags are the prescribed ones, and so are the protocol's name
/// and level and the qualities of service.
pub open spec fn broker_supports(ctrl_field: ControlField, s: Seq<u8>) -> bool {
    let id = ctrl_field.spec_packet_type();
    let flags = ctrl_field.spec_flags();
    &&& id == PacketType::Connect.spec_id() ==> flags == 0 && connect_is_supported(s)
    &&& id == PacketType::Subscribe.spec_id() ==> flags == 2 && (s.len() >= 2
        ==> filters_are_supported(s.skip(2)))
    &&& id == PacketType::Unsubscribe.spec_id() ==> flags == 2
    &&& id == PacketType::PingReq.spec_id() ==> flags == 0
    &&& id == PacketType::Disconnect.spec_id() ==> flags == 0
}

/// What a packet received by a broker says.
pub enum BrokerPacketView {
    Connect(ConnectView),
    Subscribe((u16, Seq<Filter>)),
    Publish(PublishView),
    PubAck(u16),
    PubRec(u16),
    PubRel(u16),
    PubComp(u16),
    Unsubscribe((u16, Seq<Seq<char>>)),
    PingReq,
    Disconnect,
}

/// Reads the packet that follows the specified control field.
pub open spec fn parse_broker_packet(ctrl_field: ControlField, s: Seq<u8>) -> Parsed<BrokerPacketView> {
    let id = ctrl_field.spec_packet_type();
    if id == PacketType::Connect.spec_id() {
        let (p, rest) = parse_connect(s);
        match p {
            Ok(p) => (Ok(BrokerPacketView::Connect(p)), rest),
            Err(e) => (Err(e), rest),
        }
    } else if id == PacketType::Subscribe.spec_id() {
        let (p, rest) = parse_subscribe(s);
        match p {
            Ok(p) => (Ok(BrokerPacketView::Subscribe(p)), rest),
            Err(e) => (Err(e), rest),
        }
    } else if id == PacketType::Publish.spec_id() {
        let (p, rest) = parse_publish(ctrl_field.spec_flags(), s);
        match p {
            Ok(p) => (Ok(BrokerPacketView::Publish(p)), rest),
            Err(e) => (Err(e), rest),
        }
    } else if id == PacketType::PubAck.spec_id() {
        let (p, rest) = parse_u16(s);
        match p {
            Ok(p) => (Ok(BrokerPacketView::PubAck(p)), rest),
            Err(e) => (Err(e), rest),
        }
    } else if id == PacketType::PubRec.spec_id() {
        let (p, rest) = parse_u16(s);
        match p {
            Ok(p) => (Ok(BrokerPacketView::PubRec(p)), rest),
            Err(e) => (Err(e), rest),
        }
    } else if id == PacketType::PubRel.spec_id() {
        let (p, rest) = parse_u16(s);
        match p {
            Ok(p) => (Ok(BrokerPacketView::PubRel(p)), rest),
            Err(e) => (Err(e), rest),
        }
    } else if id == PacketType::PubComp.spec_id() {
        let (p, rest) = parse_u16(s);
        match p {
            Ok(p) => (Ok(BrokerPacketView::PubComp(p)), rest),
            Err(e) => (Err(e), rest),
        }
    } else if id == PacketType::Unsubscribe.spec_id() {
        let (p, rest) = parse_unsubscribe(s);
        match p {
            Ok(p) => (Ok(BrokerPacketView::Unsubscribe(p)), rest),
            Err(e) => (Err(e), rest),
        }
    } else if id == PacketType::PingReq.spec_id() {
        (Ok(BrokerPacketView::PingReq), s)
    } else if id == PacketType::Disconnect.spec_id() {
        (Ok(BrokerPacketView::Disconnect), s)
    } else {
        (Err(PacketDecodeError::InvalidPacketId(id)), s)
    }
}

/// An enumeration of all the packets that can possibly be received
/// by an MQTT broker.
pub enum IncomingBrokerPacket {
    Connect(IncomingConnectPacket),
    Subscribe(IncomingSubscribePacket),
    Publish(IncomingPublishPacket),
    PubAck(PubAckPacket),
    PubRec(PubRecPacket),
    PubRel(PubRelPacket),
    PubComp(PubCompPacket),
    Unsubscribe(IncomingUnsubPacket),
    PingReq(PingReqPacket),
    Disconnect(DisconnectPacket),
}

impl View for IncomingBrokerPacket {
    type V = BrokerPacketView;

    open spec fn view(&self) -> BrokerPacketView {
        match *self {
            IncomingBrokerPacket::Connect(p) => BrokerPacketView::Connect(p@),
            IncomingBrokerPacket::Subscribe(p) => BrokerPacketView::Subscribe((p.packet_id, p.filters())),
            IncomingBrokerPacket::Publish(p) => BrokerPacketView::Publish(p@),
            IncomingBrokerPacket::PubAck(p) => BrokerPacketView::PubAck(p.packet_id),
            IncomingBrokerPacket::PubRec(p) => BrokerPacketView::PubRec(p.packet_id),
            IncomingBrokerPacket::PubRel(p) => BrokerPacketView::PubRel(p.packet_id),
            IncomingBrokerPacket::PubComp(p) => BrokerPacketView::PubComp(p.packet_id),
            IncomingBrokerPacket::Unsubscribe(p) => BrokerPacketView::Unsubscribe((p.packet_id, p.names())),
            IncomingBrokerPacket::PingReq(_) => BrokerPacketView::PingReq,
            IncomingBrokerPacket::Disconnect(_) => BrokerPacketView::Disconnect,
        }
    }
}

impl IncomingBrokerPacket {
    /// The [`PacketType`] of the underlying packet.
    pub open spec fn spec_packet_type(&self) -> PacketType {
        match *self {
            IncomingBrokerPacket::Connect(_) => PacketType::Connect,
            IncomingBrokerPacket::Subscribe(_) => PacketType::Subscribe,
            IncomingBrokerPacket::Publish(_) => PacketType::Publish,
            IncomingBrokerPacket::PubAck(_) => PacketType::PubAck,
            IncomingBrokerPacket::PubRec(_) => PacketType::PubRec,
            IncomingBrokerPacket::PubRel(_) => PacketType::PubRel,
            IncomingBrokerPacket::PubComp(_) => PacketType::PubComp,
            IncomingBrokerPacket::Unsubscribe(_) => PacketType::Unsubscribe,
            IncomingBrokerPacket::PingReq(_) => PacketType::PingReq,
            IncomingBrokerPacket::Disconnect(_) => PacketType::Disconnect,
        }
    }

    /// Attempts to parse the bytes from the specified [`ByteReader`] into a packet
    /// struct that corresponds to the packet ID contained in the specified [`ControlField`].
    pub fn from_bytes(rd: &mut ByteReader, ctrl_field: ControlField) -> (r: Result<
        Self,
        PacketDecodeError,
    >)
        requires
            broker_supports(ctrl_field, old(rd)@),
        ensures
            match parse_broker_packet(ctrl_field, old(rd)@).0 {
                Ok(v) => r matches Ok(p) && p@ == v && p.spec_packet_type().spec_id()
                    == ctrl_field.spec_packet_type(),
                Err(e) => r == Err::<Self, PacketDecodeError>(e),
            },
            final(rd)@ == parse_broker_packet(ctrl_field, old(rd)@).1,
    {
        match ctrl_field.packet_type() {
            1 => Ok(IncomingBrokerPacket::Connect(IncomingConnectPacket::decode(rd, ctrl_field)?)),
            8 => Ok(IncomingBrokerPacket::Subscribe(IncomingSubscribePacket::decode(rd, ctrl_field)?)),
            3 => Ok(IncomingBrokerPacket::Publish(IncomingPublishPacket::decode(rd, ctrl_field)?)),
            4 => Ok(IncomingBrokerPacket::PubAck(PubAckPacket::decode(rd, ctrl_field)?)),
            5 => Ok(IncomingBrokerPacket::PubRec(PubRecPacket::decode(rd, ctrl_field)?)),
            6 => Ok(IncomingBrokerPacket::PubRel(PubRelPacket::decode(rd, ctrl_field)?)),
            7 => Ok(IncomingBrokerPacket::PubComp(PubCompPacket::decode(rd, ctrl_field)?)),
            10 => Ok(IncomingBrokerPacket::Unsubscribe(IncomingUnsubPacket::decode(rd, ctrl_field)?)),
            12 => Ok(IncomingBrokerPacket::PingReq(PingReqPacket::decode(rd, ctrl_field)?)),
            14 => Ok(IncomingBrokerPacket::Disconnect(DisconnectPacket::decode(rd, ctrl_field)?)),
            id => Err(PacketDecodeError::InvalidPacketId(id)),
        }
    }

    /// Returns the [`PacketType`] of the underlying packet.
    pub fn packet_type(&self) -> (r: PacketType)
        ensures
            r == self.spec_packet_type(),
    {
        match self {
            IncomingBrokerPacket::Connect(_) => IncomingConnectPacket::packet_type(),
            IncomingBrokerPacket::Subscribe(_) => IncomingSubscribePacket::packet_type(),
            IncomingBrokerPacket::Publish(_) => IncomingPublishPacket::packet_type(),
            IncomingBrokerPacket::PubAck(_) => PubAckPacket::packet_type(),
            IncomingBrokerPacket::PubRec(_) => PubRecPacket::packet_type(),
            IncomingBrokerPacket::PubRel(_) => PubRelPacket::packet_type(),
            IncomingBrokerPacket::PubComp(_) => PubCompPacket::packet_type(),
            IncomingBrokerPacket::Unsubscribe(_) => IncomingUnsubPacket::packet_type(),
            IncomingBrokerPacket::PingReq(_) => PingReqPacket::packet_type(),
            IncomingBrokerPacket::Disconnect(_) => DisconnectPacket::packet_type(),
        }
    }
}

} // verus!
