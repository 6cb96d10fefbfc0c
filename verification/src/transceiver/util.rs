//! Packet IDs with their types.

use vstd::prelude::*;

use super::packets::PacketType;

verus! {

/// Combines a packet ID with its type. Used to index hash maps.
///
/// The implementation provides convenience functions to create
/// instances with the most common [`PacketType`]s.
#[derive(Debug, Clone, Copy, PartialEq, Eq, Hash, Structural)]
pub struct IdType {
    pub ty: PacketType,
    pub id: u16,
}

impl IdType {
    /// The key under which a packet is found in a hash map.
    pub open spec fn spec_key(self) -> u32 {
        (self.ty.spec_id() * 65536 + self.id) as u32
    }

    /// Returns the key under which a packet is found in a hash map.
    pub fn key(self) -> (r: u32)
        ensures
            r == self.spec_key(),
    {
        self.ty.id() as u32 * 65536 + self.id as u32
    }

    /// A `PUBLISH` packet.
    pub open spec fn spec_publish(id: u16) -> Self {
        IdType { ty: PacketType::Publish, id }
    }

    /// A `SUBSCRIBE` packet.
    pub open spec fn spec_subscribe(id: u16) -> Self {
        IdType { ty: PacketType::Subscribe, id }
    }

    /// A `PUBREC` packet.
    pub open spec fn spec_pub_rec(id: u16) -> Self {
        IdType { ty: PacketType::PubRec, id }
    }

    /// A `PUBREL` packet.
    pub open spec fn spec_pub_rel(id: u16) -> Self {
        IdType { ty: PacketType::PubRel, id }
    }

    /// An `UNSUBSCRIBE` packet.
    pub open spec fn spec_unsubscribe(id: u16) -> Self {
        IdType { ty: PacketType::Unsubscribe, id }
    }

    /// A `PUBLISH` packet.
    pub fn publish(id: u16) -> (r: Self)
        ensures
            r == Self::spec_publish(id),
    {
        IdType { ty: PacketType::Publish, id }
    }

    /// A `SUBSCRIBE` packet.
    pub fn subscribe(id: u16) -> (r: Self)
        ensures
            r == Self::spec_subscribe(id),
    {
        IdType { ty: PacketType::Subscribe, id }
    }

    /// A `PUBREC` packet.
    pub fn pub_rec(id: u16) -> (r: Self)
        ensures
            r == Self::spec_pub_rec(id),
    {
        IdType { ty: PacketType::PubRec, id }
    }

    /// A `PUBREL` packet.
    pub fn pub_rel(id: u16) -> (r: Self)
        ensures
            r == Self::spec_pub_rel(id),
    {
        IdType { ty: PacketType::PubRel, id }
    }

    /// An `UNSUBSCRIBE` packet.
    pub fn unsubscribe(id: u16) -> (r: Self)
        ensures
            r == Self::spec_unsubscribe(id),
    {
        IdType { ty: PacketType::Unsubscribe, id }
    }
}

/// Different packets have different keys.
pub proof fn law_keys_are_unique(a: IdType, b: IdType)
    requires
        a.spec_key() == b.spec_key(),
    ensures
        a == b,
{
    assert(a.spec_key() / 65536 == a.ty.spec_id() && a.spec_key() % 65536 == a.id);
    assert(b.spec_key() / 65536 == b.ty.spec_id() && b.spec_key() % 65536 == b.id);
}

/// The packets that are waited for are known by their own types.
pub proof fn law_id_types(id: u16)
    ensures
        IdType::spec_publish(id) == (IdType { ty: PacketType::Publish, id }),
        IdType::spec_subscribe(id) == (IdType { ty: PacketType::Subscribe, id }),
        IdType::spec_pub_rec(id) == (IdType { ty: PacketType::PubRec, id }),
        IdType::spec_pub_rel(id) == (IdType { ty: PacketType::PubRel, id }),
        IdType::spec_unsubscribe(id) == (IdType { ty: PacketType::Unsubscribe, id }),
        IdType::spec_publish(id).spec_key() == 3 * 65536 + id,
        IdType::spec_pub_rec(id).spec_key() == 5 * 65536 + id,
        IdType::spec_pub_rel(id).spec_key() == 6 * 65536 + id,
        IdType::spec_subscribe(id).spec_key() == 8 * 65536 + id,
        IdType::spec_unsubscribe(id).spec_key() == 10 * 65536 + id,
{
}

} // verus!
