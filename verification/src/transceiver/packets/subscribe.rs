//! The packets that make and end subscriptions.

use vstd::prelude::*;
use vstd::slice::slice_subrange;
use vstd::utf8::encode_utf8;

use super::connect::array_size;
use super::{ControlField, Encode, Packet, PacketType, MAX_BODY_SIZE};
use super::super::byte_io::{be_bytes, law_u16_round_trip, law_utf8_round_trip};
use super::super::byte_io::{parse_u16, parse_u8, parse_utf8, with_len};
use super::super::byte_io::{BigEndian, ByteReader, ByteWriter, Parsed};
use crate::errors::PacketDecodeError;
use crate::QoS;

verus! {

/// A topic to subscribe to, with the quality of service that is asked for.
pub type Filter = (Seq<char>, QoS);

/// Topics to subscribe to, as they stand in a `SUBSCRIBE` packet.
pub open spec fn filters_bytes(filters: Seq<Filter>) -> Seq<u8>
    decreases filters.len(),
{
    if filters.len() == 0 {
        Seq::empty()
    } else {
        with_len(encode_utf8(filters[0].0)) + seq![filters[0].1.spec_code()] + filters_bytes(
            filters.skip(1),
        )
    }
}

/// Reads topics to subscribe to until nothing is left, after those in `found`.
pub open spec fn parse_filters(s: Seq<u8>, found: Seq<Filter>) -> Parsed<Seq<Filter>>
    decreases s.len(),
{
    if s.len() == 0 {
        (Ok(found), s)
    } else {
        let (topic, rest) = parse_utf8(s);
        match topic {
            Err(e) => (Err(e), rest),
            Ok(topic) => {
                let (qos, rest) = parse_u8(rest);
                match qos {
                    Err(e) => (Err(e), rest),
                    Ok(qos) => parse_filters(rest, found.push((topic, QoS::spec_from_code(qos)->0))),
                }
            },
        }
    }
}

/// Whether each topic that can be read from `s` comes with a quality of service.
pub open spec fn filters_are_supported(s: Seq<u8>) -> bool
    decreases s.len(),
{
    if s.len() == 0 {
        true
    } else {
        let (topic, rest) = parse_utf8(s);
        topic is Ok ==> {
            let (qos, rest) = parse_u8(rest);
            qos matches Ok(qos) ==> QoS::spec_from_code(qos) is Some && filters_are_supported(rest)
        }
    }
}

/// Reads the body of a `SUBSCRIBE` packet: its packet ID and its topics.
pub open spec fn parse_subscribe(s: Seq<u8>) -> Parsed<(u16, Seq<Filter>)> {
    let (packet_id, rest) = parse_u16(s);
    match packet_id {
        Err(e) => (Err(e), rest),
        Ok(packet_id) => {
            let (filters, rest) = parse_filters(rest, Seq::empty());
            match filters {
                Err(e) => (Err(e), rest),
                Ok(filters) => (Ok((packet_id, filters)), rest),
            }
        },
    }
}

/// Asks the broker for the messages of some topics.
pub struct SubscribePacket<'a> {
    pub packet_id: u16,
    pub topics: &'a [(&'a str, QoS)],
}

impl<'a> SubscribePacket<'a> {
    /// The topics to subscribe to.
    pub open spec fn filters(&self) -> Seq<Filter> {
        Seq::new(self.topics@.len(), |i: int| (self.topics@[i].0@, self.topics@[i].1))
    }

    /// The filters from the `i`th on are the `i`th followed by those after it.
    proof fn lemma_step(&self, i: int)
        requires
            0 <= i < self.topics@.len(),
        ensures
            filters_bytes(self.filters().skip(i)) == with_len(encode_utf8(self.topics@[i].0@))
                + seq![self.topics@[i].1.spec_code()] + filters_bytes(self.filters().skip(i + 1)),
    {
        assert(self.filters().skip(i).skip(1) =~= self.filters().skip(i + 1));
    }
}

impl<'a> Packet for SubscribePacket<'a> {
    open spec fn spec_packet_type() -> PacketType {
        PacketType::Subscribe
    }

    fn packet_type() -> (r: PacketType) {
        PacketType::Subscribe
    }
}

impl<'a> Encode for SubscribePacket<'a> {
    open spec fn body(&self) -> Seq<u8> {
        be_bytes(self.packet_id) + filters_bytes(self.filters())
    }

    open spec fn control_flags(&self) -> u8 {
        2
    }

    open spec fn encodable(&self) -> bool {
        &&& forall|i: int|
            0 <= i < self.topics@.len() ==> encode_utf8(#[trigger] self.topics@[i].0@).len()
                <= u16::MAX
        &&& self.body().len() <= MAX_BODY_SIZE
    }

    fn is_encodable(&self) -> (r: bool) {
        let mut size: usize = 2;
        let mut i: usize = 0;
        assert(self.filters().skip(0) =~= self.filters());
        while i < self.topics.len()
            invariant
                i <= self.topics@.len(),
                size <= MAX_BODY_SIZE,
                forall|j: int|
                    0 <= j < i ==> encode_utf8(#[trigger] self.topics@[j].0@).len() <= u16::MAX,
                self.body().len() == size + filters_bytes(self.filters().skip(i as int)).len(),
            decreases self.topics@.len() - i,
        {
            proof {
                self.lemma_step(i as int);
            }
            let len: usize = self.topics[i].0.as_bytes().len();
            if len > 65535 {
                return false;
            }
            size = size + 2 + len + 1;
            if size > MAX_BODY_SIZE {
                return false;
            }
            i += 1;
        }
        assert(self.filters().skip(i as int) =~= Seq::empty());
        true
    }

    fn compute_size(&self) -> (r: usize) {
        let mut ret: usize = 2;
        let mut i: usize = 0;
        assert(self.filters().skip(0) =~= self.filters());
        while i < self.topics.len()
            invariant
                i <= self.topics@.len(),
                self.encodable(),
                self.body().len() == ret + filters_bytes(self.filters().skip(i as int)).len(),
            decreases self.topics@.len() - i,
        {
            proof {
                self.lemma_step(i as int);
            }
            ret += array_size(self.topics[i].0.as_bytes());
            ret += 1;
            i += 1;
        }
        assert(self.filters().skip(i as int) =~= Seq::empty());
        ret
    }

    fn encode(&self, wr: &mut ByteWriter) -> (flags: u8) {
        wr.write_u16(BigEndian::from_native(self.packet_id));
        let mut i: usize = 0;
        assert(self.filters().skip(0) =~= self.filters());
        assert(wr@ + filters_bytes(self.filters()) =~= old(wr)@ + self.body());
        while i < self.topics.len()
            invariant
                i <= self.topics@.len(),
                self.encodable(),
                wr@ + filters_bytes(self.filters().skip(i as int)) == old(wr)@ + self.body(),
                wr.space() - filters_bytes(self.filters().skip(i as int)).len() == old(wr).space()
                    - self.body().len(),
                old(wr).space() >= self.body().len(),
            decreases self.topics@.len() - i,
        {
            proof {
                self.lemma_step(i as int);
            }
            let ghost before = wr@;
            let (topic, qos) = self.topics[i];
            wr.write_bytes(topic.as_bytes()).write_u8(qos.code());
            i += 1;
            assert(wr@ + filters_bytes(self.filters().skip(i as int)) =~= before + filters_bytes(
                self.filters().skip(i - 1),
            ));
        }
        assert(self.filters().skip(i as int) =~= Seq::empty());
        assert(wr@ =~= old(wr)@ + self.body());
        2
    }
}

/// A `SUBSCRIBE` packet as the broker reads it.
pub struct IncomingSubscribePacket {
    pub packet_id: u16,
    pub topics: Vec<(String, QoS)>,
}

impl IncomingSubscribePacket {
    /// The topics to subscribe to.
    pub open spec fn filters(&self) -> Seq<Filter> {
        Seq::new(self.topics@.len(), |i: int| (self.topics@[i].0@, self.topics@[i].1))
    }

    /// Reads the body of a `SUBSCRIBE` packet.
    pub fn decode(rd: &mut ByteReader, ctrl_field: ControlField) -> (r: Result<
        Self,
        PacketDecodeError,
    >)
        requires
            ctrl_field.spec_flags() == 2,
            old(rd)@.len() >= 2 ==> filters_are_supported(old(rd)@.skip(2)),
        ensures
            match parse_subscribe(old(rd)@).0 {
                Ok((packet_id, filters)) => r matches Ok(p) && p.packet_id == packet_id
                    && p.filters() == filters,
                Err(e) => r == Err::<Self, PacketDecodeError>(e),
            },
            final(rd)@ == parse_subscribe(old(rd)@).1,
    {
        let packet_id: u16 = rd.read_u16()?.to_native();
        let mut ret = IncomingSubscribePacket { packet_id, topics: Vec::new() };
        let ghost start = rd@;
        assert(ret.filters() =~= Seq::empty());
        while rd.remaining() > 0
            invariant
                ret.packet_id == packet_id,
                filters_are_supported(rd@),
                parse_filters(rd@, ret.filters()) == parse_filters(start, Seq::empty()),
                parse_u16(old(rd)@) == (Ok::<u16, PacketDecodeError>(packet_id), start),
            decreases rd@.len(),
        {
            let ghost before = ret.filters();
            let topic = rd.read_utf8()?.to_owned();
            let code: u8 = rd.read_u8()?;
            if let Some(qos) = QoS::from_code(code) {
                ret.topics.push((topic, qos));
                assert(ret.filters() =~= before.push((topic@, qos)));
            }
        }
        Ok(ret)
    }
}

impl Packet for IncomingSubscribePacket {
    open spec fn spec_packet_type() -> PacketType {
        PacketType::Subscribe
    }

    fn packet_type() -> (r: PacketType) {
        PacketType::Subscribe
    }
}

proof fn lemma_filters_round_trip(filters: Seq<Filter>, found: Seq<Filter>)
    requires
        forall|i: int|
            0 <= i < filters.len() ==> encode_utf8(#[trigger] filters[i].0).len() <= u16::MAX,
    ensures
        filters_are_supported(filters_bytes(filters)),
        parse_filters(filters_bytes(filters), found) == (
            Ok::<Seq<Filter>, PacketDecodeError>(found + filters),
            Seq::<u8>::empty(),
        ),
    decreases filters.len(),
{
    let s = filters_bytes(filters);
    if filters.len() == 0 {
        assert(found + filters =~= found);
    } else {
        let rest = filters_bytes(filters.skip(1));
        let code = filters[0].1.spec_code();
        let after_topic = seq![code] + rest;
        assert(s =~= with_len(encode_utf8(filters[0].0)) + after_topic);
        law_utf8_round_trip(filters[0].0, after_topic);
        assert(after_topic.skip(1) =~= rest);
        lemma_filters_round_trip(filters.skip(1), found.push(filters[0]));
        assert(found.push(filters[0]) + filters.skip(1) =~= found + filters);
    }
}

/// What a broker reads out of a client's `SUBSCRIBE` packet is what the client put in.
pub proof fn law_subscribe_round_trip(packet_id: u16, filters: Seq<Filter>)
    requires
        forall|i: int|
            0 <= i < filters.len() ==> encode_utf8(#[trigger] filters[i].0).len() <= u16::MAX,
    ensures
        filters_are_supported(filters_bytes(filters)),
        parse_subscribe(be_bytes(packet_id) + filters_bytes(filters)) == (
            Ok::<(u16, Seq<Filter>), PacketDecodeError>((packet_id, filters)),
            Seq::<u8>::empty(),
        ),
{
    law_u16_round_trip(packet_id, filters_bytes(filters));
    lemma_filters_round_trip(filters, Seq::empty());
    assert(Seq::<Filter>::empty() + filters =~= filters);
}

/// The broker's answer for one topic: the quality of service that it granted, or a refusal.
pub type SubscriptionResult = Result<QoS, ()>;

/// How many results fit where a [`Vec`] would stand: two machine words, one byte each.
pub const MAX_STATIC_SUBS: usize = 16;

/// A list of [`SubscriptionResult`] that is allocated either statically (using a
/// fixed-size slice) or dynamically (using a [`Vec`]). This prevents unncessary
/// memory allocations as [`SubscriptionResult`]s are rather small (1 byte) and
/// most of the time a [`SubAckPacket`] only contains a few values.
pub enum SubscriptionResultList {
    Static { len: usize, values: [SubscriptionResult; 16] },
    Dynamic(Vec<SubscriptionResult>),
}

impl View for SubscriptionResultList {
    type V = Seq<SubscriptionResult>;

    /// The results; a static list has room for no more than [`MAX_STATIC_SUBS`].
    open spec fn view(&self) -> Seq<SubscriptionResult> {
        match *self {
            SubscriptionResultList::Static { len, values } => if len <= MAX_STATIC_SUBS {
                values@.take(len as int)
            } else {
                values@
            },
            SubscriptionResultList::Dynamic(d) => d@,
        }
    }
}

impl SubscriptionResultList {
    /// Copies the specified results.
    fn from_slice(results: &[SubscriptionResult]) -> (r: Self)
        ensures
            r@ == results@,
    {
        if results.len() <= MAX_STATIC_SUBS {
            let len: usize = results.len();
            let mut values: [SubscriptionResult; 16] = [Err(());16];
            let mut i: usize = 0;
            while i < len
                invariant
                    i <= len,
                    len == results@.len(),
                    len <= 16,
                    values@.take(i as int) == results@.take(i as int),
                decreases len - i,
            {
                values[i] = results[i];
                i += 1;
                assert(values@.take(i as int) =~= results@.take(i as int));
            }
            assert(results@.take(len as int) =~= results@);
            SubscriptionResultList::Static { len, values }
        } else {
            let mut d: Vec<SubscriptionResult> = Vec::with_capacity(results.len());
            let mut i: usize = 0;
            while i < results.len()
                invariant
                    i <= results@.len(),
                    d@ == results@.take(i as int),
                decreases results@.len() - i,
            {
                d.push(results[i]);
                i += 1;
                assert(d@ =~= results@.take(i as int));
            }
            assert(results@.take(i as int) =~= results@);
            SubscriptionResultList::Dynamic(d)
        }
    }
}

/// The byte that stands for a result in a `SUBACK` packet.
pub open spec fn sub_result_byte(r: SubscriptionResult) -> u8 {
    match r {
        Ok(qos) => qos.spec_code(),
        Err(_) => 128,
    }
}

/// The result that a byte in a `SUBACK` packet stands for, if it stands for one.
pub open spec fn sub_result_of(b: u8) -> Option<SubscriptionResult> {
    if b == 128 {
        Some(Err(()))
    } else {
        match QoS::spec_from_code(b) {
            Some(qos) => Some(Ok(qos)),
            None => None,
        }
    }
}

/// Reads the body of a `SUBACK` packet: its packet ID and its results.
pub open spec fn parse_sub_ack(s: Seq<u8>) -> Parsed<(u16, Seq<SubscriptionResult>)> {
    let (packet_id, rest) = parse_u16(s);
    match packet_id {
        Err(e) => (Err(e), rest),
        Ok(packet_id) => if forall|i: int|
            0 <= i < rest.len() ==> sub_result_of(#[trigger] rest[i]) is Some {
            (Ok((packet_id, rest.map_values(|b: u8| sub_result_of(b)->0))), Seq::empty())
        } else {
            (Err(PacketDecodeError::MalformedPacket), Seq::empty())
        },
    }
}

/// The broker's answer to a `SUBSCRIBE` packet.
pub struct SubAckPacket {
    pub packet_id: u16,
    pub sub_results: SubscriptionResultList,
}

impl Packet for SubAckPacket {
    open spec fn spec_packet_type() -> PacketType {
        PacketType::SubAck
    }

    fn packet_type() -> (r: PacketType) {
        PacketType::SubAck
    }
}

/// Reads the byte that stands for a result.
fn parse_sub_result(r: u8) -> (res: Result<SubscriptionResult, PacketDecodeError>)
    ensures
        match sub_result_of(r) {
            Some(x) => res == Ok::<SubscriptionResult, PacketDecodeError>(x),
            None => res == Err::<SubscriptionResult, PacketDecodeError>(
                PacketDecodeError::MalformedPacket,
            ),
        },
{
    match r {
        0 => Ok(Ok(QoS::AtMostOnce)),
        1 => Ok(Ok(QoS::AtLeastOnce)),
        2 => Ok(Ok(QoS::ExactlyOnce)),
        128 => Ok(Err(())),
        _ => Err(PacketDecodeError::MalformedPacket),
    }
}

impl SubAckPacket {
    /// One result for each topic of the `SUBSCRIBE` packet, in its order.
    pub open spec fn results(&self) -> Seq<SubscriptionResult> {
        self.sub_results@
    }

    /// Instantiates a new packet with the specified results.
    pub fn new(packet_id: u16, results: &[SubscriptionResult]) -> (r: Self)
        ensures
            r.packet_id == packet_id,
            r.results() == results@,
    {
        SubAckPacket { packet_id, sub_results: SubscriptionResultList::from_slice(results) }
    }

    /// Returns one result for each topic of the `SUBSCRIBE` packet, in its order.
    pub fn sub_results(&self) -> (r: &[SubscriptionResult])
        ensures
            r@ == self.results(),
    {
        match &self.sub_results {
            SubscriptionResultList::Static { len, values } => if *len <= MAX_STATIC_SUBS {
                slice_subrange(values.as_slice(), 0, *len)
            } else {
                values.as_slice()
            },
            SubscriptionResultList::Dynamic(d) => d.as_slice(),
        }
    }

    /// Reads the body of a `SUBACK` packet.
    pub fn decode(rd: &mut ByteReader, _ctrl_field: ControlField) -> (r: Result<
        Self,
        PacketDecodeError,
    >)
        ensures
            match parse_sub_ack(old(rd)@).0 {
                Ok((packet_id, results)) => r matches Ok(p) && p.packet_id == packet_id
                    && p.results() == results,
                Err(e) => r == Err::<Self, PacketDecodeError>(e),
            },
            final(rd)@ == parse_sub_ack(old(rd)@).1,
    {
        let packet_id: u16 = rd.read_u16()?.to_native();
        let bytes = rd.read_remaining();
        let num_results: usize = bytes.len();
        let ghost expected = bytes@.map_values(|b: u8| sub_result_of(b)->0);
        let mut i: usize = 0;
        let sub_results = if num_results <= MAX_STATIC_SUBS {
            let mut values: [SubscriptionResult; 16] = [Err(());16];
            while i < num_results
                invariant
                    i <= num_results,
                    num_results == bytes@.len(),
                    num_results <= 16,
                    expected == bytes@.map_values(|b: u8| sub_result_of(b)->0),
                    forall|j: int| 0 <= j < i ==> sub_result_of(#[trigger] bytes@[j]) is Some,
                    values@.take(i as int) == expected.take(i as int),
                    parse_u16(old(rd)@) == (Ok::<u16, PacketDecodeError>(packet_id), bytes@),
                    rd@ == Seq::<u8>::empty(),
                decreases num_results - i,
            {
                values[i] = parse_sub_result(bytes[i])?;
                i += 1;
                assert(values@.take(i as int) =~= expected.take(i as int));
            }
            SubscriptionResultList::Static { len: num_results, values }
        } else {
            let mut values: Vec<SubscriptionResult> = Vec::with_capacity(num_results);
            while i < num_results
                invariant
                    i <= num_results,
                    num_results == bytes@.len(),
                    expected == bytes@.map_values(|b: u8| sub_result_of(b)->0),
                    forall|j: int| 0 <= j < i ==> sub_result_of(#[trigger] bytes@[j]) is Some,
                    values@ == expected.take(i as int),
                    parse_u16(old(rd)@) == (Ok::<u16, PacketDecodeError>(packet_id), bytes@),
                    rd@ == Seq::<u8>::empty(),
                decreases num_results - i,
            {
                values.push(parse_sub_result(bytes[i])?);
                i += 1;
                assert(values@ =~= expected.take(i as int));
            }
            SubscriptionResultList::Dynamic(values)
        };
        assert(expected.take(i as int) =~= expected);
        Ok(SubAckPacket { packet_id, sub_results })
    }
}

impl Encode for SubAckPacket {
    open spec fn body(&self) -> Seq<u8> {
        be_bytes(self.packet_id) + self.results().map_values(
            |r: SubscriptionResult| sub_result_byte(r),
        )
    }

    open spec fn control_flags(&self) -> u8 {
        0
    }

    open spec fn encodable(&self) -> bool {
        self.body().len() <= MAX_BODY_SIZE
    }

    fn is_encodable(&self) -> (r: bool) {
        self.sub_results().len() <= MAX_BODY_SIZE - 2
    }

    fn compute_size(&self) -> (r: usize) {
        self.sub_results().len() + 2
    }

    fn encode(&self, wr: &mut ByteWriter) -> (flags: u8) {
        wr.write_u16(BigEndian::from_native(self.packet_id));
        let results = self.sub_results();
        let ghost bytes = results@.map_values(|r: SubscriptionResult| sub_result_byte(r));
        let mut i: usize = 0;
        assert(wr@ =~= old(wr)@ + be_bytes(self.packet_id) + bytes.take(0));
        while i < results.len()
            invariant
                i <= results@.len(),
                bytes == results@.map_values(|r: SubscriptionResult| sub_result_byte(r)),
                wr@ == old(wr)@ + be_bytes(self.packet_id) + bytes.take(i as int),
                wr.space() == old(wr).space() - 2 - i,
                old(wr).space() >= 2 + results@.len(),
            decreases results@.len() - i,
        {
            let ghost before = wr@;
            match results[i] {
                Ok(qos) => {
                    wr.write_u8(qos.code());
                },
                Err(()) => {
                    wr.write_u8(128);
                },
            }
            i += 1;
            assert(bytes.take(i as int) =~= bytes.take(i - 1).push(bytes[i - 1]));
            assert(wr@ =~= old(wr)@ + be_bytes(self.packet_id) + bytes.take(i as int));
        }
        assert(bytes.take(i as int) =~= bytes);
        assert(wr@ =~= old(wr)@ + self.body());
        0
    }
}

/// What the client reads out of a broker's `SUBACK` packet is what the broker put in.
pub proof fn law_sub_ack_round_trip(packet_id: u16, results: Seq<SubscriptionResult>)
    ensures
        parse_sub_ack(
            be_bytes(packet_id) + results.map_values(|r: SubscriptionResult| sub_result_byte(r)),
        ) == (
            Ok::<(u16, Seq<SubscriptionResult>), PacketDecodeError>((packet_id, results)),
            Seq::<u8>::empty(),
        ),
{
    let bytes = results.map_values(|r: SubscriptionResult| sub_result_byte(r));
    law_u16_round_trip(packet_id, bytes);
    assert forall|i: int| 0 <= i < results.len() implies sub_result_of(#[trigger] bytes[i]) == Some(
        results[i],
    ) by {
        match results[i] {
            Ok(qos) => {},
            Err(u) => {
                assert(u == ());
            },
        }
    }
    assert(bytes.map_values(|b: u8| sub_result_of(b)->0) =~= results);
}

/// Topics to unsubscribe from, as they stand in an `UNSUBSCRIBE` packet.
pub open spec fn topics_bytes(topics: Seq<Seq<char>>) -> Seq<u8>
    decreases topics.len(),
{
    if topics.len() == 0 {
        Seq::empty()
    } else {
        with_len(encode_utf8(topics[0])) + topics_bytes(topics.skip(1))
    }
}

/// Reads topics to unsubscribe from until nothing is left, after those in `found`.
pub open spec fn parse_topics(s: Seq<u8>, found: Seq<Seq<char>>) -> Parsed<Seq<Seq<char>>>
    decreases s.len(),
{
    if s.len() == 0 {
        (Ok(found), s)
    } else {
        let (topic, rest) = parse_utf8(s);
        match topic {
            Err(e) => (Err(e), rest),
            Ok(topic) => parse_topics(rest, found.push(topic)),
        }
    }
}

/// Reads the body of an `UNSUBSCRIBE` packet: its packet ID and its topics.
pub open spec fn parse_unsubscribe(s: Seq<u8>) -> Parsed<(u16, Seq<Seq<char>>)> {
    let (packet_id, rest) = parse_u16(s);
    match packet_id {
        Err(e) => (Err(e), rest),
        Ok(packet_id) => {
            let (topics, rest) = parse_topics(rest, Seq::empty());
            match topics {
                Err(e) => (Err(e), rest),
                Ok(topics) => (Ok((packet_id, topics)), rest),
            }
        },
    }
}

/// Tells the broker that the messages of some topics are not wanted any more.
pub struct UnsubscribePacket<'a> {
    pub packet_id: u16,
    pub topics: &'a [&'a str],
}

impl<'a> UnsubscribePacket<'a> {
    /// The topics to unsubscribe from.
    pub open spec fn names(&self) -> Seq<Seq<char>> {
        Seq::new(self.topics@.len(), |i: int| self.topics@[i]@)
    }

    /// The topics from the `i`th on are the `i`th followed by those after it.
    proof fn lemma_step(&self, i: int)
        requires
            0 <= i < self.topics@.len(),
        ensures
            topics_bytes(self.names().skip(i)) == with_len(encode_utf8(self.topics@[i]@))
                + topics_bytes(self.names().skip(i + 1)),
    {
        assert(self.names().skip(i).skip(1) =~= self.names().skip(i + 1));
    }
}

impl<'a> Packet for UnsubscribePacket<'a> {
    open spec fn spec_packet_type() -> PacketType {
        PacketType::Unsubscribe
    }

    fn packet_type() -> (r: PacketType) {
        PacketType::Unsubscribe
    }
}

impl<'a> Encode for UnsubscribePacket<'a> {
    open spec fn body(&self) -> Seq<u8> {
        be_bytes(self.packet_id) + topics_bytes(self.names())
    }

    open spec fn control_flags(&self) -> u8 {
        2
    }

    open spec fn encodable(&self) -> bool {
        &&& forall|i: int|
            0 <= i < self.topics@.len() ==> encode_utf8(#[trigger] self.topics@[i]@).len()
                <= u16::MAX
        &&& self.body().len() <= MAX_BODY_SIZE
    }

    fn is_encodable(&self) -> (r: bool) {
        let mut size: usize = 2;
        let mut i: usize = 0;
        assert(self.names().skip(0) =~= self.names());
        while i < self.topics.len()
            invariant
                i <= self.topics@.len(),
                size <= MAX_BODY_SIZE,
                forall|j: int|
                    0 <= j < i ==> encode_utf8(#[trigger] self.topics@[j]@).len() <= u16::MAX,
                self.body().len() == size + topics_bytes(self.names().skip(i as int)).len(),
            decreases self.topics@.len() - i,
        {
            proof {
                self.lemma_step(i as int);
            }
            let len: usize = self.topics[i].as_bytes().len();
            if len > 65535 {
                return false;
            }
            size = size + 2 + len;
            if size > MAX_BODY_SIZE {
                return false;
            }
            i += 1;
        }
        assert(self.names().skip(i as int) =~= Seq::empty());
        true
    }

    fn compute_size(&self) -> (r: usize) {
        let mut ret: usize = 2;
        let mut i: usize = 0;
        assert(self.names().skip(0) =~= self.names());
        while i < self.topics.len()
            invariant
                i <= self.topics@.len(),
                self.encodable(),
                self.body().len() == ret + topics_bytes(self.names().skip(i as int)).len(),
            decreases self.topics@.len() - i,
        {
            proof {
                self.lemma_step(i as int);
            }
            ret += array_size(self.topics[i].as_bytes());
            i += 1;
        }
        assert(self.names().skip(i as int) =~= Seq::empty());
        ret
    }

    fn encode(&self, wr: &mut ByteWriter) -> (flags: u8) {
        wr.write_u16(BigEndian::from_native(self.packet_id));
        let mut i: usize = 0;
        assert(self.names().skip(0) =~= self.names());
        assert(wr@ + topics_bytes(self.names()) =~= old(wr)@ + self.body());
        while i < self.topics.len()
            invariant
                i <= self.topics@.len(),
                self.encodable(),
                wr@ + topics_bytes(self.names().skip(i as int)) == old(wr)@ + self.body(),
                wr.space() - topics_bytes(self.names().skip(i as int)).len() == old(wr).space()
                    - self.body().len(),
                old(wr).space() >= self.body().len(),
            decreases self.topics@.len() - i,
        {
            proof {
                self.lemma_step(i as int);
            }
            let ghost before = wr@;
            wr.write_bytes(self.topics[i].as_bytes());
            i += 1;
            assert(wr@ + topics_bytes(self.names().skip(i as int)) =~= before + topics_bytes(
                self.names().skip(i - 1),
            ));
        }
        assert(self.names().skip(i as int) =~= Seq::empty());
        assert(wr@ =~= old(wr)@ + self.body());
        2
    }
}

/// An `UNSUBSCRIBE` packet as the broker reads it.
pub struct IncomingUnsubPacket {
    pub packet_id: u16,
    pub topics: Vec<String>,
}

impl Packet for IncomingUnsubPacket {
    open spec fn spec_packet_type() -> PacketType {
        PacketType::Unsubscribe
    }

    fn packet_type() -> (r: PacketType) {
        PacketType::Unsubscribe
    }
}

impl IncomingUnsubPacket {
    /// The topics to unsubscribe from.
    pub open spec fn names(&self) -> Seq<Seq<char>> {
        Seq::new(self.topics@.len(), |i: int| self.topics@[i]@)
    }

    /// Reads the body of an `UNSUBSCRIBE` packet.
    pub fn decode(rd: &mut ByteReader, ctrl_field: ControlField) -> (r: Result<
        Self,
        PacketDecodeError,
    >)
        requires
            ctrl_field.spec_flags() == 2,
        ensures
            match parse_unsubscribe(old(rd)@).0 {
                Ok((packet_id, topics)) => r matches Ok(p) && p.packet_id == packet_id && p.names()
                    == topics,
                Err(e) => r == Err::<Self, PacketDecodeError>(e),
            },
            final(rd)@ == parse_unsubscribe(old(rd)@).1,
    {
        let packet_id: u16 = rd.read_u16()?.to_native();
        let mut ret = IncomingUnsubPacket { packet_id, topics: Vec::new() };
        let ghost start = rd@;
        assert(ret.names() =~= Seq::empty());
        while rd.remaining() > 0
            invariant
                ret.packet_id == packet_id,
                parse_topics(rd@, ret.names()) == parse_topics(start, Seq::empty()),
                parse_u16(old(rd)@) == (Ok::<u16, PacketDecodeError>(packet_id), start),
            decreases rd@.len(),
        {
            let ghost before = ret.names();
            let topic = rd.read_utf8()?.to_owned();
            ret.topics.push(topic);
            assert(ret.names() =~= before.push(topic@));
        }
        Ok(ret)
    }
}

proof fn lemma_topics_round_trip(topics: Seq<Seq<char>>, found: Seq<Seq<char>>)
    requires
        forall|i: int|
            0 <= i < topics.len() ==> encode_utf8(#[trigger] topics[i]).len() <= u16::MAX,
    ensures
        parse_topics(topics_bytes(topics), found) == (
            Ok::<Seq<Seq<char>>, PacketDecodeError>(found + topics),
            Seq::<u8>::empty(),
        ),
    decreases topics.len(),
{
    if topics.len() == 0 {
        assert(found + topics =~= found);
    } else {
        let rest = topics_bytes(topics.skip(1));
        law_utf8_round_trip(topics[0], rest);
        lemma_topics_round_trip(topics.skip(1), found.push(topics[0]));
        assert(found.push(topics[0]) + topics.skip(1) =~= found + topics);
    }
}

/// What a broker reads out of a client's `UNSUBSCRIBE` packet is what the client put in.
pub proof fn law_unsubscribe_round_trip(packet_id: u16, topics: Seq<Seq<char>>)
    requires
        forall|i: int|
            0 <= i < topics.len() ==> encode_utf8(#[trigger] topics[i]).len() <= u16::MAX,
    ensures
        parse_unsubscribe(be_bytes(packet_id) + topics_bytes(topics)) == (
            Ok::<(u16, Seq<Seq<char>>), PacketDecodeError>((packet_id, topics)),
            Seq::<u8>::empty(),
        ),
{
    law_u16_round_trip(packet_id, topics_bytes(topics));
    lemma_topics_round_trip(topics, Seq::empty());
    assert(Seq::<Seq<char>>::empty() + topics =~= topics);
}

} // verus!
