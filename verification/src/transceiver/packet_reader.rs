//! Cutting packets out of a stream of bytes.

use vstd::prelude::*;
use vstd::slice::slice_subrange;
use vstd::utf8::encode_utf8;

use super::byte_io::{be_bytes, law_u16_round_trip, ByteReader};
use super::packets::{broker_supports, parse_broker_packet, BrokerPacketView};
use super::packets::{conn_ack_bytes, law_conn_ack_round_trip, law_connect_round_trip, ConnectView};
use super::packets::{filters_bytes, law_subscribe_round_trip, law_unsubscribe_round_trip};
use super::packets::{flags_qos, law_publish_round_trip, valid_publish_flags, PublishView};
use super::packets::{law_sub_ack_round_trip, sub_result_byte, topics_bytes, Filter};
use super::packets::{packet_bytes, parse_packet, size_bytes, ControlField, IncomingPacket};
use super::packets::{PacketType, PacketView, SubscriptionResult, MAX_HEADER_SIZE};
use crate::errors::{PacketDecodeError, ServerConnectError};
use crate::QoS;

verus! {

/// The 'remaining length' field that `s` starts with, and how many bytes it takes;
/// nothing if more bytes are needed to tell.
pub open spec fn parse_len(s: Seq<u8>) -> Option<(nat, nat)>
    decreases s.len(),
{
    if s.len() == 0 {
        None
    } else if s[0] < 128 {
        Some((s[0] as nat, 1))
    } else {
        match parse_len(s.skip(1)) {
            Some((n, count)) => Some((((s[0] - 128) + 128 * n) as nat, count + 1)),
            None => None,
        }
    }
}

/// Where a packet starts and ends in the bytes received.
pub struct FrameView {
    /// How many bytes there are, the fixed header and the rest.
    pub size: nat,
    /// How many bytes the fixed header takes.
    pub start: nat,
}

/// The extent of the packet that `s` starts with; nothing if the fixed header is not
/// there in full.
pub open spec fn frame_of(s: Seq<u8>) -> Option<FrameView> {
    if s.len() == 0 {
        None
    } else {
        match parse_len(s.skip(1)) {
            Some((n, count)) => Some(FrameView { size: n + count + 1, start: count + 1 }),
            None => None,
        }
    }
}

/// How many bytes a reader that holds `s` asks for next.
pub open spec fn wanted(s: Seq<u8>) -> nat {
    match frame_of(s) {
        Some(frame) => if s.len() < frame.size {
            (frame.size - s.len()) as nat
        } else {
            0
        },
        None => if s.len() < MAX_HEADER_SIZE {
            (MAX_HEADER_SIZE - s.len()) as nat
        } else {
            0
        },
    }
}

/// What a reader that holds `s` makes of the bytes `data` that come in: the bytes of
/// the packet that is complete now, if one is, and the bytes that the reader then holds.
/// The bytes that complete a fixed header do not complete a packet by themselves.
pub open spec fn step(s: Seq<u8>, data: Seq<u8>) -> (Option<Seq<u8>>, Seq<u8>) {
    let held = s + data;
    match frame_of(s) {
        Some(frame) => if held.len() >= frame.size {
            (Some(held.take(frame.size as int)), held.skip(frame.size as int))
        } else {
            (None, held)
        },
        None => (None, held),
    }
}

/// What the bytes of a whole packet say.
pub open spec fn decode_frame(s: Seq<u8>) -> Result<PacketView, PacketDecodeError> {
    parse_packet(ControlField(s[0]), s.skip(frame_of(s)->0.start as int)).0
}

/// Where a packet starts and ends in the bytes received.
#[derive(Debug, Clone, Copy, PartialEq, Eq, Structural)]
pub struct PacketSizeInfo {
    /// The total size of the packet in bytes, counting its fixed header
    /// (control and remaining size fields).
    pub size: usize,
    /// The offset, in bytes, at which the variable header starts (= the
    /// length of the control and remaining size fields).
    pub start_offset: usize,
}

/// A buffer that accumulates bytes until an entire full packet has been read.
pub struct PacketReader {
    bytes: Vec<u8>,
    /// If this is [`None`], the packet reader is still waiting for bytes that are
    /// part of the packet's fixed header.
    ///
    /// If this is [`Some`], the packet reader has already read the packet's fixed
    /// header and is now accumulating the packet's variable header and payload.
    size: Option<PacketSizeInfo>,
}

/// Represents the [`PacketReader`]'s possible states after a read attempt.
pub enum PacketReadState {
    /// A new packet has been read successfully and is ready for processing
    Incoming(IncomingPacket),
    /// The connection has been closed
    ConnectionClosed,
    /// Not enough data to complete the next packet, call back later as soon
    /// as more data is available.
    NeedMoreData,
}

impl View for PacketReader {
    type V = Seq<u8>;

    /// The bytes that have come in and are not part of a finished packet.
    closed spec fn view(&self) -> Seq<u8> {
        self.bytes@
    }
}

/// Whether `info` is the extent of a packet that `frame` is, if it is known.
pub open spec fn info_matches(info: Option<PacketSizeInfo>, frame: Option<FrameView>) -> bool {
    match (info, frame) {
        (Some(info), Some(frame)) => info.size == frame.size && info.start_offset == frame.start,
        (None, None) => true,
        _ => false,
    }
}

impl PacketReader {
    /// An arbitrary upper limit to make sure not to allocate a giant block because of
    /// a malformed packet.
    const MAX_PACKET_SIZE: usize = 512_000_000;

    /// The reader knows the extent of the packet that it is in, and never holds more
    /// than that packet or a longest possible fixed header.
    pub closed spec fn inv(&self) -> bool {
        &&& info_matches(self.size, frame_of(self.bytes@))
        &&& match self.size {
            Some(info) => info.start_offset <= MAX_HEADER_SIZE && (self.bytes@.len()
                <= MAX_HEADER_SIZE || self.bytes@.len() <= info.size),
            None => self.bytes@.len() <= MAX_HEADER_SIZE,
        }
    }

    /// Instantiates a reader that has received nothing yet.
    pub fn new() -> (r: Self)
        ensures
            r.inv(),
            r@ == Seq::<u8>::empty(),
    {
        PacketReader { bytes: Vec::new(), size: None }
    }

    /// Returns how many bytes the next call of [`Self::recv`] can take at most.
    pub fn bytes_wanted(&self) -> (r: usize)
        requires
            self.inv(),
        ensures
            r == wanted(self@),
    {
        match self.size {
            Some(info) => if self.bytes.len() < info.size {
                info.size - self.bytes.len()
            } else {
                0
            },
            None => MAX_HEADER_SIZE - self.bytes.len(),
        }
    }

    /// Attempts to parse the remaining size of the packet (variable header and payload)
    /// from the accumulated bytes. The field takes at most four bytes.
    ///
    /// # Return values
    ///
    /// - `Ok(Some(_))` is returned if the remaining size was parsed successfully
    /// - `Ok(None)` is returned if more data is required
    /// - `Err(_)` is returned if the remaining size was parsed but is larger than
    ///   [`Self::MAX_PACKET_SIZE`] and is likely to be malformed. The bytes of a fixed
    ///   header cannot express such a size.
    pub fn parse_packet_size(bytes: &Vec<u8>) -> (r: Result<
        Option<PacketSizeInfo>,
        PacketDecodeError,
    >)
        requires
            bytes@.len() <= MAX_HEADER_SIZE || (frame_of(bytes@) matches Some(frame) && frame.start
                <= MAX_HEADER_SIZE),
        ensures
            r matches Ok(info) && info_matches(info, frame_of(bytes@)) && (info matches Some(x)
                ==> x.start_offset <= MAX_HEADER_SIZE),
    {
        let mut pos: usize = 1;
        let mut ret: usize = 0;
        let mut unit: usize = 1;
        let ghost field = bytes@.skip(1);
        if bytes.len() == 0 {
            return Ok(None);
        }
        proof {
            lemma_resumed_start(field);
        }
        loop
            invariant
                bytes@.len() <= 5 || (parse_len(field) matches Some((_, count)) && count <= 4),
                bytes@.len() >= 1,
                field == bytes@.skip(1),
                1 <= pos <= 5,
                pos <= bytes@.len(),
                ret < unit,
                (pos == 1 && unit == 1) || (pos == 2 && unit == 0x80) || (pos == 3 && unit
                    == 0x4000) || (pos == 4 && unit == 0x20_0000) || (pos == 5 && unit
                    == 0x1000_0000),
                parse_len(field) == resumed(
                    bytes@.skip(pos as int),
                    ret as nat,
                    unit as nat,
                    (pos - 1) as nat,
                ),
            decreases 5 - pos,
        {
            let ghost here = bytes@.skip(pos as int);
            proof {
                lemma_resumed_step(here, ret as nat, unit as nat, (pos - 1) as nat);
            }
            if pos >= bytes.len() {
                return Ok(None);  //Missing bytes
            }
            let b: u8 = bytes[pos];
            assert(here[0] == b);
            assert(here.skip(1) =~= bytes@.skip(pos + 1));
            assert(pos <= 4);
            let digit: usize = (b % 128) as usize;
            assert(digit * unit <= 127 * unit) by (nonlinear_arith)
                requires
                    digit <= 127,
                    unit >= 0,
            ;
            ret = ret + digit * unit;
            pos += 1;
            if b < 128 {
                ret = ret + pos;
                if ret > Self::MAX_PACKET_SIZE {
                    return Err(PacketDecodeError::ReachedMaxSize);
                }
                return Ok(Some(PacketSizeInfo { size: ret, start_offset: pos }));
            }
            unit = unit * 128;
        }
    }

    /// The reader's main function. It takes the bytes that a read attempt for
    /// [`Self::bytes_wanted`] bytes gave and returns [`PacketReadState::Incoming`] as soon
    /// as a packet has been read completely. No bytes where some were wanted means that
    /// the connection has been closed.
    pub fn recv(&mut self, data: &[u8]) -> (r: Result<PacketReadState, PacketDecodeError>)
        requires
            old(self).inv(),
            data@.len() <= wanted(old(self)@),
        ensures
            final(self).inv(),
            final(self)@ == step(old(self)@, data@).1,
            match step(old(self)@, data@).0 {
                Some(packet) => match decode_frame(packet) {
                    Ok(v) => r matches Ok(PacketReadState::Incoming(p)) && p@ == v,
                    Err(e) => r == Err::<PacketReadState, PacketDecodeError>(e),
                },
                None => if wanted(old(self)@) > 0 && data@.len() == 0 {
                    r matches Ok(PacketReadState::ConnectionClosed)
                } else {
                    r matches Ok(PacketReadState::NeedMoreData)
                },
            },
    {
        let wanted: usize = self.bytes_wanted();
        if wanted > 0 && data.len() == 0 {
            assert(old(self)@ + data@ =~= old(self)@);
            return Ok(PacketReadState::ConnectionClosed);
        }
        self.bytes.extend_from_slice(data);
        let ghost held = self.bytes@;
        assert(held =~= old(self)@ + data@);
        if let Some(size_info) = self.size {
            //Currently reading variable header and payload
            proof {
                lemma_frame_is_stable(old(self)@, data@);
            }
            if self.bytes.len() >= size_info.size {
                //Packet is ready!
                let ghost packet = held.take(size_info.size as int);
                proof {
                    lemma_frame_bounds(held);
                    lemma_frame_of_prefix(held);
                    assert(packet.skip(size_info.start_offset as int) =~= held.subrange(
                        size_info.start_offset as int,
                        size_info.size as int,
                    ));
                }
                let ctrl_field = ControlField(self.bytes[0]);
                let mut rd = ByteReader::new(
                    slice_subrange(self.bytes.as_slice(), size_info.start_offset, size_info.size),
                );
                let ret = IncomingPacket::from_bytes(&mut rd, ctrl_field);

                //Anything that remains can only be the start of a fixed header or a very
                //small packet
                let rest = self.bytes.split_off(size_info.size);
                assert(rest@ =~= held.skip(size_info.size as int));
                self.bytes = rest;
                self.size = match Self::parse_packet_size(&self.bytes) {
                    Err(err) => {
                        self.bytes.clear();
                        return Err(err);
                    },
                    Ok(x) => x,
                };
                return match ret {
                    Ok(x) => Ok(PacketReadState::Incoming(x)),
                    Err(x) => Err(x),
                };
            }
        } else {
            //Currently reading fixed header
            match Self::parse_packet_size(&self.bytes) {
                Err(err) => {
                    self.bytes.clear();
                    return Err(err);
                },
                Ok(x) => {
                    self.size = x;
                },
            }
        }
        Ok(PacketReadState::NeedMoreData)
    }
}

/// The 'remaining length' field whose first `taken` bytes stand for `value`, whose next byte
/// counts `unit` times, and which goes on with `s`.
#[verifier::opaque]
spec fn resumed(s: Seq<u8>, value: nat, unit: nat, taken: nat) -> Option<(nat, nat)> {
    match parse_len(s) {
        Some((n, count)) => Some((value + unit * n, count + taken)),
        None => None,
    }
}

proof fn lemma_resumed_start(s: Seq<u8>)
    ensures
        parse_len(s) == resumed(s, 0, 1, 0),
{
    reveal(resumed);
}

proof fn lemma_resumed_step(s: Seq<u8>, value: nat, unit: nat, taken: nat)
    ensures
        s.len() == 0 ==> resumed(s, value, unit, taken) is None,
        s.len() > 0 && s[0] < 128 ==> resumed(s, value, unit, taken) == Some(
            ((value + (s[0] % 128) as nat * unit) as nat, taken + 1),
        ),
        s.len() > 0 && s[0] >= 128 ==> resumed(s, value, unit, taken) == resumed(
            s.skip(1),
            (value + (s[0] % 128) as nat * unit) as nat,
            unit * 128,
            taken + 1,
        ),
        resumed(s, value, unit, taken) matches Some((_, count)) ==> count > taken,
{
    reveal(resumed);
    lemma_parse_len(s, Seq::empty());
    if s.len() > 0 {
        let digit = (s[0] % 128) as nat;
        let next = (value + digit * unit) as nat;
        assert(digit * unit == unit * digit) by (nonlinear_arith);
        if s[0] >= 128 {
            assert(digit == s[0] - 128);
            match parse_len(s.skip(1)) {
                Some((n, count)) => {
                    assert(unit * (digit + 128 * n) == digit * unit + (unit * 128) * n)
                        by (nonlinear_arith);
                    assert(parse_len(s) == Some((digit + 128 * n, count + 1)));
                    assert(resumed(s.skip(1), next, unit * 128, taken + 1) == Some(
                        (next + (unit * 128) * n, count + (taken + 1)),
                    ));
                },
                None => {},
            }
        }
    }
}

proof fn lemma_parse_len(s: Seq<u8>, more: Seq<u8>)
    ensures
        parse_len(s) matches Some((n, count)) ==> 1 <= count <= s.len() && parse_len(s + more)
            == parse_len(s) && parse_len(s.take(count as int)) == parse_len(s),
    decreases s.len(),
{
    if s.len() > 0 && s[0] >= 128 {
        assert((s + more).skip(1) =~= s.skip(1) + more);
        lemma_parse_len(s.skip(1), more);
        if let Some((n, count)) = parse_len(s.skip(1)) {
            assert(s.take(count as int + 1).skip(1) =~= s.skip(1).take(count as int));
        }
    }
}

/// A packet whose extent is known keeps it, whatever comes in.
proof fn lemma_frame_is_stable(s: Seq<u8>, more: Seq<u8>)
    requires
        frame_of(s) is Some,
    ensures
        frame_of(s + more) == frame_of(s),
{
    assert((s + more).skip(1) =~= s.skip(1) + more);
    lemma_parse_len(s.skip(1), more);
}

proof fn lemma_frame_bounds(s: Seq<u8>)
    requires
        frame_of(s) is Some,
    ensures
        2 <= frame_of(s)->0.start <= frame_of(s)->0.size,
        frame_of(s)->0.start <= s.len(),
{
    lemma_parse_len(s.skip(1), Seq::empty());
}

/// A packet's extent can be told from the packet alone.
proof fn lemma_frame_of_prefix(s: Seq<u8>)
    requires
        frame_of(s) is Some,
        frame_of(s)->0.size <= s.len(),
    ensures
        frame_of(s.take(frame_of(s)->0.size as int)) == frame_of(s),
{
    let frame = frame_of(s)->0;
    lemma_frame_bounds(s);
    let head = s.take(frame.start as int);
    assert(head.skip(1) =~= s.skip(1).take(frame.start - 1));
    lemma_parse_len(s.skip(1), Seq::empty());
    assert(s.take(frame.size as int) =~= head + s.subrange(frame.start as int, frame.size as int));
    lemma_frame_is_stable(head, s.subrange(frame.start as int, frame.size as int));
}

/// The packets that `s` holds in full, in order.
pub open spec fn packets_in(s: Seq<u8>) -> Seq<Seq<u8>>
    decreases s.len(),
{
    match frame_of(s) {
        Some(frame) => if 0 < frame.size <= s.len() {
            seq![s.take(frame.size as int)] + packets_in(s.skip(frame.size as int))
        } else {
            Seq::empty()
        },
        None => Seq::empty(),
    }
}

/// The packets that come out of a reader that holds `s` while `chunks` come in one after
/// the other, and what the reader holds in the end.
pub open spec fn run(s: Seq<u8>, chunks: Seq<Seq<u8>>) -> (Seq<Seq<u8>>, Seq<u8>)
    decreases chunks.len(),
{
    if chunks.len() == 0 {
        (Seq::empty(), s)
    } else {
        let (packet, held) = step(s, chunks[0]);
        let (packets, rest) = run(held, chunks.skip(1));
        match packet {
            Some(packet) => (seq![packet] + packets, rest),
            None => (packets, rest),
        }
    }
}

/// All the bytes of some chunks.
pub open spec fn joined(chunks: Seq<Seq<u8>>) -> Seq<u8>
    decreases chunks.len(),
{
    if chunks.len() == 0 {
        Seq::empty()
    } else {
        chunks[0] + joined(chunks.skip(1))
    }
}

/// Nothing is lost and nothing is made up: the bytes of the packets that came out,
/// followed by those that the reader still holds, are the bytes that came in.
pub proof fn law_reader_keeps_bytes(s: Seq<u8>, chunks: Seq<Seq<u8>>)
    ensures
        joined(run(s, chunks).0) + run(s, chunks).1 == s + joined(chunks),
    decreases chunks.len(),
{
    if chunks.len() == 0 {
        assert(joined(run(s, chunks).0) + run(s, chunks).1 =~= s + joined(chunks));
    } else {
        let (packet, held) = step(s, chunks[0]);
        let (packets, rest) = run(held, chunks.skip(1));
        law_reader_keeps_bytes(held, chunks.skip(1));
        let all = s + joined(chunks);
        assert(all =~= (s + chunks[0]) + joined(chunks.skip(1)));
        if let Some(p) = packet {
            assert((seq![p] + packets).skip(1) =~= packets);
            assert(joined(seq![p] + packets) == p + joined(packets));
            assert(p + (joined(packets) + rest) =~= joined(seq![p] + packets) + rest);
            assert(s + chunks[0] =~= p + held);
            assert(p + (held + joined(chunks.skip(1))) =~= all);
        }
    }
}

/// How the bytes are cut into chunks does not matter: the packets that came out, followed
/// by those that the reader holds in full, are the packets in the bytes that came in.
pub proof fn law_reader_ignores_chunking(s: Seq<u8>, chunks: Seq<Seq<u8>>)
    ensures
        run(s, chunks).0 + packets_in(run(s, chunks).1) == packets_in(s + joined(chunks)),
    decreases chunks.len(),
{
    if chunks.len() == 0 {
        assert(s + joined(chunks) =~= s);
        assert(run(s, chunks).0 + packets_in(s) =~= packets_in(s));
    } else {
        let (packet, held) = step(s, chunks[0]);
        let (packets, rest) = run(held, chunks.skip(1));
        let after = joined(chunks.skip(1));
        law_reader_ignores_chunking(held, chunks.skip(1));
        let all = s + joined(chunks);
        assert(all =~= (s + chunks[0]) + after);
        if let Some(p) = packet {
            let size = frame_of(s)->0.size as int;
            lemma_frame_bounds(s);
            assert(all =~= s + (chunks[0] + after));
            lemma_frame_is_stable(s, chunks[0] + after);
            assert(all.take(size) =~= p);
            assert(all.skip(size) =~= held + after);
            assert(packets_in(all) == seq![p] + packets_in(held + after));
            assert(seq![p] + (packets + packets_in(rest)) =~= (seq![p] + packets) + packets_in(
                rest,
            ));
        } else {
            assert(held == s + chunks[0]);
        }
    }
}

/// A reader that asks for nothing gives out a packet right away, unless what it holds is a
/// fixed header with a 'remaining length' field that does not end where it has to.
pub proof fn law_reader_makes_progress(s: Seq<u8>)
    requires
        wanted(s) == 0,
        frame_of(s) is Some || s.len() < MAX_HEADER_SIZE,
    ensures
        step(s, Seq::empty()).0 is Some,
{
}

proof fn lemma_size_bytes_round_trip(n: nat, tail: Seq<u8>)
    ensures
        parse_len(size_bytes(n) + tail) == Some((n, size_bytes(n).len())),
    decreases n,
{
    let s = size_bytes(n) + tail;
    if n >= 128 {
        lemma_size_bytes_round_trip(n / 128, tail);
        assert(s.skip(1) =~= size_bytes(n / 128) + tail);
    }
}

/// A packet that was written can be told from whatever follows it: its extent is that
/// of the bytes written, its first byte is the control field, and its body is the body.
pub proof fn law_packet_frame(t: PacketType, flags: u8, body: Seq<u8>, tail: Seq<u8>)
    requires
        flags < 16,
    ensures
        ({
            let p = packet_bytes(t, flags, body);
            &&& frame_of(p + tail) matches Some(frame) && frame.size == p.len() && p.skip(
                frame.start as int,
            ) == body
            &&& frame_of(p) == frame_of(p + tail)
            &&& ControlField(p[0]).spec_packet_type() == t.spec_id()
            &&& ControlField(p[0]).spec_flags() == flags
            &&& decode_frame(p) == parse_packet(ControlField(p[0]), body).0
        }),
{
    let p = packet_bytes(t, flags, body);
    assert((p + tail).skip(1) =~= size_bytes(body.len()) + (body + tail));
    lemma_size_bytes_round_trip(body.len(), body + tail);
    assert(p.skip(1) =~= size_bytes(body.len()) + body);
    lemma_size_bytes_round_trip(body.len(), body);
    assert(p.skip(1 + size_bytes(body.len()).len() as int) =~= body);
}

proof fn lemma_partial_size(n: nat, k: int)
    requires
        0 <= k < size_bytes(n).len(),
    ensures
        parse_len(size_bytes(n).take(k)) is None,
    decreases n,
{
    let part = size_bytes(n).take(k);
    if n >= 128 && k > 0 {
        assert(part.skip(1) =~= size_bytes(n / 128).take(k - 1));
        lemma_partial_size(n / 128, k - 1);
    }
}

/// The extent of a packet is known as soon as its control field and its 'remaining length'
/// field are there, whatever follows them, and not before.
pub proof fn law_fixed_header(control: u8, n: nat, rest: Seq<u8>, k: int)
    requires
        0 <= k <= size_bytes(n).len(),
    ensures
        ({
            let header = seq![control] + size_bytes(n);
            &&& frame_of(header + rest) == Some(
                FrameView {
                    size: n + 1 + size_bytes(n).len(),
                    start: 1 + size_bytes(n).len(),
                },
            )
            &&& frame_of(header.take(k)) is None
        }),
{
    let header = seq![control] + size_bytes(n);
    assert((header + rest).skip(1) =~= size_bytes(n) + rest);
    lemma_size_bytes_round_trip(n, rest);
    if k > 0 {
        assert(header.take(k).skip(1) =~= size_bytes(n).take(k - 1));
        lemma_partial_size(n, k - 1);
    }
}

/// Packets written one after the other are the packets that are found.
pub proof fn law_packets_are_found(packets: Seq<(PacketType, u8, Seq<u8>)>)
    requires
        forall|i: int| 0 <= i < packets.len() ==> (#[trigger] packets[i]).1 < 16,
    ensures
        ({
            let written = packets.map_values(
                |p: (PacketType, u8, Seq<u8>)| packet_bytes(p.0, p.1, p.2),
            );
            packets_in(joined(written)) == written
        }),
    decreases packets.len(),
{
    let write = |p: (PacketType, u8, Seq<u8>)| packet_bytes(p.0, p.1, p.2);
    let written = packets.map_values(write);
    if packets.len() == 0 {
        assert(packets_in(joined(written)) =~= written);
    } else {
        let (t, flags, body) = packets[0];
        let p = packet_bytes(t, flags, body);
        let rest = packets.skip(1).map_values(write);
        assert(written.skip(1) =~= rest);
        law_packets_are_found(packets.skip(1));
        law_packet_frame(t, flags, body, joined(rest));
        assert(joined(written) == p + joined(rest));
        assert((p + joined(rest)).take(p.len() as int) =~= p);
        assert((p + joined(rest)).skip(p.len() as int) =~= joined(rest));
        assert(written =~= seq![p] + rest);
    }
}

/// What the bytes of a whole packet say to a broker.
pub open spec fn decode_broker_frame(s: Seq<u8>) -> Result<BrokerPacketView, PacketDecodeError> {
    parse_broker_packet(ControlField(s[0]), s.skip(frame_of(s)->0.start as int)).0
}

/// Whether a broker can take the bytes of a whole packet.
pub open spec fn broker_supports_frame(s: Seq<u8>) -> bool {
    broker_supports(ControlField(s[0]), s.skip(frame_of(s)->0.start as int))
}

/// A message that was written is received as it was written, by a client and by a
/// broker, except that a packet ID at [`QoS::AtMostOnce`] reads as zero.
pub proof fn law_publish_is_received(v: PublishView)
    requires
        v.fits(),
        valid_publish_flags(v.flags),
    ensures
        ({
            let p = packet_bytes(PacketType::Publish, v.flags, v.body());
            let received = PublishView {
                packet_id: if flags_qos(v.flags) == QoS::AtMostOnce {
                    0
                } else {
                    v.packet_id
                },
                ..v
            };
            &&& decode_frame(p) == Ok::<PacketView, PacketDecodeError>(PacketView::Publish(received))
            &&& broker_supports_frame(p)
            &&& decode_broker_frame(p) == Ok::<BrokerPacketView, PacketDecodeError>(
                BrokerPacketView::Publish(received),
            )
        }),
{
    law_packet_frame(PacketType::Publish, v.flags, v.body(), Seq::empty());
    law_publish_round_trip(v);
}

/// Each packet that holds nothing but a packet ID is received as it was written.
pub proof fn law_acks_are_received(packet_id: u16)
    ensures
        decode_frame(packet_bytes(PacketType::PubAck, 0, be_bytes(packet_id))) == Ok::<
            PacketView,
            PacketDecodeError,
        >(PacketView::PubAck(packet_id)),
        decode_frame(packet_bytes(PacketType::PubRec, 0, be_bytes(packet_id))) == Ok::<
            PacketView,
            PacketDecodeError,
        >(PacketView::PubRec(packet_id)),
        decode_frame(packet_bytes(PacketType::PubRel, 2, be_bytes(packet_id))) == Ok::<
            PacketView,
            PacketDecodeError,
        >(PacketView::PubRel(packet_id)),
        decode_frame(packet_bytes(PacketType::PubComp, 0, be_bytes(packet_id))) == Ok::<
            PacketView,
            PacketDecodeError,
        >(PacketView::PubComp(packet_id)),
        decode_frame(packet_bytes(PacketType::UnsubAck, 0, be_bytes(packet_id))) == Ok::<
            PacketView,
            PacketDecodeError,
        >(PacketView::UnsubAck(packet_id)),
        decode_broker_frame(packet_bytes(PacketType::PubAck, 0, be_bytes(packet_id))) == Ok::<
            BrokerPacketView,
            PacketDecodeError,
        >(BrokerPacketView::PubAck(packet_id)),
        decode_broker_frame(packet_bytes(PacketType::PubRec, 0, be_bytes(packet_id))) == Ok::<
            BrokerPacketView,
            PacketDecodeError,
        >(BrokerPacketView::PubRec(packet_id)),
        decode_broker_frame(packet_bytes(PacketType::PubRel, 2, be_bytes(packet_id))) == Ok::<
            BrokerPacketView,
            PacketDecodeError,
        >(BrokerPacketView::PubRel(packet_id)),
        decode_broker_frame(packet_bytes(PacketType::PubComp, 0, be_bytes(packet_id))) == Ok::<
            BrokerPacketView,
            PacketDecodeError,
        >(BrokerPacketView::PubComp(packet_id)),
{
    let body = be_bytes(packet_id);
    law_packet_frame(PacketType::PubAck, 0, body, Seq::empty());
    law_packet_frame(PacketType::PubRec, 0, body, Seq::empty());
    law_packet_frame(PacketType::PubRel, 2, body, Seq::empty());
    law_packet_frame(PacketType::PubComp, 0, body, Seq::empty());
    law_packet_frame(PacketType::UnsubAck, 0, body, Seq::empty());
    law_u16_round_trip(packet_id, Seq::empty());
    assert(body + Seq::empty() =~= body);
}

/// The broker's answer to a `CONNECT` packet is received as it was written, but for an
/// unknown return code that is not in fact unknown.
pub proof fn law_conn_ack_is_received(answer: Result<bool, ServerConnectError>)
    requires
        answer != Err::<bool, ServerConnectError>(ServerConnectError::ProtocolError),
        answer matches Err(ServerConnectError::Unknown(x)) ==> x > 5,
    ensures
        decode_frame(packet_bytes(PacketType::ConnAck, 0, conn_ack_bytes(answer))) == Ok::<
            PacketView,
            PacketDecodeError,
        >(PacketView::ConnAck(answer)),
{
    let body = conn_ack_bytes(answer);
    law_packet_frame(PacketType::ConnAck, 0, body, Seq::empty());
    law_conn_ack_round_trip(answer, Seq::empty());
    assert(body + Seq::empty() =~= body);
}

/// The broker's answer to a `SUBSCRIBE` packet is received as it was written.
pub proof fn law_sub_ack_is_received(packet_id: u16, results: Seq<SubscriptionResult>)
    ensures
        decode_frame(
            packet_bytes(
                PacketType::SubAck,
                0,
                be_bytes(packet_id) + results.map_values(
                    |r: SubscriptionResult| sub_result_byte(r),
                ),
            ),
        ) == Ok::<PacketView, PacketDecodeError>(PacketView::SubAck((packet_id, results))),
{
    let body = be_bytes(packet_id) + results.map_values(|r: SubscriptionResult| sub_result_byte(r));
    law_packet_frame(PacketType::SubAck, 0, body, Seq::empty());
    law_sub_ack_round_trip(packet_id, results);
}

/// A broker receives a client's `CONNECT` packet as it was written.
pub proof fn law_connect_is_received(v: ConnectView)
    requires
        v.fits(),
    ensures
        ({
            let p = packet_bytes(PacketType::Connect, 0, v.body());
            &&& broker_supports_frame(p)
            &&& decode_broker_frame(p) == Ok::<BrokerPacketView, PacketDecodeError>(
                BrokerPacketView::Connect(v),
            )
        }),
{
    law_packet_frame(PacketType::Connect, 0, v.body(), Seq::empty());
    law_connect_round_trip(v, Seq::empty());
    assert(v.body() + Seq::empty() =~= v.body());
}

/// A broker receives a client's `SUBSCRIBE` packet as it was written.
pub proof fn law_subscribe_is_received(packet_id: u16, filters: Seq<Filter>)
    requires
        forall|i: int|
            0 <= i < filters.len() ==> encode_utf8(#[trigger] filters[i].0).len() <= u16::MAX,
    ensures
        ({
            let p = packet_bytes(
                PacketType::Subscribe,
                2,
                be_bytes(packet_id) + filters_bytes(filters),
            );
            &&& broker_supports_frame(p)
            &&& decode_broker_frame(p) == Ok::<BrokerPacketView, PacketDecodeError>(
                BrokerPacketView::Subscribe((packet_id, filters)),
            )
        }),
{
    let body = be_bytes(packet_id) + filters_bytes(filters);
    law_packet_frame(PacketType::Subscribe, 2, body, Seq::empty());
    law_subscribe_round_trip(packet_id, filters);
    assert(body.skip(2) =~= filters_bytes(filters));
}

/// A broker receives a client's `UNSUBSCRIBE` packet as it was written.
pub proof fn law_unsubscribe_is_received(packet_id: u16, topics: Seq<Seq<char>>)
    requires
        forall|i: int|
            0 <= i < topics.len() ==> encode_utf8(#[trigger] topics[i]).len() <= u16::MAX,
    ensures
        ({
            let p = packet_bytes(
                PacketType::Unsubscribe,
                2,
                be_bytes(packet_id) + topics_bytes(topics),
            );
            &&& broker_supports_frame(p)
            &&& decode_broker_frame(p) == Ok::<BrokerPacketView, PacketDecodeError>(
                BrokerPacketView::Unsubscribe((packet_id, topics)),
            )
        }),
{
    let body = be_bytes(packet_id) + topics_bytes(topics);
    law_packet_frame(PacketType::Unsubscribe, 2, body, Seq::empty());
    law_unsubscribe_round_trip(packet_id, topics);
}

/// Packets without a body are received as they were written.
pub proof fn law_empty_packets_are_received()
    ensures
        decode_frame(packet_bytes(PacketType::PingResp, 0, Seq::empty())) == Ok::<
            PacketView,
            PacketDecodeError,
        >(PacketView::PingResp),
        broker_supports_frame(packet_bytes(PacketType::PingReq, 0, Seq::empty())),
        decode_broker_frame(packet_bytes(PacketType::PingReq, 0, Seq::empty())) == Ok::<
            BrokerPacketView,
            PacketDecodeError,
        >(BrokerPacketView::PingReq),
        broker_supports_frame(packet_bytes(PacketType::Disconnect, 0, Seq::empty())),
        decode_broker_frame(packet_bytes(PacketType::Disconnect, 0, Seq::empty())) == Ok::<
            BrokerPacketView,
            PacketDecodeError,
        >(BrokerPacketView::Disconnect),
{
    law_packet_frame(PacketType::PingResp, 0, Seq::empty(), Seq::empty());
    law_packet_frame(PacketType::PingReq, 0, Seq::empty(), Seq::empty());
    law_packet_frame(PacketType::Disconnect, 0, Seq::empty(), Seq::empty());
}

/// A reader asks for the rest of the packet whose extent it knows, and otherwise for the rest
/// of a longest fixed header. So it never asks for bytes behind a packet of at least five bytes.
pub proof fn law_wanted(s: Seq<u8>)
    ensures
        frame_of(s) is None && s.len() <= 5 ==> wanted(s) == 5 - s.len(),
        frame_of(s) matches Some(frame) ==> wanted(s) == (if s.len() < frame.size {
            frame.size - s.len()
        } else {
            0
        }),
{
}

/// A reader keeps the bytes that come in until a packet whose extent it knew is there in full;
/// then that packet comes out, and what follows it stays.
pub proof fn law_step(s: Seq<u8>, data: Seq<u8>)
    ensures
        match frame_of(s) {
            Some(frame) if frame.size <= s.len() + data.len() => step(s, data).0 == Some(
                (s + data).take(frame.size as int),
            ) && step(s, data).1 == (s + data).skip(frame.size as int),
            _ => step(s, data).0 is None && step(s, data).1 == s + data,
        },
{
}

/// The extent that is told is the one that is known, if it is.
pub proof fn law_info(info: Option<PacketSizeInfo>, frame: Option<FrameView>)
    ensures
        info_matches(info, frame) <==> (info is Some <==> frame is Some) && (info is Some
            && frame is Some ==> info->0.size == frame->0.size && info->0.start_offset
            == frame->0.start),
{
}

/// What a whole packet says depends on its first byte and on what follows its fixed header.
pub proof fn law_decoding_frames(control: u8, size: Seq<u8>, body: Seq<u8>)
    requires
        size.len() > 0,
        forall|i: int| 0 <= i < size.len() ==> (#[trigger] size[i] >= 128 <==> i < size.len() - 1),
    ensures
        ({
            let packet = seq![control] + size + body;
            &&& decode_frame(packet) == parse_packet(ControlField(control), body).0
            &&& decode_broker_frame(packet) == parse_broker_packet(ControlField(control), body).0
            &&& broker_supports_frame(packet) == broker_supports(ControlField(control), body)
        }),
{
    let packet = seq![control] + size + body;
    lemma_len_ends(size, body);
    assert(packet.skip(1) =~= size + body);
    assert(packet.skip(1 + size.len() as int) =~= body);
}

proof fn lemma_len_ends(size: Seq<u8>, body: Seq<u8>)
    requires
        size.len() > 0,
        forall|i: int| 0 <= i < size.len() ==> (#[trigger] size[i] >= 128 <==> i < size.len() - 1),
    ensures
        parse_len(size + body) matches Some((_, count)) && count == size.len(),
    decreases size.len(),
{
    let s = size + body;
    assert(s[0] == size[0]);
    if size.len() > 1 {
        let rest = size.skip(1);
        assert forall|i: int| 0 <= i < rest.len() implies (#[trigger] rest[i] >= 128 <==> i
            < rest.len() - 1) by {
            assert(rest[i] == size[i + 1]);
        }
        lemma_len_ends(rest, body);
        assert(s.skip(1) =~= rest + body);
        assert(size[0] >= 128);
    } else {
        assert(size[0] < 128);
    }
}

/// The length of the rest of a packet is read from seven bits of each byte, the lowest first,
/// up to the first byte whose top bit is not set.
pub proof fn law_reading_length(s: Seq<u8>)
    ensures
        s.len() == 0 ==> parse_len(s) is None,
        s.len() > 0 && s[0] < 128 ==> parse_len(s) == Some((s[0] as nat, 1nat)),
        s.len() > 0 && s[0] >= 128 ==> parse_len(s) == (match parse_len(s.skip(1)) {
            Some((n, count)) => Some(((s[0] - 128 + 128 * n) as nat, (count + 1) as nat)),
            None => None,
        }),
        s.len() == 0 ==> frame_of(s) is None,
        s.len() > 0 ==> frame_of(s) == (match parse_len(s.skip(1)) {
            Some((n, count)) => Some(
                FrameView { size: (1 + count + n) as nat, start: (1 + count) as nat },
            ),
            None => None,
        }),
{
}

} // verus!
