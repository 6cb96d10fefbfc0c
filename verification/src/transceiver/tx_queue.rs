//! The queue of packets to be transmitted.

use std::collections::VecDeque;
use std::sync::Arc;

use vstd::prelude::*;
use vstd::slice::slice_subrange;

use super::packets::PublishFlags;

verus! {

/// Packet in the process of being transmitted
struct TxPacket {
    bytes: Arc<[u8]>,
    /// Number of bytes already transmitted
    pos: usize,
    /// If this is true, then the first byte of the packet should be altered
    /// to carry the `DUP` flag.
    set_dup: bool,
    /// If this is true, the packet can be written without waiting for the
    /// transport to become ready.
    immediate: bool,
}

/// A queued outgoing packet
struct InternalPacket {
    bytes: Arc<[u8]>,
    /// If this is true, then the first byte of the packet should be altered
    /// to carry the `DUP` flag when being transmitted.
    set_dup: bool,
}

/// A packet to be transmitted.
pub struct OutgoingView {
    pub bytes: Seq<u8>,
    pub set_dup: bool,
}

impl OutgoingView {
    /// The bytes to be written for this packet: its own, but with the `DUP` flag in the
    /// first one where asked for.
    pub open spec fn wire(self) -> Seq<u8> {
        if self.set_dup && self.bytes.len() > 0 {
            self.bytes.update(0, self.bytes[0] | 8)
        } else {
            self.bytes
        }
    }
}

/// The packets to be transmitted, the current one first.
pub struct TxView {
    pub packets: Seq<OutgoingView>,
    /// How many bytes of the current packet have been transmitted.
    pub pos: nat,
    /// Whether the current packet can be written without waiting.
    pub immediate: bool,
}

/// All the bytes of some packets, one after the other.
pub open spec fn wire_all(packets: Seq<OutgoingView>) -> Seq<u8>
    decreases packets.len(),
{
    if packets.len() == 0 {
        Seq::empty()
    } else {
        packets[0].wire() + wire_all(packets.skip(1))
    }
}

impl TxView {
    /// The state in which there is nothing to transmit.
    pub open spec fn idle() -> Self {
        TxView { packets: Seq::empty(), pos: 0, immediate: false }
    }

    /// All the bytes that are left to be written.
    pub open spec fn stream(self) -> Seq<u8> {
        wire_all(self.packets).skip(self.pos as int)
    }

    /// This queue with one more packet. If it is the only one, it can be written at once.
    pub open spec fn queued(self, bytes: Seq<u8>, set_dup: bool) -> Self {
        TxView {
            packets: self.packets.push(OutgoingView { bytes, set_dup }),
            pos: self.pos,
            immediate: self.packets.len() == 0 || self.immediate,
        }
    }

    /// The bytes to be written next. A `DUP` flag that has to be set is written with its
    /// byte by itself.
    pub open spec fn chunk(self) -> Seq<u8> {
        let packet = self.packets[0];
        if packet.set_dup && self.pos == 0 {
            packet.wire().take(1)
        } else {
            packet.wire().skip(self.pos as int)
        }
    }

    /// Whether the current packet is complete once `n` more bytes of it are written.
    pub open spec fn completes(self, n: nat) -> bool {
        self.pos + n >= self.packets[0].bytes.len()
    }

    /// This queue once `n` bytes of the current packet have been written. A packet that
    /// is complete makes room for the next one, which can be written at once. One that is
    /// not has to wait, unless only its first byte was asked for.
    pub open spec fn after_write(self, n: nat) -> Self {
        if self.completes(n) {
            TxView {
                packets: self.packets.skip(1),
                pos: 0,
                immediate: self.packets.len() > 1,
            }
        } else {
            TxView {
                pos: self.pos + n,
                immediate: self.immediate && self.packets[0].set_dup && self.pos == 0 && n > 0,
                ..self
            }
        }
    }
}

/// Bytes to be written.
pub enum TxChunk<'a> {
    /// The first byte of a packet, with the `DUP` flag set
    Dup(u8),
    /// What is left of a packet
    Bytes(&'a [u8]),
}

impl<'a> View for TxChunk<'a> {
    type V = Seq<u8>;

    open spec fn view(&self) -> Seq<u8> {
        match *self {
            TxChunk::Dup(b) => seq![b],
            TxChunk::Bytes(s) => s@,
        }
    }
}

/// What became of a write attempt.
#[derive(Debug, Clone, Copy, PartialEq, Eq, Structural)]
pub enum TxProgress {
    /// The connection has been closed
    ConnectionClosed,
    /// The current packet has not been written in its entirety
    Incomplete,
    /// The current packet has been written in its entirety, so that the transport
    /// should be flushed
    Complete,
}

/// The outgoing packet queue
pub struct TxQueue {
    /// Packet currently being transmitted, if any.
    tx_pkt: Option<TxPacket>,
    /// Packets to be transmitted after that.
    internal_pkt_queue: VecDeque<InternalPacket>,
}

impl TxQueue {
    spec fn behind(&self) -> Seq<OutgoingView> {
        self.internal_pkt_queue@.map_values(
            |p: InternalPacket| OutgoingView { bytes: p.bytes@, set_dup: p.set_dup },
        )
    }

    /// The packets to be transmitted.
    pub closed spec fn view(&self) -> TxView {
        match self.tx_pkt {
            Some(p) => TxView {
                packets: seq![OutgoingView { bytes: p.bytes@, set_dup: p.set_dup }] + self.behind(),
                pos: p.pos as nat,
                immediate: p.immediate,
            },
            None => TxView::idle(),
        }
    }

    /// No packet is empty, the current one has bytes left, and none waits while there is
    /// no current one.
    pub closed spec fn inv(&self) -> bool {
        &&& forall|i: int|
            0 <= i < self.internal_pkt_queue@.len() ==> (
            #[trigger] self.internal_pkt_queue@[i]).bytes@.len() > 0
        &&& match self.tx_pkt {
            Some(p) => p.pos < p.bytes@.len(),
            None => self.internal_pkt_queue@.len() == 0,
        }
    }

    /// Instantiates a queue with nothing to transmit.
    pub fn new() -> (r: Self)
        ensures
            r.inv(),
            r@ == TxView::idle(),
    {
        TxQueue { tx_pkt: None, internal_pkt_queue: VecDeque::with_capacity(16) }
    }

    /// Returns whether there is nothing to transmit.
    pub fn is_idle(&self) -> (r: bool)
        requires
            self.inv(),
        ensures
            r == (self@.packets.len() == 0),
    {
        self.tx_pkt.is_none()
    }

    /// Returns whether the current packet can be written without waiting for the
    /// transport to become ready.
    pub fn is_immediate(&self) -> (r: bool)
        ensures
            r == self@.immediate,
    {
        match &self.tx_pkt {
            Some(p) => p.immediate,
            None => false,
        }
    }

    /// Makes the specified packet the current one if no packet is currently in the process
    /// of being transmitted. Otherwise, pushes the packet onto the internal packet queue so
    /// that it can be transmitted later.
    ///
    /// If `set_dup` is true, then the first byte of the packet will be altered
    /// to carry the `DUP` flag.
    pub fn queue_internal_packet(&mut self, bytes: Arc<[u8]>, set_dup: bool)
        requires
            old(self).inv(),
            bytes@.len() > 0,
        ensures
            final(self).inv(),
            final(self)@ == old(self)@.queued(bytes@, set_dup),
            final(self)@.stream() == old(self)@.stream() + (OutgoingView {
                bytes: bytes@,
                set_dup,
            }).wire(),
    {
        let ghost p = OutgoingView { bytes: bytes@, set_dup };
        proof {
            law_queue_is_fifo(old(self)@, bytes@, set_dup);
        }
        if self.tx_pkt.is_none() {
            self.tx_pkt = Some(TxPacket { bytes, pos: 0, set_dup, immediate: true });
            assert(self.behind() =~= Seq::empty());
            assert(self@.packets =~= old(self)@.packets.push(p));
        } else {
            self.internal_pkt_queue.push_back(InternalPacket { bytes, set_dup });
            assert(self.behind() =~= old(self).behind().push(p));
            assert(self@.packets =~= old(self)@.packets.push(p));
        }
    }

    /// Returns the bytes to be written next, if there are any.
    pub fn next_write(&self) -> (r: Option<TxChunk>)
        requires
            self.inv(),
        ensures
            r is None <==> self@.packets.len() == 0,
            r matches Some(chunk) ==> chunk@ == self@.chunk() && chunk@.len() > 0
                && chunk@.is_prefix_of(self@.stream()),
            r matches Some(TxChunk::Dup(b)) ==> self@.chunk() == seq![b],
            r matches Some(TxChunk::Bytes(bytes)) ==> self@.chunk() == bytes@,
    {
        match &self.tx_pkt {
            Some(p) => {
                let ghost view = self@;
                let ghost first = view.packets[0];
                proof {
                    law_writing_consumes(view, 0);
                }
                let bytes: &[u8] = &p.bytes;
                if p.set_dup && p.pos == 0 {
                    let chunk = TxChunk::Dup(bytes[0] | PublishFlags::DUP);
                    assert(chunk@ =~= first.wire().take(1));
                    Some(chunk)
                } else {
                    let rest = slice_subrange(bytes, p.pos, bytes.len());
                    assert(rest@ =~= first.wire().skip(view.pos as int));
                    Some(TxChunk::Bytes(rest))
                }
            },
            None => None,
        }
    }

    /// Takes note of how many bytes of the last [`Self::next_write`] have been written.
    ///
    /// Writing nothing without waiting only means that the transport is not ready. After
    /// waiting, it means that the connection was closed.
    pub fn written(&mut self, n: usize) -> (r: TxProgress)
        requires
            old(self).inv(),
            old(self)@.packets.len() > 0,
            n <= old(self)@.chunk().len(),
        ensures
            final(self).inv(),
            r == (if !old(self)@.immediate && n == 0 {
                TxProgress::ConnectionClosed
            } else if old(self)@.completes(n as nat) {
                TxProgress::Complete
            } else {
                TxProgress::Incomplete
            }),
            r == TxProgress::ConnectionClosed ==> final(self)@ == old(self)@,
            r != TxProgress::ConnectionClosed ==> final(self)@ == old(self)@.after_write(n as nat),
            final(self)@.stream() == old(self)@.stream().skip(n as int),
    {
        let ghost before = self@;
        let ghost first = before.packets[0];
        proof {
            assert(before.packets.skip(1) =~= self.behind());
            assert(before.stream().skip(0) =~= before.stream());
            law_writing_consumes(before, n as nat);
        }
        match self.tx_pkt.take() {
            Some(mut p) => {
                if !p.immediate && n == 0 {
                    self.tx_pkt = Some(p);
                    return TxProgress::ConnectionClosed;
                }
                let first_byte = p.set_dup && p.pos == 0;
                let len: usize = p.bytes.len();
                assert(first.wire().len() == len);
                assert(n <= len - p.pos);
                p.pos = p.pos + n;
                if p.pos >= len {
                    let ghost left = self.internal_pkt_queue@;
                    match self.internal_pkt_queue.pop_front() {
                        Some(next) => {
                            self.tx_pkt = Some(
                                TxPacket {
                                    bytes: next.bytes,
                                    pos: 0,
                                    set_dup: next.set_dup,
                                    immediate: true,
                                },
                            );
                            assert(self@.packets =~= before.packets.skip(1));
                        },
                        None => {
                            assert(before.packets.skip(1) =~= Seq::empty());
                        },
                    }
                    assert(self@ == before.after_write(n as nat));
                    TxProgress::Complete
                } else {
                    p.immediate = p.immediate && first_byte && n > 0;
                    self.tx_pkt = Some(p);
                    assert(self@.packets =~= before.packets);
                    TxProgress::Incomplete
                }
            },
            None => TxProgress::Incomplete,
        }
    }
}

proof fn lemma_wire_push(packets: Seq<OutgoingView>, p: OutgoingView)
    ensures
        wire_all(packets.push(p)) == wire_all(packets) + p.wire(),
    decreases packets.len(),
{
    let all = packets.push(p);
    if packets.len() == 0 {
        assert(all.skip(1) =~= Seq::empty());
        assert(wire_all(Seq::<OutgoingView>::empty()) =~= Seq::<u8>::empty());
        assert(wire_all(all) =~= wire_all(packets) + p.wire());
    } else {
        assert(all.skip(1) =~= packets.skip(1).push(p));
        lemma_wire_push(packets.skip(1), p);
        assert(wire_all(all) =~= wire_all(packets) + p.wire());
    }
}

/// What is queued is written after everything that was queued before.
pub proof fn law_queue_is_fifo(tx: TxView, bytes: Seq<u8>, set_dup: bool)
    requires
        tx.pos <= wire_all(tx.packets).len(),
    ensures
        tx.queued(bytes, set_dup).stream() == tx.stream() + (OutgoingView { bytes, set_dup }).wire(),
{
    let p = OutgoingView { bytes, set_dup };
    lemma_wire_push(tx.packets, p);
    assert(tx.queued(bytes, set_dup).stream() =~= tx.stream() + p.wire());
}

/// What is to be written next is where the bytes that are left begin, and writing some of it
/// leaves the rest, in the same order.
pub proof fn law_writing_consumes(tx: TxView, n: nat)
    requires
        tx.packets.len() > 0,
        tx.pos < tx.packets[0].bytes.len(),
        n <= tx.chunk().len(),
    ensures
        tx.chunk().is_prefix_of(tx.stream()),
        tx.after_write(n).stream() == tx.stream().skip(n as int),
{
    let first = tx.packets[0];
    assert(wire_all(tx.packets) == first.wire() + wire_all(tx.packets.skip(1)));
    assert(tx.stream() =~= first.wire().skip(tx.pos as int) + wire_all(tx.packets.skip(1)));
    assert(tx.after_write(n).stream() =~= tx.stream().skip(n as int));
}

/// A packet that is marked as a duplicate is written with that bit set in its first byte, and
/// is otherwise written as it is; every other packet is written as it is.
pub proof fn law_wire(p: OutgoingView, i: int)
    requires
        0 <= i < p.bytes.len(),
    ensures
        p.wire().len() == p.bytes.len(),
        p.wire()[i] == (if i == 0 && p.set_dup {
            p.bytes[0] | 8
        } else {
            p.bytes[i]
        }),
        wire_all(seq![p]) == p.wire(),
        wire_all(Seq::empty()) == Seq::<u8>::empty(),
{
    assert(seq![p].skip(1) =~= Seq::empty());
    assert(wire_all(Seq::<OutgoingView>::empty()) =~= Seq::<u8>::empty());
    assert(wire_all(seq![p]) =~= p.wire());
}

/// The bytes of packets come one packet after the other.
pub proof fn law_wire_in_order(packets: Seq<OutgoingView>, p: OutgoingView)
    ensures
        wire_all(packets.push(p)) == wire_all(packets) + p.wire(),
{
    lemma_wire_push(packets, p);
}

/// A packet that is the only one can be written at once. What waits for the transport goes on
/// waiting, until it is complete; then the next packet can be written at once. A packet that
/// was written in part waits, unless all that was written is the byte with the duplicate flag.
pub proof fn law_waiting(tx: TxView, bytes: Seq<u8>, set_dup: bool, n: nat)
    requires
        tx.packets.len() > 0,
    ensures
        TxView::idle().packets.len() == 0 && TxView::idle().pos == 0,
        TxView::idle().queued(bytes, set_dup) == (TxView {
            packets: seq![OutgoingView { bytes, set_dup }],
            pos: 0,
            immediate: true,
        }),
        tx.queued(bytes, set_dup) == (TxView {
            packets: tx.packets.push(OutgoingView { bytes, set_dup }),
            ..tx
        }),
        tx.completes(n) <==> tx.pos + n >= tx.packets[0].bytes.len(),
        tx.pos + n >= tx.packets[0].bytes.len() ==> tx.after_write(n) == (TxView {
            packets: tx.packets.skip(1),
            pos: 0,
            immediate: tx.packets.len() > 1,
        }),
        tx.pos + n < tx.packets[0].bytes.len() ==> tx.after_write(n) == (TxView {
            packets: tx.packets,
            pos: tx.pos + n,
            immediate: tx.immediate && tx.packets[0].set_dup && tx.pos == 0 && n > 0,
        }),
{
    assert(TxView::idle().queued(bytes, set_dup).packets =~= seq![OutgoingView { bytes, set_dup }]);
}

/// What is to be written next is everything that is left of the current packet, but for the
/// byte with the duplicate flag, which is written by itself.
pub proof fn law_chunk(tx: TxView)
    requires
        tx.packets.len() > 0,
        tx.pos < tx.packets[0].bytes.len(),
    ensures
        tx.packets[0].set_dup && tx.pos == 0 ==> tx.chunk() == seq![tx.packets[0].bytes[0] | 8],
        !(tx.packets[0].set_dup && tx.pos == 0) ==> tx.chunk() == tx.packets[0].bytes.skip(
            tx.pos as int,
        ),
{
    if tx.packets[0].set_dup && tx.pos == 0 {
        assert(tx.chunk() =~= seq![tx.packets[0].bytes[0] | 8]);
    } else {
        assert(tx.chunk() =~= tx.packets[0].bytes.skip(tx.pos as int));
    }
}

} // verus!
