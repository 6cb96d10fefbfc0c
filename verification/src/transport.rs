//! What to make of the results of reading and writing.

use vstd::prelude::*;

verus! {

/// What a transport is waiting for.
#[derive(Debug, Clone, Copy, PartialEq, Eq, Structural)]
pub struct WantedFlags {
    /// The transport wants to read
    pub read: bool,
    /// The transport wants to write
    pub write: bool,
}

impl WantedFlags {
    /// A plain TCP connection wants what its user wants.
    pub fn plain(rd_hint: bool, wr_hint: bool) -> (r: Self)
        ensures
            r == (WantedFlags { read: rd_hint, write: wr_hint }),
    {
        WantedFlags { read: rd_hint, write: wr_hint }
    }
}

/// What became of an attempt to read or write without waiting.
#[derive(Debug, Clone, Copy, PartialEq, Eq, Structural)]
pub enum IoStatus {
    /// So many bytes have been read or written
    Done(usize),
    /// Nothing can be read or written without waiting
    WouldBlock,
    /// Something went wrong
    Failed,
}

/// What comes of a write to a plain TCP connection. Where `zero_if_would_block` is set,
/// having to wait counts as having written nothing.
pub open spec fn spec_plain_write(status: IoStatus, zero_if_would_block: bool) -> IoStatus {
    if status == IoStatus::WouldBlock && zero_if_would_block {
        IoStatus::Done(0)
    } else {
        status
    }
}

/// Tells what came of a write to a plain TCP connection.
pub fn plain_write(status: IoStatus, zero_if_would_block: bool) -> (r: IoStatus)
    ensures
        r == spec_plain_write(status, zero_if_would_block),
{
    match status {
        IoStatus::WouldBlock => if zero_if_would_block {
            IoStatus::Done(0)
        } else {
            IoStatus::WouldBlock
        },
        _ => status,
    }
}

/// What comes of a write to the buffers of a TLS connection. Unless
/// `zero_if_would_block` is set, having written nothing counts as having to wait.
pub open spec fn spec_tls_write(written: usize, zero_if_would_block: bool) -> IoStatus {
    if written == 0 && !zero_if_would_block {
        IoStatus::WouldBlock
    } else {
        IoStatus::Done(written)
    }
}

/// Tells what came of a write to the buffers of a TLS connection.
pub fn tls_write(written: usize, zero_if_would_block: bool) -> (r: IoStatus)
    ensures
        r == spec_tls_write(written, zero_if_would_block),
{
    if written == 0 && !zero_if_would_block {
        IoStatus::WouldBlock
    } else {
        IoStatus::Done(written)
    }
}

/// What to do before writing to a TLS connection.
#[derive(Debug, Clone, Copy, PartialEq, Eq, Structural)]
pub enum PreWrite {
    /// Go on
    Ready,
    /// The connection has been closed
    UnexpectedEof,
    /// Report what went wrong
    Failed,
}

/// Tells what came of handing the encrypted bytes of a TLS connection to its TCP connection.
pub fn tls_pre_write(status: IoStatus) -> (r: PreWrite)
    ensures
        r == (match status {
            IoStatus::Done(n) => if n == 0 {
                PreWrite::UnexpectedEof
            } else {
                PreWrite::Ready
            },
            IoStatus::WouldBlock => PreWrite::Ready,
            IoStatus::Failed => PreWrite::Failed,
        }),
{
    match status {
        IoStatus::Done(n) => if n == 0 {
            PreWrite::UnexpectedEof
        } else {
            PreWrite::Ready
        },
        IoStatus::WouldBlock => PreWrite::Ready,
        IoStatus::Failed => PreWrite::Failed,
    }
}

/// A write that counts having to wait as having written nothing never asks to wait.
/// Otherwise, a write to a TLS connection never reports that nothing was written.
pub proof fn law_zero_if_would_block(status: IoStatus, written: usize)
    ensures
        spec_plain_write(status, true) != IoStatus::WouldBlock,
        spec_tls_write(written, true) != IoStatus::WouldBlock,
        spec_tls_write(written, false) != IoStatus::Done(0),
{
}

/// What comes of a write is what was reported, but for having to wait and having written
/// nothing, which count as each other where that is asked for.
pub proof fn law_write_results(status: IoStatus, written: usize, zero: bool)
    ensures
        status != IoStatus::WouldBlock ==> spec_plain_write(status, zero) == status,
        spec_plain_write(IoStatus::WouldBlock, true) == IoStatus::Done(0),
        spec_plain_write(IoStatus::WouldBlock, false) == IoStatus::WouldBlock,
        written > 0 ==> spec_tls_write(written, zero) == IoStatus::Done(written),
        spec_tls_write(0, true) == IoStatus::Done(0),
        spec_tls_write(0, false) == IoStatus::WouldBlock,
{
}

} // verus!
