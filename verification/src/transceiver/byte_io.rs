//! Reading and writing the data types that packets are made of.

use std::str;

use vstd::prelude::*;
use vstd::slice::slice_subrange;
use vstd::utf8::{decode_utf8, encode_utf8, valid_utf8};

use crate::errors::{utf8_error, PacketDecodeError};

verus! {

/// The two bytes of `n`, most significant byte first.
pub open spec fn be_bytes(n: u16) -> Seq<u8> {
    seq![(n / 256) as u8, (n % 256) as u8]
}

/// The number that two bytes stand for, most significant byte first.
pub open spec fn be_value(hi: u8, lo: u8) -> u16 {
    (hi * 256 + lo) as u16
}

/// `bytes` preceded by its length as two bytes, most significant byte first.
pub open spec fn with_len(bytes: Seq<u8>) -> Seq<u8> {
    be_bytes(bytes.len() as u16) + bytes
}

/// What reading from a byte sequence gives: a value or an error, and the bytes
/// that are left to read afterwards.
pub type Parsed<T> = (Result<T, PacketDecodeError>, Seq<u8>);

/// Reads one byte.
pub open spec fn parse_u8(s: Seq<u8>) -> Parsed<u8> {
    if s.len() < 1 {
        (Err(PacketDecodeError::ReachedEndUnexpectedly), s)
    } else {
        (Ok(s[0]), s.skip(1))
    }
}

/// Reads `n` bytes.
pub open spec fn parse_bytes(s: Seq<u8>, n: nat) -> Parsed<Seq<u8>> {
    if s.len() < n {
        (Err(PacketDecodeError::ReachedEndUnexpectedly), s)
    } else {
        (Ok(s.take(n as int)), s.skip(n as int))
    }
}

/// Reads a number of two bytes.
pub open spec fn parse_u16(s: Seq<u8>) -> Parsed<u16> {
    if s.len() < 2 {
        (Err(PacketDecodeError::ReachedEndUnexpectedly), s)
    } else {
        (Ok(be_value(s[0], s[1])), s.skip(2))
    }
}

/// Reads a byte array prefixed by its length.
pub open spec fn parse_array(s: Seq<u8>) -> Parsed<Seq<u8>> {
    let (len, rest) = parse_u16(s);
    match len {
        Ok(n) => parse_bytes(rest, n as nat),
        Err(e) => (Err(e), rest),
    }
}

/// Reads a string prefixed by its length in bytes.
pub open spec fn parse_utf8(s: Seq<u8>) -> Parsed<Seq<char>> {
    let (array, rest) = parse_array(s);
    match array {
        Ok(bytes) => if valid_utf8(bytes) {
            (Ok(decode_utf8(bytes)), rest)
        } else {
            (Err(PacketDecodeError::Utf8Error(utf8_error(bytes))), rest)
        },
        Err(e) => (Err(e), rest),
    }
}

/// A marker for values in big endian byte order. These values must be converted
/// into native numbers before processing them.
#[derive(Clone, Copy)]
pub struct BigEndian<T: Copy>(pub T);

impl BigEndian<[u8; 2]> {
    /// The number whose bytes these are.
    pub open spec fn value(self) -> u16 {
        be_value(self.0@[0], self.0@[1])
    }

    /// Converts a u16 integer into its big endian bytes.
    pub fn from_native(val: u16) -> (r: Self)
        ensures
            r.0@ == be_bytes(val),
            r.value() == val,
    {
        BigEndian([(val / 256) as u8, (val % 256) as u8])
    }

    /// Converts big endian bytes into the number they stand for.
    pub fn to_native(self) -> (r: u16)
        ensures
            r == self.value(),
    {
        self.0[0] as u16 * 256 + self.0[1] as u16
    }
}

/// A utility struct to help with reading MQTT v3 packet data types from byte slices.
/// Every time a read occurs, the slice reference is offseted.
pub struct ByteReader<'a>(&'a [u8]);

impl<'a> View for ByteReader<'a> {
    type V = Seq<u8>;

    /// The bytes that are left to read.
    closed spec fn view(&self) -> Seq<u8> {
        self.0@
    }
}

impl<'a> ByteReader<'a> {
    /// Instantiates a new [`ByteReader`] using the provided slice.
    pub fn new(bytes: &'a [u8]) -> (r: Self)
        ensures
            r@ == bytes@,
    {
        ByteReader(bytes)
    }

    /// Reads a single byte and returns it.
    ///
    /// A [`PacketDecodeError`] is returned if the slice was empty.
    pub fn read_u8(&mut self) -> (r: Result<u8, PacketDecodeError>)
        ensures
            match parse_u8(old(self)@).0 {
                Ok(v) => r == Ok::<u8, PacketDecodeError>(v),
                Err(e) => r == Err::<u8, PacketDecodeError>(e),
            },
            final(self)@ == parse_u8(old(self)@).1,
    {
        if self.0.len() < 1 {
            return Err(PacketDecodeError::ReachedEndUnexpectedly);
        }
        let ret: u8 = self.0[0];
        self.0 = slice_subrange(self.0, 1, self.0.len());
        Ok(ret)
    }

    /// Reads `len` raw bytes.
    ///
    /// A [`PacketDecodeError`] will be returned if not enough bytes are left in
    /// the slice.
    pub fn read_trivial(&mut self, len: usize) -> (r: Result<&'a [u8], PacketDecodeError>)
        ensures
            match parse_bytes(old(self)@, len as nat).0 {
                Ok(v) => r matches Ok(s) && s@ == v,
                Err(e) => r == Err::<&[u8], PacketDecodeError>(e),
            },
            final(self)@ == parse_bytes(old(self)@, len as nat).1,
    {
        if self.0.len() < len {
            return Err(PacketDecodeError::ReachedEndUnexpectedly);
        }
        let ret: &'a [u8] = slice_subrange(self.0, 0, len);
        self.0 = slice_subrange(self.0, len, self.0.len());
        Ok(ret)
    }

    /// Reads a big endian u16. This value needs to by converted into native byte
    /// order before being processed. See [`BigEndian`] for more information.
    ///
    /// A [`PacketDecodeError`] will be returned if not enough bytes are left in
    /// the slice.
    pub fn read_u16(&mut self) -> (r: Result<BigEndian<[u8; 2]>, PacketDecodeError>)
        ensures
            match parse_u16(old(self)@).0 {
                Ok(v) => r matches Ok(b) && b.value() == v,
                Err(e) => r == Err::<BigEndian<[u8; 2]>, PacketDecodeError>(e),
            },
            final(self)@ == parse_u16(old(self)@).1,
    {
        let bytes = self.read_trivial(2)?;
        Ok(BigEndian([bytes[0], bytes[1]]))
    }

    /// Reads a byte array prefixed with its length as a big endian u16. See MQTT
    /// v3 data types specification for more information.
    ///
    /// A [`PacketDecodeError`] will be returned if not enough bytes are left in
    /// the slice; a length field that could be read stays read.
    pub fn read_byte_array(&mut self) -> (r: Result<&'a [u8], PacketDecodeError>)
        ensures
            match parse_array(old(self)@).0 {
                Ok(v) => r matches Ok(s) && s@ == v,
                Err(e) => r == Err::<&[u8], PacketDecodeError>(e),
            },
            final(self)@ == parse_array(old(self)@).1,
    {
        let len: usize = self.read_u16()?.to_native() as usize;
        self.read_trivial(len)
    }

    /// Reads a UTF-8 string prefixed with its length as a big endian u16. See MQTT
    /// v3 data types specification for more information.
    ///
    /// A [`PacketDecodeError`] will be returned if not enough bytes are left in
    /// the slice, or if the string contains malformed UTF-8.
    pub fn read_utf8(&mut self) -> (r: Result<&'a str, PacketDecodeError>)
        ensures
            match parse_utf8(old(self)@).0 {
                Ok(v) => r matches Ok(s) && s@ == v,
                Err(e) => r == Err::<&str, PacketDecodeError>(e),
            },
            final(self)@ == parse_utf8(old(self)@).1,
    {
        broadcast use vstd::utf8::encode_utf8_decode_utf8;

        let slice = self.read_byte_array()?;
        match str::from_utf8(slice) {
            Ok(s) => Ok(s),
            Err(e) => Err(PacketDecodeError::Utf8Error(e)),
        }
    }

    /// Returns the remaining amount of bytes left in the buffer.
    pub fn remaining(&self) -> (r: usize)
        ensures
            r == self@.len(),
    {
        self.0.len()
    }

    /// Returns all the bytes left in this buffer as a u8 slice. After this,
    /// any attempt at reading from this [`ByteReader`] will fail with
    /// [`PacketDecodeError::ReachedEndUnexpectedly`].
    pub fn read_remaining(&mut self) -> (r: &'a [u8])
        ensures
            r@ == old(self)@,
            final(self)@ == Seq::<u8>::empty(),
    {
        let ret: &'a [u8] = self.0;
        self.0 = slice_subrange(self.0, 0, 0);
        ret
    }
}

/// A utility struct to help with writing MQTT v3 packet data types. It appends to
/// a buffer until a number of bytes that was fixed beforehand has been written.
pub struct ByteWriter {
    buf: Vec<u8>,
    end: usize,
}

impl View for ByteWriter {
    type V = Seq<u8>;

    /// What the buffer holds.
    closed spec fn view(&self) -> Seq<u8> {
        self.buf@
    }
}

impl ByteWriter {
    /// How many more bytes have to be written.
    pub closed spec fn space(&self) -> int {
        self.end - self.buf@.len()
    }

    /// Instantiates a new [`ByteWriter`] that appends `size` bytes to `dst`.
    pub fn new(dst: Vec<u8>, size: usize) -> (r: Self)
        requires
            dst@.len() + size <= usize::MAX,
        ensures
            r@ == dst@,
            r.space() == size,
    {
        let end: usize = dst.len() + size;
        ByteWriter { buf: dst, end }
    }

    /// Writes raw bytes, **without** any length field.
    pub fn write_trivial(&mut self, data: &[u8]) -> (r: &mut Self)
        requires
            old(self).space() >= data@.len(),
        ensures
            r@ == old(self)@ + data@,
            r.space() == old(self).space() - data@.len(),
            *final(self) == *final(r),
    {
        self.buf.extend_from_slice(data);
        assert(self.buf@ =~= old(self).buf@ + data@);
        self
    }

    /// Writes a single byte.
    pub fn write_u8(&mut self, byte: u8) -> (r: &mut Self)
        requires
            old(self).space() >= 1,
        ensures
            r@ == old(self)@.push(byte),
            r.space() == old(self).space() - 1,
            *final(self) == *final(r),
    {
        self.buf.push(byte);
        self
    }

    /// Writes a [`BigEndian`] u16.
    pub fn write_u16(&mut self, data: BigEndian<[u8; 2]>) -> (r: &mut Self)
        requires
            old(self).space() >= 2,
        ensures
            r@ == old(self)@ + data.0@,
            r.space() == old(self).space() - 2,
            *final(self) == *final(r),
    {
        self.buf.push(data.0[0]);
        self.buf.push(data.0[1]);
        assert(self.buf@ =~= old(self).buf@ + data.0@);
        self
    }

    /// Writes a byte slice prefixed with its length as a big endian u16.
    /// See MQTT v3 data types specification for more information.
    pub fn write_bytes(&mut self, bytes: &[u8]) -> (r: &mut Self)
        requires
            bytes@.len() <= u16::MAX,
            old(self).space() >= 2 + bytes@.len(),
        ensures
            r@ == old(self)@ + with_len(bytes@),
            r.space() == old(self).space() - 2 - bytes@.len(),
            *final(self) == *final(r),
    {
        let len: u16 = bytes.len() as u16;
        self.buf.push((len / 256) as u8);
        self.buf.push((len % 256) as u8);
        self.buf.extend_from_slice(bytes);
        assert(self.buf@ =~= old(self).buf@ + with_len(bytes@));
        self
    }

    /// Writes a raw byte slice, **without** any length field. This is
    /// generally used for the last field in the packet as the length information
    /// can be recovered using packet size.
    pub fn write_bytes_no_len(&mut self, bytes: &[u8]) -> (r: &mut Self)
        requires
            old(self).space() >= bytes@.len(),
        ensures
            r@ == old(self)@ + bytes@,
            r.space() == old(self).space() - bytes@.len(),
            *final(self) == *final(r),
    {
        self.write_trivial(bytes)
    }

    /// Hands the buffer out once all the bytes have been written.
    pub fn finish_and_check(self) -> (r: Vec<u8>)
        requires
            self.space() == 0,
        ensures
            r@ == self@,
    {
        self.buf
    }
}

/// A number read back from its two bytes is the number that was written.
pub proof fn law_u16_round_trip(n: u16, tail: Seq<u8>)
    ensures
        parse_u16(be_bytes(n) + tail) == (Ok::<u16, PacketDecodeError>(n), tail),
{
    assert((be_bytes(n) + tail).skip(2) =~= tail);
}

/// A byte array of at most 65535 bytes, read back from its encoding with a length
/// prefix, is the byte array that was written.
pub proof fn law_array_round_trip(bytes: Seq<u8>, tail: Seq<u8>)
    requires
        bytes.len() <= u16::MAX,
    ensures
        parse_array(with_len(bytes) + tail) == (Ok::<Seq<u8>, PacketDecodeError>(bytes), tail),
{
    let n = bytes.len() as u16;
    assert(with_len(bytes) + tail =~= be_bytes(n) + (bytes + tail));
    law_u16_round_trip(n, bytes + tail);
    assert((bytes + tail).take(n as int) =~= bytes);
    assert((bytes + tail).skip(n as int) =~= tail);
}

/// A string of at most 65535 bytes, read back from its encoding with a length
/// prefix, is the string that was written.
pub proof fn law_utf8_round_trip(chars: Seq<char>, tail: Seq<u8>)
    requires
        encode_utf8(chars).len() <= u16::MAX,
    ensures
        parse_utf8(with_len(encode_utf8(chars)) + tail) == (
            Ok::<Seq<char>, PacketDecodeError>(chars),
            tail,
        ),
{
    law_array_round_trip(encode_utf8(chars), tail);
    vstd::utf8::encode_utf8_valid_utf8(chars);
    vstd::utf8::encode_utf8_decode_utf8(chars);
}

} // verus!
