//! The packets that establish a connection.

use vstd::prelude::*;
use vstd::utf8::encode_utf8;

use super::{ControlField, Encode, Packet, PacketType};
use super::super::byte_io::{be_bytes, be_value, law_array_round_trip, law_utf8_round_trip};
use super::super::byte_io::{parse_array, parse_bytes, parse_utf8, with_len};
use super::super::byte_io::{BigEndian, ByteReader, ByteWriter, Parsed};
use crate::errors::{PacketDecodeError, ServerConnectError};
use crate::options::LastWill;
use crate::QoS;

verus! {

/// What a last will says.
pub struct WillView {
    pub topic: Seq<char>,
    pub message: Seq<u8>,
    pub retain: bool,
    pub qos: QoS,
}

/// What a `CONNECT` packet says.
pub struct ConnectView {
    pub clean_session: bool,
    pub keep_alive: u16,
    pub client_id: Seq<char>,
    pub will: Option<WillView>,
    pub username: Option<Seq<char>>,
    pub password: Option<Seq<u8>>,
}

impl<'a> View for LastWill<'a> {
    type V = WillView;

    open spec fn view(&self) -> WillView {
        WillView {
            topic: self.topic@,
            message: self.message@,
            retain: self.retain,
            qos: self.qos,
        }
    }
}

impl WillView {
    /// Whether the topic and the message fit in their fields.
    pub open spec fn fits(self) -> bool {
        encode_utf8(self.topic).len() <= u16::MAX && self.message.len() <= u16::MAX
    }
}

/// A bit as a number.
pub open spec fn bit(b: bool) -> int {
    if b {
        1
    } else {
        0
    }
}

impl ConnectView {
    /// Whether every field fits in its two-byte length.
    pub open spec fn fits(self) -> bool {
        &&& encode_utf8(self.client_id).len() <= u16::MAX
        &&& self.will matches Some(w) ==> w.fits()
        &&& self.username matches Some(x) ==> encode_utf8(x).len() <= u16::MAX
        &&& self.password matches Some(x) ==> x.len() <= u16::MAX
    }

    /// The connect flags: from the top bit down, user name, password, will retain, two
    /// bits of will quality of service, will, clean session; the lowest bit is reserved.
    pub open spec fn flags(self) -> u8 {
        let will = match self.will {
            Some(w) => 32 * bit(w.retain) + 8 * w.qos.spec_code() + 4,
            None => 0,
        };
        (128 * bit(self.username is Some) + 64 * bit(self.password is Some) + will + 2 * bit(
            self.clean_session,
        )) as u8
    }

    /// The fixed part of the variable header.
    pub open spec fn header(self) -> Seq<u8> {
        seq![0u8, 4u8, 77u8, 81u8, 84u8, 84u8, 4u8, self.flags()] + be_bytes(self.keep_alive)
    }

    /// The last will's fields.
    pub open spec fn will_bytes(self) -> Seq<u8> {
        match self.will {
            Some(w) => with_len(encode_utf8(w.topic)) + with_len(w.message),
            None => Seq::empty(),
        }
    }

    /// The user name's field.
    pub open spec fn username_bytes(self) -> Seq<u8> {
        match self.username {
            Some(x) => with_len(encode_utf8(x)),
            None => Seq::empty(),
        }
    }

    /// The password's field.
    pub open spec fn password_bytes(self) -> Seq<u8> {
        match self.password {
            Some(x) => with_len(x),
            None => Seq::empty(),
        }
    }

    /// The packet's body.
    pub open spec fn body(self) -> Seq<u8> {
        self.header() + with_len(encode_utf8(self.client_id)) + self.will_bytes()
            + self.username_bytes() + self.password_bytes()
    }
}

/// The first packet that a client sends.
pub struct ConnectPacket<'a> {
    pub clean_session: bool,
    pub keep_alive: u16,
    pub client_id: &'a str,
    pub will: Option<LastWill<'a>>,
    pub username: Option<&'a str>,
    pub password: Option<&'a [u8]>,
}

impl<'a> View for ConnectPacket<'a> {
    type V = ConnectView;

    open spec fn view(&self) -> ConnectView {
        ConnectView {
            clean_session: self.clean_session,
            keep_alive: self.keep_alive,
            client_id: self.client_id@,
            will: match self.will {
                Some(w) => Some(w@),
                None => None,
            },
            username: match self.username {
                Some(x) => Some(x@),
                None => None,
            },
            password: match self.password {
                Some(x) => Some(x@),
                None => None,
            },
        }
    }
}

/// Returns the number of bytes needed to encode the specified byte array (or string)
/// into an MQTT packet.
pub(crate) fn array_size(a: &[u8]) -> (r: usize)
    requires
        a@.len() <= u16::MAX,
    ensures
        r == with_len(a@).len(),
        r <= 65537,
{
    2 + a.len()
}

impl<'a> Packet for ConnectPacket<'a> {
    open spec fn spec_packet_type() -> PacketType {
        PacketType::Connect
    }

    fn packet_type() -> (r: PacketType) {
        PacketType::Connect
    }
}

impl<'a> Encode for ConnectPacket<'a> {
    open spec fn body(&self) -> Seq<u8> {
        self@.body()
    }

    open spec fn control_flags(&self) -> u8 {
        0
    }

    open spec fn encodable(&self) -> bool {
        self@.fits()
    }

    fn is_encodable(&self) -> (r: bool) {
        let max: usize = 65535;
        let will = match &self.will {
            Some(w) => w.topic.as_bytes().len() <= max && w.message.len() <= max,
            None => true,
        };
        let username = match self.username {
            Some(x) => x.as_bytes().len() <= max,
            None => true,
        };
        let password = match self.password {
            Some(x) => x.len() <= max,
            None => true,
        };
        self.client_id.as_bytes().len() <= max && will && username && password
    }

    fn compute_size(&self) -> (r: usize) {
        let mut ret: usize = 10 + array_size(self.client_id.as_bytes());
        if let Some(will) = &self.will {
            ret += array_size(will.topic.as_bytes());
            ret += array_size(will.message);
        }
        if let Some(x) = self.username {
            ret += array_size(x.as_bytes());
        }
        if let Some(x) = self.password {
            ret += array_size(x);
        }
        ret
    }

    fn encode(&self, wr: &mut ByteWriter) -> (flags: u8) {
        //Variable header
        let flags: u8 = self.connect_flags();
        let hdr: [u8; 8] = [0, 4, 77, 81, 84, 84, 4, flags];
        wr.write_trivial(&hdr);
        wr.write_u16(BigEndian::from_native(self.keep_alive));
        assert(wr@ =~= old(wr)@ + self@.header());

        //Payload
        wr.write_bytes(self.client_id.as_bytes());
        self.encode_will(wr);
        if let Some(x) = self.username {
            wr.write_bytes(x.as_bytes());
        } else {
            assert(wr@ =~= wr@ + self@.username_bytes());
        }
        if let Some(x) = self.password {
            wr.write_bytes(x);
        } else {
            assert(wr@ =~= wr@ + self@.password_bytes());
        }
        assert(wr@ =~= old(wr)@ + self@.body());
        0
    }
}

impl<'a> ConnectPacket<'a> {
    /// Computes the connect flags.
    fn connect_flags(&self) -> (r: u8)
        ensures
            r == self@.flags(),
    {
        let mut flags: u8 = 0;
        if self.clean_session {
            flags += 2;
        }
        if let Some(will) = &self.will {
            flags += 4;
            flags += will.qos.code() * 8;
            if will.retain {
                flags += 32;
            }
        }
        if self.password.is_some() {
            flags += 64;
        }
        if self.username.is_some() {
            flags += 128;
        }
        flags
    }

    /// Writes the last will's fields, if there is one.
    fn encode_will(&self, wr: &mut ByteWriter)
        requires
            self@.fits(),
            old(wr).space() >= self@.will_bytes().len(),
        ensures
            final(wr)@ == old(wr)@ + self@.will_bytes(),
            final(wr).space() == old(wr).space() - self@.will_bytes().len(),
    {
        if let Some(will) = &self.will {
            wr.write_bytes(will.topic.as_bytes());
            wr.write_bytes(will.message);
        }
        assert(wr@ =~= old(wr)@ + self@.will_bytes());
    }
}

/// Last will structure on the broker's side.
/// For more information regarding the last will, see [`LastWill`].
pub struct IncomingLastWill {
    pub topic: String,
    pub message: Vec<u8>,
    pub retain: bool,
    pub qos: QoS,
}

impl View for IncomingLastWill {
    type V = WillView;

    open spec fn view(&self) -> WillView {
        WillView {
            topic: self.topic@,
            message: self.message@,
            retain: self.retain,
            qos: self.qos,
        }
    }
}

/// A `CONNECT` packet as the broker reads it.
pub struct IncomingConnectPacket {
    pub clean_session: bool,
    pub keep_alive: u16,
    pub client_id: String,
    pub will: Option<IncomingLastWill>,
    pub username: Option<String>,
    pub password: Option<Vec<u8>>,
}

impl View for IncomingConnectPacket {
    type V = ConnectView;

    open spec fn view(&self) -> ConnectView {
        ConnectView {
            clean_session: self.clean_session,
            keep_alive: self.keep_alive,
            client_id: self.client_id@,
            will: match self.will {
                Some(w) => Some(w@),
                None => None,
            },
            username: match self.username {
                Some(x) => Some(x@),
                None => None,
            },
            password: match self.password {
                Some(x) => Some(x@),
                None => None,
            },
        }
    }
}

/// Reads the last will that connect flags announce.
pub open spec fn parse_will(flags: u8, s: Seq<u8>) -> Parsed<Option<WillView>> {
    if flags / 4 % 2 == 0 {
        (Ok(None), s)
    } else {
        let (topic, rest) = parse_utf8(s);
        match topic {
            Err(e) => (Err(e), rest),
            Ok(topic) => {
                let (message, rest) = parse_array(rest);
                match message {
                    Err(e) => (Err(e), rest),
                    Ok(message) => (
                        Ok(
                            Some(
                                WillView {
                                    topic,
                                    message,
                                    retain: flags / 32 % 2 == 1,
                                    qos: QoS::spec_from_code((flags / 8 % 4) as u8)->0,
                                },
                            ),
                        ),
                        rest,
                    ),
                }
            },
        }
    }
}

/// Reads a string if it is there.
pub open spec fn parse_optional_utf8(present: bool, s: Seq<u8>) -> Parsed<Option<Seq<char>>> {
    if present {
        let (x, rest) = parse_utf8(s);
        match x {
            Ok(x) => (Ok(Some(x)), rest),
            Err(e) => (Err(e), rest),
        }
    } else {
        (Ok(None), s)
    }
}

/// Reads a byte array if it is there.
pub open spec fn parse_optional_array(present: bool, s: Seq<u8>) -> Parsed<Option<Seq<u8>>> {
    if present {
        let (x, rest) = parse_array(s);
        match x {
            Ok(x) => (Ok(Some(x)), rest),
            Err(e) => (Err(e), rest),
        }
    } else {
        (Ok(None), s)
    }
}

/// Reads the body of a `CONNECT` packet.
pub open spec fn parse_connect(s: Seq<u8>) -> Parsed<ConnectView> {
    let (hdr, rest) = parse_bytes(s, 10);
    match hdr {
        Err(e) => (Err(e), rest),
        Ok(hdr) => parse_connect_payload(hdr[7], be_value(hdr[8], hdr[9]), rest),
    }
}

/// Reads the payload of a `CONNECT` packet whose header holds `flags` and `keep_alive`.
pub open spec fn parse_connect_payload(flags: u8, keep_alive: u16, s: Seq<u8>) -> Parsed<
    ConnectView,
> {
    let (client_id, rest) = parse_utf8(s);
    match client_id {
        Err(e) => (Err(e), rest),
        Ok(client_id) => {
            let (will, rest) = parse_will(flags, rest);
            match will {
                Err(e) => (Err(e), rest),
                Ok(will) => {
                    let (username, rest) = parse_optional_utf8(flags / 128 == 1, rest);
                    match username {
                        Err(e) => (Err(e), rest),
                        Ok(username) => {
                            let (password, rest) = parse_optional_array(flags / 64 % 2 == 1, rest);
                            match password {
                                Err(e) => (Err(e), rest),
                                Ok(password) => (
                                    Ok(
                                        ConnectView {
                                            clean_session: flags / 2 % 2 == 1,
                                            keep_alive,
                                            client_id,
                                            will,
                                            username,
                                            password,
                                        },
                                    ),
                                    rest,
                                ),
                            }
                        },
                    }
                },
            }
        },
    }
}

/// Whether `s`, as far as it is a `CONNECT` packet, is one of this protocol: its name
/// and level are right, and a will that is there in full has a quality of service.
pub open spec fn connect_is_supported(s: Seq<u8>) -> bool {
    s.len() >= 10 ==> {
        &&& s.take(7) == seq![0u8, 4u8, 77u8, 81u8, 84u8, 84u8, 4u8]
        &&& s[7] / 4 % 2 == 1 && parse_utf8(s.skip(10)).0 is Ok && parse_will(
            s[7],
            parse_utf8(s.skip(10)).1,
        ).0 is Ok ==> s[7] / 8 % 4 != 3
    }
}

impl Packet for IncomingConnectPacket {
    open spec fn spec_packet_type() -> PacketType {
        PacketType::Connect
    }

    fn packet_type() -> (r: PacketType) {
        PacketType::Connect
    }
}

impl IncomingLastWill {
    /// Reads the last will that connect flags announce.
    fn decode(rd: &mut ByteReader, flags: u8) -> (r: Result<Option<Self>, PacketDecodeError>)
        requires
            flags / 4 % 2 == 1 && parse_will(flags, old(rd)@).0 is Ok ==> flags / 8 % 4 != 3,
        ensures
            match parse_will(flags, old(rd)@).0 {
                Ok(Some(v)) => r matches Ok(Some(w)) && w@ == v,
                Ok(None) => r == Ok::<Option<Self>, PacketDecodeError>(None),
                Err(e) => r == Err::<Option<Self>, PacketDecodeError>(e),
            },
            final(rd)@ == parse_will(flags, old(rd)@).1,
    {
        if flags / 4 % 2 == 0 {
            return Ok(None);
        }
        let topic = rd.read_utf8()?.to_owned();
        let message = slice_to_vec(rd.read_byte_array()?);
        let retain = flags / 32 % 2 == 1;
        match QoS::from_code(flags / 8 % 4) {
            Some(qos) => Ok(Some(IncomingLastWill { topic, message, retain, qos })),
            None => Ok(None),
        }
    }
}

/// Copies the specified bytes.
pub(crate) fn slice_to_vec(bytes: &[u8]) -> (r: Vec<u8>)
    ensures
        r@ == bytes@,
{
    let mut ret: Vec<u8> = Vec::with_capacity(bytes.len());
    ret.extend_from_slice(bytes);
    assert(ret@ =~= bytes@);
    ret
}

impl IncomingConnectPacket {
    /// Reads the body of a `CONNECT` packet.
    pub fn decode(rd: &mut ByteReader, ctrl_field: ControlField) -> (r: Result<
        Self,
        PacketDecodeError,
    >)
        requires
            ctrl_field.spec_flags() == 0,
            connect_is_supported(old(rd)@),
        ensures
            match parse_connect(old(rd)@).0 {
                Ok(v) => r matches Ok(p) && p@ == v,
                Err(e) => r == Err::<Self, PacketDecodeError>(e),
            },
            final(rd)@ == parse_connect(old(rd)@).1,
    {
        let hdr = rd.read_trivial(10)?;
        let flags: u8 = hdr[7];
        let keep_alive: u16 = BigEndian([hdr[8], hdr[9]]).to_native();
        let client_id = rd.read_utf8()?.to_owned();
        let will = IncomingLastWill::decode(rd, flags)?;
        let username = if flags / 128 == 0 {
            None
        } else {
            Some(rd.read_utf8()?.to_owned())
        };
        let password = if flags / 64 % 2 == 0 {
            None
        } else {
            Some(slice_to_vec(rd.read_byte_array()?))
        };
        let clean_session = flags / 2 % 2 == 1;
        Ok(IncomingConnectPacket { clean_session, keep_alive, client_id, will, username, password })
    }
}

/// Each of the connect flags can be told from their byte.
pub(crate) proof fn lemma_connect_flags(v: ConnectView)
    ensures
        v.flags() / 128 == bit(v.username is Some),
        v.flags() / 64 % 2 == bit(v.password is Some),
        v.flags() / 4 % 2 == bit(v.will is Some),
        v.flags() / 2 % 2 == bit(v.clean_session),
        v.will matches Some(w) ==> v.flags() / 32 % 2 == bit(w.retain) && v.flags() / 8 % 4
            == w.qos.spec_code(),
{
    let flags = v.flags() as int;
    let (u, p) = (bit(v.username is Some), bit(v.password is Some));
    let c = bit(v.clean_session);
    let (w, q, r) = match v.will {
        Some(w) => (1int, w.qos.spec_code() as int, bit(w.retain)),
        None => (0int, 0int, 0int),
    };
    assert(flags == 128 * u + 64 * p + 32 * r + 8 * q + 4 * w + 2 * c);
    assert(flags / 128 == u && flags / 64 == 2 * u + p && flags / 32 == 4 * u + 2 * p + r && flags
        / 8 == 16 * u + 8 * p + 4 * r + q && flags / 4 == 32 * u + 16 * p + 8 * r + 2 * q + w
        && flags / 2 == 64 * u + 32 * p + 16 * r + 4 * q + 2 * w + c);
}

/// A last will is read back as it was written.
proof fn lemma_will_round_trip(v: ConnectView, tail: Seq<u8>)
    requires
        v.fits(),
    ensures
        parse_will(v.flags(), v.will_bytes() + tail) == (
            Ok::<Option<WillView>, PacketDecodeError>(v.will),
            tail,
        ),
{
    lemma_connect_flags(v);
    let s = v.will_bytes() + tail;
    if let Some(will) = v.will {
        let after_topic = with_len(will.message) + tail;
        assert(s =~= with_len(encode_utf8(will.topic)) + after_topic);
        law_utf8_round_trip(will.topic, after_topic);
        law_array_round_trip(will.message, tail);
    } else {
        assert(s =~= tail);
    }
}

/// The user name and the password are read back as they were written.
proof fn lemma_credentials_round_trip(v: ConnectView, tail: Seq<u8>)
    requires
        v.fits(),
    ensures
        parse_optional_utf8(v.username is Some, v.username_bytes() + tail) == (
            Ok::<Option<Seq<char>>, PacketDecodeError>(v.username),
            tail,
        ),
        parse_optional_array(v.password is Some, v.password_bytes() + tail) == (
            Ok::<Option<Seq<u8>>, PacketDecodeError>(v.password),
            tail,
        ),
{
    if let Some(x) = v.username {
        law_utf8_round_trip(x, tail);
    } else {
        assert(v.username_bytes() + tail =~= tail);
    }
    if let Some(x) = v.password {
        law_array_round_trip(x, tail);
    } else {
        assert(v.password_bytes() + tail =~= tail);
    }
}

/// What a broker reads out of a client's `CONNECT` packet is what the client put in.
pub proof fn law_connect_round_trip(v: ConnectView, tail: Seq<u8>)
    requires
        v.fits(),
    ensures
        connect_is_supported(v.body() + tail),
        parse_connect(v.body() + tail) == (Ok::<ConnectView, PacketDecodeError>(v), tail),
{
    let s = v.body() + tail;
    let after_username = v.password_bytes() + tail;
    let after_will = v.username_bytes() + after_username;
    let after_id = v.will_bytes() + after_will;
    let payload = with_len(encode_utf8(v.client_id)) + after_id;
    assert(s =~= v.header() + payload);
    assert(s.take(10) =~= v.header());
    assert(s.skip(10) =~= payload);
    assert(s.take(7) =~= seq![0u8, 4u8, 77u8, 81u8, 84u8, 84u8, 4u8]);
    assert(s[7] == v.flags());
    assert(be_value(s[8], s[9]) == v.keep_alive);
    lemma_connect_flags(v);
    law_utf8_round_trip(v.client_id, after_id);
    lemma_will_round_trip(v, after_will);
    lemma_credentials_round_trip(v, after_username);
    lemma_credentials_round_trip(v, tail);
    assert(parse_connect_payload(v.flags(), v.keep_alive, payload) == (
        Ok::<ConnectView, PacketDecodeError>(v),
        tail,
    ));
}

/// The broker's answer to a `CONNECT` packet: whether the session was present, or
/// why the connection was refused.
#[derive(Debug, Clone, Copy)]
pub struct ConnAckPacket(pub Result<bool, ServerConnectError>);

/// What the two bytes of a `CONNACK` packet say.
pub open spec fn conn_ack_of(ack_flags: u8, return_code: u8) -> Result<bool, ServerConnectError> {
    if return_code == 0 {
        Ok(ack_flags % 2 == 1)
    } else if return_code == 1 {
        Err(ServerConnectError::UnacceptableProtocolVersion)
    } else if return_code == 2 {
        Err(ServerConnectError::IdentifierRejected)
    } else if return_code == 3 {
        Err(ServerConnectError::ServerUnavailable)
    } else if return_code == 4 {
        Err(ServerConnectError::BadUserNameOrPassword)
    } else if return_code == 5 {
        Err(ServerConnectError::NotAuthorized)
    } else {
        Err(ServerConnectError::Unknown(return_code))
    }
}

/// Reads the body of a `CONNACK` packet.
pub open spec fn parse_conn_ack(s: Seq<u8>) -> Parsed<Result<bool, ServerConnectError>> {
    let (hdr, rest) = parse_bytes(s, 2);
    match hdr {
        Err(e) => (Err(e), rest),
        Ok(hdr) => (Ok(conn_ack_of(hdr[0], hdr[1])), rest),
    }
}

/// The two bytes of a `CONNACK` packet.
pub open spec fn conn_ack_bytes(answer: Result<bool, ServerConnectError>) -> Seq<u8> {
    match answer {
        Ok(present) => seq![bit(present) as u8, 0u8],
        Err(ServerConnectError::UnacceptableProtocolVersion) => seq![0u8, 1u8],
        Err(ServerConnectError::IdentifierRejected) => seq![0u8, 2u8],
        Err(ServerConnectError::ServerUnavailable) => seq![0u8, 3u8],
        Err(ServerConnectError::BadUserNameOrPassword) => seq![0u8, 4u8],
        Err(ServerConnectError::NotAuthorized) => seq![0u8, 5u8],
        Err(ServerConnectError::Unknown(x)) => seq![0u8, x],
        Err(ServerConnectError::ProtocolError) => seq![0u8, 0u8],
    }
}

impl Packet for ConnAckPacket {
    open spec fn spec_packet_type() -> PacketType {
        PacketType::ConnAck
    }

    fn packet_type() -> (r: PacketType) {
        PacketType::ConnAck
    }
}

impl ConnAckPacket {
    /// Reads the body of a `CONNACK` packet.
    pub fn decode(rd: &mut ByteReader, _ctrl_field: ControlField) -> (r: Result<
        Self,
        PacketDecodeError,
    >)
        ensures
            match parse_conn_ack(old(rd)@).0 {
                Ok(v) => r == Ok::<Self, PacketDecodeError>(ConnAckPacket(v)),
                Err(e) => r == Err::<Self, PacketDecodeError>(e),
            },
            final(rd)@ == parse_conn_ack(old(rd)@).1,
    {
        let hdr = rd.read_trivial(2)?;
        let answer = match hdr[1] {
            0 => Ok(hdr[0] % 2 == 1),
            1 => Err(ServerConnectError::UnacceptableProtocolVersion),
            2 => Err(ServerConnectError::IdentifierRejected),
            3 => Err(ServerConnectError::ServerUnavailable),
            4 => Err(ServerConnectError::BadUserNameOrPassword),
            5 => Err(ServerConnectError::NotAuthorized),
            x => Err(ServerConnectError::Unknown(x)),
        };
        Ok(ConnAckPacket(answer))
    }
}

impl Encode for ConnAckPacket {
    open spec fn body(&self) -> Seq<u8> {
        conn_ack_bytes(self.0)
    }

    open spec fn control_flags(&self) -> u8 {
        0
    }

    /// A protocol error is the client's own finding: no packet carries it.
    open spec fn encodable(&self) -> bool {
        self.0 != Err::<bool, ServerConnectError>(ServerConnectError::ProtocolError)
    }

    fn is_encodable(&self) -> (r: bool) {
        match self.0 {
            Err(ServerConnectError::ProtocolError) => false,
            _ => true,
        }
    }

    fn compute_size(&self) -> (r: usize) {
        2
    }

    fn encode(&self, wr: &mut ByteWriter) -> (flags: u8) {
        let (ack_flags, return_code): (u8, u8) = match self.0 {
            Ok(x) => (if x { 1 } else { 0 }, 0),
            Err(ServerConnectError::UnacceptableProtocolVersion) => (0, 1),
            Err(ServerConnectError::IdentifierRejected) => (0, 2),
            Err(ServerConnectError::ServerUnavailable) => (0, 3),
            Err(ServerConnectError::BadUserNameOrPassword) => (0, 4),
            Err(ServerConnectError::NotAuthorized) => (0, 5),
            Err(ServerConnectError::Unknown(x)) => (0, x),
            Err(ServerConnectError::ProtocolError) => (0, 0),
        };
        let hdr: [u8; 2] = [ack_flags, return_code];
        wr.write_trivial(&hdr);
        assert(hdr@ =~= conn_ack_bytes(self.0));
        0
    }
}

/// What the client reads out of a broker's `CONNACK` packet is what the broker put in,
/// but for an unknown return code that is not in fact unknown.
pub proof fn law_conn_ack_round_trip(answer: Result<bool, ServerConnectError>, tail: Seq<u8>)
    requires
        answer != Err::<bool, ServerConnectError>(ServerConnectError::ProtocolError),
        answer matches Err(ServerConnectError::Unknown(x)) ==> x > 5,
    ensures
        parse_conn_ack(conn_ack_bytes(answer) + tail) == (
            Ok::<Result<bool, ServerConnectError>, PacketDecodeError>(answer),
            tail,
        ),
{
    let s = conn_ack_bytes(answer) + tail;
    assert(s.skip(2) =~= tail);
    assert(s.take(2) =~= conn_ack_bytes(answer));
}

} // verus!
