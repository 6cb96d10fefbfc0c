//! Everything that can go wrong.

use std::io;
use std::str::Utf8Error;

use vstd::prelude::*;
use vstd::string::StringSliceAdditionalSpecFns;
use vstd::utf8::valid_utf8;

use crate::text::{append_hex, digit};

verus! {

/// The error of the standard library's UTF-8 check. Its contents stay opaque.
#[verifier::external_type_specification]
#[verifier::external_body]
pub struct ExUtf8Error(Utf8Error);

/// The error of the standard library's input and output. Its contents stay opaque.
#[verifier::external_type_specification]
#[verifier::external_body]
pub struct ExIoError(io::Error);

/// The error of a TLS connection. Its contents stay opaque.
#[verifier::external_type_specification]
#[verifier::external_body]
pub struct ExTlsError(rustls::Error);

/// The error that the UTF-8 check reports on `bytes`.
pub uninterp spec fn utf8_error(bytes: Seq<u8>) -> Utf8Error;

/// `std::str::from_utf8` succeeds exactly on valid UTF-8, borrows the same
/// bytes as a string, and otherwise reports an error that depends on the bytes
/// alone.
pub assume_specification<'a>[ std::str::from_utf8 ](v: &'a [u8]) -> (res: Result<&'a str, Utf8Error>)
    ensures
        res is Ok <==> valid_utf8(v@),
        res matches Ok(s) ==> s.spec_bytes() == v@,
        res matches Err(e) ==> e == utf8_error(v@),
;

/// An enumeration of all the possible error codes returned by
/// the broker in response to the client's `CONNECT` packet.
#[derive(Debug, Clone, Copy, PartialEq, Eq, Structural)]
pub enum ServerConnectError {
    /// The broker refused our request for the MQTT v3 protocol.
    UnacceptableProtocolVersion,
    /// The identifier specified by the developer was not allowed by the broker.
    IdentifierRejected,
    /// The broker responded but is currently unavailable.
    ServerUnavailable,
    /// The username and/or password data is malformed.
    BadUserNameOrPassword,
    /// The client is not authorized to connect.
    NotAuthorized,
    /// The broker returned an error code that is reserved for future use.
    Unknown(u8),
    /// Not an official MQTT v3 error: the first packet that came back was no
    /// `CONNACK`, so the server is probably not an MQTT broker.
    ProtocolError,
}

/// Which operation triggered a timeout while trying to connect to the broker.
#[derive(Debug, Clone, Copy, PartialEq, Eq, Structural)]
pub enum TimeoutKind {
    /// The DNS lookup (host name resolving) timed out.
    DnsLookup,
    /// Establishing the TCP connection timed out.
    TcpConnect,
    /// The server did not reply to our `CONNECT` packet in time.
    MqttConnect,
}

/// What went wrong while trying to connect to the broker.
#[derive(Debug)]
pub enum ConnectError {
    /// The specified hostname cannot be used for a TLS connection.
    InvalidHostname,
    /// The TLS connection could not be created.
    TlsError(rustls::Error),
    /// An IO error occurred while establishing the TCP connection.
    IoError(io::Error),
    /// An IO error occurred while looking up the hostname.
    LookupHostError(io::Error),
    /// The hostname has no address with an enabled version of the Internet Protocol.
    HostnameNotFound,
    /// Something took too long.
    Timeout(TimeoutKind),
    /// The transceiver ended before the broker could answer.
    OneshotRecvError,
    /// The broker refused the connection.
    ServerError(ServerConnectError),
}

/// What went wrong while trying to publish a message.
#[derive(Debug, Clone, Copy, PartialEq, Eq, Structural)]
pub enum PublishError {
    /// The client's transceiver task terminated and thus the message
    /// might not have been transmitted to the broker.
    TransceiverTaskTerminated,
}

/// What went wrong while trying to publish a message without waiting.
#[derive(Debug, Clone, Copy, PartialEq, Eq, Structural)]
pub enum TryPublishError {
    /// The queue was full and thus the message was not sent.
    QueueFull,
    /// The client's transceiver task terminated and thus the message
    /// might not have been transmitted to the broker.
    TransceiverTaskTerminated,
}

/// What went wrong while trying to subscribe to a topic.
#[derive(Debug, Clone, Copy, PartialEq, Eq, Structural)]
pub enum SubscribeError {
    /// The broker denied the request to subscribe to the specified topic.
    RefusedByBroker,
    /// The client's transceiver task terminated before the client
    /// could subscribe to a topic.
    TransceiverTaskTerminated,
}

/// Why a packet couldn't be decoded.
#[derive(Debug)]
pub enum PacketDecodeError {
    /// More bytes were expected while decoding the packet.
    ReachedEndUnexpectedly,
    /// Found malformed UTF-8 while decoding a string contained in the packet.
    Utf8Error(Utf8Error),
    /// Invalid values were found in the packet.
    MalformedPacket,
    /// The size of the packet specified in the header is too high and thus
    /// the client preferred not to read it.
    ReachedMaxSize,
    /// The packet type field has an invalid value.
    InvalidPacketId(u8),
}

impl PacketDecodeError {
    /// This error in words.
    pub open spec fn spec_message(&self) -> Seq<char> {
        match *self {
            PacketDecodeError::ReachedEndUnexpectedly => "reached end of packet unexpectedly"@,
            PacketDecodeError::Utf8Error(_) => "invalid utf-8 found in packet"@,
            PacketDecodeError::MalformedPacket => "packet contained invalid values"@,
            PacketDecodeError::ReachedMaxSize => "maximum packet size reached"@,
            PacketDecodeError::InvalidPacketId(pid) => "packet with id 0x"@ + digit(
                (pid / 16) as nat,
            ) + digit((pid % 16) as nat) + " is invalid"@,
        }
    }

    /// Says what is wrong, in words.
    pub fn message(&self) -> (r: String)
        ensures
            r@ == self.spec_message(),
    {
        match self {
            PacketDecodeError::ReachedEndUnexpectedly => "reached end of packet unexpectedly".to_owned(),
            PacketDecodeError::Utf8Error(_) => "invalid utf-8 found in packet".to_owned(),
            PacketDecodeError::MalformedPacket => "packet contained invalid values".to_owned(),
            PacketDecodeError::ReachedMaxSize => "maximum packet size reached".to_owned(),
            PacketDecodeError::InvalidPacketId(pid) => {
                let mut r = "packet with id 0x".to_owned();
                append_hex(&mut r, *pid);
                r.append(" is invalid");
                r
            },
        }
    }

    /// Returns the error that led to this one, if any.
    pub fn source(&self) -> (r: Option<&Utf8Error>)
        ensures
            match *self {
                PacketDecodeError::Utf8Error(e) => r == Some(&e),
                _ => r is None,
            },
    {
        match self {
            PacketDecodeError::Utf8Error(src) => Some(src),
            _ => None,
        }
    }
}

/// Each error has its own words, and an invalid packet ID is told in hexadecimal.
pub proof fn law_messages(pid: u8, e: Utf8Error)
    ensures
        PacketDecodeError::ReachedEndUnexpectedly.spec_message()
            == "reached end of packet unexpectedly"@,
        PacketDecodeError::Utf8Error(e).spec_message() == "invalid utf-8 found in packet"@,
        PacketDecodeError::MalformedPacket.spec_message() == "packet contained invalid values"@,
        PacketDecodeError::ReachedMaxSize.spec_message() == "maximum packet size reached"@,
        PacketDecodeError::InvalidPacketId(pid).spec_message() == "packet with id 0x"@ + seq![
            "0123456789abcdef"@[pid as int / 16],
            "0123456789abcdef"@[pid as int % 16],
        ] + " is invalid"@,
{
    reveal_strlit("0123456789abcdef");
    let digits = seq!["0123456789abcdef"@[pid as int / 16], "0123456789abcdef"@[pid as int % 16]];
    assert(digit((pid / 16) as nat) + digit((pid % 16) as nat) =~= digits);
    assert(PacketDecodeError::InvalidPacketId(pid).spec_message() =~= "packet with id 0x"@ + digits
        + " is invalid"@);
}

} // verus!
