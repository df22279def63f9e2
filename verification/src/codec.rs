//! Framing of packets on an encrypted stream.
//!
//! On the stream every packet travels as a frame: a length of two bytes,
//! big-endian, and as many bytes of encrypted payload. Decrypting a payload
//! and reading the packet in it is the caller's work; here the frames are
//! cut out of the receive buffer and written to the send buffer, and it is
//! decided what becomes of a frame once the caller has opened it.

use vstd::prelude::*;
use vstd::slice::slice_to_vec;
use bytes::BytesMut;
use nom::{ErrorKind, Needed};
use crate::buffer::{as_slice, buffered};

verus! {

/// A serialized packet is not longer than 2032 bytes.
pub const MAX_TCP_PACKET_SIZE: usize = 2032;

/// A frame is not longer than 2050 bytes.
pub const MAX_TCP_ENC_PACKET_SIZE: usize = 2050;

/// `nom::ErrorKind`, the kind of parser that rejected its input. Its inside
/// is not visible to the verifier.
#[verifier::external_type_specification]
#[verifier::external_body]
#[verifier::reject_recursive_types(E)]
pub struct ExErrorKind<E>(nom::ErrorKind<E>);

/// `nom::Needed`, the number of bytes that a parser lacked. Its inside is
/// not visible to the verifier.
#[verifier::external_type_specification]
#[verifier::external_body]
pub struct ExNeeded(nom::Needed);

/// `std::io::Error`. Its inside is not visible to the verifier.
#[verifier::external_type_specification]
#[verifier::external_body]
pub struct ExIoError(std::io::Error);

/// The encrypted payload of one frame.
#[derive(Clone, Debug, PartialEq, Eq)]
pub struct EncryptedPacket {
    /// Encrypted payload.
    pub payload: Vec<u8>,
}

/// What the head of a byte string is, read as a frame.
#[derive(Clone, Debug, PartialEq, Eq)]
pub enum Framing {
    /// More bytes are needed to tell.
    Incomplete,
    /// No frame starts like this.
    Invalid,
    /// A whole frame of `consumed` bytes, with the payload `packet`.
    Complete {
        /// Number of bytes that the frame takes, its length field included.
        consumed: usize,
        /// The payload of the frame.
        packet: EncryptedPacket,
    },
}

/// What a parser made of a decrypted payload.
#[derive(Debug)]
pub enum Parsed<P> {
    /// The payload holds the packet.
    Done(P),
    /// The payload holds no packet.
    Error(ErrorKind),
    /// The payload ends before the packet does.
    Incomplete(Needed),
}

/// Error that can happen when decoding a packet from bytes.
#[derive(Debug)]
#[allow(inconsistent_fields)]
pub enum DecodeError {
    /// Error indicates that received encrypted packet can't be parsed.
    DeserializeEncryptedError {
        /// Parsing error.
        error: ErrorKind,
        /// The receive buffer.
        buf: Vec<u8>,
    },
    /// Error indicates that received encrypted packet can't be decrypted.
    DecryptError,
    /// Error indicates that more data is needed to parse decrypted packet.
    IncompleteDecryptedPacket {
        /// Required data size to be parsed.
        needed: Needed,
        /// Received packet.
        packet: Vec<u8>,
    },
    /// Error indicates that decrypted packet can't be parsed.
    DeserializeDecryptedError {
        /// Parsing error.
        error: ErrorKind,
        /// Received packet.
        packet: Vec<u8>,
    },
    /// General IO error.
    IoError {
        /// IO error.
        error: std::io::Error,
    },
}

impl From<std::io::Error> for DecodeError {
    fn from(error: std::io::Error) -> (r: DecodeError) {
        DecodeError::IoError { error }
    }
}

impl vstd::std_specs::convert::FromSpecImpl<std::io::Error> for DecodeError {
    open spec fn obeys_from_spec() -> bool {
        true
    }

    open spec fn from_spec(error: std::io::Error) -> DecodeError {
        DecodeError::IoError { error }
    }
}

impl DecodeError {
    /// The error in words, with what it carries as `Debug` prints it.
    #[verifier::external_body]
    pub fn message(&self) -> String {
        match self {
            DecodeError::DeserializeEncryptedError { error, buf } =>
                format!("Deserialize EncryptedPacket error: {:?}, buffer: {:?}", error, buf),
            DecodeError::DecryptError => format!("Decrypt EncryptedPacket error"),
            DecodeError::IncompleteDecryptedPacket { needed, packet } =>
                format!("Decrypted packet should not be incomplete: {:?}, packet: {:?}", needed, packet),
            DecodeError::DeserializeDecryptedError { error, packet } =>
                format!("Deserialize decrypted packet error: {:?}, packet: {:?}", error, packet),
            DecodeError::IoError { error } => format!("IO error: {:?}", error),
        }
    }
}

/// The number that the first two bytes of `input` spell, big-endian.
pub open spec fn length_field(input: Seq<u8>) -> int {
    input[0] * 256 + input[1]
}

/// A frame may have a payload of `length` bytes: at least one, and fewer
/// than `MAX_TCP_ENC_PACKET_SIZE`.
pub open spec fn valid_length(length: int) -> bool {
    0 < length < MAX_TCP_ENC_PACKET_SIZE
}

/// `input` starts with a length field that no frame has.
pub open spec fn frame_invalid(input: Seq<u8>) -> bool {
    input.len() >= 2 && !valid_length(length_field(input))
}

/// `input` starts with a whole frame.
pub open spec fn frame_complete(input: Seq<u8>) -> bool {
    &&& input.len() >= 2
    &&& valid_length(length_field(input))
    &&& input.len() >= 2 + length_field(input)
}

/// Number of bytes of the frame that `input` starts with.
pub open spec fn frame_size(input: Seq<u8>) -> int {
    2 + length_field(input)
}

/// Payload of the frame that `input` starts with.
pub open spec fn frame_payload(input: Seq<u8>) -> Seq<u8> {
    input.subrange(2, frame_size(input))
}

/// The frame that carries `payload`: its length in two bytes, big-endian,
/// then the payload.
pub open spec fn frame_of(payload: Seq<u8>) -> Seq<u8> {
    seq![(payload.len() / 256) as u8, (payload.len() % 256) as u8] + payload
}

/// Reads a big-endian `u16` off the head of `input` with `nom::be_u16`: the
/// first byte times 256 plus the second, or nothing where `input` has fewer
/// than two bytes.
#[verifier::external_body]
fn be_u16(input: &[u8]) -> (value: Option<u16>)
    ensures
        value == if input@.len() < 2 {
            None
        } else {
            Some(length_field(input@) as u16)
        },
{
    match nom::be_u16(input) {
        nom::IResult::Done(_, value) => Some(value),
        nom::IResult::Error(_) => None,
        nom::IResult::Incomplete(_) => None,
    }
}

/// The two bytes that `cookie_factory::set_be_u16` writes for `value`: the
/// high byte, then the low byte.
#[verifier::external_body]
fn be_u16_bytes(value: u16) -> (bytes: [u8; 2])
    ensures
        bytes@ == seq![(value / 256) as u8, (value % 256) as u8],
{
    let mut bytes = [0u8; 2];
    let _ = cookie_factory::set_be_u16((&mut bytes, 0), value);
    bytes
}

/// The error kind that `nom` gives where a value fails a check,
/// `ErrorKind::Verify`.
#[verifier::external_body]
fn verify_failed() -> ErrorKind {
    ErrorKind::Verify
}

impl EncryptedPacket {
    /// Read a frame off the head of `input`.
    pub fn from_bytes(input: &[u8]) -> (r: Framing)
        ensures
            match r {
                Framing::Incomplete => !frame_invalid(input@) && !frame_complete(input@),
                Framing::Invalid => frame_invalid(input@),
                Framing::Complete { consumed, packet } => {
                    &&& frame_complete(input@)
                    &&& consumed == frame_size(input@)
                    &&& packet.payload@ == frame_payload(input@)
                },
            },
    {
        let length: usize = match be_u16(input) {
            Some(length) => length as usize,
            None => {
                return Framing::Incomplete;
            },
        };
        if length == 0 || length >= MAX_TCP_ENC_PACKET_SIZE {
            return Framing::Invalid;
        }
        if input.len() - 2 < length {
            return Framing::Incomplete;
        }
        let payload = slice_to_vec(vstd::slice::slice_subrange(input, 2, 2 + length));
        Framing::Complete { consumed: 2 + length, packet: EncryptedPacket { payload } }
    }

    /// Write the packet as a frame, unless the frame would be longer than
    /// `MAX_TCP_ENC_PACKET_SIZE` bytes.
    pub fn to_bytes(&self) -> (r: Option<Vec<u8>>)
        ensures
            r is Some == (self.payload@.len() + 2 <= MAX_TCP_ENC_PACKET_SIZE),
            r matches Some(frame) ==> frame@ == frame_of(self.payload@),
    {
        if self.payload.len() > MAX_TCP_ENC_PACKET_SIZE - 2 {
            return None;
        }
        let length = be_u16_bytes(self.payload.len() as u16);
        let mut frame: Vec<u8> = Vec::new();
        frame.push(length[0]);
        frame.push(length[1]);
        let mut i: usize = 0;
        while i < self.payload.len()
            invariant
                i <= self.payload@.len(),
                frame@ == seq![length[0], length[1]] + self.payload@.take(i as int),
            decreases self.payload@.len() - i,
        {
            frame.push(self.payload[i]);
            assert(self.payload@.take(i + 1) == self.payload@.take(i as int).push(
                self.payload@[i as int],
            ));
            i += 1;
        }
        assert(self.payload@.take(i as int) == self.payload@);
        Some(frame)
    }
}

/// A frame that is followed by any bytes reads back as what was framed:
/// whole, of two bytes more than the payload, and with that payload.
pub proof fn lemma_frame_reads_back(payload: Seq<u8>, rest: Seq<u8>)
    requires
        0 < payload.len(),
        payload.len() + 2 <= MAX_TCP_ENC_PACKET_SIZE,
    ensures
        frame_complete(frame_of(payload) + rest),
        frame_size(frame_of(payload) + rest) == payload.len() + 2,
        frame_payload(frame_of(payload) + rest) == payload,
        (frame_of(payload) + rest).skip(frame_size(frame_of(payload) + rest)) == rest,
{
    let input = frame_of(payload) + rest;
    assert(input[0] == (payload.len() / 256) as u8);
    assert(input[1] == (payload.len() % 256) as u8);
    assert(frame_payload(input) =~= payload);
    assert(input.skip(frame_size(input)) =~= rest);
}

/// Look for a frame at the head of the receive buffer. The buffer is left
/// as it is.
///
/// The result is `Ok(None)` where more bytes are needed, the error
/// `DeserializeEncryptedError` with a copy of the buffer where no frame
/// starts like this, and the payload of the frame where it is whole.
pub fn decode_frame(buf: &BytesMut) -> (r: Result<Option<EncryptedPacket>, DecodeError>)
    ensures
        match r {
            Ok(None) => !frame_invalid(buffered(*buf)) && !frame_complete(buffered(*buf)),
            Ok(Some(packet)) => {
                &&& frame_complete(buffered(*buf))
                &&& packet.payload@ == frame_payload(buffered(*buf))
            },
            Err(DecodeError::DeserializeEncryptedError { error, buf: copy }) => {
                &&& frame_invalid(buffered(*buf))
                &&& copy@ == buffered(*buf)
            },
            Err(_) => false,
        },
{
    match EncryptedPacket::from_bytes(as_slice(buf)) {
        Framing::Incomplete => Ok(None),
        Framing::Invalid => Err(
            DecodeError::DeserializeEncryptedError {
                error: verify_failed(),
                buf: slice_to_vec(as_slice(buf)),
            },
        ),
        Framing::Complete { consumed: _, packet } => Ok(Some(packet)),
    }
}

/// What `decode_packet` returns for what the caller made of the payload of
/// a frame: `Err(())` where it could not decrypt it, else the decrypted
/// bytes and what the packet parser made of them.
pub open spec fn packet_outcome<P>(
    opened: Result<(Vec<u8>, Parsed<P>), ()>,
    r: Result<Option<P>, DecodeError>,
) -> bool {
    match opened {
        Err(_) => r matches Err(DecodeError::DecryptError),
        Ok((decrypted, Parsed::Incomplete(needed))) => r == Err::<Option<P>, DecodeError>(
            DecodeError::IncompleteDecryptedPacket { needed, packet: decrypted },
        ),
        Ok((decrypted, Parsed::Error(error))) => r == Err::<Option<P>, DecodeError>(
            DecodeError::DeserializeDecryptedError { error, packet: decrypted },
        ),
        Ok((_, Parsed::Done(packet))) => r == Ok::<Option<P>, DecodeError>(Some(packet)),
    }
}

/// Settle the frame at the head of the receive buffer, given what the
/// caller made of its payload.
///
/// Where the payload held a packet, the packet is returned and the frame is
/// taken off the buffer; a buffer that does not start with a whole frame
/// is left as it is. Otherwise the error says what went wrong and the
/// buffer is left as it is.
pub fn decode_packet<P>(buf: &mut BytesMut, opened: Result<(Vec<u8>, Parsed<P>), ()>) -> (r: Result<
    Option<P>,
    DecodeError,
>)
    ensures
        packet_outcome(opened, r),
        buffered(*final(buf)) == if r is Ok && frame_complete(buffered(*old(buf))) {
            buffered(*old(buf)).skip(frame_size(buffered(*old(buf))))
        } else {
            buffered(*old(buf))
        },
{
    let (decrypted, parsed) = match opened {
        Ok(pair) => pair,
        Err(_) => {
            return Err(DecodeError::DecryptError);
        },
    };
    match parsed {
        Parsed::Incomplete(needed) => Err(
            DecodeError::IncompleteDecryptedPacket { needed, packet: decrypted },
        ),
        Parsed::Error(error) => Err(
            DecodeError::DeserializeDecryptedError { error, packet: decrypted },
        ),
        Parsed::Done(packet) => {
            if let Framing::Complete { consumed, packet: _ } = EncryptedPacket::from_bytes(
                as_slice(buf),
            ) {
                let _ = buf.split_to(consumed);
            }
            Ok(Some(packet))
        },
    }
}

/// Write the encrypted payload of a packet to the send buffer, as a frame.
pub fn encode_encrypted(encrypted: Vec<u8>, buf: &mut BytesMut)
    requires
        encrypted@.len() + 2 <= MAX_TCP_ENC_PACKET_SIZE,
        buffered(*old(buf)).len() + encrypted@.len() + 2 <= usize::MAX,
    ensures
        buffered(*final(buf)) == buffered(*old(buf)) + frame_of(encrypted@),
{
    let encrypted_packet = EncryptedPacket { payload: encrypted };
    if let Some(frame) = encrypted_packet.to_bytes() {
        buf.extend_from_slice(frame.as_slice());
    }
}

/// Write the encrypted payload of a packet to the send buffer, as a frame,
/// if the frame is not longer than `MAX_TCP_ENC_PACKET_SIZE` bytes and the
/// buffer can take it. The result says whether the frame was written; where
/// it was not, the buffer is left as it is.
pub fn try_encode_encrypted(encrypted: Vec<u8>, buf: &mut BytesMut) -> (written: bool)
    ensures
        written == (encrypted@.len() + 2 <= MAX_TCP_ENC_PACKET_SIZE && buffered(*old(buf)).len()
            + encrypted@.len() + 2 <= usize::MAX),
        buffered(*final(buf)) == if written {
            buffered(*old(buf)) + frame_of(encrypted@)
        } else {
            buffered(*old(buf))
        },
{
    if encrypted.len() > MAX_TCP_ENC_PACKET_SIZE - 2 {
        return false;
    }
    if buf.len() > usize::MAX - (encrypted.len() + 2) {
        return false;
    }
    encode_encrypted(encrypted, buf);
    true
}

} // verus!
