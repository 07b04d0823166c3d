//! The status query: one command to one device, one reply.
//!
//! The command is a small JSON text. It travels encrypted under the token of
//! the device, in a frame sealed with a checksum; so does the reply. Sending
//! and receiving are the caller's: [`status_request`] gives the datagram to
//! send, [`status_reply`] reads the datagram that came back.

use crate::crypto::{encrypt, encrypt_spec, pad, CryptoError};
use crate::frame::{Frame, FrameError, FrameView, MAX_PAYLOAD_LEN};
use crate::miiopayloads::{
    extract_json, json_end, json_string, status_command_json, StatusCommand,
    METHOD_GET_STATUS_VAL,
};
use crate::packet::{decode_and_decrypt, sealed, unpack_spec, PacketError};
use vstd::prelude::*;
use vstd::string::*;
use vstd::utf8::*;

verus! {

/// How many milliseconds to wait for the reply to a command.
pub const LISTEN_TIMEOUT_MS: u64 = 5000;

/// The longest command body whose ciphertext fits a frame.
pub const MAX_BODY_LEN: usize = 65487;

/// Why a command got no usable reply.
#[derive(Debug, Clone, PartialEq, Eq)]
pub enum Error {
    /// Sending or receiving failed, or the reply did not come in time.
    Socket(String),
    /// The command could not be packed, or the reply could not be unpacked.
    Packet(PacketError),
    /// The reply is not the JSON expected; the text holds what the parser
    /// said, then the reply.
    Parse(String),
    /// No device answered.
    NoResponse,
}

impl Error {
    /// The kind of the error, in a few words.
    pub fn description(&self) -> (text: &'static str)
        ensures
            text@ == (match self {
                Error::Socket(_) => "Socket error"@,
                Error::Packet(_) => "Packet error"@,
                Error::Parse(_) => "JSON parse error"@,
                Error::NoResponse => "No response received"@,
            }),
    {
        match self {
            Error::Socket(_e) => "Socket error",
            Error::Packet(_e) => "Packet error",
            Error::Parse(_e) => "JSON parse error",
            Error::NoResponse => "No response received",
        }
    }

    /// The error as a line for the user.
    pub fn message(&self) -> (text: String)
        ensures
            text@ == (match self {
                Error::Socket(e) => "Socket error: "@ + e@,
                Error::Packet(e) => "Packet error: "@ + e.description_spec(),
                Error::Parse(e) => "Parse error for JSON payload: "@ + e@,
                Error::NoResponse => "No response received"@,
            }),
    {
        match self {
            Error::Socket(e) => "Socket error: ".to_owned().concat(e.as_str()),
            Error::Packet(e) => "Packet error: ".to_owned().concat(e.description()),
            Error::Parse(e) => "Parse error for JSON payload: ".to_owned().concat(e.as_str()),
            Error::NoResponse => "No response received".to_owned(),
        }
    }
}

/// The frame that carries `body` to device `did`, before it is sealed.
pub open spec fn command_frame(did: u32, stamp: u32, token: Seq<u8>, body: Seq<u8>) -> FrameView {
    FrameView {
        reserved: 0,
        device_id: did,
        stamp,
        checksum_or_token: Seq::new(16, |i: int| 0u8),
        payload: encrypt_spec(body, token),
    }
}

/// The datagram that carries `body` to device `did`: the body encrypted
/// under the token, in a sealed frame. There is none where the token does
/// not have 16 bytes, nor where the ciphertext does not fit a frame.
pub open spec fn command_datagram(did: u32, stamp: u32, token: Seq<u8>, body: Seq<u8>) -> Result<
    Seq<u8>,
    PacketError,
> {
    if token.len() != 16 {
        Err(PacketError::Crypto(CryptoError::BadTokenLength { len: token.len() as usize }))
    } else if pad(body).len() > MAX_PAYLOAD_LEN {
        Err(PacketError::Frame(FrameError::Oversize { payload_len: pad(body).len() as usize }))
    } else {
        Ok(sealed(command_frame(did, stamp, token, body), token).wire())
    }
}

/// Build the datagram that carries the command `body` to device `did`:
/// encrypt the body under `token`, put it into a frame with the device id
/// and the stamp, seal the frame and serialize it.
pub fn command_request(did: u32, stamp: u32, token: &[u8], body: &[u8]) -> (r: Result<
    Vec<u8>,
    PacketError,
>)
    requires
        body.len() + 16 <= usize::MAX,
    ensures
        match r {
            Ok(bytes) => command_datagram(did, stamp, token@, body@) == Ok::<
                Seq<u8>,
                PacketError,
            >(bytes@),
            Err(e) => command_datagram(did, stamp, token@, body@) == Err::<Seq<u8>, PacketError>(
                e,
            ),
        },
{
    let mut packet = Frame::new(did, stamp);
    match encrypt(body, token) {
        Ok(ciphertext) => {
            packet.payload = ciphertext;
        },
        Err(e) => {
            return Err(PacketError::Crypto(e));
        },
    }
    proof {
        crate::crypto::lemma_unpad_pad(body@);
        assert(packet@ == command_frame(did, stamp, token@, body@));
    }
    match packet.pack(token) {
        Ok(bytes) => Ok(bytes),
        Err(e) => Err(PacketError::Frame(e)),
    }
}

/// The body of the status query with the given id.
pub open spec fn status_body(cmdid: u32) -> Seq<u8> {
    status_command_json(cmdid, json_string(METHOD_GET_STATUS_VAL@))
}

/// Build the datagram that asks device `did` for its status.
///
/// `token` is the key shared with the device. `stamp` is the counter that
/// the device issued last, as a discovery reply gives it. `cmdid` goes into
/// the `id` of the command, and the device repeats it in its reply.
///
/// A body too long to be encrypted into one frame is refused before
/// anything else is looked at.
pub fn status_request(did: u32, token: &[u8], stamp: u32, cmdid: u32) -> (r: Result<Vec<u8>, Error>)
    ensures
        match r {
            Ok(bytes) => {
                &&& status_body(cmdid).len() <= MAX_BODY_LEN
                &&& command_datagram(did, stamp, token@, status_body(cmdid)) == Ok::<
                    Seq<u8>,
                    PacketError,
                >(bytes@)
            },
            Err(e) => if status_body(cmdid).len() > MAX_BODY_LEN {
                e == Error::Packet(
                    PacketError::Frame(
                        FrameError::Oversize { payload_len: status_body(cmdid).len() as usize },
                    ),
                )
            } else {
                e matches Error::Packet(pe) && command_datagram(
                    did,
                    stamp,
                    token@,
                    status_body(cmdid),
                ) == Err::<Seq<u8>, PacketError>(pe)
            },
        },
{
    let status_cmd = StatusCommand::new(cmdid);
    let body = status_cmd.to_json();
    if body.len() > MAX_BODY_LEN {
        return Err(
            Error::Packet(PacketError::Frame(FrameError::Oversize { payload_len: body.len() })),
        );
    }
    match command_request(did, stamp, token, body.as_slice()) {
        Ok(bytes) => Ok(bytes),
        Err(e) => Err(Error::Packet(e)),
    }
}

/// Calls `String::from_utf8`. Trusted: it gives a string exactly where the
/// bytes are well-formed UTF-8, and the string then holds the characters
/// that the bytes encode.
#[verifier::external_body]
fn string_from_utf8(bytes: Vec<u8>) -> (r: Option<String>)
    ensures
        r is Some <==> valid_utf8(bytes@),
        r matches Some(text) ==> text@ == decode_utf8(bytes@),
{
    String::from_utf8(bytes).ok()
}

/// What a device answered.
#[derive(Debug, Clone, PartialEq, Eq)]
pub struct Reply {
    /// The id of the device that answered.
    pub device_id: u32,
    /// The stamp of the device at the time it answered: the one to use in
    /// the next command.
    pub stamp: u32,
    /// The decrypted payload, filler included.
    pub payload: String,
    /// The payload up to and including its last `}`: the JSON in it.
    pub json: String,
}

/// The frame and the payload that a reply datagram carries for the owner of
/// `token`, where the payload is text.
pub open spec fn reply_spec(bytes: Seq<u8>, token: Seq<u8>) -> Result<
    (FrameView, Seq<u8>),
    PacketError,
> {
    match unpack_spec(bytes, token) {
        Err(e) => Err(e),
        Ok((frame, payload)) => if valid_utf8(payload) {
            Ok((frame, payload))
        } else {
            Err(PacketError::NotUtf8)
        },
    }
}

/// Read the reply to a command: decode the datagram, check its checksum,
/// decrypt its payload under `token`, take it as text and cut off what
/// follows the JSON. The JSON returned is ready for a parser; where the
/// payload holds no `}` it is empty, and the parser will refuse it. The `id`
/// in it is not compared with that of the command.
pub fn status_reply(datagram: &[u8], token: &[u8]) -> (r: Result<Reply, Error>)
    ensures
        match r {
            Ok(reply) => {
                &&& reply_spec(datagram@, token@) matches Ok((frame, payload))
                &&& reply.device_id == frame.device_id
                &&& reply.stamp == frame.stamp
                &&& encode_utf8(reply.payload@) == payload
                &&& encode_utf8(reply.json@) == payload.take(json_end(payload))
            },
            Err(e) => e matches Error::Packet(pe) && reply_spec(datagram@, token@) == Err::<
                (FrameView, Seq<u8>),
                PacketError,
            >(pe),
        },
{
    match decode_and_decrypt(datagram, token) {
        Ok((frame, bytes)) => {
            let ghost sent = bytes@;
            match string_from_utf8(bytes) {
                Some(payload) => {
                    proof {
                        decode_utf8_encode_utf8(sent);
                    }
                    let json = extract_json(payload.as_str()).to_owned();
                    Ok(Reply { device_id: frame.device_id, stamp: frame.stamp, payload, json })
                },
                None => Err(Error::Packet(PacketError::NotUtf8)),
            }
        },
        Err(e) => Err(Error::Packet(e)),
    }
}

} // verus!
