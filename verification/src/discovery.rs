//! Discovery of MiIO devices on the local network.
//!
//! A probe is sent to one address or broadcast; every device that hears it
//! answers with a frame without payload. While a device is in provisioning
//! mode, offering its own access point, the checksum field of that answer
//! holds its token: 16 letters and digits. The answers that arrived within
//! the listening window are handed to [`discover`], which keeps the ones
//! that have this form.

use crate::frame::{parse, probe, Frame, FrameView};
use vstd::prelude::*;
use vstd::string::*;

verus! {

/// The UDP port that devices listen on.
pub const MI_DISCOVER_UDP_PORT: u16 = 54321;

/// How many milliseconds to wait for answers to the probe.
pub const LISTEN_TIMEOUT_MS: u64 = 2000;

/// Why a discovery gave no devices.
#[derive(Debug, Clone, PartialEq, Eq)]
pub enum Error {
    /// The socket could not be set up, or the probe could not be sent.
    Socket(String),
    /// No device answered within the listening window.
    NoResponse,
}

impl Error {
    /// The kind of the error, in a few words.
    pub fn description(&self) -> (text: &'static str)
        ensures
            text@ == (match self {
                Error::Socket(_) => "Socket error"@,
                Error::NoResponse => "No response received"@,
            }),
    {
        match self {
            Error::Socket(_e) => "Socket error",
            Error::NoResponse => "No response received",
        }
    }

    /// The error as a line for the user.
    pub fn message(&self) -> (text: String)
        ensures
            text@ == (match self {
                Error::Socket(e) => "Socket error: "@ + e@,
                Error::NoResponse => "No response received"@,
            }),
    {
        match self {
            Error::Socket(e) => "Socket error: ".to_owned().concat(e.as_str()),
            Error::NoResponse => "No response received".to_owned(),
        }
    }
}

/// The address that a datagram came from.
#[derive(Debug, Clone, Copy, PartialEq, Eq)]
pub enum Source {
    /// An IPv4 address, by its four octets.
    V4([u8; 4]),
    /// Any other kind of address.
    Other,
}

/// A datagram as it was received.
#[derive(Debug, Clone, PartialEq, Eq)]
pub struct Datagram {
    pub source: Source,
    pub data: Vec<u8>,
}

/// A device that answered the probe.
#[derive(Debug, Clone, PartialEq, Eq)]
pub struct Response {
    /// The IPv4 address of the device.
    pub ip: [u8; 4],
    /// The frame it answered with.
    pub packet: Frame,
}

/// The mathematical content of a [`Response`].
pub ghost struct ResponseView {
    pub ip: [u8; 4],
    pub packet: FrameView,
}

impl View for Response {
    type V = ResponseView;

    open spec fn view(&self) -> ResponseView {
        ResponseView { ip: self.ip, packet: self.packet@ }
    }
}

/// Where to send the probe, and how.
#[derive(Debug, Clone, Copy, PartialEq, Eq)]
pub struct ProbeTarget {
    /// The destination address.
    pub ip: [u8; 4],
    /// Whether the socket must be allowed to broadcast while sending.
    pub broadcast: bool,
}

/// The byte is an ASCII letter or digit.
pub open spec fn is_alphanumeric(b: u8) -> bool {
    ||| 0x30 <= b <= 0x39
    ||| 0x41 <= b <= 0x5a
    ||| 0x61 <= b <= 0x7a
}

/// Every byte of the field is a letter or a digit, as in a token.
pub open spec fn is_token_text(field: Seq<u8>) -> bool {
    forall|i: int| 0 <= i < field.len() ==> is_alphanumeric(#[trigger] field[i])
}

/// The frame has the form of an answer to the probe: no payload, a zero
/// reserved field, and letters and digits in place of the checksum.
pub open spec fn is_discovery_reply(f: FrameView) -> bool {
    &&& f.payload.len() == 0
    &&& f.reserved == 0
    &&& is_token_text(f.checksum_or_token)
}

/// The device that a datagram announces, if it announces one: the datagram
/// decodes to an answer to the probe and came from an IPv4 address.
pub open spec fn accepted(d: Datagram) -> Option<ResponseView> {
    match (parse(d.data@), d.source) {
        (Ok(f), Source::V4(ip)) => if is_discovery_reply(f) {
            Some(ResponseView { ip, packet: f })
        } else {
            None
        },
        _ => None,
    }
}

/// The devices that a run of datagrams announces, in the order of arrival.
pub open spec fn collected(datagrams: Seq<Datagram>) -> Seq<ResponseView>
    decreases datagrams.len(),
{
    if datagrams.len() == 0 {
        Seq::empty()
    } else {
        let before = collected(datagrams.drop_last());
        match accepted(datagrams.last()) {
            Some(response) => before.push(response),
            None => before,
        }
    }
}

/// Whatever arrives, only answers to the probe are collected: a frame with a
/// payload, with a reserved field other than zero, or with anything but
/// letters and digits in its checksum field is never among the devices found.
pub proof fn lemma_collected_are_replies(datagrams: Seq<Datagram>, i: int)
    requires
        0 <= i < collected(datagrams).len(),
    ensures
        is_discovery_reply(collected(datagrams)[i].packet),
    decreases datagrams.len(),
{
    if datagrams.len() > 0 {
        let before = collected(datagrams.drop_last());
        if i < before.len() {
            lemma_collected_are_replies(datagrams.drop_last(), i);
        }
    }
}

/// The probe on the wire: the magic marker, the length 32, and 28 bytes
/// of `0xff`.
pub fn discovery_packet() -> (bytes: Vec<u8>)
    ensures
        bytes@ == probe().wire(),
        bytes@.len() == 32,
{
    let frame = Frame::discovery_probe();
    let mut bytes = frame.prefix();
    bytes.extend_from_slice(frame.checksum_or_token.as_slice());
    assert(bytes@ =~= probe().wire());
    bytes
}

/// Where the probe goes: to the given device, or to every device on the
/// local segment when none is given.
pub fn probe_target(dip_opt: Option<[u8; 4]>) -> (target: ProbeTarget)
    ensures
        match dip_opt {
            Some(dip) => target.ip == dip && !target.broadcast,
            None => target.ip@ == seq![255u8, 255u8, 255u8, 255u8] && target.broadcast,
        },
{
    match dip_opt {
        Some(dip) => ProbeTarget { ip: dip, broadcast: false },
        None => {
            let ip = [255u8; 4];
            assert(ip@ =~= seq![255u8, 255u8, 255u8, 255u8]);
            ProbeTarget { ip, broadcast: true }
        },
    }
}

/// Whether every byte of the field is a letter or a digit.
pub fn is_token(field: &[u8; 16]) -> (r: bool)
    ensures
        r == is_token_text(field@),
{
    let mut k: usize = 0;
    while k < 16
        invariant
            k <= 16,
            forall|j: int| 0 <= j < k ==> is_alphanumeric(#[trigger] field@[j]),
        decreases 16 - k,
    {
        let b = field[k];
        let ok = (0x30 <= b && b <= 0x39) || (0x41 <= b && b <= 0x5a) || (0x61 <= b && b <= 0x7a);
        if !ok {
            return false;
        }
        k = k + 1;
    }
    true
}

/// Judge one datagram: the device that it announces, or nothing where it is
/// not an answer to the probe. A datagram that does not decode is passed
/// over like any other that does not fit.
pub fn accept(datagram: &Datagram) -> (r: Option<Response>)
    ensures
        match r {
            Some(response) => accepted(*datagram) == Some(response@),
            None => accepted(*datagram) is None,
        },
{
    match Frame::decode(datagram.data.as_slice()) {
        Ok(packet) => {
            if is_token(&packet.checksum_or_token) && packet.payload.len() == 0 && packet.reserved
                == 0 {
                match datagram.source {
                    Source::V4(ip) => Some(Response { ip, packet }),
                    Source::Other => None,
                }
            } else {
                None
            }
        },
        Err(_) => None,
    }
}

/// The devices found by a discovery, given the datagrams that arrived within
/// the listening window, in the order of arrival. Datagrams that are no
/// answer to the probe are passed over; every other one gives a device, in
/// its place. Where that leaves no device the discovery has failed with
/// [`Error::NoResponse`]: an empty list is never returned.
pub fn discover(datagrams: &[Datagram]) -> (r: Result<Vec<Response>, Error>)
    ensures
        match r {
            Ok(responses) => {
                &&& responses@.len() > 0
                &&& responses@.len() == collected(datagrams@).len()
                &&& forall|i: int|
                    0 <= i < responses@.len() ==> (#[trigger] responses@[i])@ == collected(
                        datagrams@,
                    )[i]
                &&& forall|i: int|
                    0 <= i < responses@.len() ==> is_discovery_reply(
                        (#[trigger] responses@[i]).packet@,
                    )
            },
            Err(e) => e == Error::NoResponse && collected(datagrams@).len() == 0,
        },
{
    let mut ret_responses: Vec<Response> = Vec::new();
    let mut n: usize = 0;
    while n < datagrams.len()
        invariant
            n <= datagrams@.len(),
            ret_responses@.len() == collected(datagrams@.take(n as int)).len(),
            forall|i: int|
                0 <= i < ret_responses@.len() ==> (#[trigger] ret_responses@[i])@ == collected(
                    datagrams@.take(n as int),
                )[i],
        decreases datagrams@.len() - n,
    {
        proof {
            assert(datagrams@.take(n + 1).drop_last() =~= datagrams@.take(n as int));
        }
        match accept(&datagrams[n]) {
            Some(response) => {
                ret_responses.push(response);
            },
            None => {},
        }
        n = n + 1;
    }
    proof {
        assert(datagrams@.take(n as int) =~= datagrams@);
        assert forall|i: int| 0 <= i < ret_responses@.len() implies is_discovery_reply(
            (#[trigger] ret_responses@[i]).packet@,
        ) by {
            lemma_collected_are_replies(datagrams@, i);
        }
    }
    if ret_responses.len() > 0 {
        Ok(ret_responses)
    } else {
        Err(Error::NoResponse)
    }
}

} // verus!
