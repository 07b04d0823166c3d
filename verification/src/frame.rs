//! The MiIO frame and its wire format.
//!
//! Every datagram is one frame: a 32-byte header followed by the payload.
//! All integers are big-endian.
//!
//! | offset | size | field                                   |
//! |--------|------|-----------------------------------------|
//! | 0      | 2    | magic marker `0x2131`                   |
//! | 2      | 2    | length of the whole frame, header included |
//! | 4      | 4    | reserved                                |
//! | 8      | 4    | device id                               |
//! | 12     | 4    | stamp                                   |
//! | 16     | 16   | checksum, or the token in a discovery reply |
//! | 32     | ..   | payload                                 |

use vstd::prelude::*;

verus! {

/// The marker that opens every frame.
pub const MAGIC: u16 = 0x2131;

/// Size of the fixed header.
pub const HEADER_LEN: usize = 32;

/// The largest frame that the 16-bit length field can announce.
pub const MAX_FRAME_LEN: usize = 65535;

/// The largest payload that fits a frame.
pub const MAX_PAYLOAD_LEN: usize = 65503;

/// The value of the reserved field, the device id and the stamp in a
/// discovery probe.
pub const PROBE_FILL: u32 = 0xffff_ffff;

/// How a byte string fails to be a frame.
#[derive(Debug, Clone, Copy, PartialEq, Eq)]
pub enum Malformed {
    /// Fewer bytes than a header.
    TooShort { actual: usize },
    /// The first two bytes are not the magic marker.
    BadMagic { found: u16 },
    /// The length field disagrees with the number of bytes received.
    LengthMismatch { expected: usize, actual: usize },
}

/// Why a frame could not be encoded or decoded.
#[derive(Debug, Clone, Copy, PartialEq, Eq)]
pub enum FrameError {
    /// The bytes are not a frame.
    Malformed(Malformed),
    /// The checksum of a received frame is not the one its content has.
    ChecksumMismatch,
    /// The payload is longer than a frame can announce.
    Oversize { payload_len: usize },
}

/// The wire unit of the protocol. The magic marker and the length are not
/// stored: the first is fixed, the second follows from the payload.
#[derive(Debug, Clone, PartialEq, Eq)]
pub struct Frame {
    /// Zero in every frame but the discovery probe.
    pub reserved: u32,
    /// The device addressed, or the device answering.
    pub device_id: u32,
    /// The counter that the device issues.
    pub stamp: u32,
    /// The device's token in a discovery reply, else the checksum.
    pub checksum_or_token: [u8; 16],
    /// Empty in discovery, ciphertext in a command and its reply.
    pub payload: Vec<u8>,
}

/// The mathematical content of a [`Frame`].
pub ghost struct FrameView {
    pub reserved: u32,
    pub device_id: u32,
    pub stamp: u32,
    pub checksum_or_token: Seq<u8>,
    pub payload: Seq<u8>,
}

impl View for Frame {
    type V = FrameView;

    open spec fn view(&self) -> FrameView {
        FrameView {
            reserved: self.reserved,
            device_id: self.device_id,
            stamp: self.stamp,
            checksum_or_token: self.checksum_or_token@,
            payload: self.payload@,
        }
    }
}

/// The two bytes of `v`, most significant first.
pub open spec fn be16(v: u16) -> Seq<u8> {
    seq![(v / 0x100) as u8, (v % 0x100) as u8]
}

/// The four bytes of `v`, most significant first.
pub open spec fn be32(v: u32) -> Seq<u8> {
    seq![
        (v / 0x100_0000) as u8,
        (v / 0x1_0000 % 0x100) as u8,
        (v / 0x100 % 0x100) as u8,
        (v % 0x100) as u8,
    ]
}

/// The integer whose big-endian bytes are `b[at]` and `b[at + 1]`.
pub open spec fn from_be16(b: Seq<u8>, at: int) -> u16 {
    (b[at] as int * 0x100 + b[at + 1] as int) as u16
}

/// The integer whose big-endian bytes are `b[at]` to `b[at + 3]`.
pub open spec fn from_be32(b: Seq<u8>, at: int) -> u32 {
    (b[at] as int * 0x100_0000 + b[at + 1] as int * 0x1_0000 + b[at + 2] as int * 0x100 + b[at
        + 3] as int) as u32
}

impl FrameView {
    /// The frame can be sent: its length fits the length field.
    pub open spec fn fits(self) -> bool {
        self.checksum_or_token.len() == 16 && self.payload.len() <= MAX_PAYLOAD_LEN
    }

    /// The length that the frame announces.
    pub open spec fn length(self) -> int {
        HEADER_LEN + self.payload.len()
    }

    /// The first 16 bytes on the wire: everything before the checksum.
    pub open spec fn prefix(self) -> Seq<u8> {
        be16(MAGIC) + be16(self.length() as u16) + be32(self.reserved) + be32(self.device_id)
            + be32(self.stamp)
    }

    /// The frame on the wire.
    pub open spec fn wire(self) -> Seq<u8> {
        self.prefix() + self.checksum_or_token + self.payload
    }
}

/// The discovery probe.
pub open spec fn probe() -> FrameView {
    FrameView {
        reserved: PROBE_FILL,
        device_id: PROBE_FILL,
        stamp: PROBE_FILL,
        checksum_or_token: Seq::new(16, |i: int| 0xffu8),
        payload: Seq::empty(),
    }
}

/// The frame that `bytes` holds, or why they hold none.
pub open spec fn parse(bytes: Seq<u8>) -> Result<FrameView, FrameError> {
    if bytes.len() < HEADER_LEN {
        Err(FrameError::Malformed(Malformed::TooShort { actual: bytes.len() as usize }))
    } else if from_be16(bytes, 0) != MAGIC {
        Err(FrameError::Malformed(Malformed::BadMagic { found: from_be16(bytes, 0) }))
    } else if from_be16(bytes, 2) != bytes.len() {
        Err(
            FrameError::Malformed(
                Malformed::LengthMismatch {
                    expected: from_be16(bytes, 2) as usize,
                    actual: bytes.len() as usize,
                },
            ),
        )
    } else {
        Ok(
            FrameView {
                reserved: from_be32(bytes, 4),
                device_id: from_be32(bytes, 8),
                stamp: from_be32(bytes, 12),
                checksum_or_token: bytes.subrange(16, 32),
                payload: bytes.subrange(32, bytes.len() as int),
            },
        )
    }
}

proof fn lemma_bytes_of_sum(a: u8, b: u8, c: u8, d: u8)
    ensures
        ({
            let v = a as int * 0x100_0000 + b as int * 0x1_0000 + c as int * 0x100 + d as int;
            &&& 0 <= v <= u32::MAX
            &&& v / 0x100_0000 == a
            &&& v / 0x1_0000 % 0x100 == b
            &&& v / 0x100 % 0x100 == c
            &&& v % 0x100 == d
        }),
{
}

proof fn lemma_sum_of_bytes(v: u32)
    ensures
        v == (v / 0x100_0000) * 0x100_0000 + (v / 0x1_0000 % 0x100) * 0x1_0000 + (v / 0x100
            % 0x100) * 0x100 + v % 0x100,
        v / 0x100_0000 < 0x100,
{
}

proof fn lemma_from_be16_be16(b: Seq<u8>, at: int, v: u16)
    requires
        0 <= at,
        at + 2 <= b.len(),
        b.subrange(at, at + 2) == be16(v),
    ensures
        from_be16(b, at) == v,
{
    assert(b[at] == b.subrange(at, at + 2)[0]);
    assert(b[at + 1] == b.subrange(at, at + 2)[1]);
}

proof fn lemma_from_be32_be32(b: Seq<u8>, at: int, v: u32)
    requires
        0 <= at,
        at + 4 <= b.len(),
        b.subrange(at, at + 4) == be32(v),
    ensures
        from_be32(b, at) == v,
{
    lemma_sum_of_bytes(v);
    assert(b[at] == b.subrange(at, at + 4)[0]);
    assert(b[at + 1] == b.subrange(at, at + 4)[1]);
    assert(b[at + 2] == b.subrange(at, at + 4)[2]);
    assert(b[at + 3] == b.subrange(at, at + 4)[3]);
}

proof fn lemma_be16_from_be16(b: Seq<u8>, at: int)
    requires
        0 <= at,
        at + 2 <= b.len(),
    ensures
        be16(from_be16(b, at)) == b.subrange(at, at + 2),
{
    lemma_bytes_of_sum(0, 0, b[at], b[at + 1]);
    assert(be16(from_be16(b, at)) =~= b.subrange(at, at + 2));
}

proof fn lemma_be32_from_be32(b: Seq<u8>, at: int)
    requires
        0 <= at,
        at + 4 <= b.len(),
    ensures
        be32(from_be32(b, at)) == b.subrange(at, at + 4),
{
    lemma_bytes_of_sum(b[at], b[at + 1], b[at + 2], b[at + 3]);
    let v = from_be32(b, at);
    assert(v == b[at] as int * 0x100_0000 + b[at + 1] as int * 0x1_0000 + b[at + 2] as int * 0x100
        + b[at + 3] as int);
    assert(be32(v)[0] == b[at]);
    assert(be32(v)[1] == b[at + 1]);
    assert(be32(v)[2] == b[at + 2]);
    assert(be32(v)[3] == b[at + 3]);
    assert(be32(v) =~= b.subrange(at, at + 4));
}

/// Decoding undoes encoding: a frame that can be sent is read back from its
/// bytes field for field.
pub proof fn lemma_parse_wire(f: FrameView)
    requires
        f.fits(),
    ensures
        parse(f.wire()) == Ok::<FrameView, FrameError>(f),
{
    let w = f.wire();
    let p = f.prefix();
    assert(p.len() == 16);
    assert(w.len() == 32 + f.payload.len());
    assert(w.subrange(0, 2) =~= be16(MAGIC));
    assert(w.subrange(2, 4) =~= be16(f.length() as u16));
    assert(w.subrange(4, 8) =~= be32(f.reserved));
    assert(w.subrange(8, 12) =~= be32(f.device_id));
    assert(w.subrange(12, 16) =~= be32(f.stamp));
    lemma_from_be16_be16(w, 0, MAGIC);
    lemma_from_be16_be16(w, 2, f.length() as u16);
    lemma_from_be32_be32(w, 4, f.reserved);
    lemma_from_be32_be32(w, 8, f.device_id);
    lemma_from_be32_be32(w, 12, f.stamp);
    assert(w.subrange(16, 32) =~= f.checksum_or_token);
    assert(w.subrange(32, w.len() as int) =~= f.payload);
}

/// Encoding undoes decoding: the bytes of a decoded frame are the bytes it
/// was decoded from, so nothing of the input is dropped or made up.
pub proof fn lemma_wire_parse(bytes: Seq<u8>)
    requires
        parse(bytes) is Ok,
    ensures
        parse(bytes)->Ok_0.fits(),
        parse(bytes)->Ok_0.wire() == bytes,
{
    let f = parse(bytes)->Ok_0;
    lemma_be16_from_be16(bytes, 0);
    lemma_be16_from_be16(bytes, 2);
    lemma_be32_from_be32(bytes, 4);
    lemma_be32_from_be32(bytes, 8);
    lemma_be32_from_be32(bytes, 12);
    assert(f.length() as u16 == from_be16(bytes, 2));
    assert(f.prefix() =~= bytes.subrange(0, 16));
    assert(f.wire() =~= bytes);
}

/// A byte string whose length field disagrees with its length is no frame.
pub proof fn lemma_length_mismatch_rejected(bytes: Seq<u8>)
    requires
        bytes.len() >= 4,
        from_be16(bytes, 2) != bytes.len(),
    ensures
        parse(bytes) is Err,
{
}

fn push_be16(out: &mut Vec<u8>, v: u16)
    ensures
        final(out)@ == old(out)@ + be16(v),
{
    out.push((v / 0x100) as u8);
    out.push((v % 0x100) as u8);
    assert(out@ =~= old(out)@ + be16(v));
}

fn push_be32(out: &mut Vec<u8>, v: u32)
    ensures
        final(out)@ == old(out)@ + be32(v),
{
    out.push((v / 0x100_0000) as u8);
    out.push((v / 0x1_0000 % 0x100) as u8);
    out.push((v / 0x100 % 0x100) as u8);
    out.push((v % 0x100) as u8);
    assert(out@ =~= old(out)@ + be32(v));
}

fn read_be16(bytes: &[u8], at: usize) -> (v: u16)
    requires
        at + 2 <= bytes.len(),
    ensures
        v == from_be16(bytes@, at as int),
{
    bytes[at] as u16 * 0x100 + bytes[at + 1] as u16
}

fn read_be32(bytes: &[u8], at: usize) -> (v: u32)
    requires
        at + 4 <= bytes.len(),
    ensures
        v == from_be32(bytes@, at as int),
{
    bytes[at] as u32 * 0x100_0000 + bytes[at + 1] as u32 * 0x1_0000 + bytes[at + 2] as u32 * 0x100
        + bytes[at + 3] as u32
}

impl Frame {
    /// A frame for `device_id` with the given stamp, no payload yet and a
    /// zero checksum.
    pub fn new(device_id: u32, stamp: u32) -> (frame: Frame)
        ensures
            frame@ == (FrameView {
                reserved: 0,
                device_id,
                stamp,
                checksum_or_token: Seq::new(16, |i: int| 0u8),
                payload: Seq::empty(),
            }),
    {
        let frame = Frame {
            reserved: 0,
            device_id,
            stamp,
            checksum_or_token: [0u8; 16],
            payload: Vec::new(),
        };
        assert(frame.checksum_or_token@ =~= Seq::new(16, |i: int| 0u8));
        frame
    }

    /// The discovery probe: a header with every field after the length set
    /// to all ones, and no payload.
    pub fn discovery_probe() -> (frame: Frame)
        ensures
            frame@ == probe(),
    {
        let frame = Frame {
            reserved: PROBE_FILL,
            device_id: PROBE_FILL,
            stamp: PROBE_FILL,
            checksum_or_token: [0xffu8; 16],
            payload: Vec::new(),
        };
        assert(frame.checksum_or_token@ =~= Seq::new(16, |i: int| 0xffu8));
        frame
    }

    /// The first 16 bytes of the frame on the wire.
    pub fn prefix(&self) -> (out: Vec<u8>)
        requires
            self@.fits(),
        ensures
            out@ == self@.prefix(),
    {
        let mut out: Vec<u8> = Vec::new();
        push_be16(&mut out, MAGIC);
        push_be16(&mut out, (HEADER_LEN + self.payload.len()) as u16);
        push_be32(&mut out, self.reserved);
        push_be32(&mut out, self.device_id);
        push_be32(&mut out, self.stamp);
        out
    }

    /// Serialize the frame: the header, with the length computed from the
    /// payload, then the payload. A payload too long for the length field is
    /// refused, never cut.
    pub fn encode(&self) -> (r: Result<Vec<u8>, FrameError>)
        ensures
            match r {
                Ok(bytes) => self@.fits() && bytes@ == self@.wire(),
                Err(e) => !self@.fits() && e == (FrameError::Oversize {
                    payload_len: self.payload.len(),
                }),
            },
            self@.fits() ==> r is Ok && parse(r->Ok_0@) == Ok::<FrameView, FrameError>(self@),
    {
        if self.payload.len() > MAX_PAYLOAD_LEN {
            return Err(FrameError::Oversize { payload_len: self.payload.len() });
        }
        let mut out = self.prefix();
        out.extend_from_slice(self.checksum_or_token.as_slice());
        out.extend_from_slice(self.payload.as_slice());
        proof {
            lemma_parse_wire(self@);
        }
        Ok(out)
    }

    /// Read a frame from a datagram. The bytes must be a whole frame: a
    /// header that opens with the magic marker and announces exactly the
    /// number of bytes given.
    pub fn decode(bytes: &[u8]) -> (r: Result<Frame, FrameError>)
        ensures
            match r {
                Ok(frame) => parse(bytes@) == Ok::<FrameView, FrameError>(frame@),
                Err(e) => parse(bytes@) == Err::<FrameView, FrameError>(e),
            },
            r is Ok ==> r->Ok_0@.wire() == bytes@,
            bytes.len() >= 4 && from_be16(bytes@, 2) != bytes.len() ==> r is Err,
    {
        if bytes.len() < HEADER_LEN {
            return Err(FrameError::Malformed(Malformed::TooShort { actual: bytes.len() }));
        }
        let magic = read_be16(bytes, 0);
        if magic != MAGIC {
            return Err(FrameError::Malformed(Malformed::BadMagic { found: magic }));
        }
        let length = read_be16(bytes, 2);
        if length as usize != bytes.len() {
            return Err(
                FrameError::Malformed(
                    Malformed::LengthMismatch { expected: length as usize, actual: bytes.len() },
                ),
            );
        }
        let mut checksum_or_token = [0u8; 16];
        let mut k: usize = 0;
        while k < 16
            invariant
                k <= 16,
                bytes.len() >= 32,
                forall|j: int| 0 <= j < k ==> checksum_or_token@[j] == bytes@[16 + j],
            decreases 16 - k,
        {
            checksum_or_token[k] = bytes[16 + k];
            k = k + 1;
        }
        let mut payload: Vec<u8> = Vec::new();
        payload.extend_from_slice(vstd::slice::slice_subrange(bytes, HEADER_LEN, bytes.len()));
        let frame = Frame {
            reserved: read_be32(bytes, 4),
            device_id: read_be32(bytes, 8),
            stamp: read_be32(bytes, 12),
            checksum_or_token,
            payload,
        };
        proof {
            assert(frame.checksum_or_token@ =~= bytes@.subrange(16, 32));
            assert(frame.payload@ =~= bytes@.subrange(32, bytes@.len() as int));
            lemma_wire_parse(bytes@);
        }
        Ok(frame)
    }
}

} // verus!
