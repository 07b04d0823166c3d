//! Authenticated frames: the checksum that seals a frame, and the way from
//! a received datagram to the payload it carries.

use crate::crypto::{decrypt, decrypt_spec, encrypt_spec, md5, md5_digest, CryptoError};
use crate::frame::{parse, Frame, FrameError, FrameView, Malformed};
use vstd::prelude::*;

verus! {

/// Why a datagram gave no payload.
#[derive(Debug, Clone, Copy, PartialEq, Eq)]
pub enum PacketError {
    /// It is no frame, or its checksum is wrong.
    Frame(FrameError),
    /// Its payload could not be decrypted.
    Crypto(CryptoError),
    /// Its payload is not UTF-8 text.
    NotUtf8,
}

impl PacketError {
    /// A short description of the error.
    pub open spec fn description_spec(self) -> Seq<char> {
        match self {
            PacketError::Frame(FrameError::Malformed(Malformed::TooShort { .. })) =>
                "Datagram is shorter than a frame header."@,
            PacketError::Frame(FrameError::Malformed(Malformed::BadMagic { .. })) =>
                "Datagram does not start with the magic marker."@,
            PacketError::Frame(FrameError::Malformed(Malformed::LengthMismatch { .. })) =>
                "Length field does not match the size of the datagram."@,
            PacketError::Frame(FrameError::ChecksumMismatch) => "Checksum mismatch."@,
            PacketError::Frame(FrameError::Oversize { .. }) =>
                "Payload is too long for a frame."@,
            PacketError::Crypto(CryptoError::BadTokenLength { .. }) =>
                "Token is not 16 bytes long."@,
            PacketError::Crypto(CryptoError::Truncated { .. }) =>
                "Ciphertext is not a whole number of blocks."@,
            PacketError::Crypto(CryptoError::BadPadding) => "Payload does not decrypt."@,
            PacketError::NotUtf8 => "Could not convert payload to UTF-8 string."@,
        }
    }

    /// A short description of the error.
    pub fn description(&self) -> (text: &'static str)
        ensures
            text@ == self.description_spec(),
    {
        match self {
            PacketError::Frame(FrameError::Malformed(Malformed::TooShort { .. })) =>
                "Datagram is shorter than a frame header.",
            PacketError::Frame(FrameError::Malformed(Malformed::BadMagic { .. })) =>
                "Datagram does not start with the magic marker.",
            PacketError::Frame(FrameError::Malformed(Malformed::LengthMismatch { .. })) =>
                "Length field does not match the size of the datagram.",
            PacketError::Frame(FrameError::ChecksumMismatch) => "Checksum mismatch.",
            PacketError::Frame(FrameError::Oversize { .. }) => "Payload is too long for a frame.",
            PacketError::Crypto(CryptoError::BadTokenLength { .. }) =>
                "Token is not 16 bytes long.",
            PacketError::Crypto(CryptoError::Truncated { .. }) =>
                "Ciphertext is not a whole number of blocks.",
            PacketError::Crypto(CryptoError::BadPadding) => "Payload does not decrypt.",
            PacketError::NotUtf8 => "Could not convert payload to UTF-8 string.",
        }
    }
}

/// The checksum of a frame under a token: the digest of the first 16 bytes
/// of the header, then the token, then the payload as it goes over the wire.
/// The checksum field itself takes no part.
pub open spec fn checksum_spec(f: FrameView, token: Seq<u8>) -> Seq<u8> {
    md5_digest(f.prefix() + token + f.payload)@
}

/// `f` with its checksum under `token` in place.
pub open spec fn sealed(f: FrameView, token: Seq<u8>) -> FrameView {
    FrameView { checksum_or_token: checksum_spec(f, token), ..f }
}

/// What a datagram holds for the owner of `token`: the frame and its
/// decrypted payload, or the first thing wrong with it.
pub open spec fn unpack_spec(bytes: Seq<u8>, token: Seq<u8>) -> Result<
    (FrameView, Seq<u8>),
    PacketError,
> {
    match parse(bytes) {
        Err(e) => Err(PacketError::Frame(e)),
        Ok(f) => if f.checksum_or_token != checksum_spec(f, token) {
            Err(PacketError::Frame(FrameError::ChecksumMismatch))
        } else {
            match decrypt_spec(f.payload, token) {
                Err(e) => Err(PacketError::Crypto(e)),
                Ok(payload) => Ok((f, payload)),
            }
        },
    }
}

/// A sealed frame that carries an encrypted payload is accepted by the owner
/// of the token, field for field, and gives a payload with the same
/// ciphertext.
pub proof fn lemma_unpack_sealed(f: FrameView, payload: Seq<u8>, token: Seq<u8>)
    requires
        f.fits(),
        token.len() == 16,
        f.payload == encrypt_spec(payload, token),
    ensures
        unpack_spec(sealed(f, token).wire(), token) is Ok,
        unpack_spec(sealed(f, token).wire(), token)->Ok_0.0 == sealed(f, token),
        encrypt_spec(unpack_spec(sealed(f, token).wire(), token)->Ok_0.1, token) == f.payload,
{
    let s = sealed(f, token);
    crate::frame::lemma_parse_wire(s);
    assert(s.prefix() == f.prefix());
    assert(checksum_spec(s, token) == checksum_spec(f, token));
}

/// Whether two blocks hold the same bytes.
fn same_block(a: &[u8; 16], b: &[u8; 16]) -> (same: bool)
    ensures
        same == (a@ == b@),
{
    let mut k: usize = 0;
    while k < 16
        invariant
            k <= 16,
            forall|j: int| 0 <= j < k ==> a@[j] == b@[j],
        decreases 16 - k,
    {
        if a[k] != b[k] {
            return false;
        }
        k = k + 1;
    }
    assert(a@ =~= b@);
    true
}

impl Frame {
    /// The checksum that the frame must carry under `token`.
    pub fn checksum(&self, token: &[u8]) -> (digest: [u8; 16])
        requires
            self@.fits(),
        ensures
            digest@ == checksum_spec(self@, token@),
    {
        let mut input = self.prefix();
        input.extend_from_slice(token);
        input.extend_from_slice(self.payload.as_slice());
        assert(input@ =~= self@.prefix() + token@ + self@.payload);
        md5(input.as_slice())
    }

    /// Seal and serialize the frame: compute its checksum under `token`, put
    /// it into the checksum field and encode the result. The payload goes out
    /// as it is, so it is encrypted beforehand.
    pub fn pack(&self, token: &[u8]) -> (r: Result<Vec<u8>, FrameError>)
        ensures
            match r {
                Ok(bytes) => self@.fits() && bytes@ == sealed(self@, token@).wire(),
                Err(e) => !self@.fits() && e == (FrameError::Oversize {
                    payload_len: self.payload.len(),
                }),
            },
    {
        if self.payload.len() > crate::frame::MAX_PAYLOAD_LEN {
            return Err(FrameError::Oversize { payload_len: self.payload.len() });
        }
        let digest = self.checksum(token);
        let mut out = self.prefix();
        out.extend_from_slice(digest.as_slice());
        out.extend_from_slice(self.payload.as_slice());
        assert(sealed(self@, token@).prefix() == self@.prefix());
        assert(out@ =~= sealed(self@, token@).wire());
        Ok(out)
    }
}

/// Decode a received datagram, check its checksum under `token` and decrypt
/// its payload.
pub fn decode_and_decrypt(bytes: &[u8], token: &[u8]) -> (r: Result<(Frame, Vec<u8>), PacketError>)
    ensures
        match r {
            Ok((frame, payload)) => unpack_spec(bytes@, token@) == Ok::<
                (FrameView, Seq<u8>),
                PacketError,
            >((frame@, payload@)),
            Err(e) => unpack_spec(bytes@, token@) == Err::<(FrameView, Seq<u8>), PacketError>(e),
        },
        r is Ok ==> encrypt_spec(r->Ok_0.1@, token@) == r->Ok_0.0.payload@,
{
    let frame = match Frame::decode(bytes) {
        Ok(frame) => frame,
        Err(e) => {
            return Err(PacketError::Frame(e));
        },
    };
    proof {
        crate::frame::lemma_wire_parse(bytes@);
    }
    let expected = frame.checksum(token);
    if !same_block(&frame.checksum_or_token, &expected) {
        return Err(PacketError::Frame(FrameError::ChecksumMismatch));
    }
    match decrypt(frame.payload.as_slice(), token) {
        Ok(payload) => Ok((frame, payload)),
        Err(e) => Err(PacketError::Crypto(e)),
    }
}

} // verus!
