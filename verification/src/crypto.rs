//! Payload encryption: AES-128 in CBC mode with PKCS#7 padding, keyed by the
//! MD5 schedule that MiIO derives from a device token.

use aes::cipher::generic_array::GenericArray;
use aes::cipher::{BlockDecrypt, BlockEncrypt, KeyInit};
use vstd::prelude::*;
use vstd::string::*;

verus! {

/// Size in bytes of a token, of a digest, of a key and of a cipher block.
pub const BLOCK_LEN: usize = 16;

/// Why a payload could not be encrypted or decrypted.
#[derive(Debug, Clone, Copy, PartialEq, Eq)]
pub enum CryptoError {
    /// The token does not have 16 bytes.
    BadTokenLength { len: usize },
    /// The ciphertext is not a whole number of blocks.
    Truncated { len: usize },
    /// No payload encrypts to the ciphertext under the token.
    BadPadding,
}

/// The MD5 digest of a byte string.
pub uninterp spec fn md5_digest(data: Seq<u8>) -> [u8; 16];

/// The AES-128 encryption of one 16-byte block under a 16-byte key.
pub uninterp spec fn aes128_block(key: Seq<u8>, block: Seq<u8>) -> [u8; 16];

/// Calls `md5::compute`. Trusted: the 16 bytes returned are the MD5 digest
/// of `data`, a function of the bytes of `data` alone.
#[verifier::external_body]
pub(crate) fn md5(data: &[u8]) -> (digest: [u8; 16])
    ensures
        digest == md5_digest(data@),
{
    md5::compute(data).0
}

/// Calls `aes::Aes128::new` and `encrypt_block`. Trusted: the block returned
/// is the AES-128 encryption of `block` under `key`, a function of the two
/// alone.
#[verifier::external_body]
fn aes128_encrypt_block(key: &[u8; 16], block: &[u8; 16]) -> (out: [u8; 16])
    ensures
        out == aes128_block(key@, block@),
{
    let cipher = aes::Aes128::new(&GenericArray::from(*key));
    let mut buf = GenericArray::from(*block);
    cipher.encrypt_block(&mut buf);
    buf.into()
}

/// Calls `aes::Aes128::new` and `decrypt_block`. Trusted: decryption undoes
/// encryption under the same key, and encryption undoes decryption, so the
/// block returned is the one and only block that encrypts to `block`.
#[verifier::external_body]
fn aes128_decrypt_block(key: &[u8; 16], block: &[u8; 16]) -> (out: [u8; 16])
    ensures
        is_preimage(key@, out@, block@),
{
    let cipher = aes::Aes128::new(&GenericArray::from(*key));
    let mut buf = GenericArray::from(*block);
    cipher.decrypt_block(&mut buf);
    buf.into()
}

/// The encryption key of a token: its digest.
pub open spec fn key_of(token: Seq<u8>) -> Seq<u8> {
    md5_digest(token)@
}

/// The initialization vector of a token: the digest of its key followed by
/// the token itself.
pub open spec fn iv_of(token: Seq<u8>) -> Seq<u8> {
    md5_digest(key_of(token) + token)@
}

/// How many bytes PKCS#7 adds to `len` bytes: between 1 and 16, up to the
/// next whole block.
pub open spec fn padding_len(len: nat) -> nat {
    (16 - len % 16) as nat
}

/// `data` followed by its PKCS#7 padding: `n` bytes of value `n`.
pub open spec fn pad(data: Seq<u8>) -> Seq<u8> {
    data + Seq::new(padding_len(data.len()), |i: int| padding_len(data.len()) as u8)
}

/// Byte-wise exclusive or of two blocks.
pub open spec fn xor_block(a: Seq<u8>, b: Seq<u8>) -> Seq<u8> {
    Seq::new(16, |i: int| a[i] ^ b[i])
}

/// Block number `i` of `data`.
pub open spec fn block_at(data: Seq<u8>, i: int) -> Seq<u8> {
    data.subrange(16 * i, 16 * i + 16)
}

/// Ciphertext block number `i` of `data` in CBC mode: the encryption of the
/// plaintext block combined with the ciphertext block before it, or with
/// `iv` for the first.
pub open spec fn cipher_block(key: Seq<u8>, iv: Seq<u8>, data: Seq<u8>, i: nat) -> Seq<u8>
    decreases i,
{
    let prev = if i == 0 {
        iv
    } else {
        cipher_block(key, iv, data, (i - 1) as nat)
    };
    aes128_block(key, xor_block(block_at(data, i as int), prev))@
}

/// The CBC encryption of `data`, a whole number of blocks.
pub open spec fn cbc_encrypt(key: Seq<u8>, iv: Seq<u8>, data: Seq<u8>) -> Seq<u8> {
    Seq::new(data.len(), |j: int| cipher_block(key, iv, data, (j / 16) as nat)[j % 16])
}

/// The ciphertext of `payload` under `token`.
pub open spec fn encrypt_spec(payload: Seq<u8>, token: Seq<u8>) -> Seq<u8> {
    cbc_encrypt(key_of(token), iv_of(token), pad(payload))
}

/// The token that a text of 16 bytes spells out, byte for byte. A text of
/// any other length is no token.
pub fn token_from_str(text: &str) -> (r: Option<[u8; 16]>)
    ensures
        match r {
            Some(token) => token@ == text.spec_bytes(),
            None => text.spec_bytes().len() != 16,
        },
{
    let val = text.as_bytes();
    if val.len() != BLOCK_LEN {
        return None;
    }
    let token = copy_block(val, 0);
    assert(token@ =~= val@);
    Some(token)
}

/// Derive the key and the initialization vector of a 16-byte token.
fn key_schedule(token: &[u8]) -> (r: ([u8; 16], [u8; 16]))
    requires
        token.len() == 16,
    ensures
        r.0@ == key_of(token@),
        r.1@ == iv_of(token@),
{
    let key = md5(token);
    let mut seed: Vec<u8> = Vec::new();
    seed.extend_from_slice(key.as_slice());
    seed.extend_from_slice(token);
    assert(seed@ =~= key_of(token@) + token@);
    let iv = md5(seed.as_slice());
    (key, iv)
}

/// Copy block number `i` out of `data`.
fn copy_block(data: &[u8], i: usize) -> (block: [u8; 16])
    requires
        16 * i + 16 <= data.len(),
    ensures
        block@ == block_at(data@, i as int),
{
    let mut block = [0u8; 16];
    let mut k: usize = 0;
    while k < 16
        invariant
            k <= 16,
            16 * i + 16 <= data.len(),
            forall|j: int| 0 <= j < k ==> block@[j] == data@[16 * i + j],
        decreases 16 - k,
    {
        block[k] = data[16 * i + k];
        k = k + 1;
    }
    assert(block@ =~= block_at(data@, i as int));
    block
}

/// Byte-wise exclusive or of two blocks.
fn xor(a: &[u8; 16], b: &[u8; 16]) -> (out: [u8; 16])
    ensures
        out@ == xor_block(a@, b@),
{
    let mut out = [0u8; 16];
    let mut k: usize = 0;
    while k < 16
        invariant
            k <= 16,
            forall|j: int| 0 <= j < k ==> out@[j] == a@[j] ^ b@[j],
        decreases 16 - k,
    {
        out[k] = a[k] ^ b[k];
        k = k + 1;
    }
    assert(out@ =~= xor_block(a@, b@));
    out
}

/// `data` with its PKCS#7 padding.
fn pad_bytes(data: &[u8]) -> (padded: Vec<u8>)
    requires
        data.len() + 16 <= usize::MAX,
    ensures
        padded@ == pad(data@),
        padded@.len() % 16 == 0,
        padded@.len() > data@.len(),
{
    let n: usize = 16 - data.len() % 16;
    let fill: u8 = n as u8;
    let mut padded: Vec<u8> = Vec::new();
    padded.extend_from_slice(data);
    let mut k: usize = 0;
    while k < n
        invariant
            k <= n,
            n == padding_len(data@.len() as nat),
            fill == n,
            padded@.len() == data@.len() + k,
            padded@.subrange(0, data@.len() as int) == data@,
            forall|j: int| data@.len() <= j < padded@.len() ==> padded@[j] == fill,
        decreases n - k,
    {
        padded.push(fill);
        k = k + 1;
        assert(padded@.subrange(0, data@.len() as int) =~= data@);
    }
    assert(padded@ =~= pad(data@));
    padded
}

/// Encrypt `payload` under `token`: pad it to whole blocks, then encrypt the
/// blocks in CBC mode with the key and the initialization vector of the token.
pub fn encrypt(payload: &[u8], token: &[u8]) -> (r: Result<Vec<u8>, CryptoError>)
    requires
        payload.len() + 16 <= usize::MAX,
    ensures
        match r {
            Ok(ciphertext) => token.len() == 16 && ciphertext@ == encrypt_spec(payload@, token@),
            Err(e) => token.len() != 16 && e == (CryptoError::BadTokenLength { len: token.len() }),
        },
{
    if token.len() != BLOCK_LEN {
        return Err(CryptoError::BadTokenLength { len: token.len() });
    }
    let (key, iv) = key_schedule(token);
    let padded = pad_bytes(payload);
    let blocks: usize = padded.len() / 16;
    let mut out: Vec<u8> = Vec::new();
    let mut prev: [u8; 16] = iv;
    let mut i: usize = 0;
    while i < blocks
        invariant
            i <= blocks,
            padded@.len() == 16 * blocks,
            out@.len() == 16 * i,
            i == 0 ==> prev@ == iv@,
            i > 0 ==> prev@ == cipher_block(key@, iv@, padded@, (i - 1) as nat),
            forall|j: int|
                0 <= j < 16 * i ==> out@[j] == #[trigger] cipher_block(
                    key@,
                    iv@,
                    padded@,
                    (j / 16) as nat,
                )[j % 16],
        decreases blocks - i,
    {
        let plain = copy_block(padded.as_slice(), i);
        let mixed = xor(&plain, &prev);
        let block = aes128_encrypt_block(&key, &mixed);
        assert(block@ == cipher_block(key@, iv@, padded@, i as nat));
        let ghost before = out@;
        out.extend_from_slice(block.as_slice());
        assert forall|j: int| 0 <= j < 16 * (i + 1) implies out@[j] == #[trigger] cipher_block(
            key@,
            iv@,
            padded@,
            (j / 16) as nat,
        )[j % 16] by {
            if j < 16 * i {
                assert(out@[j] == before[j]);
            } else {
                assert(j / 16 == i);
                assert(out@[j] == block@[j - 16 * i]);
            }
        }
        prev = block;
        i = i + 1;
    }
    assert(out@ =~= encrypt_spec(payload@, token@));
    Ok(out)
}

/// What PKCS#7 padding leaves of `data`: the bytes before the padding, or
/// nothing where `data` does not end in `n` bytes of value `n`, `n` from 1
/// to 16.
pub open spec fn unpad(data: Seq<u8>) -> Option<Seq<u8>> {
    if data.len() == 0 {
        None
    } else {
        let n = data.last() as int;
        if 1 <= n <= 16 && n <= data.len() && (forall|j: int|
            data.len() - n <= j < data.len() ==> data[j] == data.last()) {
            Some(data.take(data.len() - n))
        } else {
            None
        }
    }
}

/// The block that CBC mode combines with plaintext block `i`.
pub open spec fn chain_block(iv: Seq<u8>, ciphertext: Seq<u8>, i: int) -> Seq<u8> {
    if i == 0 {
        iv
    } else {
        block_at(ciphertext, i - 1)
    }
}

/// `input` is the one and only block that AES-128 encrypts to `output`
/// under `key`.
pub open spec fn is_preimage(key: Seq<u8>, input: Seq<u8>, output: Seq<u8>) -> bool {
    &&& input.len() == 16
    &&& aes128_block(key, input)@ == output
    &&& forall|q: Seq<u8>| q.len() == 16 && #[trigger] aes128_block(key, q)@ == output ==> q == input
}

/// The first `blocks` blocks of `plain` are the CBC decryption of the first
/// `blocks` blocks of `ciphertext`.
pub open spec fn cbc_decrypted(
    key: Seq<u8>,
    iv: Seq<u8>,
    ciphertext: Seq<u8>,
    plain: Seq<u8>,
    blocks: int,
) -> bool {
    forall|k: int|
        0 <= k < blocks ==> is_preimage(
            key,
            #[trigger] xor_block(block_at(plain, k), chain_block(iv, ciphertext, k)),
            block_at(ciphertext, k),
        )
}

proof fn lemma_xor_cancel(a: Seq<u8>, b: Seq<u8>)
    requires
        a.len() == 16,
        b.len() == 16,
    ensures
        xor_block(xor_block(a, b), b) == a,
{
    assert forall|i: int| 0 <= i < 16 implies (a[i] ^ b[i]) ^ b[i] == a[i] by {
        let x = a[i];
        let y = b[i];
        assert((x ^ y) ^ y == x) by (bit_vector);
    }
    assert(xor_block(xor_block(a, b), b) =~= a);
}

/// Where every block of `plain` decrypts the block of `ciphertext` in its
/// place, `plain` encrypts to `ciphertext`.
proof fn lemma_cbc_inverse(key: Seq<u8>, iv: Seq<u8>, ciphertext: Seq<u8>, plain: Seq<u8>, k: nat)
    requires
        ciphertext.len() % 16 == 0,
        plain.len() == ciphertext.len(),
        cbc_decrypted(key, iv, ciphertext, plain, ciphertext.len() as int / 16),
        16 * k + 16 <= ciphertext.len(),
    ensures
        cipher_block(key, iv, plain, k) == block_at(ciphertext, k as int),
    decreases k,
{
    if k > 0 {
        lemma_cbc_inverse(key, iv, ciphertext, plain, (k - 1) as nat);
    }
    let mixed = xor_block(block_at(plain, k as int), chain_block(iv, ciphertext, k as int));
    assert(is_preimage(key, mixed, block_at(ciphertext, k as int)));
}

/// Only one plaintext of its length encrypts to a given ciphertext.
proof fn lemma_cbc_unique(
    key: Seq<u8>,
    iv: Seq<u8>,
    ciphertext: Seq<u8>,
    plain: Seq<u8>,
    other: Seq<u8>,
    k: nat,
)
    requires
        iv.len() == 16,
        ciphertext.len() % 16 == 0,
        plain.len() == ciphertext.len(),
        other.len() == ciphertext.len(),
        cbc_decrypted(key, iv, ciphertext, plain, ciphertext.len() as int / 16),
        cbc_encrypt(key, iv, other) == ciphertext,
        16 * k + 16 <= ciphertext.len(),
    ensures
        cipher_block(key, iv, other, k) == block_at(ciphertext, k as int),
        block_at(other, k as int) == block_at(plain, k as int),
    decreases k,
{
    if k > 0 {
        lemma_cbc_unique(key, iv, ciphertext, plain, other, (k - 1) as nat);
    }
    let ki = k as int;
    let chain = chain_block(iv, ciphertext, ki);
    let produced = cipher_block(key, iv, other, k);
    assert(produced.len() == 16);
    assert forall|m: int| 0 <= m < 16 implies produced[m] == block_at(ciphertext, ki)[m] by {
        let j = 16 * ki + m;
        assert(j / 16 == ki && j % 16 == m);
        assert(cbc_encrypt(key, iv, other)[j] == cipher_block(key, iv, other, (j / 16) as nat)[j
            % 16]);
    }
    assert(produced =~= block_at(ciphertext, ki));
    let mine = xor_block(block_at(plain, ki), chain);
    let theirs = xor_block(block_at(other, ki), chain);
    assert(is_preimage(key, mine, block_at(ciphertext, ki)));
    assert(aes128_block(key, theirs)@ == block_at(ciphertext, ki));
    assert(theirs == mine);
    lemma_xor_cancel(block_at(plain, ki), chain);
    lemma_xor_cancel(block_at(other, ki), chain);
}

/// Padding can be taken off again.
pub proof fn lemma_unpad_pad(data: Seq<u8>)
    ensures
        pad(data).len() % 16 == 0,
        pad(data).len() > data.len(),
        unpad(pad(data)) == Some(data),
{
    let n = padding_len(data.len());
    let padded = pad(data);
    assert(padded.len() == data.len() + n);
    assert(padded.last() == n as u8);
    assert(padded.take(padded.len() - n) =~= data);
}

/// What was taken off was padding.
pub proof fn lemma_pad_unpad(padded: Seq<u8>, data: Seq<u8>)
    requires
        padded.len() % 16 == 0,
        unpad(padded) == Some(data),
    ensures
        pad(data) == padded,
{
    let n = padded.last() as int;
    assert(data.len() == padded.len() - n);
    assert(padding_len(data.len()) == n);
    assert(pad(data) =~= padded);
}

/// The bytes of `data` before its PKCS#7 padding, where it has one.
fn strip_padding(data: Vec<u8>) -> (r: Option<Vec<u8>>)
    ensures
        match r {
            Some(stripped) => unpad(data@) == Some(stripped@),
            None => unpad(data@) is None,
        },
{
    let len = data.len();
    if len == 0 {
        return None;
    }
    let fill: u8 = data[len - 1];
    if fill < 1 || fill > 16 || fill as usize > len {
        return None;
    }
    let n: usize = fill as usize;
    let mut j: usize = len - n;
    while j < len
        invariant
            len == data@.len(),
            fill == data@.last(),
            n == fill,
            1 <= n <= 16,
            n <= len,
            len - n <= j <= len,
            forall|m: int| len - n <= m < j ==> data@[m] == fill,
        decreases len - j,
    {
        if data[j] != fill {
            return None;
        }
        j = j + 1;
    }
    let mut stripped = data;
    stripped.truncate(len - n);
    Some(stripped)
}

/// What decrypting `ciphertext` under `token` gives: the payload that
/// encrypts to it, or why there is none.
pub open spec fn decrypt_spec(ciphertext: Seq<u8>, token: Seq<u8>) -> Result<Seq<u8>, CryptoError> {
    if token.len() != 16 {
        Err(CryptoError::BadTokenLength { len: token.len() as usize })
    } else if ciphertext.len() % 16 != 0 {
        Err(CryptoError::Truncated { len: ciphertext.len() as usize })
    } else if exists|p: Seq<u8>| encrypt_spec(p, token) == ciphertext {
        Ok(choose|p: Seq<u8>| encrypt_spec(p, token) == ciphertext)
    } else {
        Err(CryptoError::BadPadding)
    }
}

/// Decrypt `ciphertext` under `token`: the inverse of [`encrypt`]. It returns
/// the payload that encrypts to `ciphertext`, and an error exactly where
/// there is none.
pub fn decrypt(ciphertext: &[u8], token: &[u8]) -> (r: Result<Vec<u8>, CryptoError>)
    ensures
        match r {
            Ok(payload) => decrypt_spec(ciphertext@, token@) == Ok::<Seq<u8>, CryptoError>(
                payload@,
            ),
            Err(e) => decrypt_spec(ciphertext@, token@) == Err::<Seq<u8>, CryptoError>(e),
        },
        r is Ok ==> encrypt_spec(r->Ok_0@, token@) == ciphertext@,
        forall|p: Seq<u8>|
            token.len() == 16 && encrypt_spec(p, token@) == ciphertext@ ==> (r matches Ok(payload)
                && payload@ == p),
{
    if token.len() != BLOCK_LEN {
        return Err(CryptoError::BadTokenLength { len: token.len() });
    }
    if ciphertext.len() % BLOCK_LEN != 0 {
        proof {
            assert forall|p: Seq<u8>| encrypt_spec(p, token@) != ciphertext@ by {
                lemma_unpad_pad(p);
            }
        }
        return Err(CryptoError::Truncated { len: ciphertext.len() });
    }
    let (key, iv) = key_schedule(token);
    let blocks: usize = ciphertext.len() / 16;
    let mut plain: Vec<u8> = Vec::new();
    let mut i: usize = 0;
    while i < blocks
        invariant
            i <= blocks,
            ciphertext@.len() == 16 * blocks,
            plain@.len() == 16 * i,
            cbc_decrypted(key@, iv@, ciphertext@, plain@, i as int),
        decreases blocks - i,
    {
        let block = copy_block(ciphertext, i);
        let mixed = aes128_decrypt_block(&key, &block);
        let prev = if i == 0 {
            iv
        } else {
            copy_block(ciphertext, i - 1)
        };
        let clear = xor(&mixed, &prev);
        let ghost before = plain@;
        plain.extend_from_slice(clear.as_slice());
        proof {
            assert(prev@ == chain_block(iv@, ciphertext@, i as int));
            lemma_xor_cancel(mixed@, prev@);
            assert(block_at(plain@, i as int) =~= clear@);
            assert forall|k: int| 0 <= k < i + 1 implies is_preimage(
                key@,
                #[trigger] xor_block(block_at(plain@, k), chain_block(iv@, ciphertext@, k)),
                block_at(ciphertext@, k),
            ) by {
                if k < i {
                    assert(block_at(plain@, k) =~= block_at(before, k));
                    assert(is_preimage(
                        key@,
                        xor_block(block_at(before, k), chain_block(iv@, ciphertext@, k)),
                        block_at(ciphertext@, k),
                    ));
                }
            }
        }
        i = i + 1;
    }
    let ghost padded = plain@;
    proof {
        assert forall|k: nat| 16 * k + 16 <= ciphertext@.len() implies #[trigger] cipher_block(
            key@,
            iv@,
            padded,
            k,
        ) == block_at(ciphertext@, k as int) by {
            lemma_cbc_inverse(key@, iv@, ciphertext@, padded, k);
        }
        assert(cbc_encrypt(key@, iv@, padded) =~= ciphertext@) by {
            assert forall|j: int| 0 <= j < padded.len() implies cbc_encrypt(key@, iv@, padded)[j]
                == ciphertext@[j] by {
                let k = (j / 16) as nat;
                assert(16 * k + 16 <= ciphertext@.len());
                assert(cipher_block(key@, iv@, padded, k) == block_at(ciphertext@, k as int));
                assert(block_at(ciphertext@, k as int)[j % 16] == ciphertext@[j]);
            }
        }
        assert forall|p: Seq<u8>| encrypt_spec(p, token@) == ciphertext@ implies pad(p)
            == padded by {
            let other = pad(p);
            assert(other.len() == ciphertext@.len());
            assert forall|j: int| 0 <= j < other.len() implies other[j] == padded[j] by {
                let k = (j / 16) as nat;
                assert(16 * k + 16 <= ciphertext@.len());
                lemma_cbc_unique(key@, iv@, ciphertext@, padded, other, k);
                assert(block_at(other, k as int)[j % 16] == other[j]);
                assert(block_at(padded, k as int)[j % 16] == padded[j]);
            }
            assert(other =~= padded);
        }
        assert forall|p: Seq<u8>| encrypt_spec(p, token@) == ciphertext@ implies unpad(padded)
            == Some(p) by {
            lemma_unpad_pad(p);
        }
    }
    match strip_padding(plain) {
        Some(payload) => {
            proof {
                lemma_pad_unpad(padded, payload@);
                assert(encrypt_spec(payload@, token@) == ciphertext@);
                let chosen = choose|p: Seq<u8>| encrypt_spec(p, token@) == ciphertext@;
                assert(unpad(padded) == Some(chosen));
            }
            Ok(payload)
        },
        None => {
            proof {
                assert forall|p: Seq<u8>| encrypt_spec(p, token@) != ciphertext@ by {
                    if encrypt_spec(p, token@) == ciphertext@ {
                        assert(unpad(padded) == Some(p));
                    }
                }
            }
            Err(CryptoError::BadPadding)
        },
    }
}

} // verus!
