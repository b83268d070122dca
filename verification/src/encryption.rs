//! Segment-level AES-GCM encryption.
//!
//! An encrypted segment is stored as `[12-byte nonce][ciphertext || 16-byte tag]`. The
//! associated data authenticates the segment's offset, plaintext length and id. Keys are never
//! stored with the data: the catalog owns them.

use aes_gcm::aead::Aead;
use aes_gcm::aead::Payload;
use aes_gcm::Aes128Gcm;
use aes_gcm::Aes256Gcm;
use aes_gcm::KeyInit;
use vstd::prelude::*;

use crate::bytes::law_le_value_inverts_le_bytes;
use crate::bytes::law_le_bytes_inverts_le_value;
use crate::bytes::le_bytes;
use crate::bytes::le_value;
use crate::bytes::lemma_byte_range_values;
use crate::bytes::lemma_le_bytes_len;
use crate::bytes::push_le;

verus! {

/// Bytes of the nonce in front of each encrypted segment.
pub const NONCE_LEN: usize = 12;

/// Bytes of the authentication tag behind each ciphertext.
pub const TAG_LEN: usize = 16;

/// Value of [`crate::footer::SegmentSpec::encryption`] for an AES-GCM segment; 0 stands for none.
pub const AES_GCM_SPEC_INDEX: u16 = 1;

#[verifier::external_type_specification]
#[verifier::external_body]
pub struct ExAesGcmError(aes_gcm::Error);

#[verifier::external_type_specification]
#[verifier::external_body]
pub struct ExGetrandomError(getrandom::Error);

/// Why a segment could not be encrypted or decrypted.
#[derive(Clone, Copy, Debug, PartialEq, Eq, Structural)]
pub enum EncryptionError {
    /// The key has this many bytes, neither 16 nor 32.
    KeyLength(usize),
    /// The plaintext, or what a ciphertext of this length would hold, is longer than `u32::MAX`.
    LengthExceedsU32,
    /// The system handed out no random nonce.
    NonceUnavailable,
    /// The cipher refused the plaintext.
    EncryptFailed,
    /// The buffer is shorter than a nonce and a tag.
    TooShort,
    /// The tag does not match: wrong key, wrong locator or altered data.
    DecryptFailed,
}

/// A key for AES-128-GCM (16 bytes) or AES-256-GCM (32 bytes).
pub struct SegmentEncryptionKey {
    bytes: Vec<u8>,
}

impl View for SegmentEncryptionKey {
    type V = Seq<u8>;

    closed spec fn view(&self) -> Seq<u8> {
        self.bytes@
    }
}

impl SegmentEncryptionKey {
    #[verifier::type_invariant]
    spec fn inv(self) -> bool {
        is_key_len(self.bytes@.len())
    }

    /// Takes `bytes` as a key.
    pub fn try_new(bytes: Vec<u8>) -> (r: Result<SegmentEncryptionKey, EncryptionError>)
        ensures
            r is Ok <==> is_key_len(bytes@.len()),
            r is Ok <==> bytes@.len() == 16 || bytes@.len() == 32,
            r matches Ok(key) ==> key@ == bytes@,
            r matches Err(e) ==> e == EncryptionError::KeyLength(bytes@.len() as usize),
    {
        if bytes.len() != 16 && bytes.len() != 32 {
            return Err(EncryptionError::KeyLength(bytes.len()));
        }
        Ok(SegmentEncryptionKey { bytes })
    }

    /// The key's bytes.
    pub fn as_bytes(&self) -> (r: &[u8])
        ensures
            r@ == self@,
            is_key_len(self@.len()),
            r@.len() == 16 || r@.len() == 32,
    {
        proof {
            use_type_invariant(self);
        }
        self.bytes.as_slice()
    }
}

impl Clone for SegmentEncryptionKey {
    fn clone(&self) -> (r: SegmentEncryptionKey)
        ensures
            r@ == self@,
    {
        proof {
            use_type_invariant(self);
        }
        let mut bytes: Vec<u8> = Vec::new();
        bytes.extend_from_slice(self.bytes.as_slice());
        assert(bytes@ =~= self.bytes@);
        SegmentEncryptionKey { bytes }
    }
}

/// The two key sizes that segments can be encrypted with.
pub open spec fn is_key_len(n: nat) -> bool {
    n == 16 || n == 32
}

/// What AES-128-GCM makes of a message: the ciphertext and then the tag.
pub uninterp spec fn aes128_gcm_seal(
    key: Seq<u8>,
    nonce: Seq<u8>,
    aad: Seq<u8>,
    msg: Seq<u8>,
) -> Seq<u8>;

/// What AES-128-GCM recovers from a ciphertext and its tag, or nothing if the tag does not match.
pub uninterp spec fn aes128_gcm_open(
    key: Seq<u8>,
    nonce: Seq<u8>,
    aad: Seq<u8>,
    sealed: Seq<u8>,
) -> Option<Seq<u8>>;

/// What AES-256-GCM makes of a message: the ciphertext and then the tag.
pub uninterp spec fn aes256_gcm_seal(
    key: Seq<u8>,
    nonce: Seq<u8>,
    aad: Seq<u8>,
    msg: Seq<u8>,
) -> Seq<u8>;

/// What AES-256-GCM recovers from a ciphertext and its tag, or nothing if the tag does not match.
pub uninterp spec fn aes256_gcm_open(
    key: Seq<u8>,
    nonce: Seq<u8>,
    aad: Seq<u8>,
    sealed: Seq<u8>,
) -> Option<Seq<u8>>;

/// `getrandom::fill`: fills a nonce from the system's random source, or fails. Nothing is
/// promised of the bytes, nor of when it fails.
#[verifier::external_body]
pub(crate) fn sample_nonce() -> (r: Result<[u8; NONCE_LEN], getrandom::Error>) {
    let mut nonce = [0u8; NONCE_LEN];
    getrandom::fill(&mut nonce)?;
    Ok(nonce)
}

/// `Aes128Gcm::encrypt`: the ciphertext with its 16-byte tag behind it. It succeeds on every
/// message of this size, and [`aes128_gcm_open`] undoes it.
#[verifier::external_body]
fn aes128_gcm_encrypt(key: &[u8], nonce: &[u8], aad: &[u8], msg: &[u8]) -> (r: Result<
    Vec<u8>,
    aes_gcm::Error,
>)
    requires
        key@.len() == 16,
        nonce@.len() == NONCE_LEN,
        aad@.len() <= u32::MAX,
        msg@.len() <= u32::MAX,
    ensures
        r is Ok,
        r matches Ok(sealed) ==> sealed@ == aes128_gcm_seal(key@, nonce@, aad@, msg@),
        r matches Ok(sealed) ==> sealed@.len() == msg@.len() + TAG_LEN,
        r matches Ok(sealed) ==> aes128_gcm_open(key@, nonce@, aad@, sealed@) == Some(msg@),
{
    let cipher = Aes128Gcm::new_from_slice(key).map_err(|_| aes_gcm::Error)?;
    cipher.encrypt(nonce.into(), Payload { msg, aad })
}

/// `Aes128Gcm::decrypt`: the message if the tag matches, else an error. A message that comes out
/// encrypts to exactly what went in.
#[verifier::external_body]
fn aes128_gcm_decrypt(key: &[u8], nonce: &[u8], aad: &[u8], sealed: &[u8]) -> (r: Result<
    Vec<u8>,
    aes_gcm::Error,
>)
    requires
        key@.len() == 16,
        nonce@.len() == NONCE_LEN,
        aad@.len() <= u32::MAX,
        TAG_LEN <= sealed@.len() <= u32::MAX + TAG_LEN,
    ensures
        r matches Ok(msg) ==> aes128_gcm_open(key@, nonce@, aad@, sealed@) == Some(msg@),
        r matches Ok(msg) ==> sealed@ == aes128_gcm_seal(key@, nonce@, aad@, msg@),
        r matches Ok(msg) ==> msg@.len() + TAG_LEN == sealed@.len(),
        r is Err ==> aes128_gcm_open(key@, nonce@, aad@, sealed@) is None,
{
    let cipher = Aes128Gcm::new_from_slice(key).map_err(|_| aes_gcm::Error)?;
    cipher.decrypt(nonce.into(), Payload { msg: sealed, aad })
}

/// `Aes256Gcm::encrypt`: the ciphertext with its 16-byte tag behind it. It succeeds on every
/// message of this size, and [`aes256_gcm_open`] undoes it.
#[verifier::external_body]
fn aes256_gcm_encrypt(key: &[u8], nonce: &[u8], aad: &[u8], msg: &[u8]) -> (r: Result<
    Vec<u8>,
    aes_gcm::Error,
>)
    requires
        key@.len() == 32,
        nonce@.len() == NONCE_LEN,
        aad@.len() <= u32::MAX,
        msg@.len() <= u32::MAX,
    ensures
        r is Ok,
        r matches Ok(sealed) ==> sealed@ == aes256_gcm_seal(key@, nonce@, aad@, msg@),
        r matches Ok(sealed) ==> sealed@.len() == msg@.len() + TAG_LEN,
        r matches Ok(sealed) ==> aes256_gcm_open(key@, nonce@, aad@, sealed@) == Some(msg@),
{
    let cipher = Aes256Gcm::new_from_slice(key).map_err(|_| aes_gcm::Error)?;
    cipher.encrypt(nonce.into(), Payload { msg, aad })
}

/// `Aes256Gcm::decrypt`: the message if the tag matches, else an error. A message that comes out
/// encrypts to exactly what went in.
#[verifier::external_body]
fn aes256_gcm_decrypt(key: &[u8], nonce: &[u8], aad: &[u8], sealed: &[u8]) -> (r: Result<
    Vec<u8>,
    aes_gcm::Error,
>)
    requires
        key@.len() == 32,
        nonce@.len() == NONCE_LEN,
        aad@.len() <= u32::MAX,
        TAG_LEN <= sealed@.len() <= u32::MAX + TAG_LEN,
    ensures
        r matches Ok(msg) ==> aes256_gcm_open(key@, nonce@, aad@, sealed@) == Some(msg@),
        r matches Ok(msg) ==> sealed@ == aes256_gcm_seal(key@, nonce@, aad@, msg@),
        r matches Ok(msg) ==> msg@.len() + TAG_LEN == sealed@.len(),
        r is Err ==> aes256_gcm_open(key@, nonce@, aad@, sealed@) is None,
{
    let cipher = Aes256Gcm::new_from_slice(key).map_err(|_| aes_gcm::Error)?;
    cipher.decrypt(nonce.into(), Payload { msg: sealed, aad })
}

/// The associated data of a segment: its offset, plaintext length and id, little-endian.
pub open spec fn aad_spec(offset: u64, plaintext_len: u32, segment_id: u32) -> Seq<u8> {
    le_bytes(offset as nat, 8) + le_bytes(plaintext_len as nat, 4) + le_bytes(
        segment_id as nat,
        4,
    )
}

/// AES-GCM with the variant that the key's length selects.
pub open spec fn gcm_seal(key: Seq<u8>, nonce: Seq<u8>, aad: Seq<u8>, msg: Seq<u8>) -> Seq<u8> {
    if key.len() == 16 {
        aes128_gcm_seal(key, nonce, aad, msg)
    } else {
        aes256_gcm_seal(key, nonce, aad, msg)
    }
}

/// The inverse of [`gcm_seal`], or nothing where the tag does not match.
pub open spec fn gcm_open(key: Seq<u8>, nonce: Seq<u8>, aad: Seq<u8>, sealed: Seq<u8>) -> Option<
    Seq<u8>,
> {
    if key.len() == 16 {
        aes128_gcm_open(key, nonce, aad, sealed)
    } else {
        aes256_gcm_open(key, nonce, aad, sealed)
    }
}

/// The stored form of `plaintext` as segment `segment_id` at `offset`.
pub open spec fn encrypted_segment(
    key: Seq<u8>,
    nonce: Seq<u8>,
    plaintext: Seq<u8>,
    offset: u64,
    segment_id: u32,
) -> Seq<u8> {
    nonce + gcm_seal(key, nonce, aad_spec(offset, plaintext.len() as u32, segment_id), plaintext)
}

/// What a stored segment decrypts to, or nothing where the tag does not match.
pub open spec fn decrypted_segment(
    key: Seq<u8>,
    encrypted: Seq<u8>,
    offset: u64,
    segment_id: u32,
) -> Option<Seq<u8>> {
    gcm_open(
        key,
        encrypted.take(NONCE_LEN as int),
        aad_spec(offset, (encrypted.len() - NONCE_LEN - TAG_LEN) as u32, segment_id),
        encrypted.skip(NONCE_LEN as int),
    )
}

/// The associated data of a segment.
pub fn aad(offset: u64, plaintext_len: u32, segment_id: u32) -> (r: [u8; 16])
    ensures
        r@ == aad_spec(offset, plaintext_len, segment_id),
        le_value(r@.subrange(0, 8)) == offset,
        le_value(r@.subrange(8, 12)) == plaintext_len,
        le_value(r@.subrange(12, 16)) == segment_id,
{
    let mut bytes: Vec<u8> = Vec::with_capacity(16);
    push_le(&mut bytes, offset, 8);
    push_le(&mut bytes, plaintext_len as u64, 4);
    push_le(&mut bytes, segment_id as u64, 4);
    proof {
        lemma_le_bytes_len(offset as nat, 8);
        lemma_le_bytes_len(plaintext_len as nat, 4);
        lemma_le_bytes_len(segment_id as nat, 4);
        assert(bytes@ =~= aad_spec(offset, plaintext_len, segment_id));
    }
    let mut out: [u8; 16] = [0u8; 16];
    for i in 0..16usize
        invariant
            bytes@.len() == 16,
            out@.len() == 16,
            forall|k: int| 0 <= k < i ==> out@[k] == bytes@[k],
    {
        out[i] = bytes[i];
    }
    assert(out@ =~= bytes@);
    proof {
        law_aad_layout(offset, plaintext_len, segment_id);
    }
    out
}

/// Two segments share their associated data only if they agree in offset, length and id.
pub proof fn law_aad_identifies_segment(
    offset1: u64,
    len1: u32,
    id1: u32,
    offset2: u64,
    len2: u32,
    id2: u32,
)
    ensures
        aad_spec(offset1, len1, id1) == aad_spec(offset2, len2, id2) <==> (offset1 == offset2
            && len1 == len2 && id1 == id2),
{
    lemma_byte_range_values();
    if aad_spec(offset1, len1, id1) == aad_spec(offset2, len2, id2) {
        lemma_le_bytes_len(offset1 as nat, 8);
        lemma_le_bytes_len(len1 as nat, 4);
        lemma_le_bytes_len(id1 as nat, 4);
        lemma_le_bytes_len(offset2 as nat, 8);
        lemma_le_bytes_len(len2 as nat, 4);
        lemma_le_bytes_len(id2 as nat, 4);
        let a = aad_spec(offset1, len1, id1);
        let b = aad_spec(offset2, len2, id2);
        assert(a.subrange(0, 8) =~= le_bytes(offset1 as nat, 8));
        assert(b.subrange(0, 8) =~= le_bytes(offset2 as nat, 8));
        assert(a.subrange(8, 12) =~= le_bytes(len1 as nat, 4));
        assert(b.subrange(8, 12) =~= le_bytes(len2 as nat, 4));
        assert(a.subrange(12, 16) =~= le_bytes(id1 as nat, 4));
        assert(b.subrange(12, 16) =~= le_bytes(id2 as nat, 4));
        law_le_value_inverts_le_bytes(offset1 as nat, 8);
        law_le_value_inverts_le_bytes(offset2 as nat, 8);
        law_le_value_inverts_le_bytes(len1 as nat, 4);
        law_le_value_inverts_le_bytes(len2 as nat, 4);
        law_le_value_inverts_le_bytes(id1 as nat, 4);
        law_le_value_inverts_le_bytes(id2 as nat, 4);
    }
}

/// Encrypts `plaintext` under a given nonce, for storage at `offset` as segment `segment_id`.
///
/// What comes out decrypts to `plaintext` again under the same key, offset and id.
pub fn encrypt_segment_with_nonce(
    key: &SegmentEncryptionKey,
    nonce: &[u8; NONCE_LEN],
    plaintext: &[u8],
    offset: u64,
    segment_id: u32,
) -> (r: Result<Vec<u8>, EncryptionError>)
    ensures
        r is Ok <==> plaintext@.len() <= u32::MAX,
        r matches Err(e) ==> e == EncryptionError::LengthExceedsU32,
        r matches Ok(out) ==> {
            &&& out@ == encrypted_segment(key@, nonce@, plaintext@, offset, segment_id)
            &&& out@.len() == NONCE_LEN + plaintext@.len() + TAG_LEN
            &&& out@.take(NONCE_LEN as int) == nonce@
            &&& decrypted_segment(key@, out@, offset, segment_id) == Some(plaintext@)
        },
{
    if plaintext.len() as u128 > u32::MAX as u128 {
        return Err(EncryptionError::LengthExceedsU32);
    }
    let plaintext_len: u32 = plaintext.len() as u32;
    let aad: [u8; 16] = aad(offset, plaintext_len, segment_id);
    let key_bytes = key.as_bytes();
    let sealed = if key_bytes.len() == 16 {
        aes128_gcm_encrypt(key_bytes, nonce.as_slice(), aad.as_slice(), plaintext)
    } else {
        aes256_gcm_encrypt(key_bytes, nonce.as_slice(), aad.as_slice(), plaintext)
    };
    let ciphertext = match sealed {
        Ok(ciphertext) => ciphertext,
        Err(_) => return Err(EncryptionError::EncryptFailed),
    };
    let mut out: Vec<u8> = Vec::new();
    out.extend_from_slice(nonce.as_slice());
    out.extend_from_slice(ciphertext.as_slice());
    proof {
        assert(out@ =~= nonce@ + ciphertext@);
        assert(out@.take(NONCE_LEN as int) =~= nonce@);
        assert(out@.skip(NONCE_LEN as int) =~= ciphertext@);
    }
    Ok(out)
}

/// Encrypts `plaintext` under a random nonce, for storage at `offset` as segment `segment_id`.
///
/// Whether a nonce can be had is up to the system; with one, the plaintext length alone decides.
pub fn encrypt_segment(
    key: &SegmentEncryptionKey,
    plaintext: &[u8],
    offset: u64,
    segment_id: u32,
) -> (r: Result<Vec<u8>, EncryptionError>)
    ensures
        plaintext@.len() > u32::MAX ==> r == Err::<Vec<u8>, _>(EncryptionError::LengthExceedsU32),
        plaintext@.len() <= u32::MAX ==> (r matches Err(e) ==> e
            == EncryptionError::NonceUnavailable),
        r matches Ok(out) ==> {
            &&& out@.len() == NONCE_LEN + plaintext@.len() + TAG_LEN
            &&& out@ == encrypted_segment(
                key@,
                out@.take(NONCE_LEN as int),
                plaintext@,
                offset,
                segment_id,
            )
            &&& decrypted_segment(key@, out@, offset, segment_id) == Some(plaintext@)
        },
{
    if plaintext.len() as u128 > u32::MAX as u128 {
        return Err(EncryptionError::LengthExceedsU32);
    }
    match sample_nonce() {
        Ok(nonce) => encrypt_segment_with_nonce(key, &nonce, plaintext, offset, segment_id),
        Err(_) => Err(EncryptionError::NonceUnavailable),
    }
}

/// Decrypts a stored segment. `offset` and `segment_id` must be those it was encrypted with.
///
/// Only a buffer that encryption under this key, offset and id produces is accepted.
pub fn decrypt_segment(
    key: &SegmentEncryptionKey,
    encrypted: &[u8],
    offset: u64,
    segment_id: u32,
) -> (r: Result<Vec<u8>, EncryptionError>)
    ensures
        encrypted@.len() < NONCE_LEN + TAG_LEN ==> r == Err::<Vec<u8>, _>(
            EncryptionError::TooShort,
        ),
        encrypted@.len() > u32::MAX + NONCE_LEN + TAG_LEN ==> r == Err::<Vec<u8>, _>(
            EncryptionError::LengthExceedsU32,
        ),
        NONCE_LEN + TAG_LEN <= encrypted@.len() <= u32::MAX + NONCE_LEN + TAG_LEN ==> {
            &&& r matches Err(e) ==> e == EncryptionError::DecryptFailed
            &&& r is Err <==> decrypted_segment(key@, encrypted@, offset, segment_id) is None
        },
        r matches Ok(plain) ==> {
            &&& decrypted_segment(key@, encrypted@, offset, segment_id) == Some(plain@)
            &&& encrypted@ == encrypted_segment(
                key@,
                encrypted@.take(NONCE_LEN as int),
                plain@,
                offset,
                segment_id,
            )
            &&& plain@.len() + NONCE_LEN + TAG_LEN == encrypted@.len()
        },
{
    if encrypted.len() < NONCE_LEN + TAG_LEN {
        return Err(EncryptionError::TooShort);
    }
    let (nonce, ciphertext) = encrypted.split_at(NONCE_LEN);
    let plain_len: usize = ciphertext.len() - TAG_LEN;
    if plain_len as u128 > u32::MAX as u128 {
        return Err(EncryptionError::LengthExceedsU32);
    }
    let aad: [u8; 16] = aad(offset, plain_len as u32, segment_id);
    let key_bytes = key.as_bytes();
    proof {
        assert(nonce@ =~= encrypted@.take(NONCE_LEN as int));
        assert(ciphertext@ =~= encrypted@.skip(NONCE_LEN as int));
        assert(encrypted@ =~= nonce@ + ciphertext@);
    }
    let opened = if key_bytes.len() == 16 {
        aes128_gcm_decrypt(key_bytes, nonce, aad.as_slice(), ciphertext)
    } else {
        aes256_gcm_decrypt(key_bytes, nonce, aad.as_slice(), ciphertext)
    };
    match opened {
        Ok(plain) => Ok(plain),
        Err(_) => Err(EncryptionError::DecryptFailed),
    }
}

/// The associated data are 16 bytes: the offset in the first eight, the plaintext length in the
/// next four and the id in the last four, each little-endian.
pub proof fn law_aad_layout(offset: u64, plaintext_len: u32, segment_id: u32)
    ensures
        aad_spec(offset, plaintext_len, segment_id).len() == 16,
        le_value(aad_spec(offset, plaintext_len, segment_id).subrange(0, 8)) == offset,
        le_value(aad_spec(offset, plaintext_len, segment_id).subrange(8, 12)) == plaintext_len,
        le_value(aad_spec(offset, plaintext_len, segment_id).subrange(12, 16)) == segment_id,
{
    lemma_byte_range_values();
    lemma_le_bytes_len(offset as nat, 8);
    lemma_le_bytes_len(plaintext_len as nat, 4);
    lemma_le_bytes_len(segment_id as nat, 4);
    law_le_value_inverts_le_bytes(offset as nat, 8);
    law_le_value_inverts_le_bytes(plaintext_len as nat, 4);
    law_le_value_inverts_le_bytes(segment_id as nat, 4);
    let a = aad_spec(offset, plaintext_len, segment_id);
    assert(a.subrange(0, 8) =~= le_bytes(offset as nat, 8));
    assert(a.subrange(8, 12) =~= le_bytes(plaintext_len as nat, 4));
    assert(a.subrange(12, 16) =~= le_bytes(segment_id as nat, 4));
}

proof fn lemma_aad_by_parts(aad: Seq<u8>, offset: u64, plaintext_len: u32, segment_id: u32)
    requires
        aad.len() == 16,
        le_value(aad.subrange(0, 8)) == offset,
        le_value(aad.subrange(8, 12)) == plaintext_len,
        le_value(aad.subrange(12, 16)) == segment_id,
    ensures
        aad == aad_spec(offset, plaintext_len, segment_id),
{
    law_le_bytes_inverts_le_value(aad.subrange(0, 8));
    law_le_bytes_inverts_le_value(aad.subrange(8, 12));
    law_le_bytes_inverts_le_value(aad.subrange(12, 16));
    assert(aad =~= aad.subrange(0, 8) + aad.subrange(8, 12) + aad.subrange(12, 16));
}

/// An encrypted segment is the nonce and behind it the plaintext sealed with AES-GCM, of the
/// variant that fits the key, under associated data that hold the offset, the plaintext length
/// and the id.
pub proof fn law_encrypted_segment_layout(
    key: Seq<u8>,
    nonce: Seq<u8>,
    plaintext: Seq<u8>,
    offset: u64,
    segment_id: u32,
    aad: Seq<u8>,
)
    requires
        plaintext.len() <= u32::MAX,
        aad.len() == 16,
        le_value(aad.subrange(0, 8)) == offset,
        le_value(aad.subrange(8, 12)) == plaintext.len(),
        le_value(aad.subrange(12, 16)) == segment_id,
    ensures
        key.len() == 16 ==> encrypted_segment(key, nonce, plaintext, offset, segment_id) == nonce
            + aes128_gcm_seal(key, nonce, aad, plaintext),
        key.len() == 32 ==> encrypted_segment(key, nonce, plaintext, offset, segment_id) == nonce
            + aes256_gcm_seal(key, nonce, aad, plaintext),
{
    lemma_aad_by_parts(aad, offset, plaintext.len() as u32, segment_id);
}

/// Of an encrypted segment the first 12 bytes are the nonce, and the rest is opened with AES-GCM
/// under associated data that hold the offset, the length without the nonce and the 16-byte tag,
/// and the id.
pub proof fn law_decrypted_segment_layout(
    key: Seq<u8>,
    encrypted: Seq<u8>,
    offset: u64,
    segment_id: u32,
    aad: Seq<u8>,
)
    requires
        28 <= encrypted.len() <= u32::MAX + 28,
        aad.len() == 16,
        le_value(aad.subrange(0, 8)) == offset,
        le_value(aad.subrange(8, 12)) == encrypted.len() - 28,
        le_value(aad.subrange(12, 16)) == segment_id,
    ensures
        key.len() == 16 ==> decrypted_segment(key, encrypted, offset, segment_id)
            == aes128_gcm_open(key, encrypted.take(12), aad, encrypted.skip(12)),
        key.len() == 32 ==> decrypted_segment(key, encrypted, offset, segment_id)
            == aes256_gcm_open(key, encrypted.take(12), aad, encrypted.skip(12)),
{
    lemma_aad_by_parts(aad, offset, (encrypted.len() - 28) as u32, segment_id);
}

} // verus!
