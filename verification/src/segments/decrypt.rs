//! Reading segments, decrypting those that are stored encrypted.

use vstd::prelude::*;

use crate::encryption::decrypt_segment;
use crate::encryption::decrypted_segment;
use crate::encryption::encrypted_segment;
use crate::encryption::EncryptionError;
use crate::encryption::SegmentEncryptionKey;
use crate::encryption::NONCE_LEN;
use crate::encryption::TAG_LEN;
use crate::footer::ByteBuffer;
use crate::footer::SegmentSpec;

verus! {

/// How a segment that was asked for is obtained.
#[derive(Clone, Copy, Debug)]
pub enum SegmentRequest {
    /// No segment has this id.
    Missing,
    /// The stored bytes are the content: hand on what the inner source gives.
    PassThrough,
    /// Fetch the stored bytes from the inner source and decrypt them as this segment.
    Decrypt(SegmentSpec),
}

/// The segments of a file, of which the encrypted ones are decrypted on the way out.
pub struct DecryptingSegmentSource {
    segments: Vec<SegmentSpec>,
    key: SegmentEncryptionKey,
}

impl DecryptingSegmentSource {
    /// The segments, in the order of their ids.
    pub closed spec fn segments(self) -> Seq<SegmentSpec> {
        self.segments@
    }

    /// The key's bytes.
    pub closed spec fn key(self) -> Seq<u8> {
        self.key@
    }

    /// A source for the given segments and key.
    pub fn new(segments: Vec<SegmentSpec>, key: SegmentEncryptionKey) -> (r: Self)
        ensures
            r.segments() == segments@,
            r.key() == key@,
    {
        DecryptingSegmentSource { segments, key }
    }

    /// Decides how segment `id` is obtained.
    pub fn request(&self, id: u32) -> (r: SegmentRequest)
        ensures
            r == (if id >= self.segments().len() {
                SegmentRequest::Missing
            } else if !self.segments()[id as int].encrypted() {
                SegmentRequest::PassThrough
            } else {
                SegmentRequest::Decrypt(self.segments()[id as int])
            }),
            r is Missing <==> id >= self.segments().len(),
            r is PassThrough <==> id < self.segments().len() && self.segments()[id as int].encryption
                == 0,
            r matches SegmentRequest::Decrypt(spec) ==> spec == self.segments()[id as int],
    {
        if id as u128 >= self.segments.len() as u128 {
            return SegmentRequest::Missing;
        }
        let spec = self.segments[id as usize];
        if !spec.is_encrypted() {
            return SegmentRequest::PassThrough;
        }
        SegmentRequest::Decrypt(spec)
    }

    /// The content of segment `id`, stored as `spec` says, from the bytes that the inner source
    /// gave for it.
    pub fn decrypt(&self, id: u32, spec: SegmentSpec, stored: &[u8]) -> (r: Result<
        ByteBuffer,
        EncryptionError,
    >)
        ensures
            stored@.len() < NONCE_LEN + TAG_LEN ==> r == Err::<ByteBuffer, _>(
                EncryptionError::TooShort,
            ),
            stored@.len() > u32::MAX + NONCE_LEN + TAG_LEN ==> r == Err::<ByteBuffer, _>(
                EncryptionError::LengthExceedsU32,
            ),
            NONCE_LEN + TAG_LEN <= stored@.len() <= u32::MAX + NONCE_LEN + TAG_LEN ==> {
                &&& r matches Err(e) ==> e == EncryptionError::DecryptFailed
                &&& r is Err <==> decrypted_segment(self.key(), stored@, spec.offset, id) is None
            },
            r matches Ok(buffer) ==> {
                &&& decrypted_segment(self.key(), stored@, spec.offset, id) == Some(buffer.bytes@)
                &&& stored@ == encrypted_segment(
                    self.key(),
                    stored@.take(NONCE_LEN as int),
                    buffer.bytes@,
                    spec.offset,
                    id,
                )
                &&& buffer.alignment == spec.alignment
                &&& buffer.bytes@.len() + 28 == stored@.len()
            },
    {
        match decrypt_segment(&self.key, stored, spec.offset, id) {
            Ok(bytes) => Ok(ByteBuffer { bytes, alignment: spec.alignment }),
            Err(e) => Err(e),
        }
    }
}

} // verus!
