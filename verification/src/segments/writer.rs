//! Laying segments out in a file.

use vstd::prelude::*;

use crate::encryption::decrypted_segment;
use crate::encryption::encrypt_segment_with_nonce;
use crate::encryption::encrypted_segment;
use crate::encryption::sample_nonce;
use crate::encryption::EncryptionError;
use crate::encryption::SegmentEncryptionKey;
use crate::encryption::AES_GCM_SPEC_INDEX;
use crate::encryption::NONCE_LEN;
use crate::encryption::TAG_LEN;
use crate::footer::Alignment;
use crate::footer::ByteBuffer;
use crate::footer::SegmentSpec;

verus! {

/// Why a segment could not be written. Nothing has changed then.
#[derive(Clone, Copy, Debug, PartialEq, Eq, Structural)]
pub enum WriteError {
    /// The next segment's id would not fit in a `u32`.
    TooManySegments,
    /// The stored bytes would be longer than `u32::MAX`.
    LengthExceedsU32,
    /// The segment could not be encrypted.
    Encryption(EncryptionError),
}

/// A segment that has its place in the file, with the bytes to send for it.
pub struct WrittenSegment {
    /// The segment's id.
    pub segment_id: u32,
    /// Zero bytes to send first, if any are needed.
    pub padding: Option<Vec<u8>>,
    /// The stored bytes, to be sent in order.
    pub buffers: Vec<ByteBuffer>,
}

/// The bytes of all buffers, one after the other.
pub open spec fn content(buffers: Seq<ByteBuffer>) -> Seq<u8>
    decreases buffers.len(),
{
    if buffers.len() == 0 {
        seq![]
    } else {
        content(buffers.drop_last()) + buffers.last().bytes@
    }
}

/// The alignment that a segment made of `buffers` has: that of the first one.
pub open spec fn first_alignment(buffers: Seq<ByteBuffer>) -> nat {
    if buffers.len() == 0 {
        1
    } else {
        buffers[0].alignment@
    }
}

/// The least multiple of `alignment` that is not below `offset`.
pub open spec fn aligned_up(offset: nat, alignment: nat) -> nat {
    if offset % alignment == 0 {
        offset
    } else {
        (offset + (alignment - offset % alignment)) as nat
    }
}

/// The number of bytes that a segment of `len` bytes takes in the file.
pub open spec fn stored_len(len: nat, encrypted: bool) -> nat {
    if encrypted {
        (len + NONCE_LEN + TAG_LEN) as nat
    } else {
        len
    }
}

/// The bytes to send for a written segment, padding first.
pub open spec fn emitted(w: WrittenSegment) -> Seq<u8> {
    (match w.padding {
        Some(zeros) => zeros@,
        None => seq![],
    }) + content(w.buffers@)
}

/// The stored bytes of a segment in the file `image`.
pub open spec fn stored_at(image: Seq<u8>, spec: SegmentSpec) -> Seq<u8> {
    image.subrange(spec.offset as int, spec.offset + spec.length)
}

/// Whether segments lie in order between `start` and `end`, each aligned, none overlapping.
pub open spec fn laid_out(specs: Seq<SegmentSpec>, start: nat, end: nat) -> bool {
    &&& start <= end
    &&& forall|i: int|
        0 <= i < specs.len() ==> {
            &&& (#[trigger] specs[i]).alignment@ > 0
            &&& specs[i].offset as nat % specs[i].alignment@ == 0
            &&& start <= specs[i].offset
            &&& specs[i].offset + specs[i].length <= end
        }
    &&& forall|i: int, j: int|
        0 <= i < j < specs.len() ==> (#[trigger] specs[i]).offset + specs[i].length <= (
        #[trigger] specs[j]).offset
}

/// Lays segments out one after the other and keeps the list of their places.
pub struct BufferedSegmentSink {
    byte_offset: u64,
    segment_specs: Vec<SegmentSpec>,
    encryption_key: Option<SegmentEncryptionKey>,
}

impl BufferedSegmentSink {
    /// The position behind the last byte that was laid out.
    pub closed spec fn offset(self) -> u64 {
        self.byte_offset
    }

    /// The segments written so far, in the order of their ids.
    pub closed spec fn specs(self) -> Seq<SegmentSpec> {
        self.segment_specs@
    }

    /// The bytes of the encryption key, if there is one.
    pub closed spec fn key(self) -> Option<Seq<u8>> {
        match self.encryption_key {
            Some(key) => Some(key@),
            None => None,
        }
    }

    /// The position of the next segment if it is made of `buffers`.
    pub open spec fn next_offset(self, buffers: Seq<ByteBuffer>) -> nat {
        aligned_up(self.offset() as nat, first_alignment(buffers))
    }

    /// The error that writing `buffers` gives, if any, where `nonce` says whether a nonce could
    /// be had.
    pub open spec fn write_error(self, buffers: Seq<ByteBuffer>, nonce: bool) -> Option<
        WriteError,
    > {
        let len = content(buffers).len();
        if self.specs().len() > u32::MAX {
            Some(WriteError::TooManySegments)
        } else if self.key() is None {
            if len > u32::MAX {
                Some(WriteError::LengthExceedsU32)
            } else {
                None
            }
        } else if len > u32::MAX {
            Some(WriteError::Encryption(EncryptionError::LengthExceedsU32))
        } else if !nonce {
            Some(WriteError::Encryption(EncryptionError::NonceUnavailable))
        } else if stored_len(len, true) > u32::MAX {
            Some(WriteError::LengthExceedsU32)
        } else {
            None
        }
    }

    /// Whether the positions that writing `buffers` computes fit in a `u64`.
    pub open spec fn has_room(self, buffers: Seq<ByteBuffer>) -> bool {
        let len = stored_len(content(buffers).len(), self.key() is Some);
        &&& content(buffers).len() <= usize::MAX
        &&& self.next_offset(buffers) <= u64::MAX
        &&& len <= u32::MAX ==> self.next_offset(buffers) + len <= u64::MAX
    }

    /// Whether `w` and `after` are what writing `buffers` to this sink gives.
    pub open spec fn wrote(
        self,
        buffers: Seq<ByteBuffer>,
        w: WrittenSegment,
        after: BufferedSegmentSink,
    ) -> bool {
        let plain = content(buffers);
        let spec = after.specs().last();
        &&& after.key() == self.key()
        &&& after.specs().len() == self.specs().len() + 1
        &&& after.specs().drop_last() == self.specs()
        &&& w.segment_id == self.specs().len()
        &&& spec.offset == self.next_offset(buffers)
        &&& spec.length == stored_len(plain.len(), self.key() is Some)
        &&& spec.alignment@ == first_alignment(buffers)
        &&& spec.encryption == (if self.key() is Some {
            AES_GCM_SPEC_INDEX
        } else {
            0
        })
        &&& after.offset() == spec.offset + spec.length
        &&& content(w.buffers@).len() == spec.length
        &&& match w.padding {
            Some(zeros) => spec.offset > self.offset() && zeros@ == Seq::new(
                (spec.offset - self.offset()) as nat,
                |i: int| 0u8,
            ),
            None => spec.offset == self.offset(),
        }
        &&& match self.key() {
            Some(key) => w.buffers@.len() == 1 && decrypted_segment(
                key,
                content(w.buffers@),
                spec.offset,
                w.segment_id,
            ) == Some(plain),
            None => w.buffers@ == buffers,
        }
    }

    /// A sink that lays out its first segment at `byte_offset`, aligned.
    pub fn with_encryption(byte_offset: u64, encryption_key: Option<SegmentEncryptionKey>) -> (r:
        Self)
        ensures
            r.offset() == byte_offset,
            r.specs() == Seq::<SegmentSpec>::empty(),
            r.key() == (match encryption_key {
                Some(key) => Some(key@),
                None => None,
            }),
            laid_out(r.specs(), byte_offset as nat, r.offset() as nat),
    {
        BufferedSegmentSink { byte_offset, segment_specs: Vec::new(), encryption_key }
    }

    /// Closes the sink and gives the segments that were written, in the order of their ids, with
    /// the final byte offset.
    pub fn segment_specs(self) -> (r: (Vec<SegmentSpec>, u64))
        ensures
            r.0@ == self.specs(),
            r.1 == self.offset(),
    {
        (self.segment_specs, self.byte_offset)
    }

    /// The position behind the last byte that was laid out.
    pub fn byte_offset(&self) -> (r: u64)
        ensures
            r == self.offset(),
    {
        self.byte_offset
    }

    /// Whether the positions that writing `buffers` computes fit in a `u64`, so that they can be
    /// written.
    pub fn can_write(&self, buffers: &Vec<ByteBuffer>) -> (r: bool)
        ensures
            r == self.has_room(buffers@),
            r ==> content(buffers@).len() <= usize::MAX,
            r && self.key() is None && content(buffers@).len() <= u32::MAX ==> aligned_up(
                self.offset() as nat,
                first_alignment(buffers@),
            ) + content(buffers@).len() <= u64::MAX,
            r && self.key() is Some && content(buffers@).len() + 28 <= u32::MAX ==> aligned_up(
                self.offset() as nat,
                first_alignment(buffers@),
            ) + content(buffers@).len() + 28 <= u64::MAX,
            content(buffers@).len() <= usize::MAX && aligned_up(
                self.offset() as nat,
                first_alignment(buffers@),
            ) + content(buffers@).len() + 28 <= u64::MAX ==> r,
    {
        let len: usize = match checked_total_len(buffers) {
            Some(len) => len,
            None => return false,
        };
        let alignment = if buffers.len() == 0 {
            Alignment::none()
        } else {
            buffers[0].alignment
        };
        let step: u128 = alignment.as_usize() as u128;
        let at: u128 = self.byte_offset as u128;
        proof {
            lemma_aligned_up(self.byte_offset as nat, step as nat);
        }
        let past: u128 = at % step;
        let offset: u128 = if past == 0 {
            at
        } else {
            at + (step - past)
        };
        let stored: u128 = if self.encryption_key.is_some() {
            len as u128 + NONCE_LEN as u128 + TAG_LEN as u128
        } else {
            len as u128
        };
        offset <= u64::MAX as u128 && (stored > u32::MAX as u128 || offset + stored
            <= u64::MAX as u128)
    }

    /// The alignment and position of the next segment if it is made of `buffers`.
    fn place(&self, buffers: &Vec<ByteBuffer>) -> (r: (Alignment, u64))
        requires
            self.next_offset(buffers@) <= u64::MAX,
        ensures
            r.0@ == first_alignment(buffers@),
            r.1 == self.next_offset(buffers@),
            r.1 >= self.offset(),
            r.0@ > 0,
            r.1 as nat % r.0@ == 0,
            r.1 - self.offset() < r.0@ <= usize::MAX,
    {
        let alignment = if buffers.len() == 0 {
            Alignment::none()
        } else {
            buffers[0].alignment
        };
        let step: u64 = alignment.as_usize() as u64;
        let past: u64 = self.byte_offset % step;
        let offset: u64 = if past == 0 {
            self.byte_offset
        } else {
            self.byte_offset + (step - past)
        };
        proof {
            lemma_aligned_up(self.byte_offset as nat, step as nat);
        }
        (alignment, offset)
    }

    /// Takes the segment into the list and makes its padding.
    fn commit(
        &mut self,
        alignment: Alignment,
        offset: u64,
        length: u32,
        encryption: u16,
        buffers: Vec<ByteBuffer>,
    ) -> (r: WrittenSegment)
        requires
            old(self).specs().len() <= u32::MAX,
            old(self).offset() <= offset,
            offset - old(self).offset() <= usize::MAX,
            offset + length <= u64::MAX,
        ensures
            final(self).key() == old(self).key(),
            final(self).specs() == old(self).specs().push(
                SegmentSpec { offset, length, alignment, encryption },
            ),
            final(self).offset() == offset + length,
            r.segment_id == old(self).specs().len(),
            r.buffers == buffers,
            match r.padding {
                Some(zeros) => offset > old(self).offset() && zeros@ == Seq::new(
                    (offset - old(self).offset()) as nat,
                    |i: int| 0u8,
                ),
                None => offset == old(self).offset(),
            },
    {
        let segment_id: u32 = self.segment_specs.len() as u32;
        let padding: u64 = offset - self.byte_offset;
        self.segment_specs.push(SegmentSpec { offset, length, alignment, encryption });
        self.byte_offset = offset + length as u64;
        let padding = if padding > 0 {
            let zeros: Vec<u8> = vec![0u8; padding as usize];
            assert(zeros@ =~= Seq::new((offset - old(self).offset()) as nat, |i: int| 0u8));
            Some(zeros)
        } else {
            None
        };
        WrittenSegment { segment_id, padding, buffers }
    }

    /// Gives the segment made of `buffers` its place, its content stored as `sealed`.
    fn commit_encrypted(&mut self, alignment: Alignment, offset: u64, sealed: Vec<u8>) -> (r:
        Result<WrittenSegment, WriteError>)
        requires
            old(self).specs().len() <= u32::MAX,
            old(self).offset() <= offset,
            offset - old(self).offset() <= usize::MAX,
            sealed@.len() <= u32::MAX ==> offset + sealed@.len() <= u64::MAX,
        ensures
            r is Ok <==> sealed@.len() <= u32::MAX,
            r matches Err(e) ==> e == WriteError::LengthExceedsU32 && *final(self) == *old(self),
            r matches Ok(w) ==> {
                &&& final(self).key() == old(self).key()
                &&& final(self).specs() == old(self).specs().push(
                    SegmentSpec {
                        offset,
                        length: sealed@.len() as u32,
                        alignment,
                        encryption: AES_GCM_SPEC_INDEX,
                    },
                )
                &&& final(self).offset() == offset + sealed@.len()
                &&& w.segment_id == old(self).specs().len()
                &&& w.buffers@.len() == 1
                &&& content(w.buffers@) == sealed@
                &&& match w.padding {
                    Some(zeros) => offset > old(self).offset() && zeros@ == Seq::new(
                        (offset - old(self).offset()) as nat,
                        |i: int| 0u8,
                    ),
                    None => offset == old(self).offset(),
                }
            },
    {
        if sealed.len() as u128 > u32::MAX as u128 {
            return Err(WriteError::LengthExceedsU32);
        }
        let length: u32 = sealed.len() as u32;
        let mut buffers: Vec<ByteBuffer> = Vec::new();
        let ghost bytes = sealed@;
        buffers.push(ByteBuffer { bytes: sealed, alignment: Alignment::none() });
        assert(content(buffers@) =~= bytes) by {
            assert(buffers@.drop_last() =~= Seq::empty());
            assert(content(buffers@.drop_last()) =~= Seq::<u8>::empty());
        }
        Ok(self.commit(alignment, offset, length, AES_GCM_SPEC_INDEX, buffers))
    }

    /// Gives the segment made of `buffers` the next place in the file.
    ///
    /// With an encryption key a random nonce is sampled, and whether one can be had is up to the
    /// system; all else is fixed by the sink and the buffers.
    pub fn write(&mut self, buffers: Vec<ByteBuffer>) -> (r: Result<WrittenSegment, WriteError>)
        requires
            old(self).has_room(buffers@),
        ensures
            old(self).key() is None ==> (r is Ok <==> old(self).write_error(
                buffers@,
                true,
            ) is None),
            old(self).write_error(buffers@, true) matches Some(e) ==> r is Err,
            r matches Err(e) ==> {
                &&& *final(self) == *old(self)
                &&& old(self).write_error(buffers@, true) == Some(e) || old(self).write_error(
                    buffers@,
                    false,
                ) == Some(e)
            },
            r matches Ok(w) ==> old(self).wrote(buffers@, w, *final(self)),
            forall|start: nat|
                laid_out(old(self).specs(), start, old(self).offset() as nat) ==> laid_out(
                    final(self).specs(),
                    start,
                    final(self).offset() as nat,
                ),
    {
        let nonce = if self.encryption_key.is_some() {
            sample_nonce().ok()
        } else {
            None
        };
        self.write_with_nonce(buffers, nonce)
    }

    /// Gives the segment made of `buffers` the next place in the file, encrypted under the given
    /// nonce if the sink has a key. `None` stands for a nonce that could not be had.
    pub fn write_with_nonce(
        &mut self,
        buffers: Vec<ByteBuffer>,
        nonce: Option<[u8; NONCE_LEN]>,
    ) -> (r: Result<WrittenSegment, WriteError>)
        requires
            old(self).has_room(buffers@),
        ensures
            r is Ok <==> old(self).write_error(buffers@, nonce is Some) is None,
            r matches Err(e) ==> {
                &&& *final(self) == *old(self)
                &&& old(self).write_error(buffers@, nonce is Some) == Some(e)
            },
            old(self).specs().len() > u32::MAX ==> r is Err && r->Err_0
                == WriteError::TooManySegments,
            old(self).key() is None && old(self).specs().len() <= u32::MAX ==> (r is Ok <==> content(
                buffers@,
            ).len() <= u32::MAX),
            old(self).key() is None && r is Err && old(self).specs().len() <= u32::MAX ==> r->Err_0
                == WriteError::LengthExceedsU32,
            old(self).key() is Some && old(self).specs().len() <= u32::MAX ==> {
                &&& r is Ok <==> nonce is Some && content(buffers@).len() + 28 <= u32::MAX
                &&& content(buffers@).len() > u32::MAX ==> r->Err_0 == WriteError::Encryption(
                    EncryptionError::LengthExceedsU32,
                )
                &&& content(buffers@).len() <= u32::MAX && nonce is None ==> r->Err_0
                    == WriteError::Encryption(EncryptionError::NonceUnavailable)
                &&& content(buffers@).len() <= u32::MAX && nonce is Some && r is Err ==> r->Err_0
                    == WriteError::LengthExceedsU32
            },
            r matches Ok(w) ==> old(self).wrote(buffers@, w, *final(self)),
            r matches Ok(w) ==> (old(self).key() matches Some(key) ==> content(w.buffers@)
                == encrypted_segment(
                key,
                nonce->Some_0@,
                content(buffers@),
                final(self).specs().last().offset,
                w.segment_id,
            )),
            forall|start: nat|
                laid_out(old(self).specs(), start, old(self).offset() as nat) ==> laid_out(
                    final(self).specs(),
                    start,
                    final(self).offset() as nat,
                ),
    {
        if self.segment_specs.len() as u128 > u32::MAX as u128 {
            return Err(WriteError::TooManySegments);
        }
        let segment_id: u32 = self.segment_specs.len() as u32;
        let (alignment, offset) = self.place(&buffers);
        match &self.encryption_key {
            Some(key) => {
                let plain: Vec<u8> = concatenated(&buffers);
                if plain.len() as u128 > u32::MAX as u128 {
                    return Err(WriteError::Encryption(EncryptionError::LengthExceedsU32));
                }
                let nonce = match nonce {
                    Some(nonce) => nonce,
                    None => return Err(WriteError::Encryption(EncryptionError::NonceUnavailable)),
                };
                match encrypt_segment_with_nonce(
                    key,
                    &nonce,
                    plain.as_slice(),
                    offset,
                    segment_id,
                ) {
                    Ok(sealed) => {
                        let r = self.commit_encrypted(alignment, offset, sealed);
                        proof {
                            if r is Ok {
                                lemma_push_keeps_layout(*old(self), *self);
                            }
                        }
                        r
                    },
                    Err(e) => Err(WriteError::Encryption(e)),
                }
            },
            None => {
                let r = self.commit_plain(alignment, offset, buffers);
                proof {
                    if r is Ok {
                        lemma_push_keeps_layout(*old(self), *self);
                    }
                }
                r
            },
        }
    }

    /// Gives the segment made of `buffers` its place, stored as it is.
    fn commit_plain(&mut self, alignment: Alignment, offset: u64, buffers: Vec<ByteBuffer>) -> (r:
        Result<WrittenSegment, WriteError>)
        requires
            old(self).specs().len() <= u32::MAX,
            old(self).offset() <= offset,
            offset - old(self).offset() <= usize::MAX,
            content(buffers@).len() <= usize::MAX,
            content(buffers@).len() <= u32::MAX ==> offset + content(buffers@).len() <= u64::MAX,
        ensures
            r is Ok <==> content(buffers@).len() <= u32::MAX,
            r matches Err(e) ==> e == WriteError::LengthExceedsU32 && *final(self) == *old(self),
            r matches Ok(w) ==> {
                &&& final(self).key() == old(self).key()
                &&& final(self).specs() == old(self).specs().push(
                    SegmentSpec {
                        offset,
                        length: content(buffers@).len() as u32,
                        alignment,
                        encryption: 0,
                    },
                )
                &&& final(self).offset() == offset + content(buffers@).len()
                &&& w.segment_id == old(self).specs().len()
                &&& w.buffers@ == buffers@
                &&& match w.padding {
                    Some(zeros) => offset > old(self).offset() && zeros@ == Seq::new(
                        (offset - old(self).offset()) as nat,
                        |i: int| 0u8,
                    ),
                    None => offset == old(self).offset(),
                }
            },
    {
        let len: usize = total_len(&buffers);
        if len as u128 > u32::MAX as u128 {
            return Err(WriteError::LengthExceedsU32);
        }
        Ok(self.commit(alignment, offset, len as u32, 0, buffers))
    }
}

/// The content of the buffers as one vector.
fn concatenated(buffers: &Vec<ByteBuffer>) -> (r: Vec<u8>)
    requires
        content(buffers@).len() <= usize::MAX,
    ensures
        r@ == content(buffers@),
{
    let mut plain: Vec<u8> = Vec::new();
    for i in 0..buffers.len()
        invariant
            plain@ == content(buffers@.take(i as int)),
    {
        proof {
            assert(buffers@.take(i + 1).drop_last() =~= buffers@.take(i as int));
        }
        plain.extend_from_slice(buffers[i].bytes.as_slice());
        assert(plain@ =~= content(buffers@.take(i + 1)));
    }
    assert(buffers@.take(buffers@.len() as int) =~= buffers@);
    plain
}

/// The number of bytes in all buffers together, or nothing if it cannot be held.
fn checked_total_len(buffers: &Vec<ByteBuffer>) -> (r: Option<usize>)
    ensures
        r is Some <==> content(buffers@).len() <= usize::MAX,
        r matches Some(len) ==> len == content(buffers@).len(),
{
    let mut len: usize = 0;
    for i in 0..buffers.len()
        invariant
            len == content(buffers@.take(i as int)).len(),
    {
        proof {
            assert(buffers@.take(i + 1).drop_last() =~= buffers@.take(i as int));
            lemma_content_prefix(buffers@, i + 1);
        }
        len = match len.checked_add(buffers[i].bytes.len()) {
            Some(sum) => sum,
            None => return None,
        };
    }
    assert(buffers@.take(buffers@.len() as int) =~= buffers@);
    Some(len)
}

/// The number of bytes in all buffers together.
fn total_len(buffers: &Vec<ByteBuffer>) -> (r: usize)
    requires
        content(buffers@).len() <= usize::MAX,
    ensures
        r == content(buffers@).len(),
{
    let mut len: usize = 0;
    for i in 0..buffers.len()
        invariant
            len == content(buffers@.take(i as int)).len(),
            content(buffers@).len() <= usize::MAX,
    {
        proof {
            assert(buffers@.take(i + 1).drop_last() =~= buffers@.take(i as int));
            lemma_content_prefix(buffers@, i + 1);
        }
        len = len + buffers[i].bytes.len();
    }
    assert(buffers@.take(buffers@.len() as int) =~= buffers@);
    len
}

proof fn lemma_content_prefix(buffers: Seq<ByteBuffer>, n: int)
    requires
        0 <= n <= buffers.len(),
    ensures
        content(buffers.take(n)).len() <= content(buffers).len(),
    decreases buffers.len(),
{
    if n < buffers.len() {
        lemma_content_prefix(buffers.drop_last(), n);
        assert(buffers.drop_last().take(n) =~= buffers.take(n));
    } else {
        assert(buffers.take(n) =~= buffers);
    }
}

/// Aligning up gives the least multiple that is not below the offset.
pub proof fn lemma_aligned_up(offset: nat, alignment: nat)
    requires
        alignment > 0,
    ensures
        aligned_up(offset, alignment) % alignment == 0,
        offset <= aligned_up(offset, alignment) < offset + alignment,
{
    let a = alignment as int;
    let o = offset as int;
    vstd::arithmetic::div_mod::lemma_fundamental_div_mod(o, a);
    let q = o / a;
    if o % a != 0 {
        assert(o + (a - o % a) == a * q + a);
        assert(a * q + a == a * (q + 1)) by (nonlinear_arith);
        vstd::arithmetic::div_mod::lemma_mod_multiples_basic(q + 1, a);
        assert((q + 1) * a == a * (q + 1)) by (nonlinear_arith);
    }
}

proof fn lemma_push_keeps_layout(before: BufferedSegmentSink, after: BufferedSegmentSink)
    requires
        after.specs() == before.specs().push(after.specs().last()),
        after.specs().last().alignment@ > 0,
        after.specs().last().offset as nat % after.specs().last().alignment@ == 0,
        before.offset() <= after.specs().last().offset,
        after.offset() == after.specs().last().offset + after.specs().last().length,
    ensures
        after.specs().drop_last() == before.specs(),
        forall|start: nat|
            laid_out(before.specs(), start, before.offset() as nat) ==> laid_out(
                after.specs(),
                start,
                after.offset() as nat,
            ),
{
    assert(after.specs().drop_last() =~= before.specs());
    assert forall|start: nat| laid_out(before.specs(), start, before.offset() as nat) implies
        laid_out(after.specs(), start, after.offset() as nat) by {
        assert forall|i: int| 0 <= i < after.specs().len() - 1 implies #[trigger] after.specs()[i]
            == before.specs()[i] by {
            assert(after.specs().drop_last()[i] == before.specs()[i]);
        }
    }
}

/// A written segment reads back: in the file with the emitted bytes behind it, the segment's
/// place holds its stored bytes, and every earlier segment is unchanged. Without a key the
/// stored bytes are the content; with one they decrypt to it under the segment's own offset and
/// id.
pub proof fn law_written_segment_reads_back(
    image: Seq<u8>,
    start: nat,
    before: BufferedSegmentSink,
    buffers: Seq<ByteBuffer>,
    w: WrittenSegment,
    after: BufferedSegmentSink,
)
    requires
        image.len() == before.offset(),
        laid_out(before.specs(), start, before.offset() as nat),
        before.wrote(buffers, w, after),
    ensures
        (image + emitted(w)).len() == after.offset(),
        ({
            let spec = after.specs()[w.segment_id as int];
            let stored = stored_at(image + emitted(w), spec);
            &&& stored == content(w.buffers@)
            &&& spec.encrypted() <==> before.key() is Some
            &&& before.key() is None ==> stored == content(buffers)
            &&& before.key() matches Some(key) ==> decrypted_segment(
                key,
                stored,
                spec.offset,
                w.segment_id,
            ) == Some(content(buffers))
        }),
        forall|i: int|
            0 <= i < before.specs().len() ==> stored_at(
                image + emitted(w),
                #[trigger] after.specs()[i],
            ) == stored_at(image, before.specs()[i]),
{
    let spec = after.specs()[w.segment_id as int];
    let full = image + emitted(w);
    assert(after.specs().last() == spec);
    assert(full.len() == after.offset());
    assert(stored_at(full, spec) =~= content(w.buffers@));
    assert forall|i: int| 0 <= i < before.specs().len() implies stored_at(
        full,
        #[trigger] after.specs()[i],
    ) == stored_at(image, before.specs()[i]) by {
        assert(after.specs().drop_last()[i] == before.specs()[i]);
        let old_spec = before.specs()[i];
        assert(old_spec.offset + old_spec.length <= image.len());
        assert(stored_at(full, old_spec) =~= stored_at(image, old_spec));
    }
}

/// Aligning up gives the least multiple of the alignment that is not below the offset.
pub proof fn law_aligned_up_is_least(offset: nat, alignment: nat, k: nat)
    requires
        alignment > 0,
        offset <= alignment * k,
    ensures
        aligned_up(offset, alignment) <= alignment * k,
        aligned_up(offset, alignment) % alignment == 0,
        offset <= aligned_up(offset, alignment),
{
    lemma_aligned_up(offset, alignment);
    let up = aligned_up(offset, alignment) as int;
    let a = alignment as int;
    vstd::arithmetic::div_mod::lemma_fundamental_div_mod(up, a);
    let q = up / a;
    if up > a * k {
        assert(q >= k + 1) by (nonlinear_arith)
            requires
                a * q > a * k,
                a > 0,
        ;
        assert(a * q >= a * k + a) by (nonlinear_arith)
            requires
                q >= k + 1,
                a > 0,
        ;
    }
}

/// The content of buffers is their bytes, one after the other.
pub proof fn law_content_concatenates(a: Seq<ByteBuffer>, b: Seq<ByteBuffer>, c: ByteBuffer)
    ensures
        content(Seq::empty()) == Seq::<u8>::empty(),
        content(seq![c]) == c.bytes@,
        content(a + b) == content(a) + content(b),
    decreases b.len(),
{
    assert(seq![c].drop_last() =~= Seq::empty());
    assert(content(Seq::empty()) =~= Seq::<u8>::empty());
    assert(seq![c].last() == c);
    assert(content(seq![c]) =~= content(seq![c].drop_last()) + c.bytes@);
    assert(content(seq![c]) =~= c.bytes@);
    if b.len() > 0 {
        law_content_concatenates(a, b.drop_last(), c);
        assert((a + b).drop_last() =~= a + b.drop_last());
        assert((a + b).last() == b.last());
        assert(content(a + b) =~= content(a) + content(b));
    } else {
        assert(a + b =~= a);
        assert(content(a + b) =~= content(a) + content(b));
    }
}

/// A segment is written behind all that was written before: at the first position that the
/// alignment of its first buffer allows, with zeros in between. Its place has the length of what
/// is stored, which with a key is 28 bytes more than the content, and says by 1 that it is
/// encrypted and by 0 that it is not.
pub proof fn law_segment_takes_the_next_place(
    before: BufferedSegmentSink,
    buffers: Seq<ByteBuffer>,
    w: WrittenSegment,
    after: BufferedSegmentSink,
)
    requires
        before.wrote(buffers, w, after),
        buffers.len() > 0 ==> buffers[0].alignment@ > 0,
    ensures
        ({
            let spec = after.specs().last();
            let step = if buffers.len() == 0 {
                1
            } else {
                buffers[0].alignment@
            };
            &&& after.specs() == before.specs().push(spec)
            &&& w.segment_id == before.specs().len()
            &&& spec.offset as nat % step == 0
            &&& before.offset() <= spec.offset < before.offset() + step
            &&& spec.alignment@ == step
            &&& before.key() is Some ==> spec.length == content(buffers).len() + 28
                && spec.encryption == 1 && w.buffers@.len() == 1
            &&& before.key() is None ==> spec.length == content(buffers).len() && spec.encryption == 0
                && w.buffers@ == buffers
            &&& after.offset() == spec.offset + spec.length
            &&& after.key() == before.key()
            &&& w.padding is Some <==> spec.offset > before.offset()
            &&& w.padding matches Some(zeros) ==> zeros@.len() == spec.offset - before.offset()
                && forall|i: int| 0 <= i < zeros@.len() ==> zeros@[i] == 0
            &&& emitted(w).len() == after.offset() - before.offset()
        }),
{
    let step = first_alignment(buffers);
    lemma_aligned_up(before.offset() as nat, step);
    assert(after.specs() =~= before.specs().push(after.specs().last()));
}

/// Segments that are laid out lie between the start and the end, each at a multiple of its
/// alignment, and no two of them share a byte.
pub proof fn law_laid_out_segments_are_apart(
    specs: Seq<SegmentSpec>,
    start: nat,
    end: nat,
    i: int,
    j: int,
)
    requires
        laid_out(specs, start, end),
        0 <= i < specs.len(),
        0 <= j < specs.len(),
    ensures
        start <= specs[i].offset,
        specs[i].offset + specs[i].length <= end,
        specs[i].offset as nat % specs[i].alignment@ == 0,
        i < j ==> specs[i].offset + specs[i].length <= specs[j].offset,
        i != j ==> specs[i].offset + specs[i].length <= specs[j].offset || specs[j].offset
            + specs[j].length <= specs[i].offset,
{
}

} // verus!
