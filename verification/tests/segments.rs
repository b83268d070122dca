use vortex_core::encryption::decrypt_segment;
use vortex_core::encryption::EncryptionError;
use vortex_core::encryption::SegmentEncryptionKey;
use vortex_core::encryption::AES_GCM_SPEC_INDEX;
use vortex_core::footer::Alignment;
use vortex_core::footer::ByteBuffer;
use vortex_core::segments::decrypt::DecryptingSegmentSource;
use vortex_core::segments::decrypt::SegmentRequest;
use vortex_core::segments::writer::BufferedSegmentSink;
use vortex_core::segments::writer::WriteError;

fn buffer(bytes: &[u8], alignment: usize) -> ByteBuffer {
    ByteBuffer {
        bytes: bytes.to_vec(),
        alignment: Alignment::try_new(alignment).unwrap(),
    }
}

fn key() -> SegmentEncryptionKey {
    SegmentEncryptionKey::try_new(vec![5u8; 32]).unwrap()
}

#[test]
fn alignments_are_powers_of_two() {
    for value in 0usize..=64 {
        assert_eq!(Alignment::try_new(value).is_some(), value.is_power_of_two());
    }
    assert_eq!(Alignment::none().as_usize(), 1);
}

#[test]
fn plain_segments_are_padded_to_the_first_alignment() {
    let mut sink = BufferedSegmentSink::with_encryption(3, None);
    let w = sink.write(vec![buffer(b"abcd", 8), buffer(b"ef", 64)]).unwrap();
    assert_eq!(w.segment_id, 0);
    assert_eq!(w.padding, Some(vec![0u8; 5]));
    assert_eq!(w.buffers.len(), 2);
    assert_eq!(w.buffers[1].bytes, b"ef");
    assert_eq!(sink.byte_offset(), 14);

    let w = sink.write(vec![buffer(b"x", 2)]).unwrap();
    assert_eq!(w.segment_id, 1);
    assert_eq!(w.padding, None);
    assert_eq!(sink.byte_offset(), 15);

    let (specs, end) = sink.segment_specs();
    assert_eq!(end, 15);
    assert_eq!(specs.len(), 2);
    assert_eq!((specs[0].offset, specs[0].length, specs[0].encryption), (8, 6, 0));
    assert_eq!(specs[0].alignment.as_usize(), 8);
    assert_eq!((specs[1].offset, specs[1].length), (14, 1));
}

#[test]
fn segments_without_buffers_take_no_room() {
    let mut sink = BufferedSegmentSink::with_encryption(5, None);
    let w = sink.write(vec![]).unwrap();
    assert_eq!(w.padding, None);
    assert!(w.buffers.is_empty());
    let (specs, end) = sink.segment_specs();
    assert_eq!((specs[0].offset, specs[0].length, end), (5, 0, 5));
}

#[test]
fn positions_must_fit() {
    let small = || vec![buffer(b"abcd", 8)];
    let at = |offset, key| BufferedSegmentSink::with_encryption(offset, key);
    assert!(at(0, None).can_write(&small()));
    assert!(at(u64::MAX - 15, None).can_write(&small()));
    assert!(!at(u64::MAX - 6, None).can_write(&small()));
    assert!(at(u64::MAX - 7, None).can_write(&small()));
    assert!(!at(u64::MAX - 7, Some(key())).can_write(&small()));
    assert!(at(u64::MAX - 39, Some(key())).can_write(&small()));
    assert!(at(u64::MAX, None).can_write(&vec![]));
    assert!(!at(u64::MAX, None).can_write(&vec![buffer(b"a", 1)]));
}

#[test]
fn encrypted_segments_read_back_by_their_place() {
    let mut sink = BufferedSegmentSink::with_encryption(0, Some(key()));
    let mut image: Vec<u8> = Vec::new();
    for content in [b"first".as_slice(), b"".as_slice(), b"third segment".as_slice()] {
        let w = sink.write(vec![buffer(content, 16)]).unwrap();
        if let Some(padding) = w.padding {
            image.extend(padding);
        }
        assert_eq!(w.buffers.len(), 1);
        for b in w.buffers {
            image.extend(b.bytes);
        }
    }
    let (specs, end) = sink.segment_specs();
    assert_eq!(image.len() as u64, end);
    let source = DecryptingSegmentSource::new(specs.clone(), key());
    for (id, content) in [b"first".as_slice(), b"".as_slice(), b"third segment".as_slice()]
        .iter()
        .enumerate()
    {
        let spec = specs[id];
        assert_eq!(spec.encryption, AES_GCM_SPEC_INDEX);
        assert!(spec.is_encrypted());
        assert_eq!(spec.offset % 16, 0);
        assert_eq!(spec.length as usize, content.len() + 28);
        let stored = &image[spec.offset as usize..spec.offset as usize + spec.length as usize];
        let SegmentRequest::Decrypt(found) = source.request(id as u32) else {
            panic!("segment {id} is encrypted");
        };
        let plain = source.decrypt(id as u32, found, stored).unwrap();
        assert_eq!(plain.bytes, *content);
        assert_eq!(plain.alignment.as_usize(), 16);
        assert_eq!(decrypt_segment(&key(), stored, spec.offset, id as u32).unwrap(), *content);
    }
}

#[test]
fn requests_follow_the_segment_list() {
    let mut sink = BufferedSegmentSink::with_encryption(0, None);
    sink.write(vec![buffer(b"plain", 1)]).unwrap();
    let (specs, _) = sink.segment_specs();
    let spec = specs[0];
    let source = DecryptingSegmentSource::new(specs, key());
    assert!(matches!(source.request(0), SegmentRequest::PassThrough));
    assert!(matches!(source.request(1), SegmentRequest::Missing));
    assert_eq!(source.decrypt(0, spec, b"short").err(), Some(EncryptionError::TooShort));
}

#[test]
fn a_missing_nonce_changes_nothing() {
    let mut sink = BufferedSegmentSink::with_encryption(7, Some(key()));
    let r = sink.write_with_nonce(vec![buffer(b"abc", 4)], None);
    assert_eq!(
        r.err(),
        Some(WriteError::Encryption(EncryptionError::NonceUnavailable))
    );
    assert_eq!(sink.byte_offset(), 7);
    let w = sink.write_with_nonce(vec![buffer(b"abc", 4)], Some([9u8; 12])).unwrap();
    assert_eq!(w.padding, Some(vec![0u8; 1]));
    assert_eq!(w.buffers[0].bytes[..12], [9u8; 12]);
    let (specs, end) = sink.segment_specs();
    assert_eq!((specs.len(), specs[0].offset, end), (1, 8, 8 + 31));
}
