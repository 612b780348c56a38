use bgzf_engine::block::{decode_block, encode_block, eof_marker_bytes, is_eof_block};
use bgzf_engine::error::Error;
use bgzf_engine::pipeline::Pipeline;
use bgzf_engine::pool::BufferPool;
use bgzf_engine::stream::{decode_all, BlockReader};
use bgzf_engine::vpos::VirtualPosition;
use bgzf_engine::writer::{BlockWriter, Writer};

#[test]
fn test_block_round_trip() {
    let payloads: Vec<Vec<u8>> = vec![
        b"x".to_vec(),
        b"hello block world".to_vec(),
        vec![7u8; 65280],
        (0..=255u8).cycle().take(4000).collect(),
    ];
    for p in payloads {
        let enc = encode_block(&p).unwrap();
        let (dec, consumed) = decode_block(&enc, 0).unwrap();
        assert_eq!(dec, p);
        assert_eq!(consumed, enc.len());
    }
}

#[test]
fn test_block_checksum_enforcement() {
    // Flipping any bit of the compressed payload never yields a silent
    // wrong result: decoding fails with a data error, or (where the
    // flipped stream happens to be another encoding of the same bytes)
    // still yields exactly the original payload.
    let p = b"the quick brown fox jumps over the lazy dog".to_vec();
    let enc = encode_block(&p).unwrap();
    let payload_start = 18;
    let payload_end = enc.len() - 8;
    let mut failures = 0usize;
    for i in payload_start..payload_end {
        for bit in 0..8 {
            let mut bad = enc.clone();
            bad[i] ^= 1 << bit;
            match decode_block(&bad, 0) {
                Err(_) => failures += 1,
                Ok((d, _)) => assert_eq!(d, p, "flip at byte {i} bit {bit} gave wrong data"),
            }
        }
    }
    // Nearly every flip is caught outright.
    assert!(failures >= (payload_end - payload_start) * 8 - 8);
}

#[test]
fn test_trailer_corruption() {
    let p = b"payload".to_vec();
    let enc = encode_block(&p).unwrap();
    let n = enc.len();
    let mut bad_crc = enc.clone();
    bad_crc[n - 8] ^= 0xff;
    assert_eq!(decode_block(&bad_crc, 0), Err(Error::ChecksumMismatch));
    let mut bad_len = enc.clone();
    bad_len[n - 4] ^= 0xff;
    assert_eq!(decode_block(&bad_len, 0), Err(Error::SizeMismatch));
    let mut bad_magic = enc.clone();
    bad_magic[0] = 0x00;
    assert_eq!(decode_block(&bad_magic, 0), Err(Error::BadMagic));
    // An extra field without the size subfield is rejected.
    let mut bad_extra = enc.clone();
    bad_extra[12] = 0x41;
    assert_eq!(decode_block(&bad_extra, 0), Err(Error::MissingBlockSize));
    // A declared size smaller than the fixed layout is rejected.
    let mut bad_size = enc;
    bad_size[16] = 10;
    bad_size[17] = 0;
    assert_eq!(decode_block(&bad_size, 0), Err(Error::InvalidBlockSize));
}

#[test]
fn test_virtual_position_pack_unpack() {
    let v = VirtualPosition::pack(0x1234_5678_9abc, 0xdef0).unwrap();
    assert_eq!(v.value(), 0x1234_5678_9abc_def0);
    assert_eq!(v.unpack(), (0x1234_5678_9abc, 0xdef0));
    assert_eq!(v.compressed_offset(), 0x1234_5678_9abc);
    assert_eq!(v.in_block_offset(), 0xdef0);
    assert!(VirtualPosition::pack(1 << 48, 0).is_err());

    // Ordering follows the compressed offset first.
    let a = VirtualPosition::pack(1, 0xffff).unwrap();
    let b = VirtualPosition::pack(2, 0).unwrap();
    assert!(a < b);

    let bytes = v.to_le_bytes();
    assert_eq!(bytes, 0x1234_5678_9abc_def0u64.to_le_bytes().to_vec());
    assert_eq!(VirtualPosition::from_le_bytes(&bytes, 0), v);
}

#[test]
fn test_stream_round_trip_and_terminator() {
    let mut w = BlockWriter::new();
    w.write(&b"first ".to_vec()).unwrap();
    w.write(&b"second".to_vec()).unwrap();
    w.finish().unwrap();
    let bytes = w.into_bytes();

    // The stream ends with the reserved terminator block.
    assert!(bytes.len() >= 28);
    assert!(is_eof_block(&bytes, bytes.len() - 28));
    assert_eq!(bytes[bytes.len() - 28..].to_vec(), eof_marker_bytes());

    // Strict and lenient decoding both yield every written byte.
    for strict in [false, true] {
        let blocks = decode_all(&bytes, strict).unwrap();
        let flat: Vec<u8> = blocks.concat();
        assert_eq!(flat, b"first second".to_vec());
    }
}

#[test]
fn test_missing_terminator_modes() {
    let mut w = BlockWriter::new();
    w.write(&b"data".to_vec()).unwrap();
    w.flush().unwrap();
    let bytes = w.as_bytes().clone();

    let blocks = decode_all(&bytes, false).unwrap();
    assert_eq!(blocks, vec![b"data".to_vec()]);
    assert_eq!(decode_all(&bytes, true), Err(Error::MissingEofMarker));
}

#[test]
fn test_multi_block_stream() {
    let payload: Vec<u8> = (0..150_000u32).map(|i| (i % 251) as u8).collect();
    let mut w = BlockWriter::new();
    w.write(&payload).unwrap();
    w.finish().unwrap();
    let bytes = w.into_bytes();

    let blocks = decode_all(&bytes, true).unwrap();
    assert!(blocks.len() >= 3);
    assert_eq!(blocks.concat(), payload);
}

#[test]
fn test_reader_fill_take_and_seek() {
    let mut w = BlockWriter::new();
    let a: Vec<u8> = vec![1u8; 65280];
    let b: Vec<u8> = b"tail block".to_vec();
    w.write(&a).unwrap();
    w.write(&b).unwrap();
    w.finish().unwrap();
    let bytes = w.into_bytes();

    let mut r = BlockReader::new(bytes.clone(), true);
    assert!(r.fill().unwrap());
    let first = r.take(4);
    assert_eq!(first, vec![1u8, 1, 1, 1]);
    let vp = r.virtual_position();
    assert_eq!(vp.unpack(), (0, 4));

    // Drain the first block, then the second block follows in order.
    let first_len = 65280 - 4;
    let rest = r.take(first_len);
    assert_eq!(rest.len(), first_len);
    assert!(r.fill().unwrap());
    let second_start = r.virtual_position().compressed_offset();
    let got = r.take(b.len());
    assert_eq!(got, b);
    assert!(!r.fill().unwrap());

    // Seeking to the second block's start replays it.
    let target = VirtualPosition::pack(second_start, 5).unwrap();
    let mut r2 = BlockReader::new(bytes, true);
    r2.seek(target).unwrap();
    assert_eq!(r2.take(5), b"block".to_vec());

    // A seek past the block's decompressed end is rejected.
    let bad = VirtualPosition::pack(second_start, 400).unwrap();
    assert_eq!(r2.seek(bad), Err(Error::SeekOutOfRange));
}

#[test]
fn test_record_writer_framing() {
    let mut w = Writer::new();
    w.write_record(&b"abc".to_vec()).unwrap();
    w.write_record(&b"defg".to_vec()).unwrap();
    w.get_mut().finish().unwrap();
    let bytes = w.into_inner().into_bytes();
    let blocks = decode_all(&bytes, true).unwrap();
    let flat = blocks.concat();
    let mut expected = vec![3, 0, 0, 0];
    expected.extend_from_slice(b"abc");
    expected.extend_from_slice(&[4, 0, 0, 0]);
    expected.extend_from_slice(b"defg");
    assert_eq!(flat, expected);
}

#[test]
fn test_pool_backpressure_bound() {
    let mut pool = BufferPool::with_capacity(2);
    let b1 = pool.try_acquire().unwrap();
    let b2 = pool.try_acquire().unwrap();
    // The pool is exhausted: no third buffer exists to hand out.
    assert!(pool.try_acquire().is_none());
    pool.release(b1);
    assert!(pool.try_acquire().is_some());
    pool.release(b2);
}

#[test]
fn test_pipeline_order_preservation() {
    // Workers complete in reverse order; the consumer still observes
    // stream order.
    let mut p = Pipeline::start(3);
    let i0 = p.produce();
    let i1 = p.produce();
    let i2 = p.produce();
    assert_eq!((i0, i1, i2), (0, 1, 2));
    p.complete(2);
    p.complete(0);
    p.complete(1);
    assert_eq!(p.deliver(), 0);
    assert_eq!(p.deliver(), 1);
    assert_eq!(p.deliver(), 2);
}

#[test]
fn test_pipeline_shutdown_after_partial_consumption() {
    let mut p = Pipeline::start(2);
    p.produce();
    p.produce();
    p.complete(0);
    assert_eq!(p.deliver(), 0);
    p.shutdown();
}
