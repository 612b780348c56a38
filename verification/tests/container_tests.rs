use bgzf_engine::container::{
    read_block, read_header, Block, CompressionMethod, ContainerHeader, ContentType, Position,
    ReferenceSequenceContext,
};

#[test]
fn test_read_block() {
    let data = vec![
        0x00, // compression method = none (0)
        0x04, // content type = external data (4)
        0x01, // block content ID = 1
        0x04, // size in bytes = 4 bytes
        0x04, // raw size in bytes = 4 bytes
        0x6e, 0x64, 0x6c, 0x73, // data = b"ndls",
        0xfd, 0x38, 0x27, 0xb5, // CRC32
    ];
    let (actual, consumed) = read_block(&data, 0).unwrap();

    let expected = Block::builder()
        .set_compression_method(CompressionMethod::Uncompressed)
        .set_content_type(ContentType::ExternalData)
        .set_content_id(1)
        .set_uncompressed_len(4)
        .set_data(b"ndls".to_vec())
        .set_crc32(0xb52738fd)
        .build();

    assert_eq!(actual, expected);
    assert_eq!(consumed, data.len());
}

#[test]
fn test_read_header() {
    let data = vec![
        0x90, 0x00, 0x00, 0x00, // length = 144 bytes
        0x02, // reference sequence ID = 2
        0x03, // starting position on the reference = 3
        0x05, // alignment span = 5
        0x08, // number of records = 8
        0x0d, // record counter = 13
        0x15, // bases = 21
        0x22, // number of blocks = 34
        0x02, // landmark count = 2
        0x37, // landmarks[0] = 55
        0x59, // landmarks[1] = 89
        0xb4, 0x9f, 0x9c, 0xda, // CRC32
    ];

    let actual = read_header(&data, 0).unwrap();

    let expected = ContainerHeader::builder()
        .set_length(144)
        .set_reference_sequence_context(ReferenceSequenceContext::some(
            2,
            Position::new(3).unwrap(),
            Position::new(7).unwrap(),
        ))
        .set_record_count(8)
        .set_record_counter(13)
        .set_base_count(21)
        .set_block_count(34)
        .set_landmarks(vec![55, 89])
        .build();

    assert_eq!(actual, Some((expected, data.len())));
}

#[test]
fn test_read_header_eof_container() {
    // The reserved end-of-stream container reads as a clean end.
    let data = vec![
        0x0f, 0x00, 0x00, 0x00, // length = 15
        0xff, 0xff, 0xff, 0xff, 0x0f, // reference sequence ID = -1
        0xe0, 0x45, 0x4f, 0x46, // alignment start = 4542278
        0x00, // alignment span = 0
        0x00, // number of records = 0
        0x00, // record counter = 0
        0x00, // bases = 0
        0x01, // number of blocks = 1
        0x00, // landmark count = 0
        0x05, 0xbd, 0xd9, 0x4f, // CRC32
    ];
    assert_eq!(read_header(&data, 0), Ok(None));
}

#[test]
fn test_read_block_checksum_mismatch() {
    let data = vec![
        0x00, 0x04, 0x01, 0x04, 0x04, // header fields
        0x6e, 0x64, 0x6c, 0x73, // data = b"ndls"
        0xfd, 0x38, 0x27, 0xb4, // wrong CRC32
    ];
    assert_eq!(
        read_block(&data, 0),
        Err(bgzf_engine::error::Error::ChecksumMismatch)
    );
}

#[test]
fn test_read_block_truncated() {
    let data = vec![0x00, 0x04, 0x01, 0x04, 0x04, 0x6e];
    assert_eq!(read_block(&data, 0), Err(bgzf_engine::error::Error::UnexpectedEof));
}

#[test]
fn test_read_block_bad_method() {
    let data = vec![0x09, 0x04, 0x01, 0x00, 0x00];
    assert_eq!(read_block(&data, 0), Err(bgzf_engine::error::Error::InvalidData));
}
