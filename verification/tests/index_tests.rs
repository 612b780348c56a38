use bgzf_engine::error::Error;
use bgzf_engine::format_def::{definition, FileFormat, Number, Type};
use bgzf_engine::index::{
    build_index, covered_exec, merge_chunks, query_records, reg2bin, reg2bins, resolve_region,
    Chunk, RecordMeta,
};
use bgzf_engine::readers::ExternalDataReaders;
use bgzf_engine::site::{
    write_chrom, write_filter, write_site, Filters, SiteInfoField, SiteRecord, SiteValue,
    StringMap,
};
use bgzf_engine::vpos::VirtualPosition;

fn chunk(start: u64, end: u64) -> Chunk {
    Chunk {
        start: VirtualPosition::from_value(start),
        end: VirtualPosition::from_value(end),
    }
}

#[test]
fn test_reg2bin_levels() {
    // One 16 KiB window maps to the leaf level.
    assert_eq!(reg2bin(0, 1), 4681);
    assert_eq!(reg2bin(0x4000, 0x4001), 4682);
    // An interval spanning two leaf windows climbs one level.
    assert_eq!(reg2bin(0x3fff, 0x4001), 585);
    // The whole reference maps to bin zero.
    assert_eq!(reg2bin(0, 0x2000_0000), 0);
}

#[test]
fn test_reg2bins_contains_overlapping_bin() {
    let bins = reg2bins(100, 200);
    assert!(bins.contains(&0));
    assert!(bins.contains(&1));
    assert!(bins.contains(&4681));
    assert!(!bins.contains(&4682));
}

#[test]
fn test_chunk_merge() {
    let input = vec![
        chunk(40, 50),
        chunk(10, 20),
        chunk(15, 25),
        chunk(25, 30),
    ];
    let merged = merge_chunks(&input);
    assert_eq!(merged, vec![chunk(10, 30), chunk(40, 50)]);
    assert!(covered_exec(&merged, 27));
    assert!(!covered_exec(&merged, 35));
}

#[test]
fn test_query_matches_naive_scan() {
    let records = vec![
        RecordMeta { start: 100, end: 200, vstart: 10, vend: 20 },
        RecordMeta { start: 150, end: 300, vstart: 20, vend: 30 },
        RecordMeta { start: 400, end: 500, vstart: 30, vend: 40 },
        RecordMeta { start: 0x10_0000, end: 0x10_0100, vstart: 40, vend: 50 },
    ];
    let index = build_index(&records);

    for (beg, end) in [(120u32, 160u32), (0, 0x2000_0000), (350, 360), (450, 451)] {
        let selected = query_records(&index, &records, beg, end);
        let naive: Vec<usize> = (0..records.len())
            .filter(|&i| records[i].start < end && beg < records[i].end)
            .collect();
        assert_eq!(selected, naive, "query [{beg}, {end})");
    }

    // The resolved chunks cover every selected record's position.
    let chunks = resolve_region(&index, 120, 160);
    assert!(covered_exec(&chunks, 10));
    assert!(covered_exec(&chunks, 20));
}

#[test]
fn test_external_data_readers() {
    let mut readers: ExternalDataReaders<Vec<u8>> = ExternalDataReaders::new();
    readers.insert(3, b"low".to_vec());
    readers.insert(100, b"high".to_vec());
    assert_eq!(readers.get_mut(&3).map(|r| r.clone()), Some(b"low".to_vec()));
    assert_eq!(readers.get_mut(&100).map(|r| r.clone()), Some(b"high".to_vec()));
    assert!(readers.get_mut(&4).is_none());
    assert!(readers.get_mut(&-5).is_none());
    if let Some(r) = readers.get_mut(&3) {
        r.push(b'!');
    }
    assert_eq!(readers.get_mut(&3).map(|r| r.clone()), Some(b"low!".to_vec()));
}

#[test]
fn test_format_definition() {
    let v43 = FileFormat::new(4, 3);
    let v44 = FileFormat::new(4, 4);
    assert_eq!(definition(v43, "GT"), Some((Number::Count(1), Type::Text, "Genotype")));
    assert_eq!(definition(v43, "DP"), Some((Number::Count(1), Type::Integer, "Read depth")));
    assert_eq!(definition(v43, "LAA"), None);
    assert!(definition(v44, "LAA").is_some());
    assert_eq!(definition(FileFormat::new(4, 2), "GT"), None);
}

#[test]
fn test_write_site() {
    let mut contigs = StringMap::new();
    contigs.insert("sq0".to_string());
    contigs.insert("sq1".to_string());
    let mut string_map = StringMap::new();
    string_map.insert("PASS".to_string());
    string_map.insert("NS".to_string());
    string_map.insert("q10".to_string());

    let record = SiteRecord {
        chromosome: "sq1".to_string(),
        position: 8,
        quality_bits: None,
        ids: vec!["rs1".to_string()],
        reference_bases: "A".to_string(),
        alternate_bases: vec!["T".to_string()],
        filters: Filters::Fail(vec!["q10".to_string()]),
        info: vec![SiteInfoField { key: "NS".to_string(), value: SiteValue::Integer(2) }],
    };

    let mut dst = Vec::new();
    write_site(&mut dst, &contigs, &string_map, 1, 0, &record).unwrap();

    let mut expected: Vec<u8> = Vec::new();
    expected.extend_from_slice(&1i32.to_le_bytes()); // chrom = contig index 1
    expected.extend_from_slice(&7i32.to_le_bytes()); // pos, zero-based
    expected.extend_from_slice(&1i32.to_le_bytes()); // rlen
    expected.extend_from_slice(&0x7F80_0001u32.to_le_bytes()); // missing qual
    expected.extend_from_slice(&1u16.to_le_bytes()); // n_info
    expected.extend_from_slice(&2u16.to_le_bytes()); // n_allele
    expected.extend_from_slice(&1u32.to_le_bytes()); // n_fmt_sample
    expected.extend_from_slice(&[0x37, b'r', b's', b'1']); // id
    expected.extend_from_slice(&[0x17, b'A']); // ref
    expected.extend_from_slice(&[0x17, b'T']); // alt
    expected.extend_from_slice(&[0x11, 2]); // filter indices [q10]
    expected.extend_from_slice(&[0x11, 1]); // info key index (NS)
    expected.extend_from_slice(&[0x13]); // int32 value
    expected.extend_from_slice(&2i32.to_le_bytes());
    assert_eq!(dst, expected);

    // A chromosome missing from the contigs is rejected.
    let mut dst2 = Vec::new();
    assert_eq!(
        write_chrom(&mut dst2, &contigs, &"nope".to_string()),
        Err(Error::InvalidInput)
    );

    // Pass filters encode as the one-element index array [0].
    let mut dst3 = Vec::new();
    write_filter(&mut dst3, &string_map, &Filters::Pass).unwrap();
    assert_eq!(dst3, vec![0x11, 0]);
    let mut dst4 = Vec::new();
    write_filter(&mut dst4, &string_map, &Filters::Missing).unwrap();
    assert_eq!(dst4, vec![0x00]);
}
