use deviltool::error::DDError;
use deviltool::parser::{
    has_magic, header_section_bound, magic, mainheader, parse_toc, read_header, subheader,
    table_length, toc_bytes_wanted, write_header_section,
};
use deviltool::types::{DDFiletype, DDMainHeader, DDSubFileHeader};

const MAGIC: [u8; 8] = [0x3A, 0x68, 0x78, 0x3A, 0x72, 0x67, 0x3A, 0x01];

fn entry(file_type: DDFiletype, name: &str, offset: u32, size: u32, timestamp: u32) -> DDSubFileHeader {
    DDSubFileHeader { file_type, filename: String::from(name), offset, size, timestamp }
}

fn sample_entries() -> Vec<DDSubFileHeader> {
    vec![
        entry(DDFiletype::WavAudio, "andras", 0x2F, 10, 0x5710_0000),
        entry(DDFiletype::Unknown(0x1234), "d\u{e9}mon", 0x39, 0, 0),
    ]
}

fn sample_bytes() -> Vec<u8> {
    let mut b = Vec::new();
    b.extend_from_slice(&MAGIC);
    b.extend_from_slice(&[0x2C, 0, 0, 0]);
    b.extend_from_slice(&[0x20, 0x00]);
    b.extend_from_slice(b"andras\0");
    b.extend_from_slice(&[0x2F, 0, 0, 0, 10, 0, 0, 0, 0, 0, 0x10, 0x57]);
    b.extend_from_slice(&[0x34, 0x12]);
    b.extend_from_slice(b"d\xC3\xA9mon\0");
    b.extend_from_slice(&[0x39, 0, 0, 0, 0, 0, 0, 0, 0, 0, 0, 0]);
    b.extend_from_slice(&[0, 0]);
    b
}

#[test]
fn signature_is_hx_rg() {
    assert_eq!(magic(), b":hx:rg:\x01".to_vec());
    assert!(has_magic(b":hx:rg:\x01rest"));
    assert!(!has_magic(b":hx:rg:\x02rest"));
    assert!(!has_magic(b":hx:rg:"));
}

#[test]
fn main_header_is_read() {
    let mut b = MAGIC.to_vec();
    b.extend_from_slice(&[0x10, 0x20, 0x30, 0x40, 0xFF]);
    assert_eq!(
        mainheader(&b),
        Ok(DDMainHeader { magic_number: MAGIC.to_vec(), header_length: 0x40302010 })
    );
}

#[test]
fn main_header_with_wrong_signature_is_refused() {
    let mut b = MAGIC.to_vec();
    b[7] = 0x02;
    b.extend_from_slice(&[2, 0, 0, 0, 0, 0]);
    assert_eq!(mainheader(&b), Err(DDError::MalformedMagic));
    assert_eq!(header_section_bound(&b), Err(DDError::MalformedMagic));
    assert_eq!(mainheader(b"MinPHR01\0\0\0\0"), Err(DDError::MalformedMagic));
    assert_eq!(mainheader(b"12345678"), Err(DDError::MalformedMagic));
}

#[test]
fn short_main_header_is_incomplete() {
    assert_eq!(mainheader(&[]), Err(DDError::IncompleteInput));
    assert_eq!(mainheader(&MAGIC[..7]), Err(DDError::IncompleteInput));
    let mut b = MAGIC.to_vec();
    b.extend_from_slice(&[2, 0, 0]);
    assert_eq!(mainheader(&b), Err(DDError::IncompleteInput));
}

#[test]
fn record_is_read_at_a_position() {
    let b = sample_bytes();
    let (first, used) = subheader(&b, 12).unwrap();
    assert_eq!(first, sample_entries()[0]);
    assert_eq!(used, 21);
    let (second, used) = subheader(&b, 33).unwrap();
    assert_eq!(second, sample_entries()[1]);
    assert_eq!(used, 21);
}

#[test]
fn cut_record_is_not_read() {
    let b = sample_bytes();
    assert_eq!(subheader(&b[..32], 12), None);
    assert_eq!(subheader(&b[..20], 12), None);
    assert_eq!(subheader(&b[..13], 12), None);
    assert_eq!(subheader(&b[..12], 12), None);
    assert_eq!(subheader(b"\x20\x00name-without-end", 0), None);
    assert_eq!(subheader(&b, b.len() + 1), None);
}

#[test]
fn filename_that_is_not_utf8_is_repaired() {
    let mut b = vec![0x20, 0x00, 0x61, 0xFF, 0x00];
    b.extend_from_slice(&[1, 0, 0, 0, 2, 0, 0, 0, 3, 0, 0, 0]);
    let (e, used) = subheader(&b, 0).unwrap();
    assert_eq!(e, entry(DDFiletype::WavAudio, "a\u{FFFD}", 1, 2, 3));
    assert_eq!(used, 17);
}

#[test]
fn table_of_contents_is_read() {
    let b = sample_bytes();
    assert_eq!(parse_toc(&b[12..]), Ok(sample_entries()));
}

#[test]
fn empty_table_of_contents() {
    assert_eq!(parse_toc(&[0, 0]), Ok(vec![]));
    let mut out = Vec::new();
    assert_eq!(write_header_section(&vec![], &mut out), Ok(()));
    let mut expected = MAGIC.to_vec();
    expected.extend_from_slice(&[2, 0, 0, 0, 0, 0]);
    assert_eq!(out, expected);
    assert_eq!(
        header_section_bound(&out),
        Ok((DDMainHeader { magic_number: MAGIC.to_vec(), header_length: 2 }, vec![]))
    );
}

#[test]
fn bytes_behind_the_terminator_are_not_looked_at() {
    let mut window = sample_bytes()[12..].to_vec();
    window.extend_from_slice(&[0x20, 0xFF, 0xFF]);
    assert_eq!(parse_toc(&window), Ok(sample_entries()));
}

#[test]
fn table_without_terminator_is_truncated() {
    let b = sample_bytes();
    let end = b.len();
    assert_eq!(parse_toc(&b[12..end - 2]), Err(DDError::TruncatedRecord));
    assert_eq!(parse_toc(&b[12..end - 1]), Err(DDError::TruncatedRecord));
    assert_eq!(parse_toc(&b[12..30]), Err(DDError::TruncatedRecord));
    assert_eq!(parse_toc(&[]), Err(DDError::TruncatedRecord));
    assert_eq!(parse_toc(&[0]), Err(DDError::TruncatedRecord));
}

#[test]
fn header_section_is_read() {
    let mut b = sample_bytes();
    b.extend_from_slice(b"payload bytes");
    let (main, entries) = header_section_bound(&b).unwrap();
    assert_eq!(main, DDMainHeader { magic_number: MAGIC.to_vec(), header_length: 0x2C });
    assert_eq!(entries, sample_entries());
}

#[test]
fn header_section_shorter_than_declared_is_incomplete() {
    let b = sample_bytes();
    assert_eq!(header_section_bound(&b[..b.len() - 1]), Err(DDError::IncompleteInput));
    assert_eq!(header_section_bound(&b[..12]), Err(DDError::IncompleteInput));
}

#[test]
fn table_that_ends_inside_its_window_is_truncated() {
    let mut b = sample_bytes();
    b[8] = 0x2A;
    assert_eq!(header_section_bound(&b), Err(DDError::TruncatedRecord));
}

#[test]
fn header_section_is_written() {
    let mut out = vec![0xEE];
    assert_eq!(write_header_section(&sample_entries(), &mut out), Ok(()));
    assert_eq!(out[0], 0xEE);
    assert_eq!(out[1..].to_vec(), sample_bytes());
}

#[test]
fn record_is_written() {
    let mut out = Vec::new();
    sample_entries()[0].write(&mut out);
    assert_eq!(out, sample_bytes()[12..33].to_vec());
    assert_eq!(sample_entries()[0].record_len(), Some(21));
    assert_eq!(sample_entries()[1].record_len(), Some(21));
}

#[test]
fn main_header_is_written() {
    let mut out = Vec::new();
    DDMainHeader::new(0x0102_0304).write(&mut out);
    let mut expected = MAGIC.to_vec();
    expected.extend_from_slice(&[4, 3, 2, 1]);
    assert_eq!(out, expected);
}

#[test]
fn declared_length_is_two_plus_the_records() {
    assert_eq!(table_length(&vec![]), Ok(2));
    assert_eq!(table_length(&sample_entries()), Ok(2 + (2 + 6 + 1 + 12) + (2 + 6 + 1 + 12)));
}

#[test]
fn written_table_reads_back() {
    let tables = vec![
        vec![],
        sample_entries(),
        vec![
            entry(DDFiletype::FolderMarker, "", 0, 0, 0),
            entry(DDFiletype::GLSL, "boid", 100, 2000, 1),
            entry(DDFiletype::Texture2, "dagger lvl 2", u32::MAX, u32::MAX, u32::MAX),
            entry(DDFiletype::Unknown(0xFFFF), "\u{1F5E1}", 7, 8, 9),
            entry(DDFiletype::ShaderText, "post_lut", 1, 2, 3),
            entry(DDFiletype::Texture1, "x", 0, 0, 0),
        ],
    ];
    for table in tables {
        let mut out = Vec::new();
        assert_eq!(write_header_section(&table, &mut out), Ok(()));
        let (main, entries) = header_section_bound(&out).unwrap();
        assert_eq!(main.header_length as usize, out.len() - 12);
        assert_eq!(Ok(main.header_length), table_length(&table));
        assert_eq!(entries, table);
        assert_eq!(parse_toc(&out[12..]), Ok(table));
    }
}

#[test]
fn entry_with_code_zero_reads_as_the_end_of_the_table() {
    let table = vec![
        entry(DDFiletype::WavAudio, "a", 1, 2, 3),
        entry(DDFiletype::Unknown(0), "b", 4, 5, 6),
        entry(DDFiletype::WavAudio, "c", 7, 8, 9),
    ];
    let mut out = Vec::new();
    assert_eq!(write_header_section(&table, &mut out), Ok(()));
    let (_, entries) = header_section_bound(&out).unwrap();
    assert_eq!(entries, vec![entry(DDFiletype::WavAudio, "a", 1, 2, 3)]);
}

#[test]
fn two_reads_give_the_header() {
    let b = sample_bytes();
    assert_eq!(toc_bytes_wanted(&b[..12]), Ok(0x2C));
    let (main, entries) = read_header(&b[..12], &b[12..]).unwrap();
    assert_eq!(main.header_length, 0x2C);
    assert_eq!(entries, sample_entries());
}

#[test]
fn two_reads_of_the_wrong_length_are_incomplete() {
    let b = sample_bytes();
    assert_eq!(toc_bytes_wanted(&b[..11]), Err(DDError::IncompleteInput));
    assert_eq!(toc_bytes_wanted(&b[..13]), Err(DDError::IncompleteInput));
    assert_eq!(read_header(&b[..11], &b[11..]), Err(DDError::IncompleteInput));
    assert_eq!(read_header(&b[..12], &b[12..b.len() - 1]), Err(DDError::IncompleteInput));
    let mut longer = b[12..].to_vec();
    longer.push(0);
    assert_eq!(read_header(&b[..12], &longer), Err(DDError::IncompleteInput));
}

#[test]
fn two_reads_refuse_a_wrong_signature() {
    let mut b = sample_bytes();
    b[0] = 0x3B;
    assert_eq!(toc_bytes_wanted(&b[..12]), Err(DDError::MalformedMagic));
    assert_eq!(read_header(&b[..12], &b[12..]), Err(DDError::MalformedMagic));
}
