use deviltool::error::DDError;
use deviltool::glsl::{glsl_file, glsl_file_header, GlslPair};

fn sample_pair() -> GlslPair {
    GlslPair {
        name: String::from("boid"),
        vertex_source: String::from("void main() {}\n"),
        fragment_source: String::from("// fr\u{e4}g\n"),
    }
}

fn sample_blob() -> Vec<u8> {
    let mut b = vec![4, 0, 0, 0, 15, 0, 0, 0, 9, 0, 0, 0];
    b.extend_from_slice(b"boid");
    b.extend_from_slice(b"void main() {}\n");
    b.extend_from_slice(b"// fr\xC3\xA4g\n");
    b
}

#[test]
fn blob_is_read() {
    assert_eq!(glsl_file(&sample_blob()), Ok((sample_pair(), 40)));
}

#[test]
fn blob_is_written() {
    let mut out = vec![1, 2];
    assert_eq!(sample_pair().write(&mut out), Ok(()));
    assert_eq!(out[..2].to_vec(), vec![1, 2]);
    assert_eq!(out[2..].to_vec(), sample_blob());
}

#[test]
fn written_blob_reads_back() {
    let pairs = vec![
        sample_pair(),
        GlslPair { name: String::new(), vertex_source: String::new(), fragment_source: String::new() },
        GlslPair {
            name: String::from("\u{1F5E1}"),
            vertex_source: String::from("a\0b"),
            fragment_source: String::from("x").repeat(1000),
        },
    ];
    for pair in pairs {
        let mut out = Vec::new();
        assert_eq!(pair.write(&mut out), Ok(()));
        let used = out.len();
        assert_eq!(glsl_file(&out), Ok((pair.clone(), used)));
        out.extend_from_slice(b"trailing");
        assert_eq!(glsl_file(&out), Ok((pair, used)));
    }
}

#[test]
fn read_blob_writes_back_to_the_same_bytes() {
    let (pair, used) = glsl_file(&sample_blob()).unwrap();
    let mut out = Vec::new();
    pair.write(&mut out).unwrap();
    assert_eq!(out, sample_blob()[..used].to_vec());
}

#[test]
fn cut_blob_is_truncated() {
    let b = sample_blob();
    for end in 0..b.len() {
        assert_eq!(glsl_file(&b[..end]), Err(DDError::TruncatedRecord));
    }
}

#[test]
fn text_that_is_not_utf8_is_refused() {
    let mut b = sample_blob();
    b[12] = 0xFF;
    assert_eq!(glsl_file(&b), Err(DDError::InvalidText));
    assert_eq!(glsl_file_header(&b), Err(DDError::InvalidText));
    let mut b = sample_blob();
    b[20] = 0xFF;
    assert_eq!(glsl_file(&b), Err(DDError::InvalidText));
    let mut b = sample_blob();
    let last = b.len() - 1;
    b[last] = 0xC3;
    assert_eq!(glsl_file(&b), Err(DDError::InvalidText));
}

#[test]
fn the_first_fault_decides_the_error() {
    let mut b = sample_blob();
    b[12] = 0xFF;
    assert_eq!(glsl_file(&b[..20]), Err(DDError::InvalidText));
    let mut b = sample_blob();
    b[20] = 0xFF;
    assert_eq!(glsl_file(&b[..39]), Err(DDError::InvalidText));
    assert_eq!(glsl_file(&b[..30]), Err(DDError::TruncatedRecord));
}

#[test]
fn blob_header_is_read_without_the_sources() {
    let b = sample_blob();
    assert_eq!(glsl_file_header(&b), Ok((String::from("boid"), 15, 9)));
    assert_eq!(glsl_file_header(&b[..16]), Ok((String::from("boid"), 15, 9)));
    assert_eq!(glsl_file_header(&b[..15]), Err(DDError::TruncatedRecord));
    assert_eq!(glsl_file_header(&b[..11]), Err(DDError::TruncatedRecord));
}
