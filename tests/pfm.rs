use pxm::{decode, encode, flip_vertical, parse_header, parse_token, read_until_space, signed_scale};
use pxm::{Endian, PFMBuilder, PfmError, PfmHeader, PFM};

fn bits(v: &[f32]) -> Vec<u32> {
    v.iter().map(|x| x.to_bits()).collect()
}

fn scale_bits(token: &[u8]) -> Option<u32> {
    std::str::from_utf8(token).ok()?.parse::<f32>().ok().map(f32::to_bits)
}

fn scale_text(pfm: &PFM) -> Vec<u8> {
    format!("{}", f32::from_bits(signed_scale(pfm))).into_bytes()
}

fn decode_all(buffer: &[u8]) -> Result<PFM, PfmError> {
    let (header, token, rest) = parse_header(buffer)?;
    decode(header, scale_bits(token), rest)
}

fn encode_all(pfm: &PFM) -> Result<Vec<u8>, PfmError> {
    encode(pfm, &scale_text(pfm))
}

#[test]
fn test_read_until_space() {
    let buffer = " token1   token2 token3".as_bytes();

    let (s, buffer) = read_until_space(buffer).unwrap();
    assert_eq!(s, "token1".as_bytes());
    assert_eq!(buffer, "   token2 token3".as_bytes());

    let (s, buffer) = read_until_space(buffer).unwrap();
    assert_eq!(s, "token2".as_bytes());
    assert_eq!(buffer, " token3".as_bytes());

    let (s, buffer) = read_until_space(buffer).unwrap();
    assert_eq!(s, "token3".as_bytes());
    assert_eq!(buffer, "".as_bytes());
}

#[test]
fn test_read_from() {
    let buffer = vec![
        0x50, 0x46, 0x0A, // PF
        0x31, 0x20, 0x33, 0x0A, // 1 2
        0x2D, 0x31, 0x2E, 0x30, 0x30, 0x30, 0x30, 0x30, 0x30, 0x0A, // -1.000000
        0x00, 0x00, 0x80, 0x3f, 0x00, 0x00, 0x80, 0x3f, 0x00, 0x00, 0x80,
        0x3f, // 1.0 1.0 1.0
        0x00, 0x00, 0x00, 0x3f, 0x00, 0x00, 0x00, 0x3f, 0x00, 0x00, 0x00,
        0x3f, // 0.5 0.5 0.5
        0x00, 0x00, 0x00, 0x3f, 0x00, 0x00, 0x00, 0x3f, 0x00, 0x00, 0x00,
        0x3f, // 0.5 0.5 0.5
    ];

    let pfm = decode_all(&buffer).unwrap();

    assert_eq!(pfm.color, true);
    assert_eq!(pfm.endian, Endian::Little);
    assert_eq!(f32::from_bits(pfm.scale_factor), 1.0);
    assert_eq!(pfm.height, 3);
    assert_eq!(pfm.width, 1);
    assert_eq!(pfm.data, bits(&[0.5, 0.5, 0.5, 0.5, 0.5, 0.5, 1.0, 1.0, 1.0]))
}

#[test]
fn test_write_into() {
    let pfm = PFMBuilder::new()
        .color(true)
        .scale((-1.0f32).to_bits())
        .size(1, 3)
        .data(bits(&[0.5, 0.5, 0.5, 0.5, 0.5, 0.5, 1.0, 1.0, 1.0]))
        .build()
        .unwrap();

    let buffer_gt = vec![
        0x50, 0x46, 0x0A, // PF
        0x31, 0x20, 0x33, 0x0A, // 1 2
        0x2D, 0x31, 0x0A, // -1
        0x00, 0x00, 0x80, 0x3f, 0x00, 0x00, 0x80, 0x3f, 0x00, 0x00, 0x80,
        0x3f, // 1.0 1.0 1.0
        0x00, 0x00, 0x00, 0x3f, 0x00, 0x00, 0x00, 0x3f, 0x00, 0x00, 0x00,
        0x3f, // 0.5 0.5 0.5
        0x00, 0x00, 0x00, 0x3f, 0x00, 0x00, 0x00, 0x3f, 0x00, 0x00, 0x00,
        0x3f, // 0.5 0.5 0.5
    ];

    let buffer = encode_all(&pfm).unwrap();

    assert_eq!(buffer, buffer_gt);
}

#[test]
fn decodes_two_rows_little_endian() {
    let mut buffer = b"PF\n1 2\n-1.0\n".to_vec();
    for v in [1.0f32, 1.0, 1.0, 0.5, 0.5, 0.5] {
        buffer.extend_from_slice(&v.to_le_bytes());
    }
    let pfm = decode_all(&buffer).unwrap();
    assert_eq!(pfm.width, 1);
    assert_eq!(pfm.height, 2);
    assert!(pfm.color);
    assert_eq!(pfm.endian, Endian::Little);
    assert_eq!(pfm.scale_factor, 1.0f32.to_bits());
    assert_eq!(pfm.data, bits(&[0.5, 0.5, 0.5, 1.0, 1.0, 1.0]));
}

#[test]
fn decodes_big_endian_monochrome() {
    let mut buffer = b"Pf\n2 1\n2.5\n".to_vec();
    for v in [0.25f32, -3.0] {
        buffer.extend_from_slice(&v.to_be_bytes());
    }
    let pfm = decode_all(&buffer).unwrap();
    assert!(!pfm.color);
    assert_eq!(pfm.endian, Endian::Big);
    assert_eq!(pfm.scale_factor, 2.5f32.to_bits());
    assert_eq!(pfm.data, bits(&[0.25, -3.0]));
}

#[test]
fn scale_sign_selects_byte_order() {
    let big = PFMBuilder::new().scale(1.0f32.to_bits()).size(1, 1).data(vec![0; 3]).build().unwrap();
    assert_eq!(big.endian, Endian::Big);
    assert_eq!(big.scale_factor, 1.0f32.to_bits());
    let little = PFMBuilder::new().scale((-1.0f32).to_bits()).size(1, 1).data(vec![0; 3]).build().unwrap();
    assert_eq!(little.endian, Endian::Little);
    assert_eq!(little.scale_factor, 1.0f32.to_bits());

    let header = PfmHeader { color: true, width: 1, height: 1 };
    let mut rest = vec![b'\n'];
    rest.extend_from_slice(&[0u8; 12]);
    let p = decode(header, scale_bits(b"1.0"), &rest).unwrap();
    assert_eq!(p.endian, Endian::Big);
    let q = decode(header, scale_bits(b"-1.0"), &rest).unwrap();
    assert_eq!(q.endian, Endian::Little);
    assert_eq!(f32::from_bits(q.scale_factor), 1.0);
    let r = decode(header, scale_bits(b"-2.5"), &rest).unwrap();
    assert_eq!(f32::from_bits(r.scale_factor), 2.5);
}

#[test]
fn nan_scale_keeps_defaults() {
    let b = PFMBuilder::new().scale(f32::NAN.to_bits()).size(1, 1).data(vec![0; 3]).build().unwrap();
    assert_eq!(b.endian, Endian::Little);
    assert_eq!(b.scale_factor, 1.0f32.to_bits());
}

#[test]
fn round_trip_keeps_image() {
    let images = [
        PFMBuilder::new().color(true).scale(1.0f32.to_bits()).size(2, 3)
            .data(bits(&[0.0, 1.0, 2.0, 3.0, 4.0, 5.0, 6.0, 7.0, 8.0, 9.0, 10.0, 11.0,
                12.0, 13.0, 14.0, 15.0, 16.0, 17.0])).build().unwrap(),
        PFMBuilder::new().color(false).scale((-0.125f32).to_bits()).size(3, 2)
            .data(bits(&[-1.5, 2.25, 1e-7, 3e8, f32::INFINITY, -0.0])).build().unwrap(),
        PFMBuilder::new().color(false).scale(f32::INFINITY.to_bits()).size(1, 1)
            .data(bits(&[42.0])).build().unwrap(),
    ];
    for pfm in images {
        let bytes = encode_all(&pfm).unwrap();
        assert_eq!(decode_all(&bytes).unwrap(), pfm);
    }
}

#[test]
fn encodes_reversed_rows_exactly() {
    let pfm = PFMBuilder::new().color(true).scale((-1.0f32).to_bits()).size(1, 3)
        .data(bits(&[0.5, 0.5, 0.5, 0.5, 0.5, 0.5, 1.0, 1.0, 1.0])).build().unwrap();
    let mut expected = b"PF\n1 3\n-1\n".to_vec();
    for v in [1.0f32, 1.0, 1.0, 0.5, 0.5, 0.5, 0.5, 0.5, 0.5] {
        expected.extend_from_slice(&v.to_le_bytes());
    }
    assert_eq!(encode_all(&pfm).unwrap(), expected);
}

#[test]
fn encodes_big_endian_monochrome_header() {
    let pfm = PFMBuilder::new().color(false).scale(2.0f32.to_bits()).size(12, 1)
        .data(vec![0x3f80_0000; 12]).build().unwrap();
    let bytes = encode_all(&pfm).unwrap();
    let mut expected = b"Pf\n12 1\n2\n".to_vec();
    for _ in 0..12 {
        expected.extend_from_slice(&[0x3f, 0x80, 0x00, 0x00]);
    }
    assert_eq!(bytes, expected);
}

#[test]
fn encode_refuses_bad_images() {
    let mut pfm = PFMBuilder::new().size(1, 1).data(vec![0; 3]).build().unwrap();
    pfm.width = 0;
    assert_eq!(encode(&pfm, b"1"), Err(PfmError::InvalidDimension));
    pfm.width = 1;
    pfm.scale_factor = 0;
    assert_eq!(encode(&pfm, b"1"), Err(PfmError::InvalidScale));
    pfm.scale_factor = 1.0f32.to_bits();
    pfm.data.push(0);
    assert_eq!(encode(&pfm, b"1"), Err(PfmError::DataLengthMismatch));
}

#[test]
fn flip_is_self_inverse() {
    let data: Vec<u32> = (0..12).collect();
    let once = flip_vertical(&data, 3, 4);
    assert_eq!(once, vec![8, 9, 10, 11, 4, 5, 6, 7, 0, 1, 2, 3]);
    assert_eq!(flip_vertical(&once, 3, 4), data);
    let even: Vec<u32> = (0..4).collect();
    assert_eq!(flip_vertical(&even, 2, 2), vec![2, 3, 0, 1]);
}

#[test]
fn payload_of_wrong_size_is_refused() {
    let header = PfmHeader { color: true, width: 2, height: 1 };
    let one = Some(1.0f32.to_bits());
    for n in [0usize, 1, 4, 23, 25, 47, 48] {
        let rest = vec![b'\n'; n + 1];
        assert_eq!(decode(header, one, &rest), Err(PfmError::PayloadSizeMismatch));
    }
    let rest = vec![b'\n'; 25];
    assert!(decode(header, one, &rest).is_ok());
}

#[test]
fn builder_checks_data_length() {
    let b = PFMBuilder::new().color(true).size(2, 2).data(vec![0; 11]).build();
    assert_eq!(b, Err(PfmError::DataLengthMismatch));
    let c = PFMBuilder::new().color(false).size(2, 2).data(vec![0; 12]).build();
    assert_eq!(c, Err(PfmError::DataLengthMismatch));
    let d = PFMBuilder::new().color(false).size(2, 2).data(vec![0; 4]).build().unwrap();
    assert_eq!(d.data.len(), d.width * d.height);
}

#[test]
fn header_errors() {
    assert_eq!(decode_all(b""), Err(PfmError::UnexpectedEof));
    assert_eq!(decode_all(b"  \n "), Err(PfmError::UnexpectedEof));
    assert_eq!(decode_all(b"PX\n1 1\n1\n"), Err(PfmError::InvalidMagic));
    assert_eq!(decode_all(b"P\n1 1\n1\n"), Err(PfmError::InvalidMagic));
    assert_eq!(decode_all(b"QF\n1 1\n1\n"), Err(PfmError::InvalidMagic));
    assert_eq!(decode_all(b"PF\n0 1\n1\n"), Err(PfmError::InvalidDimension));
    assert_eq!(decode_all(b"PF\n1 x\n1\n"), Err(PfmError::InvalidDimension));
    assert_eq!(decode_all(b"PF\n-1 1\n1\n"), Err(PfmError::InvalidDimension));
    assert_eq!(decode_all(b"PF\n99999999999999999999999 1\n1\n"), Err(PfmError::InvalidDimension));
    assert_eq!(decode_all(b"PF\n1 1\n"), Err(PfmError::UnexpectedEof));
    assert_eq!(decode_all(b"PF\n1 1\n0.0\n"), Err(PfmError::InvalidScale));
    assert_eq!(decode_all(b"PF\n1 1\nabc\n"), Err(PfmError::InvalidScale));
    assert_eq!(decode_all(b"PF\n1 1\nabc"), Err(PfmError::InvalidScale));
    assert_eq!(decode_all(b"PF\n1 1\n1"), Err(PfmError::UnexpectedEof));
    assert_eq!(decode_all(b"PF\n1 1\n1\n\0\0"), Err(PfmError::PayloadSizeMismatch));
}

#[test]
fn header_parse_fields() {
    let (h, tok, rest) = parse_header(b" Pf\t+7  0012\r-3.5 xyz").unwrap();
    assert_eq!(h, PfmHeader { color: false, width: 7, height: 12 });
    assert_eq!(tok, b"-3.5");
    assert_eq!(rest, b" xyz");
}

#[test]
fn parse_token_reads_unsigned_decimals() {
    let e = PfmError::InvalidDimension;
    assert_eq!(parse_token(b"0", e), Ok(0));
    assert_eq!(parse_token(b"+42", e), Ok(42));
    assert_eq!(parse_token(b"007", e), Ok(7));
    assert_eq!(parse_token(b"18446744073709551615", e), Ok(usize::MAX));
    assert_eq!(parse_token(b"18446744073709551616", e), Err(e));
    assert_eq!(parse_token(b"", e), Err(e));
    assert_eq!(parse_token(b"+", e), Err(e));
    assert_eq!(parse_token(b"-1", e), Err(e));
    assert_eq!(parse_token(b"1a", e), Err(PfmError::InvalidDimension));
    assert_eq!(parse_token(b"x", PfmError::InvalidScale), Err(PfmError::InvalidScale));
}
