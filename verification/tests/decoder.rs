use trick_log::dataset::{decode_log, InputArgs, TrickData};
use trick_log::header::read_header;
use trick_log::types::{DecodeError, TypeTag};

fn push_u32(out: &mut Vec<u8>, x: u32) {
    out.extend_from_slice(&x.to_le_bytes());
}

fn push_descriptor(out: &mut Vec<u8>, name: &str, unit: &str, ident: u32, declared: u32) {
    push_u32(out, name.len() as u32);
    out.extend_from_slice(name.as_bytes());
    push_u32(out, unit.len() as u32);
    out.extend_from_slice(unit.as_bytes());
    push_u32(out, ident);
    push_u32(out, declared);
}

fn header_bytes(descs: &[(&str, &str, u32, u32)]) -> Vec<u8> {
    let mut out = Vec::new();
    out.extend_from_slice(b"Trick-10-L");
    push_u32(&mut out, descs.len() as u32);
    for (name, unit, ident, declared) in descs {
        push_descriptor(&mut out, name, unit, *ident, *declared);
    }
    out
}

fn cannon_header() -> Vec<u8> {
    header_bytes(&[
        ("sys.exec.out.time", "s", 11, 8),
        ("dyn.cannon.pos[0]", "m", 11, 8),
        ("dyn.cannon.pos[1]", "m", 11, 8),
    ])
}

fn push_f64_row(out: &mut Vec<u8>, row: &[f64]) {
    for v in row {
        out.extend_from_slice(&v.to_le_bytes());
    }
}

#[test]
fn test_read_descriptors() {
    let bytes = cannon_header();
    let (_tag, descriptors, _end) = read_header(&bytes).unwrap();

    assert_eq!(descriptors.len(), 3);

    assert_eq!(descriptors[0].namelen, 17);
    assert_eq!(descriptors[0].name, b"sys.exec.out.time".to_vec());
    assert_eq!(descriptors[0].unitlen, 1);
    assert_eq!(descriptors[0].unit, b"s".to_vec());
    assert_eq!(descriptors[0].var_type_ident, 11);

    assert_eq!(descriptors[1].namelen, 17);
    assert_eq!(descriptors[1].name, b"dyn.cannon.pos[0]".to_vec());
    assert_eq!(descriptors[1].unitlen, 1);
    assert_eq!(descriptors[1].unit, b"m".to_vec());
    assert_eq!(descriptors[1].var_type_ident, 11);

    assert_eq!(descriptors[2].namelen, 17);
    assert_eq!(descriptors[2].name, b"dyn.cannon.pos[1]".to_vec());
    assert_eq!(descriptors[2].unitlen, 1);
    assert_eq!(descriptors[2].unit, b"m".to_vec());
    assert_eq!(descriptors[2].var_type_ident, 11);
}

#[test]
fn test_header_cursor_lands_on_first_row() {
    // Each record is 16 fixed bytes plus name and unit; no over- or
    // under-read: the returned offset is the first row byte.
    let bytes = cannon_header();
    let (tag, descriptors, end) = read_header(&bytes).unwrap();
    assert_eq!(tag, b"Trick-10-L".to_vec());
    assert_eq!(descriptors.len(), 3);
    assert_eq!(end, 14 + 3 * (16 + 17 + 1));
    assert_eq!(end, bytes.len());
}

#[test]
fn test_cannon_scenario() {
    let mut bytes = cannon_header();
    push_f64_row(&mut bytes, &[0.0, 0.0, 0.0]);
    push_f64_row(&mut bytes, &[0.1, 1.2, 0.4]);

    let data = decode_log(&bytes).unwrap();
    assert_eq!(data.descriptors.len(), 3);
    assert_eq!(data.num_params, 3);
    assert_eq!(data.data.len(), 3);
    for col in &data.data {
        assert_eq!(col.data.len(), 2);
    }
    let col = |i: usize| -> Vec<f64> { data.data[i].data.iter().map(|b| f64::from_bits(*b)).collect() };
    assert_eq!(col(0), vec![0.0, 0.1]);
    assert_eq!(col(1), vec![0.0, 1.2]);
    assert_eq!(col(2), vec![0.0, 0.4]);
}

#[test]
fn test_round_trip_f64_bit_exact() {
    let rows = [
        [1.0, -2.5, 3.25e-10],
        [f64::MAX, f64::MIN_POSITIVE, -0.0],
        [0.1 + 0.2, 1e308, -1.0 / 3.0],
    ];
    let mut bytes = cannon_header();
    for row in &rows {
        push_f64_row(&mut bytes, row);
    }
    let data = decode_log(&bytes).unwrap();
    for (i, col) in data.data.iter().enumerate() {
        assert_eq!(col.data.len(), 3);
        for (j, sample) in col.data.iter().enumerate() {
            assert_eq!(*sample, rows[j][i].to_bits());
        }
    }
}

#[test]
fn test_f32_widening_lossless() {
    let values = [1.5f32, -0.1f32, 3.4e38f32, 1.0e-40f32, 0.0f32, -0.0f32, f32::INFINITY];
    let mut bytes = header_bytes(&[("f", "", 10, 4)]);
    for v in &values {
        bytes.extend_from_slice(&v.to_le_bytes());
    }
    let data = decode_log(&bytes).unwrap();
    assert_eq!(data.data[0].data.len(), values.len());
    for (j, v) in values.iter().enumerate() {
        assert_eq!(data.data[0].data[j], (*v as f64).to_bits(), "value {}", v);
    }
}

#[test]
fn test_f32_nan_widens_to_f64_nan() {
    let mut bytes = header_bytes(&[("f", "", 10, 4)]);
    bytes.extend_from_slice(&0x7fc00000u32.to_le_bytes());
    let data = decode_log(&bytes).unwrap();
    assert_eq!(data.data[0].data[0], 0x7ff8000000000000u64);
}

#[test]
fn test_int8_uint8_bool_widening() {
    let mut bytes = header_bytes(&[("c", "", 1, 1), ("u", "", 2, 1), ("b", "", 17, 1)]);
    bytes.extend_from_slice(&[0xFF, 0xFF, 0x02]);
    bytes.extend_from_slice(&[0x80, 0x7F, 0x00]);
    let data = decode_log(&bytes).unwrap();
    let col = |i: usize, j: usize| f64::from_bits(data.data[i].data[j]);
    assert_eq!(col(0, 0), -1.0);
    assert_eq!(col(1, 0), 255.0);
    assert_eq!(col(2, 0), 1.0);
    assert_eq!(col(0, 1), -128.0);
    assert_eq!(col(1, 1), 127.0);
    assert_eq!(col(2, 1), 0.0);
}

#[test]
fn test_declared_width_is_informational() {
    // The declared byte width (here a deliberately wrong 4) never steers row
    // decoding: a 64-bit float field still consumes 8 bytes.
    let mut bytes = header_bytes(&[("t", "s", 11, 4)]);
    push_f64_row(&mut bytes, &[42.5]);
    push_f64_row(&mut bytes, &[-42.5]);
    let data = decode_log(&bytes).unwrap();
    assert_eq!(data.descriptors[0].size_of_type, 4);
    assert_eq!(data.data[0].data.len(), 2);
    assert_eq!(f64::from_bits(data.data[0].data[0]), 42.5);
    assert_eq!(f64::from_bits(data.data[0].data[1]), -42.5);
}

#[test]
fn test_clean_end_of_stream_row_count() {
    let mut bytes = cannon_header();
    let row_size = 24;
    let n_rows = 5;
    for j in 0..n_rows {
        push_f64_row(&mut bytes, &[j as f64, 0.0, 0.0]);
    }
    let total_row_bytes = n_rows * row_size;
    assert_eq!(bytes.len() - 116, total_row_bytes);
    let data = decode_log(&bytes).unwrap();
    for col in &data.data {
        assert_eq!(col.data.len(), total_row_bytes / row_size);
    }
}

#[test]
fn test_truncated_mid_row() {
    let mut bytes = cannon_header();
    push_f64_row(&mut bytes, &[1.0, 2.0, 3.0]);
    bytes.extend_from_slice(&[0u8; 6]);
    let err = decode_log(&bytes).unwrap_err();
    // One full 24-byte row decodes; the second row's first field starts at
    // 116 + 24 and needs 8 bytes while 6 remain.
    assert_eq!(err, DecodeError::TruncatedRow { offset: 140 });
}

#[test]
fn test_unknown_type_decodes_no_rows() {
    let mut bytes = header_bytes(&[("x", "", 3, 4)]);
    bytes.extend_from_slice(&[0u8; 32]);
    let err = decode_log(&bytes).unwrap_err();
    // The identifier field of the sole descriptor starts at 14 + 4 + 1 + 4.
    assert_eq!(err, DecodeError::UnknownType { offset: 23 });

    let mut bytes16 = header_bytes(&[("x", "", 16, 4)]);
    bytes16.extend_from_slice(&[0u8; 32]);
    assert_eq!(decode_log(&bytes16).unwrap_err(), DecodeError::UnknownType { offset: 23 });
}

#[test]
fn test_unsupported_type_in_row() {
    let mut bytes = header_bytes(&[("a", "", 6, 4)]);
    bytes.extend_from_slice(&[0u8; 4]);
    let err = decode_log(&bytes).unwrap_err();
    // Rows start at 14 + 16 + 1 = 31; the 32-bit integer tag is recognized
    // in the header but deliberately not row-decodable.
    assert_eq!(err, DecodeError::UnsupportedType { offset: 31 });
}

#[test]
fn test_truncated_header_variants() {
    assert_eq!(decode_log(&[]).unwrap_err(), DecodeError::TruncatedHeader { offset: 0 });
    assert_eq!(
        decode_log(b"Trick-10-L").unwrap_err(),
        DecodeError::TruncatedHeader { offset: 10 }
    );

    let mut bytes = Vec::new();
    bytes.extend_from_slice(b"Trick-10-L");
    push_u32(&mut bytes, 1);
    assert_eq!(decode_log(&bytes).unwrap_err(), DecodeError::TruncatedHeader { offset: 14 });

    let mut bytes2 = Vec::new();
    bytes2.extend_from_slice(b"Trick-10-L");
    push_u32(&mut bytes2, 1);
    push_u32(&mut bytes2, 5);
    bytes2.extend_from_slice(b"ab");
    assert_eq!(decode_log(&bytes2).unwrap_err(), DecodeError::TruncatedHeader { offset: 18 });
}

#[test]
fn test_invalid_text_in_name() {
    let mut bytes = Vec::new();
    bytes.extend_from_slice(b"Trick-10-L");
    push_u32(&mut bytes, 1);
    push_u32(&mut bytes, 1);
    bytes.push(0xFF);
    push_u32(&mut bytes, 0);
    push_u32(&mut bytes, 11);
    push_u32(&mut bytes, 8);
    assert_eq!(decode_log(&bytes).unwrap_err(), DecodeError::InvalidText { offset: 18 });
}

#[test]
fn test_zero_descriptors() {
    let mut bytes = Vec::new();
    bytes.extend_from_slice(b"Trick-10-L");
    push_u32(&mut bytes, 0);
    let data = decode_log(&bytes).unwrap();
    assert_eq!(data.descriptors.len(), 0);
    assert_eq!(data.data.len(), 0);

    // Trailing bytes that no descriptor can ever consume are a malformed
    // row region, not silently ignored.
    bytes.push(0);
    assert_eq!(decode_log(&bytes).unwrap_err(), DecodeError::TruncatedRow { offset: 14 });
}

#[test]
fn test_read_keeps_dataset_on_error() {
    let mut good = cannon_header();
    push_f64_row(&mut good, &[7.0, 8.0, 9.0]);
    let mut data = TrickData::new(InputArgs { name: "log_cannon".to_string(), path: "logs".to_string() });
    data.read(&good).unwrap();
    assert_eq!(data.data[0].data.len(), 1);

    let err = data.read(b"shrt").unwrap_err();
    assert_eq!(err, DecodeError::TruncatedHeader { offset: 0 });
    // The previously decoded dataset is untouched: no partial dataset.
    assert_eq!(data.descriptors.len(), 3);
    assert_eq!(f64::from_bits(data.data[2].data[0]), 9.0);
    assert_eq!(data.log_file.full_path, b"logs/log_cannon.trk".to_vec());
}

#[test]
fn test_new_builds_file_names() {
    let data = TrickData::new(InputArgs { name: "run7".to_string(), path: "/tmp/sim".to_string() });
    assert_eq!(data.log_file.header_file_name, b"run7.header".to_vec());
    assert_eq!(data.log_file.log_file_name, b"run7.trk".to_vec());
    assert_eq!(data.log_file.full_path, b"/tmp/sim/run7.trk".to_vec());
    assert_eq!(data.num_params, 0);
    assert_eq!(data.descriptors.len(), 0);
}

#[test]
fn test_find_index() {
    let mut bytes = cannon_header();
    push_f64_row(&mut bytes, &[0.0, 0.0, 0.0]);
    let data = decode_log(&bytes).unwrap();
    assert_eq!(data.find_index(b"sys.exec.out.time"), Some(0));
    assert_eq!(data.find_index(b"dyn.cannon.pos[1]"), Some(2));
    assert_eq!(data.find_index(b"dyn.cannon.vel[0]"), None);
}

#[test]
fn test_error_offset_accessor() {
    let e = DecodeError::UnsupportedType { offset: 77 };
    assert_eq!(e.offset(), 77);
}

#[test]
fn test_name_cut_at_nul() {
    // A name span longer than its text, NUL-terminated inside: the stored
    // name is the prefix before the NUL, while namelen keeps the span size.
    let mut bytes = Vec::new();
    bytes.extend_from_slice(b"Trick-10-L");
    push_u32(&mut bytes, 1);
    push_u32(&mut bytes, 6);
    bytes.extend_from_slice(b"abc\0xy");
    push_u32(&mut bytes, 0);
    push_u32(&mut bytes, 11);
    push_u32(&mut bytes, 8);
    let (_t, ds, _e) = read_header(&bytes).unwrap();
    assert_eq!(ds[0].namelen, 6);
    assert_eq!(ds[0].name, b"abc".to_vec());
    assert_eq!(ds[0].var_type, TypeTag::Float64);
}
