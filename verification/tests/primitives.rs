use trick_log::primitives::{
    bool_from_bytes, f32_bits_from_bytes, f32_widened_from_bytes, f64_bits_from_bytes,
    i16_from_bytes, i32_from_bytes, i8_from_bytes, i8_widened_from_bytes, u32_from_bytes,
    u64_from_bytes, u8_from_bytes, u8_widened_from_bytes,
};
use trick_log::text::c_string;
use trick_log::types::{intrinsic_width, is_supported, lookup_ident, TrickVarDefs, TypeTag};

#[test]
fn test_u32_from_bytes_little_endian() {
    assert_eq!(u32_from_bytes(&[0x01, 0x02, 0x03, 0x04]), Some(0x04030201));
    assert_eq!(u32_from_bytes(&[0x01, 0x02, 0x03, 0x04, 0xAA]), Some(0x04030201));
    assert_eq!(u32_from_bytes(&[0x01, 0x02, 0x03]), None);
}

#[test]
fn test_u64_from_bytes_little_endian() {
    assert_eq!(
        u64_from_bytes(&[1, 2, 3, 4, 5, 6, 7, 8]),
        Some(0x0807060504030201)
    );
    assert_eq!(u64_from_bytes(&[1, 2, 3, 4, 5, 6, 7]), None);
}

#[test]
fn test_signed_decoders() {
    assert_eq!(i8_from_bytes(&[0xFF]), Some(-1));
    assert_eq!(i8_from_bytes(&[0x80]), Some(-128));
    assert_eq!(i8_from_bytes(&[0x7F]), Some(127));
    assert_eq!(i8_from_bytes(&[]), None);
    assert_eq!(i16_from_bytes(&[0xFE, 0xFF]), Some(-2));
    assert_eq!(i16_from_bytes(&[0x34, 0x12]), Some(0x1234));
    assert_eq!(i16_from_bytes(&[0x34]), None);
    assert_eq!(i32_from_bytes(&[0xFF, 0xFF, 0xFF, 0xFF]), Some(-1));
    assert_eq!(i32_from_bytes(&[0x78, 0x56, 0x34, 0x12]), Some(0x12345678));
}

#[test]
fn test_unsigned_and_bool_decoders() {
    assert_eq!(u8_from_bytes(&[0xFE]), Some(0xFE));
    assert_eq!(u8_from_bytes(&[]), None);
    assert_eq!(bool_from_bytes(&[0]), Some(false));
    assert_eq!(bool_from_bytes(&[1]), Some(true));
    assert_eq!(bool_from_bytes(&[42]), Some(true));
    assert_eq!(bool_from_bytes(&[]), None);
}

#[test]
fn test_float_bit_decoders() {
    let x = 1234.5678f64;
    assert_eq!(f64_bits_from_bytes(&x.to_le_bytes()), Some(x.to_bits()));
    assert_eq!(f64_bits_from_bytes(&[0; 7]), None);

    let y = -0.25f32;
    assert_eq!(f32_bits_from_bytes(&y.to_le_bytes()), Some(y.to_bits()));
    assert_eq!(f32_widened_from_bytes(&y.to_le_bytes()), Some((-0.25f64).to_bits()));

    let sub = 1.0e-42f32;
    assert_eq!(f32_widened_from_bytes(&sub.to_le_bytes()), Some((sub as f64).to_bits()));
}

#[test]
fn test_integer_widening_to_f64_bits() {
    assert_eq!(i8_widened_from_bytes(&[0xFF]), Some((-1.0f64).to_bits()));
    assert_eq!(i8_widened_from_bytes(&[0x00]), Some(0.0f64.to_bits()));
    assert_eq!(u8_widened_from_bytes(&[0xC8]), Some(200.0f64.to_bits()));
}

#[test]
fn test_c_string() {
    assert_eq!(c_string(b"abc\0def"), Some(b"abc".to_vec()));
    assert_eq!(c_string(b"abc"), Some(b"abc".to_vec()));
    assert_eq!(c_string(b""), Some(Vec::new()));
    assert_eq!(c_string(&[0]), Some(Vec::new()));
    assert_eq!(c_string("h\u{e9}llo".as_bytes()), Some("h\u{e9}llo".as_bytes().to_vec()));
    assert_eq!(c_string(&[0xFF, 0x41]), None);
    assert_eq!(c_string(&[0xC3]), None);
    assert_eq!(c_string(&[0x41, 0xC3, 0x00]), None);
}

#[test]
fn test_registry() {
    let defs = TrickVarDefs::default();
    assert_eq!(defs.lookup(1), Some(TypeTag::Int8));
    assert_eq!(defs.lookup(11), Some(TypeTag::Float64));
    assert_eq!(defs.lookup(10), Some(TypeTag::Float32));
    assert_eq!(defs.lookup(17), Some(TypeTag::Bool));
    assert_eq!(defs.lookup(14), Some(TypeTag::Int64));
    assert_eq!(defs.lookup(15), Some(TypeTag::UInt64));
    assert_eq!(defs.lookup(3), None);
    assert_eq!(defs.lookup(16), None);
    assert_eq!(defs.lookup(0), None);
    assert_eq!(defs.lookup(18), None);
    assert_eq!(lookup_ident(12), Some(TypeTag::BitField));
    assert_eq!(defs.c_type_name(11), Some("double"));
    assert_eq!(defs.c_type_name(2), Some("unsigned char"));
    assert_eq!(defs.c_type_name(3), None);
}

#[test]
fn test_widths_and_support() {
    assert_eq!(intrinsic_width(TypeTag::Int8), 1);
    assert_eq!(intrinsic_width(TypeTag::UInt16), 2);
    assert_eq!(intrinsic_width(TypeTag::Float32), 4);
    assert_eq!(intrinsic_width(TypeTag::Float64), 8);
    assert_eq!(intrinsic_width(TypeTag::Bool), 1);
    assert!(is_supported(TypeTag::Float64));
    assert!(is_supported(TypeTag::Int8));
    assert!(!is_supported(TypeTag::Int32));
    assert!(!is_supported(TypeTag::BitField));
    assert!(!is_supported(TypeTag::UInt64));
}
