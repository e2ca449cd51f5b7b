use lain::endian::{encode_uint, Endianness};
use lain::serialize::{BinarySerialize, SerializedSize};
use lain::types::{AsciiString, ToPrimitive, UnsafeEnum, Utf8String};

fn encoded<T: BinarySerialize>(v: &T) -> Vec<u8> {
    let mut out: Vec<u8> = Vec::new();
    v.binary_serialize(&mut out, Endianness::Big);
    out
}

fn encoded_le<T: BinarySerialize>(v: &T) -> Vec<u8> {
    let mut out: Vec<u8> = Vec::new();
    v.binary_serialize(&mut out, Endianness::Little);
    out
}

#[test]
fn size_matches_encoding_for_scalars() {
    assert_eq!(0x17u8.serialized_size(), encoded(&0x17u8).len());
    assert_eq!(0x1234u16.serialized_size(), encoded(&0x1234u16).len());
    assert_eq!(0xDEAD_BEEFu32.serialized_size(), encoded(&0xDEAD_BEEFu32).len());
    assert_eq!(u64::MAX.serialized_size(), encoded(&u64::MAX).len());
    assert_eq!((-5i8).serialized_size(), encoded(&-5i8).len());
    assert_eq!((-512i16).serialized_size(), encoded(&-512i16).len());
    assert_eq!(i32::MIN.serialized_size(), encoded(&i32::MIN).len());
    assert_eq!(i64::MIN.serialized_size(), encoded(&i64::MIN).len());
    assert_eq!(true.serialized_size(), encoded(&true).len());
}

#[test]
fn endianness_of_two_byte_value() {
    assert_eq!(encoded(&0x0102u16), vec![0x01, 0x02]);
    assert_eq!(encoded_le(&0x0102u16), vec![0x02, 0x01]);
}

#[test]
fn endianness_of_four_byte_value() {
    assert_eq!(encoded(&0x0102_0304u32), vec![0x01, 0x02, 0x03, 0x04]);
    assert_eq!(encoded_le(&0x0102_0304u32), vec![0x04, 0x03, 0x02, 0x01]);
}

#[test]
fn encode_uint_widths() {
    let mut out: Vec<u8> = Vec::new();
    encode_uint(0xAABBCC, 3, Endianness::Big, &mut out);
    assert_eq!(out, vec![0xAA, 0xBB, 0xCC]);
    let mut out2: Vec<u8> = Vec::new();
    encode_uint(0xAABBCC, 3, Endianness::Little, &mut out2);
    assert_eq!(out2, vec![0xCC, 0xBB, 0xAA]);
}

#[test]
fn signed_values_use_twos_complement() {
    assert_eq!(encoded(&-1i8), vec![0xFF]);
    assert_eq!(encoded_le(&-2i16), vec![0xFE, 0xFF]);
    assert_eq!(encoded(&-1i64), vec![0xFF; 8]);
}

#[test]
fn sequence_size_is_sum_of_element_sizes() {
    let v: Vec<u16> = vec![1, 2, 3];
    assert_eq!(v.serialized_size(), 6);
    assert_eq!(encoded(&v), vec![0, 1, 0, 2, 0, 3]);
    let empty: Vec<u32> = Vec::new();
    assert_eq!(empty.serialized_size(), 0);
    assert_eq!(encoded(&empty).len(), 0);
}

#[test]
fn string_size_is_utf8_byte_length() {
    let s = String::from("héllo");
    assert_eq!(s.serialized_size(), 6);
    assert_eq!(encoded(&s), s.as_bytes().to_vec());
}

#[test]
fn utf8_string_round_trip_of_characters() {
    let t = Utf8String::new("héllo");
    assert_eq!(t.serialized_size(), 6);
    assert_eq!(encoded(&t), "héllo".as_bytes().to_vec());
}

#[test]
fn utf8_string_multibyte_encodings() {
    let two = Utf8String::new("é");
    assert_eq!(encoded(&two), vec![0xC3, 0xA9]);
    let three = Utf8String::new("€");
    assert_eq!(encoded(&three), vec![0xE2, 0x82, 0xAC]);
    let four = Utf8String::new("𐍈");
    assert_eq!(encoded(&four), vec![0xF0, 0x90, 0x8D, 0x88]);
    assert_eq!(four.serialized_size(), 4);
}

#[test]
fn ascii_string_encodes_one_byte_per_character() {
    let a = AsciiString::new("abc");
    assert_eq!(a.serialized_size(), 3);
    assert_eq!(encoded(&a), vec![0x61, 0x62, 0x63]);
}

#[test]
fn wrapper_size_is_constant_across_variants() {
    let valid: UnsafeEnum<u32, u32> = UnsafeEnum::Valid(5);
    let invalid: UnsafeEnum<u32, u32> = UnsafeEnum::Invalid(0xFFFF_FFFF);
    assert_eq!(valid.serialized_size(), 4);
    assert_eq!(invalid.serialized_size(), 4);
    assert_eq!(
        <UnsafeEnum<u32, u32> as SerializedSize>::min_nonzero_elements_size(),
        4
    );
}

#[test]
fn wrapper_to_primitive_yields_backing_value() {
    let invalid: UnsafeEnum<u32, u32> = UnsafeEnum::Invalid(7);
    assert_eq!(invalid.to_primitive(), 7);
    let valid: UnsafeEnum<u32, u32> = UnsafeEnum::Valid(5);
    assert_eq!(valid.to_primitive(), 5);
}

#[test]
fn wrapper_encodes_held_variant() {
    let invalid: UnsafeEnum<u32, u32> = UnsafeEnum::Invalid(0x0102_0304);
    assert_eq!(encoded(&invalid), vec![0x01, 0x02, 0x03, 0x04]);
    let valid: UnsafeEnum<u32, u32> = UnsafeEnum::Valid(0x0102_0304);
    assert_eq!(encoded(&valid), vec![0x01, 0x02, 0x03, 0x04]);
}

#[test]
fn wrapper_default_is_valid_default() {
    let d: UnsafeEnum<u32, u32> = Default::default();
    assert!(matches!(d, UnsafeEnum::Valid(0)));
}

#[test]
fn min_nonzero_sizes_of_scalars() {
    assert_eq!(<u32 as SerializedSize>::min_nonzero_elements_size(), 4);
    assert_eq!(<Vec<u16> as SerializedSize>::min_nonzero_elements_size(), 2);
    assert_eq!(<bool as SerializedSize>::min_nonzero_elements_size(), 1);
}
