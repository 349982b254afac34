use parity_scale_codec::{Compact, Decode, Encode};
use storage_types::{
    decode, encode, AccountId, DecodeError, EnumWithValues, EnumWithoutValues, Error,
    InkPreludeTypes, PrimitiveTypes, SignedIntegers, SubstrateTypes, UnsignedIntegers,
};

fn unsigned_bounds() -> UnsignedIntegers {
    UnsignedIntegers {
        u128_value_max: u128::MAX,
        u128_value_min: u128::MIN,
        u16_value_max: u16::MAX,
        u16_value_min: u16::MIN,
        u32_value_max: u32::MAX,
        u32_value_min: u32::MIN,
        u64_value_max: u64::MAX,
        u64_value_min: u64::MIN,
        u8_value_max: u8::MAX,
        u8_value_min: u8::MIN,
    }
}

fn signed_bounds() -> SignedIntegers {
    SignedIntegers {
        i128_value_max: i128::MAX,
        i128_value_min: i128::MIN,
        i16_value_max: i16::MAX,
        i16_value_min: i16::MIN,
        i32_value_max: i32::MAX,
        i32_value_min: i32::MIN,
        i64_value_max: i64::MAX,
        i64_value_min: i64::MIN,
        i8_value_max: i8::MAX,
        i8_value_min: i8::MIN,
    }
}

fn texts() -> InkPreludeTypes {
    let pair = vec![String::from("This is a string"), String::from("This is another string")];
    InkPreludeTypes {
        string_value: String::from("This is a string"),
        vec_string_value: pair.clone(),
        vec_vec_string_value: vec![pair],
    }
}

#[test]
fn unsigned_integers_are_little_endian() {
    assert_eq!(encode(&0x12u8), vec![0x12]);
    assert_eq!(encode(&0x1234u16), vec![0x34, 0x12]);
    assert_eq!(encode(&0x0102_0304u32), vec![4, 3, 2, 1]);
    assert_eq!(encode(&0x0102_0304_0506_0708u64), vec![8, 7, 6, 5, 4, 3, 2, 1]);
    assert_eq!(
        encode(&0x0102_0304_0506_0708_090a_0b0c_0d0e_0f10u128),
        vec![16, 15, 14, 13, 12, 11, 10, 9, 8, 7, 6, 5, 4, 3, 2, 1]
    );
}

#[test]
fn signed_integers_are_twos_complement() {
    assert_eq!(encode(&-1i8), vec![0xff]);
    assert_eq!(encode(&-2i32), vec![0xfe, 0xff, 0xff, 0xff]);
    assert_eq!(encode(&i16::MIN), vec![0x00, 0x80]);
    assert_eq!(encode(&i16::MAX), vec![0xff, 0x7f]);
    assert_eq!(encode(&i64::MIN), vec![0, 0, 0, 0, 0, 0, 0, 0x80]);
    let mut min128 = vec![0u8; 16];
    min128[15] = 0x80;
    assert_eq!(encode(&i128::MIN), min128);
    assert_eq!(encode(&-1i128), vec![0xffu8; 16]);
}

#[test]
fn integer_bounds_round_trip() {
    assert_eq!(decode::<u8>(&encode(&u8::MAX)), Ok(u8::MAX));
    assert_eq!(decode::<u8>(&encode(&u8::MIN)), Ok(u8::MIN));
    assert_eq!(decode::<u16>(&encode(&u16::MAX)), Ok(u16::MAX));
    assert_eq!(decode::<u16>(&encode(&u16::MIN)), Ok(u16::MIN));
    assert_eq!(decode::<u32>(&encode(&u32::MAX)), Ok(u32::MAX));
    assert_eq!(decode::<u32>(&encode(&u32::MIN)), Ok(u32::MIN));
    assert_eq!(decode::<u64>(&encode(&u64::MAX)), Ok(u64::MAX));
    assert_eq!(decode::<u64>(&encode(&u64::MIN)), Ok(u64::MIN));
    assert_eq!(decode::<u128>(&encode(&u128::MAX)), Ok(u128::MAX));
    assert_eq!(decode::<u128>(&encode(&u128::MIN)), Ok(u128::MIN));
    assert_eq!(decode::<i8>(&encode(&i8::MAX)), Ok(i8::MAX));
    assert_eq!(decode::<i8>(&encode(&i8::MIN)), Ok(i8::MIN));
    assert_eq!(decode::<i16>(&encode(&i16::MAX)), Ok(i16::MAX));
    assert_eq!(decode::<i16>(&encode(&i16::MIN)), Ok(i16::MIN));
    assert_eq!(decode::<i32>(&encode(&i32::MAX)), Ok(i32::MAX));
    assert_eq!(decode::<i32>(&encode(&i32::MIN)), Ok(i32::MIN));
    assert_eq!(decode::<i64>(&encode(&i64::MAX)), Ok(i64::MAX));
    assert_eq!(decode::<i64>(&encode(&i64::MIN)), Ok(i64::MIN));
    assert_eq!(decode::<i128>(&encode(&i128::MAX)), Ok(i128::MAX));
    assert_eq!(decode::<i128>(&encode(&i128::MIN)), Ok(i128::MIN));
    assert_eq!(decode::<i32>(&encode(&-1i32)), Ok(-1));
    assert_eq!(decode::<i64>(&encode(&0i64)), Ok(0));
}

#[test]
fn integers_agree_with_the_scale_codec() {
    assert_eq!(encode(&0xdead_beefu32), 0xdead_beefu32.encode());
    assert_eq!(encode(&u128::MAX), u128::MAX.encode());
    assert_eq!(encode(&i128::MIN), i128::MIN.encode());
    assert_eq!(encode(&-12345i64), (-12345i64).encode());
    assert_eq!(encode(&i8::MIN), i8::MIN.encode());
    assert_eq!(encode(&true), true.encode());
    assert_eq!(decode::<i64>(&(-77i64).encode()), Ok(-77));
    assert_eq!(i32::decode(&mut &encode(&-5i32)[..]).unwrap(), -5);
}

#[test]
fn truncated_integers_are_refused() {
    assert_eq!(decode::<u8>(&[]), Err(DecodeError::UnexpectedEof));
    assert_eq!(decode::<u32>(&[1, 2, 3]), Err(DecodeError::UnexpectedEof));
    assert_eq!(decode::<i128>(&[0u8; 15]), Err(DecodeError::UnexpectedEof));
    assert_eq!(decode::<u16>(&[1]), Err(DecodeError::UnexpectedEof));
}

#[test]
fn bytes_behind_the_value_are_ignored() {
    assert_eq!(decode::<u16>(&[1, 2, 3, 4]), Ok(0x0201));
    assert_eq!(decode::<bool>(&[1, 9]), Ok(true));
}

#[test]
fn booleans_are_one_byte() {
    assert_eq!(encode(&false), vec![0]);
    assert_eq!(encode(&true), vec![1]);
    assert_eq!(decode::<bool>(&[0]), Ok(false));
    assert_eq!(decode::<bool>(&[1]), Ok(true));
    assert_eq!(decode::<bool>(&[2]), Err(DecodeError::InvalidBooleanByte));
    assert_eq!(decode::<bool>(&[0xff]), Err(DecodeError::InvalidBooleanByte));
    assert_eq!(decode::<bool>(&[]), Err(DecodeError::UnexpectedEof));
}

#[test]
fn pairs_and_arrays_have_no_length_prefix() {
    assert_eq!(encode(&(7u32, 8u32)), vec![7, 0, 0, 0, 8, 0, 0, 0]);
    assert_eq!(encode(&[3u32, 2, 1]), vec![3, 0, 0, 0, 2, 0, 0, 0, 1, 0, 0, 0]);
    assert_eq!(encode(&[9u8; 32]), vec![9u8; 32]);
    assert_eq!(decode::<(u32, u32)>(&encode(&(7u32, 8u32))), Ok((7, 8)));
    assert_eq!(decode::<[u32; 3]>(&encode(&[3u32, 2, 1])), Ok([3, 2, 1]));
    assert_eq!(decode::<[u8; 32]>(&[5u8; 32]), Ok([5u8; 32]));
    assert_eq!(decode::<[u8; 32]>(&[5u8; 31]), Err(DecodeError::UnexpectedEof));
    assert_eq!(decode::<(u32, u32)>(&[1, 0, 0, 0, 2, 0, 0]), Err(DecodeError::UnexpectedEof));
    assert_eq!(encode(&(1u8, 0x0203u16)), (1u8, 0x0203u16).encode());
    assert_eq!(encode(&[3u32, 2, 1]), [3u32, 2, 1].encode());
}

#[test]
fn pair_order_matters() {
    assert_ne!(encode(&(1u32, 2u32)), encode(&(2u32, 1u32)));
    assert_eq!(decode::<(u8, bool)>(&[1, 0]), Ok((1, false)));
    assert_eq!(decode::<(bool, u8)>(&[1, 0]), Ok((true, 0)));
}

#[test]
fn length_prefix_takes_the_shortest_form() {
    assert_eq!(encode(&Vec::<u8>::new()), vec![0]);
    assert_eq!(encode(&vec![7u8]), vec![4, 7]);
    assert_eq!(encode(&vec![0u8; 63])[..1], [0xfc]);
    assert_eq!(encode(&vec![0u8; 64])[..2], [0x01, 0x01]);
    assert_eq!(encode(&vec![0u8; 16383])[..2], [0xfd, 0xff]);
    assert_eq!(encode(&vec![0u8; 16384])[..4], [0x02, 0x00, 0x01, 0x00]);
    assert_eq!(encode(&vec![0u8; 63]).len(), 64);
    assert_eq!(encode(&vec![0u8; 64]).len(), 66);
    assert_eq!(encode(&vec![0u8; 16384]).len(), 16388);
}

#[test]
fn length_prefix_agrees_with_the_scale_codec() {
    for n in [0usize, 1, 63, 64, 65, 255, 256, 16383, 16384, 16385, 70000] {
        let v = vec![0xabu8; n];
        assert_eq!(encode(&v), v.encode());
        assert_eq!(encode(&v)[..Compact(n as u32).encode().len()], Compact(n as u32).encode()[..]);
        assert_eq!(decode::<Vec<u8>>(&v.encode()), Ok(v));
    }
}

#[test]
fn length_prefix_in_a_longer_form_is_refused() {
    // 1 in the two-byte form, 1 in the four-byte form, 1 in the long form
    assert_eq!(decode::<Vec<u8>>(&[0x05, 0x00, 7]), Err(DecodeError::InvalidLengthPrefix));
    assert_eq!(decode::<Vec<u8>>(&[0x06, 0, 0, 0, 7]), Err(DecodeError::InvalidLengthPrefix));
    assert_eq!(decode::<Vec<u8>>(&[0x03, 1, 0, 0, 0, 7]), Err(DecodeError::InvalidLengthPrefix));
    // five bytes that hold a number of four
    assert_eq!(
        decode::<Vec<u8>>(&[0x07, 0xff, 0xff, 0xff, 0xff, 0x00]),
        Err(DecodeError::InvalidLengthPrefix)
    );
    // more than eight bytes
    assert_eq!(decode::<Vec<u8>>(&[0x17, 1, 1, 1, 1, 1, 1, 1, 1, 1]), Err(DecodeError::InvalidLengthPrefix));
    assert!(Vec::<u8>::decode(&mut &[0x05u8, 0x00, 7][..]).is_err());
    assert!(Vec::<u8>::decode(&mut &[0x06u8, 0, 0, 0, 7][..]).is_err());
    assert!(Vec::<u8>::decode(&mut &[0x03u8, 1, 0, 0, 0, 7][..]).is_err());
}

#[test]
fn truncated_sequences_are_refused() {
    assert_eq!(decode::<Vec<u8>>(&[]), Err(DecodeError::UnexpectedEof));
    assert_eq!(decode::<Vec<u8>>(&[0x01]), Err(DecodeError::UnexpectedEof));
    assert_eq!(decode::<Vec<u8>>(&[0x02, 0, 1]), Err(DecodeError::UnexpectedEof));
    assert_eq!(decode::<Vec<u8>>(&[0x03, 0, 0, 0]), Err(DecodeError::UnexpectedEof));
    assert_eq!(decode::<Vec<u8>>(&[8, 1]), Err(DecodeError::UnexpectedEof));
    assert_eq!(decode::<Vec<u32>>(&[4, 1, 0, 0]), Err(DecodeError::UnexpectedEof));
    assert_eq!(decode::<Vec<bool>>(&[8, 1, 3]), Err(DecodeError::InvalidBooleanByte));
    // a length of 2^32 with no elements behind it
    assert_eq!(decode::<Vec<u8>>(&[0x07, 0, 0, 0, 0, 1]), Err(DecodeError::UnexpectedEof));
}

#[test]
fn sequences_round_trip() {
    let empty: Vec<u32> = Vec::new();
    assert_eq!(decode::<Vec<u32>>(&encode(&empty)), Ok(empty));
    let many: Vec<u32> = vec![1, 2, 3, u32::MAX];
    assert_eq!(encode(&many), vec![16, 1, 0, 0, 0, 2, 0, 0, 0, 3, 0, 0, 0, 255, 255, 255, 255]);
    assert_eq!(decode::<Vec<u32>>(&encode(&many)), Ok(many));
    let nested: Vec<Vec<u8>> = vec![vec![], vec![1], vec![2, 3]];
    assert_eq!(encode(&nested), vec![12, 0, 4, 1, 8, 2, 3]);
    assert_eq!(encode(&nested), nested.encode());
    assert_eq!(decode::<Vec<Vec<u8>>>(&encode(&nested)), Ok(nested));
}

#[test]
fn text_is_prefixed_utf8() {
    let s = String::from("This is a string");
    let mut expected = vec![0x40u8];
    expected.extend_from_slice(b"This is a string");
    assert_eq!(encode(&s), expected);
    assert_eq!(encode(&s), s.encode());
    assert_eq!(decode::<String>(&expected), Ok(s));
    assert_eq!(encode(&String::new()), vec![0]);
    assert_eq!(decode::<String>(&[0]), Ok(String::new()));
    let accents = String::from("h\u{e9}llo \u{20ac} \u{1f600}");
    assert_eq!(encode(&accents), accents.encode());
    assert_eq!(decode::<String>(&encode(&accents)), Ok(accents));
}

#[test]
fn text_that_is_not_utf8_is_refused() {
    assert_eq!(decode::<String>(&[8, 0xff, 0xfe]), Err(DecodeError::InvalidUtf8));
    assert_eq!(decode::<String>(&[4, 0x80]), Err(DecodeError::InvalidUtf8));
    assert_eq!(decode::<String>(&[8, 0x41]), Err(DecodeError::UnexpectedEof));
    assert_eq!(decode::<String>(&[8, 0x41, 0x42]), Ok(String::from("AB")));
    assert!(String::decode(&mut &[8u8, 0xff, 0xfe][..]).is_err());
}

#[test]
fn variants_without_fields_are_one_tag() {
    assert_eq!(encode(&EnumWithoutValues::A), vec![0]);
    assert_eq!(encode(&EnumWithoutValues::B), vec![1]);
    assert_eq!(encode(&EnumWithoutValues::C), vec![2]);
    assert_eq!(decode::<EnumWithoutValues>(&[0]), Ok(EnumWithoutValues::A));
    assert_eq!(decode::<EnumWithoutValues>(&[1]), Ok(EnumWithoutValues::B));
    assert_eq!(decode::<EnumWithoutValues>(&[2]), Ok(EnumWithoutValues::C));
    assert_eq!(decode::<EnumWithoutValues>(&[3]), Err(DecodeError::InvalidDiscriminant));
    assert_eq!(decode::<EnumWithoutValues>(&[]), Err(DecodeError::UnexpectedEof));
    assert_eq!(EnumWithoutValues::default(), EnumWithoutValues::A);
    assert_eq!(encode(&Error::ThisIsAnErrorEnum), vec![0]);
    assert_eq!(decode::<Error>(&[0]), Ok(Error::ThisIsAnErrorEnum));
    assert_eq!(decode::<Error>(&[1]), Err(DecodeError::InvalidDiscriminant));
    assert_eq!(decode::<Error>(&[]), Err(DecodeError::UnexpectedEof));
}

#[test]
fn variants_with_fields_are_tag_then_fields() {
    let one = EnumWithValues::OneValue(1);
    let two = EnumWithValues::TwoValues(1, 2);
    let three = EnumWithValues::ThreeValues(1, 2, 3);
    assert_eq!(encode(&one), vec![0, 1, 0, 0, 0]);
    assert_eq!(encode(&two), vec![1, 1, 0, 0, 0, 2, 0, 0, 0]);
    assert_eq!(encode(&three), vec![2, 1, 0, 0, 0, 2, 0, 0, 0, 3, 0, 0, 0]);
    assert_eq!(decode::<EnumWithValues>(&encode(&one)), Ok(one));
    assert_eq!(decode::<EnumWithValues>(&encode(&two)), Ok(two));
    assert_eq!(decode::<EnumWithValues>(&encode(&three)), Ok(three));
    assert_eq!(decode::<EnumWithValues>(&[3, 1, 0, 0, 0]), Err(DecodeError::InvalidDiscriminant));
    assert_eq!(decode::<EnumWithValues>(&[1, 1, 0, 0, 0]), Err(DecodeError::UnexpectedEof));
    assert_eq!(decode::<EnumWithValues>(&[]), Err(DecodeError::UnexpectedEof));
}

#[test]
fn records_are_their_fields_in_order() {
    let u = unsigned_bounds();
    let expected = (
        u128::MAX, u128::MIN, u16::MAX, u16::MIN, u32::MAX, u32::MIN, u64::MAX, u64::MIN, u8::MAX,
        u8::MIN,
    )
        .encode();
    assert_eq!(encode(&u), expected);
    assert_eq!(encode(&u).len(), 62);
    assert_eq!(decode::<UnsignedIntegers>(&expected), Ok(u));

    let s = signed_bounds();
    let expected = (
        i128::MAX, i128::MIN, i16::MAX, i16::MIN, i32::MAX, i32::MIN, i64::MAX, i64::MIN, i8::MAX,
        i8::MIN,
    )
        .encode();
    assert_eq!(encode(&s), expected);
    assert_eq!(decode::<SignedIntegers>(&expected), Ok(s));
    assert_eq!(
        decode::<SignedIntegers>(&expected[..expected.len() - 1]),
        Err(DecodeError::UnexpectedEof)
    );
}

#[test]
fn primitive_record_round_trips() {
    let p = PrimitiveTypes {
        bool_value: true,
        enum_without_values: EnumWithoutValues::A,
        enum_with_values: EnumWithValues::ThreeValues(1, 2, 3),
        array_value: [3, 2, 1],
        tuple_value: (7, 8),
    };
    let expected = vec![
        1, 0, 2, 1, 0, 0, 0, 2, 0, 0, 0, 3, 0, 0, 0, 3, 0, 0, 0, 2, 0, 0, 0, 1, 0, 0, 0, 7, 0, 0,
        0, 8, 0, 0, 0,
    ];
    assert_eq!(encode(&p), expected);
    assert_eq!(decode::<PrimitiveTypes>(&expected), Ok(p));
    let mut bad = expected.clone();
    bad[0] = 2;
    assert_eq!(decode::<PrimitiveTypes>(&bad), Err(DecodeError::InvalidBooleanByte));
    let mut bad = expected.clone();
    bad[1] = 3;
    assert_eq!(decode::<PrimitiveTypes>(&bad), Err(DecodeError::InvalidDiscriminant));
    let mut bad = expected;
    bad[2] = 9;
    assert_eq!(decode::<PrimitiveTypes>(&bad), Err(DecodeError::InvalidDiscriminant));
}

#[test]
fn chain_record_round_trips() {
    let s = SubstrateTypes {
        account_id_value: AccountId::from_bytes([0x00; 32]),
        balance_value_max: u128::MAX,
        balance_value_min: u128::MIN,
        hash_value: storage_types::primitives::Hash::from_bytes([0x00; 32]),
    };
    let expected = ([0u8; 32], u128::MAX, u128::MIN, [0u8; 32]).encode();
    assert_eq!(encode(&s), expected);
    assert_eq!(encode(&s).len(), 96);
    assert_eq!(decode::<SubstrateTypes>(&expected), Ok(s));
    let a = AccountId::from_bytes([0x01; 32]);
    assert_eq!(encode(&a), vec![1u8; 32]);
    assert_eq!(decode::<AccountId>(&[1u8; 32]), Ok(a));
}

#[test]
fn text_record_round_trips() {
    let t = texts();
    let pair = vec![String::from("This is a string"), String::from("This is another string")];
    let expected =
        (String::from("This is a string"), pair.clone(), vec![pair]).encode();
    assert_eq!(encode(&t), expected);
    assert_eq!(decode::<InkPreludeTypes>(&expected), Ok(t));
}

#[test]
fn encoding_is_deterministic() {
    assert_eq!(encode(&texts()), encode(&texts()));
    assert_eq!(encode(&unsigned_bounds()), encode(&unsigned_bounds()));
    let a = vec![String::from("x"), String::from("y")];
    let mut b = Vec::with_capacity(100);
    b.push(String::from("x"));
    b.push(String::from("y"));
    assert_eq!(encode(&a), encode(&b));
}

#[test]
fn different_values_have_different_encodings() {
    assert_ne!(encode(&vec![1u8, 2]), encode(&vec![1u8]));
    assert_ne!(encode(&String::from("a")), encode(&String::from("b")));
    assert_ne!(encode(&EnumWithValues::OneValue(1)), encode(&EnumWithValues::TwoValues(1, 0)));
    assert_ne!(encode(&i8::MIN), encode(&i8::MAX));
}

#[test]
fn what_decodes_is_the_encoding_of_what_it_decodes_to() {
    let bytes = vec![8u8, 1, 0, 0, 0, 2, 0, 0, 0];
    let v = decode::<Vec<u32>>(&bytes).unwrap();
    assert_eq!(encode(&v), bytes);
    let bytes = vec![2u8, 5, 0, 0, 0, 6, 0, 0, 0, 7, 0, 0, 0];
    let e = decode::<EnumWithValues>(&bytes).unwrap();
    assert_eq!(encode(&e), bytes);
    let bytes = vec![12u8, 0x41, 0xc3, 0xa9];
    let s = decode::<String>(&bytes).unwrap();
    assert_eq!(s, "A\u{e9}");
    assert_eq!(encode(&s), bytes);
    let bytes = vec![0xffu8; 16];
    assert_eq!(encode(&decode::<i128>(&bytes).unwrap()), bytes);
    assert_eq!(encode(&decode::<u128>(&bytes).unwrap()), bytes);
}
