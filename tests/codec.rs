use bess::de::{Decode, Deserializer};
use bess::ser::{Encode, Serializer};
use bess::Error;

#[test]
fn int_deserialize_works() {
    let test = &[0x34, 0x12];
    let expect: u16 = 0x1234;

    let mut de = Deserializer::from_bytes(test);
    let found = u16::decode(&mut de).unwrap();

    assert_eq!(found, expect);
}

#[test]
fn bytes_deserialize_works() {
    let test: Vec<_> = [0x34_u8, 0x12].into_iter().cycle().take(0x200).collect();
    let expect = [0x1234_u16; 0x100];

    let mut de = Deserializer::from_bytes(&test);
    let found = de.deserialize_seq::<u16>(0x100).unwrap();

    assert_eq!(found, expect);
}

#[derive(Debug, PartialEq)]
struct Test {
    int: u32,
    seq: Vec<String>,
}

#[test]
fn mod_struct_serialize_works() {
    let test = &[0x01, 0x00, 0x00, 0x00, b'a', b'b'];
    let expect = Test {
        int: 1,
        seq: vec!["a".to_string(), "b".to_string()],
    };

    let mut de = Deserializer::from_bytes(test);
    let int = u32::decode(&mut de).unwrap();
    let seq = vec![de.deserialize_str(1).unwrap(), de.deserialize_str(1).unwrap()];
    let found = Test { int, seq };

    assert_eq!(found, expect);
}

#[test]
fn int_serialize_works() {
    let test: u16 = 0x1234;
    let expect = [0x34, 0x12];

    let mut ser = Serializer::new();
    test.encode(&mut ser);
    let found = ser.into_bytes();

    assert_eq!(found, expect);
}

#[test]
fn bytes_serialize_works() {
    let test = [0x1234_u16; 0x100];
    let expect: Vec<_> = [0x34_u8, 0x12].into_iter().cycle().take(0x200).collect();

    let mut ser = Serializer::new();
    ser.serialize_seq(&test);
    let found = ser.into_bytes();

    assert_eq!(found, expect);
}

#[test]
fn struct_serialize_works() {
    let test_int: u32 = 1;
    let test_seq = vec!["a", "b"];
    let expect = [0x01, 0x00, 0x00, 0x00, b'a', b'b'];

    let mut ser = Serializer::new();
    test_int.encode(&mut ser);
    for s in &test_seq {
        ser.serialize_str(s);
    }
    let found = ser.into_bytes();

    assert_eq!(found, expect);
}

#[test]
fn integers_are_little_endian() {
    let mut ser = Serializer::new();
    0x0102_0304_u32.encode(&mut ser);
    0x0102_0304_0506_0708_u64.encode(&mut ser);
    (-2_i16).encode(&mut ser);
    (-1_i8).encode(&mut ser);
    (-3_i32).encode(&mut ser);
    (-4_i64).encode(&mut ser);
    assert_eq!(
        ser.into_bytes(),
        vec![
            0x04, 0x03, 0x02, 0x01, //
            0x08, 0x07, 0x06, 0x05, 0x04, 0x03, 0x02, 0x01, //
            0xfe, 0xff, //
            0xff, //
            0xfd, 0xff, 0xff, 0xff, //
            0xfc, 0xff, 0xff, 0xff, 0xff, 0xff, 0xff, 0xff,
        ]
    );
}

#[test]
fn signed_integers_read_back() {
    let bytes = [0xfe, 0xff, 0xff, 0xfd, 0xff, 0xff, 0xff];
    let mut de = Deserializer::from_bytes(&bytes);
    assert_eq!(i16::decode(&mut de).unwrap(), -2);
    assert_eq!(i8::decode(&mut de).unwrap(), -1);
    assert_eq!(i32::decode(&mut de).unwrap(), -3);
    assert_eq!(de.remaining(), 0);
    let bytes = [0xfc, 0xff, 0xff, 0xff, 0xff, 0xff, 0xff, 0xff];
    let mut de = Deserializer::from_bytes(&bytes);
    assert_eq!(i64::decode(&mut de).unwrap(), -4);
}

#[test]
fn booleans_are_one_byte() {
    let mut ser = Serializer::new();
    true.encode(&mut ser);
    false.encode(&mut ser);
    assert_eq!(ser.into_bytes(), vec![1, 0]);

    let mut de = Deserializer::from_bytes(&[1, 0, 2]);
    assert!(bool::decode(&mut de).unwrap());
    assert!(!bool::decode(&mut de).unwrap());
    assert!(matches!(bool::decode(&mut de), Err(Error::Message(_))));
}

#[test]
fn variant_tag_takes_the_narrowest_width() {
    let mut ser = Serializer::new();
    ser.serialize_variant(2);
    ser.serialize_variant(0x1234);
    ser.serialize_variant(0x0001_0000);
    assert_eq!(
        ser.into_bytes(),
        vec![0x02, 0x34, 0x12, 0x00, 0x00, 0x01, 0x00]
    );
}

#[test]
fn variant_tag_reads_back() {
    let mut de = Deserializer::from_bytes(&[2, 3]);
    assert_eq!(de.deserialize_variant(3).unwrap(), 2);
    assert!(matches!(de.deserialize_variant(3), Err(Error::Message(_))));
    let mut de = Deserializer::from_bytes(&[]);
    assert!(matches!(de.deserialize_variant(3), Err(Error::TooShort)));
    let mut de = Deserializer::from_bytes(&[0]);
    assert!(matches!(de.deserialize_variant(300), Err(Error::Unsupported)));
}

#[test]
fn too_short_input_is_reported() {
    let mut de = Deserializer::from_bytes(&[0x01, 0x02, 0x03]);
    assert!(matches!(u32::decode(&mut de), Err(Error::TooShort)));
    let mut de = Deserializer::from_bytes(&[0x01]);
    assert!(matches!(u16::decode(&mut de), Err(Error::TooShort)));
    let mut de = Deserializer::from_bytes(&[0x01, 0x02, 0x03]);
    assert!(matches!(de.deserialize_bytes(4), Err(Error::TooShort)));
    assert!(matches!(de.deserialize_str(4), Err(Error::TooShort)));
    assert!(matches!(de.deserialize_seq::<u16>(2), Err(Error::TooShort)));
}

#[test]
fn text_must_be_utf8() {
    let mut de = Deserializer::from_bytes(&[0xff, 0xfe]);
    assert!(matches!(de.deserialize_str(2), Err(Error::Message(_))));
    let bytes = "h\u{e9}".as_bytes();
    let mut de = Deserializer::from_bytes(bytes);
    assert_eq!(de.deserialize_str(3).unwrap(), "h\u{e9}");
    assert_eq!(de.remaining(), 0);
}

#[test]
fn raw_bytes_and_arrays() {
    let mut de = Deserializer::from_bytes(&[1, 2, 3, 4, 5]);
    assert_eq!(de.deserialize_bytes(2).unwrap(), &[1, 2]);
    let a: [u8; 3] = <[u8; 3]>::decode(&mut de).unwrap();
    assert_eq!(a, [3, 4, 5]);

    let mut ser = Serializer::new();
    [9u8, 8, 7].encode(&mut ser);
    ser.serialize_bytes(&[6, 5]);
    assert_eq!(ser.into_bytes(), vec![9, 8, 7, 6, 5]);
}

#[test]
fn unsupported_shapes_fail() {
    let mut ser = Serializer::new();
    assert!(matches!(ser.serialize_char('x'), Err(Error::Unsupported)));
    assert!(matches!(ser.serialize_none(), Err(Error::Unsupported)));
    assert!(ser.into_bytes().is_empty());
    let mut de = Deserializer::from_bytes(&[0x78]);
    assert!(matches!(de.deserialize_char(), Err(Error::Unsupported)));
    assert!(matches!(de.deserialize_option(), Err(Error::Unsupported)));
    assert!(matches!(de.deserialize_any(), Err(Error::Unsupported)));
    assert_eq!(de.remaining(), 1);
}

#[test]
fn pop_takes_from_the_front() {
    let mut de = Deserializer::from_bytes(&[1, 2, 3, 4, 5, 6]);
    assert_eq!(de.pop(2), &[1, 2]);
    let a: [u8; 3] = de.pop_ref();
    assert_eq!(a, [3, 4, 5]);
    assert_eq!(de.remaining(), 1);
}
