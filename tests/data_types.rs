use bytes::BytesMut;

use mcserver::data_types::{Angle, DataType, DataTypeError, Position, SizedDataType, Uuid};
use mcserver::text::{Chat, Identifier};
use mcserver::varint::{VarInt, VarLong};

#[test]
fn var_int_basic_read() {
    // From the wiki.vg protocol page
    let mut bytes = BytesMut::with_capacity(23);
    bytes.extend_from_slice(&[0x00]); // 0
    bytes.extend_from_slice(&[0x01]); // 1
    bytes.extend_from_slice(&[0x02]); // 2
    bytes.extend_from_slice(&[0x7f]); // 127
    bytes.extend_from_slice(&[0x80, 0x01]); // 128
    bytes.extend_from_slice(&[0xff, 0x01]); // 255
    bytes.extend_from_slice(&[0xff, 0xff, 0xff, 0xff, 0x07]); // 2147483647
    bytes.extend_from_slice(&[0xff, 0xff, 0xff, 0xff, 0x0f]); // -1
    bytes.extend_from_slice(&[0x80, 0x80, 0x80, 0x80, 0x08]); // -2147483648

    assert_eq!(0, VarInt::read_from(&mut bytes).unwrap().value());
    assert_eq!(1, VarInt::read_from(&mut bytes).unwrap().value());
    assert_eq!(2, VarInt::read_from(&mut bytes).unwrap().value());
    assert_eq!(127, VarInt::read_from(&mut bytes).unwrap().value());
    assert_eq!(128, VarInt::read_from(&mut bytes).unwrap().value());
    assert_eq!(255, VarInt::read_from(&mut bytes).unwrap().value());
    assert_eq!(2147483647, VarInt::read_from(&mut bytes).unwrap().value());
    assert_eq!(-1, VarInt::read_from(&mut bytes).unwrap().value());
    assert_eq!(-2147483648, VarInt::read_from(&mut bytes).unwrap().value());
}

#[test]
fn var_int_basic_write() {
    let mut bytes = BytesMut::with_capacity(5);

    VarInt::new(0).write_to(&mut bytes);
    assert_eq!(bytes.as_ref(), &[0x00]);

    bytes.clear();

    VarInt::new(1).write_to(&mut bytes);
    assert_eq!(bytes.as_ref(), &[0x01]);

    bytes.clear();

    VarInt::new(2).write_to(&mut bytes);
    assert_eq!(bytes.as_ref(), &[0x02]);

    bytes.clear();

    VarInt::new(127).write_to(&mut bytes);
    assert_eq!(bytes.as_ref(), &[0x7f]);

    bytes.clear();

    VarInt::new(128).write_to(&mut bytes);
    assert_eq!(bytes.as_ref(), &[0x80, 0x01]);

    bytes.clear();

    VarInt::new(255).write_to(&mut bytes);
    assert_eq!(bytes.as_ref(), &[0xff, 0x01]);

    bytes.clear();

    VarInt::new(2147483647).write_to(&mut bytes);
    assert_eq!(bytes.as_ref(), &[0xff, 0xff, 0xff, 0xff, 0x07]);

    bytes.clear();

    VarInt::new(-1).write_to(&mut bytes);
    assert_eq!(bytes.as_ref(), &[0xff, 0xff, 0xff, 0xff, 0x0f]);

    bytes.clear();

    VarInt::new(-2147483648).write_to(&mut bytes);
    assert_eq!(bytes.as_ref(), &[0x80, 0x80, 0x80, 0x80, 0x08]);
}

#[test]
fn var_int_not_enough_bytes() {
    // Valid VarInts will end with a byte with a zero as MSB
    let mut bytes = BytesMut::with_capacity(1);
    bytes.extend_from_slice(&[0x80]);

    assert!(matches!(
        VarInt::read_from(&mut bytes),
        Err(DataTypeError::OutOfBytes(_))
    ));
}

#[test]
fn var_int_longer_than_five() {
    // Valid VarInts never exceed five bytes, and the parser should fail
    // gracefully
    let mut bytes = BytesMut::with_capacity(6);
    bytes.extend_from_slice(&[0x80, 0x80, 0x80, 0x80, 0x80, 0x00]);

    assert!(matches!(
        VarInt::read_from(&mut bytes),
        Err(DataTypeError::Malformed(_, _))
    ));
}

#[test]
fn var_int_careful_read() {
    // Valid VarInts will end with a byte with a zero as MSB
    let mut bytes = BytesMut::with_capacity(1);
    bytes.extend_from_slice(&[0x80]);

    assert!(matches!(
        VarInt::careful_read_from(&mut bytes),
        Err(DataTypeError::OutOfBytes(_))
    ));

    // Shouldn't touch the buffer on failure
    assert_eq!(bytes.len(), 1);
}

#[test]
fn var_long_basic_read() {
    // From the wiki.vg protocol page
    let mut bytes = BytesMut::with_capacity(52);
    bytes.extend_from_slice(&[0x00]); // 0
    bytes.extend_from_slice(&[0x01]); // 1
    bytes.extend_from_slice(&[0x02]); // 2
    bytes.extend_from_slice(&[0x7f]); // 127
    bytes.extend_from_slice(&[0x80, 0x01]); // 128
    bytes.extend_from_slice(&[0xff, 0x01]); // 255
    bytes.extend_from_slice(&[0xff, 0xff, 0xff, 0xff, 0x07]); // 2147483647
    bytes.extend_from_slice(&[0xff, 0xff, 0xff, 0xff, 0xff, 0xff, 0xff, 0xff, 0x7f]); // 9223372036854775807
    bytes.extend_from_slice(&[0xff, 0xff, 0xff, 0xff, 0xff, 0xff, 0xff, 0xff, 0xff, 0x01]); // -1
    bytes.extend_from_slice(&[0x80, 0x80, 0x80, 0x80, 0xf8, 0xff, 0xff, 0xff, 0xff, 0x01]); // -2147483648
    bytes.extend_from_slice(&[0x80, 0x80, 0x80, 0x80, 0x80, 0x80, 0x80, 0x80, 0x80, 0x01]); // -9223372036854775808

    assert_eq!(0, VarLong::read_from(&mut bytes).unwrap().value());
    assert_eq!(1, VarLong::read_from(&mut bytes).unwrap().value());
    assert_eq!(2, VarLong::read_from(&mut bytes).unwrap().value());
    assert_eq!(127, VarLong::read_from(&mut bytes).unwrap().value());
    assert_eq!(128, VarLong::read_from(&mut bytes).unwrap().value());
    assert_eq!(255, VarLong::read_from(&mut bytes).unwrap().value());
    assert_eq!(2147483647, VarLong::read_from(&mut bytes).unwrap().value());
    assert_eq!(
        9223372036854775807,
        VarLong::read_from(&mut bytes).unwrap().value()
    );
    assert_eq!(-1, VarLong::read_from(&mut bytes).unwrap().value());
    assert_eq!(-2147483648, VarLong::read_from(&mut bytes).unwrap().value());
    assert_eq!(
        -9223372036854775808,
        VarLong::read_from(&mut bytes).unwrap().value()
    );
}

#[test]
fn var_long_basic_write() {
    let mut bytes = BytesMut::with_capacity(10);
    VarLong::new(0).write_to(&mut bytes);
    assert_eq!(bytes.as_ref(), &[0x00]);

    bytes.clear();

    VarLong::new(1).write_to(&mut bytes);
    assert_eq!(bytes.as_ref(), &[0x01]);

    bytes.clear();

    VarLong::new(2).write_to(&mut bytes);
    assert_eq!(bytes.as_ref(), &[0x02]);

    bytes.clear();

    VarLong::new(127).write_to(&mut bytes);
    assert_eq!(bytes.as_ref(), &[0x7f]);

    bytes.clear();

    VarLong::new(128).write_to(&mut bytes);
    assert_eq!(bytes.as_ref(), &[0x80, 0x01]);

    bytes.clear();

    VarLong::new(255).write_to(&mut bytes);
    assert_eq!(bytes.as_ref(), &[0xff, 0x01]);

    bytes.clear();

    VarLong::new(2147483647).write_to(&mut bytes);
    assert_eq!(bytes.as_ref(), &[0xff, 0xff, 0xff, 0xff, 0x07]);

    bytes.clear();

    VarLong::new(9223372036854775807).write_to(&mut bytes);
    assert_eq!(
        bytes.as_ref(),
        &[0xff, 0xff, 0xff, 0xff, 0xff, 0xff, 0xff, 0xff, 0x7f]
    );

    bytes.clear();

    VarLong::new(-1).write_to(&mut bytes);
    assert_eq!(
        bytes.as_ref(),
        &[0xff, 0xff, 0xff, 0xff, 0xff, 0xff, 0xff, 0xff, 0xff, 0x01]
    );

    bytes.clear();

    VarLong::new(-2147483648).write_to(&mut bytes);
    assert_eq!(
        bytes.as_ref(),
        &[0x80, 0x80, 0x80, 0x80, 0xf8, 0xff, 0xff, 0xff, 0xff, 0x01]
    );

    bytes.clear();

    VarLong::new(-9223372036854775808).write_to(&mut bytes);
    assert_eq!(
        bytes.as_ref(),
        &[0x80, 0x80, 0x80, 0x80, 0x80, 0x80, 0x80, 0x80, 0x80, 0x01]
    );
}

#[test]
fn var_long_not_enough_bytes() {
    // Valid VarInts will end with a byte with a zero as MSB
    let mut bytes = BytesMut::with_capacity(1);
    bytes.extend_from_slice(&[0x80]);

    assert!(matches!(
        VarLong::read_from(&mut bytes),
        Err(DataTypeError::OutOfBytes(_))
    ));
}

#[test]
fn var_long_longer_than_ten() {
    // Valid VarInts never exceed five bytes, and the parser should fail
    // gracefully
    let mut bytes = BytesMut::with_capacity(6);
    bytes.extend_from_slice(&[
        0x80, 0x80, 0x80, 0x80, 0x80, 0x80, 0x80, 0x80, 0x80, 0x80, 0x00,
    ]);

    assert!(matches!(
        VarLong::read_from(&mut bytes),
        Err(DataTypeError::Malformed(_, _))
    ));
}

fn buffer(bytes: &[u8]) -> BytesMut {
    let mut b = BytesMut::new();
    b.extend_from_slice(bytes);
    b
}

#[test]
fn var_int_round_trip_and_length() {
    for v in [0, 1, -1, 127, 128, 300, 25565, i32::MAX, i32::MIN, -300] {
        let mut bytes = BytesMut::new();
        VarInt::new(v).write_to(&mut bytes);
        assert!(bytes.len() <= 5);
        assert_eq!(bytes.len(), VarInt::new(v).size());
        bytes.extend_from_slice(&[0xAB]);
        assert_eq!(VarInt::read_from(&mut bytes).unwrap().value(), v);
        assert_eq!(bytes.as_ref(), &[0xAB]);
    }
}

#[test]
fn var_long_round_trip_and_length() {
    for v in [0, 1, -1, 128, i64::MAX, i64::MIN, 1 << 40, -(1 << 40)] {
        let mut bytes = BytesMut::new();
        VarLong::new(v).write_to(&mut bytes);
        assert!(bytes.len() <= 10);
        assert_eq!(bytes.len(), VarLong::new(v).size());
        assert_eq!(VarLong::read_from(&mut bytes).unwrap().value(), v);
        assert!(bytes.is_empty());
    }
}

#[test]
fn var_int_negative_sizes_are_five() {
    assert_eq!(VarInt::new(-1).size(), 5);
    assert_eq!(VarInt::new(i32::MIN).size(), 5);
    assert_eq!(VarInt::new(0).size(), 1);
    assert_eq!(VarInt::new(128).size(), 2);
}

#[test]
fn var_int_five_continuation_bytes_is_malformed() {
    let mut bytes = buffer(&[0x80, 0x80, 0x80, 0x80, 0x80]);
    assert!(matches!(
        VarInt::read_from(&mut bytes),
        Err(DataTypeError::Malformed(_, _))
    ));
    let mut bytes = buffer(&[0x80, 0x80, 0x80, 0x80, 0x80]);
    assert!(matches!(
        VarInt::careful_read_from(&mut bytes),
        Err(DataTypeError::Malformed(_, _))
    ));
    assert_eq!(bytes.len(), 5);
}

#[test]
fn var_int_careful_read_consumes_on_success() {
    let mut bytes = buffer(&[0xDD, 0x01, 0x07]);
    assert_eq!(VarInt::careful_read_from(&mut bytes).unwrap().value(), 221);
    assert_eq!(bytes.as_ref(), &[0x07]);
}

#[test]
fn position_known_encoding() {
    let p = Position { x: 18357644, z: -20882616, y: 831 };
    let mut bytes = BytesMut::new();
    p.write_to(&mut bytes);
    assert_eq!(
        bytes.as_ref(),
        &0x4607_632C_15B4_833Fu64.to_be_bytes()
    );
    let back = Position::read_from(&mut bytes).unwrap();
    assert_eq!((back.x, back.z, back.y), (18357644, -20882616, 831));
}

#[test]
fn position_round_trip_extremes() {
    for (x, z, y) in [
        (-33554432, 33554431, -2048),
        (33554431, -33554432, 2047),
        (-1, -1, -1),
        (0, 0, 0),
    ] {
        let mut bytes = BytesMut::new();
        Position { x, z, y }.write_to(&mut bytes);
        assert_eq!(bytes.len(), 8);
        let back = Position::read_from(&mut bytes).unwrap();
        assert_eq!((back.x, back.z, back.y), (x, z, y));
    }
}

#[test]
fn position_short_is_out_of_bytes() {
    let mut bytes = buffer(&[1, 2, 3, 4, 5, 6, 7]);
    assert!(matches!(
        Position::read_from(&mut bytes),
        Err(DataTypeError::OutOfBytes(_))
    ));
}

#[test]
fn string_round_trip_with_multibyte_text() {
    let s = "héllo ☃".to_string();
    let mut bytes = BytesMut::new();
    s.clone().write_to(&mut bytes);
    assert_eq!(bytes[0] as usize, s.len());
    assert_eq!(bytes.len(), s.clone().size());
    let back = String::read_from_sized(&mut bytes, 32767).unwrap();
    assert_eq!(back, s);
    assert!(bytes.is_empty());
}

#[test]
fn string_at_cap_and_over_cap() {
    let mut bytes = buffer(&[5, b'N', b'o', b't', b'c', b'h']);
    assert_eq!(String::read_from_sized(&mut bytes, 5).unwrap(), "Notch");
    let mut bytes = buffer(&[5, b'N', b'o', b't', b'c', b'h']);
    assert!(matches!(
        String::read_from_sized(&mut bytes, 4),
        Err(DataTypeError::Malformed(_, _))
    ));
}

#[test]
fn string_errors() {
    let mut bytes = buffer(&[3, 0xff, 0xfe, 0xfd]);
    assert!(matches!(
        String::read_from_sized(&mut bytes, 16),
        Err(DataTypeError::Malformed(_, _))
    ));
    let mut bytes = buffer(&[4, b'a', b'b']);
    assert!(matches!(
        String::read_from_sized(&mut bytes, 16),
        Err(DataTypeError::OutOfBytes(_))
    ));
    let mut bytes = buffer(&[0x80]);
    let err = String::read_from_sized(&mut bytes, 16).unwrap_err();
    assert!(matches!(err, DataTypeError::OutOfBytes(_)));
    assert!(err.is_out_of_bytes());
    let mut bytes = buffer(&[0xff, 0xff, 0xff, 0xff, 0x0f]);
    assert!(matches!(
        String::read_from_sized(&mut bytes, 16),
        Err(DataTypeError::Malformed(_, _))
    ));
}

#[test]
fn chat_and_identifier_round_trip() {
    let mut bytes = BytesMut::new();
    Chat::new("{\"text\":\"hi\"}".to_string()).write_to(&mut bytes);
    Identifier::new("minecraft:overworld".to_string()).write_to(&mut bytes);
    assert_eq!(bytes[0], 13);
    assert!(Chat::read_from(&mut bytes).is_ok());
    let id = Identifier::read_from(&mut bytes);
    assert!(id.is_ok());
    assert!(bytes.is_empty());
}

#[test]
fn fixed_width_integers() {
    let mut bytes = BytesMut::new();
    true.write_to(&mut bytes);
    false.write_to(&mut bytes);
    (-2i8).write_to(&mut bytes);
    200u8.write_to(&mut bytes);
    (-2i16).write_to(&mut bytes);
    25565u16.write_to(&mut bytes);
    (-2i32).write_to(&mut bytes);
    (-2i64).write_to(&mut bytes);
    assert_eq!(
        bytes.as_ref(),
        &[
            0x01, 0x00, 0xfe, 0xc8, 0xff, 0xfe, 0x63, 0xdd, 0xff, 0xff, 0xff, 0xfe, 0xff, 0xff, 0xff, 0xff, 0xff,
            0xff, 0xff, 0xfe
        ]
    );
    assert!(bool::read_from(&mut bytes).unwrap());
    assert!(!bool::read_from(&mut bytes).unwrap());
    assert_eq!(i8::read_from(&mut bytes).unwrap(), -2);
    assert_eq!(u8::read_from(&mut bytes).unwrap(), 200);
    assert_eq!(i16::read_from(&mut bytes).unwrap(), -2);
    assert_eq!(u16::read_from(&mut bytes).unwrap(), 25565);
    assert_eq!(i32::read_from(&mut bytes).unwrap(), -2);
    assert_eq!(i64::read_from(&mut bytes).unwrap(), -2);
    assert!(bytes.is_empty());
}

#[test]
fn int_needs_four_bytes() {
    let mut bytes = buffer(&[0, 1]);
    assert!(matches!(
        i32::read_from(&mut bytes),
        Err(DataTypeError::OutOfBytes(_))
    ));
    let mut bytes = buffer(&[0, 1, 2, 3, 4, 5]);
    assert!(matches!(
        i64::read_from(&mut bytes),
        Err(DataTypeError::OutOfBytes(_))
    ));
}

#[test]
fn angle_and_uuid() {
    let mut bytes = BytesMut::new();
    Angle { steps: 64 }.write_to(&mut bytes);
    Uuid::from_u128(0x069a79f444e94726a5befca90e38aaf5).write_to(&mut bytes);
    assert_eq!(bytes.len(), 17);
    assert_eq!(bytes[1], 0x06);
    assert_eq!(bytes[16], 0xf5);
    assert_eq!(Angle::read_from(&mut bytes).unwrap().steps, 64);
    assert_eq!(
        Uuid::read_from(&mut bytes).unwrap().as_u128(),
        0x069a79f444e94726a5befca90e38aaf5
    );
}

#[test]
fn byte_arrays() {
    let mut bytes = BytesMut::new();
    vec![1u8, 2, 3].write_to(&mut bytes);
    assert_eq!(bytes.as_ref(), &[3, 1, 2, 3]);
    assert_eq!(vec![1u8, 2, 3].size(), 4);
    assert_eq!(Vec::<u8>::read_from_sized(&mut bytes, 128).unwrap(), vec![1, 2, 3]);

    let mut bytes = buffer(&[3, 1, 2, 3]);
    assert!(matches!(
        Vec::<u8>::read_from_sized(&mut bytes, 2),
        Err(DataTypeError::Malformed(_, _))
    ));
    let mut bytes = buffer(&[3, 1]);
    match Vec::<u8>::read_from_sized(&mut bytes, 128) {
        Err(DataTypeError::OutOfBytes(what)) => assert_eq!(what, "Array of Unsigned Byte"),
        other => panic!("expected running out of bytes, got {:?}", other),
    }
}

#[test]
fn identifier_arrays() {
    let mut bytes = BytesMut::new();
    let names = vec![
        Identifier::new("a:b".to_string()),
        Identifier::new("minecraft:overworld".to_string()),
    ];
    assert_eq!(names.size(), 1 + 4 + 20);
    names.write_to(&mut bytes);
    assert_eq!(bytes.len(), 25);
    let back = Vec::<Identifier>::read_from_sized(&mut bytes, 8).unwrap();
    assert_eq!(back.len(), 2);

    let mut bytes = buffer(&[1, 0x80]);
    let err = Vec::<Identifier>::read_from_sized(&mut bytes, 8).unwrap_err();
    assert!(matches!(err, DataTypeError::OutOfBytes(_)));
    let mut bytes = buffer(&[1, 2, 0xff, 0xff]);
    let err = Vec::<Identifier>::read_from_sized(&mut bytes, 8).unwrap_err();
    match err {
        DataTypeError::Context(cause, context) => {
            assert!(matches!(*cause, DataTypeError::Malformed(_, _)));
            assert_eq!(context, "Error parsing element of Array");
        },
        other => panic!("expected a context, got {:?}", other),
    }
}
