use data_rw::{
    compute_raw_varint32_size, compute_raw_varint64_size, Data, DataError, DataOwnedReader,
    DataReader, Shape, Value, Variant, VariantKind,
};

#[test]
fn fixed_sequence_consumes_exact_bytes() {
    let mut data = Data::new();
    data.write_fixed(&1u8);
    data.write_fixed(&2i16);
    data.write_fixed(&3i32);
    assert_eq!(data.len(), 7);

    let mut rd = DataReader::from(data.as_slice());
    assert_eq!(1, rd.read_fixed::<u8>().unwrap());
    assert_eq!(2, rd.read_fixed::<i16>().unwrap());
    assert_eq!(3, rd.read_fixed::<i32>().unwrap());
    assert_eq!(rd.offset(), 7);
    assert_eq!(rd.len(), 0);
}

#[test]
fn varint_and_zigzag_bytes() {
    let mut data = Data::new();
    data.write_var_integer(&123u32);
    assert_eq!(data.as_slice(), &[123]);

    let mut data = Data::new();
    data.write_var_integer(&-1i32);
    assert_eq!(data.as_slice(), &[1]);

    let mut data = Data::new();
    data.write_var_integer(&300u32);
    assert_eq!(data.as_slice(), &[0xac, 0x02]);

    let mut data = Data::new();
    data.write_var_integer(&-2i64);
    assert_eq!(data.as_slice(), &[3]);

    let mut rd = DataReader::from(&[0xac, 0x02][..]);
    assert_eq!(300u32, rd.read_var_integer::<u32>().unwrap());
}

#[test]
fn varint_sizes() {
    assert_eq!(compute_raw_varint64_size(0), 1);
    assert_eq!(compute_raw_varint64_size(127), 1);
    assert_eq!(compute_raw_varint64_size(128), 2);
    assert_eq!(compute_raw_varint64_size(16383), 2);
    assert_eq!(compute_raw_varint64_size(16384), 3);
    assert_eq!(compute_raw_varint64_size(u64::MAX), 10);
    assert_eq!(compute_raw_varint32_size(u32::MAX), 5);
}

#[test]
fn varint_rejects_overlong_and_truncated() {
    // Eleven continuation groups never fit the 64-bit group limit.
    let bad = [0x80u8, 0x80, 0x80, 0x80, 0x80, 0x80, 0x80, 0x80, 0x80, 0x80, 0x01];
    let mut rd = DataReader::from(&bad[..]);
    assert_eq!(
        rd.read_var_integer::<u64>().unwrap_err(),
        DataError::InvalidEncoding
    );

    // A continuation byte with nothing after it is truncated input.
    let cut = [0x80u8];
    let mut rd = DataReader::from(&cut[..]);
    assert_eq!(
        rd.read_var_integer::<u64>().unwrap_err(),
        DataError::UnexpectedEnd
    );

    // A varint too large for the 16-bit target is a hard failure.
    let big = [0x80u8, 0x80, 0x04];
    let mut rd = DataReader::from(&big[..]);
    assert_eq!(
        rd.read_var_integer::<u16>().unwrap_err(),
        DataError::InvalidEncoding
    );

    // Each target has its own group limit: a fourth continuation
    // group is over-long for 16 bits even when the value is zero, and
    // a sixth is over-long for 32 bits.
    let five_zero = [0x80u8, 0x80, 0x80, 0x80, 0x00];
    let mut rd = DataReader::from(&five_zero[..]);
    assert_eq!(
        rd.read_var_integer::<u16>().unwrap_err(),
        DataError::InvalidEncoding
    );
    assert_eq!(rd.offset(), 0);
    let mut rd = DataReader::from(&five_zero[..]);
    assert_eq!(0u32, rd.read_var_integer::<u32>().unwrap());
    assert_eq!(rd.offset(), 5);
    let six_zero = [0x80u8, 0x80, 0x80, 0x80, 0x80, 0x00];
    let mut rd = DataReader::from(&six_zero[..]);
    assert_eq!(
        rd.read_var_integer::<u32>().unwrap_err(),
        DataError::InvalidEncoding
    );
    let mut rd = DataReader::from(&six_zero[..]);
    assert_eq!(0u64, rd.read_var_integer::<u64>().unwrap());
}

#[test]
fn buffer_rollback_restores_state() {
    let mut data = Data::new();
    data.write_buf(&[9, 8, 7]);
    let checkpoint = data.len();
    let before = data.as_slice().to_vec();

    data.write_fixed(&0xdeadbeefu32);
    data.write_var_integer("junk to roll back");
    assert!(data.len() > checkpoint);

    data.truncate(checkpoint);
    assert_eq!(data.as_slice(), &before[..]);
    assert_eq!(data.len(), checkpoint);
}

#[test]
fn record_has_no_field_name_bytes() {
    let logon = Value::List(vec![
        Value::Str("123".to_string()),
        Value::Str("321".to_string()),
    ]);
    let shape = Shape::Record(vec![Shape::Str, Shape::Str]);
    let mut data = Data::new();
    data.pack_serialize(&logon, &shape).unwrap();

    // Two fields, then each string framed: no field names anywhere.
    let expected = [
        2u8, 0, 0, 0, 3, 0, 0, 0, b'1', b'2', b'3', 3, 0, 0, 0, b'3', b'2', b'1',
    ];
    assert_eq!(data.as_slice(), &expected[..]);

    let mut rd = DataReader::from(data.as_slice());
    assert_eq!(logon, rd.pack_deserialize(&shape).unwrap());
}

#[test]
fn enum_round_trip_and_unknown_variant() {
    let shape = Shape::Choice(vec![
        Variant {
            name: "S".to_string(),
            kind: VariantKind::Fields(vec![Shape::U8, Shape::U8, Shape::U8]),
        },
        Variant {
            name: "P".to_string(),
            kind: VariantKind::Fields(vec![Shape::U8, Shape::U8, Shape::U8, Shape::U8]),
        },
    ]);

    let s = Value::EnumFields(
        "S".to_string(),
        vec![Value::U8(1), Value::U8(2), Value::U8(3)],
    );
    let p = Value::EnumFields(
        "P".to_string(),
        vec![Value::U8(1), Value::U8(2), Value::U8(3), Value::U8(4)],
    );
    let mut data = Data::new();
    data.serde_serialize(&s).unwrap();
    data.serde_serialize(&p).unwrap();
    let mut rd = DataReader::from(data.as_slice());
    assert_eq!(s, rd.serde_deserialize(&shape).unwrap());
    assert_eq!(p, rd.serde_deserialize(&shape).unwrap());

    // A variant name outside the known set is a hard decode failure.
    let mut data = Data::new();
    data.serde_serialize(&Value::EnumUnit("Q".to_string())).unwrap();
    let mut rd = DataReader::from(data.as_slice());
    assert_eq!(
        rd.serde_deserialize(&shape).unwrap_err(),
        DataError::InvalidEncoding
    );
}

#[test]
fn pack_dense_path_has_no_frame() {
    let v = Value::List(vec![
        Value::Bool(true),
        Value::Str("abc".to_string()),
        Value::I32(-7),
        Value::Opt(Some(Box::new(Value::Str("x".to_string())))),
    ]);
    let shape = Shape::Tuple(vec![
        Shape::Bool,
        Shape::Str,
        Shape::I32,
        Shape::Optional(Box::new(Shape::Str)),
    ]);

    let mut dense = Data::new();
    dense.serde_serialize(&v).unwrap();

    let packed = Data::pack_from(&v, &shape).unwrap();
    // The dense path was taken: the packed bytes are the bare dense
    // encoding, with no length prefix in front.
    assert_eq!(packed.as_slice(), dense.as_slice());

    let mut rd = DataReader::from(packed.as_slice());
    assert_eq!(v, rd.pack_deserialize(&shape).unwrap());
    assert_eq!(rd.len(), 0);
}

#[test]
fn pack_fallback_path_is_framed_messagepack() {
    // A unit marker in the shape forces the self-describing fallback.
    let v = Value::List(vec![Value::U16(300), Value::Unit]);
    let shape = Shape::Tuple(vec![Shape::U16, Shape::Unit]);

    let packed = Data::pack_from(&v, &shape).unwrap();
    // Frame: 4-byte length, then MessagePack: a two-element array
    // header, the compact 16-bit integer 300, and nil.
    let expected = [5u8, 0, 0, 0, 0x92, 0xcd, 0x01, 0x2c, 0xc0];
    assert_eq!(packed.as_slice(), &expected[..]);

    let mut rd = DataReader::from(packed.as_slice());
    assert_eq!(v, rd.pack_deserialize(&shape).unwrap());
    assert_eq!(rd.len(), 0);
}

#[test]
fn pack_fallback_handles_nested_values() {
    let v = Value::Dict(vec![
        (
            Value::Str("k".to_string()),
            Value::List(vec![Value::I64(-5), Value::Unit]),
        ),
    ]);
    let shape = Shape::Dict(
        Box::new(Shape::Str),
        Box::new(Shape::Tuple(vec![Shape::I64, Shape::Unit])),
    );
    let packed = Data::pack_from(&v, &shape).unwrap();
    // The fallback frame starts with its length prefix.
    assert!(packed.len() > 4);
    let mut rd = DataReader::from(packed.as_slice());
    assert_eq!(v, rd.pack_deserialize(&shape).unwrap());

    // The owned reader decodes the same frame.
    let mut ord = DataOwnedReader::new(packed.into_inner());
    assert_eq!(v, ord.pack_deserialize(&shape).unwrap());
}

#[test]
fn fallback_enum_and_float_bits() {
    let v = Value::List(vec![
        Value::EnumUnit("On".to_string()),
        Value::EnumFields("Rgb".to_string(), vec![Value::U8(9), Value::U8(8)]),
        Value::F32Bits(1.5f32.to_bits()),
        Value::F64Bits(2.5f64.to_bits()),
        Value::Unit,
        Value::Bool(true),
        Value::Bytes(vec![1, 2, 3]),
    ]);
    fn choice() -> Shape {
        Shape::Choice(vec![
            Variant { name: "On".to_string(), kind: VariantKind::Unit },
            Variant {
                name: "Rgb".to_string(),
                kind: VariantKind::Fields(vec![Shape::U8, Shape::U8]),
            },
        ])
    }
    let shape = Shape::Tuple(vec![
        choice(),
        choice(),
        Shape::F32Bits,
        Shape::F64Bits,
        Shape::Unit,
        Shape::Bool,
        Shape::Bytes,
    ]);
    let packed = Data::pack_from(&v, &shape).unwrap();
    let mut rd = DataReader::from(packed.as_slice());
    assert_eq!(v, rd.pack_deserialize(&shape).unwrap());
}

#[test]
fn open_ended_target_always_fails_dense() {
    let mut data = Data::new();
    data.serde_serialize(&Value::U8(1)).unwrap();
    let mut rd = DataReader::from(data.as_slice());
    assert_eq!(
        rd.serde_deserialize(&Shape::Any).unwrap_err(),
        DataError::ShapeUnsupported
    );
    // An optional of an open-ended target still packs while absent.
    let shape = Shape::Optional(Box::new(Shape::Any));
    let packed = Data::pack_from(&Value::Opt(None), &shape).unwrap();
    let mut rd = DataReader::from(packed.as_slice());
    assert_eq!(Value::Opt(None), rd.pack_deserialize(&shape).unwrap());
}

#[test]
fn decode_errors_by_class() {
    // Too few bytes for a fixed read.
    let mut rd = DataReader::from(&[1u8][..]);
    assert_eq!(rd.read_fixed::<u32>().unwrap_err(), DataError::UnexpectedEnd);

    // A length prefix pointing past the input.
    let mut rd = DataReader::from(&[9u8, 0, 0, 0, 1][..]);
    assert_eq!(rd.read_fixed_buf().unwrap_err(), DataError::OutOfBounds);

    // Invalid UTF-8 under strict checking.
    let mut rd = DataReader::from(&[1u8, 0, 0, 0, 0xff][..]);
    assert_eq!(rd.read_fixed_str().unwrap_err(), DataError::InvalidEncoding);

    // A corrupt unit tag.
    let mut rd = DataReader::from(&[0u8][..]);
    assert_eq!(
        rd.serde_deserialize(&Shape::Unit).unwrap_err(),
        DataError::InvalidEncoding
    );

    // A patch past the appended region.
    let mut data = Data::new();
    data.write_buf(&[1, 2]);
    assert_eq!(
        data.write_buf_at(1, &[1, 2, 3]).unwrap_err(),
        DataError::OutOfBounds
    );
}

#[test]
fn buffer_cursor_and_lifecycle() {
    let mut data = Data::with_len(3, 7);
    assert_eq!(data.as_slice(), &[7, 7, 7]);
    assert_eq!(data.position(), 0);
    assert!(data.set_position(3).is_ok());
    assert_eq!(data.position(), 3);
    assert_eq!(data.set_position(4).unwrap_err(), DataError::OutOfBounds);
    assert_eq!(data.position(), 3);

    data.truncate(1);
    assert_eq!(data.position(), 1);
    assert_eq!(data.len(), 1);

    data.reset();
    assert_eq!(data.len(), 0);
    assert_eq!(data.position(), 0);

    let mut data = Data::with_capacity(2);
    data.write_buf(&[1, 2, 3]);
    let len = data.check_reserve(100);
    assert_eq!(len, 3);
    assert_eq!(data.as_slice(), &[1, 2, 3]);
    data.clear();
    assert_eq!(data.len(), 0);

    let v: Vec<u8> = data.into_inner();
    assert!(v.is_empty());
}

#[test]
fn owned_reader_offsets() {
    let mut data = Data::new();
    data.write_fixed(&7u8);
    data.write_fixed("hey");
    let mut ord = DataOwnedReader::new(data.into_inner());
    assert_eq!(7, ord.read_fixed::<u8>().unwrap());
    assert_eq!(ord.get_offset(), 1);
    assert_eq!("hey", ord.read_fixed_str().unwrap());
    assert_eq!(ord.get_offset(), 8);
    assert_eq!(ord.sub_offset(7).unwrap(), 1);
    assert_eq!(ord.add_offset(4).unwrap(), 5);
    assert_eq!(ord.add_offset(100).unwrap_err(), DataError::OutOfBounds);
    assert_eq!(ord.sub_offset(100).unwrap_err(), DataError::OutOfBounds);
    assert!(ord.set_offset(0).is_ok());
    let rd = ord.get_all_reader();
    assert_eq!(rd.len(), 8);
    let buf = ord.read_buff(1).unwrap();
    assert_eq!(buf, vec![7]);
    let back: Vec<u8> = ord.into_inner();
    assert_eq!(back.len(), 8);
}

#[test]
fn reader_advance_and_reload() {
    let bytes = [1u8, 2, 3, 4];
    let mut rd = DataReader::from(&bytes[..]);
    assert!(rd.advance(2).is_ok());
    assert_eq!(rd.offset(), 2);
    assert_eq!(rd.advance(5).unwrap_err(), DataError::UnexpectedEnd);
    let other = [9u8, 9];
    rd.reload(&other[..], 2);
    assert_eq!(rd.offset(), 0);
    assert_eq!(2, rd.read_buff(2).unwrap().len());
}

#[test]
fn access_constructs_walk_collections() {
    // A list decoded element by element through the sequence-access
    // construct: exhaustion is reported by count, not by buffer size.
    let v = Value::List(vec![Value::U16(1), Value::U16(2), Value::U16(3)]);
    let mut data = Data::new();
    data.serde_serialize(&v).unwrap();
    data.write_fixed(&0xffu8); // trailing byte the count must ignore

    let mut rd = DataReader::from(data.as_slice());
    let mut sa = data_rw::SeqAssess::new(&mut rd).unwrap();
    let mut got = Vec::new();
    while let Some(x) = sa.next_element(&mut rd, &Shape::U16).unwrap() {
        got.push(x);
    }
    assert_eq!(
        got,
        vec![Value::U16(1), Value::U16(2), Value::U16(3)]
    );
    assert_eq!(rd.len(), 1);

    // A map walked through the pair-access construct.
    let m = Value::Dict(vec![
        (Value::U8(1), Value::Bool(true)),
        (Value::U8(2), Value::Bool(false)),
    ]);
    let mut data = Data::new();
    data.serde_serialize(&m).unwrap();
    let mut rd = DataReader::from(data.as_slice());
    let mut ma = data_rw::MapAccess::new(&mut rd).unwrap();
    let mut pairs = Vec::new();
    while let Some(k) = ma.next_key(&mut rd, &Shape::U8).unwrap() {
        let val = ma.next_value(&mut rd, &Shape::Bool).unwrap();
        pairs.push((k, val));
    }
    assert_eq!(
        pairs,
        vec![
            (Value::U8(1), Value::Bool(true)),
            (Value::U8(2), Value::Bool(false))
        ]
    );

    // The variant-access construct reads the name off the wire.
    let mut data = Data::new();
    data.serde_serialize(&Value::EnumUnit("On".to_string())).unwrap();
    let mut rd = DataReader::from(data.as_slice());
    let va = data_rw::VariantAccess::new(&mut rd).unwrap();
    assert_eq!(va.name, "On");

    // Errors carry a short description.
    assert!(!DataError::UnexpectedEnd.message().is_empty());
    assert!(!DataError::ShapeUnsupported.message().is_empty());
}
