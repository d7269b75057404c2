use data_rw::{Data, DataOwnedReader, DataReader, Shape, Value};

#[test]
pub fn test_pack_serde() {
    {
        let mut data = Data::new();
        data.pack_serialize(&Value::I8(67), &Shape::I8).unwrap();
        data.pack_serialize(&Value::U8(66), &Shape::U8).unwrap();
        data.pack_serialize(&Value::I16(67), &Shape::I16).unwrap();
        data.pack_serialize(&Value::U16(66), &Shape::U16).unwrap();
        data.pack_serialize(&Value::I32(67), &Shape::I32).unwrap();
        data.pack_serialize(&Value::U32(66), &Shape::U32).unwrap();
        data.pack_serialize(&Value::I64(67), &Shape::I64).unwrap();
        data.pack_serialize(&Value::U64(66), &Shape::U64).unwrap();
        data.pack_serialize(&Value::F32Bits(66.1111f32.to_bits()), &Shape::F32Bits).unwrap();
        data.pack_serialize(&Value::F64Bits(66.11112222f64.to_bits()), &Shape::F64Bits).unwrap();

        let mut data = DataReader::from(data.as_slice());

        assert_eq!(data.pack_deserialize(&Shape::I8).unwrap(), Value::I8(67));
        assert_eq!(data.pack_deserialize(&Shape::U8).unwrap(), Value::U8(66));
        assert_eq!(data.pack_deserialize(&Shape::I16).unwrap(), Value::I16(67));
        assert_eq!(data.pack_deserialize(&Shape::U16).unwrap(), Value::U16(66));
        assert_eq!(data.pack_deserialize(&Shape::I32).unwrap(), Value::I32(67));
        assert_eq!(data.pack_deserialize(&Shape::U32).unwrap(), Value::U32(66));
        assert_eq!(data.pack_deserialize(&Shape::I64).unwrap(), Value::I64(67));
        assert_eq!(data.pack_deserialize(&Shape::U64).unwrap(), Value::U64(66));
        assert_eq!(
            data.pack_deserialize(&Shape::F32Bits).unwrap(),
            Value::F32Bits(66.1111f32.to_bits())
        );
        assert_eq!(
            data.pack_deserialize(&Shape::F64Bits).unwrap(),
            Value::F64Bits(66.11112222f64.to_bits())
        );
    }

    {
        let mut data = Data::new();

        data.pack_serialize(&Value::Str("123123".to_string()), &Shape::Str).unwrap();
        data.pack_serialize(
            &Value::Opt(Some(Box::new(Value::Str("123123".to_string())))),
            &Shape::Optional(Box::new(Shape::Str)),
        )
        .unwrap();
        data.pack_serialize(
            &Value::Opt(Some(Box::new(Value::F64Bits(66.11112222f64.to_bits())))),
            &Shape::Optional(Box::new(Shape::F64Bits)),
        )
        .unwrap();
        let test = Value::Bytes(vec![1u8, 2u8, 3u8]);
        data.pack_serialize(&test, &Shape::Bytes).unwrap();
        let test = Value::List(vec![
            Value::Bytes(vec![1u8, 2u8, 3u8]),
            Value::Bytes(vec![1u8, 2u8, 3u8]),
        ]);
        data.pack_serialize(&test, &Shape::List(Box::new(Shape::Bytes))).unwrap();

        let mut data = DataReader::from(data.as_slice());
        let v = data.pack_deserialize(&Shape::Str).unwrap();
        assert_eq!(v, Value::Str("123123".to_string()));
        let v = data.pack_deserialize(&Shape::Optional(Box::new(Shape::Str))).unwrap();
        assert_eq!(v, Value::Opt(Some(Box::new(Value::Str("123123".to_string())))));
        let v = data.pack_deserialize(&Shape::Optional(Box::new(Shape::F64Bits))).unwrap();
        assert_eq!(
            v,
            Value::Opt(Some(Box::new(Value::F64Bits(66.11112222f64.to_bits()))))
        );
        let test = data.pack_deserialize(&Shape::Bytes).unwrap();
        assert_eq!(test, Value::Bytes(vec![1u8, 2u8, 3u8]));
        let test = data.pack_deserialize(&Shape::List(Box::new(Shape::Bytes))).unwrap();
        assert_eq!(
            test,
            Value::List(vec![
                Value::Bytes(vec![1u8, 2u8, 3u8]),
                Value::Bytes(vec![1u8, 2u8, 3u8])
            ])
        );
    }
    {
        let mut data = Data::new();

        let test1 = Value::Dict(vec![(Value::I32(1), Value::I32(2))]);
        let test1_shape = Shape::Optional(Box::new(Shape::Dict(
            Box::new(Shape::I32),
            Box::new(Shape::I32),
        )));
        data.pack_serialize(&Value::Opt(Some(Box::new(test1))), &test1_shape).unwrap();

        let test2 = Value::List(vec![
            Value::I32(1),
            Value::I32(2),
            Value::I32(3),
            Value::Str("123123".to_string()),
        ]);
        let test2_shape = Shape::Tuple(vec![Shape::I32, Shape::I32, Shape::I32, Shape::Str]);
        data.pack_serialize(&test2, &test2_shape).unwrap();

        let test3 = Value::List(vec![
            Value::Str("123".to_string()),
            Value::Str("321".to_string()),
        ]);
        let logon_shape = Shape::Record(vec![Shape::Str, Shape::Str]);
        data.pack_serialize(&test3, &logon_shape).unwrap();

        let mut data = DataReader::from(data.as_slice());

        let test = data.pack_deserialize(&test1_shape).unwrap();
        assert_eq!(
            Value::Opt(Some(Box::new(Value::Dict(vec![(Value::I32(1), Value::I32(2))])))),
            test
        );

        let test = data.pack_deserialize(&test2_shape).unwrap();
        assert_eq!(test2, test);

        let test = data.pack_deserialize(&logon_shape).unwrap();
        assert_eq!(test3, test);
    }
}

#[test]
pub fn test_owned_pack_serde() {
    {
        let mut data = Data::new();
        data.pack_serialize(&Value::I8(67), &Shape::I8).unwrap();
        data.pack_serialize(&Value::U8(66), &Shape::U8).unwrap();
        data.pack_serialize(&Value::I16(67), &Shape::I16).unwrap();
        data.pack_serialize(&Value::U16(66), &Shape::U16).unwrap();
        data.pack_serialize(&Value::I32(67), &Shape::I32).unwrap();
        data.pack_serialize(&Value::U32(66), &Shape::U32).unwrap();
        data.pack_serialize(&Value::I64(67), &Shape::I64).unwrap();
        data.pack_serialize(&Value::U64(66), &Shape::U64).unwrap();
        data.pack_serialize(&Value::F32Bits(66.1111f32.to_bits()), &Shape::F32Bits).unwrap();
        data.pack_serialize(&Value::F64Bits(66.11112222f64.to_bits()), &Shape::F64Bits).unwrap();

        let mut data = DataOwnedReader::new(data.into_inner());

        assert_eq!(data.pack_deserialize(&Shape::I8).unwrap(), Value::I8(67));
        assert_eq!(data.pack_deserialize(&Shape::U8).unwrap(), Value::U8(66));
        assert_eq!(data.pack_deserialize(&Shape::I16).unwrap(), Value::I16(67));
        assert_eq!(data.pack_deserialize(&Shape::U16).unwrap(), Value::U16(66));
        assert_eq!(data.pack_deserialize(&Shape::I32).unwrap(), Value::I32(67));
        assert_eq!(data.pack_deserialize(&Shape::U32).unwrap(), Value::U32(66));
        assert_eq!(data.pack_deserialize(&Shape::I64).unwrap(), Value::I64(67));
        assert_eq!(data.pack_deserialize(&Shape::U64).unwrap(), Value::U64(66));
        assert_eq!(
            data.pack_deserialize(&Shape::F32Bits).unwrap(),
            Value::F32Bits(66.1111f32.to_bits())
        );
        assert_eq!(
            data.pack_deserialize(&Shape::F64Bits).unwrap(),
            Value::F64Bits(66.11112222f64.to_bits())
        );
    }

    {
        let mut data = Data::new();

        data.pack_serialize(&Value::Str("123123".to_string()), &Shape::Str).unwrap();
        data.pack_serialize(
            &Value::Opt(Some(Box::new(Value::Str("123123".to_string())))),
            &Shape::Optional(Box::new(Shape::Str)),
        )
        .unwrap();
        data.pack_serialize(
            &Value::Opt(Some(Box::new(Value::F64Bits(66.11112222f64.to_bits())))),
            &Shape::Optional(Box::new(Shape::F64Bits)),
        )
        .unwrap();
        let test = Value::Bytes(vec![1u8, 2u8, 3u8]);
        data.pack_serialize(&test, &Shape::Bytes).unwrap();
        let test = Value::List(vec![
            Value::Bytes(vec![1u8, 2u8, 3u8]),
            Value::Bytes(vec![1u8, 2u8, 3u8]),
        ]);
        data.pack_serialize(&test, &Shape::List(Box::new(Shape::Bytes))).unwrap();

        let mut data = DataOwnedReader::new(data.into_inner());
        let v = data.pack_deserialize(&Shape::Str).unwrap();
        assert_eq!(v, Value::Str("123123".to_string()));
        let v = data.pack_deserialize(&Shape::Optional(Box::new(Shape::Str))).unwrap();
        assert_eq!(v, Value::Opt(Some(Box::new(Value::Str("123123".to_string())))));
        let v = data.pack_deserialize(&Shape::Optional(Box::new(Shape::F64Bits))).unwrap();
        assert_eq!(
            v,
            Value::Opt(Some(Box::new(Value::F64Bits(66.11112222f64.to_bits()))))
        );
        let test = data.pack_deserialize(&Shape::Bytes).unwrap();
        assert_eq!(test, Value::Bytes(vec![1u8, 2u8, 3u8]));
        let test = data.pack_deserialize(&Shape::List(Box::new(Shape::Bytes))).unwrap();
        assert_eq!(
            test,
            Value::List(vec![
                Value::Bytes(vec![1u8, 2u8, 3u8]),
                Value::Bytes(vec![1u8, 2u8, 3u8])
            ])
        );
    }
    {
        let mut data = Data::new();

        let test1 = Value::Dict(vec![(Value::I32(1), Value::I32(2))]);
        let test1_shape = Shape::Optional(Box::new(Shape::Dict(
            Box::new(Shape::I32),
            Box::new(Shape::I32),
        )));
        data.pack_serialize(&Value::Opt(Some(Box::new(test1))), &test1_shape).unwrap();

        let test2 = Value::List(vec![
            Value::I32(1),
            Value::I32(2),
            Value::I32(3),
            Value::Str("123123".to_string()),
        ]);
        let test2_shape = Shape::Tuple(vec![Shape::I32, Shape::I32, Shape::I32, Shape::Str]);
        data.pack_serialize(&test2, &test2_shape).unwrap();

        let test3 = Value::List(vec![
            Value::Str("123".to_string()),
            Value::Str("321".to_string()),
        ]);
        let logon_shape = Shape::Record(vec![Shape::Str, Shape::Str]);
        data.pack_serialize(&test3, &logon_shape).unwrap();

        let mut data = DataOwnedReader::new(data.into_inner());

        let test = data.pack_deserialize(&test1_shape).unwrap();
        assert_eq!(
            Value::Opt(Some(Box::new(Value::Dict(vec![(Value::I32(1), Value::I32(2))])))),
            test
        );

        let test = data.pack_deserialize(&test2_shape).unwrap();
        assert_eq!(test2, test);

        let test = data.pack_deserialize(&logon_shape).unwrap();
        assert_eq!(test3, test);
    }
}
