use data_rw::{Data, DataOwnedReader, DataReader, Shape, Value, Variant, VariantKind};

fn color_enum_shape() -> Shape {
    Shape::Choice(vec![
        Variant {
            name: "S".to_string(),
            kind: VariantKind::Fields(vec![Shape::U8, Shape::U8, Shape::U8]),
        },
        Variant {
            name: "P".to_string(),
            kind: VariantKind::Fields(vec![Shape::U8, Shape::U8, Shape::U8, Shape::U8]),
        },
    ])
}

fn mixed_enum_shape() -> Shape {
    Shape::Choice(vec![
        Variant {
            name: "T".to_string(),
            kind: VariantKind::Fields(vec![Shape::U8, Shape::U8]),
        },
        Variant {
            name: "U".to_string(),
            kind: VariantKind::Fields(vec![Shape::Str, Shape::U32, Shape::U32]),
        },
        Variant {
            name: "S".to_string(),
            kind: VariantKind::Fields(vec![Shape::Str, Shape::U32, Shape::U32]),
        },
    ])
}

#[test]
pub fn test_serde_ser() {
    {
        let mut data = Data::new();
        data.serde_serialize(&Value::Bool(true)).unwrap();
        data.serde_serialize(&Value::Bool(false)).unwrap();
        data.serde_serialize(&Value::I8(1)).unwrap();
        data.serde_serialize(&Value::U8(1)).unwrap();
        data.serde_serialize(&Value::I16(2)).unwrap();
        data.serde_serialize(&Value::U16(2)).unwrap();
        data.serde_serialize(&Value::I32(3)).unwrap();
        data.serde_serialize(&Value::U32(3)).unwrap();
        data.serde_serialize(&Value::I64(4)).unwrap();
        data.serde_serialize(&Value::U64(4)).unwrap();
        data.serde_serialize(&Value::F32Bits(6.0f32.to_bits())).unwrap();
        data.serde_serialize(&Value::F64Bits(7.0f64.to_bits())).unwrap();

        let mut rdata = DataReader::from(data.as_slice());
        assert_eq!(true, rdata.read_fixed::<bool>().unwrap());
        assert_eq!(false, rdata.read_fixed::<bool>().unwrap());
        assert_eq!(1, rdata.read_fixed::<i8>().unwrap());
        assert_eq!(1, rdata.read_fixed::<u8>().unwrap());
        assert_eq!(2, rdata.read_fixed::<i16>().unwrap());
        assert_eq!(2, rdata.read_fixed::<u16>().unwrap());
        assert_eq!(3, rdata.read_fixed::<i32>().unwrap());
        assert_eq!(3, rdata.read_fixed::<u32>().unwrap());
        assert_eq!(4, rdata.read_fixed::<i64>().unwrap());
        assert_eq!(4, rdata.read_fixed::<u64>().unwrap());
        assert_eq!(6.0f32, f32::from_bits(rdata.read_fixed::<u32>().unwrap()));
        assert_eq!(7.0f64, f64::from_bits(rdata.read_fixed::<u64>().unwrap()));

        let mut rdata = DataReader::from(data.as_slice());
        assert_eq!(Value::Bool(true), rdata.serde_deserialize(&Shape::Bool).unwrap());
        assert_eq!(Value::Bool(false), rdata.serde_deserialize(&Shape::Bool).unwrap());
        assert_eq!(Value::I8(1), rdata.serde_deserialize(&Shape::I8).unwrap());
        assert_eq!(Value::U8(1), rdata.serde_deserialize(&Shape::U8).unwrap());
        assert_eq!(Value::I16(2), rdata.serde_deserialize(&Shape::I16).unwrap());
        assert_eq!(Value::U16(2), rdata.serde_deserialize(&Shape::U16).unwrap());
        assert_eq!(Value::I32(3), rdata.serde_deserialize(&Shape::I32).unwrap());
        assert_eq!(Value::U32(3), rdata.serde_deserialize(&Shape::U32).unwrap());
        assert_eq!(Value::I64(4), rdata.serde_deserialize(&Shape::I64).unwrap());
        assert_eq!(Value::U64(4), rdata.serde_deserialize(&Shape::U64).unwrap());
        assert_eq!(
            Value::F32Bits(6.0f32.to_bits()),
            rdata.serde_deserialize(&Shape::F32Bits).unwrap()
        );
        assert_eq!(
            Value::F64Bits(7.0f64.to_bits()),
            rdata.serde_deserialize(&Shape::F64Bits).unwrap()
        );
    }

    {
        let mut data = Data::new();
        data.serde_serialize(&Value::Str("123123".to_string())).unwrap();
        data.serde_serialize(&Value::Str("123123".to_string())).unwrap();
        data.serde_serialize(&Value::Bytes(b"123123".to_vec())).unwrap();
        data.serde_serialize(&Value::Str("\u{4f60}".to_string())).unwrap();
        data.serde_serialize(&Value::Bytes("123123".as_bytes().to_vec())).unwrap();

        {
            let mut rdata = DataReader::from(data.as_slice());
            assert_eq!("123123", rdata.read_fixed_str().unwrap());
            assert_eq!("123123", rdata.read_fixed_str().unwrap());
            assert_eq!("123123".as_bytes(), rdata.read_fixed_buf().unwrap());
            assert_eq!("\u{4f60}", rdata.read_fixed_str().unwrap());
            assert_eq!("123123".as_bytes(), rdata.read_fixed_buf().unwrap().to_vec());
        }
        {
            let mut rdata = DataReader::from(data.as_slice());
            assert_eq!(
                Value::Str("123123".to_string()),
                rdata.serde_deserialize(&Shape::Str).unwrap()
            );
            assert_eq!(
                Value::Str("123123".to_string()),
                rdata.serde_deserialize(&Shape::Str).unwrap()
            );
            assert_eq!(
                Value::Bytes(b"123123".to_vec()),
                rdata.serde_deserialize(&Shape::Bytes).unwrap()
            );
            assert_eq!(
                Value::Str("\u{4f60}".to_string()),
                rdata.serde_deserialize(&Shape::Str).unwrap()
            );
            assert_eq!(
                Value::Bytes(b"123123".to_vec()),
                rdata.serde_deserialize(&Shape::Bytes).unwrap()
            );
        }
    }

    {
        let mut data = Data::new();
        let map = Value::Dict(vec![(Value::Str("123123".to_string()), Value::I32(1))]);
        data.serde_serialize(&map).unwrap();

        let map2 = Value::Dict(vec![(Value::Str("123123".to_string()), Value::I32(1))]);
        data.serde_serialize(&map2).unwrap();

        let map_shape = Shape::Dict(Box::new(Shape::Str), Box::new(Shape::I32));
        let mut rdata = DataReader::from(data.as_slice());
        assert_eq!(map, rdata.serde_deserialize(&map_shape).unwrap());
        assert_eq!(map2, rdata.serde_deserialize(&map_shape).unwrap());
    }
}

#[test]
pub fn test_serde_de() {
    {
        let mut data = Data::new();
        let x = Value::Opt(Some(Box::new(Value::I32(100))));
        data.serde_serialize(&x).unwrap();
        let x1 = Value::Opt(None);
        data.serde_serialize(&x1).unwrap();
        data.serde_serialize(&Value::Unit).unwrap();
        data.serde_serialize(&Value::Unit).unwrap();
        data.serde_serialize(&Value::U8(100)).unwrap();

        let opt_shape = Shape::Optional(Box::new(Shape::I32));
        let mut data = DataReader::from(data.as_slice());
        assert_eq!(x, data.serde_deserialize(&opt_shape).unwrap());
        assert_eq!(Value::Opt(None), data.serde_deserialize(&opt_shape).unwrap());
        assert_eq!(Value::Unit, data.serde_deserialize(&Shape::Unit).unwrap());
        assert_eq!(Value::Unit, data.serde_deserialize(&Shape::Unit).unwrap());
        assert_eq!(Value::U8(100), data.serde_deserialize(&Shape::U8).unwrap());
    }

    {
        let mut data = Data::new();
        let a1 = Value::List(vec![
            Value::I32(1),
            Value::I32(2),
            Value::Str("123".to_string()),
            Value::F32Bits(0.5f32.to_bits()),
        ]);
        data.serde_serialize(&a1).unwrap();

        let a2 = Value::List(vec![
            Value::I32(1),
            Value::I32(2),
            Value::Str("123".to_string()),
            Value::F32Bits(0.5f32.to_bits()),
        ]);
        data.serde_serialize(&a2).unwrap();

        let tuple_shape = Shape::Tuple(vec![Shape::I32, Shape::I32, Shape::Str, Shape::F32Bits]);
        let record_shape = Shape::Record(vec![Shape::I32, Shape::I32, Shape::Str, Shape::F32Bits]);
        let mut data = DataReader::from(data.as_slice());
        assert_eq!(a1, data.serde_deserialize(&tuple_shape).unwrap());
        assert_eq!(a2, data.serde_deserialize(&record_shape).unwrap());
    }
    {
        let mut data = Data::new();
        let map = Value::Dict(vec![
            (Value::Str("1".to_string()), Value::I32(1)),
            (Value::Str("2".to_string()), Value::I32(2)),
            (Value::Str("3".to_string()), Value::I32(3)),
        ]);
        data.serde_serialize(&map).unwrap();

        let bmap = Value::Dict(vec![
            (Value::Str("1".to_string()), Value::I32(1)),
            (Value::Str("2".to_string()), Value::I32(2)),
            (Value::Str("3".to_string()), Value::I32(3)),
        ]);
        data.serde_serialize(&bmap).unwrap();

        let map_shape = Shape::Dict(Box::new(Shape::Str), Box::new(Shape::I32));
        let mut data = DataReader::from(data.as_slice());
        assert_eq!(map, data.serde_deserialize(&map_shape).unwrap());
        assert_eq!(bmap, data.serde_deserialize(&map_shape).unwrap());
    }
    {
        let a = Value::List(vec![Value::U8(200), Value::U8(244), Value::U8(100)]);
        let rgb_shape = Shape::Record(vec![Shape::U8, Shape::U8, Shape::U8]);
        let mut data = Data::new();
        data.serde_serialize(&a).unwrap();

        let mut data = DataReader::from(data.as_slice());
        assert_eq!(a, data.serde_deserialize(&rgb_shape).unwrap());
    }
    {
        let e_shape = mixed_enum_shape();
        let mut xdata = Data::new();
        xdata
            .serde_serialize(&Value::EnumFields(
                "T".to_string(),
                vec![Value::U8(44), Value::U8(66)],
            ))
            .unwrap();
        xdata
            .serde_serialize(&Value::EnumFields(
                "U".to_string(),
                vec![Value::Str("123123".to_string()), Value::U32(44), Value::U32(66)],
            ))
            .unwrap();
        xdata
            .serde_serialize(&Value::EnumFields(
                "S".to_string(),
                vec![Value::Str("321321".to_string()), Value::U32(44), Value::U32(66)],
            ))
            .unwrap();

        let mut data = DataReader::from(xdata.as_slice());

        let b = data.serde_deserialize(&e_shape).unwrap();
        assert_eq!(
            Value::EnumFields("T".to_string(), vec![Value::U8(44), Value::U8(66)]),
            b
        );

        let b = data.serde_deserialize(&e_shape).unwrap();
        assert_eq!(
            Value::EnumFields(
                "U".to_string(),
                vec![Value::Str("123123".to_string()), Value::U32(44), Value::U32(66)]
            ),
            b
        );

        let b = data.serde_deserialize(&e_shape).unwrap();
        assert_eq!(
            Value::EnumFields(
                "S".to_string(),
                vec![Value::Str("321321".to_string()), Value::U32(44), Value::U32(66)]
            ),
            b
        );
    }
    {
        let mut data = Data::new();
        let e_shape = color_enum_shape();

        data.serde_serialize(&Value::EnumFields(
            "S".to_string(),
            vec![Value::U8(255), Value::U8(244), Value::U8(105)],
        ))
        .unwrap();
        data.serde_serialize(&Value::EnumFields(
            "P".to_string(),
            vec![Value::U8(255), Value::U8(244), Value::U8(105), Value::U8(11)],
        ))
        .unwrap();

        let mut data = DataReader::from(data.as_slice());

        let b = data.serde_deserialize(&e_shape).unwrap();
        assert_eq!(
            Value::EnumFields(
                "S".to_string(),
                vec![Value::U8(255), Value::U8(244), Value::U8(105)]
            ),
            b
        );
        let b = data.serde_deserialize(&e_shape).unwrap();
        assert_eq!(
            Value::EnumFields(
                "P".to_string(),
                vec![Value::U8(255), Value::U8(244), Value::U8(105), Value::U8(11)]
            ),
            b
        );
    }
    {
        let e_payload = Value::EnumFields(
            "P".to_string(),
            vec![Value::U8(1), Value::U8(2), Value::U8(3), Value::U8(4)],
        );
        let test = Value::List(vec![
            Value::Opt(Some(Box::new(e_payload))),
            Value::Str("test".to_string()),
            Value::F64Bits(0.555679f64.to_bits()),
            Value::List(vec![Value::I32(12), Value::F64Bits(0.555679f64.to_bits())]),
            Value::List(vec![
                Value::Bytes(vec![1, 2, 3, 4, 5]),
                Value::Bytes(vec![5, 4, 3, 2, 1]),
            ]),
        ]);
        let foo_shape = Shape::Record(vec![
            Shape::Optional(Box::new(color_enum_shape())),
            Shape::Str,
            Shape::F64Bits,
            Shape::Tuple(vec![Shape::I32, Shape::F64Bits]),
            Shape::List(Box::new(Shape::Bytes)),
        ]);

        let mut data = Data::new();
        data.serde_serialize(&test).unwrap();
        let mut data = DataReader::from(data.as_slice());
        assert_eq!(test, data.serde_deserialize(&foo_shape).unwrap())
    }
}

#[test]
pub fn test_owned_serde_ser() {
    {
        let mut data = Data::new();
        data.serde_serialize(&Value::Bool(true)).unwrap();
        data.serde_serialize(&Value::Bool(false)).unwrap();
        data.serde_serialize(&Value::I8(1)).unwrap();
        data.serde_serialize(&Value::U8(1)).unwrap();
        data.serde_serialize(&Value::I16(2)).unwrap();
        data.serde_serialize(&Value::U16(2)).unwrap();
        data.serde_serialize(&Value::I32(3)).unwrap();
        data.serde_serialize(&Value::U32(3)).unwrap();
        data.serde_serialize(&Value::I64(4)).unwrap();
        data.serde_serialize(&Value::U64(4)).unwrap();
        data.serde_serialize(&Value::F32Bits(6.0f32.to_bits())).unwrap();
        data.serde_serialize(&Value::F64Bits(7.0f64.to_bits())).unwrap();

        let mut rdata = DataOwnedReader::new(data.into_inner());

        assert_eq!(true, rdata.read_fixed::<bool>().unwrap());
        assert_eq!(false, rdata.read_fixed::<bool>().unwrap());
        assert_eq!(1, rdata.read_fixed::<i8>().unwrap());
        assert_eq!(1, rdata.read_fixed::<u8>().unwrap());
        assert_eq!(2, rdata.read_fixed::<i16>().unwrap());
        assert_eq!(2, rdata.read_fixed::<u16>().unwrap());
        assert_eq!(3, rdata.read_fixed::<i32>().unwrap());
        assert_eq!(3, rdata.read_fixed::<u32>().unwrap());
        assert_eq!(4, rdata.read_fixed::<i64>().unwrap());
        assert_eq!(4, rdata.read_fixed::<u64>().unwrap());
        assert_eq!(6.0f32, f32::from_bits(rdata.read_fixed::<u32>().unwrap()));
        assert_eq!(7.0f64, f64::from_bits(rdata.read_fixed::<u64>().unwrap()));

        rdata.set_offset(0).unwrap();

        assert_eq!(Value::Bool(true), rdata.serde_deserialize(&Shape::Bool).unwrap());
        assert_eq!(Value::Bool(false), rdata.serde_deserialize(&Shape::Bool).unwrap());
        assert_eq!(Value::I8(1), rdata.serde_deserialize(&Shape::I8).unwrap());
        assert_eq!(Value::U8(1), rdata.serde_deserialize(&Shape::U8).unwrap());
        assert_eq!(Value::I16(2), rdata.serde_deserialize(&Shape::I16).unwrap());
        assert_eq!(Value::U16(2), rdata.serde_deserialize(&Shape::U16).unwrap());
        assert_eq!(Value::I32(3), rdata.serde_deserialize(&Shape::I32).unwrap());
        assert_eq!(Value::U32(3), rdata.serde_deserialize(&Shape::U32).unwrap());
        assert_eq!(Value::I64(4), rdata.serde_deserialize(&Shape::I64).unwrap());
        assert_eq!(Value::U64(4), rdata.serde_deserialize(&Shape::U64).unwrap());
        assert_eq!(
            Value::F32Bits(6.0f32.to_bits()),
            rdata.serde_deserialize(&Shape::F32Bits).unwrap()
        );
        assert_eq!(
            Value::F64Bits(7.0f64.to_bits()),
            rdata.serde_deserialize(&Shape::F64Bits).unwrap()
        );
    }

    {
        let mut data = Data::new();
        data.serde_serialize(&Value::Str("123123".to_string())).unwrap();
        data.serde_serialize(&Value::Str("123123".to_string())).unwrap();
        data.serde_serialize(&Value::Bytes(b"123123".to_vec())).unwrap();
        data.serde_serialize(&Value::Str("\u{4f60}".to_string())).unwrap();
        data.serde_serialize(&Value::Bytes("123123".as_bytes().to_vec())).unwrap();

        {
            let mut rdata = DataOwnedReader::new(data.as_slice().to_vec());
            assert_eq!("123123", rdata.read_fixed_str().unwrap());
            assert_eq!("123123", rdata.read_fixed_str().unwrap());
            assert_eq!("123123".as_bytes(), rdata.read_fixed_buf().unwrap());
            assert_eq!("\u{4f60}", rdata.read_fixed_str().unwrap());
            assert_eq!("123123".as_bytes(), rdata.read_fixed_buf().unwrap().to_vec());
        }
        {
            let mut rdata = DataOwnedReader::new(data.into_inner());
            assert_eq!(
                Value::Str("123123".to_string()),
                rdata.serde_deserialize(&Shape::Str).unwrap()
            );
            assert_eq!(
                Value::Str("123123".to_string()),
                rdata.serde_deserialize(&Shape::Str).unwrap()
            );
            assert_eq!(
                Value::Bytes(b"123123".to_vec()),
                rdata.serde_deserialize(&Shape::Bytes).unwrap()
            );
            assert_eq!(
                Value::Str("\u{4f60}".to_string()),
                rdata.serde_deserialize(&Shape::Str).unwrap()
            );
            assert_eq!(
                Value::Bytes(b"123123".to_vec()),
                rdata.serde_deserialize(&Shape::Bytes).unwrap()
            );
        }
    }

    {
        let mut data = Data::new();
        let map = Value::Dict(vec![(Value::Str("123123".to_string()), Value::I32(1))]);
        data.serde_serialize(&map).unwrap();

        let map2 = Value::Dict(vec![(Value::Str("123123".to_string()), Value::I32(1))]);
        data.serde_serialize(&map2).unwrap();

        let map_shape = Shape::Dict(Box::new(Shape::Str), Box::new(Shape::I32));
        let mut rdata = DataOwnedReader::new(data.into_inner());
        assert_eq!(map, rdata.serde_deserialize(&map_shape).unwrap());
        assert_eq!(map2, rdata.serde_deserialize(&map_shape).unwrap());
    }
}

#[test]
pub fn test_owned_serde_de() {
    {
        let mut data = Data::new();
        let x = Value::Opt(Some(Box::new(Value::I32(100))));
        data.serde_serialize(&x).unwrap();
        let x1 = Value::Opt(None);
        data.serde_serialize(&x1).unwrap();
        data.serde_serialize(&Value::Unit).unwrap();
        data.serde_serialize(&Value::Unit).unwrap();
        data.serde_serialize(&Value::U8(100)).unwrap();

        let opt_shape = Shape::Optional(Box::new(Shape::I32));
        let mut data = DataOwnedReader::new(data.into_inner());
        assert_eq!(x, data.serde_deserialize(&opt_shape).unwrap());
        assert_eq!(Value::Opt(None), data.serde_deserialize(&opt_shape).unwrap());
        assert_eq!(Value::Unit, data.serde_deserialize(&Shape::Unit).unwrap());
        assert_eq!(Value::Unit, data.serde_deserialize(&Shape::Unit).unwrap());
        assert_eq!(Value::U8(100), data.serde_deserialize(&Shape::U8).unwrap());
    }

    {
        let mut data = Data::new();
        let a1 = Value::List(vec![
            Value::I32(1),
            Value::I32(2),
            Value::Str("123".to_string()),
            Value::F32Bits(0.5f32.to_bits()),
        ]);
        data.serde_serialize(&a1).unwrap();

        let a2 = Value::List(vec![
            Value::I32(1),
            Value::I32(2),
            Value::Str("123".to_string()),
            Value::F32Bits(0.5f32.to_bits()),
        ]);
        data.serde_serialize(&a2).unwrap();

        let tuple_shape = Shape::Tuple(vec![Shape::I32, Shape::I32, Shape::Str, Shape::F32Bits]);
        let record_shape = Shape::Record(vec![Shape::I32, Shape::I32, Shape::Str, Shape::F32Bits]);
        let mut data = DataOwnedReader::new(data.into_inner());
        assert_eq!(a1, data.serde_deserialize(&tuple_shape).unwrap());
        assert_eq!(a2, data.serde_deserialize(&record_shape).unwrap());
    }
    {
        let mut data = Data::new();
        let map = Value::Dict(vec![
            (Value::Str("1".to_string()), Value::I32(1)),
            (Value::Str("2".to_string()), Value::I32(2)),
            (Value::Str("3".to_string()), Value::I32(3)),
        ]);
        data.serde_serialize(&map).unwrap();

        let bmap = Value::Dict(vec![
            (Value::Str("1".to_string()), Value::I32(1)),
            (Value::Str("2".to_string()), Value::I32(2)),
            (Value::Str("3".to_string()), Value::I32(3)),
        ]);
        data.serde_serialize(&bmap).unwrap();

        let map_shape = Shape::Dict(Box::new(Shape::Str), Box::new(Shape::I32));
        let mut data = DataOwnedReader::new(data.into_inner());
        assert_eq!(map, data.serde_deserialize(&map_shape).unwrap());
        assert_eq!(bmap, data.serde_deserialize(&map_shape).unwrap());
    }
    {
        let a = Value::List(vec![Value::U8(200), Value::U8(244), Value::U8(100)]);
        let rgb_shape = Shape::Record(vec![Shape::U8, Shape::U8, Shape::U8]);
        let mut data = Data::new();
        data.serde_serialize(&a).unwrap();

        let mut data = DataOwnedReader::new(data.into_inner());
        assert_eq!(a, data.serde_deserialize(&rgb_shape).unwrap());
    }
    {
        let e_shape = mixed_enum_shape();
        let mut xdata = Data::new();
        xdata
            .serde_serialize(&Value::EnumFields(
                "T".to_string(),
                vec![Value::U8(44), Value::U8(66)],
            ))
            .unwrap();
        xdata
            .serde_serialize(&Value::EnumFields(
                "U".to_string(),
                vec![Value::Str("123123".to_string()), Value::U32(44), Value::U32(66)],
            ))
            .unwrap();
        xdata
            .serde_serialize(&Value::EnumFields(
                "S".to_string(),
                vec![Value::Str("321321".to_string()), Value::U32(44), Value::U32(66)],
            ))
            .unwrap();

        let mut data = DataOwnedReader::new(xdata.into_inner());

        let b = data.serde_deserialize(&e_shape).unwrap();
        assert_eq!(
            Value::EnumFields("T".to_string(), vec![Value::U8(44), Value::U8(66)]),
            b
        );

        let b = data.serde_deserialize(&e_shape).unwrap();
        assert_eq!(
            Value::EnumFields(
                "U".to_string(),
                vec![Value::Str("123123".to_string()), Value::U32(44), Value::U32(66)]
            ),
            b
        );

        let b = data.serde_deserialize(&e_shape).unwrap();
        assert_eq!(
            Value::EnumFields(
                "S".to_string(),
                vec![Value::Str("321321".to_string()), Value::U32(44), Value::U32(66)]
            ),
            b
        );
    }
    {
        let mut data = Data::new();
        let e_shape = color_enum_shape();

        data.serde_serialize(&Value::EnumFields(
            "S".to_string(),
            vec![Value::U8(255), Value::U8(244), Value::U8(105)],
        ))
        .unwrap();
        data.serde_serialize(&Value::EnumFields(
            "P".to_string(),
            vec![Value::U8(255), Value::U8(244), Value::U8(105), Value::U8(11)],
        ))
        .unwrap();

        let mut data = DataOwnedReader::new(data.into_inner());

        let b = data.serde_deserialize(&e_shape).unwrap();
        assert_eq!(
            Value::EnumFields(
                "S".to_string(),
                vec![Value::U8(255), Value::U8(244), Value::U8(105)]
            ),
            b
        );
        let b = data.serde_deserialize(&e_shape).unwrap();
        assert_eq!(
            Value::EnumFields(
                "P".to_string(),
                vec![Value::U8(255), Value::U8(244), Value::U8(105), Value::U8(11)]
            ),
            b
        );
    }
    {
        let e_payload = Value::EnumFields(
            "P".to_string(),
            vec![Value::U8(1), Value::U8(2), Value::U8(3), Value::U8(4)],
        );
        let test = Value::List(vec![
            Value::Opt(Some(Box::new(e_payload))),
            Value::Str("test".to_string()),
            Value::F64Bits(0.555679f64.to_bits()),
            Value::List(vec![Value::I32(12), Value::F64Bits(0.555679f64.to_bits())]),
            Value::List(vec![
                Value::Bytes(vec![1, 2, 3, 4, 5]),
                Value::Bytes(vec![5, 4, 3, 2, 1]),
            ]),
        ]);
        let foo_shape = Shape::Record(vec![
            Shape::Optional(Box::new(color_enum_shape())),
            Shape::Str,
            Shape::F64Bits,
            Shape::Tuple(vec![Shape::I32, Shape::F64Bits]),
            Shape::List(Box::new(Shape::Bytes)),
        ]);

        let mut data = Data::new();
        data.serde_serialize(&test).unwrap();

        let mut data = DataOwnedReader::new(data.into_inner());
        assert_eq!(test, data.serde_deserialize(&foo_shape).unwrap())
    }
}
