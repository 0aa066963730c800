use bunpack::{
    fmt_pack, fmt_unpack, is_little_endian, native_is_little_endian, pack, pack_with, parse_format,
    unpack, unpack_size, unpack_with, ByteOrder, FmtType, FormatError, Mode, Pack, PackError, Prim,
    Unpack, UnpackError, Value,
};

#[test]
fn format_orders() {
    assert_eq!(fmt_pack("<i").unwrap().order, ByteOrder::Little);
    assert_eq!(fmt_pack(">i").unwrap().order, ByteOrder::Big);
    assert_eq!(fmt_pack("@i").unwrap().order, ByteOrder::Native);
    assert_eq!(fmt_pack("i").unwrap().order, ByteOrder::Little);
}

#[test]
fn format_types_and_whitespace() {
    let f = fmt_unpack("< i [ B ; 2 ] \t?\n").unwrap();
    assert_eq!(
        f.types,
        vec![
            FmtType::Prim(Prim::I32),
            FmtType::Array(vec![FmtType::Prim(Prim::U8)], 2),
            FmtType::Prim(Prim::Bool),
        ]
    );
    let g = fmt_pack("[[sp;1]P;007]").unwrap();
    assert_eq!(
        g.types,
        vec![FmtType::Array(
            vec![
                FmtType::Array(vec![FmtType::Prim(Prim::Str), FmtType::Prim(Prim::Bytes)], 1),
                FmtType::Prim(Prim::Ptr)
            ],
            7
        )]
    );
}

#[test]
fn format_every_letter() {
    let f = fmt_unpack("cbB?hHiIqQoOnNfdP").unwrap();
    let expected = [
        Prim::Char, Prim::I8, Prim::U8, Prim::Bool, Prim::I16, Prim::U16, Prim::I32, Prim::U32,
        Prim::I64, Prim::U64, Prim::I128, Prim::U128, Prim::Isize, Prim::Usize, Prim::F32,
        Prim::F64, Prim::Ptr,
    ];
    assert_eq!(
        f.types,
        expected.iter().map(|p| FmtType::Prim(*p)).collect::<Vec<_>>()
    );
}

#[test]
fn format_invalid() {
    for bad in ["", "<", " <i", "x", "i x", "[i;]", "[i 3]", "[;3]", "[i;3", "<<i", "i;", "ié"] {
        assert_eq!(fmt_pack(bad), Err(FormatError::Invalid), "{bad:?}");
    }
    assert_eq!(fmt_unpack("s"), Err(FormatError::Invalid));
    assert_eq!(fmt_unpack("[p;2]"), Err(FormatError::Invalid));
    assert!(fmt_pack("s").is_ok());
}

#[test]
fn format_count_too_large() {
    assert_eq!(
        fmt_unpack("[i;99999999999999999999999]"),
        Err(FormatError::CountTooLarge)
    );
    assert_eq!(
        parse_format("[i;18446744073709551616]", Mode::Pack),
        Err(FormatError::CountTooLarge)
    );
    assert_eq!(
        fmt_unpack("[B;18446744073709551615]").unwrap().types,
        vec![FmtType::Array(vec![FmtType::Prim(Prim::U8)], 18446744073709551615)]
    );
}

#[test]
fn pack_little_and_big() {
    assert_eq!(pack("<I", &[Value::U32(0x01020304)]).unwrap(), vec![4, 3, 2, 1]);
    assert_eq!(pack(">I", &[Value::U32(0x01020304)]).unwrap(), vec![1, 2, 3, 4]);
    assert_eq!(pack("<h", &[Value::I16(-2)]).unwrap(), vec![0xfe, 0xff]);
    assert_eq!(pack(">q", &[Value::I64(-1)]).unwrap(), vec![0xff; 8]);
    assert_eq!(
        pack(">o", &[Value::I128(1)]).unwrap(),
        [vec![0u8; 15], vec![1u8]].concat()
    );
    assert_eq!(pack("?c", &[Value::Bool(false), Value::Char('A')]).unwrap(), vec![0, 65, 0, 0, 0]);
}

#[test]
fn pack_native() {
    let bytes = pack("@I", &[Value::U32(0x01020304)]).unwrap();
    assert_eq!(bytes, 0x01020304u32.to_ne_bytes().to_vec());
    assert_eq!(native_is_little_endian(), u16::from_ne_bytes([1, 0]) == 1);
    assert_eq!(is_little_endian(ByteOrder::Native), native_is_little_endian());
    assert!(is_little_endian(ByteOrder::Little));
    assert!(!is_little_endian(ByteOrder::Big));
}

#[test]
fn pack_sizes_native_width() {
    let bytes = pack("<nNP", &[Value::Isize(-1), Value::Usize(5), Value::Ptr(6)]).unwrap();
    let w = std::mem::size_of::<usize>();
    assert_eq!(bytes.len(), 3 * w);
    assert_eq!(&bytes[..w], &(-1isize).to_le_bytes());
    assert_eq!(
        unpack("<nNP", &bytes).unwrap(),
        vec![Value::Isize(-1), Value::Usize(5), Value::Ptr(6)]
    );
}

#[test]
fn pack_errors() {
    assert_eq!(pack("i", &[]), Err(PackError::ArgumentCount));
    assert_eq!(pack("i", &[Value::I32(1), Value::I32(2)]), Err(PackError::ArgumentCount));
    assert_eq!(pack("i", &[Value::U32(1)]), Err(PackError::TypeMismatch));
    assert_eq!(
        pack("[i;2]", &[Value::Array(vec![Value::I32(1)])]),
        Err(PackError::TypeMismatch)
    );
    assert_eq!(
        pack("[iB;1]", &[Value::Array(vec![Value::Tuple(vec![Value::I32(1), Value::I8(1)])])]),
        Err(PackError::TypeMismatch)
    );
    assert_eq!(pack("x", &[]), Err(PackError::Format(FormatError::Invalid)));
}

#[test]
fn pack_str_and_bytes() {
    let bytes = pack(
        "sp",
        &[Value::Str("hé".to_string()), Value::Bytes(vec![1, 2])],
    )
    .unwrap();
    assert_eq!(bytes, vec![0x68, 0xc3, 0xa9, 1, 2]);
}

#[test]
fn unpack_errors() {
    assert_eq!(unpack("i", &[1, 2, 3]), Err(UnpackError::NotEnoughBytes));
    assert_eq!(unpack("?", &[2]), Err(UnpackError::InvalidBool));
    assert_eq!(unpack("<c", &[0x00, 0xd8, 0, 0]), Err(UnpackError::InvalidChar));
    assert_eq!(unpack("<c", &[0x00, 0x00, 0x11, 0]), Err(UnpackError::InvalidChar));
    assert_eq!(unpack("s", &[1]), Err(UnpackError::Format(FormatError::Invalid)));
    let f = fmt_pack("s").unwrap();
    assert_eq!(unpack_with(&f, &[1], true), Err(UnpackError::NotUnpackable));
    assert_eq!(unpack("[B;2]B?", &[1, 2, 3, 7]), Err(UnpackError::InvalidBool));
    assert_eq!(unpack("[B;2]B?", &[1, 2]), Err(UnpackError::NotEnoughBytes));
}

#[test]
fn unpack_ignores_trailing_bytes() {
    assert_eq!(unpack(">H", &[1, 2, 3, 4]).unwrap(), vec![Value::U16(0x0102)]);
}

#[test]
fn unpack_single_type_groups_are_not_tuples() {
    let v = unpack("[[B;2];2]", &[1, 2, 3, 4]).unwrap();
    assert_eq!(
        v,
        vec![Value::Array(vec![
            Value::Array(vec![Value::U8(1), Value::U8(2)]),
            Value::Array(vec![Value::U8(3), Value::U8(4)]),
        ])]
    );
    let w = unpack("[B?;1]", &[9, 1]).unwrap();
    assert_eq!(
        w,
        vec![Value::Array(vec![Value::Tuple(vec![Value::U8(9), Value::Bool(true)])])]
    );
}

#[test]
fn roundtrip_every_type() {
    let values = vec![
        Value::Char('é'),
        Value::I8(-5),
        Value::U8(250),
        Value::Bool(true),
        Value::I16(-300),
        Value::U16(65000),
        Value::I32(i32::MIN),
        Value::U32(u32::MAX),
        Value::I64(-1234567890123),
        Value::U64(1 << 63),
        Value::I128(i128::MIN + 7),
        Value::U128(u128::MAX - 7),
        Value::Isize(isize::MIN),
        Value::Usize(usize::MAX),
        Value::F32((-0.5f32).to_bits()),
        Value::F64(std::f64::consts::PI.to_bits()),
        Value::Ptr(0xdead),
    ];
    for fmt in ["<cbB?hHiIqQoOnNfdP", ">cbB?hHiIqQoOnNfdP", "@cbB?hHiIqQoOnNfdP"] {
        let bytes = pack(fmt, &values).unwrap();
        let f = fmt_unpack(fmt).unwrap();
        assert_eq!(Some(bytes.len()), unpack_size(&f));
        let mut data = bytes.clone();
        data.extend_from_slice(&[9, 9, 9]);
        assert_eq!(unpack(fmt, &data).unwrap(), values);
        assert_eq!(pack(fmt, &unpack(fmt, &data).unwrap()).unwrap(), bytes);
    }
}

#[test]
fn big_endian_is_reversed_little_endian() {
    let le = pack("<Q", &[Value::U64(0x0102030405060708)]).unwrap();
    let mut be = pack(">Q", &[Value::U64(0x0102030405060708)]).unwrap();
    be.reverse();
    assert_eq!(le, be);
}

#[test]
fn unpack_size_values() {
    assert_eq!(unpack_size(&fmt_unpack("<[ifc; 3]").unwrap()), Some(36));
    assert_eq!(unpack_size(&fmt_unpack("[[B;0];5]").unwrap()), Some(0));
    assert_eq!(unpack_size(&fmt_unpack("[Q;18446744073709551615]").unwrap()), None);
    assert_eq!(unpack_size(&fmt_unpack("[[Q;4294967296];4294967296]").unwrap()), None);
}

#[test]
fn pack_with_order() {
    let f = fmt_unpack("H").unwrap();
    assert_eq!(pack_with(&f, &[Value::U16(0x0102)], false).unwrap(), vec![1, 2]);
    assert_eq!(pack_with(&f, &[Value::U16(0x0102)], true).unwrap(), vec![2, 1]);
    assert_eq!(unpack_with(&f, &[1, 2], false).unwrap(), vec![Value::U16(0x0102)]);
}

#[test]
fn trait_pack_unpack() {
    let mut buf = Vec::new();
    0x1234u16.pack_le(&mut buf);
    0x1234u16.pack_be(&mut buf);
    (-1i8).pack_le(&mut buf);
    true.pack_be(&mut buf);
    'é'.pack_be(&mut buf);
    "ab".pack_le(&mut buf);
    (&[7u8, 8][..]).pack_be(&mut buf);
    assert_eq!(buf, vec![0x34, 0x12, 0x12, 0x34, 0xff, 1, 0, 0, 0, 0xe9, 0x61, 0x62, 7, 8]);

    let mut data: &[u8] = &buf;
    assert_eq!(u16::unpack_le(&mut data), 0x1234);
    assert_eq!(u16::unpack_be(&mut data), 0x1234);
    assert_eq!(i8::unpack_be(&mut data), -1);
    assert_eq!(bool::unpack_le(&mut data), true);
    assert_eq!(char::unpack_be(&mut data), 'é');
    assert_eq!(data, &[0x61, 0x62, 7, 8]);
    assert_eq!(u32::unpack_le(&mut data), 0x08076261);
    assert!(data.is_empty());
}

#[test]
fn trait_wide_integers() {
    let mut buf = Vec::new();
    (-2i128).pack_le(&mut buf);
    u128::MAX.pack_be(&mut buf);
    usize::MAX.pack_le(&mut buf);
    (-3isize).pack_be(&mut buf);
    0x0102030405060708u64.pack_be(&mut buf);
    (-4i64).pack_le(&mut buf);
    (-5i32).pack_be(&mut buf);
    (-6i16).pack_le(&mut buf);
    let mut data: &[u8] = &buf;
    assert_eq!(i128::unpack_le(&mut data), -2);
    assert_eq!(u128::unpack_be(&mut data), u128::MAX);
    assert_eq!(usize::unpack_le(&mut data), usize::MAX);
    assert_eq!(isize::unpack_be(&mut data), -3);
    assert_eq!(u64::unpack_be(&mut data), 0x0102030405060708);
    assert_eq!(i64::unpack_le(&mut data), -4);
    assert_eq!(i32::unpack_be(&mut data), -5);
    assert_eq!(i16::unpack_le(&mut data), -6);
    assert!(data.is_empty());
}

#[test]
fn trait_arrays_and_tuples() {
    let mut buf = Vec::new();
    [1u16, 2, 3].pack_be(&mut buf);
    (7u8, true, 'x').pack_le(&mut buf);
    [(1i32, false), (2, true)].pack_le(&mut buf);
    [[1u8, 2], [3, 4]].pack_be(&mut buf);
    assert_eq!(
        buf,
        vec![0, 1, 0, 2, 0, 3, 7, 1, 0x78, 0, 0, 0, 1, 0, 0, 0, 0, 2, 0, 0, 0, 1, 1, 2, 3, 4]
    );
    let mut data: &[u8] = &buf;
    assert_eq!(<[u16; 3]>::unpack_be(&mut data), [1, 2, 3]);
    assert_eq!(<(u8, bool, char)>::unpack_le(&mut data), (7, true, 'x'));
    assert_eq!(<[(i32, bool); 2]>::unpack_le(&mut data), [(1, false), (2, true)]);
    assert_eq!(<[[u8; 2]; 2]>::unpack_be(&mut data), [[1, 2], [3, 4]]);
    assert!(data.is_empty());
}

#[test]
fn trait_tuple_of_sixteen() {
    let t: (u8, u8, u8, u8, u8, u8, u8, u8, u8, u8, u8, u8, u8, u8, u16, (u8,)) = (1u8, 2u8, 3u8, 4u8, 5u8, 6u8, 7u8, 8u8, 9u8, 10u8, 11u8, 12u8, 13u8, 14u8, 15u16, (16u8,));
    let mut buf = Vec::new();
    t.pack_be(&mut buf);
    assert_eq!(buf, vec![1, 2, 3, 4, 5, 6, 7, 8, 9, 10, 11, 12, 13, 14, 0, 15, 16]);
    let mut data: &[u8] = &buf;
    type T16 = (u8, u8, u8, u8, u8, u8, u8, u8, u8, u8, u8, u8, u8, u8, u16, (u8,));
    let u = <T16>::unpack_be(&mut data);
    assert_eq!((u.0, u.1, u.2, u.3, u.4, u.5, u.6, u.7), (1, 2, 3, 4, 5, 6, 7, 8));
    assert_eq!((u.8, u.9, u.10, u.11, u.12, u.13, u.14, u.15), (9, 10, 11, 12, 13, 14, 15, (16,)));
    assert!(data.is_empty());
}

#[test]
fn trait_empty_array() {
    let mut buf = Vec::new();
    <[u32; 0]>::pack_le([], &mut buf);
    assert!(buf.is_empty());
    let mut data: &[u8] = &[5];
    assert_eq!(<[u32; 0]>::unpack_le(&mut data), []);
    assert_eq!(data, &[5]);
}
