use std::io::{Cursor, Read, Write};

use bunpack::{fmt_unpack, is_little_endian, pack, unpack, unpack_size, unpack_with, Value};

fn f32v(x: f32) -> Value {
    Value::F32(x.to_bits())
}

fn str_bytes(s: &str) -> Value {
    Value::Array(s.as_bytes().iter().map(|b| Value::U8(*b)).collect())
}

#[test]
fn test1() {
    let bytes: [u8; 4] = i32::to_le_bytes(12345678);
    let value = unpack("i", &bytes).unwrap();
    assert_eq!(value, vec![Value::I32(12345678)]);
}

#[test]
fn test2() {
    let values = vec![
        Value::I32(42),
        f32v(98_765.43),
        Value::Char('█'),
        Value::U64(0x1234567890abcdefu64),
    ];
    let bytes = pack("ifcQ", &values).unwrap();
    let value = unpack("ifcQ", &bytes).unwrap();
    assert_eq!(value, values);
    assert_eq!(f32::from_bits(match value[1] {
        Value::F32(b) => b,
        _ => 0,
    }), 98_765.43);
}

#[test]
fn test_str() {
    let str = "Hello, World!";
    let bytes = pack("<s", &[Value::Str(str.to_string())]).unwrap();
    let value = unpack("[B;13]", &bytes).unwrap();
    assert_eq!(value, vec![str_bytes(str)]);
}

#[test]
fn test_nested() {
    let mut outer = Vec::new();
    let mut x = 1.0f32;
    for _ in 0..3 {
        let mut middle = Vec::new();
        for _ in 0..3 {
            let mut inner = Vec::new();
            for _ in 0..3 {
                inner.push(f32v(x));
                x += 1.0;
            }
            middle.push(Value::Array(inner));
        }
        outer.push(Value::Array(middle));
    }
    let values = vec![Value::Array(outer)];
    let bytes = pack("<[[[f;3];3];3]", &values).unwrap();
    let unpacked = unpack("<[[[f;3];3];3]", &bytes).unwrap();
    assert_eq!(unpacked, values);
    assert_eq!(bytes.len(), 27 * 4);
    assert_eq!(&bytes[104..108], &27.0f32.to_le_bytes());
}

#[test]
fn test_nested2() {
    let values = vec![Value::Array(vec![
        Value::Tuple(vec![f32v(1.0), f32v(2.0), Value::Bool(true)]),
        Value::Tuple(vec![f32v(3.0), f32v(4.0), Value::Bool(false)]),
        Value::Tuple(vec![f32v(5.0), f32v(6.0), Value::Bool(true)]),
    ])];
    let bytes = pack("<[ff?;3]", &values).unwrap();
    let unpacked = unpack("<[ff?;3]", &bytes).unwrap();
    assert_eq!(unpacked, values);
}

#[test]
fn test_transmut() {
    let bytes = pack("<fff", &[f32v(1.0), f32v(2.0), f32v(3.0)]).unwrap();
    let unpacked = unpack("<[B;12]", &bytes).unwrap();
    let expected: Vec<u8> =
        [1.0_f32.to_le_bytes(), 2.0_f32.to_le_bytes(), 3.0_f32.to_le_bytes()].concat();
    assert_eq!(
        unpacked,
        vec![Value::Array(expected.iter().map(|b| Value::U8(*b)).collect())]
    );
}

#[test]
fn test_nested_combined() {
    let values = vec![Value::Array(vec![
        Value::Tuple(vec![Value::I32(1), f32v(1.0), Value::Char('🐈')]),
        Value::Tuple(vec![Value::I32(2), f32v(2.0), Value::Char('🐕')]),
        Value::Tuple(vec![Value::I32(3), f32v(3.0), Value::Char('🦅')]),
    ])];
    let bytes = pack("<[ifc; 3]", &values).unwrap();
    let unpacked = unpack("<[ifc; 3]", &bytes).unwrap();
    assert_eq!(unpacked, values);
}

#[test]
fn test_byte_slice() {
    let str = "Hello, World!";
    let bytes = pack("<p", &[Value::Bytes(str.as_bytes().to_vec())]).unwrap();
    let unpacked = unpack("[B;13]", &bytes).unwrap();
    assert_eq!(unpacked, vec![str_bytes(str)]);
}

#[test]
fn test_big_endian() {
    let bytes = pack(">H", &[Value::U16(0x1234)]).unwrap();
    let unpacked = unpack("<H", &bytes).unwrap();
    assert_eq!(unpacked, vec![Value::U16(0x3412)]);
}

#[test]
fn test_read_write() {
    let mut cursor = Cursor::new(Vec::new());
    let bytes = pack("<i?", &[Value::I32(42), Value::Bool(true)]).unwrap();
    cursor.write_all(&bytes).unwrap();

    assert_eq!(cursor.get_ref().as_slice(), &[42, 0, 0, 0, 1]);

    cursor.set_position(0);
    let format = fmt_unpack("<i?").unwrap();
    let size = unpack_size(&format).unwrap();
    let mut buf = vec![0u8; size];
    cursor.read_exact(&mut buf).unwrap();
    let value = unpack_with(&format, &buf, is_little_endian(format.order)).unwrap();
    assert_eq!(value, vec![Value::I32(42), Value::Bool(true)]);
}
