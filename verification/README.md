# bunpack

Packing values into bytes and unpacking them again with format strings in
the style of Python's `struct` module, verified with Verus.

```text
<[ifc; 3]    three (i32, f32 bits, char) tuples, little-endian
>H           one u16, big-endian
@nP          an isize and a pointer address, in the machine's byte order
```

## Layout

- `src/format.rs`: the format-string grammar, as spec functions over bytes,
  and the parser proved to follow it.
- `src/codec.rs`: little- and big-endian integer bytes.
- `src/traits.rs`, `src/tuples.rs`: the `Pack` and `Unpack` traits and their
  impls for integers, `bool`, `char`, string and byte slices, arrays and
  tuples of up to sixteen members.
- `src/value.rs`: `Value`, and what a format makes of values and of bytes.
- `src/pack.rs`, `src/unpack.rs`: `pack`/`unpack` by format string, and
  `pack_with`/`unpack_with` by parsed format and byte order.
- `src/size.rs`: how many bytes a format takes.
- `src/native.rs`: the machine's byte order.
- `src/laws.rs`: unpacking what was packed gives the values back, packing
  what was unpacked gives the bytes back, sizes, and that a format string
  without `s` or `p` means the same to both directions.
- `app/lib.rs`: `pack_write` and `unpack_read` over `std::io`, and `f32`/`f64`
  conversions to the bit patterns `Value` holds.

Floating-point values travel as their IEEE 754 bit patterns
(`Value::F32(u32)`, `Value::F64(u64)`).
