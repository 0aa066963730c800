//! What holds of packing and unpacking together.
use crate::codec::{
    from_bytes, int_bytes, lemma_bytes_inverse, lemma_bytes_roundtrip, lemma_from_bytes_bound,
    lemma_int_bytes_len, lemma_pow256_values, pow256,
};
use crate::format::{
    lemma_item_bounds, lemma_items_from_rest, lemma_skip_ws, prim_of, skip_ws, spec_format,
    spec_item, spec_items_rest, Mode, Prim, Step, Ty,
};
use crate::native::order_is_little;
use crate::pack::{pack_result, PackError};
use crate::size::{scalar_size, ty_size, tys_size};
use crate::traits::{packed, roundtrips, unpacked};
use crate::unpack::unpack_result;
use crate::value::{
    decode, decode_all, decode_elems, decode_scalar, elem_of, elem_parts, encode, encode_all,
    encode_elems, fits, fits_all, fits_elems, scalar_bytes, scalar_fits, unpackable,
    unpackable_all, vals_view, UnpackError, Val, Value,
};
use vstd::layout::size_of;
use vstd::utf8::{encode_utf8, is_scalar};
use vstd::prelude::*;

verus! {

broadcast use vstd::layout::layout_of_primitives, vstd::utf8::char_is_scalar, vstd::utf8::char_u32_cast;

/// The first `n` bytes of an integer's encoding followed by anything read
/// back as the integer.
proof fn lemma_uint_prefix(v: nat, n: nat, little_endian: bool, rest: Seq<u8>)
    requires
        v < pow256(n),
    ensures
        int_bytes(v, n, little_endian).len() == n,
        (int_bytes(v, n, little_endian) + rest).len() >= n,
        (int_bytes(v, n, little_endian) + rest).take(n as int) == int_bytes(v, n, little_endian),
        from_bytes((int_bytes(v, n, little_endian) + rest).take(n as int), little_endian) == v,
{
    lemma_int_bytes_len(v, n, little_endian);
    assert((int_bytes(v, n, little_endian) + rest).take(n as int) =~= int_bytes(
        v,
        n,
        little_endian,
    ));
    lemma_bytes_roundtrip(v, n, little_endian);
}

/// The native word is four or eight bytes wide, and every `usize` fits in it.
proof fn lemma_usize_fits(x: usize)
    ensures
        size_of::<usize>() == 4 || size_of::<usize>() == 8,
        (x as nat) < pow256(size_of::<usize>()),
{
    lemma_pow256_values();
    assert(usize::BITS == 32 || usize::BITS == 64);
    if usize::BITS == 32 {
        assert(x <= 0xffff_ffff);
    }
}

/// Unpacking a scalar that was packed gives it back, whatever follows it.
pub proof fn lemma_scalar_roundtrip(p: Prim, v: Val, little_endian: bool, rest: Seq<u8>)
    requires
        scalar_fits(p, v),
        p != Prim::Str && p != Prim::Bytes,
    ensures
        decode_scalar(p, scalar_bytes(v, little_endian) + rest, little_endian) == Ok::<
            (Val, nat),
            UnpackError,
        >((v, scalar_bytes(v, little_endian).len())),
{
    lemma_pow256_values();
    let le = little_endian;
    match v {
        Val::Char(c) => {
            lemma_uint_prefix(c as u32 as nat, 4, le, rest);
        },
        Val::I8(x) => {
            lemma_uint_prefix(x as u8 as nat, 1, le, rest);
            assert((x as u8) as i8 == x) by (bit_vector);
        },
        Val::U8(x) => {
            lemma_uint_prefix(x as nat, 1, le, rest);
        },
        Val::Bool(b) => {
            assert((seq![if b { 1u8 } else { 0u8 }] + rest)[0] == if b { 1u8 } else { 0u8 });
        },
        Val::I16(x) => {
            lemma_uint_prefix(x as u16 as nat, 2, le, rest);
            assert((x as u16) as i16 == x) by (bit_vector);
        },
        Val::U16(x) => {
            lemma_uint_prefix(x as nat, 2, le, rest);
        },
        Val::I32(x) => {
            lemma_uint_prefix(x as u32 as nat, 4, le, rest);
            assert((x as u32) as i32 == x) by (bit_vector);
        },
        Val::U32(x) => {
            lemma_uint_prefix(x as nat, 4, le, rest);
        },
        Val::I64(x) => {
            lemma_uint_prefix(x as u64 as nat, 8, le, rest);
            assert((x as u64) as i64 == x) by (bit_vector);
        },
        Val::U64(x) => {
            lemma_uint_prefix(x as nat, 8, le, rest);
        },
        Val::I128(x) => {
            lemma_uint_prefix(x as u128 as nat, 16, le, rest);
            assert((x as u128) as i128 == x) by (bit_vector);
        },
        Val::U128(x) => {
            lemma_uint_prefix(x as nat, 16, le, rest);
        },
        Val::Isize(x) => {
            lemma_usize_fits(x as usize);
            lemma_uint_prefix(x as usize as nat, size_of::<usize>(), le, rest);
            assert((x as usize) as isize == x) by (bit_vector);
        },
        Val::Usize(x) => {
            lemma_usize_fits(x);
            lemma_uint_prefix(x as nat, size_of::<usize>(), le, rest);
        },
        Val::F32(x) => {
            lemma_uint_prefix(x as nat, 4, le, rest);
        },
        Val::F64(x) => {
            lemma_uint_prefix(x as nat, 8, le, rest);
        },
        Val::Ptr(x) => {
            lemma_usize_fits(x);
            lemma_uint_prefix(x as nat, size_of::<usize>(), le, rest);
        },
        _ => {},
    }
}

/// What each scalar specifier packs and unpacks, over all values and byte
/// strings, in terms of the bytes of numbers alone: a fixed-width value is
/// the bytes of its two's-complement (or IEEE 754 bit) pattern at its
/// width, least significant first under `<` and most significant first
/// under `>`, and is read back from the first bytes of its width the same
/// way; `?` is the byte `1` or `0`; `c` is the scalar value's four bytes;
/// `s` and `p` are the string's UTF-8 bytes and the byte slice as they are,
/// whatever the byte order.
pub proof fn lemma_scalar_encodings()
    ensures
        forall|x: i8, le: bool|
            #[trigger] scalar_bytes(Val::I8(x), le) == int_bytes(x as u8 as nat, 1, le),
        forall|d: Seq<u8>, le: bool|
            #[trigger] decode_scalar(Prim::I8, d, le) == if d.len() >= 1 {
                Ok::<(Val, nat), UnpackError>(
                    (Val::I8(((from_bytes(d.take(1 as int), le)) as u8) as i8), 1 as nat),
                )
            } else {
                Err::<(Val, nat), UnpackError>(UnpackError::NotEnoughBytes)
            },
        forall|x: u8, le: bool|
            #[trigger] scalar_bytes(Val::U8(x), le) == int_bytes(x as nat, 1, le),
        forall|d: Seq<u8>, le: bool|
            #[trigger] decode_scalar(Prim::U8, d, le) == if d.len() >= 1 {
                Ok::<(Val, nat), UnpackError>(
                    (Val::U8((from_bytes(d.take(1 as int), le)) as u8), 1 as nat),
                )
            } else {
                Err::<(Val, nat), UnpackError>(UnpackError::NotEnoughBytes)
            },
        forall|x: i16, le: bool|
            #[trigger] scalar_bytes(Val::I16(x), le) == int_bytes(x as u16 as nat, 2, le),
        forall|d: Seq<u8>, le: bool|
            #[trigger] decode_scalar(Prim::I16, d, le) == if d.len() >= 2 {
                Ok::<(Val, nat), UnpackError>(
                    (Val::I16(((from_bytes(d.take(2 as int), le)) as u16) as i16), 2 as nat),
                )
            } else {
                Err::<(Val, nat), UnpackError>(UnpackError::NotEnoughBytes)
            },
        forall|x: u16, le: bool|
            #[trigger] scalar_bytes(Val::U16(x), le) == int_bytes(x as nat, 2, le),
        forall|d: Seq<u8>, le: bool|
            #[trigger] decode_scalar(Prim::U16, d, le) == if d.len() >= 2 {
                Ok::<(Val, nat), UnpackError>(
                    (Val::U16((from_bytes(d.take(2 as int), le)) as u16), 2 as nat),
                )
            } else {
                Err::<(Val, nat), UnpackError>(UnpackError::NotEnoughBytes)
            },
        forall|x: i32, le: bool|
            #[trigger] scalar_bytes(Val::I32(x), le) == int_bytes(x as u32 as nat, 4, le),
        forall|d: Seq<u8>, le: bool|
            #[trigger] decode_scalar(Prim::I32, d, le) == if d.len() >= 4 {
                Ok::<(Val, nat), UnpackError>(
                    (Val::I32(((from_bytes(d.take(4 as int), le)) as u32) as i32), 4 as nat),
                )
            } else {
                Err::<(Val, nat), UnpackError>(UnpackError::NotEnoughBytes)
            },
        forall|x: u32, le: bool|
            #[trigger] scalar_bytes(Val::U32(x), le) == int_bytes(x as nat, 4, le),
        forall|d: Seq<u8>, le: bool|
            #[trigger] decode_scalar(Prim::U32, d, le) == if d.len() >= 4 {
                Ok::<(Val, nat), UnpackError>(
                    (Val::U32((from_bytes(d.take(4 as int), le)) as u32), 4 as nat),
                )
            } else {
                Err::<(Val, nat), UnpackError>(UnpackError::NotEnoughBytes)
            },
        forall|x: i64, le: bool|
            #[trigger] scalar_bytes(Val::I64(x), le) == int_bytes(x as u64 as nat, 8, le),
        forall|d: Seq<u8>, le: bool|
            #[trigger] decode_scalar(Prim::I64, d, le) == if d.len() >= 8 {
                Ok::<(Val, nat), UnpackError>(
                    (Val::I64(((from_bytes(d.take(8 as int), le)) as u64) as i64), 8 as nat),
                )
            } else {
                Err::<(Val, nat), UnpackError>(UnpackError::NotEnoughBytes)
            },
        forall|x: u64, le: bool|
            #[trigger] scalar_bytes(Val::U64(x), le) == int_bytes(x as nat, 8, le),
        forall|d: Seq<u8>, le: bool|
            #[trigger] decode_scalar(Prim::U64, d, le) == if d.len() >= 8 {
                Ok::<(Val, nat), UnpackError>(
                    (Val::U64((from_bytes(d.take(8 as int), le)) as u64), 8 as nat),
                )
            } else {
                Err::<(Val, nat), UnpackError>(UnpackError::NotEnoughBytes)
            },
        forall|x: i128, le: bool|
            #[trigger] scalar_bytes(Val::I128(x), le) == int_bytes(x as u128 as nat, 16, le),
        forall|d: Seq<u8>, le: bool|
            #[trigger] decode_scalar(Prim::I128, d, le) == if d.len() >= 16 {
                Ok::<(Val, nat), UnpackError>(
                    (Val::I128(((from_bytes(d.take(16 as int), le)) as u128) as i128), 16 as nat),
                )
            } else {
                Err::<(Val, nat), UnpackError>(UnpackError::NotEnoughBytes)
            },
        forall|x: u128, le: bool|
            #[trigger] scalar_bytes(Val::U128(x), le) == int_bytes(x as nat, 16, le),
        forall|d: Seq<u8>, le: bool|
            #[trigger] decode_scalar(Prim::U128, d, le) == if d.len() >= 16 {
                Ok::<(Val, nat), UnpackError>(
                    (Val::U128((from_bytes(d.take(16 as int), le)) as u128), 16 as nat),
                )
            } else {
                Err::<(Val, nat), UnpackError>(UnpackError::NotEnoughBytes)
            },
        forall|x: isize, le: bool|
            #[trigger] scalar_bytes(Val::Isize(x), le) == int_bytes(x as usize as nat, size_of::<usize>(), le),
        forall|d: Seq<u8>, le: bool|
            #[trigger] decode_scalar(Prim::Isize, d, le) == if d.len() >= size_of::<usize>() {
                Ok::<(Val, nat), UnpackError>(
                    (Val::Isize(((from_bytes(d.take(size_of::<usize>() as int), le)) as usize) as isize), size_of::<usize>() as nat),
                )
            } else {
                Err::<(Val, nat), UnpackError>(UnpackError::NotEnoughBytes)
            },
        forall|x: usize, le: bool|
            #[trigger] scalar_bytes(Val::Usize(x), le) == int_bytes(x as nat, size_of::<usize>(), le),
        forall|d: Seq<u8>, le: bool|
            #[trigger] decode_scalar(Prim::Usize, d, le) == if d.len() >= size_of::<usize>() {
                Ok::<(Val, nat), UnpackError>(
                    (Val::Usize((from_bytes(d.take(size_of::<usize>() as int), le)) as usize), size_of::<usize>() as nat),
                )
            } else {
                Err::<(Val, nat), UnpackError>(UnpackError::NotEnoughBytes)
            },
        forall|x: u32, le: bool|
            #[trigger] scalar_bytes(Val::F32(x), le) == int_bytes(x as nat, 4, le),
        forall|d: Seq<u8>, le: bool|
            #[trigger] decode_scalar(Prim::F32, d, le) == if d.len() >= 4 {
                Ok::<(Val, nat), UnpackError>(
                    (Val::F32((from_bytes(d.take(4 as int), le)) as u32), 4 as nat),
                )
            } else {
                Err::<(Val, nat), UnpackError>(UnpackError::NotEnoughBytes)
            },
        forall|x: u64, le: bool|
            #[trigger] scalar_bytes(Val::F64(x), le) == int_bytes(x as nat, 8, le),
        forall|d: Seq<u8>, le: bool|
            #[trigger] decode_scalar(Prim::F64, d, le) == if d.len() >= 8 {
                Ok::<(Val, nat), UnpackError>(
                    (Val::F64((from_bytes(d.take(8 as int), le)) as u64), 8 as nat),
                )
            } else {
                Err::<(Val, nat), UnpackError>(UnpackError::NotEnoughBytes)
            },
        forall|x: usize, le: bool|
            #[trigger] scalar_bytes(Val::Ptr(x), le) == int_bytes(x as nat, size_of::<usize>(), le),
        forall|d: Seq<u8>, le: bool|
            #[trigger] decode_scalar(Prim::Ptr, d, le) == if d.len() >= size_of::<usize>() {
                Ok::<(Val, nat), UnpackError>(
                    (Val::Ptr((from_bytes(d.take(size_of::<usize>() as int), le)) as usize), size_of::<usize>() as nat),
                )
            } else {
                Err::<(Val, nat), UnpackError>(UnpackError::NotEnoughBytes)
            },
        forall|b: bool, le: bool|
            #[trigger] scalar_bytes(Val::Bool(b), le) == seq![if b { 1u8 } else { 0u8 }],
        forall|d: Seq<u8>, le: bool|
            #[trigger] decode_scalar(Prim::Bool, d, le) == if d.len() < 1 {
                Err::<(Val, nat), UnpackError>(UnpackError::NotEnoughBytes)
            } else if d[0] > 1 {
                Err::<(Val, nat), UnpackError>(UnpackError::InvalidBool)
            } else {
                Ok::<(Val, nat), UnpackError>((Val::Bool(d[0] == 1), 1nat))
            },
        forall|c: char, le: bool|
            #[trigger] scalar_bytes(Val::Char(c), le) == int_bytes(c as u32 as nat, 4, le),
        forall|d: Seq<u8>, le: bool|
            #[trigger] decode_scalar(Prim::Char, d, le) == if d.len() < 4 {
                Err::<(Val, nat), UnpackError>(UnpackError::NotEnoughBytes)
            } else if !is_scalar(from_bytes(d.take(4), le) as u32) {
                Err::<(Val, nat), UnpackError>(UnpackError::InvalidChar)
            } else {
                Ok::<(Val, nat), UnpackError>(
                    (Val::Char(from_bytes(d.take(4), le) as u32 as char), 4nat),
                )
            },
        forall|cs: Seq<char>, le: bool| #[trigger] scalar_bytes(Val::Str(cs), le) == encode_utf8(cs),
        forall|b: Seq<u8>, le: bool| #[trigger] scalar_bytes(Val::Bytes(b), le) == b,
{
}

/// Values of a run of types pack one after the other, in order: packing
/// two runs is packing the first, then the second, and a run of one value
/// packs as that value.
pub proof fn lemma_encode_all_in_order(
    tys: Seq<Ty>,
    vs: Seq<Val>,
    tys2: Seq<Ty>,
    vs2: Seq<Val>,
    little_endian: bool,
)
    requires
        tys.len() == vs.len(),
        tys2.len() == vs2.len(),
    ensures
        encode_all(tys + tys2, vs + vs2, little_endian) == encode_all(tys, vs, little_endian)
            + encode_all(tys2, vs2, little_endian),
        forall|t: Ty, v: Val| #[trigger] encode_all(seq![t], seq![v], little_endian) == encode(t, v, little_endian),
    decreases tys2.len(),
{
    let le = little_endian;
    assert forall|t: Ty, v: Val| #[trigger] encode_all(seq![t], seq![v], le) == encode(t, v, le) by {
        assert(seq![t].drop_last() =~= Seq::<Ty>::empty());
        assert(seq![v].drop_last() =~= Seq::<Val>::empty());
        assert(encode_all(Seq::<Ty>::empty(), Seq::<Val>::empty(), le) + encode(t, v, le) =~= encode(t, v, le));
    }
    if tys2.len() == 0 {
        assert(tys + tys2 =~= tys);
        assert(vs + vs2 =~= vs);
        assert(encode_all(tys, vs, le) + encode_all(tys2, vs2, le) =~= encode_all(tys, vs, le));
    } else {
        lemma_encode_all_in_order(tys, vs, tys2.drop_last(), vs2.drop_last(), le);
        assert((tys + tys2).drop_last() =~= tys + tys2.drop_last());
        assert((vs + vs2).drop_last() =~= vs + vs2.drop_last());
        assert((tys + tys2)[(tys + tys2).len() - 1] == tys2[tys2.len() - 1]);
        assert((vs + vs2).last() == vs2.last());
        assert(encode_all(tys + tys2, vs + vs2, le) =~= encode_all(tys, vs, le) + encode_all(
            tys2,
            vs2,
            le,
        ));
    }
}

/// Array elements pack one after the other, in order: packing two runs of
/// elements is packing the first, then the second.
pub proof fn lemma_encode_elems_in_order(
    tys: Seq<Ty>,
    es: Seq<Val>,
    es2: Seq<Val>,
    little_endian: bool,
)
    ensures
        encode_elems(tys, es + es2, little_endian) == encode_elems(tys, es, little_endian)
            + encode_elems(tys, es2, little_endian),
    decreases es2.len(),
{
    let le = little_endian;
    if es2.len() == 0 {
        assert(es + es2 =~= es);
        assert(encode_elems(tys, es, le) + encode_elems(tys, es2, le) =~= encode_elems(tys, es, le));
    } else {
        lemma_encode_elems_in_order(tys, es, es2.drop_last(), le);
        assert((es + es2).drop_last() =~= es + es2.drop_last());
        assert((es + es2).last() == es2.last());
        assert(encode_elems(tys, es + es2, le) =~= encode_elems(tys, es, le) + encode_elems(
            tys,
            es2,
            le,
        ));
    }
}

/// Values of a run of types are read from the front: the first from the
/// start of the bytes, the rest from the bytes after it.
#[verifier::spinoff_prover]
#[verifier::rlimit(50)]
pub proof fn lemma_decode_all_from_front(tys: Seq<Ty>, data: Seq<u8>, little_endian: bool)
    requires
        tys.len() > 0,
        decode_all(tys, data, little_endian) is Ok,
    ensures
        ({
            let (vs, k) = decode_all(tys, data, little_endian)->Ok_0;
            &&& decode(tys[0], data, little_endian) is Ok
            &&& vs[0] == decode(tys[0], data, little_endian)->Ok_0.0
            &&& decode(tys[0], data, little_endian)->Ok_0.1 <= k
            &&& decode_all(
                tys.drop_first(),
                data.skip(decode(tys[0], data, little_endian)->Ok_0.1 as int),
                little_endian,
            ) == Ok::<(Seq<Val>, nat), UnpackError>(
                (vs.drop_first(), (k - decode(tys[0], data, little_endian)->Ok_0.1) as nat),
            )
        }),
    decreases tys.len(),
{
    let le = little_endian;
    let (vs, k) = decode_all(tys, data, le)->Ok_0;
    let front = tys.drop_last();
    let (vs1, k1) = decode_all(front, data, le)->Ok_0;
    lemma_inverse_all(tys, data, le);
    lemma_inverse_all(front, data, le);
    if tys.len() == 1 {
        assert(front =~= Seq::<Ty>::empty());
        assert(data.skip(0) =~= data);
        let k0 = decode(tys[0], data, le)->Ok_0.1;
        lemma_inverse(tys[0], data, le);
        assert(tys.drop_first() =~= Seq::<Ty>::empty());
        assert(vs.drop_first() =~= Seq::<Val>::empty());
    } else {
        lemma_decode_all_from_front(front, data, le);
        let (v0, k0) = decode(tys[0], data, le)->Ok_0;
        lemma_inverse(tys[0], data, le);
        let rest = data.skip(k0 as int);
        let tail = data.skip(k1 as int);
        let t = tys[tys.len() - 1];
        lemma_inverse(t, tail, le);
        assert(front[0] == tys[0]);
        assert(tys.drop_first().drop_last() =~= front.drop_first());
        assert(tys.drop_first()[tys.drop_first().len() - 1] == t);
        assert(rest.skip((k1 - k0) as int) =~= tail);
        let (x, kx) = decode(t, tail, le)->Ok_0;
        assert(vs1.drop_first().push(x) =~= vs.drop_first());
    }
}

/// Every integer type, `bool` and `char` round-trip through `Pack` and
/// `Unpack`: unpacking what was packed gives the value back and takes
/// exactly its bytes, whatever follows.
pub proof fn lemma_scalars_roundtrip(little_endian: bool)
    ensures
        roundtrips::<u8>(little_endian),
        roundtrips::<i8>(little_endian),
        roundtrips::<u16>(little_endian),
        roundtrips::<i16>(little_endian),
        roundtrips::<u32>(little_endian),
        roundtrips::<i32>(little_endian),
        roundtrips::<u64>(little_endian),
        roundtrips::<i64>(little_endian),
        roundtrips::<u128>(little_endian),
        roundtrips::<i128>(little_endian),
        roundtrips::<usize>(little_endian),
        roundtrips::<isize>(little_endian),
        roundtrips::<bool>(little_endian),
        roundtrips::<char>(little_endian),
{
    assert forall|x: u8, rest: Seq<u8>| #[trigger]
        unpacked::<u8>(packed(x, little_endian) + rest, little_endian) == Some::<(u8, nat)>(
            (x, packed(x, little_endian).len()),
        ) by {
        lemma_scalar_roundtrip(Prim::U8, Val::U8(x), little_endian, rest);
    }
    assert forall|x: i8, rest: Seq<u8>| #[trigger]
        unpacked::<i8>(packed(x, little_endian) + rest, little_endian) == Some::<(i8, nat)>(
            (x, packed(x, little_endian).len()),
        ) by {
        lemma_scalar_roundtrip(Prim::I8, Val::I8(x), little_endian, rest);
    }
    assert forall|x: u16, rest: Seq<u8>| #[trigger]
        unpacked::<u16>(packed(x, little_endian) + rest, little_endian) == Some::<(u16, nat)>(
            (x, packed(x, little_endian).len()),
        ) by {
        lemma_scalar_roundtrip(Prim::U16, Val::U16(x), little_endian, rest);
    }
    assert forall|x: i16, rest: Seq<u8>| #[trigger]
        unpacked::<i16>(packed(x, little_endian) + rest, little_endian) == Some::<(i16, nat)>(
            (x, packed(x, little_endian).len()),
        ) by {
        lemma_scalar_roundtrip(Prim::I16, Val::I16(x), little_endian, rest);
    }
    assert forall|x: u32, rest: Seq<u8>| #[trigger]
        unpacked::<u32>(packed(x, little_endian) + rest, little_endian) == Some::<(u32, nat)>(
            (x, packed(x, little_endian).len()),
        ) by {
        lemma_scalar_roundtrip(Prim::U32, Val::U32(x), little_endian, rest);
    }
    assert forall|x: i32, rest: Seq<u8>| #[trigger]
        unpacked::<i32>(packed(x, little_endian) + rest, little_endian) == Some::<(i32, nat)>(
            (x, packed(x, little_endian).len()),
        ) by {
        lemma_scalar_roundtrip(Prim::I32, Val::I32(x), little_endian, rest);
    }
    assert forall|x: u64, rest: Seq<u8>| #[trigger]
        unpacked::<u64>(packed(x, little_endian) + rest, little_endian) == Some::<(u64, nat)>(
            (x, packed(x, little_endian).len()),
        ) by {
        lemma_scalar_roundtrip(Prim::U64, Val::U64(x), little_endian, rest);
    }
    assert forall|x: i64, rest: Seq<u8>| #[trigger]
        unpacked::<i64>(packed(x, little_endian) + rest, little_endian) == Some::<(i64, nat)>(
            (x, packed(x, little_endian).len()),
        ) by {
        lemma_scalar_roundtrip(Prim::I64, Val::I64(x), little_endian, rest);
    }
    assert forall|x: u128, rest: Seq<u8>| #[trigger]
        unpacked::<u128>(packed(x, little_endian) + rest, little_endian) == Some::<(u128, nat)>(
            (x, packed(x, little_endian).len()),
        ) by {
        lemma_scalar_roundtrip(Prim::U128, Val::U128(x), little_endian, rest);
    }
    assert forall|x: i128, rest: Seq<u8>| #[trigger]
        unpacked::<i128>(packed(x, little_endian) + rest, little_endian) == Some::<(i128, nat)>(
            (x, packed(x, little_endian).len()),
        ) by {
        lemma_scalar_roundtrip(Prim::I128, Val::I128(x), little_endian, rest);
    }
    assert forall|x: usize, rest: Seq<u8>| #[trigger]
        unpacked::<usize>(packed(x, little_endian) + rest, little_endian) == Some::<(usize, nat)>(
            (x, packed(x, little_endian).len()),
        ) by {
        lemma_scalar_roundtrip(Prim::Usize, Val::Usize(x), little_endian, rest);
    }
    assert forall|x: isize, rest: Seq<u8>| #[trigger]
        unpacked::<isize>(packed(x, little_endian) + rest, little_endian) == Some::<(isize, nat)>(
            (x, packed(x, little_endian).len()),
        ) by {
        lemma_scalar_roundtrip(Prim::Isize, Val::Isize(x), little_endian, rest);
    }
    assert forall|x: bool, rest: Seq<u8>| #[trigger]
        unpacked::<bool>(packed(x, little_endian) + rest, little_endian) == Some::<(bool, nat)>(
            (x, packed(x, little_endian).len()),
        ) by {
        lemma_scalar_roundtrip(Prim::Bool, Val::Bool(x), little_endian, rest);
    }
    assert forall|x: char, rest: Seq<u8>| #[trigger]
        unpacked::<char>(packed(x, little_endian) + rest, little_endian) == Some::<(char, nat)>(
            (x, packed(x, little_endian).len()),
        ) by {
        lemma_scalar_roundtrip(Prim::Char, Val::Char(x), little_endian, rest);
    }
}

/// The values an array element is made of make it again.
proof fn lemma_elem_of_parts(tys: Seq<Ty>, e: Val)
    requires
        elem_parts(tys, e) is Some,
    ensures
        elem_of(tys, elem_parts(tys, e).unwrap()) == e,
{
}

/// Unpacking a value that was packed as type `t` gives it back, whatever
/// follows it, and takes exactly the bytes packing wrote.
pub proof fn lemma_roundtrip(t: Ty, v: Val, little_endian: bool, rest: Seq<u8>)
    requires
        fits(t, v),
        unpackable(t),
    ensures
        decode(t, encode(t, v, little_endian) + rest, little_endian) == Ok::<
            (Val, nat),
            UnpackError,
        >((v, encode(t, v, little_endian).len())),
    decreases t, 0nat,
{
    match t {
        Ty::Prim(p) => {
            lemma_scalar_roundtrip(p, v, little_endian, rest);
        },
        Ty::Array(tys, n) => {
            let es = v->Array_0;
            lemma_roundtrip_elems(tys, es, little_endian, rest);
        },
    }
}

/// As `lemma_roundtrip`, for the elements of an array of the group `tys`.
pub proof fn lemma_roundtrip_elems(tys: Seq<Ty>, es: Seq<Val>, little_endian: bool, rest: Seq<u8>)
    requires
        fits_elems(tys, es),
        unpackable_all(tys),
    ensures
        decode_elems(tys, es.len(), encode_elems(tys, es, little_endian) + rest, little_endian)
            == Ok::<(Seq<Val>, nat), UnpackError>(
            (es, encode_elems(tys, es, little_endian).len()),
        ),
    decreases tys, es.len(),
{
    let le = little_endian;
    if es.len() == 0 {
        assert(es =~= Seq::<Val>::empty());
    } else {
        let front = es.drop_last();
        let parts = elem_parts(tys, es.last()).unwrap();
        let a = encode_elems(tys, front, le);
        let b = encode_all(tys, parts, le);
        let bytes = encode_elems(tys, es, le) + rest;
        assert(bytes =~= a + (b + rest));
        lemma_roundtrip_elems(tys, front, le, b + rest);
        assert(decode_elems(tys, (es.len() - 1) as nat, bytes, le) == Ok::<
            (Seq<Val>, nat),
            UnpackError,
        >((front, a.len())));
        assert(bytes.skip(a.len() as int) =~= b + rest);
        lemma_roundtrip_all(tys, parts, le, rest);
        lemma_elem_of_parts(tys, es.last());
        assert(decode_all(tys, bytes.skip(a.len() as int), le) == Ok::<
            (Seq<Val>, nat),
            UnpackError,
        >((parts, b.len())));
        assert(front.push(elem_of(tys, parts)) =~= es);
        assert(decode_elems(tys, es.len(), bytes, le) == Ok::<
            (Seq<Val>, nat),
            UnpackError,
        >((front.push(elem_of(tys, parts)), a.len() + b.len())));
    }
}

/// As `lemma_roundtrip`, for values of the types `tys`, one each.
pub proof fn lemma_roundtrip_all(tys: Seq<Ty>, vs: Seq<Val>, little_endian: bool, rest: Seq<u8>)
    requires
        fits_all(tys, vs),
        unpackable_all(tys),
    ensures
        decode_all(tys, encode_all(tys, vs, little_endian) + rest, little_endian) == Ok::<
            (Seq<Val>, nat),
            UnpackError,
        >((vs, encode_all(tys, vs, little_endian).len())),
    decreases tys, 0nat,
{
    let le = little_endian;
    if tys.len() == 0 {
        assert(vs =~= Seq::<Val>::empty());
    } else {
        let t = tys[tys.len() - 1];
        let a = encode_all(tys.drop_last(), vs.drop_last(), le);
        let b = encode(t, vs.last(), le);
        let bytes = encode_all(tys, vs, le) + rest;
        assert(bytes =~= a + (b + rest));
        lemma_roundtrip_all(tys.drop_last(), vs.drop_last(), le, b + rest);
        assert(bytes.skip(a.len() as int) =~= b + rest);
        lemma_roundtrip(t, vs.last(), le, rest);
        assert(vs.drop_last().push(vs.last()) =~= vs);
    }
}

/// Every one of the types `tys` can be read back.
pub proof fn lemma_unpackable_all(tys: Seq<Ty>)
    ensures
        unpackable_all(tys) <==> forall|i: int| 0 <= i < tys.len() ==> unpackable(#[trigger] tys[i]),
    decreases tys.len(),
{
    if tys.len() > 0 {
        lemma_unpackable_all(tys.drop_last());
        if forall|i: int| 0 <= i < tys.len() ==> unpackable(#[trigger] tys[i]) {
            assert forall|i: int| 0 <= i < tys.drop_last().len() implies unpackable(
                #[trigger] tys.drop_last()[i],
            ) by {
                assert(tys.drop_last()[i] == tys[i]);
            }
        }
        if unpackable_all(tys) {
            assert forall|i: int| 0 <= i < tys.len() implies unpackable(#[trigger] tys[i]) by {
                if i < tys.len() - 1 {
                    assert(tys.drop_last()[i] == tys[i]);
                }
            }
        }
    }
}

/// Whether the group or the string ends at `k`: what follows is `;` or
/// nothing but whitespace.
pub open spec fn ends_group(s: Seq<u8>, k: nat) -> bool {
    skip_ws(s, k) >= s.len() || s[skip_ws(s, k) as int] == 0x3b
}

/// Whatever the unpack grammar finds at `i`, the pack grammar finds too.
proof fn lemma_unpack_item_in_pack(s: Seq<u8>, i: nat)
    ensures
        !(spec_item(s, i, Mode::Unpack) is NoMatch) ==> spec_item(s, i, Mode::Pack) == spec_item(
            s,
            i,
            Mode::Unpack,
        ),
    decreases s.len() - i, 1nat,
{
    if i < s.len() {
        lemma_skip_ws(s, i);
        let j = skip_ws(s, i);
        if j < s.len() && prim_of(s[j as int], Mode::Unpack) is None && s[j as int] == 0x5b {
            lemma_unpack_rest_in_pack(s, j + 1);
            lemma_items_from_rest(s, j + 1, Mode::Unpack);
            lemma_items_from_rest(s, j + 1, Mode::Pack);
        }
    }
}

/// As `lemma_unpack_item_in_pack`, for a run of specifiers that the string
/// lets end where the unpack grammar ends it.
proof fn lemma_unpack_rest_in_pack(s: Seq<u8>, i: nat)
    ensures
        spec_items_rest(s, i, Mode::Unpack) is Overflow ==> spec_items_rest(s, i, Mode::Pack) is Overflow,
        (spec_items_rest(s, i, Mode::Unpack) matches Step::Matched(_, k) && ends_group(s, k))
            ==> spec_items_rest(s, i, Mode::Pack) == spec_items_rest(s, i, Mode::Unpack),
    decreases s.len() - i, 2nat,
{
    if i <= s.len() {
        lemma_unpack_item_in_pack(s, i);
        lemma_item_bounds(s, i, Mode::Unpack);
        match spec_item(s, i, Mode::Unpack) {
            Step::Matched(t, j) => {
                lemma_unpack_rest_in_pack(s, j);
            },
            Step::NoMatch => {
                lemma_skip_ws(s, i);
            },
            Step::Overflow => {},
        }
    }
}

/// What the pack grammar finds at `i`, if it holds no `s` or `p`, the
/// unpack grammar finds too.
proof fn lemma_pack_item_in_unpack(s: Seq<u8>, i: nat)
    ensures
        (spec_item(s, i, Mode::Pack) matches Step::Matched(t, _) && unpackable(t)) ==> spec_item(
            s,
            i,
            Mode::Unpack,
        ) == spec_item(s, i, Mode::Pack),
    decreases s.len() - i, 1nat,
{
    if i < s.len() {
        lemma_skip_ws(s, i);
        let j = skip_ws(s, i);
        if j < s.len() && prim_of(s[j as int], Mode::Pack) is None && s[j as int] == 0x5b {
            lemma_pack_rest_in_unpack(s, j + 1);
            lemma_items_from_rest(s, j + 1, Mode::Unpack);
            lemma_items_from_rest(s, j + 1, Mode::Pack);
        }
    }
}

/// As `lemma_pack_item_in_unpack`, for a run of specifiers.
proof fn lemma_pack_rest_in_unpack(s: Seq<u8>, i: nat)
    ensures
        (spec_items_rest(s, i, Mode::Pack) matches Step::Matched(ts, _) && unpackable_all(ts))
            ==> spec_items_rest(s, i, Mode::Unpack) == spec_items_rest(s, i, Mode::Pack),
    decreases s.len() - i, 2nat,
{
    if i <= s.len() {
        lemma_pack_item_in_unpack(s, i);
        lemma_unpack_item_in_pack(s, i);
        lemma_item_bounds(s, i, Mode::Pack);
        match spec_item(s, i, Mode::Pack) {
            Step::Matched(t, j) => {
                if i < j <= s.len() {
                    lemma_pack_rest_in_unpack(s, j);
                    if let Step::Matched(ts, _) = spec_items_rest(s, i, Mode::Pack) {
                        if unpackable_all(ts) {
                            let rest = spec_items_rest(s, j, Mode::Pack)->Matched_0;
                            assert(ts == seq![t] + rest);
                            lemma_unpackable_all(ts);
                            lemma_unpackable_all(rest);
                            assert(ts[0] == t);
                            assert forall|m: int| 0 <= m < rest.len() implies unpackable(
                                #[trigger] rest[m],
                            ) by {
                                assert(ts[m + 1] == rest[m]);
                            }
                        }
                    }
                }
            },
            _ => {},
        }
    }
}

/// A format string without `s` or `p` means the same to packing and to
/// unpacking.
pub proof fn lemma_same_format(fmt: Seq<u8>)
    requires
        spec_format(fmt, Mode::Pack) is Ok,
        unpackable_all(spec_format(fmt, Mode::Pack)->Ok_0.types),
    ensures
        spec_format(fmt, Mode::Unpack) == spec_format(fmt, Mode::Pack),
{
    let i = if fmt.len() > 0 && (fmt[0] == 0x3c || fmt[0] == 0x3e || fmt[0] == 0x40) {
        1nat
    } else {
        0nat
    };
    lemma_pack_rest_in_unpack(fmt, i);
    lemma_items_from_rest(fmt, i, Mode::Unpack);
    lemma_items_from_rest(fmt, i, Mode::Pack);
}

/// Unpacking, with a format string, the bytes that packing wrote with the
/// same format string gives the values back, whatever follows the bytes:
/// the string means the same to both, and the values are read back in
/// full from exactly the bytes written.
pub proof fn law_unpack_after_pack(
    fmt: Seq<u8>,
    vals: Seq<Val>,
    little_endian: bool,
    rest: Seq<u8>,
)
    requires
        spec_format(fmt, Mode::Pack) is Ok,
        fits_all(spec_format(fmt, Mode::Pack)->Ok_0.types, vals),
        unpackable_all(spec_format(fmt, Mode::Pack)->Ok_0.types),
    ensures
        spec_format(fmt, Mode::Unpack) == spec_format(fmt, Mode::Pack),
        ({
            let tys = spec_format(fmt, Mode::Pack)->Ok_0.types;
            decode_all(tys, encode_all(tys, vals, little_endian) + rest, little_endian) == Ok::<
                (Seq<Val>, nat),
                UnpackError,
            >((vals, encode_all(tys, vals, little_endian).len()))
        }),
{
    lemma_same_format(fmt);
    lemma_roundtrip_all(spec_format(fmt, Mode::Pack)->Ok_0.types, vals, little_endian, rest);
}

/// Packing values with a format string, then unpacking the bytes, and
/// whatever follows them, with the same string gives the values back.
pub proof fn law_pack_then_unpack(
    fmt: Seq<u8>,
    vals: Seq<Val>,
    packed: Result<Vec<u8>, PackError>,
    rest: Seq<u8>,
    unpacked: Result<Vec<Value>, UnpackError>,
)
    requires
        pack_result(fmt, vals, packed),
        packed is Ok,
        unpack_result(fmt, packed->Ok_0@ + rest, unpacked),
        spec_format(fmt, Mode::Pack) is Ok,
        unpackable_all(spec_format(fmt, Mode::Pack)->Ok_0.types),
    ensures
        unpacked matches Ok(vs) && vals_view(vs@) == vals,
{
    let f = spec_format(fmt, Mode::Pack)->Ok_0;
    let bytes = packed->Ok_0@;
    lemma_same_format(fmt);
    let le = order_is_little(f.order);
    assert(bytes == encode_all(f.types, vals, le));
    lemma_roundtrip_all(f.types, vals, le, rest);
}

/// Unpacking a value of type `t` reads exactly `ty_size(t)` bytes.
pub proof fn lemma_decode_size(t: Ty, data: Seq<u8>, little_endian: bool)
    ensures
        decode(t, data, little_endian) matches Ok((_, k)) ==> k == ty_size(t),
    decreases t, 0nat,
{
    match t {
        Ty::Prim(p) => {},
        Ty::Array(tys, n) => {
            lemma_decode_elems_size(tys, n, data, little_endian);
        },
    }
}

/// Unpacking `n` elements of the group `tys` reads `n` times the bytes of
/// the group.
pub proof fn lemma_decode_elems_size(tys: Seq<Ty>, n: nat, data: Seq<u8>, little_endian: bool)
    ensures
        decode_elems(tys, n, data, little_endian) matches Ok((_, k)) ==> k == n * tys_size(tys),
    decreases tys, n,
{
    if n > 0 {
        lemma_decode_elems_size(tys, (n - 1) as nat, data, little_endian);
        if let Ok((_, k)) = decode_elems(tys, (n - 1) as nat, data, little_endian) {
            if k <= data.len() {
                lemma_decode_all_size(tys, data.skip(k as int), little_endian);
            }
        }
        let g = tys_size(tys);
        assert(n * g == (n - 1) * g + g) by (nonlinear_arith);
    }
}

/// Unpacking values of the types `tys`, one each, reads the bytes of the
/// group.
pub proof fn lemma_decode_all_size(tys: Seq<Ty>, data: Seq<u8>, little_endian: bool)
    ensures
        decode_all(tys, data, little_endian) matches Ok((_, k)) ==> k == tys_size(tys),
    decreases tys, 0nat,
{
    if tys.len() > 0 {
        lemma_decode_all_size(tys.drop_last(), data, little_endian);
        if let Ok((_, k)) = decode_all(tys.drop_last(), data, little_endian) {
            if k <= data.len() {
                lemma_decode_size(tys[tys.len() - 1], data.skip(k as int), little_endian);
            }
        }
    }
}

/// Packing values of types without `s` or `p` writes exactly as many bytes
/// as the types take.
pub proof fn lemma_encode_size(tys: Seq<Ty>, vals: Seq<Val>, little_endian: bool)
    requires
        fits_all(tys, vals),
        unpackable_all(tys),
    ensures
        encode_all(tys, vals, little_endian).len() == tys_size(tys),
{
    lemma_roundtrip_all(tys, vals, little_endian, Seq::empty());
    lemma_decode_all_size(tys, encode_all(tys, vals, little_endian) + Seq::empty(), little_endian);
}

/// Packing again a scalar that was unpacked writes the bytes it was read
/// from.
pub proof fn lemma_scalar_inverse(p: Prim, data: Seq<u8>, little_endian: bool)
    requires
        decode_scalar(p, data, little_endian) is Ok,
    ensures
        ({
            let (v, k) = decode_scalar(p, data, little_endian)->Ok_0;
            scalar_fits(p, v) && k <= data.len() && scalar_bytes(v, little_endian) == data.take(
                k as int,
            )
        }),
{
    let le = little_endian;
    lemma_pow256_values();
    let w = scalar_size(p);
    let d = data.take(w as int);
    lemma_bytes_inverse(d, le);
    lemma_from_bytes_bound(d, le);
    match p {
        Prim::Char => {
            let u = from_bytes(d, le) as u32;
            assert((u as char) as u32 == u);
        },
        Prim::I8 => {
            let u = from_bytes(d, le) as u8;
            assert(((u as i8) as u8) == u) by (bit_vector);
        },
        Prim::I16 => {
            let u = from_bytes(d, le) as u16;
            assert(((u as i16) as u16) == u) by (bit_vector);
        },
        Prim::I32 => {
            let u = from_bytes(d, le) as u32;
            assert(((u as i32) as u32) == u) by (bit_vector);
        },
        Prim::I64 => {
            let u = from_bytes(d, le) as u64;
            assert(((u as i64) as u64) == u) by (bit_vector);
        },
        Prim::I128 => {
            let u = from_bytes(d, le) as u128;
            assert(((u as i128) as u128) == u) by (bit_vector);
        },
        Prim::Isize => {
            lemma_usize_fits(0);
            let u = from_bytes(d, le) as usize;
            assert(((u as isize) as usize) == u) by (bit_vector);
        },
        Prim::Usize | Prim::Ptr => {
            lemma_usize_fits(0);
        },
        Prim::Bool => {
            assert(d =~= seq![data[0]]);
        },
        _ => {},
    }
}

/// Unpacked values are values of their types, and packing them again
/// writes exactly the bytes they were read from.
pub proof fn lemma_inverse(t: Ty, data: Seq<u8>, little_endian: bool)
    ensures
        decode(t, data, little_endian) matches Ok((v, k)) ==> fits(t, v) && k <= data.len()
            && encode(t, v, little_endian) == data.take(k as int),
    decreases t, 0nat,
{
    match t {
        Ty::Prim(p) => {
            if decode_scalar(p, data, little_endian) is Ok {
                lemma_scalar_inverse(p, data, little_endian);
            }
        },
        Ty::Array(tys, n) => {
            lemma_inverse_elems(tys, n, data, little_endian);
        },
    }
}

/// As `lemma_inverse`, for `n` elements of an array of the group `tys`.
pub proof fn lemma_inverse_elems(tys: Seq<Ty>, n: nat, data: Seq<u8>, little_endian: bool)
    ensures
        decode_elems(tys, n, data, little_endian) matches Ok((es, k)) ==> es.len() == n
            && fits_elems(tys, es) && k <= data.len() && encode_elems(tys, es, little_endian)
            == data.take(k as int),
    decreases tys, n,
{
    let le = little_endian;
    if n == 0 {
        assert(data.take(0) =~= Seq::<u8>::empty());
    } else {
        lemma_inverse_elems(tys, (n - 1) as nat, data, le);
        if let Ok((es0, k)) = decode_elems(tys, (n - 1) as nat, data, le) {
            if k <= data.len() {
                let rest = data.skip(k as int);
                lemma_inverse_all(tys, rest, le);
                if let Ok((vs, k2)) = decode_all(tys, rest, le) {
                    let es = es0.push(elem_of(tys, vs));
                    assert(es.drop_last() =~= es0);
                    assert(elem_parts(tys, es.last()) == Some(vs)) by {
                        if tys.len() == 1 {
                            assert(vs =~= seq![vs[0]]);
                        }
                    }
                    assert(data.take((k + k2) as int) =~= data.take(k as int) + rest.take(k2 as int));
                }
            }
        }
    }
}

/// As `lemma_inverse`, for values of the types `tys`, one each.
pub proof fn lemma_inverse_all(tys: Seq<Ty>, data: Seq<u8>, little_endian: bool)
    ensures
        decode_all(tys, data, little_endian) matches Ok((vs, k)) ==> vs.len() == tys.len()
            && (tys.len() == 1 ==> vs.len() == 1) && fits_all(tys, vs) && k <= data.len()
            && encode_all(tys, vs, little_endian) == data.take(k as int),
    decreases tys, 0nat,
{
    let le = little_endian;
    if tys.len() == 0 {
        assert(data.take(0) =~= Seq::<u8>::empty());
    } else {
        lemma_inverse_all(tys.drop_last(), data, le);
        if let Ok((vs0, k)) = decode_all(tys.drop_last(), data, le) {
            if k <= data.len() {
                let rest = data.skip(k as int);
                let t = tys[tys.len() - 1];
                lemma_inverse(t, rest, le);
                if let Ok((v, k2)) = decode(t, rest, le) {
                    let vs = vs0.push(v);
                    assert(vs.drop_last() =~= vs0);
                    assert(data.take((k + k2) as int) =~= data.take(k as int) + rest.take(k2 as int));
                }
            }
        }
    }
}

/// The unpack grammar finds no `s` or `p`.
proof fn lemma_unpack_item_unpackable(s: Seq<u8>, i: nat)
    ensures
        spec_item(s, i, Mode::Unpack) matches Step::Matched(t, _) ==> unpackable(t),
    decreases s.len() - i, 1nat,
{
    if i < s.len() {
        lemma_skip_ws(s, i);
        let j = skip_ws(s, i);
        if j < s.len() && prim_of(s[j as int], Mode::Unpack) is None && s[j as int] == 0x5b {
            lemma_unpack_rest_unpackable(s, j + 1);
            lemma_items_from_rest(s, j + 1, Mode::Unpack);
        }
    }
}

proof fn lemma_unpack_rest_unpackable(s: Seq<u8>, i: nat)
    ensures
        spec_items_rest(s, i, Mode::Unpack) matches Step::Matched(ts, _) ==> unpackable_all(ts),
    decreases s.len() - i, 2nat,
{
    if i <= s.len() {
        lemma_unpack_item_unpackable(s, i);
        lemma_item_bounds(s, i, Mode::Unpack);
        if let Step::Matched(t, j) = spec_item(s, i, Mode::Unpack) {
            if i < j <= s.len() {
                lemma_unpack_rest_unpackable(s, j);
                if let Step::Matched(ts, _) = spec_items_rest(s, i, Mode::Unpack) {
                    let rest = spec_items_rest(s, j, Mode::Unpack)->Matched_0;
                    assert(ts == seq![t] + rest);
                    lemma_unpackable_all(ts);
                    lemma_unpackable_all(rest);
                    assert forall|m: int| 0 <= m < ts.len() implies unpackable(#[trigger] ts[m]) by {
                        if m > 0 {
                            assert(ts[m] == rest[m - 1]);
                        }
                    }
                }
            }
        }
    }
    if i > s.len() {
        assert(unpackable_all(Seq::<Ty>::empty()));
    }
}

/// A format string that unpacking accepts means the same to packing, and
/// holds no `s` or `p`.
pub proof fn lemma_unpack_format(fmt: Seq<u8>)
    requires
        spec_format(fmt, Mode::Unpack) is Ok,
    ensures
        spec_format(fmt, Mode::Pack) == spec_format(fmt, Mode::Unpack),
        unpackable_all(spec_format(fmt, Mode::Unpack)->Ok_0.types),
{
    let i = if fmt.len() > 0 && (fmt[0] == 0x3c || fmt[0] == 0x3e || fmt[0] == 0x40) {
        1nat
    } else {
        0nat
    };
    lemma_unpack_rest_in_pack(fmt, i);
    lemma_unpack_rest_unpackable(fmt, i);
    lemma_items_from_rest(fmt, i, Mode::Unpack);
    lemma_items_from_rest(fmt, i, Mode::Pack);
}

/// Unpacking bytes with a format string, then packing the values with the
/// same string, writes back exactly the bytes
/// that were read: as many bytes from the front of the input as the
/// format's types take.
pub proof fn law_unpack_then_pack(
    fmt: Seq<u8>,
    data: Seq<u8>,
    unpacked: Result<Vec<Value>, UnpackError>,
    packed: Result<Vec<u8>, PackError>,
)
    requires
        unpack_result(fmt, data, unpacked),
        unpacked is Ok,
        spec_format(fmt, Mode::Unpack) is Ok,
        pack_result(fmt, vals_view(unpacked->Ok_0@), packed),
    ensures
        packed matches Ok(bytes) && bytes@ == data.take(
            tys_size(spec_format(fmt, Mode::Unpack)->Ok_0.types) as int,
        ),
{
    let f = spec_format(fmt, Mode::Unpack)->Ok_0;
    lemma_unpack_format(fmt);
    let le = order_is_little(f.order);
    lemma_inverse_all(f.types, data, le);
    lemma_decode_all_size(f.types, data, le);
}

} // verus!
