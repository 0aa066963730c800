//! Values and their encodings: what a format makes of a list of values
//! when packing, and of a byte string when unpacking.
use crate::format::{Prim, Ty};
use crate::traits::{packed, unpacked};
use vstd::prelude::*;
use vstd::utf8::encode_utf8;

verus! {

/// Why bytes could not be unpacked.
#[derive(Clone, Copy, Debug, PartialEq, Eq, Structural)]
pub enum UnpackError {
    /// The format string was refused.
    Format(crate::format::FormatError),
    /// The bytes ran out before the format did.
    NotEnoughBytes,
    /// A `?` byte was neither `0` nor `1`.
    InvalidBool,
    /// A `c` value was no Unicode scalar value.
    InvalidChar,
    /// The format holds `s` or `p`, which say nothing of how many bytes to
    /// read.
    NotUnpackable,
}

/// A value to pack, or a value unpacked.
#[derive(Debug, PartialEq, Eq)]
pub enum Value {
    Char(char),
    I8(i8),
    U8(u8),
    Bool(bool),
    I16(i16),
    U16(u16),
    I32(i32),
    U32(u32),
    I64(i64),
    U64(u64),
    I128(i128),
    U128(u128),
    Isize(isize),
    Usize(usize),
    /// The IEEE 754 bits of an `f32`.
    F32(u32),
    /// The IEEE 754 bits of an `f64`.
    F64(u64),
    /// The address of a pointer.
    Ptr(usize),
    /// A string slice, packed as its UTF-8 bytes.
    Str(String),
    /// A byte slice, packed as it is.
    Bytes(Vec<u8>),
    /// One element of an array whose group holds other than one specifier.
    Tuple(Vec<Value>),
    /// The elements of a `[...; n]` specifier.
    Array(Vec<Value>),
}

/// The mathematical form of a `Value`.
pub enum Val {
    Char(char),
    I8(i8),
    U8(u8),
    Bool(bool),
    I16(i16),
    U16(u16),
    I32(i32),
    U32(u32),
    I64(i64),
    U64(u64),
    I128(i128),
    U128(u128),
    Isize(isize),
    Usize(usize),
    F32(u32),
    F64(u64),
    Ptr(usize),
    Str(Seq<char>),
    Bytes(Seq<u8>),
    Tuple(Seq<Val>),
    Array(Seq<Val>),
}

impl View for Value {
    type V = Val;

    open spec fn view(&self) -> Val
        decreases self,
    {
        match self {
            Value::Char(x) => Val::Char(*x),
            Value::I8(x) => Val::I8(*x),
            Value::U8(x) => Val::U8(*x),
            Value::Bool(x) => Val::Bool(*x),
            Value::I16(x) => Val::I16(*x),
            Value::U16(x) => Val::U16(*x),
            Value::I32(x) => Val::I32(*x),
            Value::U32(x) => Val::U32(*x),
            Value::I64(x) => Val::I64(*x),
            Value::U64(x) => Val::U64(*x),
            Value::I128(x) => Val::I128(*x),
            Value::U128(x) => Val::U128(*x),
            Value::Isize(x) => Val::Isize(*x),
            Value::Usize(x) => Val::Usize(*x),
            Value::F32(x) => Val::F32(*x),
            Value::F64(x) => Val::F64(*x),
            Value::Ptr(x) => Val::Ptr(*x),
            Value::Str(s) => Val::Str(s@),
            Value::Bytes(b) => Val::Bytes(b@),
            Value::Tuple(vs) => Val::Tuple(vals_view(vs@)),
            Value::Array(vs) => Val::Array(vals_view(vs@)),
        }
    }
}

/// Whether `v` is a value of the scalar type `p`.
pub open spec fn scalar_fits(p: Prim, v: Val) -> bool {
    match (p, v) {
        (Prim::Char, Val::Char(_)) => true,
        (Prim::I8, Val::I8(_)) => true,
        (Prim::U8, Val::U8(_)) => true,
        (Prim::Bool, Val::Bool(_)) => true,
        (Prim::I16, Val::I16(_)) => true,
        (Prim::U16, Val::U16(_)) => true,
        (Prim::I32, Val::I32(_)) => true,
        (Prim::U32, Val::U32(_)) => true,
        (Prim::I64, Val::I64(_)) => true,
        (Prim::U64, Val::U64(_)) => true,
        (Prim::I128, Val::I128(_)) => true,
        (Prim::U128, Val::U128(_)) => true,
        (Prim::Isize, Val::Isize(_)) => true,
        (Prim::Usize, Val::Usize(_)) => true,
        (Prim::F32, Val::F32(_)) => true,
        (Prim::F64, Val::F64(_)) => true,
        (Prim::Ptr, Val::Ptr(_)) => true,
        (Prim::Str, Val::Str(_)) => true,
        (Prim::Bytes, Val::Bytes(_)) => true,
        _ => false,
    }
}

/// The bytes a scalar value packs into.
pub open spec fn scalar_bytes(v: Val, little_endian: bool) -> Seq<u8> {
    match v {
        Val::Char(x) => packed(x, little_endian),
        Val::I8(x) => packed(x, little_endian),
        Val::U8(x) => packed(x, little_endian),
        Val::Bool(x) => packed(x, little_endian),
        Val::I16(x) => packed(x, little_endian),
        Val::U16(x) => packed(x, little_endian),
        Val::I32(x) => packed(x, little_endian),
        Val::U32(x) => packed(x, little_endian),
        Val::I64(x) => packed(x, little_endian),
        Val::U64(x) => packed(x, little_endian),
        Val::I128(x) => packed(x, little_endian),
        Val::U128(x) => packed(x, little_endian),
        Val::Isize(x) => packed(x, little_endian),
        Val::Usize(x) => packed(x, little_endian),
        Val::F32(x) => packed(x, little_endian),
        Val::F64(x) => packed(x, little_endian),
        Val::Ptr(x) => packed(x, little_endian),
        Val::Str(cs) => encode_utf8(cs),
        Val::Bytes(b) => b,
        _ => seq![],
    }
}

/// The scalar of type `p` at the front of `data`, and the number of bytes
/// it takes.
pub open spec fn decode_scalar(p: Prim, data: Seq<u8>, little_endian: bool) -> Result<
    (Val, nat),
    UnpackError,
> {
    match p {
        Prim::Char => if data.len() < 4 {
            Err(UnpackError::NotEnoughBytes)
        } else {
            match unpacked::<char>(data, little_endian) {
                Some((c, k)) => Ok((Val::Char(c), k)),
                None => Err(UnpackError::InvalidChar),
            }
        },
        Prim::Bool => if data.len() < 1 {
            Err(UnpackError::NotEnoughBytes)
        } else {
            match unpacked::<bool>(data, little_endian) {
                Some((b, k)) => Ok((Val::Bool(b), k)),
                None => Err(UnpackError::InvalidBool),
            }
        },
        Prim::I8 => match unpacked::<i8>(data, little_endian) {
            Some((x, k)) => Ok((Val::I8(x), k)),
            None => Err(UnpackError::NotEnoughBytes),
        },
        Prim::U8 => match unpacked::<u8>(data, little_endian) {
            Some((x, k)) => Ok((Val::U8(x), k)),
            None => Err(UnpackError::NotEnoughBytes),
        },
        Prim::I16 => match unpacked::<i16>(data, little_endian) {
            Some((x, k)) => Ok((Val::I16(x), k)),
            None => Err(UnpackError::NotEnoughBytes),
        },
        Prim::U16 => match unpacked::<u16>(data, little_endian) {
            Some((x, k)) => Ok((Val::U16(x), k)),
            None => Err(UnpackError::NotEnoughBytes),
        },
        Prim::I32 => match unpacked::<i32>(data, little_endian) {
            Some((x, k)) => Ok((Val::I32(x), k)),
            None => Err(UnpackError::NotEnoughBytes),
        },
        Prim::U32 => match unpacked::<u32>(data, little_endian) {
            Some((x, k)) => Ok((Val::U32(x), k)),
            None => Err(UnpackError::NotEnoughBytes),
        },
        Prim::I64 => match unpacked::<i64>(data, little_endian) {
            Some((x, k)) => Ok((Val::I64(x), k)),
            None => Err(UnpackError::NotEnoughBytes),
        },
        Prim::U64 => match unpacked::<u64>(data, little_endian) {
            Some((x, k)) => Ok((Val::U64(x), k)),
            None => Err(UnpackError::NotEnoughBytes),
        },
        Prim::I128 => match unpacked::<i128>(data, little_endian) {
            Some((x, k)) => Ok((Val::I128(x), k)),
            None => Err(UnpackError::NotEnoughBytes),
        },
        Prim::U128 => match unpacked::<u128>(data, little_endian) {
            Some((x, k)) => Ok((Val::U128(x), k)),
            None => Err(UnpackError::NotEnoughBytes),
        },
        Prim::Isize => match unpacked::<isize>(data, little_endian) {
            Some((x, k)) => Ok((Val::Isize(x), k)),
            None => Err(UnpackError::NotEnoughBytes),
        },
        Prim::Usize => match unpacked::<usize>(data, little_endian) {
            Some((x, k)) => Ok((Val::Usize(x), k)),
            None => Err(UnpackError::NotEnoughBytes),
        },
        Prim::F32 => match unpacked::<u32>(data, little_endian) {
            Some((x, k)) => Ok((Val::F32(x), k)),
            None => Err(UnpackError::NotEnoughBytes),
        },
        Prim::F64 => match unpacked::<u64>(data, little_endian) {
            Some((x, k)) => Ok((Val::F64(x), k)),
            None => Err(UnpackError::NotEnoughBytes),
        },
        Prim::Ptr => match unpacked::<usize>(data, little_endian) {
            Some((x, k)) => Ok((Val::Ptr(x), k)),
            None => Err(UnpackError::NotEnoughBytes),
        },
        Prim::Str => Err(UnpackError::NotUnpackable),
        Prim::Bytes => Err(UnpackError::NotUnpackable),
    }
}


/// The views of a sequence of values.
pub open spec fn vals_view(v: Seq<Value>) -> Seq<Val>
    decreases v,
{
    if v.len() == 0 {
        seq![]
    } else {
        vals_view(v.drop_last()).push(v.last()@)
    }
}

pub proof fn lemma_vals_view(v: Seq<Value>)
    ensures
        vals_view(v).len() == v.len(),
        forall|i: int| 0 <= i < v.len() ==> #[trigger] vals_view(v)[i] == v[i]@,
    decreases v.len(),
{
    if v.len() > 0 {
        lemma_vals_view(v.drop_last());
        assert(vals_view(v) == vals_view(v.drop_last()).push(v.last()@));
    } else {
        assert(vals_view(v) == Seq::<Val>::empty());
    }
}

/// The values that make up one array element: the element itself where
/// the group holds one specifier, else the members of a tuple.
pub open spec fn elem_parts(tys: Seq<Ty>, e: Val) -> Option<Seq<Val>> {
    if tys.len() == 1 {
        Some(seq![e])
    } else {
        match e {
            Val::Tuple(vs) => Some(vs),
            _ => None,
        }
    }
}

/// The array element made of the values `vs` of a group.
pub open spec fn elem_of(tys: Seq<Ty>, vs: Seq<Val>) -> Val {
    if tys.len() == 1 {
        vs[0]
    } else {
        Val::Tuple(vs)
    }
}

/// Whether `v` is a value of the type `t`.
pub open spec fn fits(t: Ty, v: Val) -> bool
    decreases t, 0nat,
{
    match t {
        Ty::Prim(p) => scalar_fits(p, v),
        Ty::Array(tys, n) => match v {
            Val::Array(es) => es.len() == n && fits_elems(tys, es),
            _ => false,
        },
    }
}

/// Whether every one of `es` is an element of an array of the group `tys`.
pub open spec fn fits_elems(tys: Seq<Ty>, es: Seq<Val>) -> bool
    decreases tys, es.len(),
{
    if es.len() == 0 {
        true
    } else {
        fits_elems(tys, es.drop_last()) && match elem_parts(tys, es.last()) {
            Some(vs) => fits_all(tys, vs),
            None => false,
        }
    }
}

/// Whether `vs` are values of the types `tys`, one each, in order.
pub open spec fn fits_all(tys: Seq<Ty>, vs: Seq<Val>) -> bool
    decreases tys, 0nat,
{
    if tys.len() != vs.len() {
        false
    } else if tys.len() == 0 {
        true
    } else {
        fits_all(tys.drop_last(), vs.drop_last()) && fits(tys[tys.len() - 1], vs.last())
    }
}

/// The bytes `v` packs into as a value of type `t`.
pub open spec fn encode(t: Ty, v: Val, little_endian: bool) -> Seq<u8>
    decreases t, 0nat,
{
    match t {
        Ty::Prim(_) => scalar_bytes(v, little_endian),
        Ty::Array(tys, n) => match v {
            Val::Array(es) => encode_elems(tys, es, little_endian),
            _ => seq![],
        },
    }
}

/// The bytes the array elements `es` pack into, one after the other.
pub open spec fn encode_elems(tys: Seq<Ty>, es: Seq<Val>, little_endian: bool) -> Seq<u8>
    decreases tys, es.len(),
{
    if es.len() == 0 {
        seq![]
    } else {
        encode_elems(tys, es.drop_last(), little_endian) + match elem_parts(tys, es.last()) {
            Some(vs) => encode_all(tys, vs, little_endian),
            None => seq![],
        }
    }
}

/// The bytes the values `vs` of the types `tys` pack into, one after the
/// other.
pub open spec fn encode_all(tys: Seq<Ty>, vs: Seq<Val>, little_endian: bool) -> Seq<u8>
    decreases tys, 0nat,
{
    if tys.len() == 0 || vs.len() == 0 {
        seq![]
    } else {
        encode_all(tys.drop_last(), vs.drop_last(), little_endian) + encode(
            tys[tys.len() - 1],
            vs.last(),
            little_endian,
        )
    }
}

/// The value of type `t` at the front of `data` and the number of bytes it
/// takes, or the first fault found.
pub open spec fn decode(t: Ty, data: Seq<u8>, little_endian: bool) -> Result<
    (Val, nat),
    UnpackError,
>
    decreases t, 0nat,
{
    match t {
        Ty::Prim(p) => decode_scalar(p, data, little_endian),
        Ty::Array(tys, n) => match decode_elems(tys, n, data, little_endian) {
            Ok((es, k)) => Ok((Val::Array(es), k)),
            Err(e) => Err(e),
        },
    }
}

/// `n` array elements of the group `tys` at the front of `data`.
pub open spec fn decode_elems(tys: Seq<Ty>, n: nat, data: Seq<u8>, little_endian: bool) -> Result<
    (Seq<Val>, nat),
    UnpackError,
>
    decreases tys, n,
{
    if n == 0 {
        Ok((seq![], 0))
    } else {
        match decode_elems(tys, (n - 1) as nat, data, little_endian) {
            Ok((es, k)) => if k > data.len() {
                Err(UnpackError::NotEnoughBytes)
            } else {
                match decode_all(tys, data.skip(k as int), little_endian) {
                    Ok((vs, k2)) => Ok((es.push(elem_of(tys, vs)), k + k2)),
                    Err(e) => Err(e),
                }
            },
            Err(e) => Err(e),
        }
    }
}

/// Values of the types `tys`, one each, at the front of `data`.
pub open spec fn decode_all(tys: Seq<Ty>, data: Seq<u8>, little_endian: bool) -> Result<
    (Seq<Val>, nat),
    UnpackError,
>
    decreases tys, 0nat,
{
    if tys.len() == 0 {
        Ok((seq![], 0))
    } else {
        match decode_all(tys.drop_last(), data, little_endian) {
            Ok((vs, k)) => if k > data.len() {
                Err(UnpackError::NotEnoughBytes)
            } else {
                match decode(tys[tys.len() - 1], data.skip(k as int), little_endian) {
                    Ok((v, k2)) => Ok((vs.push(v), k + k2)),
                    Err(e) => Err(e),
                }
            },
            Err(e) => Err(e),
        }
    }
}

/// Whether values of type `t` can be read back: it holds no `s` or `p`.
pub open spec fn unpackable(t: Ty) -> bool
    decreases t, 0nat,
{
    match t {
        Ty::Prim(p) => p != Prim::Str && p != Prim::Bytes,
        Ty::Array(tys, n) => unpackable_all(tys),
    }
}

/// Whether values of every one of the types `tys` can be read back.
pub open spec fn unpackable_all(tys: Seq<Ty>) -> bool
    decreases tys, 0nat,
{
    if tys.len() == 0 {
        true
    } else {
        unpackable_all(tys.drop_last()) && unpackable(tys[tys.len() - 1])
    }
}

} // verus!
