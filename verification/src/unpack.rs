//! Unpacking: bytes into values as a format says.
use crate::codec::{lemma_from_bytes_bound, lemma_pow256_values, read_int};
use crate::format::{
    fmt_unpack, lemma_tys_view, spec_format, tys_view, FmtType, Format, FormatView, Mode, Prim, Ty,
};
use crate::native::{is_little_endian, order_is_little};
use crate::traits::unpack_one;
use crate::value::{
    decode, decode_all, decode_elems, decode_scalar, elem_of,
    vals_view, UnpackError, Val, Value,
};
use core::mem::size_of;
use vstd::prelude::*;
use vstd::string::StringSliceAdditionalSpecFns;

verus! {

broadcast use vstd::layout::layout_of_primitives;

/// `r` is what unpacking from `before` gave when the grammar of values
/// says `spec`, and `after` is what is left of the bytes.
pub open spec fn reports_value(
    spec: Result<(Val, nat), UnpackError>,
    r: Result<Value, UnpackError>,
    before: Seq<u8>,
    after: Seq<u8>,
) -> bool {
    match r {
        Ok(v) => spec matches Ok((w, k)) && v@ == w && k <= before.len() && after == before.skip(
            k as int,
        ),
        Err(e) => spec == Err::<(Val, nat), UnpackError>(e),
    }
}

/// As `reports_value`, for a run of values.
pub open spec fn reports_values(
    spec: Result<(Seq<Val>, nat), UnpackError>,
    r: Result<Vec<Value>, UnpackError>,
    before: Seq<u8>,
    after: Seq<u8>,
) -> bool {
    match r {
        Ok(vs) => spec matches Ok((ws, k)) && vals_view(vs@) == ws && k <= before.len() && after
            == before.skip(k as int),
        Err(e) => spec == Err::<(Seq<Val>, nat), UnpackError>(e),
    }
}

/// Reads a scalar of type `p` from the front of `data`.
fn unpack_scalar(p: Prim, data: &mut &[u8], little_endian: bool) -> (r: Result<Value, UnpackError>)
    ensures
        reports_value(decode_scalar(p, old(data)@, little_endian), r, old(data)@, final(data)@),
{
    match p {
        Prim::Char => {
            if data.len() < 4 {
                return Err(UnpackError::NotEnoughBytes);
            }
            let s: &[u8] = *data;
            let (head, _) = s.split_at(4);
            let raw: u128 = read_int(head, little_endian);
            proof {
                lemma_from_bytes_bound(head@, little_endian);
                lemma_pow256_values();
            }
            let u: u32 = raw as u32;
            if !(u <= 0xD7FF || (0xE000 <= u && u <= 0x10FFFF)) {
                return Err(UnpackError::InvalidChar);
            }
            Ok(Value::Char(unpack_one::<char>(data, little_endian)))
        },
        Prim::Bool => {
            if data.len() < 1 {
                return Err(UnpackError::NotEnoughBytes);
            }
            if (*data)[0] > 1 {
                return Err(UnpackError::InvalidBool);
            }
            Ok(Value::Bool(unpack_one::<bool>(data, little_endian)))
        },
        Prim::I8 => {
            if data.len() < size_of::<i8>() {
                return Err(UnpackError::NotEnoughBytes);
            }
            Ok(Value::I8(unpack_one::<i8>(data, little_endian)))
        },
        Prim::U8 => {
            if data.len() < size_of::<u8>() {
                return Err(UnpackError::NotEnoughBytes);
            }
            Ok(Value::U8(unpack_one::<u8>(data, little_endian)))
        },
        Prim::I16 => {
            if data.len() < size_of::<i16>() {
                return Err(UnpackError::NotEnoughBytes);
            }
            Ok(Value::I16(unpack_one::<i16>(data, little_endian)))
        },
        Prim::U16 => {
            if data.len() < size_of::<u16>() {
                return Err(UnpackError::NotEnoughBytes);
            }
            Ok(Value::U16(unpack_one::<u16>(data, little_endian)))
        },
        Prim::I32 => {
            if data.len() < size_of::<i32>() {
                return Err(UnpackError::NotEnoughBytes);
            }
            Ok(Value::I32(unpack_one::<i32>(data, little_endian)))
        },
        Prim::U32 => {
            if data.len() < size_of::<u32>() {
                return Err(UnpackError::NotEnoughBytes);
            }
            Ok(Value::U32(unpack_one::<u32>(data, little_endian)))
        },
        Prim::I64 => {
            if data.len() < size_of::<i64>() {
                return Err(UnpackError::NotEnoughBytes);
            }
            Ok(Value::I64(unpack_one::<i64>(data, little_endian)))
        },
        Prim::U64 => {
            if data.len() < size_of::<u64>() {
                return Err(UnpackError::NotEnoughBytes);
            }
            Ok(Value::U64(unpack_one::<u64>(data, little_endian)))
        },
        Prim::I128 => {
            if data.len() < size_of::<i128>() {
                return Err(UnpackError::NotEnoughBytes);
            }
            Ok(Value::I128(unpack_one::<i128>(data, little_endian)))
        },
        Prim::U128 => {
            if data.len() < size_of::<u128>() {
                return Err(UnpackError::NotEnoughBytes);
            }
            Ok(Value::U128(unpack_one::<u128>(data, little_endian)))
        },
        Prim::Isize => {
            if data.len() < size_of::<isize>() {
                return Err(UnpackError::NotEnoughBytes);
            }
            Ok(Value::Isize(unpack_one::<isize>(data, little_endian)))
        },
        Prim::Usize => {
            if data.len() < size_of::<usize>() {
                return Err(UnpackError::NotEnoughBytes);
            }
            Ok(Value::Usize(unpack_one::<usize>(data, little_endian)))
        },
        Prim::F32 => {
            if data.len() < size_of::<u32>() {
                return Err(UnpackError::NotEnoughBytes);
            }
            Ok(Value::F32(unpack_one::<u32>(data, little_endian)))
        },
        Prim::F64 => {
            if data.len() < size_of::<u64>() {
                return Err(UnpackError::NotEnoughBytes);
            }
            Ok(Value::F64(unpack_one::<u64>(data, little_endian)))
        },
        Prim::Ptr => {
            if data.len() < size_of::<usize>() {
                return Err(UnpackError::NotEnoughBytes);
            }
            Ok(Value::Ptr(unpack_one::<usize>(data, little_endian)))
        },        Prim::Str => Err(UnpackError::NotUnpackable),
        Prim::Bytes => Err(UnpackError::NotUnpackable),
    }
}

/// A fault in the first `m` elements of an array is a fault of the whole.
proof fn lemma_decode_elems_err(tys: Seq<Ty>, m: nat, n: nat, data: Seq<u8>, little_endian: bool)
    requires
        m <= n,
        decode_elems(tys, m, data, little_endian) is Err,
    ensures
        decode_elems(tys, n, data, little_endian) == decode_elems(tys, m, data, little_endian),
    decreases n,
{
    if m < n {
        lemma_decode_elems_err(tys, m, (n - 1) as nat, data, little_endian);
    }
}

/// A fault in the first `m` values of a group is a fault of the group.
proof fn lemma_decode_all_err(tys: Seq<Ty>, m: int, data: Seq<u8>, little_endian: bool)
    requires
        0 <= m <= tys.len(),
        decode_all(tys.take(m), data, little_endian) is Err,
    ensures
        decode_all(tys, data, little_endian) == decode_all(tys.take(m), data, little_endian),
    decreases tys.len(),
{
    if m < tys.len() {
        assert(tys.drop_last().take(m) =~= tys.take(m));
        lemma_decode_all_err(tys.drop_last(), m, data, little_endian);
    } else {
        assert(tys.take(m) =~= tys);
    }
}

/// Reads a value of type `t` from the front of `data`.
fn unpack_value(t: &FmtType, data: &mut &[u8], little_endian: bool) -> (r: Result<
    Value,
    UnpackError,
>)
    ensures
        reports_value(decode(t@, old(data)@, little_endian), r, old(data)@, final(data)@),
    decreases *t, 0nat,
{
    match t {
        FmtType::Prim(p) => unpack_scalar(*p, data, little_endian),
        FmtType::Array(tys, n) => match unpack_elems(tys, *n, data, little_endian) {
            Ok(es) => Ok(Value::Array(es)),
            Err(e) => Err(e),
        },
    }
}

/// Reads `n` array elements of the group `tys` from the front of `data`.
fn unpack_elems(tys: &Vec<FmtType>, n: usize, data: &mut &[u8], little_endian: bool) -> (r:
    Result<Vec<Value>, UnpackError>)
    ensures
        reports_values(
            decode_elems(tys_view(tys@), n as nat, old(data)@, little_endian),
            r,
            old(data)@,
            final(data)@,
        ),
    decreases *tys, 2nat,
{
    let ghost tv = tys_view(tys@);
    let ghost d0 = data@;
    let mut out: Vec<Value> = Vec::new();
    let mut i: usize = 0;
    assert(d0.skip(0) =~= d0);
    assert(vals_view(out@) =~= seq![]);
    while i < n
        invariant
            i <= n,
            tv == tys_view(tys@),
            d0 == old(data)@,
            data@.len() <= d0.len(),
            data@ == d0.skip(d0.len() - data@.len()),
            decode_elems(tv, i as nat, d0, little_endian) == Ok::<(Seq<Val>, nat), UnpackError>(
                (vals_view(out@), (d0.len() - data@.len()) as nat),
            ),
        decreases n - i,
    {
        let ghost k = (d0.len() - data@.len()) as nat;
        let ghost before = data@;
        let ghost old_out = out@;
        match unpack_elem(tys, data, little_endian) {
            Ok(e) => {
                out.push(e);
                assert(out@.drop_last() =~= old_out);
                proof {
                    let (vs, k2) = decode_all(tv, before, little_endian).unwrap();
                    assert(before.skip(k2 as int) =~= d0.skip((k + k2) as int));
                }
                i = i + 1;
            },
            Err(e) => {
                proof {
                    lemma_decode_elems_err(tv, (i + 1) as nat, n as nat, d0, little_endian);
                }
                return Err(e);
            },
        }
    }
    Ok(out)
}

/// Reads one array element of the group `tys` from the front of `data`.
fn unpack_elem(tys: &Vec<FmtType>, data: &mut &[u8], little_endian: bool) -> (r: Result<
    Value,
    UnpackError,
>)
    ensures
        match r {
            Ok(v) => decode_all(tys_view(tys@), old(data)@, little_endian) matches Ok((vs, k)) && v@
                == elem_of(tys_view(tys@), vs) && k <= old(data)@.len() && final(data)@ == old(
                data,
            )@.skip(k as int),
            Err(e) => decode_all(tys_view(tys@), old(data)@, little_endian) == Err::<
                (Seq<Val>, nat),
                UnpackError,
            >(e),
        },
    decreases *tys, 1nat,
{
    proof {
        lemma_tys_view(tys@);
    }
    if tys.len() == 1 {
        let ghost tv = tys_view(tys@);
        let ghost d0 = data@;
        assert(tv.drop_last() =~= Seq::<Ty>::empty());
        assert(d0.skip(0) =~= d0);
        assert(decode_all(tv.drop_last(), d0, little_endian) == Ok::<(Seq<Val>, nat), UnpackError>(
            (Seq::<Val>::empty(), 0nat),
        ));
        assert(tv[0] == tys@[0]@);
        let r = unpack_value(&tys[0], data, little_endian);
        proof {
            if r is Ok {
                let v = r->Ok_0;
                assert(seq![v@][0] == v@);
                assert(Seq::<Val>::empty().push(v@) =~= seq![v@]);
            }
        }
        r
    } else {
        match unpack_all(tys, data, little_endian) {
            Ok(vs) => Ok(Value::Tuple(vs)),
            Err(e) => Err(e),
        }
    }
}

/// Reads values of the types `tys`, one each, from the front of `data`.
fn unpack_all(tys: &Vec<FmtType>, data: &mut &[u8], little_endian: bool) -> (r: Result<
    Vec<Value>,
    UnpackError,
>)
    ensures
        reports_values(decode_all(tys_view(tys@), old(data)@, little_endian), r, old(data)@, final(data)@),
    decreases *tys, 0nat,
{
    let ghost tv = tys_view(tys@);
    let ghost d0 = data@;
    proof {
        lemma_tys_view(tys@);
    }
    let mut out: Vec<Value> = Vec::new();
    let mut j: usize = 0;
    assert(d0.skip(0) =~= d0);
    assert(vals_view(out@) =~= seq![]);
    assert(tv.take(0) =~= seq![]);
    while j < tys.len()
        invariant
            j <= tys@.len(),
            tv == tys_view(tys@),
            tv.len() == tys@.len(),
            forall|m: int| 0 <= m < tys@.len() ==> #[trigger] tv[m] == tys@[m]@,
            d0 == old(data)@,
            data@.len() <= d0.len(),
            data@ == d0.skip(d0.len() - data@.len()),
            decode_all(tv.take(j as int), d0, little_endian) == Ok::<(Seq<Val>, nat), UnpackError>(
                (vals_view(out@), (d0.len() - data@.len()) as nat),
            ),
        decreases tys@.len() - j,
    {
        let ghost k = (d0.len() - data@.len()) as nat;
        let ghost before = data@;
        let ghost old_out = out@;
        assert(tv.take(j + 1).drop_last() =~= tv.take(j as int));
        assert(tv.take(j + 1)[j as int] == tys@[j as int]@);
        match unpack_value(&tys[j], data, little_endian) {
            Ok(v) => {
                out.push(v);
                assert(out@.drop_last() =~= old_out);
                proof {
                    let (w, k2) = decode(tys@[j as int]@, before, little_endian).unwrap();
                    assert(before.skip(k2 as int) =~= d0.skip((k + k2) as int));
                }
                j = j + 1;
            },
            Err(e) => {
                proof {
                    assert(decode(tys@[j as int]@, before, little_endian) == Err::<(Val, nat), UnpackError>(e));
                    assert(decode_all(tv.take(j as int), d0, little_endian) is Ok);
                    assert(decode_all(tv.take(j + 1), d0, little_endian) == Err::<(Seq<Val>, nat), UnpackError>(e));
                    lemma_decode_all_err(tv, j + 1, d0, little_endian);
                }
                return Err(e);
            },
        }
    }
    assert(tv.take(tys@.len() as int) =~= tv);
    Ok(out)
}

/// Unpacks `data` as the parsed format `format` says, in the given byte
/// order. Bytes after the last value are left unread.
pub fn unpack_with(format: &Format, data: &[u8], little_endian: bool) -> (r: Result<
    Vec<Value>,
    UnpackError,
>)
    ensures
        match r {
            Ok(vs) => decode_all(format@.types, data@, little_endian) matches Ok((ws, k)) && vals_view(
                vs@,
            ) == ws,
            Err(e) => decode_all(format@.types, data@, little_endian) == Err::<
                (Seq<Val>, nat),
                UnpackError,
            >(e),
        },
{
    let mut cursor: &[u8] = data;
    unpack_all(&format.types, &mut cursor, little_endian)
}

/// `r` is what the format `f` makes of `data` in the byte order it names.
pub open spec fn unpacks_to(f: FormatView, data: Seq<u8>, r: Result<Vec<Value>, UnpackError>) -> bool {
    unpacked_as(decode_all(f.types, data, order_is_little(f.order)), r)
}

/// `r` holds the values of `spec`, or its fault.
pub open spec fn unpacked_as(
    spec: Result<(Seq<Val>, nat), UnpackError>,
    r: Result<Vec<Value>, UnpackError>,
) -> bool {
    match r {
        Ok(vs) => spec matches Ok((ws, k)) && vals_view(vs@) == ws,
        Err(e) => spec == Err::<(Seq<Val>, nat), UnpackError>(e),
    }
}

/// What unpacking `data` with the format string `fmt` may give: the
/// string's fault, or the values or first fault of the bytes in the byte
/// order the string names.
pub open spec fn unpack_result(fmt: Seq<u8>, data: Seq<u8>, r: Result<Vec<Value>, UnpackError>) -> bool {
    match spec_format(fmt, Mode::Unpack) {
        Err(e) => r == Err::<Vec<Value>, UnpackError>(UnpackError::Format(e)),
        Ok(f) => unpacks_to(f, data, r),
    }
}

/// Unpacks `data` as the format string `fmt` says. Bytes after the last
/// value are left unread. A string the grammar refuses, too few bytes, or
/// a byte that encodes no `bool` or `char` are reported as errors rather
/// than stopping the program.
pub fn unpack(fmt: &str, data: &[u8]) -> (r: Result<Vec<Value>, UnpackError>)
    ensures
        unpack_result(fmt.spec_bytes(), data@, r),
{
    match fmt_unpack(fmt) {
        Err(e) => Err(UnpackError::Format(e)),
        Ok(format) => {
            let little_endian = is_little_endian(format.order);
            unpack_with(&format, data, little_endian)
        },
    }
}

} // verus!
