//! Packing: values into bytes as a format says.
use crate::format::{
    fmt_pack, lemma_tys_view, spec_format, tys_view, FmtType, Format, FormatError, FormatView, Mode,
    Prim, Ty,
};
use crate::native::{is_little_endian, order_is_little};
use crate::traits::pack_one;
use crate::value::{
    elem_parts, encode, encode_all, encode_elems, fits, fits_all, fits_elems, lemma_vals_view,
    scalar_bytes, scalar_fits, vals_view, Val, Value,
};
use vstd::prelude::*;
use vstd::string::StringSliceAdditionalSpecFns;

verus! {

/// Why values could not be packed.
#[derive(Clone, Copy, Debug, PartialEq, Eq, Structural)]
pub enum PackError {
    /// The format string was refused.
    Format(FormatError),
    /// The number of values differs from the number of top-level
    /// specifiers.
    ArgumentCount,
    /// A value is not of the type its specifier names.
    TypeMismatch,
}

/// Appends the scalar `v` as a value of type `p`, if it is one.
fn pack_scalar(p: Prim, v: &Value, little_endian: bool, buf: &mut Vec<u8>) -> (ok: bool)
    ensures
        ok == scalar_fits(p, v@),
        ok ==> final(buf)@ == old(buf)@ + scalar_bytes(v@, little_endian),
{
    match (p, v) {
        (Prim::Char, Value::Char(x)) => {
            pack_one(*x, little_endian, buf);
            true
        },
        (Prim::I8, Value::I8(x)) => {
            pack_one(*x, little_endian, buf);
            true
        },
        (Prim::U8, Value::U8(x)) => {
            pack_one(*x, little_endian, buf);
            true
        },
        (Prim::Bool, Value::Bool(x)) => {
            pack_one(*x, little_endian, buf);
            true
        },
        (Prim::I16, Value::I16(x)) => {
            pack_one(*x, little_endian, buf);
            true
        },
        (Prim::U16, Value::U16(x)) => {
            pack_one(*x, little_endian, buf);
            true
        },
        (Prim::I32, Value::I32(x)) => {
            pack_one(*x, little_endian, buf);
            true
        },
        (Prim::U32, Value::U32(x)) => {
            pack_one(*x, little_endian, buf);
            true
        },
        (Prim::I64, Value::I64(x)) => {
            pack_one(*x, little_endian, buf);
            true
        },
        (Prim::U64, Value::U64(x)) => {
            pack_one(*x, little_endian, buf);
            true
        },
        (Prim::I128, Value::I128(x)) => {
            pack_one(*x, little_endian, buf);
            true
        },
        (Prim::U128, Value::U128(x)) => {
            pack_one(*x, little_endian, buf);
            true
        },
        (Prim::Isize, Value::Isize(x)) => {
            pack_one(*x, little_endian, buf);
            true
        },
        (Prim::Usize, Value::Usize(x)) => {
            pack_one(*x, little_endian, buf);
            true
        },
        (Prim::F32, Value::F32(x)) => {
            pack_one(*x, little_endian, buf);
            true
        },
        (Prim::F64, Value::F64(x)) => {
            pack_one(*x, little_endian, buf);
            true
        },
        (Prim::Ptr, Value::Ptr(x)) => {
            pack_one(*x, little_endian, buf);
            true
        },        (Prim::Str, Value::Str(s)) => {
            pack_one(s.as_str(), little_endian, buf);
            true
        },
        (Prim::Bytes, Value::Bytes(b)) => {
            pack_one(b.as_slice(), little_endian, buf);
            true
        },
        _ => false,
    }
}

/// Whether a prefix of a list of array elements fits wherever the list does.
proof fn lemma_fits_elems_prefix(tys: Seq<Ty>, es: Seq<Val>, j: int)
    requires
        0 <= j <= es.len(),
        fits_elems(tys, es),
    ensures
        fits_elems(tys, es.take(j)),
    decreases es.len(),
{
    if j < es.len() {
        lemma_fits_elems_prefix(tys, es.drop_last(), j);
        assert(es.drop_last().take(j) =~= es.take(j));
    } else {
        assert(es.take(j) =~= es);
    }
}

proof fn lemma_fits_all_prefix(tys: Seq<Ty>, vs: Seq<Val>, j: int)
    requires
        0 <= j <= vs.len(),
        fits_all(tys, vs),
    ensures
        fits_all(tys.take(j), vs.take(j)),
    decreases vs.len(),
{
    if j < vs.len() {
        lemma_fits_all_prefix(tys.drop_last(), vs.drop_last(), j);
        assert(vs.drop_last().take(j) =~= vs.take(j));
        assert(tys.drop_last().take(j) =~= tys.take(j));
    } else {
        assert(vs.take(j) =~= vs);
        assert(tys.take(j) =~= tys);
    }
}

/// Appends `v` as a value of type `t`, if it is one.
fn pack_value(t: &FmtType, v: &Value, little_endian: bool, buf: &mut Vec<u8>) -> (ok: bool)
    ensures
        ok == fits(t@, v@),
        ok ==> final(buf)@ == old(buf)@ + encode(t@, v@, little_endian),
    decreases *t, 0nat,
{
    match t {
        FmtType::Prim(p) => pack_scalar(*p, v, little_endian, buf),
        FmtType::Array(tys, n) => {
            match v {
                Value::Array(es) => {
                    proof {
                        lemma_vals_view(es@);
                    }
                    if es.len() != *n {
                        return false;
                    }
                    pack_elems(tys, es.as_slice(), little_endian, buf)
                },
                _ => false,
            }
        },
    }
}

/// Appends the array elements `es` of the group `tys`, if they are such.
fn pack_elems(tys: &Vec<FmtType>, es: &[Value], little_endian: bool, buf: &mut Vec<u8>) -> (ok:
    bool)
    ensures
        ok == fits_elems(tys_view(tys@), vals_view(es@)),
        ok ==> final(buf)@ == old(buf)@ + encode_elems(
            tys_view(tys@),
            vals_view(es@),
            little_endian,
        ),
    decreases *tys, 2nat,
{
    let ghost tv = tys_view(tys@);
    let ghost ev = vals_view(es@);
    proof {
        lemma_vals_view(es@);
    }
    let ghost start = buf@;
    let mut i: usize = 0;
    assert(ev.take(0) =~= seq![]);
    assert(start =~= start + seq![]);
    while i < es.len()
        invariant
            i <= es@.len(),
            tv == tys_view(tys@),
            ev == vals_view(es@),
            ev.len() == es@.len(),
            forall|m: int| 0 <= m < es@.len() ==> #[trigger] ev[m] == es@[m]@,
            fits_elems(tv, ev.take(i as int)),
            buf@ == start + encode_elems(tv, ev.take(i as int), little_endian),
        decreases es@.len() - i,
    {
        let ok = pack_elem(tys, &es[i], little_endian, buf);
        assert(ev.take(i + 1).drop_last() =~= ev.take(i as int));
        assert(ev.take(i + 1).last() == es@[i as int]@);
        if !ok {
            proof {
                if fits_elems(tv, ev) {
                    lemma_fits_elems_prefix(tv, ev, i + 1);
                }
            }
            return false;
        }
        assert(buf@ =~= start + encode_elems(tv, ev.take(i + 1), little_endian));
        i = i + 1;
    }
    assert(ev.take(es@.len() as int) =~= ev);
    true
}

/// Appends one array element of the group `tys`, if it is one.
fn pack_elem(tys: &Vec<FmtType>, e: &Value, little_endian: bool, buf: &mut Vec<u8>) -> (ok: bool)
    ensures
        ok == (elem_parts(tys_view(tys@), e@) matches Some(vs) && fits_all(tys_view(tys@), vs)),
        ok ==> final(buf)@ == old(buf)@ + encode_all(
            tys_view(tys@),
            elem_parts(tys_view(tys@), e@).unwrap(),
            little_endian,
        ),
    decreases *tys, 1nat,
{
    proof {
        lemma_tys_view(tys@);
    }
    if tys.len() == 1 {
        let ghost tv = tys_view(tys@);
        let ok = pack_value(&tys[0], e, little_endian, buf);
        let ghost one = seq![e@];
        assert(tv.drop_last() =~= Seq::<Ty>::empty());
        assert(one.drop_last() =~= Seq::<Val>::empty());
        assert(one.last() == e@);
        assert(encode_all(tv.drop_last(), one.drop_last(), little_endian) =~= Seq::<u8>::empty());
        assert(fits_all(tv.drop_last(), one.drop_last()));
        assert(encode_all(tv, one, little_endian) =~= encode(tv[0], e@, little_endian));
        assert(fits_all(tv, one) == fits(tv[0], e@));
        ok
    } else {
        match e {
            Value::Tuple(vs) => {
                let ok = pack_all(tys, vs.as_slice(), little_endian, buf);
                ok
            },
            _ => false,
        }
    }
}

/// Appends the values `vs` as values of the types `tys`, one each, if
/// they are.
fn pack_all(tys: &Vec<FmtType>, vs: &[Value], little_endian: bool, buf: &mut Vec<u8>) -> (ok: bool)
    ensures
        ok == fits_all(tys_view(tys@), vals_view(vs@)),
        ok ==> final(buf)@ == old(buf)@ + encode_all(tys_view(tys@), vals_view(vs@), little_endian),
    decreases *tys, 0nat,
{
    let ghost tv = tys_view(tys@);
    let ghost vv = vals_view(vs@);
    proof {
        lemma_tys_view(tys@);
        lemma_vals_view(vs@);
    }
    if tys.len() != vs.len() {
        return false;
    }
    let ghost start = buf@;
    let mut j: usize = 0;
    assert(tv.take(0) =~= seq![]);
    assert(vv.take(0) =~= seq![]);
    assert(start =~= start + seq![]);
    while j < tys.len()
        invariant
            j <= tys@.len(),
            tys@.len() == vs@.len(),
            tv == tys_view(tys@),
            vv == vals_view(vs@),
            tv.len() == tys@.len(),
            vv.len() == vs@.len(),
            forall|m: int| 0 <= m < tys@.len() ==> #[trigger] tv[m] == tys@[m]@,
            forall|m: int| 0 <= m < vs@.len() ==> #[trigger] vv[m] == vs@[m]@,
            fits_all(tv.take(j as int), vv.take(j as int)),
            buf@ == start + encode_all(tv.take(j as int), vv.take(j as int), little_endian),
        decreases tys@.len() - j,
    {
        let ok = pack_value(&tys[j], &vs[j], little_endian, buf);
        assert(tv.take(j + 1).drop_last() =~= tv.take(j as int));
        assert(vv.take(j + 1).drop_last() =~= vv.take(j as int));
        assert(tv.take(j + 1)[j as int] == tys@[j as int]@);
        assert(vv.take(j + 1).last() == vs@[j as int]@);
        if !ok {
            proof {
                if fits_all(tv, vv) {
                    lemma_fits_all_prefix(tv, vv, j + 1);
                }
            }
            return false;
        }
        assert(buf@ =~= start + encode_all(tv.take(j + 1), vv.take(j + 1), little_endian));
        j = j + 1;
    }
    assert(tv.take(tys@.len() as int) =~= tv);
    assert(vv.take(vs@.len() as int) =~= vv);
    true
}

/// Packs `values` as the parsed format `format` says, in the given byte
/// order.
pub fn pack_with(format: &Format, values: &[Value], little_endian: bool) -> (r: Result<
    Vec<u8>,
    PackError,
>)
    ensures
        values@.len() != format.types@.len() ==> r == Err::<Vec<u8>, PackError>(
            PackError::ArgumentCount,
        ),
        values@.len() == format.types@.len() && !fits_all(format@.types, vals_view(values@)) ==> r
            == Err::<Vec<u8>, PackError>(PackError::TypeMismatch),
        fits_all(format@.types, vals_view(values@)) ==> (r matches Ok(bytes) && bytes@
            == encode_all(format@.types, vals_view(values@), little_endian)),
{
    proof {
        lemma_tys_view(format.types@);
        lemma_vals_view(values@);
    }
    if values.len() != format.types.len() {
        return Err(PackError::ArgumentCount);
    }
    let mut buf: Vec<u8> = Vec::new();
    if pack_all(&format.types, values, little_endian, &mut buf) {
        assert(buf@ =~= seq![] + encode_all(format@.types, vals_view(values@), little_endian));
        Ok(buf)
    } else {
        Err(PackError::TypeMismatch)
    }
}

/// Whether `bytes` are what the format `f` makes of `vals` in the byte
/// order it names.
pub open spec fn packs_to(f: FormatView, vals: Seq<Val>, bytes: Seq<u8>) -> bool {
    bytes == encode_all(f.types, vals, order_is_little(f.order))
}

/// What packing `vals` with the format string `fmt` may give: the
/// string's fault, a count or type mismatch, or the bytes of the values in
/// the byte order the string names.
pub open spec fn pack_result(fmt: Seq<u8>, vals: Seq<Val>, r: Result<Vec<u8>, PackError>) -> bool {
    match spec_format(fmt, Mode::Pack) {
        Err(e) => r == Err::<Vec<u8>, PackError>(PackError::Format(e)),
        Ok(f) => {
            &&& vals.len() != f.types.len() ==> r == Err::<Vec<u8>, PackError>(
                PackError::ArgumentCount,
            )
            &&& vals.len() == f.types.len() && !fits_all(f.types, vals) ==> r == Err::<
                Vec<u8>,
                PackError,
            >(PackError::TypeMismatch)
            &&& fits_all(f.types, vals) ==> (r matches Ok(bytes) && packs_to(f, vals, bytes@))
        },
    }
}

/// Packs `values` as the format string `fmt` says. A string the grammar
/// refuses, or values that do not match it in number or type, are reported
/// as errors rather than stopping the program.
pub fn pack(fmt: &str, values: &[Value]) -> (r: Result<Vec<u8>, PackError>)
    ensures
        pack_result(fmt.spec_bytes(), vals_view(values@), r),
{
    match fmt_pack(fmt) {
        Err(e) => Err(PackError::Format(e)),
        Ok(format) => {
            proof {
                lemma_tys_view(format.types@);
            }
            proof {
                lemma_vals_view(values@);
            }
            let little_endian = is_little_endian(format.order);
            pack_with(&format, values, little_endian)
        },
    }
}

} // verus!
