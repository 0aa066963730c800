//! How many bytes a format takes.
use crate::format::{lemma_tys_view, tys_view, FmtType, Format, Prim, Ty};
use vstd::layout::size_of;
use vstd::prelude::*;

verus! {

broadcast use vstd::layout::layout_of_primitives;

/// The number of bytes a scalar of type `p` takes; `s` and `p` take as
/// many as their value holds, and count as none here.
pub open spec fn scalar_size(p: Prim) -> nat {
    match p {
        Prim::Char => 4,
        Prim::I8 => 1,
        Prim::U8 => 1,
        Prim::Bool => 1,
        Prim::I16 => 2,
        Prim::U16 => 2,
        Prim::I32 => 4,
        Prim::U32 => 4,
        Prim::I64 => 8,
        Prim::U64 => 8,
        Prim::I128 => 16,
        Prim::U128 => 16,
        Prim::Isize => size_of::<usize>(),
        Prim::Usize => size_of::<usize>(),
        Prim::F32 => 4,
        Prim::F64 => 8,
        Prim::Ptr => size_of::<usize>(),
        Prim::Str => 0,
        Prim::Bytes => 0,
    }
}

/// `scalar_size`, computed.
fn exec_scalar_size(p: Prim) -> (r: usize)
    ensures
        r == scalar_size(p),
{
    match p {
        Prim::Char => 4,
        Prim::I8 => 1,
        Prim::U8 => 1,
        Prim::Bool => 1,
        Prim::I16 => 2,
        Prim::U16 => 2,
        Prim::I32 => 4,
        Prim::U32 => 4,
        Prim::I64 => 8,
        Prim::U64 => 8,
        Prim::I128 => 16,
        Prim::U128 => 16,
        Prim::Isize => core::mem::size_of::<usize>(),
        Prim::Usize => core::mem::size_of::<usize>(),
        Prim::F32 => 4,
        Prim::F64 => 8,
        Prim::Ptr => core::mem::size_of::<usize>(),
        Prim::Str => 0,
        Prim::Bytes => 0,
    }
}

/// The number of bytes a value of type `t` takes.
pub open spec fn ty_size(t: Ty) -> nat
    decreases t, 0nat,
{
    match t {
        Ty::Prim(p) => scalar_size(p),
        Ty::Array(tys, n) => n * tys_size(tys),
    }
}

/// The number of bytes values of the types `tys`, one each, take.
pub open spec fn tys_size(tys: Seq<Ty>) -> nat
    decreases tys, 0nat,
{
    if tys.len() == 0 {
        0
    } else {
        tys_size(tys.drop_last()) + ty_size(tys[tys.len() - 1])
    }
}

/// The number of bytes of `t`, unless it exceeds `usize::MAX`.
fn size_of_type(t: &FmtType) -> (r: Option<usize>)
    ensures
        ty_size(t@) <= usize::MAX ==> r == Some(ty_size(t@) as usize),
        ty_size(t@) > usize::MAX ==> r is None,
    decreases *t, 0nat,
{
    match t {
        FmtType::Prim(p) => Some(exec_scalar_size(*p)),
        FmtType::Array(tys, n) => match size_of_types(tys) {
            Some(s) => {
                let ghost g = tys_size(tys_view(tys@));
                assert(*n * g >= 0) by (nonlinear_arith);
                if s == 0 {
                    assert(*n * g == 0) by (nonlinear_arith)
                        requires
                            g == 0,
                    ;
                    Some(0)
                } else if *n > usize::MAX / s {
                    assert(*n * g > usize::MAX) by (nonlinear_arith)
                        requires
                            s == g,
                            s > 0,
                            *n > usize::MAX / s,
                    ;
                    None
                } else {
                    assert(*n * g <= usize::MAX) by (nonlinear_arith)
                        requires
                            s == g,
                            s > 0,
                            *n <= usize::MAX / s,
                    ;
                    Some(*n * s)
                }
            },
            None => {
                let ghost g = tys_size(tys_view(tys@));
                if *n == 0 {
                    assert(*n * g == 0) by (nonlinear_arith)
                        requires
                            *n == 0,
                    ;
                    Some(0)
                } else {
                    assert(*n * g >= g) by (nonlinear_arith)
                        requires
                            *n >= 1,
                    ;
                    None
                }
            },
        },
    }
}

/// The number of bytes of the types `tys`, unless it exceeds `usize::MAX`.
fn size_of_types(tys: &Vec<FmtType>) -> (r: Option<usize>)
    ensures
        tys_size(tys_view(tys@)) <= usize::MAX ==> r == Some(tys_size(tys_view(tys@)) as usize),
        tys_size(tys_view(tys@)) > usize::MAX ==> r is None,
    decreases *tys, 1nat,
{
    let ghost tv = tys_view(tys@);
    proof {
        lemma_tys_view(tys@);
    }
    let mut total: usize = 0;
    let mut j: usize = 0;
    assert(tv.take(0) =~= Seq::<Ty>::empty());
    while j < tys.len()
        invariant
            j <= tys@.len(),
            tv == tys_view(tys@),
            tv.len() == tys@.len(),
            forall|m: int| 0 <= m < tys@.len() ==> #[trigger] tv[m] == tys@[m]@,
            total == tys_size(tv.take(j as int)),
        decreases tys@.len() - j,
    {
        assert(tv.take(j + 1).drop_last() =~= tv.take(j as int));
        assert(tv.take(j + 1)[j as int] == tys@[j as int]@);
        match size_of_type(&tys[j]) {
            Some(s) => {
                if s > usize::MAX - total {
                    proof {
                        lemma_tys_size_prefix(tv, j + 1);
                    }
                    return None;
                }
                total = total + s;
            },
            None => {
                proof {
                    lemma_tys_size_prefix(tv, j + 1);
                }
                return None;
            },
        }
        j = j + 1;
    }
    assert(tv.take(tys@.len() as int) =~= tv);
    Some(total)
}

/// The sizes of the first types of a group add up to no more than the
/// size of the group.
proof fn lemma_tys_size_prefix(tys: Seq<Ty>, m: int)
    requires
        0 <= m <= tys.len(),
    ensures
        tys_size(tys.take(m)) <= tys_size(tys),
    decreases tys.len(),
{
    if m < tys.len() {
        assert(tys.drop_last().take(m) =~= tys.take(m));
        lemma_tys_size_prefix(tys.drop_last(), m);
    } else {
        assert(tys.take(m) =~= tys);
    }
}

/// The number of bytes the values of a parsed format take, unless it
/// exceeds `usize::MAX`; for a format without `s` or `p` this is exactly
/// the number of bytes unpacking reads.
pub fn unpack_size(format: &Format) -> (r: Option<usize>)
    ensures
        tys_size(format@.types) <= usize::MAX ==> r == Some(tys_size(format@.types) as usize),
        tys_size(format@.types) > usize::MAX ==> r is None,
{
    size_of_types(&format.types)
}

} // verus!
