//! The `Pack` and `Unpack` traits: how a single value of a Rust type turns
//! into bytes and back, in either byte order.
use crate::codec::{
    be_bytes, from_be, from_bytes, from_le, le_bytes, lemma_from_bytes_bound, lemma_pow256_values,
    lemma_from_be_is_reversed_le, push_be, push_le, read_int,
};
use vstd::layout::size_of;
use vstd::prelude::*;
use vstd::string::StringSliceAdditionalSpecFns;
use vstd::utf8::is_scalar;

verus! {

broadcast use
    vstd::layout::layout_of_primitives,
    vstd::array::axiom_array_ext_equal,
    vstd::array::axiom_spec_array_update,
;

/// A type whose values can be written as bytes.
pub trait Pack: Sized {
    /// The bytes that `pack_le` appends.
    spec fn packed_le(self) -> Seq<u8>;

    /// The bytes that `pack_be` appends.
    spec fn packed_be(self) -> Seq<u8>;

    /// Appends the little-endian encoding of `self` to `buf`.
    fn pack_le(self, buf: &mut Vec<u8>)
        ensures
            final(buf)@ == old(buf)@ + self.packed_le(),
    ;

    /// Appends the big-endian encoding of `self` to `buf`.
    fn pack_be(self, buf: &mut Vec<u8>)
        ensures
            final(buf)@ == old(buf)@ + self.packed_be(),
    ;
}

/// A type whose values can be read back from bytes.
pub trait Unpack: Sized {
    /// The value at the front of `data` in little-endian order and the
    /// number of bytes it takes, or `None` where `data` does not begin with
    /// a valid encoding.
    spec fn unpacked_le(data: Seq<u8>) -> Option<(Self, nat)>;

    /// As `unpacked_le`, in big-endian order.
    spec fn unpacked_be(data: Seq<u8>) -> Option<(Self, nat)>;

    /// Reads one value from the front of `data` and advances `data` past it.
    fn unpack_le(data: &mut &[u8]) -> (v: Self)
        requires
            Self::unpacked_le(old(data)@) is Some,
        ensures
            v == Self::unpacked_le(old(data)@).unwrap().0,
            Self::unpacked_le(old(data)@).unwrap().1 <= old(data)@.len(),
            final(data)@ == old(data)@.skip(Self::unpacked_le(old(data)@).unwrap().1 as int),
    ;

    /// Reads one value from the front of `data`, most significant byte
    /// first, and advances `data` past it.
    fn unpack_be(data: &mut &[u8]) -> (v: Self)
        requires
            Self::unpacked_be(old(data)@) is Some,
        ensures
            v == Self::unpacked_be(old(data)@).unwrap().0,
            Self::unpacked_be(old(data)@).unwrap().1 <= old(data)@.len(),
            final(data)@ == old(data)@.skip(Self::unpacked_be(old(data)@).unwrap().1 as int),
    ;
}

/// Splits the first `n` bytes off `data`.
fn take_front<'a>(data: &mut &'a [u8], n: usize) -> (head: &'a [u8])
    requires
        n <= old(data)@.len(),
    ensures
        head@ == old(data)@.take(n as int),
        final(data)@ == old(data)@.skip(n as int),
{
    let s: &'a [u8] = *data;
    let (head, rest) = s.split_at(n);
    *data = rest;
    head
}

/// `char::from_u32`: the character with the given scalar value, or `None`
/// where the value is a surrogate or lies beyond `0x10FFFF`, as std
/// documents it.
#[verifier::external_body]
fn char_from_u32(v: u32) -> (r: Option<char>)
    ensures
        is_scalar(v) ==> r == Some(v as char),
        !is_scalar(v) ==> r is None,
{
    char::from_u32(v)
}

/// Appends every byte of `bytes` to `buf`.
fn push_all(buf: &mut Vec<u8>, bytes: &[u8])
    ensures
        final(buf)@ == old(buf)@ + bytes@,
{
    let ghost start = buf@;
    let mut i: usize = 0;
    while i < bytes.len()
        invariant
            i <= bytes@.len(),
            buf@ == start + bytes@.take(i as int),
        decreases bytes@.len() - i,
    {
        buf.push(bytes[i]);
        assert(bytes@.take(i + 1) =~= bytes@.take(i as int).push(bytes@[i as int]));
        i = i + 1;
    }
    assert(bytes@.take(bytes@.len() as int) =~= bytes@);
}

/// The bytes `x` packs into in the chosen order.
pub open spec fn packed<T: Pack>(x: T, little_endian: bool) -> Seq<u8> {
    if little_endian {
        x.packed_le()
    } else {
        x.packed_be()
    }
}

/// The value at the front of `data` in the chosen order.
pub open spec fn unpacked<T: Unpack>(data: Seq<u8>, little_endian: bool) -> Option<(T, nat)> {
    if little_endian {
        T::unpacked_le(data)
    } else {
        T::unpacked_be(data)
    }
}

/// Appends `x` to `buf` in the chosen order.
pub fn pack_one<T: Pack>(x: T, little_endian: bool, buf: &mut Vec<u8>)
    ensures
        final(buf)@ == old(buf)@ + packed(x, little_endian),
{
    if little_endian {
        x.pack_le(buf);
    } else {
        x.pack_be(buf);
    }
}

/// Reads one value from the front of `data` in the chosen order.
pub fn unpack_one<T: Unpack>(data: &mut &[u8], little_endian: bool) -> (v: T)
    requires
        unpacked::<T>(old(data)@, little_endian) is Some,
    ensures
        v == unpacked::<T>(old(data)@, little_endian).unwrap().0,
        unpacked::<T>(old(data)@, little_endian).unwrap().1 <= old(data)@.len(),
        final(data)@ == old(data)@.skip(unpacked::<T>(old(data)@, little_endian).unwrap().1 as int),
{
    if little_endian {
        T::unpack_le(data)
    } else {
        T::unpack_be(data)
    }
}


/// The bytes the values `s` pack into, one after the other.
pub open spec fn packed_seq<T: Pack>(s: Seq<T>, little_endian: bool) -> Seq<u8>
    decreases s.len(),
{
    if s.len() == 0 {
        seq![]
    } else {
        packed_seq(s.drop_last(), little_endian) + packed(s.last(), little_endian)
    }
}

/// `n` values of type `T` at the front of `data`, one after the other, and
/// the number of bytes they take.
pub open spec fn unpacked_seq<T: Unpack>(data: Seq<u8>, n: nat, little_endian: bool) -> Option<
    (Seq<T>, nat),
>
    decreases n,
{
    if n == 0 {
        Some((seq![], 0))
    } else {
        match unpacked_seq::<T>(data, (n - 1) as nat, little_endian) {
            Some((s, k)) => match unpacked::<T>(data.skip(k as int), little_endian) {
                Some((x, k2)) => Some((s.push(x), k + k2)),
                None => None,
            },
            None => None,
        }
    }
}

/// Where `n` values can be read, so can fewer.
proof fn lemma_unpacked_seq_prefix<T: Unpack>(data: Seq<u8>, m: nat, n: nat, little_endian: bool)
    requires
        m <= n,
        unpacked_seq::<T>(data, n, little_endian) is Some,
    ensures
        unpacked_seq::<T>(data, m, little_endian) is Some,
    decreases n,
{
    if m < n {
        lemma_unpacked_seq_prefix::<T>(data, m, (n - 1) as nat, little_endian);
    }
}

/// Whether every encoding of a `T` in the chosen order takes exactly `w`
/// bytes and is read from those bytes alone, whatever follows them.
pub open spec fn has_width<T: Unpack>(w: nat, little_endian: bool) -> bool {
    &&& forall|data: Seq<u8>| data.len() < w ==> (#[trigger] unpacked::<T>(data, little_endian)) is None
    &&& forall|data: Seq<u8>, rest: Seq<u8>|
        data.len() == w ==> #[trigger] unpacked::<T>(data + rest, little_endian) == unpacked::<T>(
            data,
            little_endian,
        )
    &&& forall|data: Seq<u8>|
        (#[trigger] unpacked::<T>(data, little_endian)) is Some ==> unpacked::<T>(
            data,
            little_endian,
        )->Some_0.1 == w
}

/// Where every `T` takes `w` bytes, the `i`-th of `n` values read one after
/// another is the value read from bytes `i * w` up to `(i + 1) * w`, and
/// the `n` values take `n * w` bytes.
pub proof fn lemma_unpacked_seq_fixed_width<T: Unpack>(
    data: Seq<u8>,
    n: nat,
    w: nat,
    little_endian: bool,
)
    requires
        has_width::<T>(w, little_endian),
        unpacked_seq::<T>(data, n, little_endian) is Some,
    ensures
        ({
            let (s, k) = unpacked_seq::<T>(data, n, little_endian)->Some_0;
            &&& k == n * w
            &&& k <= data.len()
            &&& s.len() == n
            &&& forall|i: int|
                0 <= i < n ==> unpacked::<T>(
                    #[trigger] data.subrange(i * w, i * w + w),
                    little_endian,
                ) == Some::<(T, nat)>((s[i], w))
        }),
    decreases n,
{
    let le = little_endian;
    if n > 0 {
        lemma_unpacked_seq_fixed_width::<T>(data, (n - 1) as nat, w, le);
        let (s0, k0) = unpacked_seq::<T>(data, (n - 1) as nat, le)->Some_0;
        let tail = data.skip(k0 as int);
        assert(unpacked::<T>(tail, le) is Some);
        if tail.len() < w {
            assert(unpacked::<T>(tail, le) is None);
        }
        let piece = data.subrange(k0 as int, (k0 + w) as int);
        assert(tail =~= piece + data.skip((k0 + w) as int));
        assert(unpacked::<T>(piece + data.skip((k0 + w) as int), le) == unpacked::<T>(piece, le));
        assert((n - 1) * w + w == n * w) by (nonlinear_arith);
        let (s, k) = unpacked_seq::<T>(data, n, le)->Some_0;
        assert forall|i: int| 0 <= i < n implies unpacked::<T>(
            #[trigger] data.subrange(i * w, i * w + w),
            le,
        ) == Some::<(T, nat)>((s[i], w)) by {
            if i < n - 1 {
                assert(s[i] == s0[i]);
            } else {
                assert(i * w == k0) by (nonlinear_arith)
                    requires
                        i == n - 1,
                        k0 == (n - 1) * w,
                ;
            }
        }
    }
}

/// Every integer type, `bool` and `char` has a fixed width: its size in
/// bytes, at native width for `usize` and `isize`.
pub proof fn lemma_scalars_have_width(little_endian: bool)
    ensures
        has_width::<u8>(1 as nat, little_endian),
        has_width::<i8>(1 as nat, little_endian),
        has_width::<u16>(2 as nat, little_endian),
        has_width::<i16>(2 as nat, little_endian),
        has_width::<u32>(4 as nat, little_endian),
        has_width::<i32>(4 as nat, little_endian),
        has_width::<u64>(8 as nat, little_endian),
        has_width::<i64>(8 as nat, little_endian),
        has_width::<u128>(16 as nat, little_endian),
        has_width::<i128>(16 as nat, little_endian),
        has_width::<usize>(size_of::<usize>() as nat, little_endian),
        has_width::<isize>(size_of::<usize>() as nat, little_endian),
        has_width::<bool>(1 as nat, little_endian),
        has_width::<char>(4 as nat, little_endian),
{
    assert forall|data: Seq<u8>, rest: Seq<u8>| data.len() == 1 implies #[trigger] unpacked::<
        u8,
    >(data + rest, little_endian) == unpacked::<u8>(data, little_endian) by {
        assert((data + rest).take(1 as int) =~= data.take(1 as int));
        assert((data + rest)[0] == data[0]);
    }
    assert forall|data: Seq<u8>, rest: Seq<u8>| data.len() == 1 implies #[trigger] unpacked::<
        i8,
    >(data + rest, little_endian) == unpacked::<i8>(data, little_endian) by {
        assert((data + rest).take(1 as int) =~= data.take(1 as int));
        assert((data + rest)[0] == data[0]);
    }
    assert forall|data: Seq<u8>, rest: Seq<u8>| data.len() == 2 implies #[trigger] unpacked::<
        u16,
    >(data + rest, little_endian) == unpacked::<u16>(data, little_endian) by {
        assert((data + rest).take(2 as int) =~= data.take(2 as int));
        assert((data + rest)[0] == data[0]);
    }
    assert forall|data: Seq<u8>, rest: Seq<u8>| data.len() == 2 implies #[trigger] unpacked::<
        i16,
    >(data + rest, little_endian) == unpacked::<i16>(data, little_endian) by {
        assert((data + rest).take(2 as int) =~= data.take(2 as int));
        assert((data + rest)[0] == data[0]);
    }
    assert forall|data: Seq<u8>, rest: Seq<u8>| data.len() == 4 implies #[trigger] unpacked::<
        u32,
    >(data + rest, little_endian) == unpacked::<u32>(data, little_endian) by {
        assert((data + rest).take(4 as int) =~= data.take(4 as int));
        assert((data + rest)[0] == data[0]);
    }
    assert forall|data: Seq<u8>, rest: Seq<u8>| data.len() == 4 implies #[trigger] unpacked::<
        i32,
    >(data + rest, little_endian) == unpacked::<i32>(data, little_endian) by {
        assert((data + rest).take(4 as int) =~= data.take(4 as int));
        assert((data + rest)[0] == data[0]);
    }
    assert forall|data: Seq<u8>, rest: Seq<u8>| data.len() == 8 implies #[trigger] unpacked::<
        u64,
    >(data + rest, little_endian) == unpacked::<u64>(data, little_endian) by {
        assert((data + rest).take(8 as int) =~= data.take(8 as int));
        assert((data + rest)[0] == data[0]);
    }
    assert forall|data: Seq<u8>, rest: Seq<u8>| data.len() == 8 implies #[trigger] unpacked::<
        i64,
    >(data + rest, little_endian) == unpacked::<i64>(data, little_endian) by {
        assert((data + rest).take(8 as int) =~= data.take(8 as int));
        assert((data + rest)[0] == data[0]);
    }
    assert forall|data: Seq<u8>, rest: Seq<u8>| data.len() == 16 implies #[trigger] unpacked::<
        u128,
    >(data + rest, little_endian) == unpacked::<u128>(data, little_endian) by {
        assert((data + rest).take(16 as int) =~= data.take(16 as int));
        assert((data + rest)[0] == data[0]);
    }
    assert forall|data: Seq<u8>, rest: Seq<u8>| data.len() == 16 implies #[trigger] unpacked::<
        i128,
    >(data + rest, little_endian) == unpacked::<i128>(data, little_endian) by {
        assert((data + rest).take(16 as int) =~= data.take(16 as int));
        assert((data + rest)[0] == data[0]);
    }
    assert forall|data: Seq<u8>, rest: Seq<u8>| data.len() == size_of::<usize>() implies #[trigger] unpacked::<
        usize,
    >(data + rest, little_endian) == unpacked::<usize>(data, little_endian) by {
        assert((data + rest).take(size_of::<usize>() as int) =~= data.take(size_of::<usize>() as int));
        assert((data + rest)[0] == data[0]);
    }
    assert forall|data: Seq<u8>, rest: Seq<u8>| data.len() == size_of::<usize>() implies #[trigger] unpacked::<
        isize,
    >(data + rest, little_endian) == unpacked::<isize>(data, little_endian) by {
        assert((data + rest).take(size_of::<usize>() as int) =~= data.take(size_of::<usize>() as int));
        assert((data + rest)[0] == data[0]);
    }
    assert forall|data: Seq<u8>, rest: Seq<u8>| data.len() == 1 implies #[trigger] unpacked::<
        bool,
    >(data + rest, little_endian) == unpacked::<bool>(data, little_endian) by {
        assert((data + rest).take(1 as int) =~= data.take(1 as int));
        assert((data + rest)[0] == data[0]);
    }
    assert forall|data: Seq<u8>, rest: Seq<u8>| data.len() == 4 implies #[trigger] unpacked::<
        char,
    >(data + rest, little_endian) == unpacked::<char>(data, little_endian) by {
        assert((data + rest).take(4 as int) =~= data.take(4 as int));
        assert((data + rest)[0] == data[0]);
    }
}

/// `base` with its first `i` items replaced by those of `s`.
spec fn array_filled<T, const N: usize>(base: [T; N], s: Seq<T>, i: nat) -> [T; N]
    decreases i,
{
    if i == 0 {
        base
    } else {
        vstd::array::spec_array_update(array_filled(base, s, (i - 1) as nat), i - 1, s[i - 1])
    }
}

proof fn lemma_array_filled<T, const N: usize>(base: [T; N], s: Seq<T>, i: nat)
    requires
        s.len() == N,
        i <= N,
    ensures
        array_filled(base, s, i)@ == s.take(i as int) + base@.skip(i as int),
    decreases i,
{
    if i == 0 {
        assert(s.take(0) + base@.skip(0) =~= base@);
    } else {
        lemma_array_filled(base, s, (i - 1) as nat);
        let prev = array_filled(base, s, (i - 1) as nat);
        assert(prev@.update(i - 1, s[i - 1]) =~= s.take(i as int) + base@.skip(i as int));
    }
}

/// Every sequence of `N` items is the view of an array, and `array_of`
/// finds one.
pub proof fn lemma_array_of<T, const N: usize>(s: Seq<T>)
    requires
        s.len() == N,
    ensures
        array_of::<T, N>(s)@ == s,
{
    let base = vstd::pervasive::arbitrary::<[T; N]>();
    lemma_array_filled(base, s, N as nat);
    let a = array_filled(base, s, N as nat);
    assert(a@ =~= s);
}

/// Where every `T` takes `w` bytes, the `i`-th item of an unpacked array
/// is the value read from bytes `i * w` up to `(i + 1) * w`, and the array
/// takes `N * w` bytes.
pub proof fn lemma_array_fixed_width<T: Unpack, const N: usize>(
    data: Seq<u8>,
    w: nat,
    little_endian: bool,
)
    requires
        has_width::<T>(w, little_endian),
        unpacked::<[T; N]>(data, little_endian) is Some,
    ensures
        ({
            let (a, k) = unpacked::<[T; N]>(data, little_endian)->Some_0;
            &&& k == N * w
            &&& k <= data.len()
            &&& forall|i: int|
                0 <= i < N ==> unpacked::<T>(
                    #[trigger] data.subrange(i * w, i * w + w),
                    little_endian,
                ) == Some::<(T, nat)>((a@[i], w))
        }),
{
    lemma_unpacked_seq_fixed_width::<T>(data, N as nat, w, little_endian);
    let (s, k) = unpacked_seq::<T>(data, N as nat, little_endian)->Some_0;
    lemma_array_of::<T, N>(s);
}

/// The bytes of values packed one after the other are the bytes of each
/// in turn: packing two runs is packing the first, then the second, and a
/// run of one value packs as that value.
pub proof fn lemma_packed_seq_in_order<T: Pack>(s: Seq<T>, u: Seq<T>, little_endian: bool)
    ensures
        packed_seq(s + u, little_endian) == packed_seq(s, little_endian) + packed_seq(
            u,
            little_endian,
        ),
        forall|x: T| #[trigger] packed_seq(seq![x], little_endian) == packed(x, little_endian),
    decreases u.len(),
{
    let le = little_endian;
    assert forall|x: T| #[trigger] packed_seq(seq![x], le) == packed(x, le) by {
        assert(seq![x].drop_last() =~= Seq::<T>::empty());
        assert(packed_seq(Seq::<T>::empty(), le) + packed(x, le) =~= packed(x, le));
    }
    if u.len() == 0 {
        assert(s + u =~= s);
        assert(packed_seq(s, le) + packed_seq(u, le) =~= packed_seq(s, le));
    } else {
        lemma_packed_seq_in_order(s, u.drop_last(), le);
        assert((s + u).drop_last() =~= s + u.drop_last());
        assert((s + u).last() == u.last());
        assert(packed_seq(s + u, le) =~= packed_seq(s, le) + packed_seq(u, le));
    }
}

/// Whether reading a `T` never takes more bytes than there are.
pub open spec fn reads_within<T: Unpack>(little_endian: bool) -> bool {
    forall|d: Seq<u8>|
        (#[trigger] unpacked::<T>(d, little_endian)) is Some ==> unpacked::<T>(
            d,
            little_endian,
        )->Some_0.1 <= d.len()
}

/// Values read one after the other are read from the front: the first is
/// read from the start of the bytes, and the rest from the bytes after it.
pub proof fn lemma_unpacked_seq_from_front<T: Unpack>(d: Seq<u8>, n: nat, little_endian: bool)
    requires
        reads_within::<T>(little_endian),
        n > 0,
        unpacked_seq::<T>(d, n, little_endian) is Some,
    ensures
        ({
            let (s, k) = unpacked_seq::<T>(d, n, little_endian)->Some_0;
            &&& unpacked::<T>(d, little_endian) is Some
            &&& s.len() == n
            &&& k <= d.len()
            &&& unpacked::<T>(d, little_endian)->Some_0.1 <= k
            &&& s[0] == unpacked::<T>(d, little_endian)->Some_0.0
            &&& unpacked_seq::<T>(
                d.skip(unpacked::<T>(d, little_endian)->Some_0.1 as int),
                (n - 1) as nat,
                little_endian,
            ) == Some::<(Seq<T>, nat)>(
                (s.drop_first(), (k - unpacked::<T>(d, little_endian)->Some_0.1) as nat),
            )
        }),
    decreases n,
{
    let le = little_endian;
    let (s, k) = unpacked_seq::<T>(d, n, le)->Some_0;
    let (s1, k1) = unpacked_seq::<T>(d, (n - 1) as nat, le)->Some_0;
    let tail = d.skip(k1 as int);
    if n == 1 {
        assert(s1 =~= Seq::<T>::empty());
        assert(k1 == 0);
        assert(tail =~= d);
        let k0 = unpacked::<T>(d, le)->Some_0.1;
        assert(k0 <= d.len());
        assert(d.skip(k0 as int).len() == d.len() - k0);
        assert(s.drop_first() =~= Seq::<T>::empty());
        assert(unpacked_seq::<T>(d.skip(k0 as int), 0, le) == Some::<(Seq<T>, nat)>(
            (Seq::<T>::empty(), 0nat),
        ));
    } else {
        lemma_unpacked_seq_from_front::<T>(d, (n - 1) as nat, le);
        let (x0, k0) = unpacked::<T>(d, le)->Some_0;
        let rest = d.skip(k0 as int);
        let (x, kx) = unpacked::<T>(tail, le)->Some_0;
        assert(kx <= tail.len());
        assert(rest.skip((k1 - k0) as int) =~= tail);
        assert(s1.drop_first().push(x) =~= s.drop_first());
    }
}

/// A type whose every encoding has one width never reads past the bytes
/// there are.
pub proof fn lemma_width_reads_within<T: Unpack>(w: nat, little_endian: bool)
    requires
        has_width::<T>(w, little_endian),
    ensures
        reads_within::<T>(little_endian),
{
    assert forall|d: Seq<u8>| (#[trigger] unpacked::<T>(d, little_endian)) is Some implies unpacked::<
        T,
    >(d, little_endian)->Some_0.1 <= d.len() by {
        if d.len() < w {
            assert(unpacked::<T>(d, little_endian) is None);
        }
    }
}

/// An array packs as its items one after the other, first item first, and
/// unpacks as `N` items read one after the other, the array's items being
/// exactly the items read.
pub proof fn lemma_array_impls<T: Pack + Unpack, const N: usize>()
    ensures
        forall|a: [T; N], le: bool| #[trigger] packed(a, le) == packed_seq(a@, le),
        forall|d: Seq<u8>, le: bool|
            (#[trigger] unpacked::<[T; N]>(d, le)) is Some <==> unpacked_seq::<T>(d, N as nat, le) is Some,
        forall|d: Seq<u8>, le: bool|
            (#[trigger] unpacked::<[T; N]>(d, le)) is Some ==> unpacked::<[T; N]>(
                d,
                le,
            )->Some_0.0@ == unpacked_seq::<T>(d, N as nat, le)->Some_0.0 && unpacked::<[T; N]>(
                d,
                le,
            )->Some_0.1 == unpacked_seq::<T>(d, N as nat, le)->Some_0.1,
{
    assert forall|d: Seq<u8>, le: bool|
        (#[trigger] unpacked::<[T; N]>(d, le)) is Some implies unpacked::<[T; N]>(
            d,
            le,
        )->Some_0.0@ == unpacked_seq::<T>(d, N as nat, le)->Some_0.0 by {
        let s = unpacked_seq::<T>(d, N as nat, le)->Some_0.0;
        lemma_unpacked_seq_len::<T>(d, N as nat, le);
        lemma_array_of::<T, N>(s);
    }
}

/// `n` values read one after the other are `n` values.
pub proof fn lemma_unpacked_seq_len<T: Unpack>(d: Seq<u8>, n: nat, little_endian: bool)
    ensures
        unpacked_seq::<T>(d, n, little_endian) is Some ==> unpacked_seq::<T>(
            d,
            n,
            little_endian,
        )->Some_0.0.len() == n,
    decreases n,
{
    if n > 0 {
        lemma_unpacked_seq_len::<T>(d, (n - 1) as nat, little_endian);
    }
}

/// `Vec::from` on an array: a vector holding the array's items in order,
/// as std documents.
#[verifier::external_body]
fn array_into_vec<T, const N: usize>(a: [T; N]) -> (v: Vec<T>)
    ensures
        v@ == a@,
{
    Vec::from(a)
}

/// `<[T; N]>::try_from` on a vector: the vector's items as an array where
/// it holds exactly `N` of them, else the vector back, as std documents.
#[verifier::external_body]
fn vec_into_array<T, const N: usize>(v: Vec<T>) -> (r: Result<[T; N], Vec<T>>)
    ensures
        r is Ok <==> v@.len() == N,
        r is Ok ==> r->Ok_0@ == v@,
        r is Err ==> r->Err_0@ == v@,
{
    <[T; N]>::try_from(v)
}

/// Appends the items of `a`, each in the chosen order.
fn pack_array<T: Pack, const N: usize>(a: [T; N], little_endian: bool, buf: &mut Vec<u8>)
    ensures
        final(buf)@ == old(buf)@ + packed_seq(a@, little_endian),
{
    let ghost items = a@;
    let ghost start = buf@;
    let mut v = array_into_vec(a);
    let ghost len = v@.len();
    let mut i: usize = 0;
    assert(items.take(0) =~= Seq::<T>::empty());
    assert(items.skip(0) =~= items);
    assert(start =~= start + Seq::<u8>::empty());
    while v.len() > 0
        invariant
            i <= len,
            len == items.len(),
            len == N,
            v@ == items.skip(i as int),
            buf@ == start + packed_seq(items.take(i as int), little_endian),
        decreases v@.len(),
    {
        let x = v.remove(0);
        pack_one(x, little_endian, buf);
        assert(items.take(i + 1).drop_last() =~= items.take(i as int));
        assert(items.skip(i + 1) =~= items.skip(i as int).remove(0));
        assert(buf@ =~= start + packed_seq(items.take(i + 1), little_endian));
        i = i + 1;
    }
    assert(items.take(i as int) =~= items);
}

/// Reads `N` items from the front of `data`, each in the chosen order.
fn unpack_array<T: Unpack, const N: usize>(data: &mut &[u8], little_endian: bool) -> (a: [T; N])
    requires
        unpacked_seq::<T>(old(data)@, N as nat, little_endian) is Some,
    ensures
        a@ == unpacked_seq::<T>(old(data)@, N as nat, little_endian).unwrap().0,
        unpacked_seq::<T>(old(data)@, N as nat, little_endian).unwrap().1 <= old(data)@.len(),
        final(data)@ == old(data)@.skip(
            unpacked_seq::<T>(old(data)@, N as nat, little_endian).unwrap().1 as int,
        ),
{
    let ghost d0 = data@;
    let mut v: Vec<T> = Vec::new();
    let mut i: usize = 0;
    assert(d0.skip(0) =~= d0);
    while i < N
        invariant
            i <= N,
            v@.len() == i,
            d0 == old(data)@,
            unpacked_seq::<T>(d0, N as nat, little_endian) is Some,
            data@.len() <= d0.len(),
            data@ == d0.skip(d0.len() - data@.len()),
            unpacked_seq::<T>(d0, i as nat, little_endian) == Some::<(Seq<T>, nat)>(
                (v@, (d0.len() - data@.len()) as nat),
            ),
        decreases N - i,
    {
        proof {
            lemma_unpacked_seq_prefix::<T>(d0, (i + 1) as nat, N as nat, little_endian);
        }
        let ghost before = data@;
        let ghost k = (d0.len() - data@.len()) as nat;
        let x = unpack_one::<T>(data, little_endian);
        proof {
            let k2 = unpacked::<T>(before, little_endian).unwrap().1;
            assert(before.skip(k2 as int) =~= d0.skip((k + k2) as int));
        }
        v.push(x);
        i = i + 1;
    }
    match vec_into_array::<T, N>(v) {
        Ok(a) => a,
        Err(_) => vstd::pervasive::unreached(),
    }
}

impl<T: Pack, const N: usize> Pack for [T; N] {
    open spec fn packed_le(self) -> Seq<u8> {
        packed_seq(self@, true)
    }

    open spec fn packed_be(self) -> Seq<u8> {
        packed_seq(self@, false)
    }

    fn pack_le(self, buf: &mut Vec<u8>) {
        pack_array(self, true, buf);
    }

    fn pack_be(self, buf: &mut Vec<u8>) {
        pack_array(self, false, buf);
    }
}

/// The array whose items are `s`.
pub open spec fn array_of<T, const N: usize>(s: Seq<T>) -> [T; N] {
    choose|a: [T; N]| a@ == s
}

/// `N` values of type `T` at the front of `data`, as an array.
pub open spec fn unpacked_array<T: Unpack, const N: usize>(data: Seq<u8>, little_endian: bool) -> Option<
    ([T; N], nat),
> {
    match unpacked_seq::<T>(data, N as nat, little_endian) {
        Some((s, k)) => Some((array_of::<T, N>(s), k)),
        None => None,
    }
}

impl<T: Unpack, const N: usize> Unpack for [T; N] {
    open spec fn unpacked_le(data: Seq<u8>) -> Option<(Self, nat)> {
        unpacked_array::<T, N>(data, true)
    }

    open spec fn unpacked_be(data: Seq<u8>) -> Option<(Self, nat)> {
        unpacked_array::<T, N>(data, false)
    }

    fn unpack_le(data: &mut &[u8]) -> (v: Self) {
        let a = unpack_array::<T, N>(data, true);
        proof {
            let b = array_of::<T, N>(a@);
            assert(b@ == a@);
            assert(b =~= a);
        }
        a
    }

    fn unpack_be(data: &mut &[u8]) -> (v: Self) {
        let a = unpack_array::<T, N>(data, false);
        proof {
            let b = array_of::<T, N>(a@);
            assert(b@ == a@);
            assert(b =~= a);
        }
        a
    }
}

/// Unpacking, in the chosen order, the bytes of any `T` followed by
/// anything gives the value back and takes exactly its bytes.
pub open spec fn roundtrips<T: Pack + Unpack>(little_endian: bool) -> bool {
    forall|x: T, rest: Seq<u8>|
        #[trigger] unpacked::<T>(packed(x, little_endian) + rest, little_endian) == Some::<
            (T, nat),
        >((x, packed(x, little_endian).len()))
}

/// Reading back `n` values of a type that round-trips gives them back.
pub proof fn lemma_unpacked_seq_packed<T: Pack + Unpack>(
    s: Seq<T>,
    rest: Seq<u8>,
    little_endian: bool,
)
    requires
        roundtrips::<T>(little_endian),
    ensures
        unpacked_seq::<T>(packed_seq(s, little_endian) + rest, s.len(), little_endian) == Some::<
            (Seq<T>, nat),
        >((s, packed_seq(s, little_endian).len())),
    decreases s.len(),
{
    let le = little_endian;
    if s.len() == 0 {
        assert(s =~= Seq::<T>::empty());
    } else {
        let front = s.drop_last();
        let x = s.last();
        let p = packed_seq(front, le);
        let q = packed(x, le);
        let data = packed_seq(s, le) + rest;
        assert(data =~= p + (q + rest));
        lemma_unpacked_seq_packed(front, q + rest, le);
        assert(data.skip(p.len() as int) =~= q + rest);
        assert(unpacked::<T>(q + rest, le) == Some::<(T, nat)>((x, q.len())));
        assert(front.push(x) =~= s);
    }
}

/// Arrays of a type that round-trips round-trip.
pub proof fn lemma_array_roundtrips<T: Pack + Unpack, const N: usize>(little_endian: bool)
    requires
        roundtrips::<T>(little_endian),
    ensures
        roundtrips::<[T; N]>(little_endian),
{
    assert forall|a: [T; N], rest: Seq<u8>| #[trigger]
        unpacked::<[T; N]>(packed(a, little_endian) + rest, little_endian) == Some::<([T; N], nat)>(
            (a, packed(a, little_endian).len()),
        ) by {
        lemma_unpacked_seq_packed::<T>(a@, rest, little_endian);
        let b = array_of::<T, N>(a@);
        assert(b@ == a@);
        assert(b =~= a);
    }
}

/// Reading an integer big-endian is reading the same bytes, swapped,
/// little-endian.
pub proof fn lemma_unpack_be_is_swapped_le()
    ensures
        forall|d: Seq<u8>| d.len() >= 1 ==> #[trigger] u8::unpacked_be(d) == u8::unpacked_le(
            d.take(1 as int).reverse(),
        ),
        forall|d: Seq<u8>| d.len() >= 1 ==> #[trigger] i8::unpacked_be(d) == i8::unpacked_le(
            d.take(1 as int).reverse(),
        ),
        forall|d: Seq<u8>| d.len() >= 2 ==> #[trigger] u16::unpacked_be(d) == u16::unpacked_le(
            d.take(2 as int).reverse(),
        ),
        forall|d: Seq<u8>| d.len() >= 2 ==> #[trigger] i16::unpacked_be(d) == i16::unpacked_le(
            d.take(2 as int).reverse(),
        ),
        forall|d: Seq<u8>| d.len() >= 4 ==> #[trigger] u32::unpacked_be(d) == u32::unpacked_le(
            d.take(4 as int).reverse(),
        ),
        forall|d: Seq<u8>| d.len() >= 4 ==> #[trigger] i32::unpacked_be(d) == i32::unpacked_le(
            d.take(4 as int).reverse(),
        ),
        forall|d: Seq<u8>| d.len() >= 8 ==> #[trigger] u64::unpacked_be(d) == u64::unpacked_le(
            d.take(8 as int).reverse(),
        ),
        forall|d: Seq<u8>| d.len() >= 8 ==> #[trigger] i64::unpacked_be(d) == i64::unpacked_le(
            d.take(8 as int).reverse(),
        ),
        forall|d: Seq<u8>| d.len() >= 16 ==> #[trigger] u128::unpacked_be(d) == u128::unpacked_le(
            d.take(16 as int).reverse(),
        ),
        forall|d: Seq<u8>| d.len() >= 16 ==> #[trigger] i128::unpacked_be(d) == i128::unpacked_le(
            d.take(16 as int).reverse(),
        ),
        forall|d: Seq<u8>| d.len() >= size_of::<usize>() ==> #[trigger] usize::unpacked_be(d) == usize::unpacked_le(
            d.take(size_of::<usize>() as int).reverse(),
        ),
        forall|d: Seq<u8>| d.len() >= size_of::<usize>() ==> #[trigger] isize::unpacked_be(d) == isize::unpacked_le(
            d.take(size_of::<usize>() as int).reverse(),
        ),
{
    assert forall|d: Seq<u8>| d.len() >= 1 implies #[trigger] u8::unpacked_be(d) == u8::unpacked_le(
        d.take(1 as int).reverse(),
    ) by {
        lemma_from_be_is_reversed_le(d.take(1 as int));
        assert(d.take(1 as int).reverse().take(1 as int) =~= d.take(1 as int).reverse());
    }
    assert forall|d: Seq<u8>| d.len() >= 1 implies #[trigger] i8::unpacked_be(d) == i8::unpacked_le(
        d.take(1 as int).reverse(),
    ) by {
        lemma_from_be_is_reversed_le(d.take(1 as int));
        assert(d.take(1 as int).reverse().take(1 as int) =~= d.take(1 as int).reverse());
    }
    assert forall|d: Seq<u8>| d.len() >= 2 implies #[trigger] u16::unpacked_be(d) == u16::unpacked_le(
        d.take(2 as int).reverse(),
    ) by {
        lemma_from_be_is_reversed_le(d.take(2 as int));
        assert(d.take(2 as int).reverse().take(2 as int) =~= d.take(2 as int).reverse());
    }
    assert forall|d: Seq<u8>| d.len() >= 2 implies #[trigger] i16::unpacked_be(d) == i16::unpacked_le(
        d.take(2 as int).reverse(),
    ) by {
        lemma_from_be_is_reversed_le(d.take(2 as int));
        assert(d.take(2 as int).reverse().take(2 as int) =~= d.take(2 as int).reverse());
    }
    assert forall|d: Seq<u8>| d.len() >= 4 implies #[trigger] u32::unpacked_be(d) == u32::unpacked_le(
        d.take(4 as int).reverse(),
    ) by {
        lemma_from_be_is_reversed_le(d.take(4 as int));
        assert(d.take(4 as int).reverse().take(4 as int) =~= d.take(4 as int).reverse());
    }
    assert forall|d: Seq<u8>| d.len() >= 4 implies #[trigger] i32::unpacked_be(d) == i32::unpacked_le(
        d.take(4 as int).reverse(),
    ) by {
        lemma_from_be_is_reversed_le(d.take(4 as int));
        assert(d.take(4 as int).reverse().take(4 as int) =~= d.take(4 as int).reverse());
    }
    assert forall|d: Seq<u8>| d.len() >= 8 implies #[trigger] u64::unpacked_be(d) == u64::unpacked_le(
        d.take(8 as int).reverse(),
    ) by {
        lemma_from_be_is_reversed_le(d.take(8 as int));
        assert(d.take(8 as int).reverse().take(8 as int) =~= d.take(8 as int).reverse());
    }
    assert forall|d: Seq<u8>| d.len() >= 8 implies #[trigger] i64::unpacked_be(d) == i64::unpacked_le(
        d.take(8 as int).reverse(),
    ) by {
        lemma_from_be_is_reversed_le(d.take(8 as int));
        assert(d.take(8 as int).reverse().take(8 as int) =~= d.take(8 as int).reverse());
    }
    assert forall|d: Seq<u8>| d.len() >= 16 implies #[trigger] u128::unpacked_be(d) == u128::unpacked_le(
        d.take(16 as int).reverse(),
    ) by {
        lemma_from_be_is_reversed_le(d.take(16 as int));
        assert(d.take(16 as int).reverse().take(16 as int) =~= d.take(16 as int).reverse());
    }
    assert forall|d: Seq<u8>| d.len() >= 16 implies #[trigger] i128::unpacked_be(d) == i128::unpacked_le(
        d.take(16 as int).reverse(),
    ) by {
        lemma_from_be_is_reversed_le(d.take(16 as int));
        assert(d.take(16 as int).reverse().take(16 as int) =~= d.take(16 as int).reverse());
    }
    assert forall|d: Seq<u8>| d.len() >= size_of::<usize>() implies #[trigger] usize::unpacked_be(d) == usize::unpacked_le(
        d.take(size_of::<usize>() as int).reverse(),
    ) by {
        lemma_from_be_is_reversed_le(d.take(size_of::<usize>() as int));
        assert(d.take(size_of::<usize>() as int).reverse().take(size_of::<usize>() as int) =~= d.take(size_of::<usize>() as int).reverse());
    }
    assert forall|d: Seq<u8>| d.len() >= size_of::<usize>() implies #[trigger] isize::unpacked_be(d) == isize::unpacked_le(
        d.take(size_of::<usize>() as int).reverse(),
    ) by {
        lemma_from_be_is_reversed_le(d.take(size_of::<usize>() as int));
        assert(d.take(size_of::<usize>() as int).reverse().take(size_of::<usize>() as int) =~= d.take(size_of::<usize>() as int).reverse());
    }
}

/// What each scalar impl writes and reads, over all values and all byte
/// strings:
/// - an integer packs as its two's-complement bytes at its width
///   (`usize`/`isize` at native width), least significant first for
///   `pack_le` and most significant first for `pack_be`, and unpacks from
///   the first bytes of its width read the same way;
/// - a `bool` is the one byte `1` or `0`, and only those bytes unpack;
/// - a `char` is its scalar value as four bytes, and unpacks only where those
///   bytes hold a scalar value;
/// - a string slice packs as its UTF-8 bytes and a byte slice as its bytes,
///   in either byte order.
pub proof fn lemma_scalar_impls()
    ensures
        forall|x: u8|
            #![trigger x.packed_le()]
            #![trigger x.packed_be()]
            x.packed_le() == le_bytes(x as nat, 1) && x.packed_be() == be_bytes(x as nat, 1),
        forall|d: Seq<u8>|
            #![trigger u8::unpacked_le(d)]
            #![trigger u8::unpacked_be(d)]
            d.len() >= 1 ==> u8::unpacked_le(d) == Some::<(u8, nat)>(
                ((from_le(d.take(1 as int))) as u8, 1 as nat),
            ) && u8::unpacked_be(d) == Some::<(u8, nat)>(
                ((from_be(d.take(1 as int))) as u8, 1 as nat),
            ),
        forall|d: Seq<u8>|
            #![trigger u8::unpacked_le(d)]
            #![trigger u8::unpacked_be(d)]
            d.len() < 1 ==> u8::unpacked_le(d) is None && u8::unpacked_be(d) is None,
        forall|x: i8|
            #![trigger x.packed_le()]
            #![trigger x.packed_be()]
            x.packed_le() == le_bytes(x as u8 as nat, 1) && x.packed_be() == be_bytes(x as u8 as nat, 1),
        forall|d: Seq<u8>|
            #![trigger i8::unpacked_le(d)]
            #![trigger i8::unpacked_be(d)]
            d.len() >= 1 ==> i8::unpacked_le(d) == Some::<(i8, nat)>(
                (((from_le(d.take(1 as int))) as u8) as i8, 1 as nat),
            ) && i8::unpacked_be(d) == Some::<(i8, nat)>(
                (((from_be(d.take(1 as int))) as u8) as i8, 1 as nat),
            ),
        forall|d: Seq<u8>|
            #![trigger i8::unpacked_le(d)]
            #![trigger i8::unpacked_be(d)]
            d.len() < 1 ==> i8::unpacked_le(d) is None && i8::unpacked_be(d) is None,
        forall|x: u16|
            #![trigger x.packed_le()]
            #![trigger x.packed_be()]
            x.packed_le() == le_bytes(x as nat, 2) && x.packed_be() == be_bytes(x as nat, 2),
        forall|d: Seq<u8>|
            #![trigger u16::unpacked_le(d)]
            #![trigger u16::unpacked_be(d)]
            d.len() >= 2 ==> u16::unpacked_le(d) == Some::<(u16, nat)>(
                ((from_le(d.take(2 as int))) as u16, 2 as nat),
            ) && u16::unpacked_be(d) == Some::<(u16, nat)>(
                ((from_be(d.take(2 as int))) as u16, 2 as nat),
            ),
        forall|d: Seq<u8>|
            #![trigger u16::unpacked_le(d)]
            #![trigger u16::unpacked_be(d)]
            d.len() < 2 ==> u16::unpacked_le(d) is None && u16::unpacked_be(d) is None,
        forall|x: i16|
            #![trigger x.packed_le()]
            #![trigger x.packed_be()]
            x.packed_le() == le_bytes(x as u16 as nat, 2) && x.packed_be() == be_bytes(x as u16 as nat, 2),
        forall|d: Seq<u8>|
            #![trigger i16::unpacked_le(d)]
            #![trigger i16::unpacked_be(d)]
            d.len() >= 2 ==> i16::unpacked_le(d) == Some::<(i16, nat)>(
                (((from_le(d.take(2 as int))) as u16) as i16, 2 as nat),
            ) && i16::unpacked_be(d) == Some::<(i16, nat)>(
                (((from_be(d.take(2 as int))) as u16) as i16, 2 as nat),
            ),
        forall|d: Seq<u8>|
            #![trigger i16::unpacked_le(d)]
            #![trigger i16::unpacked_be(d)]
            d.len() < 2 ==> i16::unpacked_le(d) is None && i16::unpacked_be(d) is None,
        forall|x: u32|
            #![trigger x.packed_le()]
            #![trigger x.packed_be()]
            x.packed_le() == le_bytes(x as nat, 4) && x.packed_be() == be_bytes(x as nat, 4),
        forall|d: Seq<u8>|
            #![trigger u32::unpacked_le(d)]
            #![trigger u32::unpacked_be(d)]
            d.len() >= 4 ==> u32::unpacked_le(d) == Some::<(u32, nat)>(
                ((from_le(d.take(4 as int))) as u32, 4 as nat),
            ) && u32::unpacked_be(d) == Some::<(u32, nat)>(
                ((from_be(d.take(4 as int))) as u32, 4 as nat),
            ),
        forall|d: Seq<u8>|
            #![trigger u32::unpacked_le(d)]
            #![trigger u32::unpacked_be(d)]
            d.len() < 4 ==> u32::unpacked_le(d) is None && u32::unpacked_be(d) is None,
        forall|x: i32|
            #![trigger x.packed_le()]
            #![trigger x.packed_be()]
            x.packed_le() == le_bytes(x as u32 as nat, 4) && x.packed_be() == be_bytes(x as u32 as nat, 4),
        forall|d: Seq<u8>|
            #![trigger i32::unpacked_le(d)]
            #![trigger i32::unpacked_be(d)]
            d.len() >= 4 ==> i32::unpacked_le(d) == Some::<(i32, nat)>(
                (((from_le(d.take(4 as int))) as u32) as i32, 4 as nat),
            ) && i32::unpacked_be(d) == Some::<(i32, nat)>(
                (((from_be(d.take(4 as int))) as u32) as i32, 4 as nat),
            ),
        forall|d: Seq<u8>|
            #![trigger i32::unpacked_le(d)]
            #![trigger i32::unpacked_be(d)]
            d.len() < 4 ==> i32::unpacked_le(d) is None && i32::unpacked_be(d) is None,
        forall|x: u64|
            #![trigger x.packed_le()]
            #![trigger x.packed_be()]
            x.packed_le() == le_bytes(x as nat, 8) && x.packed_be() == be_bytes(x as nat, 8),
        forall|d: Seq<u8>|
            #![trigger u64::unpacked_le(d)]
            #![trigger u64::unpacked_be(d)]
            d.len() >= 8 ==> u64::unpacked_le(d) == Some::<(u64, nat)>(
                ((from_le(d.take(8 as int))) as u64, 8 as nat),
            ) && u64::unpacked_be(d) == Some::<(u64, nat)>(
                ((from_be(d.take(8 as int))) as u64, 8 as nat),
            ),
        forall|d: Seq<u8>|
            #![trigger u64::unpacked_le(d)]
            #![trigger u64::unpacked_be(d)]
            d.len() < 8 ==> u64::unpacked_le(d) is None && u64::unpacked_be(d) is None,
        forall|x: i64|
            #![trigger x.packed_le()]
            #![trigger x.packed_be()]
            x.packed_le() == le_bytes(x as u64 as nat, 8) && x.packed_be() == be_bytes(x as u64 as nat, 8),
        forall|d: Seq<u8>|
            #![trigger i64::unpacked_le(d)]
            #![trigger i64::unpacked_be(d)]
            d.len() >= 8 ==> i64::unpacked_le(d) == Some::<(i64, nat)>(
                (((from_le(d.take(8 as int))) as u64) as i64, 8 as nat),
            ) && i64::unpacked_be(d) == Some::<(i64, nat)>(
                (((from_be(d.take(8 as int))) as u64) as i64, 8 as nat),
            ),
        forall|d: Seq<u8>|
            #![trigger i64::unpacked_le(d)]
            #![trigger i64::unpacked_be(d)]
            d.len() < 8 ==> i64::unpacked_le(d) is None && i64::unpacked_be(d) is None,
        forall|x: u128|
            #![trigger x.packed_le()]
            #![trigger x.packed_be()]
            x.packed_le() == le_bytes(x as nat, 16) && x.packed_be() == be_bytes(x as nat, 16),
        forall|d: Seq<u8>|
            #![trigger u128::unpacked_le(d)]
            #![trigger u128::unpacked_be(d)]
            d.len() >= 16 ==> u128::unpacked_le(d) == Some::<(u128, nat)>(
                ((from_le(d.take(16 as int))) as u128, 16 as nat),
            ) && u128::unpacked_be(d) == Some::<(u128, nat)>(
                ((from_be(d.take(16 as int))) as u128, 16 as nat),
            ),
        forall|d: Seq<u8>|
            #![trigger u128::unpacked_le(d)]
            #![trigger u128::unpacked_be(d)]
            d.len() < 16 ==> u128::unpacked_le(d) is None && u128::unpacked_be(d) is None,
        forall|x: i128|
            #![trigger x.packed_le()]
            #![trigger x.packed_be()]
            x.packed_le() == le_bytes(x as u128 as nat, 16) && x.packed_be() == be_bytes(x as u128 as nat, 16),
        forall|d: Seq<u8>|
            #![trigger i128::unpacked_le(d)]
            #![trigger i128::unpacked_be(d)]
            d.len() >= 16 ==> i128::unpacked_le(d) == Some::<(i128, nat)>(
                (((from_le(d.take(16 as int))) as u128) as i128, 16 as nat),
            ) && i128::unpacked_be(d) == Some::<(i128, nat)>(
                (((from_be(d.take(16 as int))) as u128) as i128, 16 as nat),
            ),
        forall|d: Seq<u8>|
            #![trigger i128::unpacked_le(d)]
            #![trigger i128::unpacked_be(d)]
            d.len() < 16 ==> i128::unpacked_le(d) is None && i128::unpacked_be(d) is None,
        forall|x: usize|
            #![trigger x.packed_le()]
            #![trigger x.packed_be()]
            x.packed_le() == le_bytes(x as nat, size_of::<usize>()) && x.packed_be() == be_bytes(x as nat, size_of::<usize>()),
        forall|d: Seq<u8>|
            #![trigger usize::unpacked_le(d)]
            #![trigger usize::unpacked_be(d)]
            d.len() >= size_of::<usize>() ==> usize::unpacked_le(d) == Some::<(usize, nat)>(
                ((from_le(d.take(size_of::<usize>() as int))) as usize, size_of::<usize>() as nat),
            ) && usize::unpacked_be(d) == Some::<(usize, nat)>(
                ((from_be(d.take(size_of::<usize>() as int))) as usize, size_of::<usize>() as nat),
            ),
        forall|d: Seq<u8>|
            #![trigger usize::unpacked_le(d)]
            #![trigger usize::unpacked_be(d)]
            d.len() < size_of::<usize>() ==> usize::unpacked_le(d) is None && usize::unpacked_be(d) is None,
        forall|x: isize|
            #![trigger x.packed_le()]
            #![trigger x.packed_be()]
            x.packed_le() == le_bytes(x as usize as nat, size_of::<usize>()) && x.packed_be() == be_bytes(x as usize as nat, size_of::<usize>()),
        forall|d: Seq<u8>|
            #![trigger isize::unpacked_le(d)]
            #![trigger isize::unpacked_be(d)]
            d.len() >= size_of::<usize>() ==> isize::unpacked_le(d) == Some::<(isize, nat)>(
                (((from_le(d.take(size_of::<usize>() as int))) as usize) as isize, size_of::<usize>() as nat),
            ) && isize::unpacked_be(d) == Some::<(isize, nat)>(
                (((from_be(d.take(size_of::<usize>() as int))) as usize) as isize, size_of::<usize>() as nat),
            ),
        forall|d: Seq<u8>|
            #![trigger isize::unpacked_le(d)]
            #![trigger isize::unpacked_be(d)]
            d.len() < size_of::<usize>() ==> isize::unpacked_le(d) is None && isize::unpacked_be(d) is None,
        forall|b: bool|
            #![trigger b.packed_le()]
            #![trigger b.packed_be()]
            b.packed_le() == seq![if b { 1u8 } else { 0u8 }] && b.packed_be() == b.packed_le(),
        forall|d: Seq<u8>|
            #![trigger bool::unpacked_le(d)]
            #![trigger bool::unpacked_be(d)]
            bool::unpacked_le(d) == bool::unpacked_be(d) && bool::unpacked_le(d) == (if d.len() >= 1
                && d[0] <= 1 {
                Some((d[0] == 1, 1nat))
            } else {
                None
            }),
        forall|c: char|
            #![trigger c.packed_le()]
            #![trigger c.packed_be()]
            c.packed_le() == le_bytes(c as u32 as nat, 4) && c.packed_be() == be_bytes(
                c as u32 as nat,
                4,
            ),
        forall|d: Seq<u8>|
            #![trigger char::unpacked_le(d)]
            char::unpacked_le(d) == (if d.len() >= 4 && is_scalar(from_le(d.take(4)) as u32) {
                Some((from_le(d.take(4)) as u32 as char, 4nat))
            } else {
                None
            }),
        forall|d: Seq<u8>|
            #![trigger char::unpacked_be(d)]
            char::unpacked_be(d) == (if d.len() >= 4 && is_scalar(from_be(d.take(4)) as u32) {
                Some((from_be(d.take(4)) as u32 as char, 4nat))
            } else {
                None
            }),
        forall|s: &str|
            #![trigger s.packed_le()]
            #![trigger s.packed_be()]
            s.packed_le() == s.spec_bytes() && s.packed_be() == s.spec_bytes(),
        forall|b: &[u8]|
            #![trigger b.packed_le()]
            #![trigger b.packed_be()]
            b.packed_le() == b@ && b.packed_be() == b@,
{
}

impl Pack for bool {
    open spec fn packed_le(self) -> Seq<u8> {
        seq![if self { 1u8 } else { 0u8 }]
    }

    open spec fn packed_be(self) -> Seq<u8> {
        seq![if self { 1u8 } else { 0u8 }]
    }

    fn pack_le(self, buf: &mut Vec<u8>) {
        buf.push(if self { 1u8 } else { 0u8 });
    }

    fn pack_be(self, buf: &mut Vec<u8>) {
        buf.push(if self { 1u8 } else { 0u8 });
    }
}

/// The boolean a byte stands for: `0` is false, `1` is true, and any other
/// byte is no boolean.
pub open spec fn bool_of_byte(data: Seq<u8>) -> Option<(bool, nat)> {
    if data.len() >= 1 && data[0] <= 1 {
        Some((data[0] == 1, 1))
    } else {
        None
    }
}

impl Unpack for bool {
    open spec fn unpacked_le(data: Seq<u8>) -> Option<(Self, nat)> {
        bool_of_byte(data)
    }

    open spec fn unpacked_be(data: Seq<u8>) -> Option<(Self, nat)> {
        bool_of_byte(data)
    }

    fn unpack_le(data: &mut &[u8]) -> (v: Self) {
        let head = take_front(data, 1);
        head[0] == 1
    }

    fn unpack_be(data: &mut &[u8]) -> (v: Self) {
        let head = take_front(data, 1);
        head[0] == 1
    }
}

/// The character whose scalar value the four bytes at the front of `data`
/// stand for, or `None` where they stand for no character.
pub open spec fn char_of_bytes(data: Seq<u8>, little_endian: bool) -> Option<(char, nat)> {
    if data.len() >= 4 && is_scalar(from_bytes(data.take(4), little_endian) as u32) {
        Some((from_bytes(data.take(4), little_endian) as u32 as char, 4))
    } else {
        None
    }
}

impl Pack for char {
    open spec fn packed_le(self) -> Seq<u8> {
        le_bytes(self as u32 as nat, 4)
    }

    open spec fn packed_be(self) -> Seq<u8> {
        be_bytes(self as u32 as nat, 4)
    }

    fn pack_le(self, buf: &mut Vec<u8>) {
        push_le(buf, self as u32 as u128, 4);
    }

    fn pack_be(self, buf: &mut Vec<u8>) {
        push_be(buf, self as u32 as u128, 4);
    }
}

fn unpack_char(data: &mut &[u8], little_endian: bool) -> (v: char)
    requires
        char_of_bytes(old(data)@, little_endian) is Some,
    ensures
        v == char_of_bytes(old(data)@, little_endian).unwrap().0,
        final(data)@ == old(data)@.skip(4),
{
    let head = take_front(data, 4);
    let raw: u128 = read_int(head, little_endian);
    proof {
        lemma_from_bytes_bound(head@, little_endian);
        lemma_pow256_values();
    }
    match char_from_u32(raw as u32) {
        Some(c) => c,
        None => {
            assert(false);
            '\0'
        },
    }
}

impl Unpack for char {
    open spec fn unpacked_le(data: Seq<u8>) -> Option<(Self, nat)> {
        char_of_bytes(data, true)
    }

    open spec fn unpacked_be(data: Seq<u8>) -> Option<(Self, nat)> {
        char_of_bytes(data, false)
    }

    fn unpack_le(data: &mut &[u8]) -> (v: Self) {
        unpack_char(data, true)
    }

    fn unpack_be(data: &mut &[u8]) -> (v: Self) {
        unpack_char(data, false)
    }
}

impl<'a> Pack for &'a [u8] {
    open spec fn packed_le(self) -> Seq<u8> {
        self@
    }

    open spec fn packed_be(self) -> Seq<u8> {
        self@
    }

    fn pack_le(self, buf: &mut Vec<u8>) {
        push_all(buf, self);
    }

    fn pack_be(self, buf: &mut Vec<u8>) {
        push_all(buf, self);
    }
}

impl<'a> Pack for &'a str {
    open spec fn packed_le(self) -> Seq<u8> {
        self.spec_bytes()
    }

    open spec fn packed_be(self) -> Seq<u8> {
        self.spec_bytes()
    }

    fn pack_le(self, buf: &mut Vec<u8>) {
        push_all(buf, self.as_bytes());
    }

    fn pack_be(self, buf: &mut Vec<u8>) {
        push_all(buf, self.as_bytes());
    }
}

impl Pack for u8 {
    open spec fn packed_le(self) -> Seq<u8> {
        le_bytes(self as nat, 1)
    }

    open spec fn packed_be(self) -> Seq<u8> {
        be_bytes(self as nat, 1)
    }

    fn pack_le(self, buf: &mut Vec<u8>) {
        push_le(buf, self as u128, 1);
    }

    fn pack_be(self, buf: &mut Vec<u8>) {
        push_be(buf, self as u128, 1);
    }
}

impl Unpack for u8 {
    open spec fn unpacked_le(data: Seq<u8>) -> Option<(Self, nat)> {
        if data.len() >= 1 {
            Some(((from_le(data.take(1 as int))) as u8, 1 as nat))
        } else {
            None
        }
    }

    open spec fn unpacked_be(data: Seq<u8>) -> Option<(Self, nat)> {
        if data.len() >= 1 {
            Some(((from_be(data.take(1 as int))) as u8, 1 as nat))
        } else {
            None
        }
    }

    fn unpack_le(data: &mut &[u8]) -> (v: Self) {
        let head = take_front(data, 1);
        let raw: u128 = read_int(head, true);
        raw as u8
    }

    fn unpack_be(data: &mut &[u8]) -> (v: Self) {
        let head = take_front(data, 1);
        let raw: u128 = read_int(head, false);
        raw as u8
    }
}

impl Pack for i8 {
    open spec fn packed_le(self) -> Seq<u8> {
        le_bytes(self as u8 as nat, 1)
    }

    open spec fn packed_be(self) -> Seq<u8> {
        be_bytes(self as u8 as nat, 1)
    }

    fn pack_le(self, buf: &mut Vec<u8>) {
        push_le(buf, self as u8 as u128, 1);
    }

    fn pack_be(self, buf: &mut Vec<u8>) {
        push_be(buf, self as u8 as u128, 1);
    }
}

impl Unpack for i8 {
    open spec fn unpacked_le(data: Seq<u8>) -> Option<(Self, nat)> {
        if data.len() >= 1 {
            Some((((from_le(data.take(1 as int))) as u8) as i8, 1 as nat))
        } else {
            None
        }
    }

    open spec fn unpacked_be(data: Seq<u8>) -> Option<(Self, nat)> {
        if data.len() >= 1 {
            Some((((from_be(data.take(1 as int))) as u8) as i8, 1 as nat))
        } else {
            None
        }
    }

    fn unpack_le(data: &mut &[u8]) -> (v: Self) {
        let head = take_front(data, 1);
        let raw: u128 = read_int(head, true);
        (raw as u8) as i8
    }

    fn unpack_be(data: &mut &[u8]) -> (v: Self) {
        let head = take_front(data, 1);
        let raw: u128 = read_int(head, false);
        (raw as u8) as i8
    }
}

impl Pack for u16 {
    open spec fn packed_le(self) -> Seq<u8> {
        le_bytes(self as nat, 2)
    }

    open spec fn packed_be(self) -> Seq<u8> {
        be_bytes(self as nat, 2)
    }

    fn pack_le(self, buf: &mut Vec<u8>) {
        push_le(buf, self as u128, 2);
    }

    fn pack_be(self, buf: &mut Vec<u8>) {
        push_be(buf, self as u128, 2);
    }
}

impl Unpack for u16 {
    open spec fn unpacked_le(data: Seq<u8>) -> Option<(Self, nat)> {
        if data.len() >= 2 {
            Some(((from_le(data.take(2 as int))) as u16, 2 as nat))
        } else {
            None
        }
    }

    open spec fn unpacked_be(data: Seq<u8>) -> Option<(Self, nat)> {
        if data.len() >= 2 {
            Some(((from_be(data.take(2 as int))) as u16, 2 as nat))
        } else {
            None
        }
    }

    fn unpack_le(data: &mut &[u8]) -> (v: Self) {
        let head = take_front(data, 2);
        let raw: u128 = read_int(head, true);
        raw as u16
    }

    fn unpack_be(data: &mut &[u8]) -> (v: Self) {
        let head = take_front(data, 2);
        let raw: u128 = read_int(head, false);
        raw as u16
    }
}

impl Pack for i16 {
    open spec fn packed_le(self) -> Seq<u8> {
        le_bytes(self as u16 as nat, 2)
    }

    open spec fn packed_be(self) -> Seq<u8> {
        be_bytes(self as u16 as nat, 2)
    }

    fn pack_le(self, buf: &mut Vec<u8>) {
        push_le(buf, self as u16 as u128, 2);
    }

    fn pack_be(self, buf: &mut Vec<u8>) {
        push_be(buf, self as u16 as u128, 2);
    }
}

impl Unpack for i16 {
    open spec fn unpacked_le(data: Seq<u8>) -> Option<(Self, nat)> {
        if data.len() >= 2 {
            Some((((from_le(data.take(2 as int))) as u16) as i16, 2 as nat))
        } else {
            None
        }
    }

    open spec fn unpacked_be(data: Seq<u8>) -> Option<(Self, nat)> {
        if data.len() >= 2 {
            Some((((from_be(data.take(2 as int))) as u16) as i16, 2 as nat))
        } else {
            None
        }
    }

    fn unpack_le(data: &mut &[u8]) -> (v: Self) {
        let head = take_front(data, 2);
        let raw: u128 = read_int(head, true);
        (raw as u16) as i16
    }

    fn unpack_be(data: &mut &[u8]) -> (v: Self) {
        let head = take_front(data, 2);
        let raw: u128 = read_int(head, false);
        (raw as u16) as i16
    }
}

impl Pack for u32 {
    open spec fn packed_le(self) -> Seq<u8> {
        le_bytes(self as nat, 4)
    }

    open spec fn packed_be(self) -> Seq<u8> {
        be_bytes(self as nat, 4)
    }

    fn pack_le(self, buf: &mut Vec<u8>) {
        push_le(buf, self as u128, 4);
    }

    fn pack_be(self, buf: &mut Vec<u8>) {
        push_be(buf, self as u128, 4);
    }
}

impl Unpack for u32 {
    open spec fn unpacked_le(data: Seq<u8>) -> Option<(Self, nat)> {
        if data.len() >= 4 {
            Some(((from_le(data.take(4 as int))) as u32, 4 as nat))
        } else {
            None
        }
    }

    open spec fn unpacked_be(data: Seq<u8>) -> Option<(Self, nat)> {
        if data.len() >= 4 {
            Some(((from_be(data.take(4 as int))) as u32, 4 as nat))
        } else {
            None
        }
    }

    fn unpack_le(data: &mut &[u8]) -> (v: Self) {
        let head = take_front(data, 4);
        let raw: u128 = read_int(head, true);
        raw as u32
    }

    fn unpack_be(data: &mut &[u8]) -> (v: Self) {
        let head = take_front(data, 4);
        let raw: u128 = read_int(head, false);
        raw as u32
    }
}

impl Pack for i32 {
    open spec fn packed_le(self) -> Seq<u8> {
        le_bytes(self as u32 as nat, 4)
    }

    open spec fn packed_be(self) -> Seq<u8> {
        be_bytes(self as u32 as nat, 4)
    }

    fn pack_le(self, buf: &mut Vec<u8>) {
        push_le(buf, self as u32 as u128, 4);
    }

    fn pack_be(self, buf: &mut Vec<u8>) {
        push_be(buf, self as u32 as u128, 4);
    }
}

impl Unpack for i32 {
    open spec fn unpacked_le(data: Seq<u8>) -> Option<(Self, nat)> {
        if data.len() >= 4 {
            Some((((from_le(data.take(4 as int))) as u32) as i32, 4 as nat))
        } else {
            None
        }
    }

    open spec fn unpacked_be(data: Seq<u8>) -> Option<(Self, nat)> {
        if data.len() >= 4 {
            Some((((from_be(data.take(4 as int))) as u32) as i32, 4 as nat))
        } else {
            None
        }
    }

    fn unpack_le(data: &mut &[u8]) -> (v: Self) {
        let head = take_front(data, 4);
        let raw: u128 = read_int(head, true);
        (raw as u32) as i32
    }

    fn unpack_be(data: &mut &[u8]) -> (v: Self) {
        let head = take_front(data, 4);
        let raw: u128 = read_int(head, false);
        (raw as u32) as i32
    }
}

impl Pack for u64 {
    open spec fn packed_le(self) -> Seq<u8> {
        le_bytes(self as nat, 8)
    }

    open spec fn packed_be(self) -> Seq<u8> {
        be_bytes(self as nat, 8)
    }

    fn pack_le(self, buf: &mut Vec<u8>) {
        push_le(buf, self as u128, 8);
    }

    fn pack_be(self, buf: &mut Vec<u8>) {
        push_be(buf, self as u128, 8);
    }
}

impl Unpack for u64 {
    open spec fn unpacked_le(data: Seq<u8>) -> Option<(Self, nat)> {
        if data.len() >= 8 {
            Some(((from_le(data.take(8 as int))) as u64, 8 as nat))
        } else {
            None
        }
    }

    open spec fn unpacked_be(data: Seq<u8>) -> Option<(Self, nat)> {
        if data.len() >= 8 {
            Some(((from_be(data.take(8 as int))) as u64, 8 as nat))
        } else {
            None
        }
    }

    fn unpack_le(data: &mut &[u8]) -> (v: Self) {
        let head = take_front(data, 8);
        let raw: u128 = read_int(head, true);
        raw as u64
    }

    fn unpack_be(data: &mut &[u8]) -> (v: Self) {
        let head = take_front(data, 8);
        let raw: u128 = read_int(head, false);
        raw as u64
    }
}

impl Pack for i64 {
    open spec fn packed_le(self) -> Seq<u8> {
        le_bytes(self as u64 as nat, 8)
    }

    open spec fn packed_be(self) -> Seq<u8> {
        be_bytes(self as u64 as nat, 8)
    }

    fn pack_le(self, buf: &mut Vec<u8>) {
        push_le(buf, self as u64 as u128, 8);
    }

    fn pack_be(self, buf: &mut Vec<u8>) {
        push_be(buf, self as u64 as u128, 8);
    }
}

impl Unpack for i64 {
    open spec fn unpacked_le(data: Seq<u8>) -> Option<(Self, nat)> {
        if data.len() >= 8 {
            Some((((from_le(data.take(8 as int))) as u64) as i64, 8 as nat))
        } else {
            None
        }
    }

    open spec fn unpacked_be(data: Seq<u8>) -> Option<(Self, nat)> {
        if data.len() >= 8 {
            Some((((from_be(data.take(8 as int))) as u64) as i64, 8 as nat))
        } else {
            None
        }
    }

    fn unpack_le(data: &mut &[u8]) -> (v: Self) {
        let head = take_front(data, 8);
        let raw: u128 = read_int(head, true);
        (raw as u64) as i64
    }

    fn unpack_be(data: &mut &[u8]) -> (v: Self) {
        let head = take_front(data, 8);
        let raw: u128 = read_int(head, false);
        (raw as u64) as i64
    }
}

impl Pack for u128 {
    open spec fn packed_le(self) -> Seq<u8> {
        le_bytes(self as nat, 16)
    }

    open spec fn packed_be(self) -> Seq<u8> {
        be_bytes(self as nat, 16)
    }

    fn pack_le(self, buf: &mut Vec<u8>) {
        push_le(buf, self as u128, 16);
    }

    fn pack_be(self, buf: &mut Vec<u8>) {
        push_be(buf, self as u128, 16);
    }
}

impl Unpack for u128 {
    open spec fn unpacked_le(data: Seq<u8>) -> Option<(Self, nat)> {
        if data.len() >= 16 {
            Some(((from_le(data.take(16 as int))) as u128, 16 as nat))
        } else {
            None
        }
    }

    open spec fn unpacked_be(data: Seq<u8>) -> Option<(Self, nat)> {
        if data.len() >= 16 {
            Some(((from_be(data.take(16 as int))) as u128, 16 as nat))
        } else {
            None
        }
    }

    fn unpack_le(data: &mut &[u8]) -> (v: Self) {
        let head = take_front(data, 16);
        let raw: u128 = read_int(head, true);
        raw as u128
    }

    fn unpack_be(data: &mut &[u8]) -> (v: Self) {
        let head = take_front(data, 16);
        let raw: u128 = read_int(head, false);
        raw as u128
    }
}

impl Pack for i128 {
    open spec fn packed_le(self) -> Seq<u8> {
        le_bytes(self as u128 as nat, 16)
    }

    open spec fn packed_be(self) -> Seq<u8> {
        be_bytes(self as u128 as nat, 16)
    }

    fn pack_le(self, buf: &mut Vec<u8>) {
        push_le(buf, self as u128 as u128, 16);
    }

    fn pack_be(self, buf: &mut Vec<u8>) {
        push_be(buf, self as u128 as u128, 16);
    }
}

impl Unpack for i128 {
    open spec fn unpacked_le(data: Seq<u8>) -> Option<(Self, nat)> {
        if data.len() >= 16 {
            Some((((from_le(data.take(16 as int))) as u128) as i128, 16 as nat))
        } else {
            None
        }
    }

    open spec fn unpacked_be(data: Seq<u8>) -> Option<(Self, nat)> {
        if data.len() >= 16 {
            Some((((from_be(data.take(16 as int))) as u128) as i128, 16 as nat))
        } else {
            None
        }
    }

    fn unpack_le(data: &mut &[u8]) -> (v: Self) {
        let head = take_front(data, 16);
        let raw: u128 = read_int(head, true);
        (raw as u128) as i128
    }

    fn unpack_be(data: &mut &[u8]) -> (v: Self) {
        let head = take_front(data, 16);
        let raw: u128 = read_int(head, false);
        (raw as u128) as i128
    }
}

impl Pack for usize {
    open spec fn packed_le(self) -> Seq<u8> {
        le_bytes(self as nat, size_of::<usize>())
    }

    open spec fn packed_be(self) -> Seq<u8> {
        be_bytes(self as nat, size_of::<usize>())
    }

    fn pack_le(self, buf: &mut Vec<u8>) {
        push_le(buf, self as u128, core::mem::size_of::<usize>());
    }

    fn pack_be(self, buf: &mut Vec<u8>) {
        push_be(buf, self as u128, core::mem::size_of::<usize>());
    }
}

impl Unpack for usize {
    open spec fn unpacked_le(data: Seq<u8>) -> Option<(Self, nat)> {
        if data.len() >= size_of::<usize>() {
            Some(((from_le(data.take(size_of::<usize>() as int))) as usize, size_of::<usize>() as nat))
        } else {
            None
        }
    }

    open spec fn unpacked_be(data: Seq<u8>) -> Option<(Self, nat)> {
        if data.len() >= size_of::<usize>() {
            Some(((from_be(data.take(size_of::<usize>() as int))) as usize, size_of::<usize>() as nat))
        } else {
            None
        }
    }

    fn unpack_le(data: &mut &[u8]) -> (v: Self) {
        let head = take_front(data, core::mem::size_of::<usize>());
        let raw: u128 = read_int(head, true);
        raw as usize
    }

    fn unpack_be(data: &mut &[u8]) -> (v: Self) {
        let head = take_front(data, core::mem::size_of::<usize>());
        let raw: u128 = read_int(head, false);
        raw as usize
    }
}

impl Pack for isize {
    open spec fn packed_le(self) -> Seq<u8> {
        le_bytes(self as usize as nat, size_of::<usize>())
    }

    open spec fn packed_be(self) -> Seq<u8> {
        be_bytes(self as usize as nat, size_of::<usize>())
    }

    fn pack_le(self, buf: &mut Vec<u8>) {
        push_le(buf, self as usize as u128, core::mem::size_of::<usize>());
    }

    fn pack_be(self, buf: &mut Vec<u8>) {
        push_be(buf, self as usize as u128, core::mem::size_of::<usize>());
    }
}

impl Unpack for isize {
    open spec fn unpacked_le(data: Seq<u8>) -> Option<(Self, nat)> {
        if data.len() >= size_of::<usize>() {
            Some((((from_le(data.take(size_of::<usize>() as int))) as usize) as isize, size_of::<usize>() as nat))
        } else {
            None
        }
    }

    open spec fn unpacked_be(data: Seq<u8>) -> Option<(Self, nat)> {
        if data.len() >= size_of::<usize>() {
            Some((((from_be(data.take(size_of::<usize>() as int))) as usize) as isize, size_of::<usize>() as nat))
        } else {
            None
        }
    }

    fn unpack_le(data: &mut &[u8]) -> (v: Self) {
        let head = take_front(data, core::mem::size_of::<usize>());
        let raw: u128 = read_int(head, true);
        (raw as usize) as isize
    }

    fn unpack_be(data: &mut &[u8]) -> (v: Self) {
        let head = take_front(data, core::mem::size_of::<usize>());
        let raw: u128 = read_int(head, false);
        (raw as usize) as isize
    }
}


} // verus!
