//! Fixed-width integer encodings: the byte sequences of a number in
//! little-endian and big-endian order, and the number a byte sequence
//! stands for.
use vstd::prelude::*;

verus! {

/// `256` to the power `n`: the number of values `n` bytes can hold.
pub open spec fn pow256(n: nat) -> nat
    decreases n,
{
    if n == 0 {
        1
    } else {
        256 * pow256((n - 1) as nat)
    }
}

/// The `n` low-order bytes of `v`, least significant first.
pub open spec fn le_bytes(v: nat, n: nat) -> Seq<u8>
    decreases n,
{
    if n == 0 {
        seq![]
    } else {
        seq![(v % 256) as u8] + le_bytes(v / 256, (n - 1) as nat)
    }
}

/// The `n` low-order bytes of `v`, most significant first.
pub open spec fn be_bytes(v: nat, n: nat) -> Seq<u8>
    decreases n,
{
    if n == 0 {
        seq![]
    } else {
        be_bytes(v / 256, (n - 1) as nat).push((v % 256) as u8)
    }
}

/// The number whose little-endian bytes are `s`.
pub open spec fn from_le(s: Seq<u8>) -> nat
    decreases s.len(),
{
    if s.len() == 0 {
        0
    } else {
        s[0] as nat + 256 * from_le(s.drop_first())
    }
}

/// The number whose big-endian bytes are `s`.
pub open spec fn from_be(s: Seq<u8>) -> nat
    decreases s.len(),
{
    if s.len() == 0 {
        0
    } else {
        from_be(s.drop_last()) * 256 + s.last() as nat
    }
}

/// The bytes of `v` in the chosen order.
pub open spec fn int_bytes(v: nat, n: nat, little_endian: bool) -> Seq<u8> {
    if little_endian {
        le_bytes(v, n)
    } else {
        be_bytes(v, n)
    }
}

/// The number the bytes `s` stand for in the chosen order.
pub open spec fn from_bytes(s: Seq<u8>, little_endian: bool) -> nat {
    if little_endian {
        from_le(s)
    } else {
        from_be(s)
    }
}

pub proof fn lemma_pow256_pos(n: nat)
    ensures
        pow256(n) >= 1,
    decreases n,
{
    if n > 0 {
        lemma_pow256_pos((n - 1) as nat);
    }
}

pub proof fn lemma_pow256_mono(a: nat, b: nat)
    requires
        a <= b,
    ensures
        pow256(a) <= pow256(b),
    decreases b,
{
    if a < b {
        lemma_pow256_mono(a, (b - 1) as nat);
        lemma_pow256_pos((b - 1) as nat);
    }
}

/// The value of `pow256` at the widths of the integer types.
pub proof fn lemma_pow256_values()
    ensures
        pow256(1) == 0x100,
        pow256(2) == 0x1_0000,
        pow256(4) == 0x1_0000_0000,
        pow256(8) == 0x1_0000_0000_0000_0000,
        pow256(16) == 0x1_0000_0000_0000_0000_0000_0000_0000_0000,
{
    reveal_with_fuel(pow256, 17);
}

pub proof fn lemma_le_bytes_len(v: nat, n: nat)
    ensures
        le_bytes(v, n).len() == n,
    decreases n,
{
    if n > 0 {
        lemma_le_bytes_len(v / 256, (n - 1) as nat);
    }
}

pub proof fn lemma_be_bytes_len(v: nat, n: nat)
    ensures
        be_bytes(v, n).len() == n,
    decreases n,
{
    if n > 0 {
        lemma_be_bytes_len(v / 256, (n - 1) as nat);
    }
}

pub proof fn lemma_int_bytes_len(v: nat, n: nat, little_endian: bool)
    ensures
        int_bytes(v, n, little_endian).len() == n,
{
    lemma_le_bytes_len(v, n);
    lemma_be_bytes_len(v, n);
}

pub proof fn lemma_from_le_bound(s: Seq<u8>)
    ensures
        from_le(s) < pow256(s.len()),
    decreases s.len(),
{
    if s.len() > 0 {
        lemma_from_le_bound(s.drop_first());
    }
}

pub proof fn lemma_from_be_bound(s: Seq<u8>)
    ensures
        from_be(s) < pow256(s.len()),
    decreases s.len(),
{
    if s.len() > 0 {
        lemma_from_be_bound(s.drop_last());
    }
}

pub proof fn lemma_from_bytes_bound(s: Seq<u8>, little_endian: bool)
    ensures
        from_bytes(s, little_endian) < pow256(s.len()),
{
    lemma_from_le_bound(s);
    lemma_from_be_bound(s);
}

/// Reading back the little-endian bytes of a number that fits gives the number.
pub proof fn lemma_le_roundtrip(v: nat, n: nat)
    requires
        v < pow256(n),
    ensures
        from_le(le_bytes(v, n)) == v,
    decreases n,
{
    if n > 0 {
        lemma_le_roundtrip(v / 256, (n - 1) as nat);
        let s = le_bytes(v, n);
        assert(s.drop_first() =~= le_bytes(v / 256, (n - 1) as nat));
    }
}

/// Reading back the big-endian bytes of a number that fits gives the number.
pub proof fn lemma_be_roundtrip(v: nat, n: nat)
    requires
        v < pow256(n),
    ensures
        from_be(be_bytes(v, n)) == v,
    decreases n,
{
    if n > 0 {
        lemma_be_roundtrip(v / 256, (n - 1) as nat);
        let s = be_bytes(v, n);
        assert(s.drop_last() =~= be_bytes(v / 256, (n - 1) as nat));
    }
}

/// Writing back the number some little-endian bytes stand for gives the bytes.
pub proof fn lemma_le_inverse(s: Seq<u8>)
    ensures
        le_bytes(from_le(s), s.len()) == s,
    decreases s.len(),
{
    if s.len() > 0 {
        lemma_le_inverse(s.drop_first());
        let v = from_le(s);
        assert(v % 256 == s[0] as nat);
        assert(v / 256 == from_le(s.drop_first()));
        assert(le_bytes(v, s.len()) =~= s);
    }
}

/// Writing back the number some big-endian bytes stand for gives the bytes.
pub proof fn lemma_be_inverse(s: Seq<u8>)
    ensures
        be_bytes(from_be(s), s.len()) == s,
    decreases s.len(),
{
    if s.len() > 0 {
        lemma_be_inverse(s.drop_last());
        let v = from_be(s);
        assert(v % 256 == s.last() as nat);
        assert(v / 256 == from_be(s.drop_last()));
        assert(be_bytes(v, s.len()) =~= s);
    }
}

pub proof fn lemma_bytes_roundtrip(v: nat, n: nat, little_endian: bool)
    requires
        v < pow256(n),
    ensures
        from_bytes(int_bytes(v, n, little_endian), little_endian) == v,
{
    lemma_le_roundtrip(v, n);
    lemma_be_roundtrip(v, n);
}

pub proof fn lemma_bytes_inverse(s: Seq<u8>, little_endian: bool)
    ensures
        int_bytes(from_bytes(s, little_endian), s.len(), little_endian) == s,
{
    lemma_le_inverse(s);
    lemma_be_inverse(s);
}

/// The big-endian bytes of a number are its little-endian bytes in
/// reverse order.
pub proof fn lemma_be_is_reversed_le(v: nat, n: nat)
    ensures
        be_bytes(v, n) == le_bytes(v, n).reverse(),
    decreases n,
{
    if n > 0 {
        lemma_be_is_reversed_le(v / 256, (n - 1) as nat);
        lemma_le_bytes_len(v, n);
        lemma_le_bytes_len(v / 256, (n - 1) as nat);
        let tail = le_bytes(v / 256, (n - 1) as nat);
        assert(le_bytes(v, n).reverse() =~= tail.reverse().push((v % 256) as u8));
    }
}

/// Byte `i` of the little-endian bytes of `v` is the `i`-th base-256 digit
/// of `v`, counted from the least significant.
pub proof fn lemma_le_bytes_index(v: nat, n: nat, i: int)
    requires
        0 <= i < n,
    ensures
        le_bytes(v, n).len() == n,
        le_bytes(v, n)[i] == (v / pow256(i as nat)) % 256,
    decreases n,
{
    lemma_le_bytes_len(v, n);
    if i > 0 {
        lemma_le_bytes_index(v / 256, (n - 1) as nat, i - 1);
        lemma_le_bytes_len(v / 256, (n - 1) as nat);
        lemma_pow256_pos((i - 1) as nat);
        vstd::arithmetic::div_mod::lemma_div_denominator(v as int, 256, pow256((i - 1) as nat) as int);
        assert(pow256(i as nat) == 256 * pow256((i - 1) as nat));
        assert(le_bytes(v, n)[i] == le_bytes(v / 256, (n - 1) as nat)[i - 1]);
        assert((v / 256) / pow256((i - 1) as nat) == v / pow256(i as nat));
    } else {
        assert(pow256(0) == 1);
        assert(v / 1 == v);
        assert(le_bytes(v, n)[0] == (v % 256) as u8);
    }
}

/// Byte `i` of the big-endian bytes of `v` is the base-256 digit of `v` at
/// position `n - 1 - i`, counted from the least significant: the most
/// significant comes first.
pub proof fn lemma_be_bytes_index(v: nat, n: nat, i: int)
    requires
        0 <= i < n,
    ensures
        be_bytes(v, n).len() == n,
        be_bytes(v, n)[i] == (v / pow256((n - 1 - i) as nat)) % 256,
{
    lemma_be_is_reversed_le(v, n);
    lemma_le_bytes_index(v, n, n - 1 - i);
    lemma_be_bytes_len(v, n);
}

/// Bytes read big-endian stand for the number they stand for read
/// little-endian in reverse order.
pub proof fn lemma_from_be_is_reversed_le(s: Seq<u8>)
    ensures
        from_be(s) == from_le(s.reverse()),
{
    let r = s.reverse();
    let v = from_le(r);
    lemma_le_inverse(r);
    lemma_from_le_bound(r);
    lemma_be_is_reversed_le(v, r.len());
    assert(r.reverse() =~= s);
    lemma_be_roundtrip(v, r.len());
}

/// Appends the `n` low-order bytes of `v`, least significant first.
pub fn push_le(buf: &mut Vec<u8>, v: u128, n: usize)
    ensures
        final(buf)@ == old(buf)@ + le_bytes(v as nat, n as nat),
{
    let ghost start = buf@;
    let mut x: u128 = v;
    let mut i: usize = 0;
    assert(start =~= start + seq![]);
    while i < n
        invariant
            i <= n,
            buf@ + le_bytes(x as nat, (n - i) as nat) == start + le_bytes(v as nat, n as nat),
        decreases n - i,
    {
        let b: u8 = (x % 256) as u8;
        let ghost before = buf@;
        buf.push(b);
        assert(buf@ + le_bytes((x / 256) as nat, (n - i - 1) as nat) =~= before + le_bytes(
            x as nat,
            (n - i) as nat,
        ));
        x = x / 256;
        i = i + 1;
    }
    assert(buf@ =~= buf@ + le_bytes(x as nat, 0));
}

/// Appends the `n` low-order bytes of `v`, most significant first.
pub fn push_be(buf: &mut Vec<u8>, v: u128, n: usize)
    ensures
        final(buf)@ == old(buf)@ + be_bytes(v as nat, n as nat),
{
    let ghost start = buf@;
    let at: usize = buf.len();
    let mut x: u128 = v;
    let mut i: usize = 0;
    assert(buf@.skip(at as int) =~= seq![]);
    assert(start + be_bytes(v as nat, n as nat) + seq![] =~= start + be_bytes(v as nat, n as nat));
    while i < n
        invariant
            i <= n,
            at == start.len(),
            buf@.len() >= at,
            buf@.take(at as int) == start,
            start + be_bytes(x as nat, (n - i) as nat) + buf@.skip(at as int) == start + be_bytes(
                v as nat,
                n as nat,
            ),
        decreases n - i,
    {
        let b: u8 = (x % 256) as u8;
        let ghost tail = buf@.skip(at as int);
        buf.insert(at, b);
        assert(buf@.take(at as int) =~= start);
        assert(buf@.skip(at as int) =~= seq![b] + tail);
        assert(start + be_bytes((x / 256) as nat, (n - i - 1) as nat) + buf@.skip(at as int)
            =~= start + be_bytes(x as nat, (n - i) as nat) + tail);
        x = x / 256;
        i = i + 1;
    }
    assert(buf@ =~= buf@.take(at as int) + buf@.skip(at as int));
    assert(start + be_bytes(x as nat, 0) =~= start);
}

/// The number that the little-endian bytes `data` stand for.
pub fn read_le(data: &[u8]) -> (r: u128)
    requires
        data@.len() <= 16,
    ensures
        r as nat == from_le(data@),
{
    let len: usize = data.len();
    let mut i: usize = len;
    let mut acc: u128 = 0;
    proof {
        lemma_pow256_values();
    }
    assert(data@.subrange(len as int, len as int) =~= seq![]);
    while i > 0
        invariant
            i <= len,
            len == data@.len(),
            len <= 16,
            acc as nat == from_le(data@.subrange(i as int, len as int)),
            pow256(16) == 0x1_0000_0000_0000_0000_0000_0000_0000_0000,
        decreases i,
    {
        let ghost rest = data@.subrange(i as int, len as int);
        let ghost next = data@.subrange(i - 1, len as int);
        assert(next.drop_first() =~= rest);
        proof {
            lemma_from_le_bound(next);
            lemma_pow256_mono(next.len(), 16);
        }
        assert(from_le(next) == data@[i - 1] as nat + 256 * from_le(rest));
        acc = data[i - 1] as u128 + 256 * acc;
        i = i - 1;
    }
    assert(data@.subrange(0, len as int) =~= data@);
    acc
}

/// The number that the big-endian bytes `data` stand for.
pub fn read_be(data: &[u8]) -> (r: u128)
    requires
        data@.len() <= 16,
    ensures
        r as nat == from_be(data@),
{
    let len: usize = data.len();
    let mut i: usize = 0;
    let mut acc: u128 = 0;
    proof {
        lemma_pow256_values();
    }
    assert(data@.take(0) =~= seq![]);
    while i < len
        invariant
            i <= len,
            len == data@.len(),
            len <= 16,
            acc as nat == from_be(data@.take(i as int)),
            pow256(16) == 0x1_0000_0000_0000_0000_0000_0000_0000_0000,
        decreases len - i,
    {
        let ghost prev = data@.take(i as int);
        let ghost next = data@.take(i + 1);
        assert(next.drop_last() =~= prev);
        proof {
            lemma_from_be_bound(next);
            lemma_pow256_mono(next.len(), 16);
        }
        assert(from_be(next) == from_be(prev) * 256 + data@[i as int] as nat);
        acc = acc * 256 + data[i] as u128;
        i = i + 1;
    }
    assert(data@.take(len as int) =~= data@);
    acc
}

/// The number that `data` stands for in the chosen order.
pub fn read_int(data: &[u8], little_endian: bool) -> (r: u128)
    requires
        data@.len() <= 16,
    ensures
        r as nat == from_bytes(data@, little_endian),
{
    if little_endian {
        read_le(data)
    } else {
        read_be(data)
    }
}

} // verus!
