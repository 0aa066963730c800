//! `Pack` and `Unpack` for tuples of up to sixteen members: the members
//! one after the other, in order.
use crate::traits::{pack_one, packed, roundtrips, unpack_one, unpacked, Pack, Unpack};
use vstd::prelude::*;

verus! {

/// The bytes a tuple of 1 packs into.
pub open spec fn packed_tuple1<A: Pack>(t: (A,), little_endian: bool) -> Seq<u8> {
    packed(t.0, little_endian)
}

fn pack_tuple1<A: Pack>(t: (A,), little_endian: bool, buf: &mut Vec<u8>)
    ensures
        final(buf)@ == old(buf)@ + packed_tuple1(t, little_endian),
{
    let ghost start = buf@;
    let ghost whole = t;
    let (a,) = t;
    pack_one(a, little_endian, buf);
    assert(buf@ =~= start + packed_tuple1(whole, little_endian));
}

/// A tuple of 1 at the front of `data` and the number of bytes it takes.
pub open spec fn unpacked_tuple1<A: Unpack>(data: Seq<u8>, little_endian: bool) -> Option<
    ((A,), nat),
> {
    match unpacked::<A>(data, little_endian) {
        Some((x0, k0)) => {
            Some(((x0,), k0))
        },
        None => None,
    }
}

fn unpack_tuple1<A: Unpack>(data: &mut &[u8], little_endian: bool) -> (v: (A,))
    requires
        unpacked_tuple1::<A>(old(data)@, little_endian) is Some,
    ensures
        v == unpacked_tuple1::<A>(old(data)@, little_endian).unwrap().0,
        unpacked_tuple1::<A>(old(data)@, little_endian).unwrap().1 <= old(data)@.len(),
        final(data)@ == old(data)@.skip(
            unpacked_tuple1::<A>(old(data)@, little_endian).unwrap().1 as int,
        ),
{
    let ghost d0 = data@;
    let a = unpack_one::<A>(data, little_endian);
    proof {
        let k0 = unpacked::<A>(d0, little_endian).unwrap().1;
        assert(d0.skip(k0 as int) =~= d0.skip((k0) as int));
    }
    (a,)
}

impl<A: Pack> Pack for (A,) {
    open spec fn packed_le(self) -> Seq<u8> {
        packed_tuple1(self, true)
    }

    open spec fn packed_be(self) -> Seq<u8> {
        packed_tuple1(self, false)
    }

    fn pack_le(self, buf: &mut Vec<u8>) {
        pack_tuple1(self, true, buf);
    }

    fn pack_be(self, buf: &mut Vec<u8>) {
        pack_tuple1(self, false, buf);
    }
}

impl<A: Unpack> Unpack for (A,) {
    open spec fn unpacked_le(data: Seq<u8>) -> Option<(Self, nat)> {
        unpacked_tuple1::<A>(data, true)
    }

    open spec fn unpacked_be(data: Seq<u8>) -> Option<(Self, nat)> {
        unpacked_tuple1::<A>(data, false)
    }

    fn unpack_le(data: &mut &[u8]) -> (v: Self) {
        unpack_tuple1::<A>(data, true)
    }

    fn unpack_be(data: &mut &[u8]) -> (v: Self) {
        unpack_tuple1::<A>(data, false)
    }
}

/// The bytes a tuple of 2 packs into.
pub open spec fn packed_tuple2<A: Pack, B: Pack>(t: (A, B), little_endian: bool) -> Seq<u8> {
    packed(t.0, little_endian) + packed(t.1, little_endian)
}

fn pack_tuple2<A: Pack, B: Pack>(t: (A, B), little_endian: bool, buf: &mut Vec<u8>)
    ensures
        final(buf)@ == old(buf)@ + packed_tuple2(t, little_endian),
{
    let ghost start = buf@;
    let ghost whole = t;
    let (a, b) = t;
    pack_one(a, little_endian, buf);
    pack_one(b, little_endian, buf);
    assert(buf@ =~= start + packed_tuple2(whole, little_endian));
}

/// A tuple of 2 at the front of `data` and the number of bytes it takes.
pub open spec fn unpacked_tuple2<A: Unpack, B: Unpack>(data: Seq<u8>, little_endian: bool) -> Option<
    ((A, B), nat),
> {
    match unpacked::<A>(data, little_endian) {
        Some((x0, k0)) => {
            match unpacked::<B>(data.skip(k0 as int), little_endian) {
                Some((x1, k1)) => {
                    Some(((x0, x1), k0 + k1))
                },
                None => None,
            }
        },
        None => None,
    }
}

fn unpack_tuple2<A: Unpack, B: Unpack>(data: &mut &[u8], little_endian: bool) -> (v: (A, B))
    requires
        unpacked_tuple2::<A, B>(old(data)@, little_endian) is Some,
    ensures
        v == unpacked_tuple2::<A, B>(old(data)@, little_endian).unwrap().0,
        unpacked_tuple2::<A, B>(old(data)@, little_endian).unwrap().1 <= old(data)@.len(),
        final(data)@ == old(data)@.skip(
            unpacked_tuple2::<A, B>(old(data)@, little_endian).unwrap().1 as int,
        ),
{
    let ghost d0 = data@;
    let a = unpack_one::<A>(data, little_endian);
    let b = unpack_one::<B>(data, little_endian);
    proof {
        let k0 = unpacked::<A>(d0, little_endian).unwrap().1;
        let k1 = unpacked::<B>(d0.skip(k0 as int), little_endian).unwrap().1;
        assert(d0.skip(k0 as int).skip(k1 as int) =~= d0.skip((k0 + k1) as int));
    }
    (a, b)
}

impl<A: Pack, B: Pack> Pack for (A, B) {
    open spec fn packed_le(self) -> Seq<u8> {
        packed_tuple2(self, true)
    }

    open spec fn packed_be(self) -> Seq<u8> {
        packed_tuple2(self, false)
    }

    fn pack_le(self, buf: &mut Vec<u8>) {
        pack_tuple2(self, true, buf);
    }

    fn pack_be(self, buf: &mut Vec<u8>) {
        pack_tuple2(self, false, buf);
    }
}

impl<A: Unpack, B: Unpack> Unpack for (A, B) {
    open spec fn unpacked_le(data: Seq<u8>) -> Option<(Self, nat)> {
        unpacked_tuple2::<A, B>(data, true)
    }

    open spec fn unpacked_be(data: Seq<u8>) -> Option<(Self, nat)> {
        unpacked_tuple2::<A, B>(data, false)
    }

    fn unpack_le(data: &mut &[u8]) -> (v: Self) {
        unpack_tuple2::<A, B>(data, true)
    }

    fn unpack_be(data: &mut &[u8]) -> (v: Self) {
        unpack_tuple2::<A, B>(data, false)
    }
}

/// The bytes a tuple of 3 packs into.
pub open spec fn packed_tuple3<A: Pack, B: Pack, C: Pack>(t: (A, B, C), little_endian: bool) -> Seq<u8> {
    packed(t.0, little_endian) + packed(t.1, little_endian) + packed(t.2, little_endian)
}

fn pack_tuple3<A: Pack, B: Pack, C: Pack>(t: (A, B, C), little_endian: bool, buf: &mut Vec<u8>)
    ensures
        final(buf)@ == old(buf)@ + packed_tuple3(t, little_endian),
{
    let ghost start = buf@;
    let ghost whole = t;
    let (a, b, c) = t;
    pack_one(a, little_endian, buf);
    pack_one(b, little_endian, buf);
    pack_one(c, little_endian, buf);
    assert(buf@ =~= start + packed_tuple3(whole, little_endian));
}

/// A tuple of 3 at the front of `data` and the number of bytes it takes.
pub open spec fn unpacked_tuple3<A: Unpack, B: Unpack, C: Unpack>(data: Seq<u8>, little_endian: bool) -> Option<
    ((A, B, C), nat),
> {
    match unpacked::<A>(data, little_endian) {
        Some((x0, k0)) => {
            match unpacked::<B>(data.skip(k0 as int), little_endian) {
                Some((x1, k1)) => {
                    match unpacked::<C>(data.skip(k0 as int).skip(k1 as int), little_endian) {
                        Some((x2, k2)) => {
                            Some(((x0, x1, x2), k0 + k1 + k2))
                        },
                        None => None,
                    }
                },
                None => None,
            }
        },
        None => None,
    }
}

fn unpack_tuple3<A: Unpack, B: Unpack, C: Unpack>(data: &mut &[u8], little_endian: bool) -> (v: (A, B, C))
    requires
        unpacked_tuple3::<A, B, C>(old(data)@, little_endian) is Some,
    ensures
        v == unpacked_tuple3::<A, B, C>(old(data)@, little_endian).unwrap().0,
        unpacked_tuple3::<A, B, C>(old(data)@, little_endian).unwrap().1 <= old(data)@.len(),
        final(data)@ == old(data)@.skip(
            unpacked_tuple3::<A, B, C>(old(data)@, little_endian).unwrap().1 as int,
        ),
{
    let ghost d0 = data@;
    let a = unpack_one::<A>(data, little_endian);
    let b = unpack_one::<B>(data, little_endian);
    let c = unpack_one::<C>(data, little_endian);
    proof {
        let k0 = unpacked::<A>(d0, little_endian).unwrap().1;
        let k1 = unpacked::<B>(d0.skip(k0 as int), little_endian).unwrap().1;
        let k2 = unpacked::<C>(d0.skip(k0 as int).skip(k1 as int), little_endian).unwrap().1;
        assert(d0.skip(k0 as int).skip(k1 as int).skip(k2 as int) =~= d0.skip((k0 + k1 + k2) as int));
    }
    (a, b, c)
}

impl<A: Pack, B: Pack, C: Pack> Pack for (A, B, C) {
    open spec fn packed_le(self) -> Seq<u8> {
        packed_tuple3(self, true)
    }

    open spec fn packed_be(self) -> Seq<u8> {
        packed_tuple3(self, false)
    }

    fn pack_le(self, buf: &mut Vec<u8>) {
        pack_tuple3(self, true, buf);
    }

    fn pack_be(self, buf: &mut Vec<u8>) {
        pack_tuple3(self, false, buf);
    }
}

impl<A: Unpack, B: Unpack, C: Unpack> Unpack for (A, B, C) {
    open spec fn unpacked_le(data: Seq<u8>) -> Option<(Self, nat)> {
        unpacked_tuple3::<A, B, C>(data, true)
    }

    open spec fn unpacked_be(data: Seq<u8>) -> Option<(Self, nat)> {
        unpacked_tuple3::<A, B, C>(data, false)
    }

    fn unpack_le(data: &mut &[u8]) -> (v: Self) {
        unpack_tuple3::<A, B, C>(data, true)
    }

    fn unpack_be(data: &mut &[u8]) -> (v: Self) {
        unpack_tuple3::<A, B, C>(data, false)
    }
}

/// The bytes a tuple of 4 packs into.
pub open spec fn packed_tuple4<A: Pack, B: Pack, C: Pack, D: Pack>(t: (A, B, C, D), little_endian: bool) -> Seq<u8> {
    packed(t.0, little_endian) + packed(t.1, little_endian) + packed(t.2, little_endian) + packed(t.3, little_endian)
}

fn pack_tuple4<A: Pack, B: Pack, C: Pack, D: Pack>(t: (A, B, C, D), little_endian: bool, buf: &mut Vec<u8>)
    ensures
        final(buf)@ == old(buf)@ + packed_tuple4(t, little_endian),
{
    let ghost start = buf@;
    let ghost whole = t;
    let (a, b, c, d) = t;
    pack_one(a, little_endian, buf);
    pack_one(b, little_endian, buf);
    pack_one(c, little_endian, buf);
    pack_one(d, little_endian, buf);
    assert(buf@ =~= start + packed_tuple4(whole, little_endian));
}

/// A tuple of 4 at the front of `data` and the number of bytes it takes.
pub open spec fn unpacked_tuple4<A: Unpack, B: Unpack, C: Unpack, D: Unpack>(data: Seq<u8>, little_endian: bool) -> Option<
    ((A, B, C, D), nat),
> {
    match unpacked::<A>(data, little_endian) {
        Some((x0, k0)) => {
            match unpacked::<B>(data.skip(k0 as int), little_endian) {
                Some((x1, k1)) => {
                    match unpacked::<C>(data.skip(k0 as int).skip(k1 as int), little_endian) {
                        Some((x2, k2)) => {
                            match unpacked::<D>(data.skip(k0 as int).skip(k1 as int).skip(k2 as int), little_endian) {
                                Some((x3, k3)) => {
                                    Some(((x0, x1, x2, x3), k0 + k1 + k2 + k3))
                                },
                                None => None,
                            }
                        },
                        None => None,
                    }
                },
                None => None,
            }
        },
        None => None,
    }
}

fn unpack_tuple4<A: Unpack, B: Unpack, C: Unpack, D: Unpack>(data: &mut &[u8], little_endian: bool) -> (v: (A, B, C, D))
    requires
        unpacked_tuple4::<A, B, C, D>(old(data)@, little_endian) is Some,
    ensures
        v == unpacked_tuple4::<A, B, C, D>(old(data)@, little_endian).unwrap().0,
        unpacked_tuple4::<A, B, C, D>(old(data)@, little_endian).unwrap().1 <= old(data)@.len(),
        final(data)@ == old(data)@.skip(
            unpacked_tuple4::<A, B, C, D>(old(data)@, little_endian).unwrap().1 as int,
        ),
{
    let ghost d0 = data@;
    let a = unpack_one::<A>(data, little_endian);
    let b = unpack_one::<B>(data, little_endian);
    let c = unpack_one::<C>(data, little_endian);
    let d = unpack_one::<D>(data, little_endian);
    proof {
        let k0 = unpacked::<A>(d0, little_endian).unwrap().1;
        let k1 = unpacked::<B>(d0.skip(k0 as int), little_endian).unwrap().1;
        let k2 = unpacked::<C>(d0.skip(k0 as int).skip(k1 as int), little_endian).unwrap().1;
        let k3 = unpacked::<D>(d0.skip(k0 as int).skip(k1 as int).skip(k2 as int), little_endian).unwrap().1;
        assert(d0.skip(k0 as int).skip(k1 as int).skip(k2 as int).skip(k3 as int) =~= d0.skip((k0 + k1 + k2 + k3) as int));
    }
    (a, b, c, d)
}

impl<A: Pack, B: Pack, C: Pack, D: Pack> Pack for (A, B, C, D) {
    open spec fn packed_le(self) -> Seq<u8> {
        packed_tuple4(self, true)
    }

    open spec fn packed_be(self) -> Seq<u8> {
        packed_tuple4(self, false)
    }

    fn pack_le(self, buf: &mut Vec<u8>) {
        pack_tuple4(self, true, buf);
    }

    fn pack_be(self, buf: &mut Vec<u8>) {
        pack_tuple4(self, false, buf);
    }
}

impl<A: Unpack, B: Unpack, C: Unpack, D: Unpack> Unpack for (A, B, C, D) {
    open spec fn unpacked_le(data: Seq<u8>) -> Option<(Self, nat)> {
        unpacked_tuple4::<A, B, C, D>(data, true)
    }

    open spec fn unpacked_be(data: Seq<u8>) -> Option<(Self, nat)> {
        unpacked_tuple4::<A, B, C, D>(data, false)
    }

    fn unpack_le(data: &mut &[u8]) -> (v: Self) {
        unpack_tuple4::<A, B, C, D>(data, true)
    }

    fn unpack_be(data: &mut &[u8]) -> (v: Self) {
        unpack_tuple4::<A, B, C, D>(data, false)
    }
}

/// The bytes a tuple of 5 packs into.
pub open spec fn packed_tuple5<A: Pack, B: Pack, C: Pack, D: Pack, E: Pack>(t: (A, B, C, D, E), little_endian: bool) -> Seq<u8> {
    packed(t.0, little_endian) + packed(t.1, little_endian) + packed(t.2, little_endian) + packed(t.3, little_endian) + packed(t.4, little_endian)
}

fn pack_tuple5<A: Pack, B: Pack, C: Pack, D: Pack, E: Pack>(t: (A, B, C, D, E), little_endian: bool, buf: &mut Vec<u8>)
    ensures
        final(buf)@ == old(buf)@ + packed_tuple5(t, little_endian),
{
    let ghost start = buf@;
    let ghost whole = t;
    let (a, b, c, d, e) = t;
    pack_one(a, little_endian, buf);
    pack_one(b, little_endian, buf);
    pack_one(c, little_endian, buf);
    pack_one(d, little_endian, buf);
    pack_one(e, little_endian, buf);
    assert(buf@ =~= start + packed_tuple5(whole, little_endian));
}

/// A tuple of 5 at the front of `data` and the number of bytes it takes.
pub open spec fn unpacked_tuple5<A: Unpack, B: Unpack, C: Unpack, D: Unpack, E: Unpack>(data: Seq<u8>, little_endian: bool) -> Option<
    ((A, B, C, D, E), nat),
> {
    match unpacked::<A>(data, little_endian) {
        Some((x0, k0)) => {
            match unpacked::<B>(data.skip(k0 as int), little_endian) {
                Some((x1, k1)) => {
                    match unpacked::<C>(data.skip(k0 as int).skip(k1 as int), little_endian) {
                        Some((x2, k2)) => {
                            match unpacked::<D>(data.skip(k0 as int).skip(k1 as int).skip(k2 as int), little_endian) {
                                Some((x3, k3)) => {
                                    match unpacked::<E>(data.skip(k0 as int).skip(k1 as int).skip(k2 as int).skip(k3 as int), little_endian) {
                                        Some((x4, k4)) => {
                                            Some(((x0, x1, x2, x3, x4), k0 + k1 + k2 + k3 + k4))
                                        },
                                        None => None,
                                    }
                                },
                                None => None,
                            }
                        },
                        None => None,
                    }
                },
                None => None,
            }
        },
        None => None,
    }
}

fn unpack_tuple5<A: Unpack, B: Unpack, C: Unpack, D: Unpack, E: Unpack>(data: &mut &[u8], little_endian: bool) -> (v: (A, B, C, D, E))
    requires
        unpacked_tuple5::<A, B, C, D, E>(old(data)@, little_endian) is Some,
    ensures
        v == unpacked_tuple5::<A, B, C, D, E>(old(data)@, little_endian).unwrap().0,
        unpacked_tuple5::<A, B, C, D, E>(old(data)@, little_endian).unwrap().1 <= old(data)@.len(),
        final(data)@ == old(data)@.skip(
            unpacked_tuple5::<A, B, C, D, E>(old(data)@, little_endian).unwrap().1 as int,
        ),
{
    let ghost d0 = data@;
    let a = unpack_one::<A>(data, little_endian);
    let b = unpack_one::<B>(data, little_endian);
    let c = unpack_one::<C>(data, little_endian);
    let d = unpack_one::<D>(data, little_endian);
    let e = unpack_one::<E>(data, little_endian);
    proof {
        let k0 = unpacked::<A>(d0, little_endian).unwrap().1;
        let k1 = unpacked::<B>(d0.skip(k0 as int), little_endian).unwrap().1;
        let k2 = unpacked::<C>(d0.skip(k0 as int).skip(k1 as int), little_endian).unwrap().1;
        let k3 = unpacked::<D>(d0.skip(k0 as int).skip(k1 as int).skip(k2 as int), little_endian).unwrap().1;
        let k4 = unpacked::<E>(d0.skip(k0 as int).skip(k1 as int).skip(k2 as int).skip(k3 as int), little_endian).unwrap().1;
        assert(d0.skip(k0 as int).skip(k1 as int).skip(k2 as int).skip(k3 as int).skip(k4 as int) =~= d0.skip((k0 + k1 + k2 + k3 + k4) as int));
    }
    (a, b, c, d, e)
}

impl<A: Pack, B: Pack, C: Pack, D: Pack, E: Pack> Pack for (A, B, C, D, E) {
    open spec fn packed_le(self) -> Seq<u8> {
        packed_tuple5(self, true)
    }

    open spec fn packed_be(self) -> Seq<u8> {
        packed_tuple5(self, false)
    }

    fn pack_le(self, buf: &mut Vec<u8>) {
        pack_tuple5(self, true, buf);
    }

    fn pack_be(self, buf: &mut Vec<u8>) {
        pack_tuple5(self, false, buf);
    }
}

impl<A: Unpack, B: Unpack, C: Unpack, D: Unpack, E: Unpack> Unpack for (A, B, C, D, E) {
    open spec fn unpacked_le(data: Seq<u8>) -> Option<(Self, nat)> {
        unpacked_tuple5::<A, B, C, D, E>(data, true)
    }

    open spec fn unpacked_be(data: Seq<u8>) -> Option<(Self, nat)> {
        unpacked_tuple5::<A, B, C, D, E>(data, false)
    }

    fn unpack_le(data: &mut &[u8]) -> (v: Self) {
        unpack_tuple5::<A, B, C, D, E>(data, true)
    }

    fn unpack_be(data: &mut &[u8]) -> (v: Self) {
        unpack_tuple5::<A, B, C, D, E>(data, false)
    }
}

/// The bytes a tuple of 6 packs into.
pub open spec fn packed_tuple6<A: Pack, B: Pack, C: Pack, D: Pack, E: Pack, F: Pack>(t: (A, B, C, D, E, F), little_endian: bool) -> Seq<u8> {
    packed(t.0, little_endian) + packed(t.1, little_endian) + packed(t.2, little_endian) + packed(t.3, little_endian) + packed(t.4, little_endian) + packed(t.5, little_endian)
}

fn pack_tuple6<A: Pack, B: Pack, C: Pack, D: Pack, E: Pack, F: Pack>(t: (A, B, C, D, E, F), little_endian: bool, buf: &mut Vec<u8>)
    ensures
        final(buf)@ == old(buf)@ + packed_tuple6(t, little_endian),
{
    let ghost start = buf@;
    let ghost whole = t;
    let (a, b, c, d, e, f) = t;
    pack_one(a, little_endian, buf);
    pack_one(b, little_endian, buf);
    pack_one(c, little_endian, buf);
    pack_one(d, little_endian, buf);
    pack_one(e, little_endian, buf);
    pack_one(f, little_endian, buf);
    assert(buf@ =~= start + packed_tuple6(whole, little_endian));
}

/// A tuple of 6 at the front of `data` and the number of bytes it takes.
pub open spec fn unpacked_tuple6<A: Unpack, B: Unpack, C: Unpack, D: Unpack, E: Unpack, F: Unpack>(data: Seq<u8>, little_endian: bool) -> Option<
    ((A, B, C, D, E, F), nat),
> {
    match unpacked::<A>(data, little_endian) {
        Some((x0, k0)) => {
            match unpacked::<B>(data.skip(k0 as int), little_endian) {
                Some((x1, k1)) => {
                    match unpacked::<C>(data.skip(k0 as int).skip(k1 as int), little_endian) {
                        Some((x2, k2)) => {
                            match unpacked::<D>(data.skip(k0 as int).skip(k1 as int).skip(k2 as int), little_endian) {
                                Some((x3, k3)) => {
                                    match unpacked::<E>(data.skip(k0 as int).skip(k1 as int).skip(k2 as int).skip(k3 as int), little_endian) {
                                        Some((x4, k4)) => {
                                            match unpacked::<F>(data.skip(k0 as int).skip(k1 as int).skip(k2 as int).skip(k3 as int).skip(k4 as int), little_endian) {
                                                Some((x5, k5)) => {
                                                    Some(((x0, x1, x2, x3, x4, x5), k0 + k1 + k2 + k3 + k4 + k5))
                                                },
                                                None => None,
                                            }
                                        },
                                        None => None,
                                    }
                                },
                                None => None,
                            }
                        },
                        None => None,
                    }
                },
                None => None,
            }
        },
        None => None,
    }
}

fn unpack_tuple6<A: Unpack, B: Unpack, C: Unpack, D: Unpack, E: Unpack, F: Unpack>(data: &mut &[u8], little_endian: bool) -> (v: (A, B, C, D, E, F))
    requires
        unpacked_tuple6::<A, B, C, D, E, F>(old(data)@, little_endian) is Some,
    ensures
        v == unpacked_tuple6::<A, B, C, D, E, F>(old(data)@, little_endian).unwrap().0,
        unpacked_tuple6::<A, B, C, D, E, F>(old(data)@, little_endian).unwrap().1 <= old(data)@.len(),
        final(data)@ == old(data)@.skip(
            unpacked_tuple6::<A, B, C, D, E, F>(old(data)@, little_endian).unwrap().1 as int,
        ),
{
    let ghost d0 = data@;
    let a = unpack_one::<A>(data, little_endian);
    let b = unpack_one::<B>(data, little_endian);
    let c = unpack_one::<C>(data, little_endian);
    let d = unpack_one::<D>(data, little_endian);
    let e = unpack_one::<E>(data, little_endian);
    let f = unpack_one::<F>(data, little_endian);
    proof {
        let k0 = unpacked::<A>(d0, little_endian).unwrap().1;
        let k1 = unpacked::<B>(d0.skip(k0 as int), little_endian).unwrap().1;
        let k2 = unpacked::<C>(d0.skip(k0 as int).skip(k1 as int), little_endian).unwrap().1;
        let k3 = unpacked::<D>(d0.skip(k0 as int).skip(k1 as int).skip(k2 as int), little_endian).unwrap().1;
        let k4 = unpacked::<E>(d0.skip(k0 as int).skip(k1 as int).skip(k2 as int).skip(k3 as int), little_endian).unwrap().1;
        let k5 = unpacked::<F>(d0.skip(k0 as int).skip(k1 as int).skip(k2 as int).skip(k3 as int).skip(k4 as int), little_endian).unwrap().1;
        assert(d0.skip(k0 as int).skip(k1 as int).skip(k2 as int).skip(k3 as int).skip(k4 as int).skip(k5 as int) =~= d0.skip((k0 + k1 + k2 + k3 + k4 + k5) as int));
    }
    (a, b, c, d, e, f)
}

impl<A: Pack, B: Pack, C: Pack, D: Pack, E: Pack, F: Pack> Pack for (A, B, C, D, E, F) {
    open spec fn packed_le(self) -> Seq<u8> {
        packed_tuple6(self, true)
    }

    open spec fn packed_be(self) -> Seq<u8> {
        packed_tuple6(self, false)
    }

    fn pack_le(self, buf: &mut Vec<u8>) {
        pack_tuple6(self, true, buf);
    }

    fn pack_be(self, buf: &mut Vec<u8>) {
        pack_tuple6(self, false, buf);
    }
}

impl<A: Unpack, B: Unpack, C: Unpack, D: Unpack, E: Unpack, F: Unpack> Unpack for (A, B, C, D, E, F) {
    open spec fn unpacked_le(data: Seq<u8>) -> Option<(Self, nat)> {
        unpacked_tuple6::<A, B, C, D, E, F>(data, true)
    }

    open spec fn unpacked_be(data: Seq<u8>) -> Option<(Self, nat)> {
        unpacked_tuple6::<A, B, C, D, E, F>(data, false)
    }

    fn unpack_le(data: &mut &[u8]) -> (v: Self) {
        unpack_tuple6::<A, B, C, D, E, F>(data, true)
    }

    fn unpack_be(data: &mut &[u8]) -> (v: Self) {
        unpack_tuple6::<A, B, C, D, E, F>(data, false)
    }
}

/// The bytes a tuple of 7 packs into.
pub open spec fn packed_tuple7<A: Pack, B: Pack, C: Pack, D: Pack, E: Pack, F: Pack, G: Pack>(t: (A, B, C, D, E, F, G), little_endian: bool) -> Seq<u8> {
    packed(t.0, little_endian) + packed(t.1, little_endian) + packed(t.2, little_endian) + packed(t.3, little_endian) + packed(t.4, little_endian) + packed(t.5, little_endian) + packed(t.6, little_endian)
}

fn pack_tuple7<A: Pack, B: Pack, C: Pack, D: Pack, E: Pack, F: Pack, G: Pack>(t: (A, B, C, D, E, F, G), little_endian: bool, buf: &mut Vec<u8>)
    ensures
        final(buf)@ == old(buf)@ + packed_tuple7(t, little_endian),
{
    let ghost start = buf@;
    let ghost whole = t;
    let (a, b, c, d, e, f, g) = t;
    pack_one(a, little_endian, buf);
    pack_one(b, little_endian, buf);
    pack_one(c, little_endian, buf);
    pack_one(d, little_endian, buf);
    pack_one(e, little_endian, buf);
    pack_one(f, little_endian, buf);
    pack_one(g, little_endian, buf);
    assert(buf@ =~= start + packed_tuple7(whole, little_endian));
}

/// A tuple of 7 at the front of `data` and the number of bytes it takes.
pub open spec fn unpacked_tuple7<A: Unpack, B: Unpack, C: Unpack, D: Unpack, E: Unpack, F: Unpack, G: Unpack>(data: Seq<u8>, little_endian: bool) -> Option<
    ((A, B, C, D, E, F, G), nat),
> {
    match unpacked::<A>(data, little_endian) {
        Some((x0, k0)) => {
            match unpacked::<B>(data.skip(k0 as int), little_endian) {
                Some((x1, k1)) => {
                    match unpacked::<C>(data.skip(k0 as int).skip(k1 as int), little_endian) {
                        Some((x2, k2)) => {
                            match unpacked::<D>(data.skip(k0 as int).skip(k1 as int).skip(k2 as int), little_endian) {
                                Some((x3, k3)) => {
                                    match unpacked::<E>(data.skip(k0 as int).skip(k1 as int).skip(k2 as int).skip(k3 as int), little_endian) {
                                        Some((x4, k4)) => {
                                            match unpacked::<F>(data.skip(k0 as int).skip(k1 as int).skip(k2 as int).skip(k3 as int).skip(k4 as int), little_endian) {
                                                Some((x5, k5)) => {
                                                    match unpacked::<G>(data.skip(k0 as int).skip(k1 as int).skip(k2 as int).skip(k3 as int).skip(k4 as int).skip(k5 as int), little_endian) {
                                                        Some((x6, k6)) => {
                                                            Some(((x0, x1, x2, x3, x4, x5, x6), k0 + k1 + k2 + k3 + k4 + k5 + k6))
                                                        },
                                                        None => None,
                                                    }
                                                },
                                                None => None,
                                            }
                                        },
                                        None => None,
                                    }
                                },
                                None => None,
                            }
                        },
                        None => None,
                    }
                },
                None => None,
            }
        },
        None => None,
    }
}

fn unpack_tuple7<A: Unpack, B: Unpack, C: Unpack, D: Unpack, E: Unpack, F: Unpack, G: Unpack>(data: &mut &[u8], little_endian: bool) -> (v: (A, B, C, D, E, F, G))
    requires
        unpacked_tuple7::<A, B, C, D, E, F, G>(old(data)@, little_endian) is Some,
    ensures
        v == unpacked_tuple7::<A, B, C, D, E, F, G>(old(data)@, little_endian).unwrap().0,
        unpacked_tuple7::<A, B, C, D, E, F, G>(old(data)@, little_endian).unwrap().1 <= old(data)@.len(),
        final(data)@ == old(data)@.skip(
            unpacked_tuple7::<A, B, C, D, E, F, G>(old(data)@, little_endian).unwrap().1 as int,
        ),
{
    let ghost d0 = data@;
    let a = unpack_one::<A>(data, little_endian);
    let b = unpack_one::<B>(data, little_endian);
    let c = unpack_one::<C>(data, little_endian);
    let d = unpack_one::<D>(data, little_endian);
    let e = unpack_one::<E>(data, little_endian);
    let f = unpack_one::<F>(data, little_endian);
    let g = unpack_one::<G>(data, little_endian);
    proof {
        let k0 = unpacked::<A>(d0, little_endian).unwrap().1;
        let k1 = unpacked::<B>(d0.skip(k0 as int), little_endian).unwrap().1;
        let k2 = unpacked::<C>(d0.skip(k0 as int).skip(k1 as int), little_endian).unwrap().1;
        let k3 = unpacked::<D>(d0.skip(k0 as int).skip(k1 as int).skip(k2 as int), little_endian).unwrap().1;
        let k4 = unpacked::<E>(d0.skip(k0 as int).skip(k1 as int).skip(k2 as int).skip(k3 as int), little_endian).unwrap().1;
        let k5 = unpacked::<F>(d0.skip(k0 as int).skip(k1 as int).skip(k2 as int).skip(k3 as int).skip(k4 as int), little_endian).unwrap().1;
        let k6 = unpacked::<G>(d0.skip(k0 as int).skip(k1 as int).skip(k2 as int).skip(k3 as int).skip(k4 as int).skip(k5 as int), little_endian).unwrap().1;
        assert(d0.skip(k0 as int).skip(k1 as int).skip(k2 as int).skip(k3 as int).skip(k4 as int).skip(k5 as int).skip(k6 as int) =~= d0.skip((k0 + k1 + k2 + k3 + k4 + k5 + k6) as int));
    }
    (a, b, c, d, e, f, g)
}

impl<A: Pack, B: Pack, C: Pack, D: Pack, E: Pack, F: Pack, G: Pack> Pack for (A, B, C, D, E, F, G) {
    open spec fn packed_le(self) -> Seq<u8> {
        packed_tuple7(self, true)
    }

    open spec fn packed_be(self) -> Seq<u8> {
        packed_tuple7(self, false)
    }

    fn pack_le(self, buf: &mut Vec<u8>) {
        pack_tuple7(self, true, buf);
    }

    fn pack_be(self, buf: &mut Vec<u8>) {
        pack_tuple7(self, false, buf);
    }
}

impl<A: Unpack, B: Unpack, C: Unpack, D: Unpack, E: Unpack, F: Unpack, G: Unpack> Unpack for (A, B, C, D, E, F, G) {
    open spec fn unpacked_le(data: Seq<u8>) -> Option<(Self, nat)> {
        unpacked_tuple7::<A, B, C, D, E, F, G>(data, true)
    }

    open spec fn unpacked_be(data: Seq<u8>) -> Option<(Self, nat)> {
        unpacked_tuple7::<A, B, C, D, E, F, G>(data, false)
    }

    fn unpack_le(data: &mut &[u8]) -> (v: Self) {
        unpack_tuple7::<A, B, C, D, E, F, G>(data, true)
    }

    fn unpack_be(data: &mut &[u8]) -> (v: Self) {
        unpack_tuple7::<A, B, C, D, E, F, G>(data, false)
    }
}

/// The bytes a tuple of 8 packs into.
pub open spec fn packed_tuple8<A: Pack, B: Pack, C: Pack, D: Pack, E: Pack, F: Pack, G: Pack, H: Pack>(t: (A, B, C, D, E, F, G, H), little_endian: bool) -> Seq<u8> {
    packed(t.0, little_endian) + packed(t.1, little_endian) + packed(t.2, little_endian) + packed(t.3, little_endian) + packed(t.4, little_endian) + packed(t.5, little_endian) + packed(t.6, little_endian) + packed(t.7, little_endian)
}

fn pack_tuple8<A: Pack, B: Pack, C: Pack, D: Pack, E: Pack, F: Pack, G: Pack, H: Pack>(t: (A, B, C, D, E, F, G, H), little_endian: bool, buf: &mut Vec<u8>)
    ensures
        final(buf)@ == old(buf)@ + packed_tuple8(t, little_endian),
{
    let ghost start = buf@;
    let ghost whole = t;
    let (a, b, c, d, e, f, g, h) = t;
    pack_one(a, little_endian, buf);
    pack_one(b, little_endian, buf);
    pack_one(c, little_endian, buf);
    pack_one(d, little_endian, buf);
    pack_one(e, little_endian, buf);
    pack_one(f, little_endian, buf);
    pack_one(g, little_endian, buf);
    pack_one(h, little_endian, buf);
    assert(buf@ =~= start + packed_tuple8(whole, little_endian));
}

/// A tuple of 8 at the front of `data` and the number of bytes it takes.
pub open spec fn unpacked_tuple8<A: Unpack, B: Unpack, C: Unpack, D: Unpack, E: Unpack, F: Unpack, G: Unpack, H: Unpack>(data: Seq<u8>, little_endian: bool) -> Option<
    ((A, B, C, D, E, F, G, H), nat),
> {
    match unpacked::<A>(data, little_endian) {
        Some((x0, k0)) => {
            match unpacked::<B>(data.skip(k0 as int), little_endian) {
                Some((x1, k1)) => {
                    match unpacked::<C>(data.skip(k0 as int).skip(k1 as int), little_endian) {
                        Some((x2, k2)) => {
                            match unpacked::<D>(data.skip(k0 as int).skip(k1 as int).skip(k2 as int), little_endian) {
                                Some((x3, k3)) => {
                                    match unpacked::<E>(data.skip(k0 as int).skip(k1 as int).skip(k2 as int).skip(k3 as int), little_endian) {
                                        Some((x4, k4)) => {
                                            match unpacked::<F>(data.skip(k0 as int).skip(k1 as int).skip(k2 as int).skip(k3 as int).skip(k4 as int), little_endian) {
                                                Some((x5, k5)) => {
                                                    match unpacked::<G>(data.skip(k0 as int).skip(k1 as int).skip(k2 as int).skip(k3 as int).skip(k4 as int).skip(k5 as int), little_endian) {
                                                        Some((x6, k6)) => {
                                                            match unpacked::<H>(data.skip(k0 as int).skip(k1 as int).skip(k2 as int).skip(k3 as int).skip(k4 as int).skip(k5 as int).skip(k6 as int), little_endian) {
                                                                Some((x7, k7)) => {
                                                                    Some(((x0, x1, x2, x3, x4, x5, x6, x7), k0 + k1 + k2 + k3 + k4 + k5 + k6 + k7))
                                                                },
                                                                None => None,
                                                            }
                                                        },
                                                        None => None,
                                                    }
                                                },
                                                None => None,
                                            }
                                        },
                                        None => None,
                                    }
                                },
                                None => None,
                            }
                        },
                        None => None,
                    }
                },
                None => None,
            }
        },
        None => None,
    }
}

fn unpack_tuple8<A: Unpack, B: Unpack, C: Unpack, D: Unpack, E: Unpack, F: Unpack, G: Unpack, H: Unpack>(data: &mut &[u8], little_endian: bool) -> (v: (A, B, C, D, E, F, G, H))
    requires
        unpacked_tuple8::<A, B, C, D, E, F, G, H>(old(data)@, little_endian) is Some,
    ensures
        v == unpacked_tuple8::<A, B, C, D, E, F, G, H>(old(data)@, little_endian).unwrap().0,
        unpacked_tuple8::<A, B, C, D, E, F, G, H>(old(data)@, little_endian).unwrap().1 <= old(data)@.len(),
        final(data)@ == old(data)@.skip(
            unpacked_tuple8::<A, B, C, D, E, F, G, H>(old(data)@, little_endian).unwrap().1 as int,
        ),
{
    let ghost d0 = data@;
    let a = unpack_one::<A>(data, little_endian);
    let b = unpack_one::<B>(data, little_endian);
    let c = unpack_one::<C>(data, little_endian);
    let d = unpack_one::<D>(data, little_endian);
    let e = unpack_one::<E>(data, little_endian);
    let f = unpack_one::<F>(data, little_endian);
    let g = unpack_one::<G>(data, little_endian);
    let h = unpack_one::<H>(data, little_endian);
    proof {
        let k0 = unpacked::<A>(d0, little_endian).unwrap().1;
        let k1 = unpacked::<B>(d0.skip(k0 as int), little_endian).unwrap().1;
        let k2 = unpacked::<C>(d0.skip(k0 as int).skip(k1 as int), little_endian).unwrap().1;
        let k3 = unpacked::<D>(d0.skip(k0 as int).skip(k1 as int).skip(k2 as int), little_endian).unwrap().1;
        let k4 = unpacked::<E>(d0.skip(k0 as int).skip(k1 as int).skip(k2 as int).skip(k3 as int), little_endian).unwrap().1;
        let k5 = unpacked::<F>(d0.skip(k0 as int).skip(k1 as int).skip(k2 as int).skip(k3 as int).skip(k4 as int), little_endian).unwrap().1;
        let k6 = unpacked::<G>(d0.skip(k0 as int).skip(k1 as int).skip(k2 as int).skip(k3 as int).skip(k4 as int).skip(k5 as int), little_endian).unwrap().1;
        let k7 = unpacked::<H>(d0.skip(k0 as int).skip(k1 as int).skip(k2 as int).skip(k3 as int).skip(k4 as int).skip(k5 as int).skip(k6 as int), little_endian).unwrap().1;
        assert(d0.skip(k0 as int).skip(k1 as int).skip(k2 as int).skip(k3 as int).skip(k4 as int).skip(k5 as int).skip(k6 as int).skip(k7 as int) =~= d0.skip((k0 + k1 + k2 + k3 + k4 + k5 + k6 + k7) as int));
    }
    (a, b, c, d, e, f, g, h)
}

impl<A: Pack, B: Pack, C: Pack, D: Pack, E: Pack, F: Pack, G: Pack, H: Pack> Pack for (A, B, C, D, E, F, G, H) {
    open spec fn packed_le(self) -> Seq<u8> {
        packed_tuple8(self, true)
    }

    open spec fn packed_be(self) -> Seq<u8> {
        packed_tuple8(self, false)
    }

    fn pack_le(self, buf: &mut Vec<u8>) {
        pack_tuple8(self, true, buf);
    }

    fn pack_be(self, buf: &mut Vec<u8>) {
        pack_tuple8(self, false, buf);
    }
}

impl<A: Unpack, B: Unpack, C: Unpack, D: Unpack, E: Unpack, F: Unpack, G: Unpack, H: Unpack> Unpack for (A, B, C, D, E, F, G, H) {
    open spec fn unpacked_le(data: Seq<u8>) -> Option<(Self, nat)> {
        unpacked_tuple8::<A, B, C, D, E, F, G, H>(data, true)
    }

    open spec fn unpacked_be(data: Seq<u8>) -> Option<(Self, nat)> {
        unpacked_tuple8::<A, B, C, D, E, F, G, H>(data, false)
    }

    fn unpack_le(data: &mut &[u8]) -> (v: Self) {
        unpack_tuple8::<A, B, C, D, E, F, G, H>(data, true)
    }

    fn unpack_be(data: &mut &[u8]) -> (v: Self) {
        unpack_tuple8::<A, B, C, D, E, F, G, H>(data, false)
    }
}

/// The bytes a tuple of 9 packs into.
pub open spec fn packed_tuple9<A: Pack, B: Pack, C: Pack, D: Pack, E: Pack, F: Pack, G: Pack, H: Pack, I: Pack>(t: (A, B, C, D, E, F, G, H, I), little_endian: bool) -> Seq<u8> {
    packed(t.0, little_endian) + packed(t.1, little_endian) + packed(t.2, little_endian) + packed(t.3, little_endian) + packed(t.4, little_endian) + packed(t.5, little_endian) + packed(t.6, little_endian) + packed(t.7, little_endian) + packed(t.8, little_endian)
}

fn pack_tuple9<A: Pack, B: Pack, C: Pack, D: Pack, E: Pack, F: Pack, G: Pack, H: Pack, I: Pack>(t: (A, B, C, D, E, F, G, H, I), little_endian: bool, buf: &mut Vec<u8>)
    ensures
        final(buf)@ == old(buf)@ + packed_tuple9(t, little_endian),
{
    let ghost start = buf@;
    let ghost whole = t;
    let (a, b, c, d, e, f, g, h, i) = t;
    pack_one(a, little_endian, buf);
    pack_one(b, little_endian, buf);
    pack_one(c, little_endian, buf);
    pack_one(d, little_endian, buf);
    pack_one(e, little_endian, buf);
    pack_one(f, little_endian, buf);
    pack_one(g, little_endian, buf);
    pack_one(h, little_endian, buf);
    pack_one(i, little_endian, buf);
    assert(buf@ =~= start + packed_tuple9(whole, little_endian));
}

/// A tuple of 9 at the front of `data` and the number of bytes it takes.
pub open spec fn unpacked_tuple9<A: Unpack, B: Unpack, C: Unpack, D: Unpack, E: Unpack, F: Unpack, G: Unpack, H: Unpack, I: Unpack>(data: Seq<u8>, little_endian: bool) -> Option<
    ((A, B, C, D, E, F, G, H, I), nat),
> {
    match unpacked::<A>(data, little_endian) {
        Some((x0, k0)) => {
            match unpacked::<B>(data.skip(k0 as int), little_endian) {
                Some((x1, k1)) => {
                    match unpacked::<C>(data.skip(k0 as int).skip(k1 as int), little_endian) {
                        Some((x2, k2)) => {
                            match unpacked::<D>(data.skip(k0 as int).skip(k1 as int).skip(k2 as int), little_endian) {
                                Some((x3, k3)) => {
                                    match unpacked::<E>(data.skip(k0 as int).skip(k1 as int).skip(k2 as int).skip(k3 as int), little_endian) {
                                        Some((x4, k4)) => {
                                            match unpacked::<F>(data.skip(k0 as int).skip(k1 as int).skip(k2 as int).skip(k3 as int).skip(k4 as int), little_endian) {
                                                Some((x5, k5)) => {
                                                    match unpacked::<G>(data.skip(k0 as int).skip(k1 as int).skip(k2 as int).skip(k3 as int).skip(k4 as int).skip(k5 as int), little_endian) {
                                                        Some((x6, k6)) => {
                                                            match unpacked::<H>(data.skip(k0 as int).skip(k1 as int).skip(k2 as int).skip(k3 as int).skip(k4 as int).skip(k5 as int).skip(k6 as int), little_endian) {
                                                                Some((x7, k7)) => {
                                                                    match unpacked::<I>(data.skip(k0 as int).skip(k1 as int).skip(k2 as int).skip(k3 as int).skip(k4 as int).skip(k5 as int).skip(k6 as int).skip(k7 as int), little_endian) {
                                                                        Some((x8, k8)) => {
                                                                            Some(((x0, x1, x2, x3, x4, x5, x6, x7, x8), k0 + k1 + k2 + k3 + k4 + k5 + k6 + k7 + k8))
                                                                        },
                                                                        None => None,
                                                                    }
                                                                },
                                                                None => None,
                                                            }
                                                        },
                                                        None => None,
                                                    }
                                                },
                                                None => None,
                                            }
                                        },
                                        None => None,
                                    }
                                },
                                None => None,
                            }
                        },
                        None => None,
                    }
                },
                None => None,
            }
        },
        None => None,
    }
}

fn unpack_tuple9<A: Unpack, B: Unpack, C: Unpack, D: Unpack, E: Unpack, F: Unpack, G: Unpack, H: Unpack, I: Unpack>(data: &mut &[u8], little_endian: bool) -> (v: (A, B, C, D, E, F, G, H, I))
    requires
        unpacked_tuple9::<A, B, C, D, E, F, G, H, I>(old(data)@, little_endian) is Some,
    ensures
        v == unpacked_tuple9::<A, B, C, D, E, F, G, H, I>(old(data)@, little_endian).unwrap().0,
        unpacked_tuple9::<A, B, C, D, E, F, G, H, I>(old(data)@, little_endian).unwrap().1 <= old(data)@.len(),
        final(data)@ == old(data)@.skip(
            unpacked_tuple9::<A, B, C, D, E, F, G, H, I>(old(data)@, little_endian).unwrap().1 as int,
        ),
{
    let ghost d0 = data@;
    let a = unpack_one::<A>(data, little_endian);
    let b = unpack_one::<B>(data, little_endian);
    let c = unpack_one::<C>(data, little_endian);
    let d = unpack_one::<D>(data, little_endian);
    let e = unpack_one::<E>(data, little_endian);
    let f = unpack_one::<F>(data, little_endian);
    let g = unpack_one::<G>(data, little_endian);
    let h = unpack_one::<H>(data, little_endian);
    let i = unpack_one::<I>(data, little_endian);
    proof {
        let k0 = unpacked::<A>(d0, little_endian).unwrap().1;
        let k1 = unpacked::<B>(d0.skip(k0 as int), little_endian).unwrap().1;
        let k2 = unpacked::<C>(d0.skip(k0 as int).skip(k1 as int), little_endian).unwrap().1;
        let k3 = unpacked::<D>(d0.skip(k0 as int).skip(k1 as int).skip(k2 as int), little_endian).unwrap().1;
        let k4 = unpacked::<E>(d0.skip(k0 as int).skip(k1 as int).skip(k2 as int).skip(k3 as int), little_endian).unwrap().1;
        let k5 = unpacked::<F>(d0.skip(k0 as int).skip(k1 as int).skip(k2 as int).skip(k3 as int).skip(k4 as int), little_endian).unwrap().1;
        let k6 = unpacked::<G>(d0.skip(k0 as int).skip(k1 as int).skip(k2 as int).skip(k3 as int).skip(k4 as int).skip(k5 as int), little_endian).unwrap().1;
        let k7 = unpacked::<H>(d0.skip(k0 as int).skip(k1 as int).skip(k2 as int).skip(k3 as int).skip(k4 as int).skip(k5 as int).skip(k6 as int), little_endian).unwrap().1;
        let k8 = unpacked::<I>(d0.skip(k0 as int).skip(k1 as int).skip(k2 as int).skip(k3 as int).skip(k4 as int).skip(k5 as int).skip(k6 as int).skip(k7 as int), little_endian).unwrap().1;
        assert(d0.skip(k0 as int).skip(k1 as int).skip(k2 as int).skip(k3 as int).skip(k4 as int).skip(k5 as int).skip(k6 as int).skip(k7 as int).skip(k8 as int) =~= d0.skip((k0 + k1 + k2 + k3 + k4 + k5 + k6 + k7 + k8) as int));
    }
    (a, b, c, d, e, f, g, h, i)
}

impl<A: Pack, B: Pack, C: Pack, D: Pack, E: Pack, F: Pack, G: Pack, H: Pack, I: Pack> Pack for (A, B, C, D, E, F, G, H, I) {
    open spec fn packed_le(self) -> Seq<u8> {
        packed_tuple9(self, true)
    }

    open spec fn packed_be(self) -> Seq<u8> {
        packed_tuple9(self, false)
    }

    fn pack_le(self, buf: &mut Vec<u8>) {
        pack_tuple9(self, true, buf);
    }

    fn pack_be(self, buf: &mut Vec<u8>) {
        pack_tuple9(self, false, buf);
    }
}

impl<A: Unpack, B: Unpack, C: Unpack, D: Unpack, E: Unpack, F: Unpack, G: Unpack, H: Unpack, I: Unpack> Unpack for (A, B, C, D, E, F, G, H, I) {
    open spec fn unpacked_le(data: Seq<u8>) -> Option<(Self, nat)> {
        unpacked_tuple9::<A, B, C, D, E, F, G, H, I>(data, true)
    }

    open spec fn unpacked_be(data: Seq<u8>) -> Option<(Self, nat)> {
        unpacked_tuple9::<A, B, C, D, E, F, G, H, I>(data, false)
    }

    fn unpack_le(data: &mut &[u8]) -> (v: Self) {
        unpack_tuple9::<A, B, C, D, E, F, G, H, I>(data, true)
    }

    fn unpack_be(data: &mut &[u8]) -> (v: Self) {
        unpack_tuple9::<A, B, C, D, E, F, G, H, I>(data, false)
    }
}

/// The bytes a tuple of 10 packs into.
pub open spec fn packed_tuple10<A: Pack, B: Pack, C: Pack, D: Pack, E: Pack, F: Pack, G: Pack, H: Pack, I: Pack, J: Pack>(t: (A, B, C, D, E, F, G, H, I, J), little_endian: bool) -> Seq<u8> {
    packed(t.0, little_endian) + packed(t.1, little_endian) + packed(t.2, little_endian) + packed(t.3, little_endian) + packed(t.4, little_endian) + packed(t.5, little_endian) + packed(t.6, little_endian) + packed(t.7, little_endian) + packed(t.8, little_endian) + packed(t.9, little_endian)
}

fn pack_tuple10<A: Pack, B: Pack, C: Pack, D: Pack, E: Pack, F: Pack, G: Pack, H: Pack, I: Pack, J: Pack>(t: (A, B, C, D, E, F, G, H, I, J), little_endian: bool, buf: &mut Vec<u8>)
    ensures
        final(buf)@ == old(buf)@ + packed_tuple10(t, little_endian),
{
    let ghost start = buf@;
    let ghost whole = t;
    let (a, b, c, d, e, f, g, h, i, j) = t;
    pack_one(a, little_endian, buf);
    pack_one(b, little_endian, buf);
    pack_one(c, little_endian, buf);
    pack_one(d, little_endian, buf);
    pack_one(e, little_endian, buf);
    pack_one(f, little_endian, buf);
    pack_one(g, little_endian, buf);
    pack_one(h, little_endian, buf);
    pack_one(i, little_endian, buf);
    pack_one(j, little_endian, buf);
    assert(buf@ =~= start + packed_tuple10(whole, little_endian));
}

/// A tuple of 10 at the front of `data` and the number of bytes it takes.
pub open spec fn unpacked_tuple10<A: Unpack, B: Unpack, C: Unpack, D: Unpack, E: Unpack, F: Unpack, G: Unpack, H: Unpack, I: Unpack, J: Unpack>(data: Seq<u8>, little_endian: bool) -> Option<
    ((A, B, C, D, E, F, G, H, I, J), nat),
> {
    match unpacked::<A>(data, little_endian) {
        Some((x0, k0)) => {
            match unpacked::<B>(data.skip(k0 as int), little_endian) {
                Some((x1, k1)) => {
                    match unpacked::<C>(data.skip(k0 as int).skip(k1 as int), little_endian) {
                        Some((x2, k2)) => {
                            match unpacked::<D>(data.skip(k0 as int).skip(k1 as int).skip(k2 as int), little_endian) {
                                Some((x3, k3)) => {
                                    match unpacked::<E>(data.skip(k0 as int).skip(k1 as int).skip(k2 as int).skip(k3 as int), little_endian) {
                                        Some((x4, k4)) => {
                                            match unpacked::<F>(data.skip(k0 as int).skip(k1 as int).skip(k2 as int).skip(k3 as int).skip(k4 as int), little_endian) {
                                                Some((x5, k5)) => {
                                                    match unpacked::<G>(data.skip(k0 as int).skip(k1 as int).skip(k2 as int).skip(k3 as int).skip(k4 as int).skip(k5 as int), little_endian) {
                                                        Some((x6, k6)) => {
                                                            match unpacked::<H>(data.skip(k0 as int).skip(k1 as int).skip(k2 as int).skip(k3 as int).skip(k4 as int).skip(k5 as int).skip(k6 as int), little_endian) {
                                                                Some((x7, k7)) => {
                                                                    match unpacked::<I>(data.skip(k0 as int).skip(k1 as int).skip(k2 as int).skip(k3 as int).skip(k4 as int).skip(k5 as int).skip(k6 as int).skip(k7 as int), little_endian) {
                                                                        Some((x8, k8)) => {
                                                                            match unpacked::<J>(data.skip(k0 as int).skip(k1 as int).skip(k2 as int).skip(k3 as int).skip(k4 as int).skip(k5 as int).skip(k6 as int).skip(k7 as int).skip(k8 as int), little_endian) {
                                                                                Some((x9, k9)) => {
                                                                                    Some(((x0, x1, x2, x3, x4, x5, x6, x7, x8, x9), k0 + k1 + k2 + k3 + k4 + k5 + k6 + k7 + k8 + k9))
                                                                                },
                                                                                None => None,
                                                                            }
                                                                        },
                                                                        None => None,
                                                                    }
                                                                },
                                                                None => None,
                                                            }
                                                        },
                                                        None => None,
                                                    }
                                                },
                                                None => None,
                                            }
                                        },
                                        None => None,
                                    }
                                },
                                None => None,
                            }
                        },
                        None => None,
                    }
                },
                None => None,
            }
        },
        None => None,
    }
}

fn unpack_tuple10<A: Unpack, B: Unpack, C: Unpack, D: Unpack, E: Unpack, F: Unpack, G: Unpack, H: Unpack, I: Unpack, J: Unpack>(data: &mut &[u8], little_endian: bool) -> (v: (A, B, C, D, E, F, G, H, I, J))
    requires
        unpacked_tuple10::<A, B, C, D, E, F, G, H, I, J>(old(data)@, little_endian) is Some,
    ensures
        v == unpacked_tuple10::<A, B, C, D, E, F, G, H, I, J>(old(data)@, little_endian).unwrap().0,
        unpacked_tuple10::<A, B, C, D, E, F, G, H, I, J>(old(data)@, little_endian).unwrap().1 <= old(data)@.len(),
        final(data)@ == old(data)@.skip(
            unpacked_tuple10::<A, B, C, D, E, F, G, H, I, J>(old(data)@, little_endian).unwrap().1 as int,
        ),
{
    let ghost d0 = data@;
    let a = unpack_one::<A>(data, little_endian);
    let b = unpack_one::<B>(data, little_endian);
    let c = unpack_one::<C>(data, little_endian);
    let d = unpack_one::<D>(data, little_endian);
    let e = unpack_one::<E>(data, little_endian);
    let f = unpack_one::<F>(data, little_endian);
    let g = unpack_one::<G>(data, little_endian);
    let h = unpack_one::<H>(data, little_endian);
    let i = unpack_one::<I>(data, little_endian);
    let j = unpack_one::<J>(data, little_endian);
    proof {
        let k0 = unpacked::<A>(d0, little_endian).unwrap().1;
        let k1 = unpacked::<B>(d0.skip(k0 as int), little_endian).unwrap().1;
        let k2 = unpacked::<C>(d0.skip(k0 as int).skip(k1 as int), little_endian).unwrap().1;
        let k3 = unpacked::<D>(d0.skip(k0 as int).skip(k1 as int).skip(k2 as int), little_endian).unwrap().1;
        let k4 = unpacked::<E>(d0.skip(k0 as int).skip(k1 as int).skip(k2 as int).skip(k3 as int), little_endian).unwrap().1;
        let k5 = unpacked::<F>(d0.skip(k0 as int).skip(k1 as int).skip(k2 as int).skip(k3 as int).skip(k4 as int), little_endian).unwrap().1;
        let k6 = unpacked::<G>(d0.skip(k0 as int).skip(k1 as int).skip(k2 as int).skip(k3 as int).skip(k4 as int).skip(k5 as int), little_endian).unwrap().1;
        let k7 = unpacked::<H>(d0.skip(k0 as int).skip(k1 as int).skip(k2 as int).skip(k3 as int).skip(k4 as int).skip(k5 as int).skip(k6 as int), little_endian).unwrap().1;
        let k8 = unpacked::<I>(d0.skip(k0 as int).skip(k1 as int).skip(k2 as int).skip(k3 as int).skip(k4 as int).skip(k5 as int).skip(k6 as int).skip(k7 as int), little_endian).unwrap().1;
        let k9 = unpacked::<J>(d0.skip(k0 as int).skip(k1 as int).skip(k2 as int).skip(k3 as int).skip(k4 as int).skip(k5 as int).skip(k6 as int).skip(k7 as int).skip(k8 as int), little_endian).unwrap().1;
        assert(d0.skip(k0 as int).skip(k1 as int).skip(k2 as int).skip(k3 as int).skip(k4 as int).skip(k5 as int).skip(k6 as int).skip(k7 as int).skip(k8 as int).skip(k9 as int) =~= d0.skip((k0 + k1 + k2 + k3 + k4 + k5 + k6 + k7 + k8 + k9) as int));
    }
    (a, b, c, d, e, f, g, h, i, j)
}

impl<A: Pack, B: Pack, C: Pack, D: Pack, E: Pack, F: Pack, G: Pack, H: Pack, I: Pack, J: Pack> Pack for (A, B, C, D, E, F, G, H, I, J) {
    open spec fn packed_le(self) -> Seq<u8> {
        packed_tuple10(self, true)
    }

    open spec fn packed_be(self) -> Seq<u8> {
        packed_tuple10(self, false)
    }

    fn pack_le(self, buf: &mut Vec<u8>) {
        pack_tuple10(self, true, buf);
    }

    fn pack_be(self, buf: &mut Vec<u8>) {
        pack_tuple10(self, false, buf);
    }
}

impl<A: Unpack, B: Unpack, C: Unpack, D: Unpack, E: Unpack, F: Unpack, G: Unpack, H: Unpack, I: Unpack, J: Unpack> Unpack for (A, B, C, D, E, F, G, H, I, J) {
    open spec fn unpacked_le(data: Seq<u8>) -> Option<(Self, nat)> {
        unpacked_tuple10::<A, B, C, D, E, F, G, H, I, J>(data, true)
    }

    open spec fn unpacked_be(data: Seq<u8>) -> Option<(Self, nat)> {
        unpacked_tuple10::<A, B, C, D, E, F, G, H, I, J>(data, false)
    }

    fn unpack_le(data: &mut &[u8]) -> (v: Self) {
        unpack_tuple10::<A, B, C, D, E, F, G, H, I, J>(data, true)
    }

    fn unpack_be(data: &mut &[u8]) -> (v: Self) {
        unpack_tuple10::<A, B, C, D, E, F, G, H, I, J>(data, false)
    }
}

/// The bytes a tuple of 11 packs into.
pub open spec fn packed_tuple11<A: Pack, B: Pack, C: Pack, D: Pack, E: Pack, F: Pack, G: Pack, H: Pack, I: Pack, J: Pack, K: Pack>(t: (A, B, C, D, E, F, G, H, I, J, K), little_endian: bool) -> Seq<u8> {
    packed(t.0, little_endian) + packed(t.1, little_endian) + packed(t.2, little_endian) + packed(t.3, little_endian) + packed(t.4, little_endian) + packed(t.5, little_endian) + packed(t.6, little_endian) + packed(t.7, little_endian) + packed(t.8, little_endian) + packed(t.9, little_endian) + packed(t.10, little_endian)
}

fn pack_tuple11<A: Pack, B: Pack, C: Pack, D: Pack, E: Pack, F: Pack, G: Pack, H: Pack, I: Pack, J: Pack, K: Pack>(t: (A, B, C, D, E, F, G, H, I, J, K), little_endian: bool, buf: &mut Vec<u8>)
    ensures
        final(buf)@ == old(buf)@ + packed_tuple11(t, little_endian),
{
    let ghost start = buf@;
    let ghost whole = t;
    let (a, b, c, d, e, f, g, h, i, j, k) = t;
    pack_one(a, little_endian, buf);
    pack_one(b, little_endian, buf);
    pack_one(c, little_endian, buf);
    pack_one(d, little_endian, buf);
    pack_one(e, little_endian, buf);
    pack_one(f, little_endian, buf);
    pack_one(g, little_endian, buf);
    pack_one(h, little_endian, buf);
    pack_one(i, little_endian, buf);
    pack_one(j, little_endian, buf);
    pack_one(k, little_endian, buf);
    assert(buf@ =~= start + packed_tuple11(whole, little_endian));
}

/// A tuple of 11 at the front of `data` and the number of bytes it takes.
pub open spec fn unpacked_tuple11<A: Unpack, B: Unpack, C: Unpack, D: Unpack, E: Unpack, F: Unpack, G: Unpack, H: Unpack, I: Unpack, J: Unpack, K: Unpack>(data: Seq<u8>, little_endian: bool) -> Option<
    ((A, B, C, D, E, F, G, H, I, J, K), nat),
> {
    match unpacked::<A>(data, little_endian) {
        Some((x0, k0)) => {
            match unpacked::<B>(data.skip(k0 as int), little_endian) {
                Some((x1, k1)) => {
                    match unpacked::<C>(data.skip(k0 as int).skip(k1 as int), little_endian) {
                        Some((x2, k2)) => {
                            match unpacked::<D>(data.skip(k0 as int).skip(k1 as int).skip(k2 as int), little_endian) {
                                Some((x3, k3)) => {
                                    match unpacked::<E>(data.skip(k0 as int).skip(k1 as int).skip(k2 as int).skip(k3 as int), little_endian) {
                                        Some((x4, k4)) => {
                                            match unpacked::<F>(data.skip(k0 as int).skip(k1 as int).skip(k2 as int).skip(k3 as int).skip(k4 as int), little_endian) {
                                                Some((x5, k5)) => {
                                                    match unpacked::<G>(data.skip(k0 as int).skip(k1 as int).skip(k2 as int).skip(k3 as int).skip(k4 as int).skip(k5 as int), little_endian) {
                                                        Some((x6, k6)) => {
                                                            match unpacked::<H>(data.skip(k0 as int).skip(k1 as int).skip(k2 as int).skip(k3 as int).skip(k4 as int).skip(k5 as int).skip(k6 as int), little_endian) {
                                                                Some((x7, k7)) => {
                                                                    match unpacked::<I>(data.skip(k0 as int).skip(k1 as int).skip(k2 as int).skip(k3 as int).skip(k4 as int).skip(k5 as int).skip(k6 as int).skip(k7 as int), little_endian) {
                                                                        Some((x8, k8)) => {
                                                                            match unpacked::<J>(data.skip(k0 as int).skip(k1 as int).skip(k2 as int).skip(k3 as int).skip(k4 as int).skip(k5 as int).skip(k6 as int).skip(k7 as int).skip(k8 as int), little_endian) {
                                                                                Some((x9, k9)) => {
                                                                                    match unpacked::<K>(data.skip(k0 as int).skip(k1 as int).skip(k2 as int).skip(k3 as int).skip(k4 as int).skip(k5 as int).skip(k6 as int).skip(k7 as int).skip(k8 as int).skip(k9 as int), little_endian) {
                                                                                        Some((x10, k10)) => {
                                                                                            Some(((x0, x1, x2, x3, x4, x5, x6, x7, x8, x9, x10), k0 + k1 + k2 + k3 + k4 + k5 + k6 + k7 + k8 + k9 + k10))
                                                                                        },
                                                                                        None => None,
                                                                                    }
                                                                                },
                                                                                None => None,
                                                                            }
                                                                        },
                                                                        None => None,
                                                                    }
                                                                },
                                                                None => None,
                                                            }
                                                        },
                                                        None => None,
                                                    }
                                                },
                                                None => None,
                                            }
                                        },
                                        None => None,
                                    }
                                },
                                None => None,
                            }
                        },
                        None => None,
                    }
                },
                None => None,
            }
        },
        None => None,
    }
}

fn unpack_tuple11<A: Unpack, B: Unpack, C: Unpack, D: Unpack, E: Unpack, F: Unpack, G: Unpack, H: Unpack, I: Unpack, J: Unpack, K: Unpack>(data: &mut &[u8], little_endian: bool) -> (v: (A, B, C, D, E, F, G, H, I, J, K))
    requires
        unpacked_tuple11::<A, B, C, D, E, F, G, H, I, J, K>(old(data)@, little_endian) is Some,
    ensures
        v == unpacked_tuple11::<A, B, C, D, E, F, G, H, I, J, K>(old(data)@, little_endian).unwrap().0,
        unpacked_tuple11::<A, B, C, D, E, F, G, H, I, J, K>(old(data)@, little_endian).unwrap().1 <= old(data)@.len(),
        final(data)@ == old(data)@.skip(
            unpacked_tuple11::<A, B, C, D, E, F, G, H, I, J, K>(old(data)@, little_endian).unwrap().1 as int,
        ),
{
    let ghost d0 = data@;
    let a = unpack_one::<A>(data, little_endian);
    let b = unpack_one::<B>(data, little_endian);
    let c = unpack_one::<C>(data, little_endian);
    let d = unpack_one::<D>(data, little_endian);
    let e = unpack_one::<E>(data, little_endian);
    let f = unpack_one::<F>(data, little_endian);
    let g = unpack_one::<G>(data, little_endian);
    let h = unpack_one::<H>(data, little_endian);
    let i = unpack_one::<I>(data, little_endian);
    let j = unpack_one::<J>(data, little_endian);
    let k = unpack_one::<K>(data, little_endian);
    proof {
        let k0 = unpacked::<A>(d0, little_endian).unwrap().1;
        let k1 = unpacked::<B>(d0.skip(k0 as int), little_endian).unwrap().1;
        let k2 = unpacked::<C>(d0.skip(k0 as int).skip(k1 as int), little_endian).unwrap().1;
        let k3 = unpacked::<D>(d0.skip(k0 as int).skip(k1 as int).skip(k2 as int), little_endian).unwrap().1;
        let k4 = unpacked::<E>(d0.skip(k0 as int).skip(k1 as int).skip(k2 as int).skip(k3 as int), little_endian).unwrap().1;
        let k5 = unpacked::<F>(d0.skip(k0 as int).skip(k1 as int).skip(k2 as int).skip(k3 as int).skip(k4 as int), little_endian).unwrap().1;
        let k6 = unpacked::<G>(d0.skip(k0 as int).skip(k1 as int).skip(k2 as int).skip(k3 as int).skip(k4 as int).skip(k5 as int), little_endian).unwrap().1;
        let k7 = unpacked::<H>(d0.skip(k0 as int).skip(k1 as int).skip(k2 as int).skip(k3 as int).skip(k4 as int).skip(k5 as int).skip(k6 as int), little_endian).unwrap().1;
        let k8 = unpacked::<I>(d0.skip(k0 as int).skip(k1 as int).skip(k2 as int).skip(k3 as int).skip(k4 as int).skip(k5 as int).skip(k6 as int).skip(k7 as int), little_endian).unwrap().1;
        let k9 = unpacked::<J>(d0.skip(k0 as int).skip(k1 as int).skip(k2 as int).skip(k3 as int).skip(k4 as int).skip(k5 as int).skip(k6 as int).skip(k7 as int).skip(k8 as int), little_endian).unwrap().1;
        let k10 = unpacked::<K>(d0.skip(k0 as int).skip(k1 as int).skip(k2 as int).skip(k3 as int).skip(k4 as int).skip(k5 as int).skip(k6 as int).skip(k7 as int).skip(k8 as int).skip(k9 as int), little_endian).unwrap().1;
        assert(d0.skip(k0 as int).skip(k1 as int).skip(k2 as int).skip(k3 as int).skip(k4 as int).skip(k5 as int).skip(k6 as int).skip(k7 as int).skip(k8 as int).skip(k9 as int).skip(k10 as int) =~= d0.skip((k0 + k1 + k2 + k3 + k4 + k5 + k6 + k7 + k8 + k9 + k10) as int));
    }
    (a, b, c, d, e, f, g, h, i, j, k)
}

impl<A: Pack, B: Pack, C: Pack, D: Pack, E: Pack, F: Pack, G: Pack, H: Pack, I: Pack, J: Pack, K: Pack> Pack for (A, B, C, D, E, F, G, H, I, J, K) {
    open spec fn packed_le(self) -> Seq<u8> {
        packed_tuple11(self, true)
    }

    open spec fn packed_be(self) -> Seq<u8> {
        packed_tuple11(self, false)
    }

    fn pack_le(self, buf: &mut Vec<u8>) {
        pack_tuple11(self, true, buf);
    }

    fn pack_be(self, buf: &mut Vec<u8>) {
        pack_tuple11(self, false, buf);
    }
}

impl<A: Unpack, B: Unpack, C: Unpack, D: Unpack, E: Unpack, F: Unpack, G: Unpack, H: Unpack, I: Unpack, J: Unpack, K: Unpack> Unpack for (A, B, C, D, E, F, G, H, I, J, K) {
    open spec fn unpacked_le(data: Seq<u8>) -> Option<(Self, nat)> {
        unpacked_tuple11::<A, B, C, D, E, F, G, H, I, J, K>(data, true)
    }

    open spec fn unpacked_be(data: Seq<u8>) -> Option<(Self, nat)> {
        unpacked_tuple11::<A, B, C, D, E, F, G, H, I, J, K>(data, false)
    }

    fn unpack_le(data: &mut &[u8]) -> (v: Self) {
        unpack_tuple11::<A, B, C, D, E, F, G, H, I, J, K>(data, true)
    }

    fn unpack_be(data: &mut &[u8]) -> (v: Self) {
        unpack_tuple11::<A, B, C, D, E, F, G, H, I, J, K>(data, false)
    }
}

/// The bytes a tuple of 12 packs into.
pub open spec fn packed_tuple12<A: Pack, B: Pack, C: Pack, D: Pack, E: Pack, F: Pack, G: Pack, H: Pack, I: Pack, J: Pack, K: Pack, L: Pack>(t: (A, B, C, D, E, F, G, H, I, J, K, L), little_endian: bool) -> Seq<u8> {
    packed(t.0, little_endian) + packed(t.1, little_endian) + packed(t.2, little_endian) + packed(t.3, little_endian) + packed(t.4, little_endian) + packed(t.5, little_endian) + packed(t.6, little_endian) + packed(t.7, little_endian) + packed(t.8, little_endian) + packed(t.9, little_endian) + packed(t.10, little_endian) + packed(t.11, little_endian)
}

fn pack_tuple12<A: Pack, B: Pack, C: Pack, D: Pack, E: Pack, F: Pack, G: Pack, H: Pack, I: Pack, J: Pack, K: Pack, L: Pack>(t: (A, B, C, D, E, F, G, H, I, J, K, L), little_endian: bool, buf: &mut Vec<u8>)
    ensures
        final(buf)@ == old(buf)@ + packed_tuple12(t, little_endian),
{
    let ghost start = buf@;
    let ghost whole = t;
    let (a, b, c, d, e, f, g, h, i, j, k, l) = t;
    pack_one(a, little_endian, buf);
    pack_one(b, little_endian, buf);
    pack_one(c, little_endian, buf);
    pack_one(d, little_endian, buf);
    pack_one(e, little_endian, buf);
    pack_one(f, little_endian, buf);
    pack_one(g, little_endian, buf);
    pack_one(h, little_endian, buf);
    pack_one(i, little_endian, buf);
    pack_one(j, little_endian, buf);
    pack_one(k, little_endian, buf);
    pack_one(l, little_endian, buf);
    assert(buf@ =~= start + packed_tuple12(whole, little_endian));
}

/// A tuple of 12 at the front of `data` and the number of bytes it takes.
pub open spec fn unpacked_tuple12<A: Unpack, B: Unpack, C: Unpack, D: Unpack, E: Unpack, F: Unpack, G: Unpack, H: Unpack, I: Unpack, J: Unpack, K: Unpack, L: Unpack>(data: Seq<u8>, little_endian: bool) -> Option<
    ((A, B, C, D, E, F, G, H, I, J, K, L), nat),
> {
    match unpacked::<A>(data, little_endian) {
        Some((x0, k0)) => {
            match unpacked::<B>(data.skip(k0 as int), little_endian) {
                Some((x1, k1)) => {
                    match unpacked::<C>(data.skip(k0 as int).skip(k1 as int), little_endian) {
                        Some((x2, k2)) => {
                            match unpacked::<D>(data.skip(k0 as int).skip(k1 as int).skip(k2 as int), little_endian) {
                                Some((x3, k3)) => {
                                    match unpacked::<E>(data.skip(k0 as int).skip(k1 as int).skip(k2 as int).skip(k3 as int), little_endian) {
                                        Some((x4, k4)) => {
                                            match unpacked::<F>(data.skip(k0 as int).skip(k1 as int).skip(k2 as int).skip(k3 as int).skip(k4 as int), little_endian) {
                                                Some((x5, k5)) => {
                                                    match unpacked::<G>(data.skip(k0 as int).skip(k1 as int).skip(k2 as int).skip(k3 as int).skip(k4 as int).skip(k5 as int), little_endian) {
                                                        Some((x6, k6)) => {
                                                            match unpacked::<H>(data.skip(k0 as int).skip(k1 as int).skip(k2 as int).skip(k3 as int).skip(k4 as int).skip(k5 as int).skip(k6 as int), little_endian) {
                                                                Some((x7, k7)) => {
                                                                    match unpacked::<I>(data.skip(k0 as int).skip(k1 as int).skip(k2 as int).skip(k3 as int).skip(k4 as int).skip(k5 as int).skip(k6 as int).skip(k7 as int), little_endian) {
                                                                        Some((x8, k8)) => {
                                                                            match unpacked::<J>(data.skip(k0 as int).skip(k1 as int).skip(k2 as int).skip(k3 as int).skip(k4 as int).skip(k5 as int).skip(k6 as int).skip(k7 as int).skip(k8 as int), little_endian) {
                                                                                Some((x9, k9)) => {
                                                                                    match unpacked::<K>(data.skip(k0 as int).skip(k1 as int).skip(k2 as int).skip(k3 as int).skip(k4 as int).skip(k5 as int).skip(k6 as int).skip(k7 as int).skip(k8 as int).skip(k9 as int), little_endian) {
                                                                                        Some((x10, k10)) => {
                                                                                            match unpacked::<L>(data.skip(k0 as int).skip(k1 as int).skip(k2 as int).skip(k3 as int).skip(k4 as int).skip(k5 as int).skip(k6 as int).skip(k7 as int).skip(k8 as int).skip(k9 as int).skip(k10 as int), little_endian) {
                                                                                                Some((x11, k11)) => {
                                                                                                    Some(((x0, x1, x2, x3, x4, x5, x6, x7, x8, x9, x10, x11), k0 + k1 + k2 + k3 + k4 + k5 + k6 + k7 + k8 + k9 + k10 + k11))
                                                                                                },
                                                                                                None => None,
                                                                                            }
                                                                                        },
                                                                                        None => None,
                                                                                    }
                                                                                },
                                                                                None => None,
                                                                            }
                                                                        },
                                                                        None => None,
                                                                    }
                                                                },
                                                                None => None,
                                                            }
                                                        },
                                                        None => None,
                                                    }
                                                },
                                                None => None,
                                            }
                                        },
                                        None => None,
                                    }
                                },
                                None => None,
                            }
                        },
                        None => None,
                    }
                },
                None => None,
            }
        },
        None => None,
    }
}

fn unpack_tuple12<A: Unpack, B: Unpack, C: Unpack, D: Unpack, E: Unpack, F: Unpack, G: Unpack, H: Unpack, I: Unpack, J: Unpack, K: Unpack, L: Unpack>(data: &mut &[u8], little_endian: bool) -> (v: (A, B, C, D, E, F, G, H, I, J, K, L))
    requires
        unpacked_tuple12::<A, B, C, D, E, F, G, H, I, J, K, L>(old(data)@, little_endian) is Some,
    ensures
        v == unpacked_tuple12::<A, B, C, D, E, F, G, H, I, J, K, L>(old(data)@, little_endian).unwrap().0,
        unpacked_tuple12::<A, B, C, D, E, F, G, H, I, J, K, L>(old(data)@, little_endian).unwrap().1 <= old(data)@.len(),
        final(data)@ == old(data)@.skip(
            unpacked_tuple12::<A, B, C, D, E, F, G, H, I, J, K, L>(old(data)@, little_endian).unwrap().1 as int,
        ),
{
    let ghost d0 = data@;
    let a = unpack_one::<A>(data, little_endian);
    let b = unpack_one::<B>(data, little_endian);
    let c = unpack_one::<C>(data, little_endian);
    let d = unpack_one::<D>(data, little_endian);
    let e = unpack_one::<E>(data, little_endian);
    let f = unpack_one::<F>(data, little_endian);
    let g = unpack_one::<G>(data, little_endian);
    let h = unpack_one::<H>(data, little_endian);
    let i = unpack_one::<I>(data, little_endian);
    let j = unpack_one::<J>(data, little_endian);
    let k = unpack_one::<K>(data, little_endian);
    let l = unpack_one::<L>(data, little_endian);
    proof {
        let k0 = unpacked::<A>(d0, little_endian).unwrap().1;
        let k1 = unpacked::<B>(d0.skip(k0 as int), little_endian).unwrap().1;
        let k2 = unpacked::<C>(d0.skip(k0 as int).skip(k1 as int), little_endian).unwrap().1;
        let k3 = unpacked::<D>(d0.skip(k0 as int).skip(k1 as int).skip(k2 as int), little_endian).unwrap().1;
        let k4 = unpacked::<E>(d0.skip(k0 as int).skip(k1 as int).skip(k2 as int).skip(k3 as int), little_endian).unwrap().1;
        let k5 = unpacked::<F>(d0.skip(k0 as int).skip(k1 as int).skip(k2 as int).skip(k3 as int).skip(k4 as int), little_endian).unwrap().1;
        let k6 = unpacked::<G>(d0.skip(k0 as int).skip(k1 as int).skip(k2 as int).skip(k3 as int).skip(k4 as int).skip(k5 as int), little_endian).unwrap().1;
        let k7 = unpacked::<H>(d0.skip(k0 as int).skip(k1 as int).skip(k2 as int).skip(k3 as int).skip(k4 as int).skip(k5 as int).skip(k6 as int), little_endian).unwrap().1;
        let k8 = unpacked::<I>(d0.skip(k0 as int).skip(k1 as int).skip(k2 as int).skip(k3 as int).skip(k4 as int).skip(k5 as int).skip(k6 as int).skip(k7 as int), little_endian).unwrap().1;
        let k9 = unpacked::<J>(d0.skip(k0 as int).skip(k1 as int).skip(k2 as int).skip(k3 as int).skip(k4 as int).skip(k5 as int).skip(k6 as int).skip(k7 as int).skip(k8 as int), little_endian).unwrap().1;
        let k10 = unpacked::<K>(d0.skip(k0 as int).skip(k1 as int).skip(k2 as int).skip(k3 as int).skip(k4 as int).skip(k5 as int).skip(k6 as int).skip(k7 as int).skip(k8 as int).skip(k9 as int), little_endian).unwrap().1;
        let k11 = unpacked::<L>(d0.skip(k0 as int).skip(k1 as int).skip(k2 as int).skip(k3 as int).skip(k4 as int).skip(k5 as int).skip(k6 as int).skip(k7 as int).skip(k8 as int).skip(k9 as int).skip(k10 as int), little_endian).unwrap().1;
        assert(d0.skip(k0 as int).skip(k1 as int).skip(k2 as int).skip(k3 as int).skip(k4 as int).skip(k5 as int).skip(k6 as int).skip(k7 as int).skip(k8 as int).skip(k9 as int).skip(k10 as int).skip(k11 as int) =~= d0.skip((k0 + k1 + k2 + k3 + k4 + k5 + k6 + k7 + k8 + k9 + k10 + k11) as int));
    }
    (a, b, c, d, e, f, g, h, i, j, k, l)
}

impl<A: Pack, B: Pack, C: Pack, D: Pack, E: Pack, F: Pack, G: Pack, H: Pack, I: Pack, J: Pack, K: Pack, L: Pack> Pack for (A, B, C, D, E, F, G, H, I, J, K, L) {
    open spec fn packed_le(self) -> Seq<u8> {
        packed_tuple12(self, true)
    }

    open spec fn packed_be(self) -> Seq<u8> {
        packed_tuple12(self, false)
    }

    fn pack_le(self, buf: &mut Vec<u8>) {
        pack_tuple12(self, true, buf);
    }

    fn pack_be(self, buf: &mut Vec<u8>) {
        pack_tuple12(self, false, buf);
    }
}

impl<A: Unpack, B: Unpack, C: Unpack, D: Unpack, E: Unpack, F: Unpack, G: Unpack, H: Unpack, I: Unpack, J: Unpack, K: Unpack, L: Unpack> Unpack for (A, B, C, D, E, F, G, H, I, J, K, L) {
    open spec fn unpacked_le(data: Seq<u8>) -> Option<(Self, nat)> {
        unpacked_tuple12::<A, B, C, D, E, F, G, H, I, J, K, L>(data, true)
    }

    open spec fn unpacked_be(data: Seq<u8>) -> Option<(Self, nat)> {
        unpacked_tuple12::<A, B, C, D, E, F, G, H, I, J, K, L>(data, false)
    }

    fn unpack_le(data: &mut &[u8]) -> (v: Self) {
        unpack_tuple12::<A, B, C, D, E, F, G, H, I, J, K, L>(data, true)
    }

    fn unpack_be(data: &mut &[u8]) -> (v: Self) {
        unpack_tuple12::<A, B, C, D, E, F, G, H, I, J, K, L>(data, false)
    }
}

/// The bytes a tuple of 13 packs into.
pub open spec fn packed_tuple13<A: Pack, B: Pack, C: Pack, D: Pack, E: Pack, F: Pack, G: Pack, H: Pack, I: Pack, J: Pack, K: Pack, L: Pack, M: Pack>(t: (A, B, C, D, E, F, G, H, I, J, K, L, M), little_endian: bool) -> Seq<u8> {
    packed(t.0, little_endian) + packed(t.1, little_endian) + packed(t.2, little_endian) + packed(t.3, little_endian) + packed(t.4, little_endian) + packed(t.5, little_endian) + packed(t.6, little_endian) + packed(t.7, little_endian) + packed(t.8, little_endian) + packed(t.9, little_endian) + packed(t.10, little_endian) + packed(t.11, little_endian) + packed(t.12, little_endian)
}

fn pack_tuple13<A: Pack, B: Pack, C: Pack, D: Pack, E: Pack, F: Pack, G: Pack, H: Pack, I: Pack, J: Pack, K: Pack, L: Pack, M: Pack>(t: (A, B, C, D, E, F, G, H, I, J, K, L, M), little_endian: bool, buf: &mut Vec<u8>)
    ensures
        final(buf)@ == old(buf)@ + packed_tuple13(t, little_endian),
{
    let ghost start = buf@;
    let ghost whole = t;
    let (a, b, c, d, e, f, g, h, i, j, k, l, m) = t;
    pack_one(a, little_endian, buf);
    pack_one(b, little_endian, buf);
    pack_one(c, little_endian, buf);
    pack_one(d, little_endian, buf);
    pack_one(e, little_endian, buf);
    pack_one(f, little_endian, buf);
    pack_one(g, little_endian, buf);
    pack_one(h, little_endian, buf);
    pack_one(i, little_endian, buf);
    pack_one(j, little_endian, buf);
    pack_one(k, little_endian, buf);
    pack_one(l, little_endian, buf);
    pack_one(m, little_endian, buf);
    assert(buf@ =~= start + packed_tuple13(whole, little_endian));
}

/// A tuple of 13 at the front of `data` and the number of bytes it takes.
pub open spec fn unpacked_tuple13<A: Unpack, B: Unpack, C: Unpack, D: Unpack, E: Unpack, F: Unpack, G: Unpack, H: Unpack, I: Unpack, J: Unpack, K: Unpack, L: Unpack, M: Unpack>(data: Seq<u8>, little_endian: bool) -> Option<
    ((A, B, C, D, E, F, G, H, I, J, K, L, M), nat),
> {
    match unpacked::<A>(data, little_endian) {
        Some((x0, k0)) => {
            match unpacked::<B>(data.skip(k0 as int), little_endian) {
                Some((x1, k1)) => {
                    match unpacked::<C>(data.skip(k0 as int).skip(k1 as int), little_endian) {
                        Some((x2, k2)) => {
                            match unpacked::<D>(data.skip(k0 as int).skip(k1 as int).skip(k2 as int), little_endian) {
                                Some((x3, k3)) => {
                                    match unpacked::<E>(data.skip(k0 as int).skip(k1 as int).skip(k2 as int).skip(k3 as int), little_endian) {
                                        Some((x4, k4)) => {
                                            match unpacked::<F>(data.skip(k0 as int).skip(k1 as int).skip(k2 as int).skip(k3 as int).skip(k4 as int), little_endian) {
                                                Some((x5, k5)) => {
                                                    match unpacked::<G>(data.skip(k0 as int).skip(k1 as int).skip(k2 as int).skip(k3 as int).skip(k4 as int).skip(k5 as int), little_endian) {
                                                        Some((x6, k6)) => {
                                                            match unpacked::<H>(data.skip(k0 as int).skip(k1 as int).skip(k2 as int).skip(k3 as int).skip(k4 as int).skip(k5 as int).skip(k6 as int), little_endian) {
                                                                Some((x7, k7)) => {
                                                                    match unpacked::<I>(data.skip(k0 as int).skip(k1 as int).skip(k2 as int).skip(k3 as int).skip(k4 as int).skip(k5 as int).skip(k6 as int).skip(k7 as int), little_endian) {
                                                                        Some((x8, k8)) => {
                                                                            match unpacked::<J>(data.skip(k0 as int).skip(k1 as int).skip(k2 as int).skip(k3 as int).skip(k4 as int).skip(k5 as int).skip(k6 as int).skip(k7 as int).skip(k8 as int), little_endian) {
                                                                                Some((x9, k9)) => {
                                                                                    match unpacked::<K>(data.skip(k0 as int).skip(k1 as int).skip(k2 as int).skip(k3 as int).skip(k4 as int).skip(k5 as int).skip(k6 as int).skip(k7 as int).skip(k8 as int).skip(k9 as int), little_endian) {
                                                                                        Some((x10, k10)) => {
                                                                                            match unpacked::<L>(data.skip(k0 as int).skip(k1 as int).skip(k2 as int).skip(k3 as int).skip(k4 as int).skip(k5 as int).skip(k6 as int).skip(k7 as int).skip(k8 as int).skip(k9 as int).skip(k10 as int), little_endian) {
                                                                                                Some((x11, k11)) => {
                                                                                                    match unpacked::<M>(data.skip(k0 as int).skip(k1 as int).skip(k2 as int).skip(k3 as int).skip(k4 as int).skip(k5 as int).skip(k6 as int).skip(k7 as int).skip(k8 as int).skip(k9 as int).skip(k10 as int).skip(k11 as int), little_endian) {
                                                                                                        Some((x12, k12)) => {
                                                                                                            Some(((x0, x1, x2, x3, x4, x5, x6, x7, x8, x9, x10, x11, x12), k0 + k1 + k2 + k3 + k4 + k5 + k6 + k7 + k8 + k9 + k10 + k11 + k12))
                                                                                                        },
                                                                                                        None => None,
                                                                                                    }
                                                                                                },
                                                                                                None => None,
                                                                                            }
                                                                                        },
                                                                                        None => None,
                                                                                    }
                                                                                },
                                                                                None => None,
                                                                            }
                                                                        },
                                                                        None => None,
                                                                    }
                                                                },
                                                                None => None,
                                                            }
                                                        },
                                                        None => None,
                                                    }
                                                },
                                                None => None,
                                            }
                                        },
                                        None => None,
                                    }
                                },
                                None => None,
                            }
                        },
                        None => None,
                    }
                },
                None => None,
            }
        },
        None => None,
    }
}

fn unpack_tuple13<A: Unpack, B: Unpack, C: Unpack, D: Unpack, E: Unpack, F: Unpack, G: Unpack, H: Unpack, I: Unpack, J: Unpack, K: Unpack, L: Unpack, M: Unpack>(data: &mut &[u8], little_endian: bool) -> (v: (A, B, C, D, E, F, G, H, I, J, K, L, M))
    requires
        unpacked_tuple13::<A, B, C, D, E, F, G, H, I, J, K, L, M>(old(data)@, little_endian) is Some,
    ensures
        v == unpacked_tuple13::<A, B, C, D, E, F, G, H, I, J, K, L, M>(old(data)@, little_endian).unwrap().0,
        unpacked_tuple13::<A, B, C, D, E, F, G, H, I, J, K, L, M>(old(data)@, little_endian).unwrap().1 <= old(data)@.len(),
        final(data)@ == old(data)@.skip(
            unpacked_tuple13::<A, B, C, D, E, F, G, H, I, J, K, L, M>(old(data)@, little_endian).unwrap().1 as int,
        ),
{
    let ghost d0 = data@;
    let a = unpack_one::<A>(data, little_endian);
    let b = unpack_one::<B>(data, little_endian);
    let c = unpack_one::<C>(data, little_endian);
    let d = unpack_one::<D>(data, little_endian);
    let e = unpack_one::<E>(data, little_endian);
    let f = unpack_one::<F>(data, little_endian);
    let g = unpack_one::<G>(data, little_endian);
    let h = unpack_one::<H>(data, little_endian);
    let i = unpack_one::<I>(data, little_endian);
    let j = unpack_one::<J>(data, little_endian);
    let k = unpack_one::<K>(data, little_endian);
    let l = unpack_one::<L>(data, little_endian);
    let m = unpack_one::<M>(data, little_endian);
    proof {
        let k0 = unpacked::<A>(d0, little_endian).unwrap().1;
        let k1 = unpacked::<B>(d0.skip(k0 as int), little_endian).unwrap().1;
        let k2 = unpacked::<C>(d0.skip(k0 as int).skip(k1 as int), little_endian).unwrap().1;
        let k3 = unpacked::<D>(d0.skip(k0 as int).skip(k1 as int).skip(k2 as int), little_endian).unwrap().1;
        let k4 = unpacked::<E>(d0.skip(k0 as int).skip(k1 as int).skip(k2 as int).skip(k3 as int), little_endian).unwrap().1;
        let k5 = unpacked::<F>(d0.skip(k0 as int).skip(k1 as int).skip(k2 as int).skip(k3 as int).skip(k4 as int), little_endian).unwrap().1;
        let k6 = unpacked::<G>(d0.skip(k0 as int).skip(k1 as int).skip(k2 as int).skip(k3 as int).skip(k4 as int).skip(k5 as int), little_endian).unwrap().1;
        let k7 = unpacked::<H>(d0.skip(k0 as int).skip(k1 as int).skip(k2 as int).skip(k3 as int).skip(k4 as int).skip(k5 as int).skip(k6 as int), little_endian).unwrap().1;
        let k8 = unpacked::<I>(d0.skip(k0 as int).skip(k1 as int).skip(k2 as int).skip(k3 as int).skip(k4 as int).skip(k5 as int).skip(k6 as int).skip(k7 as int), little_endian).unwrap().1;
        let k9 = unpacked::<J>(d0.skip(k0 as int).skip(k1 as int).skip(k2 as int).skip(k3 as int).skip(k4 as int).skip(k5 as int).skip(k6 as int).skip(k7 as int).skip(k8 as int), little_endian).unwrap().1;
        let k10 = unpacked::<K>(d0.skip(k0 as int).skip(k1 as int).skip(k2 as int).skip(k3 as int).skip(k4 as int).skip(k5 as int).skip(k6 as int).skip(k7 as int).skip(k8 as int).skip(k9 as int), little_endian).unwrap().1;
        let k11 = unpacked::<L>(d0.skip(k0 as int).skip(k1 as int).skip(k2 as int).skip(k3 as int).skip(k4 as int).skip(k5 as int).skip(k6 as int).skip(k7 as int).skip(k8 as int).skip(k9 as int).skip(k10 as int), little_endian).unwrap().1;
        let k12 = unpacked::<M>(d0.skip(k0 as int).skip(k1 as int).skip(k2 as int).skip(k3 as int).skip(k4 as int).skip(k5 as int).skip(k6 as int).skip(k7 as int).skip(k8 as int).skip(k9 as int).skip(k10 as int).skip(k11 as int), little_endian).unwrap().1;
        assert(d0.skip(k0 as int).skip(k1 as int).skip(k2 as int).skip(k3 as int).skip(k4 as int).skip(k5 as int).skip(k6 as int).skip(k7 as int).skip(k8 as int).skip(k9 as int).skip(k10 as int).skip(k11 as int).skip(k12 as int) =~= d0.skip((k0 + k1 + k2 + k3 + k4 + k5 + k6 + k7 + k8 + k9 + k10 + k11 + k12) as int));
    }
    (a, b, c, d, e, f, g, h, i, j, k, l, m)
}

impl<A: Pack, B: Pack, C: Pack, D: Pack, E: Pack, F: Pack, G: Pack, H: Pack, I: Pack, J: Pack, K: Pack, L: Pack, M: Pack> Pack for (A, B, C, D, E, F, G, H, I, J, K, L, M) {
    open spec fn packed_le(self) -> Seq<u8> {
        packed_tuple13(self, true)
    }

    open spec fn packed_be(self) -> Seq<u8> {
        packed_tuple13(self, false)
    }

    fn pack_le(self, buf: &mut Vec<u8>) {
        pack_tuple13(self, true, buf);
    }

    fn pack_be(self, buf: &mut Vec<u8>) {
        pack_tuple13(self, false, buf);
    }
}

impl<A: Unpack, B: Unpack, C: Unpack, D: Unpack, E: Unpack, F: Unpack, G: Unpack, H: Unpack, I: Unpack, J: Unpack, K: Unpack, L: Unpack, M: Unpack> Unpack for (A, B, C, D, E, F, G, H, I, J, K, L, M) {
    open spec fn unpacked_le(data: Seq<u8>) -> Option<(Self, nat)> {
        unpacked_tuple13::<A, B, C, D, E, F, G, H, I, J, K, L, M>(data, true)
    }

    open spec fn unpacked_be(data: Seq<u8>) -> Option<(Self, nat)> {
        unpacked_tuple13::<A, B, C, D, E, F, G, H, I, J, K, L, M>(data, false)
    }

    fn unpack_le(data: &mut &[u8]) -> (v: Self) {
        unpack_tuple13::<A, B, C, D, E, F, G, H, I, J, K, L, M>(data, true)
    }

    fn unpack_be(data: &mut &[u8]) -> (v: Self) {
        unpack_tuple13::<A, B, C, D, E, F, G, H, I, J, K, L, M>(data, false)
    }
}

/// The bytes a tuple of 14 packs into.
pub open spec fn packed_tuple14<A: Pack, B: Pack, C: Pack, D: Pack, E: Pack, F: Pack, G: Pack, H: Pack, I: Pack, J: Pack, K: Pack, L: Pack, M: Pack, N: Pack>(t: (A, B, C, D, E, F, G, H, I, J, K, L, M, N), little_endian: bool) -> Seq<u8> {
    packed(t.0, little_endian) + packed(t.1, little_endian) + packed(t.2, little_endian) + packed(t.3, little_endian) + packed(t.4, little_endian) + packed(t.5, little_endian) + packed(t.6, little_endian) + packed(t.7, little_endian) + packed(t.8, little_endian) + packed(t.9, little_endian) + packed(t.10, little_endian) + packed(t.11, little_endian) + packed(t.12, little_endian) + packed(t.13, little_endian)
}

fn pack_tuple14<A: Pack, B: Pack, C: Pack, D: Pack, E: Pack, F: Pack, G: Pack, H: Pack, I: Pack, J: Pack, K: Pack, L: Pack, M: Pack, N: Pack>(t: (A, B, C, D, E, F, G, H, I, J, K, L, M, N), little_endian: bool, buf: &mut Vec<u8>)
    ensures
        final(buf)@ == old(buf)@ + packed_tuple14(t, little_endian),
{
    let ghost start = buf@;
    let ghost whole = t;
    let (a, b, c, d, e, f, g, h, i, j, k, l, m, n) = t;
    pack_one(a, little_endian, buf);
    pack_one(b, little_endian, buf);
    pack_one(c, little_endian, buf);
    pack_one(d, little_endian, buf);
    pack_one(e, little_endian, buf);
    pack_one(f, little_endian, buf);
    pack_one(g, little_endian, buf);
    pack_one(h, little_endian, buf);
    pack_one(i, little_endian, buf);
    pack_one(j, little_endian, buf);
    pack_one(k, little_endian, buf);
    pack_one(l, little_endian, buf);
    pack_one(m, little_endian, buf);
    pack_one(n, little_endian, buf);
    assert(buf@ =~= start + packed_tuple14(whole, little_endian));
}

/// A tuple of 14 at the front of `data` and the number of bytes it takes.
pub open spec fn unpacked_tuple14<A: Unpack, B: Unpack, C: Unpack, D: Unpack, E: Unpack, F: Unpack, G: Unpack, H: Unpack, I: Unpack, J: Unpack, K: Unpack, L: Unpack, M: Unpack, N: Unpack>(data: Seq<u8>, little_endian: bool) -> Option<
    ((A, B, C, D, E, F, G, H, I, J, K, L, M, N), nat),
> {
    match unpacked::<A>(data, little_endian) {
        Some((x0, k0)) => {
            match unpacked::<B>(data.skip(k0 as int), little_endian) {
                Some((x1, k1)) => {
                    match unpacked::<C>(data.skip(k0 as int).skip(k1 as int), little_endian) {
                        Some((x2, k2)) => {
                            match unpacked::<D>(data.skip(k0 as int).skip(k1 as int).skip(k2 as int), little_endian) {
                                Some((x3, k3)) => {
                                    match unpacked::<E>(data.skip(k0 as int).skip(k1 as int).skip(k2 as int).skip(k3 as int), little_endian) {
                                        Some((x4, k4)) => {
                                            match unpacked::<F>(data.skip(k0 as int).skip(k1 as int).skip(k2 as int).skip(k3 as int).skip(k4 as int), little_endian) {
                                                Some((x5, k5)) => {
                                                    match unpacked::<G>(data.skip(k0 as int).skip(k1 as int).skip(k2 as int).skip(k3 as int).skip(k4 as int).skip(k5 as int), little_endian) {
                                                        Some((x6, k6)) => {
                                                            match unpacked::<H>(data.skip(k0 as int).skip(k1 as int).skip(k2 as int).skip(k3 as int).skip(k4 as int).skip(k5 as int).skip(k6 as int), little_endian) {
                                                                Some((x7, k7)) => {
                                                                    match unpacked::<I>(data.skip(k0 as int).skip(k1 as int).skip(k2 as int).skip(k3 as int).skip(k4 as int).skip(k5 as int).skip(k6 as int).skip(k7 as int), little_endian) {
                                                                        Some((x8, k8)) => {
                                                                            match unpacked::<J>(data.skip(k0 as int).skip(k1 as int).skip(k2 as int).skip(k3 as int).skip(k4 as int).skip(k5 as int).skip(k6 as int).skip(k7 as int).skip(k8 as int), little_endian) {
                                                                                Some((x9, k9)) => {
                                                                                    match unpacked::<K>(data.skip(k0 as int).skip(k1 as int).skip(k2 as int).skip(k3 as int).skip(k4 as int).skip(k5 as int).skip(k6 as int).skip(k7 as int).skip(k8 as int).skip(k9 as int), little_endian) {
                                                                                        Some((x10, k10)) => {
                                                                                            match unpacked::<L>(data.skip(k0 as int).skip(k1 as int).skip(k2 as int).skip(k3 as int).skip(k4 as int).skip(k5 as int).skip(k6 as int).skip(k7 as int).skip(k8 as int).skip(k9 as int).skip(k10 as int), little_endian) {
                                                                                                Some((x11, k11)) => {
                                                                                                    match unpacked::<M>(data.skip(k0 as int).skip(k1 as int).skip(k2 as int).skip(k3 as int).skip(k4 as int).skip(k5 as int).skip(k6 as int).skip(k7 as int).skip(k8 as int).skip(k9 as int).skip(k10 as int).skip(k11 as int), little_endian) {
                                                                                                        Some((x12, k12)) => {
                                                                                                            match unpacked::<N>(data.skip(k0 as int).skip(k1 as int).skip(k2 as int).skip(k3 as int).skip(k4 as int).skip(k5 as int).skip(k6 as int).skip(k7 as int).skip(k8 as int).skip(k9 as int).skip(k10 as int).skip(k11 as int).skip(k12 as int), little_endian) {
                                                                                                                Some((x13, k13)) => {
                                                                                                                    Some(((x0, x1, x2, x3, x4, x5, x6, x7, x8, x9, x10, x11, x12, x13), k0 + k1 + k2 + k3 + k4 + k5 + k6 + k7 + k8 + k9 + k10 + k11 + k12 + k13))
                                                                                                                },
                                                                                                                None => None,
                                                                                                            }
                                                                                                        },
                                                                                                        None => None,
                                                                                                    }
                                                                                                },
                                                                                                None => None,
                                                                                            }
                                                                                        },
                                                                                        None => None,
                                                                                    }
                                                                                },
                                                                                None => None,
                                                                            }
                                                                        },
                                                                        None => None,
                                                                    }
                                                                },
                                                                None => None,
                                                            }
                                                        },
                                                        None => None,
                                                    }
                                                },
                                                None => None,
                                            }
                                        },
                                        None => None,
                                    }
                                },
                                None => None,
                            }
                        },
                        None => None,
                    }
                },
                None => None,
            }
        },
        None => None,
    }
}

fn unpack_tuple14<A: Unpack, B: Unpack, C: Unpack, D: Unpack, E: Unpack, F: Unpack, G: Unpack, H: Unpack, I: Unpack, J: Unpack, K: Unpack, L: Unpack, M: Unpack, N: Unpack>(data: &mut &[u8], little_endian: bool) -> (v: (A, B, C, D, E, F, G, H, I, J, K, L, M, N))
    requires
        unpacked_tuple14::<A, B, C, D, E, F, G, H, I, J, K, L, M, N>(old(data)@, little_endian) is Some,
    ensures
        v == unpacked_tuple14::<A, B, C, D, E, F, G, H, I, J, K, L, M, N>(old(data)@, little_endian).unwrap().0,
        unpacked_tuple14::<A, B, C, D, E, F, G, H, I, J, K, L, M, N>(old(data)@, little_endian).unwrap().1 <= old(data)@.len(),
        final(data)@ == old(data)@.skip(
            unpacked_tuple14::<A, B, C, D, E, F, G, H, I, J, K, L, M, N>(old(data)@, little_endian).unwrap().1 as int,
        ),
{
    let ghost d0 = data@;
    let a = unpack_one::<A>(data, little_endian);
    let b = unpack_one::<B>(data, little_endian);
    let c = unpack_one::<C>(data, little_endian);
    let d = unpack_one::<D>(data, little_endian);
    let e = unpack_one::<E>(data, little_endian);
    let f = unpack_one::<F>(data, little_endian);
    let g = unpack_one::<G>(data, little_endian);
    let h = unpack_one::<H>(data, little_endian);
    let i = unpack_one::<I>(data, little_endian);
    let j = unpack_one::<J>(data, little_endian);
    let k = unpack_one::<K>(data, little_endian);
    let l = unpack_one::<L>(data, little_endian);
    let m = unpack_one::<M>(data, little_endian);
    let n = unpack_one::<N>(data, little_endian);
    proof {
        let k0 = unpacked::<A>(d0, little_endian).unwrap().1;
        let k1 = unpacked::<B>(d0.skip(k0 as int), little_endian).unwrap().1;
        let k2 = unpacked::<C>(d0.skip(k0 as int).skip(k1 as int), little_endian).unwrap().1;
        let k3 = unpacked::<D>(d0.skip(k0 as int).skip(k1 as int).skip(k2 as int), little_endian).unwrap().1;
        let k4 = unpacked::<E>(d0.skip(k0 as int).skip(k1 as int).skip(k2 as int).skip(k3 as int), little_endian).unwrap().1;
        let k5 = unpacked::<F>(d0.skip(k0 as int).skip(k1 as int).skip(k2 as int).skip(k3 as int).skip(k4 as int), little_endian).unwrap().1;
        let k6 = unpacked::<G>(d0.skip(k0 as int).skip(k1 as int).skip(k2 as int).skip(k3 as int).skip(k4 as int).skip(k5 as int), little_endian).unwrap().1;
        let k7 = unpacked::<H>(d0.skip(k0 as int).skip(k1 as int).skip(k2 as int).skip(k3 as int).skip(k4 as int).skip(k5 as int).skip(k6 as int), little_endian).unwrap().1;
        let k8 = unpacked::<I>(d0.skip(k0 as int).skip(k1 as int).skip(k2 as int).skip(k3 as int).skip(k4 as int).skip(k5 as int).skip(k6 as int).skip(k7 as int), little_endian).unwrap().1;
        let k9 = unpacked::<J>(d0.skip(k0 as int).skip(k1 as int).skip(k2 as int).skip(k3 as int).skip(k4 as int).skip(k5 as int).skip(k6 as int).skip(k7 as int).skip(k8 as int), little_endian).unwrap().1;
        let k10 = unpacked::<K>(d0.skip(k0 as int).skip(k1 as int).skip(k2 as int).skip(k3 as int).skip(k4 as int).skip(k5 as int).skip(k6 as int).skip(k7 as int).skip(k8 as int).skip(k9 as int), little_endian).unwrap().1;
        let k11 = unpacked::<L>(d0.skip(k0 as int).skip(k1 as int).skip(k2 as int).skip(k3 as int).skip(k4 as int).skip(k5 as int).skip(k6 as int).skip(k7 as int).skip(k8 as int).skip(k9 as int).skip(k10 as int), little_endian).unwrap().1;
        let k12 = unpacked::<M>(d0.skip(k0 as int).skip(k1 as int).skip(k2 as int).skip(k3 as int).skip(k4 as int).skip(k5 as int).skip(k6 as int).skip(k7 as int).skip(k8 as int).skip(k9 as int).skip(k10 as int).skip(k11 as int), little_endian).unwrap().1;
        let k13 = unpacked::<N>(d0.skip(k0 as int).skip(k1 as int).skip(k2 as int).skip(k3 as int).skip(k4 as int).skip(k5 as int).skip(k6 as int).skip(k7 as int).skip(k8 as int).skip(k9 as int).skip(k10 as int).skip(k11 as int).skip(k12 as int), little_endian).unwrap().1;
        assert(d0.skip(k0 as int).skip(k1 as int).skip(k2 as int).skip(k3 as int).skip(k4 as int).skip(k5 as int).skip(k6 as int).skip(k7 as int).skip(k8 as int).skip(k9 as int).skip(k10 as int).skip(k11 as int).skip(k12 as int).skip(k13 as int) =~= d0.skip((k0 + k1 + k2 + k3 + k4 + k5 + k6 + k7 + k8 + k9 + k10 + k11 + k12 + k13) as int));
    }
    (a, b, c, d, e, f, g, h, i, j, k, l, m, n)
}

impl<A: Pack, B: Pack, C: Pack, D: Pack, E: Pack, F: Pack, G: Pack, H: Pack, I: Pack, J: Pack, K: Pack, L: Pack, M: Pack, N: Pack> Pack for (A, B, C, D, E, F, G, H, I, J, K, L, M, N) {
    open spec fn packed_le(self) -> Seq<u8> {
        packed_tuple14(self, true)
    }

    open spec fn packed_be(self) -> Seq<u8> {
        packed_tuple14(self, false)
    }

    fn pack_le(self, buf: &mut Vec<u8>) {
        pack_tuple14(self, true, buf);
    }

    fn pack_be(self, buf: &mut Vec<u8>) {
        pack_tuple14(self, false, buf);
    }
}

impl<A: Unpack, B: Unpack, C: Unpack, D: Unpack, E: Unpack, F: Unpack, G: Unpack, H: Unpack, I: Unpack, J: Unpack, K: Unpack, L: Unpack, M: Unpack, N: Unpack> Unpack for (A, B, C, D, E, F, G, H, I, J, K, L, M, N) {
    open spec fn unpacked_le(data: Seq<u8>) -> Option<(Self, nat)> {
        unpacked_tuple14::<A, B, C, D, E, F, G, H, I, J, K, L, M, N>(data, true)
    }

    open spec fn unpacked_be(data: Seq<u8>) -> Option<(Self, nat)> {
        unpacked_tuple14::<A, B, C, D, E, F, G, H, I, J, K, L, M, N>(data, false)
    }

    fn unpack_le(data: &mut &[u8]) -> (v: Self) {
        unpack_tuple14::<A, B, C, D, E, F, G, H, I, J, K, L, M, N>(data, true)
    }

    fn unpack_be(data: &mut &[u8]) -> (v: Self) {
        unpack_tuple14::<A, B, C, D, E, F, G, H, I, J, K, L, M, N>(data, false)
    }
}

/// The bytes a tuple of 15 packs into.
pub open spec fn packed_tuple15<A: Pack, B: Pack, C: Pack, D: Pack, E: Pack, F: Pack, G: Pack, H: Pack, I: Pack, J: Pack, K: Pack, L: Pack, M: Pack, N: Pack, O: Pack>(t: (A, B, C, D, E, F, G, H, I, J, K, L, M, N, O), little_endian: bool) -> Seq<u8> {
    packed(t.0, little_endian) + packed(t.1, little_endian) + packed(t.2, little_endian) + packed(t.3, little_endian) + packed(t.4, little_endian) + packed(t.5, little_endian) + packed(t.6, little_endian) + packed(t.7, little_endian) + packed(t.8, little_endian) + packed(t.9, little_endian) + packed(t.10, little_endian) + packed(t.11, little_endian) + packed(t.12, little_endian) + packed(t.13, little_endian) + packed(t.14, little_endian)
}

fn pack_tuple15<A: Pack, B: Pack, C: Pack, D: Pack, E: Pack, F: Pack, G: Pack, H: Pack, I: Pack, J: Pack, K: Pack, L: Pack, M: Pack, N: Pack, O: Pack>(t: (A, B, C, D, E, F, G, H, I, J, K, L, M, N, O), little_endian: bool, buf: &mut Vec<u8>)
    ensures
        final(buf)@ == old(buf)@ + packed_tuple15(t, little_endian),
{
    let ghost start = buf@;
    let ghost whole = t;
    let (a, b, c, d, e, f, g, h, i, j, k, l, m, n, o) = t;
    pack_one(a, little_endian, buf);
    pack_one(b, little_endian, buf);
    pack_one(c, little_endian, buf);
    pack_one(d, little_endian, buf);
    pack_one(e, little_endian, buf);
    pack_one(f, little_endian, buf);
    pack_one(g, little_endian, buf);
    pack_one(h, little_endian, buf);
    pack_one(i, little_endian, buf);
    pack_one(j, little_endian, buf);
    pack_one(k, little_endian, buf);
    pack_one(l, little_endian, buf);
    pack_one(m, little_endian, buf);
    pack_one(n, little_endian, buf);
    pack_one(o, little_endian, buf);
    assert(buf@ =~= start + packed_tuple15(whole, little_endian));
}

/// A tuple of 15 at the front of `data` and the number of bytes it takes.
pub open spec fn unpacked_tuple15<A: Unpack, B: Unpack, C: Unpack, D: Unpack, E: Unpack, F: Unpack, G: Unpack, H: Unpack, I: Unpack, J: Unpack, K: Unpack, L: Unpack, M: Unpack, N: Unpack, O: Unpack>(data: Seq<u8>, little_endian: bool) -> Option<
    ((A, B, C, D, E, F, G, H, I, J, K, L, M, N, O), nat),
> {
    match unpacked::<A>(data, little_endian) {
        Some((x0, k0)) => {
            match unpacked::<B>(data.skip(k0 as int), little_endian) {
                Some((x1, k1)) => {
                    match unpacked::<C>(data.skip(k0 as int).skip(k1 as int), little_endian) {
                        Some((x2, k2)) => {
                            match unpacked::<D>(data.skip(k0 as int).skip(k1 as int).skip(k2 as int), little_endian) {
                                Some((x3, k3)) => {
                                    match unpacked::<E>(data.skip(k0 as int).skip(k1 as int).skip(k2 as int).skip(k3 as int), little_endian) {
                                        Some((x4, k4)) => {
                                            match unpacked::<F>(data.skip(k0 as int).skip(k1 as int).skip(k2 as int).skip(k3 as int).skip(k4 as int), little_endian) {
                                                Some((x5, k5)) => {
                                                    match unpacked::<G>(data.skip(k0 as int).skip(k1 as int).skip(k2 as int).skip(k3 as int).skip(k4 as int).skip(k5 as int), little_endian) {
                                                        Some((x6, k6)) => {
                                                            match unpacked::<H>(data.skip(k0 as int).skip(k1 as int).skip(k2 as int).skip(k3 as int).skip(k4 as int).skip(k5 as int).skip(k6 as int), little_endian) {
                                                                Some((x7, k7)) => {
                                                                    match unpacked::<I>(data.skip(k0 as int).skip(k1 as int).skip(k2 as int).skip(k3 as int).skip(k4 as int).skip(k5 as int).skip(k6 as int).skip(k7 as int), little_endian) {
                                                                        Some((x8, k8)) => {
                                                                            match unpacked::<J>(data.skip(k0 as int).skip(k1 as int).skip(k2 as int).skip(k3 as int).skip(k4 as int).skip(k5 as int).skip(k6 as int).skip(k7 as int).skip(k8 as int), little_endian) {
                                                                                Some((x9, k9)) => {
                                                                                    match unpacked::<K>(data.skip(k0 as int).skip(k1 as int).skip(k2 as int).skip(k3 as int).skip(k4 as int).skip(k5 as int).skip(k6 as int).skip(k7 as int).skip(k8 as int).skip(k9 as int), little_endian) {
                                                                                        Some((x10, k10)) => {
                                                                                            match unpacked::<L>(data.skip(k0 as int).skip(k1 as int).skip(k2 as int).skip(k3 as int).skip(k4 as int).skip(k5 as int).skip(k6 as int).skip(k7 as int).skip(k8 as int).skip(k9 as int).skip(k10 as int), little_endian) {
                                                                                                Some((x11, k11)) => {
                                                                                                    match unpacked::<M>(data.skip(k0 as int).skip(k1 as int).skip(k2 as int).skip(k3 as int).skip(k4 as int).skip(k5 as int).skip(k6 as int).skip(k7 as int).skip(k8 as int).skip(k9 as int).skip(k10 as int).skip(k11 as int), little_endian) {
                                                                                                        Some((x12, k12)) => {
                                                                                                            match unpacked::<N>(data.skip(k0 as int).skip(k1 as int).skip(k2 as int).skip(k3 as int).skip(k4 as int).skip(k5 as int).skip(k6 as int).skip(k7 as int).skip(k8 as int).skip(k9 as int).skip(k10 as int).skip(k11 as int).skip(k12 as int), little_endian) {
                                                                                                                Some((x13, k13)) => {
                                                                                                                    match unpacked::<O>(data.skip(k0 as int).skip(k1 as int).skip(k2 as int).skip(k3 as int).skip(k4 as int).skip(k5 as int).skip(k6 as int).skip(k7 as int).skip(k8 as int).skip(k9 as int).skip(k10 as int).skip(k11 as int).skip(k12 as int).skip(k13 as int), little_endian) {
                                                                                                                        Some((x14, k14)) => {
                                                                                                                            Some(((x0, x1, x2, x3, x4, x5, x6, x7, x8, x9, x10, x11, x12, x13, x14), k0 + k1 + k2 + k3 + k4 + k5 + k6 + k7 + k8 + k9 + k10 + k11 + k12 + k13 + k14))
                                                                                                                        },
                                                                                                                        None => None,
                                                                                                                    }
                                                                                                                },
                                                                                                                None => None,
                                                                                                            }
                                                                                                        },
                                                                                                        None => None,
                                                                                                    }
                                                                                                },
                                                                                                None => None,
                                                                                            }
                                                                                        },
                                                                                        None => None,
                                                                                    }
                                                                                },
                                                                                None => None,
                                                                            }
                                                                        },
                                                                        None => None,
                                                                    }
                                                                },
                                                                None => None,
                                                            }
                                                        },
                                                        None => None,
                                                    }
                                                },
                                                None => None,
                                            }
                                        },
                                        None => None,
                                    }
                                },
                                None => None,
                            }
                        },
                        None => None,
                    }
                },
                None => None,
            }
        },
        None => None,
    }
}

fn unpack_tuple15<A: Unpack, B: Unpack, C: Unpack, D: Unpack, E: Unpack, F: Unpack, G: Unpack, H: Unpack, I: Unpack, J: Unpack, K: Unpack, L: Unpack, M: Unpack, N: Unpack, O: Unpack>(data: &mut &[u8], little_endian: bool) -> (v: (A, B, C, D, E, F, G, H, I, J, K, L, M, N, O))
    requires
        unpacked_tuple15::<A, B, C, D, E, F, G, H, I, J, K, L, M, N, O>(old(data)@, little_endian) is Some,
    ensures
        v == unpacked_tuple15::<A, B, C, D, E, F, G, H, I, J, K, L, M, N, O>(old(data)@, little_endian).unwrap().0,
        unpacked_tuple15::<A, B, C, D, E, F, G, H, I, J, K, L, M, N, O>(old(data)@, little_endian).unwrap().1 <= old(data)@.len(),
        final(data)@ == old(data)@.skip(
            unpacked_tuple15::<A, B, C, D, E, F, G, H, I, J, K, L, M, N, O>(old(data)@, little_endian).unwrap().1 as int,
        ),
{
    let ghost d0 = data@;
    let a = unpack_one::<A>(data, little_endian);
    let b = unpack_one::<B>(data, little_endian);
    let c = unpack_one::<C>(data, little_endian);
    let d = unpack_one::<D>(data, little_endian);
    let e = unpack_one::<E>(data, little_endian);
    let f = unpack_one::<F>(data, little_endian);
    let g = unpack_one::<G>(data, little_endian);
    let h = unpack_one::<H>(data, little_endian);
    let i = unpack_one::<I>(data, little_endian);
    let j = unpack_one::<J>(data, little_endian);
    let k = unpack_one::<K>(data, little_endian);
    let l = unpack_one::<L>(data, little_endian);
    let m = unpack_one::<M>(data, little_endian);
    let n = unpack_one::<N>(data, little_endian);
    let o = unpack_one::<O>(data, little_endian);
    proof {
        let k0 = unpacked::<A>(d0, little_endian).unwrap().1;
        let k1 = unpacked::<B>(d0.skip(k0 as int), little_endian).unwrap().1;
        let k2 = unpacked::<C>(d0.skip(k0 as int).skip(k1 as int), little_endian).unwrap().1;
        let k3 = unpacked::<D>(d0.skip(k0 as int).skip(k1 as int).skip(k2 as int), little_endian).unwrap().1;
        let k4 = unpacked::<E>(d0.skip(k0 as int).skip(k1 as int).skip(k2 as int).skip(k3 as int), little_endian).unwrap().1;
        let k5 = unpacked::<F>(d0.skip(k0 as int).skip(k1 as int).skip(k2 as int).skip(k3 as int).skip(k4 as int), little_endian).unwrap().1;
        let k6 = unpacked::<G>(d0.skip(k0 as int).skip(k1 as int).skip(k2 as int).skip(k3 as int).skip(k4 as int).skip(k5 as int), little_endian).unwrap().1;
        let k7 = unpacked::<H>(d0.skip(k0 as int).skip(k1 as int).skip(k2 as int).skip(k3 as int).skip(k4 as int).skip(k5 as int).skip(k6 as int), little_endian).unwrap().1;
        let k8 = unpacked::<I>(d0.skip(k0 as int).skip(k1 as int).skip(k2 as int).skip(k3 as int).skip(k4 as int).skip(k5 as int).skip(k6 as int).skip(k7 as int), little_endian).unwrap().1;
        let k9 = unpacked::<J>(d0.skip(k0 as int).skip(k1 as int).skip(k2 as int).skip(k3 as int).skip(k4 as int).skip(k5 as int).skip(k6 as int).skip(k7 as int).skip(k8 as int), little_endian).unwrap().1;
        let k10 = unpacked::<K>(d0.skip(k0 as int).skip(k1 as int).skip(k2 as int).skip(k3 as int).skip(k4 as int).skip(k5 as int).skip(k6 as int).skip(k7 as int).skip(k8 as int).skip(k9 as int), little_endian).unwrap().1;
        let k11 = unpacked::<L>(d0.skip(k0 as int).skip(k1 as int).skip(k2 as int).skip(k3 as int).skip(k4 as int).skip(k5 as int).skip(k6 as int).skip(k7 as int).skip(k8 as int).skip(k9 as int).skip(k10 as int), little_endian).unwrap().1;
        let k12 = unpacked::<M>(d0.skip(k0 as int).skip(k1 as int).skip(k2 as int).skip(k3 as int).skip(k4 as int).skip(k5 as int).skip(k6 as int).skip(k7 as int).skip(k8 as int).skip(k9 as int).skip(k10 as int).skip(k11 as int), little_endian).unwrap().1;
        let k13 = unpacked::<N>(d0.skip(k0 as int).skip(k1 as int).skip(k2 as int).skip(k3 as int).skip(k4 as int).skip(k5 as int).skip(k6 as int).skip(k7 as int).skip(k8 as int).skip(k9 as int).skip(k10 as int).skip(k11 as int).skip(k12 as int), little_endian).unwrap().1;
        let k14 = unpacked::<O>(d0.skip(k0 as int).skip(k1 as int).skip(k2 as int).skip(k3 as int).skip(k4 as int).skip(k5 as int).skip(k6 as int).skip(k7 as int).skip(k8 as int).skip(k9 as int).skip(k10 as int).skip(k11 as int).skip(k12 as int).skip(k13 as int), little_endian).unwrap().1;
        assert(d0.skip(k0 as int).skip(k1 as int).skip(k2 as int).skip(k3 as int).skip(k4 as int).skip(k5 as int).skip(k6 as int).skip(k7 as int).skip(k8 as int).skip(k9 as int).skip(k10 as int).skip(k11 as int).skip(k12 as int).skip(k13 as int).skip(k14 as int) =~= d0.skip((k0 + k1 + k2 + k3 + k4 + k5 + k6 + k7 + k8 + k9 + k10 + k11 + k12 + k13 + k14) as int));
    }
    (a, b, c, d, e, f, g, h, i, j, k, l, m, n, o)
}

impl<A: Pack, B: Pack, C: Pack, D: Pack, E: Pack, F: Pack, G: Pack, H: Pack, I: Pack, J: Pack, K: Pack, L: Pack, M: Pack, N: Pack, O: Pack> Pack for (A, B, C, D, E, F, G, H, I, J, K, L, M, N, O) {
    open spec fn packed_le(self) -> Seq<u8> {
        packed_tuple15(self, true)
    }

    open spec fn packed_be(self) -> Seq<u8> {
        packed_tuple15(self, false)
    }

    fn pack_le(self, buf: &mut Vec<u8>) {
        pack_tuple15(self, true, buf);
    }

    fn pack_be(self, buf: &mut Vec<u8>) {
        pack_tuple15(self, false, buf);
    }
}

impl<A: Unpack, B: Unpack, C: Unpack, D: Unpack, E: Unpack, F: Unpack, G: Unpack, H: Unpack, I: Unpack, J: Unpack, K: Unpack, L: Unpack, M: Unpack, N: Unpack, O: Unpack> Unpack for (A, B, C, D, E, F, G, H, I, J, K, L, M, N, O) {
    open spec fn unpacked_le(data: Seq<u8>) -> Option<(Self, nat)> {
        unpacked_tuple15::<A, B, C, D, E, F, G, H, I, J, K, L, M, N, O>(data, true)
    }

    open spec fn unpacked_be(data: Seq<u8>) -> Option<(Self, nat)> {
        unpacked_tuple15::<A, B, C, D, E, F, G, H, I, J, K, L, M, N, O>(data, false)
    }

    fn unpack_le(data: &mut &[u8]) -> (v: Self) {
        unpack_tuple15::<A, B, C, D, E, F, G, H, I, J, K, L, M, N, O>(data, true)
    }

    fn unpack_be(data: &mut &[u8]) -> (v: Self) {
        unpack_tuple15::<A, B, C, D, E, F, G, H, I, J, K, L, M, N, O>(data, false)
    }
}

/// The bytes a tuple of 16 packs into.
pub open spec fn packed_tuple16<A: Pack, B: Pack, C: Pack, D: Pack, E: Pack, F: Pack, G: Pack, H: Pack, I: Pack, J: Pack, K: Pack, L: Pack, M: Pack, N: Pack, O: Pack, P: Pack>(t: (A, B, C, D, E, F, G, H, I, J, K, L, M, N, O, P), little_endian: bool) -> Seq<u8> {
    packed(t.0, little_endian) + packed(t.1, little_endian) + packed(t.2, little_endian) + packed(t.3, little_endian) + packed(t.4, little_endian) + packed(t.5, little_endian) + packed(t.6, little_endian) + packed(t.7, little_endian) + packed(t.8, little_endian) + packed(t.9, little_endian) + packed(t.10, little_endian) + packed(t.11, little_endian) + packed(t.12, little_endian) + packed(t.13, little_endian) + packed(t.14, little_endian) + packed(t.15, little_endian)
}

fn pack_tuple16<A: Pack, B: Pack, C: Pack, D: Pack, E: Pack, F: Pack, G: Pack, H: Pack, I: Pack, J: Pack, K: Pack, L: Pack, M: Pack, N: Pack, O: Pack, P: Pack>(t: (A, B, C, D, E, F, G, H, I, J, K, L, M, N, O, P), little_endian: bool, buf: &mut Vec<u8>)
    ensures
        final(buf)@ == old(buf)@ + packed_tuple16(t, little_endian),
{
    let ghost start = buf@;
    let ghost whole = t;
    let (a, b, c, d, e, f, g, h, i, j, k, l, m, n, o, p) = t;
    pack_one(a, little_endian, buf);
    pack_one(b, little_endian, buf);
    pack_one(c, little_endian, buf);
    pack_one(d, little_endian, buf);
    pack_one(e, little_endian, buf);
    pack_one(f, little_endian, buf);
    pack_one(g, little_endian, buf);
    pack_one(h, little_endian, buf);
    pack_one(i, little_endian, buf);
    pack_one(j, little_endian, buf);
    pack_one(k, little_endian, buf);
    pack_one(l, little_endian, buf);
    pack_one(m, little_endian, buf);
    pack_one(n, little_endian, buf);
    pack_one(o, little_endian, buf);
    pack_one(p, little_endian, buf);
    assert(buf@ =~= start + packed_tuple16(whole, little_endian));
}

/// A tuple of 16 at the front of `data` and the number of bytes it takes.
pub open spec fn unpacked_tuple16<A: Unpack, B: Unpack, C: Unpack, D: Unpack, E: Unpack, F: Unpack, G: Unpack, H: Unpack, I: Unpack, J: Unpack, K: Unpack, L: Unpack, M: Unpack, N: Unpack, O: Unpack, P: Unpack>(data: Seq<u8>, little_endian: bool) -> Option<
    ((A, B, C, D, E, F, G, H, I, J, K, L, M, N, O, P), nat),
> {
    match unpacked::<A>(data, little_endian) {
        Some((x0, k0)) => {
            match unpacked::<B>(data.skip(k0 as int), little_endian) {
                Some((x1, k1)) => {
                    match unpacked::<C>(data.skip(k0 as int).skip(k1 as int), little_endian) {
                        Some((x2, k2)) => {
                            match unpacked::<D>(data.skip(k0 as int).skip(k1 as int).skip(k2 as int), little_endian) {
                                Some((x3, k3)) => {
                                    match unpacked::<E>(data.skip(k0 as int).skip(k1 as int).skip(k2 as int).skip(k3 as int), little_endian) {
                                        Some((x4, k4)) => {
                                            match unpacked::<F>(data.skip(k0 as int).skip(k1 as int).skip(k2 as int).skip(k3 as int).skip(k4 as int), little_endian) {
                                                Some((x5, k5)) => {
                                                    match unpacked::<G>(data.skip(k0 as int).skip(k1 as int).skip(k2 as int).skip(k3 as int).skip(k4 as int).skip(k5 as int), little_endian) {
                                                        Some((x6, k6)) => {
                                                            match unpacked::<H>(data.skip(k0 as int).skip(k1 as int).skip(k2 as int).skip(k3 as int).skip(k4 as int).skip(k5 as int).skip(k6 as int), little_endian) {
                                                                Some((x7, k7)) => {
                                                                    match unpacked::<I>(data.skip(k0 as int).skip(k1 as int).skip(k2 as int).skip(k3 as int).skip(k4 as int).skip(k5 as int).skip(k6 as int).skip(k7 as int), little_endian) {
                                                                        Some((x8, k8)) => {
                                                                            match unpacked::<J>(data.skip(k0 as int).skip(k1 as int).skip(k2 as int).skip(k3 as int).skip(k4 as int).skip(k5 as int).skip(k6 as int).skip(k7 as int).skip(k8 as int), little_endian) {
                                                                                Some((x9, k9)) => {
                                                                                    match unpacked::<K>(data.skip(k0 as int).skip(k1 as int).skip(k2 as int).skip(k3 as int).skip(k4 as int).skip(k5 as int).skip(k6 as int).skip(k7 as int).skip(k8 as int).skip(k9 as int), little_endian) {
                                                                                        Some((x10, k10)) => {
                                                                                            match unpacked::<L>(data.skip(k0 as int).skip(k1 as int).skip(k2 as int).skip(k3 as int).skip(k4 as int).skip(k5 as int).skip(k6 as int).skip(k7 as int).skip(k8 as int).skip(k9 as int).skip(k10 as int), little_endian) {
                                                                                                Some((x11, k11)) => {
                                                                                                    match unpacked::<M>(data.skip(k0 as int).skip(k1 as int).skip(k2 as int).skip(k3 as int).skip(k4 as int).skip(k5 as int).skip(k6 as int).skip(k7 as int).skip(k8 as int).skip(k9 as int).skip(k10 as int).skip(k11 as int), little_endian) {
                                                                                                        Some((x12, k12)) => {
                                                                                                            match unpacked::<N>(data.skip(k0 as int).skip(k1 as int).skip(k2 as int).skip(k3 as int).skip(k4 as int).skip(k5 as int).skip(k6 as int).skip(k7 as int).skip(k8 as int).skip(k9 as int).skip(k10 as int).skip(k11 as int).skip(k12 as int), little_endian) {
                                                                                                                Some((x13, k13)) => {
                                                                                                                    match unpacked::<O>(data.skip(k0 as int).skip(k1 as int).skip(k2 as int).skip(k3 as int).skip(k4 as int).skip(k5 as int).skip(k6 as int).skip(k7 as int).skip(k8 as int).skip(k9 as int).skip(k10 as int).skip(k11 as int).skip(k12 as int).skip(k13 as int), little_endian) {
                                                                                                                        Some((x14, k14)) => {
                                                                                                                            match unpacked::<P>(data.skip(k0 as int).skip(k1 as int).skip(k2 as int).skip(k3 as int).skip(k4 as int).skip(k5 as int).skip(k6 as int).skip(k7 as int).skip(k8 as int).skip(k9 as int).skip(k10 as int).skip(k11 as int).skip(k12 as int).skip(k13 as int).skip(k14 as int), little_endian) {
                                                                                                                                Some((x15, k15)) => {
                                                                                                                                    Some(((x0, x1, x2, x3, x4, x5, x6, x7, x8, x9, x10, x11, x12, x13, x14, x15), k0 + k1 + k2 + k3 + k4 + k5 + k6 + k7 + k8 + k9 + k10 + k11 + k12 + k13 + k14 + k15))
                                                                                                                                },
                                                                                                                                None => None,
                                                                                                                            }
                                                                                                                        },
                                                                                                                        None => None,
                                                                                                                    }
                                                                                                                },
                                                                                                                None => None,
                                                                                                            }
                                                                                                        },
                                                                                                        None => None,
                                                                                                    }
                                                                                                },
                                                                                                None => None,
                                                                                            }
                                                                                        },
                                                                                        None => None,
                                                                                    }
                                                                                },
                                                                                None => None,
                                                                            }
                                                                        },
                                                                        None => None,
                                                                    }
                                                                },
                                                                None => None,
                                                            }
                                                        },
                                                        None => None,
                                                    }
                                                },
                                                None => None,
                                            }
                                        },
                                        None => None,
                                    }
                                },
                                None => None,
                            }
                        },
                        None => None,
                    }
                },
                None => None,
            }
        },
        None => None,
    }
}

fn unpack_tuple16<A: Unpack, B: Unpack, C: Unpack, D: Unpack, E: Unpack, F: Unpack, G: Unpack, H: Unpack, I: Unpack, J: Unpack, K: Unpack, L: Unpack, M: Unpack, N: Unpack, O: Unpack, P: Unpack>(data: &mut &[u8], little_endian: bool) -> (v: (A, B, C, D, E, F, G, H, I, J, K, L, M, N, O, P))
    requires
        unpacked_tuple16::<A, B, C, D, E, F, G, H, I, J, K, L, M, N, O, P>(old(data)@, little_endian) is Some,
    ensures
        v == unpacked_tuple16::<A, B, C, D, E, F, G, H, I, J, K, L, M, N, O, P>(old(data)@, little_endian).unwrap().0,
        unpacked_tuple16::<A, B, C, D, E, F, G, H, I, J, K, L, M, N, O, P>(old(data)@, little_endian).unwrap().1 <= old(data)@.len(),
        final(data)@ == old(data)@.skip(
            unpacked_tuple16::<A, B, C, D, E, F, G, H, I, J, K, L, M, N, O, P>(old(data)@, little_endian).unwrap().1 as int,
        ),
{
    let ghost d0 = data@;
    let a = unpack_one::<A>(data, little_endian);
    let b = unpack_one::<B>(data, little_endian);
    let c = unpack_one::<C>(data, little_endian);
    let d = unpack_one::<D>(data, little_endian);
    let e = unpack_one::<E>(data, little_endian);
    let f = unpack_one::<F>(data, little_endian);
    let g = unpack_one::<G>(data, little_endian);
    let h = unpack_one::<H>(data, little_endian);
    let i = unpack_one::<I>(data, little_endian);
    let j = unpack_one::<J>(data, little_endian);
    let k = unpack_one::<K>(data, little_endian);
    let l = unpack_one::<L>(data, little_endian);
    let m = unpack_one::<M>(data, little_endian);
    let n = unpack_one::<N>(data, little_endian);
    let o = unpack_one::<O>(data, little_endian);
    let p = unpack_one::<P>(data, little_endian);
    proof {
        let k0 = unpacked::<A>(d0, little_endian).unwrap().1;
        let k1 = unpacked::<B>(d0.skip(k0 as int), little_endian).unwrap().1;
        let k2 = unpacked::<C>(d0.skip(k0 as int).skip(k1 as int), little_endian).unwrap().1;
        let k3 = unpacked::<D>(d0.skip(k0 as int).skip(k1 as int).skip(k2 as int), little_endian).unwrap().1;
        let k4 = unpacked::<E>(d0.skip(k0 as int).skip(k1 as int).skip(k2 as int).skip(k3 as int), little_endian).unwrap().1;
        let k5 = unpacked::<F>(d0.skip(k0 as int).skip(k1 as int).skip(k2 as int).skip(k3 as int).skip(k4 as int), little_endian).unwrap().1;
        let k6 = unpacked::<G>(d0.skip(k0 as int).skip(k1 as int).skip(k2 as int).skip(k3 as int).skip(k4 as int).skip(k5 as int), little_endian).unwrap().1;
        let k7 = unpacked::<H>(d0.skip(k0 as int).skip(k1 as int).skip(k2 as int).skip(k3 as int).skip(k4 as int).skip(k5 as int).skip(k6 as int), little_endian).unwrap().1;
        let k8 = unpacked::<I>(d0.skip(k0 as int).skip(k1 as int).skip(k2 as int).skip(k3 as int).skip(k4 as int).skip(k5 as int).skip(k6 as int).skip(k7 as int), little_endian).unwrap().1;
        let k9 = unpacked::<J>(d0.skip(k0 as int).skip(k1 as int).skip(k2 as int).skip(k3 as int).skip(k4 as int).skip(k5 as int).skip(k6 as int).skip(k7 as int).skip(k8 as int), little_endian).unwrap().1;
        let k10 = unpacked::<K>(d0.skip(k0 as int).skip(k1 as int).skip(k2 as int).skip(k3 as int).skip(k4 as int).skip(k5 as int).skip(k6 as int).skip(k7 as int).skip(k8 as int).skip(k9 as int), little_endian).unwrap().1;
        let k11 = unpacked::<L>(d0.skip(k0 as int).skip(k1 as int).skip(k2 as int).skip(k3 as int).skip(k4 as int).skip(k5 as int).skip(k6 as int).skip(k7 as int).skip(k8 as int).skip(k9 as int).skip(k10 as int), little_endian).unwrap().1;
        let k12 = unpacked::<M>(d0.skip(k0 as int).skip(k1 as int).skip(k2 as int).skip(k3 as int).skip(k4 as int).skip(k5 as int).skip(k6 as int).skip(k7 as int).skip(k8 as int).skip(k9 as int).skip(k10 as int).skip(k11 as int), little_endian).unwrap().1;
        let k13 = unpacked::<N>(d0.skip(k0 as int).skip(k1 as int).skip(k2 as int).skip(k3 as int).skip(k4 as int).skip(k5 as int).skip(k6 as int).skip(k7 as int).skip(k8 as int).skip(k9 as int).skip(k10 as int).skip(k11 as int).skip(k12 as int), little_endian).unwrap().1;
        let k14 = unpacked::<O>(d0.skip(k0 as int).skip(k1 as int).skip(k2 as int).skip(k3 as int).skip(k4 as int).skip(k5 as int).skip(k6 as int).skip(k7 as int).skip(k8 as int).skip(k9 as int).skip(k10 as int).skip(k11 as int).skip(k12 as int).skip(k13 as int), little_endian).unwrap().1;
        let k15 = unpacked::<P>(d0.skip(k0 as int).skip(k1 as int).skip(k2 as int).skip(k3 as int).skip(k4 as int).skip(k5 as int).skip(k6 as int).skip(k7 as int).skip(k8 as int).skip(k9 as int).skip(k10 as int).skip(k11 as int).skip(k12 as int).skip(k13 as int).skip(k14 as int), little_endian).unwrap().1;
        assert(d0.skip(k0 as int).skip(k1 as int).skip(k2 as int).skip(k3 as int).skip(k4 as int).skip(k5 as int).skip(k6 as int).skip(k7 as int).skip(k8 as int).skip(k9 as int).skip(k10 as int).skip(k11 as int).skip(k12 as int).skip(k13 as int).skip(k14 as int).skip(k15 as int) =~= d0.skip((k0 + k1 + k2 + k3 + k4 + k5 + k6 + k7 + k8 + k9 + k10 + k11 + k12 + k13 + k14 + k15) as int));
    }
    (a, b, c, d, e, f, g, h, i, j, k, l, m, n, o, p)
}

impl<A: Pack, B: Pack, C: Pack, D: Pack, E: Pack, F: Pack, G: Pack, H: Pack, I: Pack, J: Pack, K: Pack, L: Pack, M: Pack, N: Pack, O: Pack, P: Pack> Pack for (A, B, C, D, E, F, G, H, I, J, K, L, M, N, O, P) {
    open spec fn packed_le(self) -> Seq<u8> {
        packed_tuple16(self, true)
    }

    open spec fn packed_be(self) -> Seq<u8> {
        packed_tuple16(self, false)
    }

    fn pack_le(self, buf: &mut Vec<u8>) {
        pack_tuple16(self, true, buf);
    }

    fn pack_be(self, buf: &mut Vec<u8>) {
        pack_tuple16(self, false, buf);
    }
}

impl<A: Unpack, B: Unpack, C: Unpack, D: Unpack, E: Unpack, F: Unpack, G: Unpack, H: Unpack, I: Unpack, J: Unpack, K: Unpack, L: Unpack, M: Unpack, N: Unpack, O: Unpack, P: Unpack> Unpack for (A, B, C, D, E, F, G, H, I, J, K, L, M, N, O, P) {
    open spec fn unpacked_le(data: Seq<u8>) -> Option<(Self, nat)> {
        unpacked_tuple16::<A, B, C, D, E, F, G, H, I, J, K, L, M, N, O, P>(data, true)
    }

    open spec fn unpacked_be(data: Seq<u8>) -> Option<(Self, nat)> {
        unpacked_tuple16::<A, B, C, D, E, F, G, H, I, J, K, L, M, N, O, P>(data, false)
    }

    fn unpack_le(data: &mut &[u8]) -> (v: Self) {
        unpack_tuple16::<A, B, C, D, E, F, G, H, I, J, K, L, M, N, O, P>(data, true)
    }

    fn unpack_be(data: &mut &[u8]) -> (v: Self) {
        unpack_tuple16::<A, B, C, D, E, F, G, H, I, J, K, L, M, N, O, P>(data, false)
    }
}

/// A tuple of 1 packs as its members' bytes one after the other, in
/// member order.
pub proof fn lemma_tuple1_packs_in_order<A: Pack>()
    ensures
        forall|t: (A,), le: bool|
            #[trigger] packed(t, le) == packed(t.0, le),
{
}

/// A tuple of 1 unpacks member by member, in member order: each member
/// is read from the bytes that follow the members before it, and the
/// tuple takes the bytes of all of them.
pub proof fn lemma_tuple1_unpacks_in_order<A: Unpack>()
    ensures
        forall|d: Seq<u8>, le: bool|
            (#[trigger] unpacked::<(A,)>(d, le)) is Some ==> ({
                let (t, k) = unpacked::<(A,)>(d, le)->Some_0;
                match unpacked::<A>(d, le) {
                    Some((x0, k0)) => x0 == t.0 && k == k0,
                    None => false,
                }
            }),
{
}

/// A tuple of 2 packs as its members' bytes one after the other, in
/// member order.
pub proof fn lemma_tuple2_packs_in_order<A: Pack, B: Pack>()
    ensures
        forall|t: (A, B), le: bool|
            #[trigger] packed(t, le) == packed(t.0, le) + packed(t.1, le),
{
}

/// A tuple of 2 unpacks member by member, in member order: each member
/// is read from the bytes that follow the members before it, and the
/// tuple takes the bytes of all of them.
pub proof fn lemma_tuple2_unpacks_in_order<A: Unpack, B: Unpack>()
    ensures
        forall|d: Seq<u8>, le: bool|
            (#[trigger] unpacked::<(A, B)>(d, le)) is Some ==> ({
                let (t, k) = unpacked::<(A, B)>(d, le)->Some_0;
                match unpacked::<A>(d, le) {
                    Some((x0, k0)) => x0 == t.0 && {
                        match unpacked::<B>(d.skip(k0 as int), le) {
                            Some((x1, k1)) => x1 == t.1 && k == k0 + k1,
                            None => false,
                        }
                    },
                    None => false,
                }
            }),
{
}

/// A tuple of 3 packs as its members' bytes one after the other, in
/// member order.
pub proof fn lemma_tuple3_packs_in_order<A: Pack, B: Pack, C: Pack>()
    ensures
        forall|t: (A, B, C), le: bool|
            #[trigger] packed(t, le) == packed(t.0, le) + packed(t.1, le) + packed(t.2, le),
{
}

/// A tuple of 3 unpacks member by member, in member order: each member
/// is read from the bytes that follow the members before it, and the
/// tuple takes the bytes of all of them.
pub proof fn lemma_tuple3_unpacks_in_order<A: Unpack, B: Unpack, C: Unpack>()
    ensures
        forall|d: Seq<u8>, le: bool|
            (#[trigger] unpacked::<(A, B, C)>(d, le)) is Some ==> ({
                let (t, k) = unpacked::<(A, B, C)>(d, le)->Some_0;
                match unpacked::<A>(d, le) {
                    Some((x0, k0)) => x0 == t.0 && {
                        match unpacked::<B>(d.skip(k0 as int), le) {
                            Some((x1, k1)) => x1 == t.1 && {
                                match unpacked::<C>(d.skip(k0 as int).skip(k1 as int), le) {
                                    Some((x2, k2)) => x2 == t.2 && k == k0 + k1 + k2,
                                    None => false,
                                }
                            },
                            None => false,
                        }
                    },
                    None => false,
                }
            }),
{
}

/// A tuple of 4 packs as its members' bytes one after the other, in
/// member order.
pub proof fn lemma_tuple4_packs_in_order<A: Pack, B: Pack, C: Pack, D: Pack>()
    ensures
        forall|t: (A, B, C, D), le: bool|
            #[trigger] packed(t, le) == packed(t.0, le) + packed(t.1, le) + packed(t.2, le) + packed(t.3, le),
{
}

/// A tuple of 4 unpacks member by member, in member order: each member
/// is read from the bytes that follow the members before it, and the
/// tuple takes the bytes of all of them.
pub proof fn lemma_tuple4_unpacks_in_order<A: Unpack, B: Unpack, C: Unpack, D: Unpack>()
    ensures
        forall|d: Seq<u8>, le: bool|
            (#[trigger] unpacked::<(A, B, C, D)>(d, le)) is Some ==> ({
                let (t, k) = unpacked::<(A, B, C, D)>(d, le)->Some_0;
                match unpacked::<A>(d, le) {
                    Some((x0, k0)) => x0 == t.0 && {
                        match unpacked::<B>(d.skip(k0 as int), le) {
                            Some((x1, k1)) => x1 == t.1 && {
                                match unpacked::<C>(d.skip(k0 as int).skip(k1 as int), le) {
                                    Some((x2, k2)) => x2 == t.2 && {
                                        match unpacked::<D>(d.skip(k0 as int).skip(k1 as int).skip(k2 as int), le) {
                                            Some((x3, k3)) => x3 == t.3 && k == k0 + k1 + k2 + k3,
                                            None => false,
                                        }
                                    },
                                    None => false,
                                }
                            },
                            None => false,
                        }
                    },
                    None => false,
                }
            }),
{
}

/// A tuple of 5 packs as its members' bytes one after the other, in
/// member order.
pub proof fn lemma_tuple5_packs_in_order<A: Pack, B: Pack, C: Pack, D: Pack, E: Pack>()
    ensures
        forall|t: (A, B, C, D, E), le: bool|
            #[trigger] packed(t, le) == packed(t.0, le) + packed(t.1, le) + packed(t.2, le) + packed(t.3, le) + packed(t.4, le),
{
}

/// A tuple of 5 unpacks member by member, in member order: each member
/// is read from the bytes that follow the members before it, and the
/// tuple takes the bytes of all of them.
pub proof fn lemma_tuple5_unpacks_in_order<A: Unpack, B: Unpack, C: Unpack, D: Unpack, E: Unpack>()
    ensures
        forall|d: Seq<u8>, le: bool|
            (#[trigger] unpacked::<(A, B, C, D, E)>(d, le)) is Some ==> ({
                let (t, k) = unpacked::<(A, B, C, D, E)>(d, le)->Some_0;
                match unpacked::<A>(d, le) {
                    Some((x0, k0)) => x0 == t.0 && {
                        match unpacked::<B>(d.skip(k0 as int), le) {
                            Some((x1, k1)) => x1 == t.1 && {
                                match unpacked::<C>(d.skip(k0 as int).skip(k1 as int), le) {
                                    Some((x2, k2)) => x2 == t.2 && {
                                        match unpacked::<D>(d.skip(k0 as int).skip(k1 as int).skip(k2 as int), le) {
                                            Some((x3, k3)) => x3 == t.3 && {
                                                match unpacked::<E>(d.skip(k0 as int).skip(k1 as int).skip(k2 as int).skip(k3 as int), le) {
                                                    Some((x4, k4)) => x4 == t.4 && k == k0 + k1 + k2 + k3 + k4,
                                                    None => false,
                                                }
                                            },
                                            None => false,
                                        }
                                    },
                                    None => false,
                                }
                            },
                            None => false,
                        }
                    },
                    None => false,
                }
            }),
{
}

/// A tuple of 6 packs as its members' bytes one after the other, in
/// member order.
pub proof fn lemma_tuple6_packs_in_order<A: Pack, B: Pack, C: Pack, D: Pack, E: Pack, F: Pack>()
    ensures
        forall|t: (A, B, C, D, E, F), le: bool|
            #[trigger] packed(t, le) == packed(t.0, le) + packed(t.1, le) + packed(t.2, le) + packed(t.3, le) + packed(t.4, le) + packed(t.5, le),
{
}

/// A tuple of 6 unpacks member by member, in member order: each member
/// is read from the bytes that follow the members before it, and the
/// tuple takes the bytes of all of them.
pub proof fn lemma_tuple6_unpacks_in_order<A: Unpack, B: Unpack, C: Unpack, D: Unpack, E: Unpack, F: Unpack>()
    ensures
        forall|d: Seq<u8>, le: bool|
            (#[trigger] unpacked::<(A, B, C, D, E, F)>(d, le)) is Some ==> ({
                let (t, k) = unpacked::<(A, B, C, D, E, F)>(d, le)->Some_0;
                match unpacked::<A>(d, le) {
                    Some((x0, k0)) => x0 == t.0 && {
                        match unpacked::<B>(d.skip(k0 as int), le) {
                            Some((x1, k1)) => x1 == t.1 && {
                                match unpacked::<C>(d.skip(k0 as int).skip(k1 as int), le) {
                                    Some((x2, k2)) => x2 == t.2 && {
                                        match unpacked::<D>(d.skip(k0 as int).skip(k1 as int).skip(k2 as int), le) {
                                            Some((x3, k3)) => x3 == t.3 && {
                                                match unpacked::<E>(d.skip(k0 as int).skip(k1 as int).skip(k2 as int).skip(k3 as int), le) {
                                                    Some((x4, k4)) => x4 == t.4 && {
                                                        match unpacked::<F>(d.skip(k0 as int).skip(k1 as int).skip(k2 as int).skip(k3 as int).skip(k4 as int), le) {
                                                            Some((x5, k5)) => x5 == t.5 && k == k0 + k1 + k2 + k3 + k4 + k5,
                                                            None => false,
                                                        }
                                                    },
                                                    None => false,
                                                }
                                            },
                                            None => false,
                                        }
                                    },
                                    None => false,
                                }
                            },
                            None => false,
                        }
                    },
                    None => false,
                }
            }),
{
}

/// A tuple of 7 packs as its members' bytes one after the other, in
/// member order.
pub proof fn lemma_tuple7_packs_in_order<A: Pack, B: Pack, C: Pack, D: Pack, E: Pack, F: Pack, G: Pack>()
    ensures
        forall|t: (A, B, C, D, E, F, G), le: bool|
            #[trigger] packed(t, le) == packed(t.0, le) + packed(t.1, le) + packed(t.2, le) + packed(t.3, le) + packed(t.4, le) + packed(t.5, le) + packed(t.6, le),
{
}

/// A tuple of 7 unpacks member by member, in member order: each member
/// is read from the bytes that follow the members before it, and the
/// tuple takes the bytes of all of them.
pub proof fn lemma_tuple7_unpacks_in_order<A: Unpack, B: Unpack, C: Unpack, D: Unpack, E: Unpack, F: Unpack, G: Unpack>()
    ensures
        forall|d: Seq<u8>, le: bool|
            (#[trigger] unpacked::<(A, B, C, D, E, F, G)>(d, le)) is Some ==> ({
                let (t, k) = unpacked::<(A, B, C, D, E, F, G)>(d, le)->Some_0;
                match unpacked::<A>(d, le) {
                    Some((x0, k0)) => x0 == t.0 && {
                        match unpacked::<B>(d.skip(k0 as int), le) {
                            Some((x1, k1)) => x1 == t.1 && {
                                match unpacked::<C>(d.skip(k0 as int).skip(k1 as int), le) {
                                    Some((x2, k2)) => x2 == t.2 && {
                                        match unpacked::<D>(d.skip(k0 as int).skip(k1 as int).skip(k2 as int), le) {
                                            Some((x3, k3)) => x3 == t.3 && {
                                                match unpacked::<E>(d.skip(k0 as int).skip(k1 as int).skip(k2 as int).skip(k3 as int), le) {
                                                    Some((x4, k4)) => x4 == t.4 && {
                                                        match unpacked::<F>(d.skip(k0 as int).skip(k1 as int).skip(k2 as int).skip(k3 as int).skip(k4 as int), le) {
                                                            Some((x5, k5)) => x5 == t.5 && {
                                                                match unpacked::<G>(d.skip(k0 as int).skip(k1 as int).skip(k2 as int).skip(k3 as int).skip(k4 as int).skip(k5 as int), le) {
                                                                    Some((x6, k6)) => x6 == t.6 && k == k0 + k1 + k2 + k3 + k4 + k5 + k6,
                                                                    None => false,
                                                                }
                                                            },
                                                            None => false,
                                                        }
                                                    },
                                                    None => false,
                                                }
                                            },
                                            None => false,
                                        }
                                    },
                                    None => false,
                                }
                            },
                            None => false,
                        }
                    },
                    None => false,
                }
            }),
{
}

/// A tuple of 8 packs as its members' bytes one after the other, in
/// member order.
pub proof fn lemma_tuple8_packs_in_order<A: Pack, B: Pack, C: Pack, D: Pack, E: Pack, F: Pack, G: Pack, H: Pack>()
    ensures
        forall|t: (A, B, C, D, E, F, G, H), le: bool|
            #[trigger] packed(t, le) == packed(t.0, le) + packed(t.1, le) + packed(t.2, le) + packed(t.3, le) + packed(t.4, le) + packed(t.5, le) + packed(t.6, le) + packed(t.7, le),
{
}

/// A tuple of 8 unpacks member by member, in member order: each member
/// is read from the bytes that follow the members before it, and the
/// tuple takes the bytes of all of them.
pub proof fn lemma_tuple8_unpacks_in_order<A: Unpack, B: Unpack, C: Unpack, D: Unpack, E: Unpack, F: Unpack, G: Unpack, H: Unpack>()
    ensures
        forall|d: Seq<u8>, le: bool|
            (#[trigger] unpacked::<(A, B, C, D, E, F, G, H)>(d, le)) is Some ==> ({
                let (t, k) = unpacked::<(A, B, C, D, E, F, G, H)>(d, le)->Some_0;
                match unpacked::<A>(d, le) {
                    Some((x0, k0)) => x0 == t.0 && {
                        match unpacked::<B>(d.skip(k0 as int), le) {
                            Some((x1, k1)) => x1 == t.1 && {
                                match unpacked::<C>(d.skip(k0 as int).skip(k1 as int), le) {
                                    Some((x2, k2)) => x2 == t.2 && {
                                        match unpacked::<D>(d.skip(k0 as int).skip(k1 as int).skip(k2 as int), le) {
                                            Some((x3, k3)) => x3 == t.3 && {
                                                match unpacked::<E>(d.skip(k0 as int).skip(k1 as int).skip(k2 as int).skip(k3 as int), le) {
                                                    Some((x4, k4)) => x4 == t.4 && {
                                                        match unpacked::<F>(d.skip(k0 as int).skip(k1 as int).skip(k2 as int).skip(k3 as int).skip(k4 as int), le) {
                                                            Some((x5, k5)) => x5 == t.5 && {
                                                                match unpacked::<G>(d.skip(k0 as int).skip(k1 as int).skip(k2 as int).skip(k3 as int).skip(k4 as int).skip(k5 as int), le) {
                                                                    Some((x6, k6)) => x6 == t.6 && {
                                                                        match unpacked::<H>(d.skip(k0 as int).skip(k1 as int).skip(k2 as int).skip(k3 as int).skip(k4 as int).skip(k5 as int).skip(k6 as int), le) {
                                                                            Some((x7, k7)) => x7 == t.7 && k == k0 + k1 + k2 + k3 + k4 + k5 + k6 + k7,
                                                                            None => false,
                                                                        }
                                                                    },
                                                                    None => false,
                                                                }
                                                            },
                                                            None => false,
                                                        }
                                                    },
                                                    None => false,
                                                }
                                            },
                                            None => false,
                                        }
                                    },
                                    None => false,
                                }
                            },
                            None => false,
                        }
                    },
                    None => false,
                }
            }),
{
}

/// A tuple of 9 packs as its members' bytes one after the other, in
/// member order.
pub proof fn lemma_tuple9_packs_in_order<A: Pack, B: Pack, C: Pack, D: Pack, E: Pack, F: Pack, G: Pack, H: Pack, I: Pack>()
    ensures
        forall|t: (A, B, C, D, E, F, G, H, I), le: bool|
            #[trigger] packed(t, le) == packed(t.0, le) + packed(t.1, le) + packed(t.2, le) + packed(t.3, le) + packed(t.4, le) + packed(t.5, le) + packed(t.6, le) + packed(t.7, le) + packed(t.8, le),
{
}

/// A tuple of 9 unpacks member by member, in member order: each member
/// is read from the bytes that follow the members before it, and the
/// tuple takes the bytes of all of them.
pub proof fn lemma_tuple9_unpacks_in_order<A: Unpack, B: Unpack, C: Unpack, D: Unpack, E: Unpack, F: Unpack, G: Unpack, H: Unpack, I: Unpack>()
    ensures
        forall|d: Seq<u8>, le: bool|
            (#[trigger] unpacked::<(A, B, C, D, E, F, G, H, I)>(d, le)) is Some ==> ({
                let (t, k) = unpacked::<(A, B, C, D, E, F, G, H, I)>(d, le)->Some_0;
                match unpacked::<A>(d, le) {
                    Some((x0, k0)) => x0 == t.0 && {
                        match unpacked::<B>(d.skip(k0 as int), le) {
                            Some((x1, k1)) => x1 == t.1 && {
                                match unpacked::<C>(d.skip(k0 as int).skip(k1 as int), le) {
                                    Some((x2, k2)) => x2 == t.2 && {
                                        match unpacked::<D>(d.skip(k0 as int).skip(k1 as int).skip(k2 as int), le) {
                                            Some((x3, k3)) => x3 == t.3 && {
                                                match unpacked::<E>(d.skip(k0 as int).skip(k1 as int).skip(k2 as int).skip(k3 as int), le) {
                                                    Some((x4, k4)) => x4 == t.4 && {
                                                        match unpacked::<F>(d.skip(k0 as int).skip(k1 as int).skip(k2 as int).skip(k3 as int).skip(k4 as int), le) {
                                                            Some((x5, k5)) => x5 == t.5 && {
                                                                match unpacked::<G>(d.skip(k0 as int).skip(k1 as int).skip(k2 as int).skip(k3 as int).skip(k4 as int).skip(k5 as int), le) {
                                                                    Some((x6, k6)) => x6 == t.6 && {
                                                                        match unpacked::<H>(d.skip(k0 as int).skip(k1 as int).skip(k2 as int).skip(k3 as int).skip(k4 as int).skip(k5 as int).skip(k6 as int), le) {
                                                                            Some((x7, k7)) => x7 == t.7 && {
                                                                                match unpacked::<I>(d.skip(k0 as int).skip(k1 as int).skip(k2 as int).skip(k3 as int).skip(k4 as int).skip(k5 as int).skip(k6 as int).skip(k7 as int), le) {
                                                                                    Some((x8, k8)) => x8 == t.8 && k == k0 + k1 + k2 + k3 + k4 + k5 + k6 + k7 + k8,
                                                                                    None => false,
                                                                                }
                                                                            },
                                                                            None => false,
                                                                        }
                                                                    },
                                                                    None => false,
                                                                }
                                                            },
                                                            None => false,
                                                        }
                                                    },
                                                    None => false,
                                                }
                                            },
                                            None => false,
                                        }
                                    },
                                    None => false,
                                }
                            },
                            None => false,
                        }
                    },
                    None => false,
                }
            }),
{
}

/// A tuple of 10 packs as its members' bytes one after the other, in
/// member order.
pub proof fn lemma_tuple10_packs_in_order<A: Pack, B: Pack, C: Pack, D: Pack, E: Pack, F: Pack, G: Pack, H: Pack, I: Pack, J: Pack>()
    ensures
        forall|t: (A, B, C, D, E, F, G, H, I, J), le: bool|
            #[trigger] packed(t, le) == packed(t.0, le) + packed(t.1, le) + packed(t.2, le) + packed(t.3, le) + packed(t.4, le) + packed(t.5, le) + packed(t.6, le) + packed(t.7, le) + packed(t.8, le) + packed(t.9, le),
{
}

/// A tuple of 10 unpacks member by member, in member order: each member
/// is read from the bytes that follow the members before it, and the
/// tuple takes the bytes of all of them.
pub proof fn lemma_tuple10_unpacks_in_order<A: Unpack, B: Unpack, C: Unpack, D: Unpack, E: Unpack, F: Unpack, G: Unpack, H: Unpack, I: Unpack, J: Unpack>()
    ensures
        forall|d: Seq<u8>, le: bool|
            (#[trigger] unpacked::<(A, B, C, D, E, F, G, H, I, J)>(d, le)) is Some ==> ({
                let (t, k) = unpacked::<(A, B, C, D, E, F, G, H, I, J)>(d, le)->Some_0;
                match unpacked::<A>(d, le) {
                    Some((x0, k0)) => x0 == t.0 && {
                        match unpacked::<B>(d.skip(k0 as int), le) {
                            Some((x1, k1)) => x1 == t.1 && {
                                match unpacked::<C>(d.skip(k0 as int).skip(k1 as int), le) {
                                    Some((x2, k2)) => x2 == t.2 && {
                                        match unpacked::<D>(d.skip(k0 as int).skip(k1 as int).skip(k2 as int), le) {
                                            Some((x3, k3)) => x3 == t.3 && {
                                                match unpacked::<E>(d.skip(k0 as int).skip(k1 as int).skip(k2 as int).skip(k3 as int), le) {
                                                    Some((x4, k4)) => x4 == t.4 && {
                                                        match unpacked::<F>(d.skip(k0 as int).skip(k1 as int).skip(k2 as int).skip(k3 as int).skip(k4 as int), le) {
                                                            Some((x5, k5)) => x5 == t.5 && {
                                                                match unpacked::<G>(d.skip(k0 as int).skip(k1 as int).skip(k2 as int).skip(k3 as int).skip(k4 as int).skip(k5 as int), le) {
                                                                    Some((x6, k6)) => x6 == t.6 && {
                                                                        match unpacked::<H>(d.skip(k0 as int).skip(k1 as int).skip(k2 as int).skip(k3 as int).skip(k4 as int).skip(k5 as int).skip(k6 as int), le) {
                                                                            Some((x7, k7)) => x7 == t.7 && {
                                                                                match unpacked::<I>(d.skip(k0 as int).skip(k1 as int).skip(k2 as int).skip(k3 as int).skip(k4 as int).skip(k5 as int).skip(k6 as int).skip(k7 as int), le) {
                                                                                    Some((x8, k8)) => x8 == t.8 && {
                                                                                        match unpacked::<J>(d.skip(k0 as int).skip(k1 as int).skip(k2 as int).skip(k3 as int).skip(k4 as int).skip(k5 as int).skip(k6 as int).skip(k7 as int).skip(k8 as int), le) {
                                                                                            Some((x9, k9)) => x9 == t.9 && k == k0 + k1 + k2 + k3 + k4 + k5 + k6 + k7 + k8 + k9,
                                                                                            None => false,
                                                                                        }
                                                                                    },
                                                                                    None => false,
                                                                                }
                                                                            },
                                                                            None => false,
                                                                        }
                                                                    },
                                                                    None => false,
                                                                }
                                                            },
                                                            None => false,
                                                        }
                                                    },
                                                    None => false,
                                                }
                                            },
                                            None => false,
                                        }
                                    },
                                    None => false,
                                }
                            },
                            None => false,
                        }
                    },
                    None => false,
                }
            }),
{
}

/// A tuple of 11 packs as its members' bytes one after the other, in
/// member order.
pub proof fn lemma_tuple11_packs_in_order<A: Pack, B: Pack, C: Pack, D: Pack, E: Pack, F: Pack, G: Pack, H: Pack, I: Pack, J: Pack, K: Pack>()
    ensures
        forall|t: (A, B, C, D, E, F, G, H, I, J, K), le: bool|
            #[trigger] packed(t, le) == packed(t.0, le) + packed(t.1, le) + packed(t.2, le) + packed(t.3, le) + packed(t.4, le) + packed(t.5, le) + packed(t.6, le) + packed(t.7, le) + packed(t.8, le) + packed(t.9, le) + packed(t.10, le),
{
}

/// A tuple of 11 unpacks member by member, in member order: each member
/// is read from the bytes that follow the members before it, and the
/// tuple takes the bytes of all of them.
pub proof fn lemma_tuple11_unpacks_in_order<A: Unpack, B: Unpack, C: Unpack, D: Unpack, E: Unpack, F: Unpack, G: Unpack, H: Unpack, I: Unpack, J: Unpack, K: Unpack>()
    ensures
        forall|d: Seq<u8>, le: bool|
            (#[trigger] unpacked::<(A, B, C, D, E, F, G, H, I, J, K)>(d, le)) is Some ==> ({
                let (t, k) = unpacked::<(A, B, C, D, E, F, G, H, I, J, K)>(d, le)->Some_0;
                match unpacked::<A>(d, le) {
                    Some((x0, k0)) => x0 == t.0 && {
                        match unpacked::<B>(d.skip(k0 as int), le) {
                            Some((x1, k1)) => x1 == t.1 && {
                                match unpacked::<C>(d.skip(k0 as int).skip(k1 as int), le) {
                                    Some((x2, k2)) => x2 == t.2 && {
                                        match unpacked::<D>(d.skip(k0 as int).skip(k1 as int).skip(k2 as int), le) {
                                            Some((x3, k3)) => x3 == t.3 && {
                                                match unpacked::<E>(d.skip(k0 as int).skip(k1 as int).skip(k2 as int).skip(k3 as int), le) {
                                                    Some((x4, k4)) => x4 == t.4 && {
                                                        match unpacked::<F>(d.skip(k0 as int).skip(k1 as int).skip(k2 as int).skip(k3 as int).skip(k4 as int), le) {
                                                            Some((x5, k5)) => x5 == t.5 && {
                                                                match unpacked::<G>(d.skip(k0 as int).skip(k1 as int).skip(k2 as int).skip(k3 as int).skip(k4 as int).skip(k5 as int), le) {
                                                                    Some((x6, k6)) => x6 == t.6 && {
                                                                        match unpacked::<H>(d.skip(k0 as int).skip(k1 as int).skip(k2 as int).skip(k3 as int).skip(k4 as int).skip(k5 as int).skip(k6 as int), le) {
                                                                            Some((x7, k7)) => x7 == t.7 && {
                                                                                match unpacked::<I>(d.skip(k0 as int).skip(k1 as int).skip(k2 as int).skip(k3 as int).skip(k4 as int).skip(k5 as int).skip(k6 as int).skip(k7 as int), le) {
                                                                                    Some((x8, k8)) => x8 == t.8 && {
                                                                                        match unpacked::<J>(d.skip(k0 as int).skip(k1 as int).skip(k2 as int).skip(k3 as int).skip(k4 as int).skip(k5 as int).skip(k6 as int).skip(k7 as int).skip(k8 as int), le) {
                                                                                            Some((x9, k9)) => x9 == t.9 && {
                                                                                                match unpacked::<K>(d.skip(k0 as int).skip(k1 as int).skip(k2 as int).skip(k3 as int).skip(k4 as int).skip(k5 as int).skip(k6 as int).skip(k7 as int).skip(k8 as int).skip(k9 as int), le) {
                                                                                                    Some((x10, k10)) => x10 == t.10 && k == k0 + k1 + k2 + k3 + k4 + k5 + k6 + k7 + k8 + k9 + k10,
                                                                                                    None => false,
                                                                                                }
                                                                                            },
                                                                                            None => false,
                                                                                        }
                                                                                    },
                                                                                    None => false,
                                                                                }
                                                                            },
                                                                            None => false,
                                                                        }
                                                                    },
                                                                    None => false,
                                                                }
                                                            },
                                                            None => false,
                                                        }
                                                    },
                                                    None => false,
                                                }
                                            },
                                            None => false,
                                        }
                                    },
                                    None => false,
                                }
                            },
                            None => false,
                        }
                    },
                    None => false,
                }
            }),
{
}

/// A tuple of 12 packs as its members' bytes one after the other, in
/// member order.
pub proof fn lemma_tuple12_packs_in_order<A: Pack, B: Pack, C: Pack, D: Pack, E: Pack, F: Pack, G: Pack, H: Pack, I: Pack, J: Pack, K: Pack, L: Pack>()
    ensures
        forall|t: (A, B, C, D, E, F, G, H, I, J, K, L), le: bool|
            #[trigger] packed(t, le) == packed(t.0, le) + packed(t.1, le) + packed(t.2, le) + packed(t.3, le) + packed(t.4, le) + packed(t.5, le) + packed(t.6, le) + packed(t.7, le) + packed(t.8, le) + packed(t.9, le) + packed(t.10, le) + packed(t.11, le),
{
}

/// A tuple of 12 unpacks member by member, in member order: each member
/// is read from the bytes that follow the members before it, and the
/// tuple takes the bytes of all of them.
pub proof fn lemma_tuple12_unpacks_in_order<A: Unpack, B: Unpack, C: Unpack, D: Unpack, E: Unpack, F: Unpack, G: Unpack, H: Unpack, I: Unpack, J: Unpack, K: Unpack, L: Unpack>()
    ensures
        forall|d: Seq<u8>, le: bool|
            (#[trigger] unpacked::<(A, B, C, D, E, F, G, H, I, J, K, L)>(d, le)) is Some ==> ({
                let (t, k) = unpacked::<(A, B, C, D, E, F, G, H, I, J, K, L)>(d, le)->Some_0;
                match unpacked::<A>(d, le) {
                    Some((x0, k0)) => x0 == t.0 && {
                        match unpacked::<B>(d.skip(k0 as int), le) {
                            Some((x1, k1)) => x1 == t.1 && {
                                match unpacked::<C>(d.skip(k0 as int).skip(k1 as int), le) {
                                    Some((x2, k2)) => x2 == t.2 && {
                                        match unpacked::<D>(d.skip(k0 as int).skip(k1 as int).skip(k2 as int), le) {
                                            Some((x3, k3)) => x3 == t.3 && {
                                                match unpacked::<E>(d.skip(k0 as int).skip(k1 as int).skip(k2 as int).skip(k3 as int), le) {
                                                    Some((x4, k4)) => x4 == t.4 && {
                                                        match unpacked::<F>(d.skip(k0 as int).skip(k1 as int).skip(k2 as int).skip(k3 as int).skip(k4 as int), le) {
                                                            Some((x5, k5)) => x5 == t.5 && {
                                                                match unpacked::<G>(d.skip(k0 as int).skip(k1 as int).skip(k2 as int).skip(k3 as int).skip(k4 as int).skip(k5 as int), le) {
                                                                    Some((x6, k6)) => x6 == t.6 && {
                                                                        match unpacked::<H>(d.skip(k0 as int).skip(k1 as int).skip(k2 as int).skip(k3 as int).skip(k4 as int).skip(k5 as int).skip(k6 as int), le) {
                                                                            Some((x7, k7)) => x7 == t.7 && {
                                                                                match unpacked::<I>(d.skip(k0 as int).skip(k1 as int).skip(k2 as int).skip(k3 as int).skip(k4 as int).skip(k5 as int).skip(k6 as int).skip(k7 as int), le) {
                                                                                    Some((x8, k8)) => x8 == t.8 && {
                                                                                        match unpacked::<J>(d.skip(k0 as int).skip(k1 as int).skip(k2 as int).skip(k3 as int).skip(k4 as int).skip(k5 as int).skip(k6 as int).skip(k7 as int).skip(k8 as int), le) {
                                                                                            Some((x9, k9)) => x9 == t.9 && {
                                                                                                match unpacked::<K>(d.skip(k0 as int).skip(k1 as int).skip(k2 as int).skip(k3 as int).skip(k4 as int).skip(k5 as int).skip(k6 as int).skip(k7 as int).skip(k8 as int).skip(k9 as int), le) {
                                                                                                    Some((x10, k10)) => x10 == t.10 && {
                                                                                                        match unpacked::<L>(d.skip(k0 as int).skip(k1 as int).skip(k2 as int).skip(k3 as int).skip(k4 as int).skip(k5 as int).skip(k6 as int).skip(k7 as int).skip(k8 as int).skip(k9 as int).skip(k10 as int), le) {
                                                                                                            Some((x11, k11)) => x11 == t.11 && k == k0 + k1 + k2 + k3 + k4 + k5 + k6 + k7 + k8 + k9 + k10 + k11,
                                                                                                            None => false,
                                                                                                        }
                                                                                                    },
                                                                                                    None => false,
                                                                                                }
                                                                                            },
                                                                                            None => false,
                                                                                        }
                                                                                    },
                                                                                    None => false,
                                                                                }
                                                                            },
                                                                            None => false,
                                                                        }
                                                                    },
                                                                    None => false,
                                                                }
                                                            },
                                                            None => false,
                                                        }
                                                    },
                                                    None => false,
                                                }
                                            },
                                            None => false,
                                        }
                                    },
                                    None => false,
                                }
                            },
                            None => false,
                        }
                    },
                    None => false,
                }
            }),
{
}

/// A tuple of 13 packs as its members' bytes one after the other, in
/// member order.
pub proof fn lemma_tuple13_packs_in_order<A: Pack, B: Pack, C: Pack, D: Pack, E: Pack, F: Pack, G: Pack, H: Pack, I: Pack, J: Pack, K: Pack, L: Pack, M: Pack>()
    ensures
        forall|t: (A, B, C, D, E, F, G, H, I, J, K, L, M), le: bool|
            #[trigger] packed(t, le) == packed(t.0, le) + packed(t.1, le) + packed(t.2, le) + packed(t.3, le) + packed(t.4, le) + packed(t.5, le) + packed(t.6, le) + packed(t.7, le) + packed(t.8, le) + packed(t.9, le) + packed(t.10, le) + packed(t.11, le) + packed(t.12, le),
{
}

/// A tuple of 13 unpacks member by member, in member order: each member
/// is read from the bytes that follow the members before it, and the
/// tuple takes the bytes of all of them.
pub proof fn lemma_tuple13_unpacks_in_order<A: Unpack, B: Unpack, C: Unpack, D: Unpack, E: Unpack, F: Unpack, G: Unpack, H: Unpack, I: Unpack, J: Unpack, K: Unpack, L: Unpack, M: Unpack>()
    ensures
        forall|d: Seq<u8>, le: bool|
            (#[trigger] unpacked::<(A, B, C, D, E, F, G, H, I, J, K, L, M)>(d, le)) is Some ==> ({
                let (t, k) = unpacked::<(A, B, C, D, E, F, G, H, I, J, K, L, M)>(d, le)->Some_0;
                match unpacked::<A>(d, le) {
                    Some((x0, k0)) => x0 == t.0 && {
                        match unpacked::<B>(d.skip(k0 as int), le) {
                            Some((x1, k1)) => x1 == t.1 && {
                                match unpacked::<C>(d.skip(k0 as int).skip(k1 as int), le) {
                                    Some((x2, k2)) => x2 == t.2 && {
                                        match unpacked::<D>(d.skip(k0 as int).skip(k1 as int).skip(k2 as int), le) {
                                            Some((x3, k3)) => x3 == t.3 && {
                                                match unpacked::<E>(d.skip(k0 as int).skip(k1 as int).skip(k2 as int).skip(k3 as int), le) {
                                                    Some((x4, k4)) => x4 == t.4 && {
                                                        match unpacked::<F>(d.skip(k0 as int).skip(k1 as int).skip(k2 as int).skip(k3 as int).skip(k4 as int), le) {
                                                            Some((x5, k5)) => x5 == t.5 && {
                                                                match unpacked::<G>(d.skip(k0 as int).skip(k1 as int).skip(k2 as int).skip(k3 as int).skip(k4 as int).skip(k5 as int), le) {
                                                                    Some((x6, k6)) => x6 == t.6 && {
                                                                        match unpacked::<H>(d.skip(k0 as int).skip(k1 as int).skip(k2 as int).skip(k3 as int).skip(k4 as int).skip(k5 as int).skip(k6 as int), le) {
                                                                            Some((x7, k7)) => x7 == t.7 && {
                                                                                match unpacked::<I>(d.skip(k0 as int).skip(k1 as int).skip(k2 as int).skip(k3 as int).skip(k4 as int).skip(k5 as int).skip(k6 as int).skip(k7 as int), le) {
                                                                                    Some((x8, k8)) => x8 == t.8 && {
                                                                                        match unpacked::<J>(d.skip(k0 as int).skip(k1 as int).skip(k2 as int).skip(k3 as int).skip(k4 as int).skip(k5 as int).skip(k6 as int).skip(k7 as int).skip(k8 as int), le) {
                                                                                            Some((x9, k9)) => x9 == t.9 && {
                                                                                                match unpacked::<K>(d.skip(k0 as int).skip(k1 as int).skip(k2 as int).skip(k3 as int).skip(k4 as int).skip(k5 as int).skip(k6 as int).skip(k7 as int).skip(k8 as int).skip(k9 as int), le) {
                                                                                                    Some((x10, k10)) => x10 == t.10 && {
                                                                                                        match unpacked::<L>(d.skip(k0 as int).skip(k1 as int).skip(k2 as int).skip(k3 as int).skip(k4 as int).skip(k5 as int).skip(k6 as int).skip(k7 as int).skip(k8 as int).skip(k9 as int).skip(k10 as int), le) {
                                                                                                            Some((x11, k11)) => x11 == t.11 && {
                                                                                                                match unpacked::<M>(d.skip(k0 as int).skip(k1 as int).skip(k2 as int).skip(k3 as int).skip(k4 as int).skip(k5 as int).skip(k6 as int).skip(k7 as int).skip(k8 as int).skip(k9 as int).skip(k10 as int).skip(k11 as int), le) {
                                                                                                                    Some((x12, k12)) => x12 == t.12 && k == k0 + k1 + k2 + k3 + k4 + k5 + k6 + k7 + k8 + k9 + k10 + k11 + k12,
                                                                                                                    None => false,
                                                                                                                }
                                                                                                            },
                                                                                                            None => false,
                                                                                                        }
                                                                                                    },
                                                                                                    None => false,
                                                                                                }
                                                                                            },
                                                                                            None => false,
                                                                                        }
                                                                                    },
                                                                                    None => false,
                                                                                }
                                                                            },
                                                                            None => false,
                                                                        }
                                                                    },
                                                                    None => false,
                                                                }
                                                            },
                                                            None => false,
                                                        }
                                                    },
                                                    None => false,
                                                }
                                            },
                                            None => false,
                                        }
                                    },
                                    None => false,
                                }
                            },
                            None => false,
                        }
                    },
                    None => false,
                }
            }),
{
}

/// A tuple of 14 packs as its members' bytes one after the other, in
/// member order.
pub proof fn lemma_tuple14_packs_in_order<A: Pack, B: Pack, C: Pack, D: Pack, E: Pack, F: Pack, G: Pack, H: Pack, I: Pack, J: Pack, K: Pack, L: Pack, M: Pack, N: Pack>()
    ensures
        forall|t: (A, B, C, D, E, F, G, H, I, J, K, L, M, N), le: bool|
            #[trigger] packed(t, le) == packed(t.0, le) + packed(t.1, le) + packed(t.2, le) + packed(t.3, le) + packed(t.4, le) + packed(t.5, le) + packed(t.6, le) + packed(t.7, le) + packed(t.8, le) + packed(t.9, le) + packed(t.10, le) + packed(t.11, le) + packed(t.12, le) + packed(t.13, le),
{
}

/// A tuple of 14 unpacks member by member, in member order: each member
/// is read from the bytes that follow the members before it, and the
/// tuple takes the bytes of all of them.
pub proof fn lemma_tuple14_unpacks_in_order<A: Unpack, B: Unpack, C: Unpack, D: Unpack, E: Unpack, F: Unpack, G: Unpack, H: Unpack, I: Unpack, J: Unpack, K: Unpack, L: Unpack, M: Unpack, N: Unpack>()
    ensures
        forall|d: Seq<u8>, le: bool|
            (#[trigger] unpacked::<(A, B, C, D, E, F, G, H, I, J, K, L, M, N)>(d, le)) is Some ==> ({
                let (t, k) = unpacked::<(A, B, C, D, E, F, G, H, I, J, K, L, M, N)>(d, le)->Some_0;
                match unpacked::<A>(d, le) {
                    Some((x0, k0)) => x0 == t.0 && {
                        match unpacked::<B>(d.skip(k0 as int), le) {
                            Some((x1, k1)) => x1 == t.1 && {
                                match unpacked::<C>(d.skip(k0 as int).skip(k1 as int), le) {
                                    Some((x2, k2)) => x2 == t.2 && {
                                        match unpacked::<D>(d.skip(k0 as int).skip(k1 as int).skip(k2 as int), le) {
                                            Some((x3, k3)) => x3 == t.3 && {
                                                match unpacked::<E>(d.skip(k0 as int).skip(k1 as int).skip(k2 as int).skip(k3 as int), le) {
                                                    Some((x4, k4)) => x4 == t.4 && {
                                                        match unpacked::<F>(d.skip(k0 as int).skip(k1 as int).skip(k2 as int).skip(k3 as int).skip(k4 as int), le) {
                                                            Some((x5, k5)) => x5 == t.5 && {
                                                                match unpacked::<G>(d.skip(k0 as int).skip(k1 as int).skip(k2 as int).skip(k3 as int).skip(k4 as int).skip(k5 as int), le) {
                                                                    Some((x6, k6)) => x6 == t.6 && {
                                                                        match unpacked::<H>(d.skip(k0 as int).skip(k1 as int).skip(k2 as int).skip(k3 as int).skip(k4 as int).skip(k5 as int).skip(k6 as int), le) {
                                                                            Some((x7, k7)) => x7 == t.7 && {
                                                                                match unpacked::<I>(d.skip(k0 as int).skip(k1 as int).skip(k2 as int).skip(k3 as int).skip(k4 as int).skip(k5 as int).skip(k6 as int).skip(k7 as int), le) {
                                                                                    Some((x8, k8)) => x8 == t.8 && {
                                                                                        match unpacked::<J>(d.skip(k0 as int).skip(k1 as int).skip(k2 as int).skip(k3 as int).skip(k4 as int).skip(k5 as int).skip(k6 as int).skip(k7 as int).skip(k8 as int), le) {
                                                                                            Some((x9, k9)) => x9 == t.9 && {
                                                                                                match unpacked::<K>(d.skip(k0 as int).skip(k1 as int).skip(k2 as int).skip(k3 as int).skip(k4 as int).skip(k5 as int).skip(k6 as int).skip(k7 as int).skip(k8 as int).skip(k9 as int), le) {
                                                                                                    Some((x10, k10)) => x10 == t.10 && {
                                                                                                        match unpacked::<L>(d.skip(k0 as int).skip(k1 as int).skip(k2 as int).skip(k3 as int).skip(k4 as int).skip(k5 as int).skip(k6 as int).skip(k7 as int).skip(k8 as int).skip(k9 as int).skip(k10 as int), le) {
                                                                                                            Some((x11, k11)) => x11 == t.11 && {
                                                                                                                match unpacked::<M>(d.skip(k0 as int).skip(k1 as int).skip(k2 as int).skip(k3 as int).skip(k4 as int).skip(k5 as int).skip(k6 as int).skip(k7 as int).skip(k8 as int).skip(k9 as int).skip(k10 as int).skip(k11 as int), le) {
                                                                                                                    Some((x12, k12)) => x12 == t.12 && {
                                                                                                                        match unpacked::<N>(d.skip(k0 as int).skip(k1 as int).skip(k2 as int).skip(k3 as int).skip(k4 as int).skip(k5 as int).skip(k6 as int).skip(k7 as int).skip(k8 as int).skip(k9 as int).skip(k10 as int).skip(k11 as int).skip(k12 as int), le) {
                                                                                                                            Some((x13, k13)) => x13 == t.13 && k == k0 + k1 + k2 + k3 + k4 + k5 + k6 + k7 + k8 + k9 + k10 + k11 + k12 + k13,
                                                                                                                            None => false,
                                                                                                                        }
                                                                                                                    },
                                                                                                                    None => false,
                                                                                                                }
                                                                                                            },
                                                                                                            None => false,
                                                                                                        }
                                                                                                    },
                                                                                                    None => false,
                                                                                                }
                                                                                            },
                                                                                            None => false,
                                                                                        }
                                                                                    },
                                                                                    None => false,
                                                                                }
                                                                            },
                                                                            None => false,
                                                                        }
                                                                    },
                                                                    None => false,
                                                                }
                                                            },
                                                            None => false,
                                                        }
                                                    },
                                                    None => false,
                                                }
                                            },
                                            None => false,
                                        }
                                    },
                                    None => false,
                                }
                            },
                            None => false,
                        }
                    },
                    None => false,
                }
            }),
{
}

/// A tuple of 15 packs as its members' bytes one after the other, in
/// member order.
pub proof fn lemma_tuple15_packs_in_order<A: Pack, B: Pack, C: Pack, D: Pack, E: Pack, F: Pack, G: Pack, H: Pack, I: Pack, J: Pack, K: Pack, L: Pack, M: Pack, N: Pack, O: Pack>()
    ensures
        forall|t: (A, B, C, D, E, F, G, H, I, J, K, L, M, N, O), le: bool|
            #[trigger] packed(t, le) == packed(t.0, le) + packed(t.1, le) + packed(t.2, le) + packed(t.3, le) + packed(t.4, le) + packed(t.5, le) + packed(t.6, le) + packed(t.7, le) + packed(t.8, le) + packed(t.9, le) + packed(t.10, le) + packed(t.11, le) + packed(t.12, le) + packed(t.13, le) + packed(t.14, le),
{
}

/// A tuple of 15 unpacks member by member, in member order: each member
/// is read from the bytes that follow the members before it, and the
/// tuple takes the bytes of all of them.
pub proof fn lemma_tuple15_unpacks_in_order<A: Unpack, B: Unpack, C: Unpack, D: Unpack, E: Unpack, F: Unpack, G: Unpack, H: Unpack, I: Unpack, J: Unpack, K: Unpack, L: Unpack, M: Unpack, N: Unpack, O: Unpack>()
    ensures
        forall|d: Seq<u8>, le: bool|
            (#[trigger] unpacked::<(A, B, C, D, E, F, G, H, I, J, K, L, M, N, O)>(d, le)) is Some ==> ({
                let (t, k) = unpacked::<(A, B, C, D, E, F, G, H, I, J, K, L, M, N, O)>(d, le)->Some_0;
                match unpacked::<A>(d, le) {
                    Some((x0, k0)) => x0 == t.0 && {
                        match unpacked::<B>(d.skip(k0 as int), le) {
                            Some((x1, k1)) => x1 == t.1 && {
                                match unpacked::<C>(d.skip(k0 as int).skip(k1 as int), le) {
                                    Some((x2, k2)) => x2 == t.2 && {
                                        match unpacked::<D>(d.skip(k0 as int).skip(k1 as int).skip(k2 as int), le) {
                                            Some((x3, k3)) => x3 == t.3 && {
                                                match unpacked::<E>(d.skip(k0 as int).skip(k1 as int).skip(k2 as int).skip(k3 as int), le) {
                                                    Some((x4, k4)) => x4 == t.4 && {
                                                        match unpacked::<F>(d.skip(k0 as int).skip(k1 as int).skip(k2 as int).skip(k3 as int).skip(k4 as int), le) {
                                                            Some((x5, k5)) => x5 == t.5 && {
                                                                match unpacked::<G>(d.skip(k0 as int).skip(k1 as int).skip(k2 as int).skip(k3 as int).skip(k4 as int).skip(k5 as int), le) {
                                                                    Some((x6, k6)) => x6 == t.6 && {
                                                                        match unpacked::<H>(d.skip(k0 as int).skip(k1 as int).skip(k2 as int).skip(k3 as int).skip(k4 as int).skip(k5 as int).skip(k6 as int), le) {
                                                                            Some((x7, k7)) => x7 == t.7 && {
                                                                                match unpacked::<I>(d.skip(k0 as int).skip(k1 as int).skip(k2 as int).skip(k3 as int).skip(k4 as int).skip(k5 as int).skip(k6 as int).skip(k7 as int), le) {
                                                                                    Some((x8, k8)) => x8 == t.8 && {
                                                                                        match unpacked::<J>(d.skip(k0 as int).skip(k1 as int).skip(k2 as int).skip(k3 as int).skip(k4 as int).skip(k5 as int).skip(k6 as int).skip(k7 as int).skip(k8 as int), le) {
                                                                                            Some((x9, k9)) => x9 == t.9 && {
                                                                                                match unpacked::<K>(d.skip(k0 as int).skip(k1 as int).skip(k2 as int).skip(k3 as int).skip(k4 as int).skip(k5 as int).skip(k6 as int).skip(k7 as int).skip(k8 as int).skip(k9 as int), le) {
                                                                                                    Some((x10, k10)) => x10 == t.10 && {
                                                                                                        match unpacked::<L>(d.skip(k0 as int).skip(k1 as int).skip(k2 as int).skip(k3 as int).skip(k4 as int).skip(k5 as int).skip(k6 as int).skip(k7 as int).skip(k8 as int).skip(k9 as int).skip(k10 as int), le) {
                                                                                                            Some((x11, k11)) => x11 == t.11 && {
                                                                                                                match unpacked::<M>(d.skip(k0 as int).skip(k1 as int).skip(k2 as int).skip(k3 as int).skip(k4 as int).skip(k5 as int).skip(k6 as int).skip(k7 as int).skip(k8 as int).skip(k9 as int).skip(k10 as int).skip(k11 as int), le) {
                                                                                                                    Some((x12, k12)) => x12 == t.12 && {
                                                                                                                        match unpacked::<N>(d.skip(k0 as int).skip(k1 as int).skip(k2 as int).skip(k3 as int).skip(k4 as int).skip(k5 as int).skip(k6 as int).skip(k7 as int).skip(k8 as int).skip(k9 as int).skip(k10 as int).skip(k11 as int).skip(k12 as int), le) {
                                                                                                                            Some((x13, k13)) => x13 == t.13 && {
                                                                                                                                match unpacked::<O>(d.skip(k0 as int).skip(k1 as int).skip(k2 as int).skip(k3 as int).skip(k4 as int).skip(k5 as int).skip(k6 as int).skip(k7 as int).skip(k8 as int).skip(k9 as int).skip(k10 as int).skip(k11 as int).skip(k12 as int).skip(k13 as int), le) {
                                                                                                                                    Some((x14, k14)) => x14 == t.14 && k == k0 + k1 + k2 + k3 + k4 + k5 + k6 + k7 + k8 + k9 + k10 + k11 + k12 + k13 + k14,
                                                                                                                                    None => false,
                                                                                                                                }
                                                                                                                            },
                                                                                                                            None => false,
                                                                                                                        }
                                                                                                                    },
                                                                                                                    None => false,
                                                                                                                }
                                                                                                            },
                                                                                                            None => false,
                                                                                                        }
                                                                                                    },
                                                                                                    None => false,
                                                                                                }
                                                                                            },
                                                                                            None => false,
                                                                                        }
                                                                                    },
                                                                                    None => false,
                                                                                }
                                                                            },
                                                                            None => false,
                                                                        }
                                                                    },
                                                                    None => false,
                                                                }
                                                            },
                                                            None => false,
                                                        }
                                                    },
                                                    None => false,
                                                }
                                            },
                                            None => false,
                                        }
                                    },
                                    None => false,
                                }
                            },
                            None => false,
                        }
                    },
                    None => false,
                }
            }),
{
}

/// A tuple of 16 packs as its members' bytes one after the other, in
/// member order.
pub proof fn lemma_tuple16_packs_in_order<A: Pack, B: Pack, C: Pack, D: Pack, E: Pack, F: Pack, G: Pack, H: Pack, I: Pack, J: Pack, K: Pack, L: Pack, M: Pack, N: Pack, O: Pack, P: Pack>()
    ensures
        forall|t: (A, B, C, D, E, F, G, H, I, J, K, L, M, N, O, P), le: bool|
            #[trigger] packed(t, le) == packed(t.0, le) + packed(t.1, le) + packed(t.2, le) + packed(t.3, le) + packed(t.4, le) + packed(t.5, le) + packed(t.6, le) + packed(t.7, le) + packed(t.8, le) + packed(t.9, le) + packed(t.10, le) + packed(t.11, le) + packed(t.12, le) + packed(t.13, le) + packed(t.14, le) + packed(t.15, le),
{
}

/// A tuple of 16 unpacks member by member, in member order: each member
/// is read from the bytes that follow the members before it, and the
/// tuple takes the bytes of all of them.
pub proof fn lemma_tuple16_unpacks_in_order<A: Unpack, B: Unpack, C: Unpack, D: Unpack, E: Unpack, F: Unpack, G: Unpack, H: Unpack, I: Unpack, J: Unpack, K: Unpack, L: Unpack, M: Unpack, N: Unpack, O: Unpack, P: Unpack>()
    ensures
        forall|d: Seq<u8>, le: bool|
            (#[trigger] unpacked::<(A, B, C, D, E, F, G, H, I, J, K, L, M, N, O, P)>(d, le)) is Some ==> ({
                let (t, k) = unpacked::<(A, B, C, D, E, F, G, H, I, J, K, L, M, N, O, P)>(d, le)->Some_0;
                match unpacked::<A>(d, le) {
                    Some((x0, k0)) => x0 == t.0 && {
                        match unpacked::<B>(d.skip(k0 as int), le) {
                            Some((x1, k1)) => x1 == t.1 && {
                                match unpacked::<C>(d.skip(k0 as int).skip(k1 as int), le) {
                                    Some((x2, k2)) => x2 == t.2 && {
                                        match unpacked::<D>(d.skip(k0 as int).skip(k1 as int).skip(k2 as int), le) {
                                            Some((x3, k3)) => x3 == t.3 && {
                                                match unpacked::<E>(d.skip(k0 as int).skip(k1 as int).skip(k2 as int).skip(k3 as int), le) {
                                                    Some((x4, k4)) => x4 == t.4 && {
                                                        match unpacked::<F>(d.skip(k0 as int).skip(k1 as int).skip(k2 as int).skip(k3 as int).skip(k4 as int), le) {
                                                            Some((x5, k5)) => x5 == t.5 && {
                                                                match unpacked::<G>(d.skip(k0 as int).skip(k1 as int).skip(k2 as int).skip(k3 as int).skip(k4 as int).skip(k5 as int), le) {
                                                                    Some((x6, k6)) => x6 == t.6 && {
                                                                        match unpacked::<H>(d.skip(k0 as int).skip(k1 as int).skip(k2 as int).skip(k3 as int).skip(k4 as int).skip(k5 as int).skip(k6 as int), le) {
                                                                            Some((x7, k7)) => x7 == t.7 && {
                                                                                match unpacked::<I>(d.skip(k0 as int).skip(k1 as int).skip(k2 as int).skip(k3 as int).skip(k4 as int).skip(k5 as int).skip(k6 as int).skip(k7 as int), le) {
                                                                                    Some((x8, k8)) => x8 == t.8 && {
                                                                                        match unpacked::<J>(d.skip(k0 as int).skip(k1 as int).skip(k2 as int).skip(k3 as int).skip(k4 as int).skip(k5 as int).skip(k6 as int).skip(k7 as int).skip(k8 as int), le) {
                                                                                            Some((x9, k9)) => x9 == t.9 && {
                                                                                                match unpacked::<K>(d.skip(k0 as int).skip(k1 as int).skip(k2 as int).skip(k3 as int).skip(k4 as int).skip(k5 as int).skip(k6 as int).skip(k7 as int).skip(k8 as int).skip(k9 as int), le) {
                                                                                                    Some((x10, k10)) => x10 == t.10 && {
                                                                                                        match unpacked::<L>(d.skip(k0 as int).skip(k1 as int).skip(k2 as int).skip(k3 as int).skip(k4 as int).skip(k5 as int).skip(k6 as int).skip(k7 as int).skip(k8 as int).skip(k9 as int).skip(k10 as int), le) {
                                                                                                            Some((x11, k11)) => x11 == t.11 && {
                                                                                                                match unpacked::<M>(d.skip(k0 as int).skip(k1 as int).skip(k2 as int).skip(k3 as int).skip(k4 as int).skip(k5 as int).skip(k6 as int).skip(k7 as int).skip(k8 as int).skip(k9 as int).skip(k10 as int).skip(k11 as int), le) {
                                                                                                                    Some((x12, k12)) => x12 == t.12 && {
                                                                                                                        match unpacked::<N>(d.skip(k0 as int).skip(k1 as int).skip(k2 as int).skip(k3 as int).skip(k4 as int).skip(k5 as int).skip(k6 as int).skip(k7 as int).skip(k8 as int).skip(k9 as int).skip(k10 as int).skip(k11 as int).skip(k12 as int), le) {
                                                                                                                            Some((x13, k13)) => x13 == t.13 && {
                                                                                                                                match unpacked::<O>(d.skip(k0 as int).skip(k1 as int).skip(k2 as int).skip(k3 as int).skip(k4 as int).skip(k5 as int).skip(k6 as int).skip(k7 as int).skip(k8 as int).skip(k9 as int).skip(k10 as int).skip(k11 as int).skip(k12 as int).skip(k13 as int), le) {
                                                                                                                                    Some((x14, k14)) => x14 == t.14 && {
                                                                                                                                        match unpacked::<P>(d.skip(k0 as int).skip(k1 as int).skip(k2 as int).skip(k3 as int).skip(k4 as int).skip(k5 as int).skip(k6 as int).skip(k7 as int).skip(k8 as int).skip(k9 as int).skip(k10 as int).skip(k11 as int).skip(k12 as int).skip(k13 as int).skip(k14 as int), le) {
                                                                                                                                            Some((x15, k15)) => x15 == t.15 && k == k0 + k1 + k2 + k3 + k4 + k5 + k6 + k7 + k8 + k9 + k10 + k11 + k12 + k13 + k14 + k15,
                                                                                                                                            None => false,
                                                                                                                                        }
                                                                                                                                    },
                                                                                                                                    None => false,
                                                                                                                                }
                                                                                                                            },
                                                                                                                            None => false,
                                                                                                                        }
                                                                                                                    },
                                                                                                                    None => false,
                                                                                                                }
                                                                                                            },
                                                                                                            None => false,
                                                                                                        }
                                                                                                    },
                                                                                                    None => false,
                                                                                                }
                                                                                            },
                                                                                            None => false,
                                                                                        }
                                                                                    },
                                                                                    None => false,
                                                                                }
                                                                            },
                                                                            None => false,
                                                                        }
                                                                    },
                                                                    None => false,
                                                                }
                                                            },
                                                            None => false,
                                                        }
                                                    },
                                                    None => false,
                                                }
                                            },
                                            None => false,
                                        }
                                    },
                                    None => false,
                                }
                            },
                            None => false,
                        }
                    },
                    None => false,
                }
            }),
{
}

/// Three byte strings joined either way are the same.
proof fn lemma_concat_assoc(a: Seq<u8>, b: Seq<u8>, c: Seq<u8>)
    ensures
        (a + b) + c == a + (b + c),
{
    assert((a + b) + c =~= a + (b + c));
}

/// One member of a tuple read back: its value, and the bytes after it.
proof fn lemma_member<T: Pack + Unpack>(x: T, after: Seq<u8>, little_endian: bool)
    requires
        roundtrips::<T>(little_endian),
    ensures
        unpacked::<T>(packed(x, little_endian) + after, little_endian) == Some::<(T, nat)>(
            (x, packed(x, little_endian).len()),
        ),
        (packed(x, little_endian) + after).skip(packed(x, little_endian).len() as int) == after,
{
    assert((packed(x, little_endian) + after).skip(packed(x, little_endian).len() as int) =~= after);
}

/// One-member tuples of a type that round-trips round-trip.
pub proof fn lemma_tuple1_roundtrips<A: Pack + Unpack>(little_endian: bool)
    requires
        roundtrips::<A>(little_endian),
    ensures
        roundtrips::<(A,)>(little_endian),
{
    let le = little_endian;
    assert forall|t: (A,), rest: Seq<u8>| #[trigger]
        unpacked::<(A,)>(packed(t, le) + rest, le) == Some::<((A,), nat)>(
            (t, packed(t, le).len()),
        ) by {
        let p0 = packed(t.0, le);
        let s1 = rest;
        let s0 = p0 + s1;
        let q0 = p0;
        assert(packed(t, le) == q0);
        lemma_member(t.0, s1, le);
    }
}

/// Tuples of 2 members that each round-trip round-trip.
pub proof fn lemma_tuple2_roundtrips<A: Pack + Unpack, B: Pack + Unpack>(little_endian: bool)
    requires
        roundtrips::<A>(little_endian),
        roundtrips::<B>(little_endian),
    ensures
        roundtrips::<(A, B)>(little_endian),
{
    let le = little_endian;
    assert forall|t: (A, B), rest: Seq<u8>| #[trigger]
        unpacked::<(A, B)>(packed(t, le) + rest, le) == Some::<((A, B), nat)>(
            (t, packed(t, le).len()),
        ) by {
        let p0 = packed(t.0, le);
        let p1 = packed(t.1, le);
        let s2 = rest;
        let s1 = p1 + s2;
        let s0 = p0 + s1;
        let q0 = p0;
        let q1 = q0 + p1;
        assert(packed(t, le) == q1);
        lemma_concat_assoc(q0, p1, s2);
        lemma_member(t.0, s1, le);
        lemma_member(t.1, s2, le);
    }
}

/// Tuples of 3 members that each round-trip round-trip.
pub proof fn lemma_tuple3_roundtrips<A: Pack + Unpack, B: Pack + Unpack, C: Pack + Unpack>(little_endian: bool)
    requires
        roundtrips::<A>(little_endian),
        roundtrips::<B>(little_endian),
        roundtrips::<C>(little_endian),
    ensures
        roundtrips::<(A, B, C)>(little_endian),
{
    let le = little_endian;
    assert forall|t: (A, B, C), rest: Seq<u8>| #[trigger]
        unpacked::<(A, B, C)>(packed(t, le) + rest, le) == Some::<((A, B, C), nat)>(
            (t, packed(t, le).len()),
        ) by {
        let p0 = packed(t.0, le);
        let p1 = packed(t.1, le);
        let p2 = packed(t.2, le);
        let s3 = rest;
        let s2 = p2 + s3;
        let s1 = p1 + s2;
        let s0 = p0 + s1;
        let q0 = p0;
        let q1 = q0 + p1;
        let q2 = q1 + p2;
        assert(packed(t, le) == q2);
        lemma_concat_assoc(q1, p2, s3);
        lemma_concat_assoc(q0, p1, s2);
        lemma_member(t.0, s1, le);
        lemma_member(t.1, s2, le);
        lemma_member(t.2, s3, le);
    }
}

/// Tuples of 4 members that each round-trip round-trip.
pub proof fn lemma_tuple4_roundtrips<A: Pack + Unpack, B: Pack + Unpack, C: Pack + Unpack, D: Pack + Unpack>(little_endian: bool)
    requires
        roundtrips::<A>(little_endian),
        roundtrips::<B>(little_endian),
        roundtrips::<C>(little_endian),
        roundtrips::<D>(little_endian),
    ensures
        roundtrips::<(A, B, C, D)>(little_endian),
{
    let le = little_endian;
    assert forall|t: (A, B, C, D), rest: Seq<u8>| #[trigger]
        unpacked::<(A, B, C, D)>(packed(t, le) + rest, le) == Some::<((A, B, C, D), nat)>(
            (t, packed(t, le).len()),
        ) by {
        let p0 = packed(t.0, le);
        let p1 = packed(t.1, le);
        let p2 = packed(t.2, le);
        let p3 = packed(t.3, le);
        let s4 = rest;
        let s3 = p3 + s4;
        let s2 = p2 + s3;
        let s1 = p1 + s2;
        let s0 = p0 + s1;
        let q0 = p0;
        let q1 = q0 + p1;
        let q2 = q1 + p2;
        let q3 = q2 + p3;
        assert(packed(t, le) == q3);
        lemma_concat_assoc(q2, p3, s4);
        lemma_concat_assoc(q1, p2, s3);
        lemma_concat_assoc(q0, p1, s2);
        lemma_member(t.0, s1, le);
        lemma_member(t.1, s2, le);
        lemma_member(t.2, s3, le);
        lemma_member(t.3, s4, le);
    }
}

/// Tuples of 5 members that each round-trip round-trip.
pub proof fn lemma_tuple5_roundtrips<A: Pack + Unpack, B: Pack + Unpack, C: Pack + Unpack, D: Pack + Unpack, E: Pack + Unpack>(little_endian: bool)
    requires
        roundtrips::<A>(little_endian),
        roundtrips::<B>(little_endian),
        roundtrips::<C>(little_endian),
        roundtrips::<D>(little_endian),
        roundtrips::<E>(little_endian),
    ensures
        roundtrips::<(A, B, C, D, E)>(little_endian),
{
    let le = little_endian;
    assert forall|t: (A, B, C, D, E), rest: Seq<u8>| #[trigger]
        unpacked::<(A, B, C, D, E)>(packed(t, le) + rest, le) == Some::<((A, B, C, D, E), nat)>(
            (t, packed(t, le).len()),
        ) by {
        let p0 = packed(t.0, le);
        let p1 = packed(t.1, le);
        let p2 = packed(t.2, le);
        let p3 = packed(t.3, le);
        let p4 = packed(t.4, le);
        let s5 = rest;
        let s4 = p4 + s5;
        let s3 = p3 + s4;
        let s2 = p2 + s3;
        let s1 = p1 + s2;
        let s0 = p0 + s1;
        let q0 = p0;
        let q1 = q0 + p1;
        let q2 = q1 + p2;
        let q3 = q2 + p3;
        let q4 = q3 + p4;
        assert(packed(t, le) == q4);
        lemma_concat_assoc(q3, p4, s5);
        lemma_concat_assoc(q2, p3, s4);
        lemma_concat_assoc(q1, p2, s3);
        lemma_concat_assoc(q0, p1, s2);
        lemma_member(t.0, s1, le);
        lemma_member(t.1, s2, le);
        lemma_member(t.2, s3, le);
        lemma_member(t.3, s4, le);
        lemma_member(t.4, s5, le);
    }
}

/// Tuples of 6 members that each round-trip round-trip.
pub proof fn lemma_tuple6_roundtrips<A: Pack + Unpack, B: Pack + Unpack, C: Pack + Unpack, D: Pack + Unpack, E: Pack + Unpack, F: Pack + Unpack>(little_endian: bool)
    requires
        roundtrips::<A>(little_endian),
        roundtrips::<B>(little_endian),
        roundtrips::<C>(little_endian),
        roundtrips::<D>(little_endian),
        roundtrips::<E>(little_endian),
        roundtrips::<F>(little_endian),
    ensures
        roundtrips::<(A, B, C, D, E, F)>(little_endian),
{
    let le = little_endian;
    assert forall|t: (A, B, C, D, E, F), rest: Seq<u8>| #[trigger]
        unpacked::<(A, B, C, D, E, F)>(packed(t, le) + rest, le) == Some::<((A, B, C, D, E, F), nat)>(
            (t, packed(t, le).len()),
        ) by {
        let p0 = packed(t.0, le);
        let p1 = packed(t.1, le);
        let p2 = packed(t.2, le);
        let p3 = packed(t.3, le);
        let p4 = packed(t.4, le);
        let p5 = packed(t.5, le);
        let s6 = rest;
        let s5 = p5 + s6;
        let s4 = p4 + s5;
        let s3 = p3 + s4;
        let s2 = p2 + s3;
        let s1 = p1 + s2;
        let s0 = p0 + s1;
        let q0 = p0;
        let q1 = q0 + p1;
        let q2 = q1 + p2;
        let q3 = q2 + p3;
        let q4 = q3 + p4;
        let q5 = q4 + p5;
        assert(packed(t, le) == q5);
        lemma_concat_assoc(q4, p5, s6);
        lemma_concat_assoc(q3, p4, s5);
        lemma_concat_assoc(q2, p3, s4);
        lemma_concat_assoc(q1, p2, s3);
        lemma_concat_assoc(q0, p1, s2);
        lemma_member(t.0, s1, le);
        lemma_member(t.1, s2, le);
        lemma_member(t.2, s3, le);
        lemma_member(t.3, s4, le);
        lemma_member(t.4, s5, le);
        lemma_member(t.5, s6, le);
    }
}

/// Tuples of 7 members that each round-trip round-trip.
pub proof fn lemma_tuple7_roundtrips<A: Pack + Unpack, B: Pack + Unpack, C: Pack + Unpack, D: Pack + Unpack, E: Pack + Unpack, F: Pack + Unpack, G: Pack + Unpack>(little_endian: bool)
    requires
        roundtrips::<A>(little_endian),
        roundtrips::<B>(little_endian),
        roundtrips::<C>(little_endian),
        roundtrips::<D>(little_endian),
        roundtrips::<E>(little_endian),
        roundtrips::<F>(little_endian),
        roundtrips::<G>(little_endian),
    ensures
        roundtrips::<(A, B, C, D, E, F, G)>(little_endian),
{
    let le = little_endian;
    assert forall|t: (A, B, C, D, E, F, G), rest: Seq<u8>| #[trigger]
        unpacked::<(A, B, C, D, E, F, G)>(packed(t, le) + rest, le) == Some::<((A, B, C, D, E, F, G), nat)>(
            (t, packed(t, le).len()),
        ) by {
        let p0 = packed(t.0, le);
        let p1 = packed(t.1, le);
        let p2 = packed(t.2, le);
        let p3 = packed(t.3, le);
        let p4 = packed(t.4, le);
        let p5 = packed(t.5, le);
        let p6 = packed(t.6, le);
        let s7 = rest;
        let s6 = p6 + s7;
        let s5 = p5 + s6;
        let s4 = p4 + s5;
        let s3 = p3 + s4;
        let s2 = p2 + s3;
        let s1 = p1 + s2;
        let s0 = p0 + s1;
        let q0 = p0;
        let q1 = q0 + p1;
        let q2 = q1 + p2;
        let q3 = q2 + p3;
        let q4 = q3 + p4;
        let q5 = q4 + p5;
        let q6 = q5 + p6;
        assert(packed(t, le) == q6);
        lemma_concat_assoc(q5, p6, s7);
        lemma_concat_assoc(q4, p5, s6);
        lemma_concat_assoc(q3, p4, s5);
        lemma_concat_assoc(q2, p3, s4);
        lemma_concat_assoc(q1, p2, s3);
        lemma_concat_assoc(q0, p1, s2);
        lemma_member(t.0, s1, le);
        lemma_member(t.1, s2, le);
        lemma_member(t.2, s3, le);
        lemma_member(t.3, s4, le);
        lemma_member(t.4, s5, le);
        lemma_member(t.5, s6, le);
        lemma_member(t.6, s7, le);
    }
}

/// Tuples of 8 members that each round-trip round-trip.
pub proof fn lemma_tuple8_roundtrips<A: Pack + Unpack, B: Pack + Unpack, C: Pack + Unpack, D: Pack + Unpack, E: Pack + Unpack, F: Pack + Unpack, G: Pack + Unpack, H: Pack + Unpack>(little_endian: bool)
    requires
        roundtrips::<A>(little_endian),
        roundtrips::<B>(little_endian),
        roundtrips::<C>(little_endian),
        roundtrips::<D>(little_endian),
        roundtrips::<E>(little_endian),
        roundtrips::<F>(little_endian),
        roundtrips::<G>(little_endian),
        roundtrips::<H>(little_endian),
    ensures
        roundtrips::<(A, B, C, D, E, F, G, H)>(little_endian),
{
    let le = little_endian;
    assert forall|t: (A, B, C, D, E, F, G, H), rest: Seq<u8>| #[trigger]
        unpacked::<(A, B, C, D, E, F, G, H)>(packed(t, le) + rest, le) == Some::<((A, B, C, D, E, F, G, H), nat)>(
            (t, packed(t, le).len()),
        ) by {
        let p0 = packed(t.0, le);
        let p1 = packed(t.1, le);
        let p2 = packed(t.2, le);
        let p3 = packed(t.3, le);
        let p4 = packed(t.4, le);
        let p5 = packed(t.5, le);
        let p6 = packed(t.6, le);
        let p7 = packed(t.7, le);
        let s8 = rest;
        let s7 = p7 + s8;
        let s6 = p6 + s7;
        let s5 = p5 + s6;
        let s4 = p4 + s5;
        let s3 = p3 + s4;
        let s2 = p2 + s3;
        let s1 = p1 + s2;
        let s0 = p0 + s1;
        let q0 = p0;
        let q1 = q0 + p1;
        let q2 = q1 + p2;
        let q3 = q2 + p3;
        let q4 = q3 + p4;
        let q5 = q4 + p5;
        let q6 = q5 + p6;
        let q7 = q6 + p7;
        assert(packed(t, le) == q7);
        lemma_concat_assoc(q6, p7, s8);
        lemma_concat_assoc(q5, p6, s7);
        lemma_concat_assoc(q4, p5, s6);
        lemma_concat_assoc(q3, p4, s5);
        lemma_concat_assoc(q2, p3, s4);
        lemma_concat_assoc(q1, p2, s3);
        lemma_concat_assoc(q0, p1, s2);
        lemma_member(t.0, s1, le);
        lemma_member(t.1, s2, le);
        lemma_member(t.2, s3, le);
        lemma_member(t.3, s4, le);
        lemma_member(t.4, s5, le);
        lemma_member(t.5, s6, le);
        lemma_member(t.6, s7, le);
        lemma_member(t.7, s8, le);
    }
}

/// Tuples of 9 members that each round-trip round-trip.
pub proof fn lemma_tuple9_roundtrips<A: Pack + Unpack, B: Pack + Unpack, C: Pack + Unpack, D: Pack + Unpack, E: Pack + Unpack, F: Pack + Unpack, G: Pack + Unpack, H: Pack + Unpack, I: Pack + Unpack>(little_endian: bool)
    requires
        roundtrips::<A>(little_endian),
        roundtrips::<B>(little_endian),
        roundtrips::<C>(little_endian),
        roundtrips::<D>(little_endian),
        roundtrips::<E>(little_endian),
        roundtrips::<F>(little_endian),
        roundtrips::<G>(little_endian),
        roundtrips::<H>(little_endian),
        roundtrips::<I>(little_endian),
    ensures
        roundtrips::<(A, B, C, D, E, F, G, H, I)>(little_endian),
{
    let le = little_endian;
    assert forall|t: (A, B, C, D, E, F, G, H, I), rest: Seq<u8>| #[trigger]
        unpacked::<(A, B, C, D, E, F, G, H, I)>(packed(t, le) + rest, le) == Some::<((A, B, C, D, E, F, G, H, I), nat)>(
            (t, packed(t, le).len()),
        ) by {
        let p0 = packed(t.0, le);
        let p1 = packed(t.1, le);
        let p2 = packed(t.2, le);
        let p3 = packed(t.3, le);
        let p4 = packed(t.4, le);
        let p5 = packed(t.5, le);
        let p6 = packed(t.6, le);
        let p7 = packed(t.7, le);
        let p8 = packed(t.8, le);
        let s9 = rest;
        let s8 = p8 + s9;
        let s7 = p7 + s8;
        let s6 = p6 + s7;
        let s5 = p5 + s6;
        let s4 = p4 + s5;
        let s3 = p3 + s4;
        let s2 = p2 + s3;
        let s1 = p1 + s2;
        let s0 = p0 + s1;
        let q0 = p0;
        let q1 = q0 + p1;
        let q2 = q1 + p2;
        let q3 = q2 + p3;
        let q4 = q3 + p4;
        let q5 = q4 + p5;
        let q6 = q5 + p6;
        let q7 = q6 + p7;
        let q8 = q7 + p8;
        assert(packed(t, le) == q8);
        lemma_concat_assoc(q7, p8, s9);
        lemma_concat_assoc(q6, p7, s8);
        lemma_concat_assoc(q5, p6, s7);
        lemma_concat_assoc(q4, p5, s6);
        lemma_concat_assoc(q3, p4, s5);
        lemma_concat_assoc(q2, p3, s4);
        lemma_concat_assoc(q1, p2, s3);
        lemma_concat_assoc(q0, p1, s2);
        lemma_member(t.0, s1, le);
        lemma_member(t.1, s2, le);
        lemma_member(t.2, s3, le);
        lemma_member(t.3, s4, le);
        lemma_member(t.4, s5, le);
        lemma_member(t.5, s6, le);
        lemma_member(t.6, s7, le);
        lemma_member(t.7, s8, le);
        lemma_member(t.8, s9, le);
    }
}

/// Tuples of 10 members that each round-trip round-trip.
pub proof fn lemma_tuple10_roundtrips<A: Pack + Unpack, B: Pack + Unpack, C: Pack + Unpack, D: Pack + Unpack, E: Pack + Unpack, F: Pack + Unpack, G: Pack + Unpack, H: Pack + Unpack, I: Pack + Unpack, J: Pack + Unpack>(little_endian: bool)
    requires
        roundtrips::<A>(little_endian),
        roundtrips::<B>(little_endian),
        roundtrips::<C>(little_endian),
        roundtrips::<D>(little_endian),
        roundtrips::<E>(little_endian),
        roundtrips::<F>(little_endian),
        roundtrips::<G>(little_endian),
        roundtrips::<H>(little_endian),
        roundtrips::<I>(little_endian),
        roundtrips::<J>(little_endian),
    ensures
        roundtrips::<(A, B, C, D, E, F, G, H, I, J)>(little_endian),
{
    let le = little_endian;
    assert forall|t: (A, B, C, D, E, F, G, H, I, J), rest: Seq<u8>| #[trigger]
        unpacked::<(A, B, C, D, E, F, G, H, I, J)>(packed(t, le) + rest, le) == Some::<((A, B, C, D, E, F, G, H, I, J), nat)>(
            (t, packed(t, le).len()),
        ) by {
        let p0 = packed(t.0, le);
        let p1 = packed(t.1, le);
        let p2 = packed(t.2, le);
        let p3 = packed(t.3, le);
        let p4 = packed(t.4, le);
        let p5 = packed(t.5, le);
        let p6 = packed(t.6, le);
        let p7 = packed(t.7, le);
        let p8 = packed(t.8, le);
        let p9 = packed(t.9, le);
        let s10 = rest;
        let s9 = p9 + s10;
        let s8 = p8 + s9;
        let s7 = p7 + s8;
        let s6 = p6 + s7;
        let s5 = p5 + s6;
        let s4 = p4 + s5;
        let s3 = p3 + s4;
        let s2 = p2 + s3;
        let s1 = p1 + s2;
        let s0 = p0 + s1;
        let q0 = p0;
        let q1 = q0 + p1;
        let q2 = q1 + p2;
        let q3 = q2 + p3;
        let q4 = q3 + p4;
        let q5 = q4 + p5;
        let q6 = q5 + p6;
        let q7 = q6 + p7;
        let q8 = q7 + p8;
        let q9 = q8 + p9;
        assert(packed(t, le) == q9);
        lemma_concat_assoc(q8, p9, s10);
        lemma_concat_assoc(q7, p8, s9);
        lemma_concat_assoc(q6, p7, s8);
        lemma_concat_assoc(q5, p6, s7);
        lemma_concat_assoc(q4, p5, s6);
        lemma_concat_assoc(q3, p4, s5);
        lemma_concat_assoc(q2, p3, s4);
        lemma_concat_assoc(q1, p2, s3);
        lemma_concat_assoc(q0, p1, s2);
        lemma_member(t.0, s1, le);
        lemma_member(t.1, s2, le);
        lemma_member(t.2, s3, le);
        lemma_member(t.3, s4, le);
        lemma_member(t.4, s5, le);
        lemma_member(t.5, s6, le);
        lemma_member(t.6, s7, le);
        lemma_member(t.7, s8, le);
        lemma_member(t.8, s9, le);
        lemma_member(t.9, s10, le);
    }
}

/// Tuples of 11 members that each round-trip round-trip.
pub proof fn lemma_tuple11_roundtrips<A: Pack + Unpack, B: Pack + Unpack, C: Pack + Unpack, D: Pack + Unpack, E: Pack + Unpack, F: Pack + Unpack, G: Pack + Unpack, H: Pack + Unpack, I: Pack + Unpack, J: Pack + Unpack, K: Pack + Unpack>(little_endian: bool)
    requires
        roundtrips::<A>(little_endian),
        roundtrips::<B>(little_endian),
        roundtrips::<C>(little_endian),
        roundtrips::<D>(little_endian),
        roundtrips::<E>(little_endian),
        roundtrips::<F>(little_endian),
        roundtrips::<G>(little_endian),
        roundtrips::<H>(little_endian),
        roundtrips::<I>(little_endian),
        roundtrips::<J>(little_endian),
        roundtrips::<K>(little_endian),
    ensures
        roundtrips::<(A, B, C, D, E, F, G, H, I, J, K)>(little_endian),
{
    let le = little_endian;
    assert forall|t: (A, B, C, D, E, F, G, H, I, J, K), rest: Seq<u8>| #[trigger]
        unpacked::<(A, B, C, D, E, F, G, H, I, J, K)>(packed(t, le) + rest, le) == Some::<((A, B, C, D, E, F, G, H, I, J, K), nat)>(
            (t, packed(t, le).len()),
        ) by {
        let p0 = packed(t.0, le);
        let p1 = packed(t.1, le);
        let p2 = packed(t.2, le);
        let p3 = packed(t.3, le);
        let p4 = packed(t.4, le);
        let p5 = packed(t.5, le);
        let p6 = packed(t.6, le);
        let p7 = packed(t.7, le);
        let p8 = packed(t.8, le);
        let p9 = packed(t.9, le);
        let p10 = packed(t.10, le);
        let s11 = rest;
        let s10 = p10 + s11;
        let s9 = p9 + s10;
        let s8 = p8 + s9;
        let s7 = p7 + s8;
        let s6 = p6 + s7;
        let s5 = p5 + s6;
        let s4 = p4 + s5;
        let s3 = p3 + s4;
        let s2 = p2 + s3;
        let s1 = p1 + s2;
        let s0 = p0 + s1;
        let q0 = p0;
        let q1 = q0 + p1;
        let q2 = q1 + p2;
        let q3 = q2 + p3;
        let q4 = q3 + p4;
        let q5 = q4 + p5;
        let q6 = q5 + p6;
        let q7 = q6 + p7;
        let q8 = q7 + p8;
        let q9 = q8 + p9;
        let q10 = q9 + p10;
        assert(packed(t, le) == q10);
        lemma_concat_assoc(q9, p10, s11);
        lemma_concat_assoc(q8, p9, s10);
        lemma_concat_assoc(q7, p8, s9);
        lemma_concat_assoc(q6, p7, s8);
        lemma_concat_assoc(q5, p6, s7);
        lemma_concat_assoc(q4, p5, s6);
        lemma_concat_assoc(q3, p4, s5);
        lemma_concat_assoc(q2, p3, s4);
        lemma_concat_assoc(q1, p2, s3);
        lemma_concat_assoc(q0, p1, s2);
        lemma_member(t.0, s1, le);
        lemma_member(t.1, s2, le);
        lemma_member(t.2, s3, le);
        lemma_member(t.3, s4, le);
        lemma_member(t.4, s5, le);
        lemma_member(t.5, s6, le);
        lemma_member(t.6, s7, le);
        lemma_member(t.7, s8, le);
        lemma_member(t.8, s9, le);
        lemma_member(t.9, s10, le);
        lemma_member(t.10, s11, le);
    }
}

/// Tuples of 12 members that each round-trip round-trip.
pub proof fn lemma_tuple12_roundtrips<A: Pack + Unpack, B: Pack + Unpack, C: Pack + Unpack, D: Pack + Unpack, E: Pack + Unpack, F: Pack + Unpack, G: Pack + Unpack, H: Pack + Unpack, I: Pack + Unpack, J: Pack + Unpack, K: Pack + Unpack, L: Pack + Unpack>(little_endian: bool)
    requires
        roundtrips::<A>(little_endian),
        roundtrips::<B>(little_endian),
        roundtrips::<C>(little_endian),
        roundtrips::<D>(little_endian),
        roundtrips::<E>(little_endian),
        roundtrips::<F>(little_endian),
        roundtrips::<G>(little_endian),
        roundtrips::<H>(little_endian),
        roundtrips::<I>(little_endian),
        roundtrips::<J>(little_endian),
        roundtrips::<K>(little_endian),
        roundtrips::<L>(little_endian),
    ensures
        roundtrips::<(A, B, C, D, E, F, G, H, I, J, K, L)>(little_endian),
{
    let le = little_endian;
    assert forall|t: (A, B, C, D, E, F, G, H, I, J, K, L), rest: Seq<u8>| #[trigger]
        unpacked::<(A, B, C, D, E, F, G, H, I, J, K, L)>(packed(t, le) + rest, le) == Some::<((A, B, C, D, E, F, G, H, I, J, K, L), nat)>(
            (t, packed(t, le).len()),
        ) by {
        let p0 = packed(t.0, le);
        let p1 = packed(t.1, le);
        let p2 = packed(t.2, le);
        let p3 = packed(t.3, le);
        let p4 = packed(t.4, le);
        let p5 = packed(t.5, le);
        let p6 = packed(t.6, le);
        let p7 = packed(t.7, le);
        let p8 = packed(t.8, le);
        let p9 = packed(t.9, le);
        let p10 = packed(t.10, le);
        let p11 = packed(t.11, le);
        let s12 = rest;
        let s11 = p11 + s12;
        let s10 = p10 + s11;
        let s9 = p9 + s10;
        let s8 = p8 + s9;
        let s7 = p7 + s8;
        let s6 = p6 + s7;
        let s5 = p5 + s6;
        let s4 = p4 + s5;
        let s3 = p3 + s4;
        let s2 = p2 + s3;
        let s1 = p1 + s2;
        let s0 = p0 + s1;
        let q0 = p0;
        let q1 = q0 + p1;
        let q2 = q1 + p2;
        let q3 = q2 + p3;
        let q4 = q3 + p4;
        let q5 = q4 + p5;
        let q6 = q5 + p6;
        let q7 = q6 + p7;
        let q8 = q7 + p8;
        let q9 = q8 + p9;
        let q10 = q9 + p10;
        let q11 = q10 + p11;
        assert(packed(t, le) == q11);
        lemma_concat_assoc(q10, p11, s12);
        lemma_concat_assoc(q9, p10, s11);
        lemma_concat_assoc(q8, p9, s10);
        lemma_concat_assoc(q7, p8, s9);
        lemma_concat_assoc(q6, p7, s8);
        lemma_concat_assoc(q5, p6, s7);
        lemma_concat_assoc(q4, p5, s6);
        lemma_concat_assoc(q3, p4, s5);
        lemma_concat_assoc(q2, p3, s4);
        lemma_concat_assoc(q1, p2, s3);
        lemma_concat_assoc(q0, p1, s2);
        lemma_member(t.0, s1, le);
        lemma_member(t.1, s2, le);
        lemma_member(t.2, s3, le);
        lemma_member(t.3, s4, le);
        lemma_member(t.4, s5, le);
        lemma_member(t.5, s6, le);
        lemma_member(t.6, s7, le);
        lemma_member(t.7, s8, le);
        lemma_member(t.8, s9, le);
        lemma_member(t.9, s10, le);
        lemma_member(t.10, s11, le);
        lemma_member(t.11, s12, le);
    }
}

/// Tuples of 13 members that each round-trip round-trip.
pub proof fn lemma_tuple13_roundtrips<A: Pack + Unpack, B: Pack + Unpack, C: Pack + Unpack, D: Pack + Unpack, E: Pack + Unpack, F: Pack + Unpack, G: Pack + Unpack, H: Pack + Unpack, I: Pack + Unpack, J: Pack + Unpack, K: Pack + Unpack, L: Pack + Unpack, M: Pack + Unpack>(little_endian: bool)
    requires
        roundtrips::<A>(little_endian),
        roundtrips::<B>(little_endian),
        roundtrips::<C>(little_endian),
        roundtrips::<D>(little_endian),
        roundtrips::<E>(little_endian),
        roundtrips::<F>(little_endian),
        roundtrips::<G>(little_endian),
        roundtrips::<H>(little_endian),
        roundtrips::<I>(little_endian),
        roundtrips::<J>(little_endian),
        roundtrips::<K>(little_endian),
        roundtrips::<L>(little_endian),
        roundtrips::<M>(little_endian),
    ensures
        roundtrips::<(A, B, C, D, E, F, G, H, I, J, K, L, M)>(little_endian),
{
    let le = little_endian;
    assert forall|t: (A, B, C, D, E, F, G, H, I, J, K, L, M), rest: Seq<u8>| #[trigger]
        unpacked::<(A, B, C, D, E, F, G, H, I, J, K, L, M)>(packed(t, le) + rest, le) == Some::<((A, B, C, D, E, F, G, H, I, J, K, L, M), nat)>(
            (t, packed(t, le).len()),
        ) by {
        let p0 = packed(t.0, le);
        let p1 = packed(t.1, le);
        let p2 = packed(t.2, le);
        let p3 = packed(t.3, le);
        let p4 = packed(t.4, le);
        let p5 = packed(t.5, le);
        let p6 = packed(t.6, le);
        let p7 = packed(t.7, le);
        let p8 = packed(t.8, le);
        let p9 = packed(t.9, le);
        let p10 = packed(t.10, le);
        let p11 = packed(t.11, le);
        let p12 = packed(t.12, le);
        let s13 = rest;
        let s12 = p12 + s13;
        let s11 = p11 + s12;
        let s10 = p10 + s11;
        let s9 = p9 + s10;
        let s8 = p8 + s9;
        let s7 = p7 + s8;
        let s6 = p6 + s7;
        let s5 = p5 + s6;
        let s4 = p4 + s5;
        let s3 = p3 + s4;
        let s2 = p2 + s3;
        let s1 = p1 + s2;
        let s0 = p0 + s1;
        let q0 = p0;
        let q1 = q0 + p1;
        let q2 = q1 + p2;
        let q3 = q2 + p3;
        let q4 = q3 + p4;
        let q5 = q4 + p5;
        let q6 = q5 + p6;
        let q7 = q6 + p7;
        let q8 = q7 + p8;
        let q9 = q8 + p9;
        let q10 = q9 + p10;
        let q11 = q10 + p11;
        let q12 = q11 + p12;
        assert(packed(t, le) == q12);
        lemma_concat_assoc(q11, p12, s13);
        lemma_concat_assoc(q10, p11, s12);
        lemma_concat_assoc(q9, p10, s11);
        lemma_concat_assoc(q8, p9, s10);
        lemma_concat_assoc(q7, p8, s9);
        lemma_concat_assoc(q6, p7, s8);
        lemma_concat_assoc(q5, p6, s7);
        lemma_concat_assoc(q4, p5, s6);
        lemma_concat_assoc(q3, p4, s5);
        lemma_concat_assoc(q2, p3, s4);
        lemma_concat_assoc(q1, p2, s3);
        lemma_concat_assoc(q0, p1, s2);
        lemma_member(t.0, s1, le);
        lemma_member(t.1, s2, le);
        lemma_member(t.2, s3, le);
        lemma_member(t.3, s4, le);
        lemma_member(t.4, s5, le);
        lemma_member(t.5, s6, le);
        lemma_member(t.6, s7, le);
        lemma_member(t.7, s8, le);
        lemma_member(t.8, s9, le);
        lemma_member(t.9, s10, le);
        lemma_member(t.10, s11, le);
        lemma_member(t.11, s12, le);
        lemma_member(t.12, s13, le);
    }
}

/// Tuples of 14 members that each round-trip round-trip.
pub proof fn lemma_tuple14_roundtrips<A: Pack + Unpack, B: Pack + Unpack, C: Pack + Unpack, D: Pack + Unpack, E: Pack + Unpack, F: Pack + Unpack, G: Pack + Unpack, H: Pack + Unpack, I: Pack + Unpack, J: Pack + Unpack, K: Pack + Unpack, L: Pack + Unpack, M: Pack + Unpack, N: Pack + Unpack>(little_endian: bool)
    requires
        roundtrips::<A>(little_endian),
        roundtrips::<B>(little_endian),
        roundtrips::<C>(little_endian),
        roundtrips::<D>(little_endian),
        roundtrips::<E>(little_endian),
        roundtrips::<F>(little_endian),
        roundtrips::<G>(little_endian),
        roundtrips::<H>(little_endian),
        roundtrips::<I>(little_endian),
        roundtrips::<J>(little_endian),
        roundtrips::<K>(little_endian),
        roundtrips::<L>(little_endian),
        roundtrips::<M>(little_endian),
        roundtrips::<N>(little_endian),
    ensures
        roundtrips::<(A, B, C, D, E, F, G, H, I, J, K, L, M, N)>(little_endian),
{
    let le = little_endian;
    assert forall|t: (A, B, C, D, E, F, G, H, I, J, K, L, M, N), rest: Seq<u8>| #[trigger]
        unpacked::<(A, B, C, D, E, F, G, H, I, J, K, L, M, N)>(packed(t, le) + rest, le) == Some::<((A, B, C, D, E, F, G, H, I, J, K, L, M, N), nat)>(
            (t, packed(t, le).len()),
        ) by {
        let p0 = packed(t.0, le);
        let p1 = packed(t.1, le);
        let p2 = packed(t.2, le);
        let p3 = packed(t.3, le);
        let p4 = packed(t.4, le);
        let p5 = packed(t.5, le);
        let p6 = packed(t.6, le);
        let p7 = packed(t.7, le);
        let p8 = packed(t.8, le);
        let p9 = packed(t.9, le);
        let p10 = packed(t.10, le);
        let p11 = packed(t.11, le);
        let p12 = packed(t.12, le);
        let p13 = packed(t.13, le);
        let s14 = rest;
        let s13 = p13 + s14;
        let s12 = p12 + s13;
        let s11 = p11 + s12;
        let s10 = p10 + s11;
        let s9 = p9 + s10;
        let s8 = p8 + s9;
        let s7 = p7 + s8;
        let s6 = p6 + s7;
        let s5 = p5 + s6;
        let s4 = p4 + s5;
        let s3 = p3 + s4;
        let s2 = p2 + s3;
        let s1 = p1 + s2;
        let s0 = p0 + s1;
        let q0 = p0;
        let q1 = q0 + p1;
        let q2 = q1 + p2;
        let q3 = q2 + p3;
        let q4 = q3 + p4;
        let q5 = q4 + p5;
        let q6 = q5 + p6;
        let q7 = q6 + p7;
        let q8 = q7 + p8;
        let q9 = q8 + p9;
        let q10 = q9 + p10;
        let q11 = q10 + p11;
        let q12 = q11 + p12;
        let q13 = q12 + p13;
        assert(packed(t, le) == q13);
        lemma_concat_assoc(q12, p13, s14);
        lemma_concat_assoc(q11, p12, s13);
        lemma_concat_assoc(q10, p11, s12);
        lemma_concat_assoc(q9, p10, s11);
        lemma_concat_assoc(q8, p9, s10);
        lemma_concat_assoc(q7, p8, s9);
        lemma_concat_assoc(q6, p7, s8);
        lemma_concat_assoc(q5, p6, s7);
        lemma_concat_assoc(q4, p5, s6);
        lemma_concat_assoc(q3, p4, s5);
        lemma_concat_assoc(q2, p3, s4);
        lemma_concat_assoc(q1, p2, s3);
        lemma_concat_assoc(q0, p1, s2);
        lemma_member(t.0, s1, le);
        lemma_member(t.1, s2, le);
        lemma_member(t.2, s3, le);
        lemma_member(t.3, s4, le);
        lemma_member(t.4, s5, le);
        lemma_member(t.5, s6, le);
        lemma_member(t.6, s7, le);
        lemma_member(t.7, s8, le);
        lemma_member(t.8, s9, le);
        lemma_member(t.9, s10, le);
        lemma_member(t.10, s11, le);
        lemma_member(t.11, s12, le);
        lemma_member(t.12, s13, le);
        lemma_member(t.13, s14, le);
    }
}

/// Tuples of 15 members that each round-trip round-trip.
pub proof fn lemma_tuple15_roundtrips<A: Pack + Unpack, B: Pack + Unpack, C: Pack + Unpack, D: Pack + Unpack, E: Pack + Unpack, F: Pack + Unpack, G: Pack + Unpack, H: Pack + Unpack, I: Pack + Unpack, J: Pack + Unpack, K: Pack + Unpack, L: Pack + Unpack, M: Pack + Unpack, N: Pack + Unpack, O: Pack + Unpack>(little_endian: bool)
    requires
        roundtrips::<A>(little_endian),
        roundtrips::<B>(little_endian),
        roundtrips::<C>(little_endian),
        roundtrips::<D>(little_endian),
        roundtrips::<E>(little_endian),
        roundtrips::<F>(little_endian),
        roundtrips::<G>(little_endian),
        roundtrips::<H>(little_endian),
        roundtrips::<I>(little_endian),
        roundtrips::<J>(little_endian),
        roundtrips::<K>(little_endian),
        roundtrips::<L>(little_endian),
        roundtrips::<M>(little_endian),
        roundtrips::<N>(little_endian),
        roundtrips::<O>(little_endian),
    ensures
        roundtrips::<(A, B, C, D, E, F, G, H, I, J, K, L, M, N, O)>(little_endian),
{
    let le = little_endian;
    assert forall|t: (A, B, C, D, E, F, G, H, I, J, K, L, M, N, O), rest: Seq<u8>| #[trigger]
        unpacked::<(A, B, C, D, E, F, G, H, I, J, K, L, M, N, O)>(packed(t, le) + rest, le) == Some::<((A, B, C, D, E, F, G, H, I, J, K, L, M, N, O), nat)>(
            (t, packed(t, le).len()),
        ) by {
        let p0 = packed(t.0, le);
        let p1 = packed(t.1, le);
        let p2 = packed(t.2, le);
        let p3 = packed(t.3, le);
        let p4 = packed(t.4, le);
        let p5 = packed(t.5, le);
        let p6 = packed(t.6, le);
        let p7 = packed(t.7, le);
        let p8 = packed(t.8, le);
        let p9 = packed(t.9, le);
        let p10 = packed(t.10, le);
        let p11 = packed(t.11, le);
        let p12 = packed(t.12, le);
        let p13 = packed(t.13, le);
        let p14 = packed(t.14, le);
        let s15 = rest;
        let s14 = p14 + s15;
        let s13 = p13 + s14;
        let s12 = p12 + s13;
        let s11 = p11 + s12;
        let s10 = p10 + s11;
        let s9 = p9 + s10;
        let s8 = p8 + s9;
        let s7 = p7 + s8;
        let s6 = p6 + s7;
        let s5 = p5 + s6;
        let s4 = p4 + s5;
        let s3 = p3 + s4;
        let s2 = p2 + s3;
        let s1 = p1 + s2;
        let s0 = p0 + s1;
        let q0 = p0;
        let q1 = q0 + p1;
        let q2 = q1 + p2;
        let q3 = q2 + p3;
        let q4 = q3 + p4;
        let q5 = q4 + p5;
        let q6 = q5 + p6;
        let q7 = q6 + p7;
        let q8 = q7 + p8;
        let q9 = q8 + p9;
        let q10 = q9 + p10;
        let q11 = q10 + p11;
        let q12 = q11 + p12;
        let q13 = q12 + p13;
        let q14 = q13 + p14;
        assert(packed(t, le) == q14);
        lemma_concat_assoc(q13, p14, s15);
        lemma_concat_assoc(q12, p13, s14);
        lemma_concat_assoc(q11, p12, s13);
        lemma_concat_assoc(q10, p11, s12);
        lemma_concat_assoc(q9, p10, s11);
        lemma_concat_assoc(q8, p9, s10);
        lemma_concat_assoc(q7, p8, s9);
        lemma_concat_assoc(q6, p7, s8);
        lemma_concat_assoc(q5, p6, s7);
        lemma_concat_assoc(q4, p5, s6);
        lemma_concat_assoc(q3, p4, s5);
        lemma_concat_assoc(q2, p3, s4);
        lemma_concat_assoc(q1, p2, s3);
        lemma_concat_assoc(q0, p1, s2);
        lemma_member(t.0, s1, le);
        lemma_member(t.1, s2, le);
        lemma_member(t.2, s3, le);
        lemma_member(t.3, s4, le);
        lemma_member(t.4, s5, le);
        lemma_member(t.5, s6, le);
        lemma_member(t.6, s7, le);
        lemma_member(t.7, s8, le);
        lemma_member(t.8, s9, le);
        lemma_member(t.9, s10, le);
        lemma_member(t.10, s11, le);
        lemma_member(t.11, s12, le);
        lemma_member(t.12, s13, le);
        lemma_member(t.13, s14, le);
        lemma_member(t.14, s15, le);
    }
}

/// Tuples of 16 members that each round-trip round-trip.
pub proof fn lemma_tuple16_roundtrips<A: Pack + Unpack, B: Pack + Unpack, C: Pack + Unpack, D: Pack + Unpack, E: Pack + Unpack, F: Pack + Unpack, G: Pack + Unpack, H: Pack + Unpack, I: Pack + Unpack, J: Pack + Unpack, K: Pack + Unpack, L: Pack + Unpack, M: Pack + Unpack, N: Pack + Unpack, O: Pack + Unpack, P: Pack + Unpack>(little_endian: bool)
    requires
        roundtrips::<A>(little_endian),
        roundtrips::<B>(little_endian),
        roundtrips::<C>(little_endian),
        roundtrips::<D>(little_endian),
        roundtrips::<E>(little_endian),
        roundtrips::<F>(little_endian),
        roundtrips::<G>(little_endian),
        roundtrips::<H>(little_endian),
        roundtrips::<I>(little_endian),
        roundtrips::<J>(little_endian),
        roundtrips::<K>(little_endian),
        roundtrips::<L>(little_endian),
        roundtrips::<M>(little_endian),
        roundtrips::<N>(little_endian),
        roundtrips::<O>(little_endian),
        roundtrips::<P>(little_endian),
    ensures
        roundtrips::<(A, B, C, D, E, F, G, H, I, J, K, L, M, N, O, P)>(little_endian),
{
    let le = little_endian;
    assert forall|t: (A, B, C, D, E, F, G, H, I, J, K, L, M, N, O, P), rest: Seq<u8>| #[trigger]
        unpacked::<(A, B, C, D, E, F, G, H, I, J, K, L, M, N, O, P)>(packed(t, le) + rest, le) == Some::<((A, B, C, D, E, F, G, H, I, J, K, L, M, N, O, P), nat)>(
            (t, packed(t, le).len()),
        ) by {
        let p0 = packed(t.0, le);
        let p1 = packed(t.1, le);
        let p2 = packed(t.2, le);
        let p3 = packed(t.3, le);
        let p4 = packed(t.4, le);
        let p5 = packed(t.5, le);
        let p6 = packed(t.6, le);
        let p7 = packed(t.7, le);
        let p8 = packed(t.8, le);
        let p9 = packed(t.9, le);
        let p10 = packed(t.10, le);
        let p11 = packed(t.11, le);
        let p12 = packed(t.12, le);
        let p13 = packed(t.13, le);
        let p14 = packed(t.14, le);
        let p15 = packed(t.15, le);
        let s16 = rest;
        let s15 = p15 + s16;
        let s14 = p14 + s15;
        let s13 = p13 + s14;
        let s12 = p12 + s13;
        let s11 = p11 + s12;
        let s10 = p10 + s11;
        let s9 = p9 + s10;
        let s8 = p8 + s9;
        let s7 = p7 + s8;
        let s6 = p6 + s7;
        let s5 = p5 + s6;
        let s4 = p4 + s5;
        let s3 = p3 + s4;
        let s2 = p2 + s3;
        let s1 = p1 + s2;
        let s0 = p0 + s1;
        let q0 = p0;
        let q1 = q0 + p1;
        let q2 = q1 + p2;
        let q3 = q2 + p3;
        let q4 = q3 + p4;
        let q5 = q4 + p5;
        let q6 = q5 + p6;
        let q7 = q6 + p7;
        let q8 = q7 + p8;
        let q9 = q8 + p9;
        let q10 = q9 + p10;
        let q11 = q10 + p11;
        let q12 = q11 + p12;
        let q13 = q12 + p13;
        let q14 = q13 + p14;
        let q15 = q14 + p15;
        assert(packed(t, le) == q15);
        lemma_concat_assoc(q14, p15, s16);
        lemma_concat_assoc(q13, p14, s15);
        lemma_concat_assoc(q12, p13, s14);
        lemma_concat_assoc(q11, p12, s13);
        lemma_concat_assoc(q10, p11, s12);
        lemma_concat_assoc(q9, p10, s11);
        lemma_concat_assoc(q8, p9, s10);
        lemma_concat_assoc(q7, p8, s9);
        lemma_concat_assoc(q6, p7, s8);
        lemma_concat_assoc(q5, p6, s7);
        lemma_concat_assoc(q4, p5, s6);
        lemma_concat_assoc(q3, p4, s5);
        lemma_concat_assoc(q2, p3, s4);
        lemma_concat_assoc(q1, p2, s3);
        lemma_concat_assoc(q0, p1, s2);
        lemma_member(t.0, s1, le);
        lemma_member(t.1, s2, le);
        lemma_member(t.2, s3, le);
        lemma_member(t.3, s4, le);
        lemma_member(t.4, s5, le);
        lemma_member(t.5, s6, le);
        lemma_member(t.6, s7, le);
        lemma_member(t.7, s8, le);
        lemma_member(t.8, s9, le);
        lemma_member(t.9, s10, le);
        lemma_member(t.10, s11, le);
        lemma_member(t.11, s12, le);
        lemma_member(t.12, s13, le);
        lemma_member(t.13, s14, le);
        lemma_member(t.14, s15, le);
        lemma_member(t.15, s16, le);
    }
}

} // verus!
