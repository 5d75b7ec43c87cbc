//! The byte encoding of the types that the pallet persists or submits:
//! little-endian fixed-width integers, length-prefixed lists, and one tag
//! byte per enum variant. Decoding is proved to invert encoding.

use vstd::prelude::*;
use crate::compact::{CompactSolution, RawSolution, SignedSubmission};
use crate::types::{
    AccountId, ElectionCompute, ElectionScore, Phase, ReadySolution, Support,
};

verus! {

/// The two little-endian bytes of `x`.
pub open spec fn spec_enc_u16(x: u16) -> Seq<u8> {
    seq![(x & 0xff) as u8, ((x >> 8) & 0xff) as u8]
}

/// The four little-endian bytes of `x`.
pub open spec fn spec_enc_u32(x: u32) -> Seq<u8> {
    seq![
        (x & 0xff) as u8,
        ((x >> 8) & 0xff) as u8,
        ((x >> 16) & 0xff) as u8,
        ((x >> 24) & 0xff) as u8,
    ]
}

/// The eight little-endian bytes of `x`.
pub open spec fn spec_enc_u64(x: u64) -> Seq<u8> {
    seq![
        (x & 0xff) as u8,
        ((x >> 8) & 0xff) as u8,
        ((x >> 16) & 0xff) as u8,
        ((x >> 24) & 0xff) as u8,
        ((x >> 32) & 0xff) as u8,
        ((x >> 40) & 0xff) as u8,
        ((x >> 48) & 0xff) as u8,
        ((x >> 56) & 0xff) as u8,
    ]
}

/// The sixteen little-endian bytes of `x`: low half first.
pub open spec fn spec_enc_u128(x: u128) -> Seq<u8> {
    spec_enc_u64(x as u64) + spec_enc_u64((x >> 64) as u64)
}

/// Read two little-endian bytes.
pub open spec fn spec_dec_u16(b: Seq<u8>) -> Option<(u16, Seq<u8>)> {
    if b.len() >= 2 {
        Some((((b[0] as u16) | ((b[1] as u16) << 8)) as u16, b.skip(2)))
    } else {
        None
    }
}

/// Read four little-endian bytes.
pub open spec fn spec_dec_u32(b: Seq<u8>) -> Option<(u32, Seq<u8>)> {
    if b.len() >= 4 {
        Some(
            (
                ((b[0] as u32) | ((b[1] as u32) << 8) | ((b[2] as u32) << 16) | ((b[3] as u32)
                    << 24)) as u32,
                b.skip(4),
            ),
        )
    } else {
        None
    }
}

/// Read eight little-endian bytes.
pub open spec fn spec_dec_u64(b: Seq<u8>) -> Option<(u64, Seq<u8>)> {
    if b.len() >= 8 {
        Some(
            (
                ((b[0] as u64) | ((b[1] as u64) << 8) | ((b[2] as u64) << 16) | ((b[3] as u64)
                    << 24) | ((b[4] as u64) << 32) | ((b[5] as u64) << 40) | ((b[6] as u64) << 48)
                    | ((b[7] as u64) << 56)) as u64,
                b.skip(8),
            ),
        )
    } else {
        None
    }
}

/// Read sixteen little-endian bytes: low half first.
pub open spec fn spec_dec_u128(b: Seq<u8>) -> Option<(u128, Seq<u8>)> {
    match spec_dec_u64(b) {
        Some((low, rest)) => match spec_dec_u64(rest) {
            Some((high, rest2)) => Some(
                (((low as u128) | ((high as u128) << 64)) as u128, rest2),
            ),
            None => None,
        },
        None => None,
    }
}

/// Reading two bytes inverts writing them.
pub proof fn lemma_rt_u16(x: u16, rest: Seq<u8>)
    ensures
        spec_dec_u16(spec_enc_u16(x) + rest) == Some((x, rest)),
{
    let b = spec_enc_u16(x) + rest;
    assert((((x & 0xff) as u8 as u16) | (((x >> 8) & 0xff) as u8 as u16) << 8) == x)
        by (bit_vector);
    assert(b.skip(2) =~= rest);
}

/// Reading four bytes inverts writing them.
pub proof fn lemma_rt_u32(x: u32, rest: Seq<u8>)
    ensures
        spec_dec_u32(spec_enc_u32(x) + rest) == Some((x, rest)),
{
    let b = spec_enc_u32(x) + rest;
    assert((((x & 0xff) as u8 as u32) | (((x >> 8) & 0xff) as u8 as u32) << 8 | (((x >> 16)
        & 0xff) as u8 as u32) << 16 | (((x >> 24) & 0xff) as u8 as u32) << 24) == x)
        by (bit_vector);
    assert(b.skip(4) =~= rest);
}

/// Reading eight bytes inverts writing them.
pub proof fn lemma_rt_u64(x: u64, rest: Seq<u8>)
    ensures
        spec_dec_u64(spec_enc_u64(x) + rest) == Some((x, rest)),
{
    let b = spec_enc_u64(x) + rest;
    assert((((x & 0xff) as u8 as u64) | (((x >> 8) & 0xff) as u8 as u64) << 8 | (((x >> 16)
        & 0xff) as u8 as u64) << 16 | (((x >> 24) & 0xff) as u8 as u64) << 24 | (((x >> 32)
        & 0xff) as u8 as u64) << 32 | (((x >> 40) & 0xff) as u8 as u64) << 40 | (((x >> 48)
        & 0xff) as u8 as u64) << 48 | (((x >> 56) & 0xff) as u8 as u64) << 56) == x)
        by (bit_vector);
    assert(b.skip(8) =~= rest);
}

/// Reading sixteen bytes inverts writing them.
pub proof fn lemma_rt_u128(x: u128, rest: Seq<u8>)
    ensures
        spec_dec_u128(spec_enc_u128(x) + rest) == Some((x, rest)),
{
    let low = x as u64;
    let high = (x >> 64) as u64;
    assert(spec_enc_u64(low) + spec_enc_u64(high) + rest =~= spec_enc_u64(low) + (spec_enc_u64(
        high,
    ) + rest));
    lemma_rt_u64(low, spec_enc_u64(high) + rest);
    lemma_rt_u64(high, rest);
    assert(((low as u128) | ((high as u128) << 64)) == x) by (bit_vector)
        requires
            low == x as u64,
            high == (x >> 64) as u64,
    ;
}

/// Append the two little-endian bytes of `x`.
pub fn enc_u16(x: u16, out: &mut Vec<u8>)
    ensures
        final(out)@ == old(out)@ + spec_enc_u16(x),
{
    out.push((x & 0xff) as u8);
    out.push(((x >> 8) & 0xff) as u8);
    proof {
        assert(final(out)@ =~= old(out)@ + spec_enc_u16(x));
    }
}

/// Append the four little-endian bytes of `x`.
pub fn enc_u32(x: u32, out: &mut Vec<u8>)
    ensures
        final(out)@ == old(out)@ + spec_enc_u32(x),
{
    out.push((x & 0xff) as u8);
    out.push(((x >> 8) & 0xff) as u8);
    out.push(((x >> 16) & 0xff) as u8);
    out.push(((x >> 24) & 0xff) as u8);
    proof {
        assert(final(out)@ =~= old(out)@ + spec_enc_u32(x));
    }
}

/// Append the eight little-endian bytes of `x`.
pub fn enc_u64(x: u64, out: &mut Vec<u8>)
    ensures
        final(out)@ == old(out)@ + spec_enc_u64(x),
{
    out.push((x & 0xff) as u8);
    out.push(((x >> 8) & 0xff) as u8);
    out.push(((x >> 16) & 0xff) as u8);
    out.push(((x >> 24) & 0xff) as u8);
    out.push(((x >> 32) & 0xff) as u8);
    out.push(((x >> 40) & 0xff) as u8);
    out.push(((x >> 48) & 0xff) as u8);
    out.push(((x >> 56) & 0xff) as u8);
    proof {
        assert(final(out)@ =~= old(out)@ + spec_enc_u64(x));
    }
}

/// Append the sixteen little-endian bytes of `x`.
pub fn enc_u128(x: u128, out: &mut Vec<u8>)
    ensures
        final(out)@ == old(out)@ + spec_enc_u128(x),
{
    enc_u64(x as u64, out);
    enc_u64((x >> 64) as u64, out);
    proof {
        assert(final(out)@ =~= old(out)@ + spec_enc_u128(x));
    }
}

/// Read two little-endian bytes at `pos`.
pub fn dec_u16(bytes: &Vec<u8>, pos: usize) -> (r: Option<(u16, usize)>)
    requires
        pos <= bytes@.len(),
    ensures
        match r {
            Some((v, p2)) => pos <= p2 <= bytes@.len() && spec_dec_u16(bytes@.skip(pos as int))
                == Some((v, bytes@.skip(p2 as int))),
            None => spec_dec_u16(bytes@.skip(pos as int)) is None,
        },
{
    if bytes.len() - pos >= 2 {
        let v: u16 = (bytes[pos] as u16) | ((bytes[pos + 1] as u16) << 8u16);
        proof {
            assert(bytes@.skip(pos as int).skip(2) =~= bytes@.skip(pos + 2));
        }
        Some((v, pos + 2))
    } else {
        None
    }
}

/// Read four little-endian bytes at `pos`.
pub fn dec_u32(bytes: &Vec<u8>, pos: usize) -> (r: Option<(u32, usize)>)
    requires
        pos <= bytes@.len(),
    ensures
        match r {
            Some((v, p2)) => pos <= p2 <= bytes@.len() && spec_dec_u32(bytes@.skip(pos as int))
                == Some((v, bytes@.skip(p2 as int))),
            None => spec_dec_u32(bytes@.skip(pos as int)) is None,
        },
{
    if bytes.len() - pos >= 4 {
        let v: u32 = (bytes[pos] as u32) | ((bytes[pos + 1] as u32) << 8u32) | ((bytes[pos
            + 2] as u32) << 16u32) | ((bytes[pos + 3] as u32) << 24u32);
        proof {
            assert(bytes@.skip(pos as int).skip(4) =~= bytes@.skip(pos + 4));
        }
        Some((v, pos + 4))
    } else {
        None
    }
}

/// Read eight little-endian bytes at `pos`.
pub fn dec_u64(bytes: &Vec<u8>, pos: usize) -> (r: Option<(u64, usize)>)
    requires
        pos <= bytes@.len(),
    ensures
        match r {
            Some((v, p2)) => pos <= p2 <= bytes@.len() && spec_dec_u64(bytes@.skip(pos as int))
                == Some((v, bytes@.skip(p2 as int))),
            None => spec_dec_u64(bytes@.skip(pos as int)) is None,
        },
{
    if bytes.len() - pos >= 8 {
        let v: u64 = (bytes[pos] as u64) | ((bytes[pos + 1] as u64) << 8u64) | ((bytes[pos
            + 2] as u64) << 16u64) | ((bytes[pos + 3] as u64) << 24u64) | ((bytes[pos + 4] as u64)
            << 32u64) | ((bytes[pos + 5] as u64) << 40u64) | ((bytes[pos + 6] as u64) << 48u64) | (
        (bytes[pos + 7] as u64) << 56u64);
        proof {
            assert(bytes@.skip(pos as int).skip(8) =~= bytes@.skip(pos + 8));
        }
        Some((v, pos + 8))
    } else {
        None
    }
}

/// Read sixteen little-endian bytes at `pos`.
pub fn dec_u128(bytes: &Vec<u8>, pos: usize) -> (r: Option<(u128, usize)>)
    requires
        pos <= bytes@.len(),
    ensures
        match r {
            Some((v, p2)) => pos <= p2 <= bytes@.len() && spec_dec_u128(bytes@.skip(pos as int))
                == Some((v, bytes@.skip(p2 as int))),
            None => spec_dec_u128(bytes@.skip(pos as int)) is None,
        },
{
    match dec_u64(bytes, pos) {
        Some((low, p1)) => match dec_u64(bytes, p1) {
            Some((high, p2)) => {
                let v: u128 = (low as u128) | ((high as u128) << 64u128);
                Some((v, p2))
            },
            None => None,
        },
        None => None,
    }
}

/// Write the elements of `s`, each through `f`, in order.
pub open spec fn spec_enc_elems<T>(s: Seq<T>, f: spec_fn(T) -> Seq<u8>) -> Seq<u8>
    decreases s.len(),
{
    if s.len() == 0 {
        Seq::<u8>::empty()
    } else {
        spec_enc_elems(s.drop_last(), f) + f(s.last())
    }
}

/// Write a list: its length, then its elements.
pub open spec fn spec_enc_list<T>(s: Seq<T>, f: spec_fn(T) -> Seq<u8>) -> Seq<u8> {
    spec_enc_u32(s.len() as u32) + spec_enc_elems(s, f)
}

/// Read `n` elements, each through `f`.
pub open spec fn spec_dec_elems<T>(
    b: Seq<u8>,
    f: spec_fn(Seq<u8>) -> Option<(T, Seq<u8>)>,
    n: nat,
) -> Option<(Seq<T>, Seq<u8>)>
    decreases n,
{
    if n == 0 {
        Some((Seq::<T>::empty(), b))
    } else {
        match f(b) {
            Some((v, rest)) => match spec_dec_elems(rest, f, (n - 1) as nat) {
                Some((vs, rest2)) => Some((seq![v] + vs, rest2)),
                None => None,
            },
            None => None,
        }
    }
}

/// Read a list: its length, then that many elements.
pub open spec fn spec_dec_list<T>(b: Seq<u8>, f: spec_fn(Seq<u8>) -> Option<(T, Seq<u8>)>) -> Option<
    (Seq<T>, Seq<u8>),
> {
    match spec_dec_u32(b) {
        Some((n, rest)) => spec_dec_elems(rest, f, n as nat),
        None => None,
    }
}

/// The element bytes of a nonempty sequence start with the bytes of its
/// first element.
proof fn lemma_enc_elems_first<T>(s: Seq<T>, f: spec_fn(T) -> Seq<u8>)
    requires
        s.len() > 0,
    ensures
        spec_enc_elems(s, f) == f(s[0]) + spec_enc_elems(s.drop_first(), f),
    decreases s.len(),
{
    if s.len() == 1 {
        assert(s.drop_last() =~= Seq::<T>::empty());
        assert(s.drop_first() =~= Seq::<T>::empty());
        assert(spec_enc_elems(s, f) =~= f(s[0]) + spec_enc_elems(s.drop_first(), f));
    } else {
        lemma_enc_elems_first(s.drop_last(), f);
        assert(s.drop_last().drop_first() =~= s.drop_first().drop_last());
        assert(s.drop_first().last() == s.last());
        assert(s.drop_last()[0] == s[0]);
        assert(f(s[0]) + spec_enc_elems(s.drop_last().drop_first(), f) + f(s.last()) =~= f(s[0]) + (
        spec_enc_elems(s.drop_first().drop_last(), f) + f(s.drop_first().last())));
        assert(spec_enc_elems(s, f) =~= f(s[0]) + spec_enc_elems(s.drop_first(), f));
    }
}

/// Reading `s.len()` elements inverts writing them, provided reading one
/// element inverts writing one for every element that satisfies `p`.
proof fn lemma_rt_elems<T>(
    s: Seq<T>,
    rest: Seq<u8>,
    fe: spec_fn(T) -> Seq<u8>,
    fd: spec_fn(Seq<u8>) -> Option<(T, Seq<u8>)>,
    p: spec_fn(T) -> bool,
)
    requires
        forall|x: T, r: Seq<u8>| p(x) ==> #[trigger] fd(fe(x) + r) == Some((x, r)),
        forall|i: int| 0 <= i < s.len() ==> p(#[trigger] s[i]),
    ensures
        spec_dec_elems(spec_enc_elems(s, fe) + rest, fd, s.len()) == Some((s, rest)),
    decreases s.len(),
{
    if s.len() == 0 {
        assert(spec_enc_elems(s, fe) + rest =~= rest);
    } else {
        lemma_enc_elems_first(s, fe);
        let tail_bytes = spec_enc_elems(s.drop_first(), fe) + rest;
        assert(spec_enc_elems(s, fe) + rest =~= fe(s[0]) + tail_bytes);
        assert(fd(fe(s[0]) + tail_bytes) == Some((s[0], tail_bytes)));
        assert(forall|i: int|
            0 <= i < s.drop_first().len() ==> p(#[trigger] s.drop_first()[i]));
        lemma_rt_elems(s.drop_first(), rest, fe, fd, p);
        assert(seq![s[0]] + s.drop_first() =~= s);
    }
}

/// Reading a list inverts writing it, provided reading one element inverts
/// writing one for every element that satisfies `p`.
proof fn lemma_rt_list<T>(
    s: Seq<T>,
    rest: Seq<u8>,
    fe: spec_fn(T) -> Seq<u8>,
    fd: spec_fn(Seq<u8>) -> Option<(T, Seq<u8>)>,
    p: spec_fn(T) -> bool,
)
    requires
        s.len() <= u32::MAX,
        forall|x: T, r: Seq<u8>| p(x) ==> #[trigger] fd(fe(x) + r) == Some((x, r)),
        forall|i: int| 0 <= i < s.len() ==> p(#[trigger] s[i]),
    ensures
        spec_dec_list(spec_enc_list(s, fe) + rest, fd) == Some((s, rest)),
{
    let elems = spec_enc_elems(s, fe) + rest;
    assert(spec_enc_list(s, fe) + rest =~= spec_enc_u32(s.len() as u32) + elems);
    lemma_rt_u32(s.len() as u32, elems);
    lemma_rt_elems(s, rest, fe, fd, p);
}

/// The byte form of one compact edge: target index, then ratio parts.
pub open spec fn spec_enc_edge(e: (u16, u32)) -> Seq<u8> {
    spec_enc_u16(e.0) + spec_enc_u32(e.1)
}

/// The edge encoder as a function value.
pub open spec fn edge_enc() -> spec_fn((u16, u32)) -> Seq<u8> {
    |e: (u16, u32)| spec_enc_edge(e)
}

/// Read one compact edge.
pub open spec fn spec_dec_edge(b: Seq<u8>) -> Option<((u16, u32), Seq<u8>)> {
    match spec_dec_u16(b) {
        Some((t, r)) => match spec_dec_u32(r) {
            Some((w, r2)) => Some(((t, w), r2)),
            None => None,
        },
        None => None,
    }
}

/// The edge decoder as a function value.
pub open spec fn edge_dec() -> spec_fn(Seq<u8>) -> Option<((u16, u32), Seq<u8>)> {
    |b: Seq<u8>| spec_dec_edge(b)
}

proof fn lemma_rt_edge(x: (u16, u32), rest: Seq<u8>)
    ensures
        spec_dec_edge(spec_enc_edge(x) + rest) == Some((x, rest)),
{
    assert(spec_enc_edge(x) + rest =~= spec_enc_u16(x.0) + (spec_enc_u32(x.1) + rest));
    lemma_rt_u16(x.0, spec_enc_u32(x.1) + rest);
    lemma_rt_u32(x.1, rest);
}

/// The byte form of one voter entry of a compact solution: the voter index,
/// then the edge list.
pub open spec fn spec_enc_vote(v: (u32, Seq<(u16, u32)>)) -> Seq<u8> {
    spec_enc_u32(v.0) + spec_enc_list(v.1, edge_enc())
}

/// The voter-entry encoder as a function value.
pub open spec fn vote_enc() -> spec_fn((u32, Seq<(u16, u32)>)) -> Seq<u8> {
    |v: (u32, Seq<(u16, u32)>)| spec_enc_vote(v)
}

/// Read one voter entry of a compact solution.
pub open spec fn spec_dec_vote(b: Seq<u8>) -> Option<((u32, Seq<(u16, u32)>), Seq<u8>)> {
    match spec_dec_u32(b) {
        Some((i, r)) => match spec_dec_list(r, edge_dec()) {
            Some((es, r2)) => Some(((i, es), r2)),
            None => None,
        },
        None => None,
    }
}

/// The voter-entry decoder as a function value.
pub open spec fn vote_dec() -> spec_fn(Seq<u8>) -> Option<((u32, Seq<(u16, u32)>), Seq<u8>)> {
    |b: Seq<u8>| spec_dec_vote(b)
}

/// A voter entry whose edge count fits the length prefix.
pub open spec fn spec_vote_wf(v: (u32, Seq<(u16, u32)>)) -> bool {
    v.1.len() <= u32::MAX
}

/// The voter-entry bound as a function value.
pub open spec fn vote_wf() -> spec_fn((u32, Seq<(u16, u32)>)) -> bool {
    |v: (u32, Seq<(u16, u32)>)| spec_vote_wf(v)
}

proof fn lemma_rt_vote(x: (u32, Seq<(u16, u32)>), rest: Seq<u8>)
    requires
        spec_vote_wf(x),
    ensures
        spec_dec_vote(spec_enc_vote(x) + rest) == Some((x, rest)),
{
    let tail = spec_enc_list(x.1, edge_enc()) + rest;
    assert(spec_enc_vote(x) + rest =~= spec_enc_u32(x.0) + tail);
    lemma_rt_u32(x.0, tail);
    assert forall|e: (u16, u32), r: Seq<u8>|
        true ==> #[trigger] edge_dec()(edge_enc()(e) + r) == Some((e, r)) by {
        lemma_rt_edge(e, r);
    }
    lemma_rt_list(x.1, rest, edge_enc(), edge_dec(), |e: (u16, u32)| true);
}

/// The byte form of one backer of a support: the voter, then the stake.
pub open spec fn spec_enc_backer(e: (u64, u128)) -> Seq<u8> {
    spec_enc_u64(e.0) + spec_enc_u128(e.1)
}

/// The backer encoder as a function value.
pub open spec fn backer_enc() -> spec_fn((u64, u128)) -> Seq<u8> {
    |e: (u64, u128)| spec_enc_backer(e)
}

/// Read one backer of a support.
pub open spec fn spec_dec_backer(b: Seq<u8>) -> Option<((u64, u128), Seq<u8>)> {
    match spec_dec_u64(b) {
        Some((w, r)) => match spec_dec_u128(r) {
            Some((s, r2)) => Some(((w, s), r2)),
            None => None,
        },
        None => None,
    }
}

/// The backer decoder as a function value.
pub open spec fn backer_dec() -> spec_fn(Seq<u8>) -> Option<((u64, u128), Seq<u8>)> {
    |b: Seq<u8>| spec_dec_backer(b)
}

proof fn lemma_rt_backer(x: (u64, u128), rest: Seq<u8>)
    ensures
        spec_dec_backer(spec_enc_backer(x) + rest) == Some((x, rest)),
{
    assert(spec_enc_backer(x) + rest =~= spec_enc_u64(x.0) + (spec_enc_u128(x.1) + rest));
    lemma_rt_u64(x.0, spec_enc_u128(x.1) + rest);
    lemma_rt_u128(x.1, rest);
}

/// The byte form of one supports entry: the winner, its total, its backers.
pub open spec fn spec_enc_supentry(e: (u64, (u128, Seq<(u64, u128)>))) -> Seq<u8> {
    spec_enc_u64(e.0) + spec_enc_u128(e.1.0) + spec_enc_list(e.1.1, backer_enc())
}

/// The supports-entry encoder as a function value.
pub open spec fn supentry_enc() -> spec_fn((u64, (u128, Seq<(u64, u128)>))) -> Seq<u8> {
    |e: (u64, (u128, Seq<(u64, u128)>))| spec_enc_supentry(e)
}

/// Read one supports entry.
pub open spec fn spec_dec_supentry(b: Seq<u8>) -> Option<
    ((u64, (u128, Seq<(u64, u128)>)), Seq<u8>),
> {
    match spec_dec_u64(b) {
        Some((w, r)) => match spec_dec_u128(r) {
            Some((t, r2)) => match spec_dec_list(r2, backer_dec()) {
                Some((vs, r3)) => Some(((w, (t, vs)), r3)),
                None => None,
            },
            None => None,
        },
        None => None,
    }
}

/// The supports-entry decoder as a function value.
pub open spec fn supentry_dec() -> spec_fn(Seq<u8>) -> Option<
    ((u64, (u128, Seq<(u64, u128)>)), Seq<u8>),
> {
    |b: Seq<u8>| spec_dec_supentry(b)
}

/// A supports entry whose backer count fits the length prefix.
pub open spec fn spec_supentry_wf(e: (u64, (u128, Seq<(u64, u128)>))) -> bool {
    e.1.1.len() <= u32::MAX
}

/// The supports-entry bound as a function value.
pub open spec fn supentry_wf() -> spec_fn((u64, (u128, Seq<(u64, u128)>))) -> bool {
    |e: (u64, (u128, Seq<(u64, u128)>))| spec_supentry_wf(e)
}

proof fn lemma_rt_supentry(x: (u64, (u128, Seq<(u64, u128)>)), rest: Seq<u8>)
    requires
        spec_supentry_wf(x),
    ensures
        spec_dec_supentry(spec_enc_supentry(x) + rest) == Some((x, rest)),
{
    let t2 = spec_enc_list(x.1.1, backer_enc()) + rest;
    let t1 = spec_enc_u128(x.1.0) + t2;
    assert(spec_enc_supentry(x) + rest =~= spec_enc_u64(x.0) + t1);
    lemma_rt_u64(x.0, t1);
    lemma_rt_u128(x.1.0, t2);
    assert forall|e: (u64, u128), r: Seq<u8>|
        true ==> #[trigger] backer_dec()(backer_enc()(e) + r) == Some((e, r)) by {
        lemma_rt_backer(e, r);
    }
    lemma_rt_list(x.1.1, rest, backer_enc(), backer_dec(), |e: (u64, u128)| true);
}

/// The byte form of an election score: its three components in order of
/// significance.
pub open spec fn spec_enc_score(s: ElectionScore) -> Seq<u8> {
    spec_enc_u128(s.minimal_stake) + spec_enc_u128(s.sum_stake) + spec_enc_u128(s.sum_stake_squared)
}

/// Read an election score.
pub open spec fn spec_dec_score(b: Seq<u8>) -> Option<(ElectionScore, Seq<u8>)> {
    match spec_dec_u128(b) {
        Some((m, r)) => match spec_dec_u128(r) {
            Some((s, r2)) => match spec_dec_u128(r2) {
                Some((q, r3)) => Some(
                    (ElectionScore { minimal_stake: m, sum_stake: s, sum_stake_squared: q }, r3),
                ),
                None => None,
            },
            None => None,
        },
        None => None,
    }
}

proof fn lemma_rt_score(s: ElectionScore, rest: Seq<u8>)
    ensures
        spec_dec_score(spec_enc_score(s) + rest) == Some((s, rest)),
{
    let t2 = spec_enc_u128(s.sum_stake_squared) + rest;
    let t1 = spec_enc_u128(s.sum_stake) + t2;
    assert(spec_enc_score(s) + rest =~= spec_enc_u128(s.minimal_stake) + t1);
    lemma_rt_u128(s.minimal_stake, t1);
    lemma_rt_u128(s.sum_stake, t2);
    lemma_rt_u128(s.sum_stake_squared, rest);
}

/// The byte form of a phase: a tag byte, and for the unsigned phase its
/// openness flag and starting block.
pub open spec fn spec_enc_phase(p: Phase) -> Seq<u8> {
    match p {
        Phase::Off => seq![0u8],
        Phase::Signed => seq![1u8],
        Phase::Unsigned(open, at) => seq![2u8, (if open { 1u8 } else { 0u8 })] + spec_enc_u64(at),
    }
}

/// Read a phase.
pub open spec fn spec_dec_phase(b: Seq<u8>) -> Option<(Phase, Seq<u8>)> {
    if b.len() < 1 {
        None
    } else if b[0] == 0 {
        Some((Phase::Off, b.skip(1)))
    } else if b[0] == 1 {
        Some((Phase::Signed, b.skip(1)))
    } else if b[0] == 2 {
        if b.len() < 2 || (b[1] != 0 && b[1] != 1) {
            None
        } else {
            match spec_dec_u64(b.skip(2)) {
                Some((at, r)) => Some((Phase::Unsigned(b[1] == 1, at), r)),
                None => None,
            }
        }
    } else {
        None
    }
}

proof fn lemma_rt_phase(p: Phase, rest: Seq<u8>)
    ensures
        spec_dec_phase(spec_enc_phase(p) + rest) == Some((p, rest)),
{
    let b = spec_enc_phase(p) + rest;
    match p {
        Phase::Off => {
            assert(b.skip(1) =~= rest);
        },
        Phase::Signed => {
            assert(b.skip(1) =~= rest);
        },
        Phase::Unsigned(open, at) => {
            assert(b.skip(2) =~= spec_enc_u64(at) + rest);
            lemma_rt_u64(at, rest);
        },
    }
}

/// The byte form of a compute tag.
pub open spec fn spec_enc_compute(c: ElectionCompute) -> Seq<u8> {
    match c {
        ElectionCompute::OnChain => seq![0u8],
        ElectionCompute::Signed => seq![1u8],
        ElectionCompute::Unsigned => seq![2u8],
    }
}

/// Read a compute tag.
pub open spec fn spec_dec_compute(b: Seq<u8>) -> Option<(ElectionCompute, Seq<u8>)> {
    if b.len() < 1 {
        None
    } else if b[0] == 0 {
        Some((ElectionCompute::OnChain, b.skip(1)))
    } else if b[0] == 1 {
        Some((ElectionCompute::Signed, b.skip(1)))
    } else if b[0] == 2 {
        Some((ElectionCompute::Unsigned, b.skip(1)))
    } else {
        None
    }
}

proof fn lemma_rt_compute(c: ElectionCompute, rest: Seq<u8>)
    ensures
        spec_dec_compute(spec_enc_compute(c) + rest) == Some((c, rest)),
{
    let b = spec_enc_compute(c) + rest;
    assert(b.skip(1) =~= rest);
}

/// The index-and-ratio content of a compact solution, with edge lists taken
/// as sequences.
pub open spec fn spec_view_compact(c: CompactSolution) -> Seq<(u32, Seq<(u16, u32)>)> {
    c.votes@.map_values(|v: (u32, Vec<(u16, u32)>)| (v.0, v.1@))
}

/// The content of one support, with the backer list taken as a sequence.
pub open spec fn spec_view_support(s: Support) -> (u128, Seq<(u64, u128)>) {
    (s.total, s.voters@)
}

/// The content of a supports vector.
pub open spec fn spec_view_supports(s: Seq<(u64, Support)>) -> Seq<(u64, (u128, Seq<(u64, u128)>))> {
    s.map_values(|e: (u64, Support)| (e.0, spec_view_support(e.1)))
}

/// All list lengths of a compact solution fit their length prefixes.
pub open spec fn spec_compact_wf(c: CompactSolution) -> bool {
    &&& c.votes@.len() <= u32::MAX
    &&& forall|i: int| 0 <= i < c.votes@.len() ==> (#[trigger] c.votes@[i]).1@.len() <= u32::MAX
}

/// All list lengths of a raw solution fit their length prefixes.
pub open spec fn spec_raw_solution_wf(r: RawSolution) -> bool {
    spec_compact_wf(r.compact)
}

/// All list lengths of a ready solution fit their length prefixes.
pub open spec fn spec_ready_solution_wf(r: ReadySolution) -> bool {
    &&& r.supports@.len() <= u32::MAX
    &&& forall|i: int|
        0 <= i < r.supports@.len() ==> (#[trigger] r.supports@[i]).1.voters@.len() <= u32::MAX
}

/// All list lengths of a signed submission fit their length prefixes.
pub open spec fn spec_signed_submission_wf(s: SignedSubmission) -> bool {
    spec_raw_solution_wf(s.solution)
}

/// The byte form of a compact solution.
pub open spec fn spec_enc_compact(c: CompactSolution) -> Seq<u8> {
    spec_enc_list(spec_view_compact(c), vote_enc())
}

/// Read a compact solution's content.
pub open spec fn spec_dec_compact(b: Seq<u8>) -> Option<(Seq<(u32, Seq<(u16, u32)>)>, Seq<u8>)> {
    spec_dec_list(b, vote_dec())
}

proof fn lemma_rt_compact(c: CompactSolution, rest: Seq<u8>)
    requires
        spec_compact_wf(c),
    ensures
        spec_dec_compact(spec_enc_compact(c) + rest) == Some((spec_view_compact(c), rest)),
{
    assert forall|x: (u32, Seq<(u16, u32)>), r: Seq<u8>|
        spec_vote_wf(x) ==> #[trigger] vote_dec()(vote_enc()(x) + r) == Some((x, r)) by {
        if spec_vote_wf(x) {
            lemma_rt_vote(x, r);
        }
    }
    assert forall|i: int|
        0 <= i < spec_view_compact(c).len() implies vote_wf()(
        #[trigger] spec_view_compact(c)[i],
    ) by {
        assert(spec_view_compact(c)[i] == (c.votes@[i].0, c.votes@[i].1@));
    }
    lemma_rt_list(spec_view_compact(c), rest, vote_enc(), vote_dec(), vote_wf());
}

/// The byte form of a raw solution: compact, score, round.
pub open spec fn spec_enc_raw_solution(r: RawSolution) -> Seq<u8> {
    spec_enc_compact(r.compact) + spec_enc_score(r.score) + spec_enc_u32(r.round)
}

/// Read a raw solution's content.
pub open spec fn spec_dec_raw_solution(b: Seq<u8>) -> Option<
    ((Seq<(u32, Seq<(u16, u32)>)>, ElectionScore, u32), Seq<u8>),
> {
    match spec_dec_compact(b) {
        Some((c, r)) => match spec_dec_score(r) {
            Some((s, r2)) => match spec_dec_u32(r2) {
                Some((round, r3)) => Some(((c, s, round), r3)),
                None => None,
            },
            None => None,
        },
        None => None,
    }
}

proof fn lemma_rt_raw_solution(x: RawSolution, rest: Seq<u8>)
    requires
        spec_raw_solution_wf(x),
    ensures
        spec_dec_raw_solution(spec_enc_raw_solution(x) + rest) == Some(
            ((spec_view_compact(x.compact), x.score, x.round), rest),
        ),
{
    let t2 = spec_enc_u32(x.round) + rest;
    let t1 = spec_enc_score(x.score) + t2;
    assert(spec_enc_raw_solution(x) + rest =~= spec_enc_compact(x.compact) + t1);
    lemma_rt_compact(x.compact, t1);
    lemma_rt_score(x.score, t2);
    lemma_rt_u32(x.round, rest);
}

/// The byte form of a ready solution: supports, score, compute tag.
pub open spec fn spec_enc_ready_solution(r: ReadySolution) -> Seq<u8> {
    spec_enc_list(spec_view_supports(r.supports@), supentry_enc()) + spec_enc_score(r.score)
        + spec_enc_compute(r.compute)
}

/// Read a ready solution's content.
pub open spec fn spec_dec_ready_solution(b: Seq<u8>) -> Option<
    ((Seq<(u64, (u128, Seq<(u64, u128)>))>, ElectionScore, ElectionCompute), Seq<u8>),
> {
    match spec_dec_list(b, supentry_dec()) {
        Some((sup, r)) => match spec_dec_score(r) {
            Some((s, r2)) => match spec_dec_compute(r2) {
                Some((c, r3)) => Some(((sup, s, c), r3)),
                None => None,
            },
            None => None,
        },
        None => None,
    }
}

#[verifier::rlimit(60)]
proof fn lemma_rt_ready_solution(x: ReadySolution, rest: Seq<u8>)
    requires
        spec_ready_solution_wf(x),
    ensures
        spec_dec_ready_solution(spec_enc_ready_solution(x) + rest) == Some(
            ((spec_view_supports(x.supports@), x.score, x.compute), rest),
        ),
{
    let t2 = spec_enc_compute(x.compute) + rest;
    let t1 = spec_enc_score(x.score) + t2;
    assert(spec_enc_ready_solution(x) + rest =~= spec_enc_list(
        spec_view_supports(x.supports@),
        supentry_enc(),
    ) + t1);
    assert forall|e: (u64, (u128, Seq<(u64, u128)>)), r: Seq<u8>|
        spec_supentry_wf(e) ==> #[trigger] supentry_dec()(supentry_enc()(e) + r) == Some(
            (e, r),
        ) by {
        if spec_supentry_wf(e) {
            lemma_rt_supentry(e, r);
        }
    }
    assert forall|i: int|
        0 <= i < spec_view_supports(x.supports@).len() implies supentry_wf()(
        #[trigger] spec_view_supports(x.supports@)[i],
    ) by {
        assert(spec_view_supports(x.supports@)[i] == (
            x.supports@[i].0,
            spec_view_support(x.supports@[i].1),
        ));
    }
    lemma_rt_list(
        spec_view_supports(x.supports@),
        t1,
        supentry_enc(),
        supentry_dec(),
        supentry_wf(),
    );
    lemma_rt_score(x.score, t2);
    lemma_rt_compute(x.compute, rest);
}

/// The byte form of a signed submission: submitter, deposit, reward, raw
/// solution.
pub open spec fn spec_enc_signed_submission(s: SignedSubmission) -> Seq<u8> {
    spec_enc_u64(s.who) + spec_enc_u128(s.deposit) + spec_enc_u128(s.reward)
        + spec_enc_raw_solution(s.solution)
}

/// Read a signed submission's content.
pub open spec fn spec_dec_signed_submission(b: Seq<u8>) -> Option<
    ((u64, u128, u128, (Seq<(u32, Seq<(u16, u32)>)>, ElectionScore, u32)), Seq<u8>),
> {
    match spec_dec_u64(b) {
        Some((who, r)) => match spec_dec_u128(r) {
            Some((dep, r2)) => match spec_dec_u128(r2) {
                Some((rew, r3)) => match spec_dec_raw_solution(r3) {
                    Some((sol, r4)) => Some(((who, dep, rew, sol), r4)),
                    None => None,
                },
                None => None,
            },
            None => None,
        },
        None => None,
    }
}

#[verifier::rlimit(60)]
proof fn lemma_rt_signed_submission(x: SignedSubmission, rest: Seq<u8>)
    requires
        spec_signed_submission_wf(x),
    ensures
        spec_dec_signed_submission(spec_enc_signed_submission(x) + rest) == Some(
            (
                (
                    x.who,
                    x.deposit,
                    x.reward,
                    (spec_view_compact(x.solution.compact), x.solution.score, x.solution.round),
                ),
                rest,
            ),
        ),
{
    let t3 = spec_enc_raw_solution(x.solution) + rest;
    let t2 = spec_enc_u128(x.reward) + t3;
    let t1 = spec_enc_u128(x.deposit) + t2;
    assert(spec_enc_signed_submission(x) + rest =~= spec_enc_u64(x.who) + t1);
    lemma_rt_u64(x.who, t1);
    lemma_rt_u128(x.deposit, t2);
    lemma_rt_u128(x.reward, t3);
    lemma_rt_raw_solution(x.solution, rest);
}

/// Read a phase, requiring every byte to be consumed.
pub open spec fn spec_decode_phase(b: Seq<u8>) -> Option<Phase> {
    match spec_dec_phase(b) {
        Some((p, rest)) => if rest.len() == 0 {
            Some(p)
        } else {
            None
        },
        None => None,
    }
}

/// Read a raw solution's content, requiring every byte to be consumed.
pub open spec fn spec_decode_raw_solution(b: Seq<u8>) -> Option<
    (Seq<(u32, Seq<(u16, u32)>)>, ElectionScore, u32),
> {
    match spec_dec_raw_solution(b) {
        Some((v, rest)) => if rest.len() == 0 {
            Some(v)
        } else {
            None
        },
        None => None,
    }
}

/// Read a ready solution's content, requiring every byte to be consumed.
pub open spec fn spec_decode_ready_solution(b: Seq<u8>) -> Option<
    (Seq<(u64, (u128, Seq<(u64, u128)>))>, ElectionScore, ElectionCompute),
> {
    match spec_dec_ready_solution(b) {
        Some((v, rest)) => if rest.len() == 0 {
            Some(v)
        } else {
            None
        },
        None => None,
    }
}

/// Read a signed submission's content, requiring every byte to be consumed.
pub open spec fn spec_decode_signed_submission(b: Seq<u8>) -> Option<
    (u64, u128, u128, (Seq<(u32, Seq<(u16, u32)>)>, ElectionScore, u32)),
> {
    match spec_dec_signed_submission(b) {
        Some((v, rest)) => if rest.len() == 0 {
            Some(v)
        } else {
            None
        },
        None => None,
    }
}

/// Decoding the encoding of a phase gives the phase back.
pub proof fn lemma_phase_codec_identity(p: Phase)
    ensures
        spec_decode_phase(spec_enc_phase(p)) == Some(p),
{
    assert(spec_enc_phase(p) + Seq::<u8>::empty() =~= spec_enc_phase(p));
    lemma_rt_phase(p, Seq::<u8>::empty());
}

/// Decoding the encoding of a raw solution gives its content back.
pub proof fn lemma_raw_solution_codec_identity(x: RawSolution)
    requires
        spec_raw_solution_wf(x),
    ensures
        spec_decode_raw_solution(spec_enc_raw_solution(x)) == Some(
            (spec_view_compact(x.compact), x.score, x.round),
        ),
{
    assert(spec_enc_raw_solution(x) + Seq::<u8>::empty() =~= spec_enc_raw_solution(x));
    lemma_rt_raw_solution(x, Seq::<u8>::empty());
}

/// Decoding the encoding of a ready solution gives its content back.
pub proof fn lemma_ready_solution_codec_identity(x: ReadySolution)
    requires
        spec_ready_solution_wf(x),
    ensures
        spec_decode_ready_solution(spec_enc_ready_solution(x)) == Some(
            (spec_view_supports(x.supports@), x.score, x.compute),
        ),
{
    assert(spec_enc_ready_solution(x) + Seq::<u8>::empty() =~= spec_enc_ready_solution(x));
    lemma_rt_ready_solution(x, Seq::<u8>::empty());
}

/// Decoding the encoding of a signed submission gives its content back.
pub proof fn lemma_signed_submission_codec_identity(x: SignedSubmission)
    requires
        spec_signed_submission_wf(x),
    ensures
        spec_decode_signed_submission(spec_enc_signed_submission(x)) == Some(
            (
                x.who,
                x.deposit,
                x.reward,
                (spec_view_compact(x.solution.compact), x.solution.score, x.solution.round),
            ),
        ),
{
    assert(spec_enc_signed_submission(x) + Seq::<u8>::empty() =~= spec_enc_signed_submission(x));
    lemma_rt_signed_submission(x, Seq::<u8>::empty());
}

/// Write one edge list, length first.
fn enc_edges(edges: &Vec<(u16, u32)>) -> (r: Vec<u8>)
    requires
        edges@.len() <= u32::MAX,
    ensures
        r@ == spec_enc_list(edges@, edge_enc()),
{
    let mut out: Vec<u8> = Vec::new();
    enc_u32(edges.len() as u32, &mut out);
    let mut i: usize = 0;
    while i < edges.len()
        invariant
            i <= edges@.len(),
            edges@.len() <= u32::MAX,
            out@ == spec_enc_u32(edges@.len() as u32) + spec_enc_elems(
                edges@.take(i as int),
                edge_enc(),
            ),
        decreases edges@.len() - i,
    {
        let (t, w) = edges[i];
        enc_u16(t, &mut out);
        enc_u32(w, &mut out);
        proof {
            assert(edges@.take(i + 1).drop_last() =~= edges@.take(i as int));
            assert(edges@.take(i + 1).last() == edges@[i as int]);
            assert(out@ =~= spec_enc_u32(edges@.len() as u32) + spec_enc_elems(
                edges@.take(i + 1),
                edge_enc(),
            ));
        }
        i = i + 1;
    }
    proof {
        assert(edges@.take(edges@.len() as int) =~= edges@);
    }
    out
}

/// Write a compact solution.
fn enc_compact(c: &CompactSolution) -> (r: Vec<u8>)
    requires
        spec_compact_wf(*c),
    ensures
        r@ == spec_enc_compact(*c),
{
    let ghost m = spec_view_compact(*c);
    let mut out: Vec<u8> = Vec::new();
    enc_u32(c.votes.len() as u32, &mut out);
    let mut i: usize = 0;
    while i < c.votes.len()
        invariant
            i <= c.votes@.len(),
            spec_compact_wf(*c),
            m == spec_view_compact(*c),
            out@ == spec_enc_u32(m.len() as u32) + spec_enc_elems(m.take(i as int), vote_enc()),
        decreases c.votes@.len() - i,
    {
        let (vidx, edges) = &c.votes[i];
        enc_u32(*vidx, &mut out);
        let mut part = enc_edges(edges);
        out.append(&mut part);
        proof {
            assert(m[i as int] == (c.votes@[i as int].0, c.votes@[i as int].1@));
            assert(m.take(i + 1).drop_last() =~= m.take(i as int));
            assert(m.take(i + 1).last() == m[i as int]);
            assert(out@ =~= spec_enc_u32(m.len() as u32) + spec_enc_elems(
                m.take(i + 1),
                vote_enc(),
            ));
        }
        i = i + 1;
    }
    proof {
        assert(m.take(m.len() as int) =~= m);
    }
    out
}

/// Write an election score.
fn enc_score(s: ElectionScore, out: &mut Vec<u8>)
    ensures
        final(out)@ == old(out)@ + spec_enc_score(s),
{
    enc_u128(s.minimal_stake, out);
    enc_u128(s.sum_stake, out);
    enc_u128(s.sum_stake_squared, out);
    proof {
        assert(final(out)@ =~= old(out)@ + spec_enc_score(s));
    }
}

/// The byte encoding of a raw solution.
pub fn encode_raw_solution(s: &RawSolution) -> (r: Vec<u8>)
    requires
        spec_raw_solution_wf(*s),
    ensures
        r@ == spec_enc_raw_solution(*s),
{
    let mut out = enc_compact(&s.compact);
    enc_score(s.score, &mut out);
    enc_u32(s.round, &mut out);
    proof {
        assert(out@ =~= spec_enc_raw_solution(*s));
    }
    out
}

/// The byte encoding of a phase.
pub fn encode_phase(p: &Phase) -> (r: Vec<u8>)
    ensures
        r@ == spec_enc_phase(*p),
{
    let mut out: Vec<u8> = Vec::new();
    match p {
        Phase::Off => {
            out.push(0u8);
        },
        Phase::Signed => {
            out.push(1u8);
        },
        Phase::Unsigned(open, at) => {
            out.push(2u8);
            if *open {
                out.push(1u8);
            } else {
                out.push(0u8);
            }
            enc_u64(*at, &mut out);
        },
    }
    proof {
        assert(out@ =~= spec_enc_phase(*p));
    }
    out
}

/// Write one backer list, length first.
fn enc_backers(backers: &Vec<(u64, u128)>) -> (r: Vec<u8>)
    requires
        backers@.len() <= u32::MAX,
    ensures
        r@ == spec_enc_list(backers@, backer_enc()),
{
    let mut out: Vec<u8> = Vec::new();
    enc_u32(backers.len() as u32, &mut out);
    let mut i: usize = 0;
    while i < backers.len()
        invariant
            i <= backers@.len(),
            backers@.len() <= u32::MAX,
            out@ == spec_enc_u32(backers@.len() as u32) + spec_enc_elems(
                backers@.take(i as int),
                backer_enc(),
            ),
        decreases backers@.len() - i,
    {
        let (w, st) = backers[i];
        enc_u64(w, &mut out);
        enc_u128(st, &mut out);
        proof {
            assert(backers@.take(i + 1).drop_last() =~= backers@.take(i as int));
            assert(backers@.take(i + 1).last() == backers@[i as int]);
            assert(out@ =~= spec_enc_u32(backers@.len() as u32) + spec_enc_elems(
                backers@.take(i + 1),
                backer_enc(),
            ));
        }
        i = i + 1;
    }
    proof {
        assert(backers@.take(backers@.len() as int) =~= backers@);
    }
    out
}

/// The byte encoding of a ready solution.
pub fn encode_ready_solution(s: &ReadySolution) -> (r: Vec<u8>)
    requires
        spec_ready_solution_wf(*s),
    ensures
        r@ == spec_enc_ready_solution(*s),
{
    let ghost m = spec_view_supports(s.supports@);
    let mut out: Vec<u8> = Vec::new();
    enc_u32(s.supports.len() as u32, &mut out);
    let mut i: usize = 0;
    while i < s.supports.len()
        invariant
            i <= s.supports@.len(),
            spec_ready_solution_wf(*s),
            m == spec_view_supports(s.supports@),
            out@ == spec_enc_u32(m.len() as u32) + spec_enc_elems(
                m.take(i as int),
                supentry_enc(),
            ),
        decreases s.supports@.len() - i,
    {
        let (w, sup) = &s.supports[i];
        enc_u64(*w, &mut out);
        enc_u128(sup.total, &mut out);
        let mut part = enc_backers(&sup.voters);
        out.append(&mut part);
        proof {
            assert(m[i as int] == (s.supports@[i as int].0, spec_view_support(
                s.supports@[i as int].1,
            )));
            assert(m.take(i + 1).drop_last() =~= m.take(i as int));
            assert(m.take(i + 1).last() == m[i as int]);
            assert(out@ =~= spec_enc_u32(m.len() as u32) + spec_enc_elems(
                m.take(i + 1),
                supentry_enc(),
            ));
        }
        i = i + 1;
    }
    proof {
        assert(m.take(m.len() as int) =~= m);
    }
    enc_score(s.score, &mut out);
    match s.compute {
        ElectionCompute::OnChain => {
            out.push(0u8);
        },
        ElectionCompute::Signed => {
            out.push(1u8);
        },
        ElectionCompute::Unsigned => {
            out.push(2u8);
        },
    }
    proof {
        assert(out@ =~= spec_enc_ready_solution(*s));
    }
    out
}

/// The byte encoding of a signed submission.
pub fn encode_signed_submission(s: &SignedSubmission) -> (r: Vec<u8>)
    requires
        spec_signed_submission_wf(*s),
    ensures
        r@ == spec_enc_signed_submission(*s),
{
    let mut out: Vec<u8> = Vec::new();
    enc_u64(s.who, &mut out);
    enc_u128(s.deposit, &mut out);
    enc_u128(s.reward, &mut out);
    let mut part = encode_raw_solution(&s.solution);
    out.append(&mut part);
    proof {
        assert(out@ =~= spec_enc_signed_submission(*s));
    }
    out
}

/// Read one edge list at `pos`.
#[verifier::loop_isolation(false)]
fn dec_edges(bytes: &Vec<u8>, pos: usize) -> (r: Option<(Vec<(u16, u32)>, usize)>)
    requires
        pos <= bytes@.len(),
    ensures
        match r {
            Some((v, p2)) => pos <= p2 <= bytes@.len() && spec_dec_list(
                bytes@.skip(pos as int),
                edge_dec(),
            ) == Some((v@, bytes@.skip(p2 as int))),
            None => spec_dec_list(bytes@.skip(pos as int), edge_dec()) is None,
        },
{
    let (n, mut p) = match dec_u32(bytes, pos) {
        Some(x) => x,
        None => {
            return None;
        },
    };
    let ghost f = edge_dec();
    let ghost start = p;
    let mut acc: Vec<(u16, u32)> = Vec::new();
    let mut k: u32 = 0;
    while k < n
        invariant
            k <= n,
            pos <= p <= bytes@.len(),
            f == edge_dec(),
            spec_dec_elems(bytes@.skip(start as int), f, n as nat) == (match spec_dec_elems(
                bytes@.skip(p as int),
                f,
                (n - k) as nat,
            ) {
                Some((vs, r)) => Some((acc@ + vs, r)),
                None => None::<(Seq<(u16, u32)>, Seq<u8>)>,
            }),
        decreases n - k,
    {
        let (t, p1) = match dec_u16(bytes, p) {
            Some(x) => x,
            None => {
                proof {
                    assert(f(bytes@.skip(p as int)) is None);
                    assert(spec_dec_elems(bytes@.skip(p as int), f, (n - k) as nat) is None);
                }
                return None;
            },
        };
        let (w, p2) = match dec_u32(bytes, p1) {
            Some(x) => x,
            None => {
                proof {
                    assert(f(bytes@.skip(p as int)) is None);
                    assert(spec_dec_elems(bytes@.skip(p as int), f, (n - k) as nat) is None);
                }
                return None;
            },
        };
        proof {
            assert(f(bytes@.skip(p as int)) == Some(((t, w), bytes@.skip(p2 as int))));
            let inner = spec_dec_elems(bytes@.skip(p2 as int), f, (n - k - 1) as nat);
            match inner {
                Some(pr) => {
                    assert(acc@ + (seq![(t, w)] + pr.0) =~= (acc@ + seq![(t, w)]) + pr.0);
                    assert(acc@.push((t, w)) =~= acc@ + seq![(t, w)]);
                },
                None => {},
            }
        }
        acc.push((t, w));
        p = p2;
        k = k + 1;
    }
    proof {
        assert(spec_dec_elems(bytes@.skip(p as int), f, 0nat) == Some(
            (Seq::<(u16, u32)>::empty(), bytes@.skip(p as int)),
        ));
        assert(acc@ + Seq::<(u16, u32)>::empty() =~= acc@);
        assert(spec_dec_elems(bytes@.skip(start as int), f, n as nat) == Some(
            (acc@, bytes@.skip(p as int)),
        ));
    }
    Some((acc, p))
}

/// Read a compact solution's vote list at `pos`.
#[verifier::loop_isolation(false)]
fn dec_votes(bytes: &Vec<u8>, pos: usize) -> (r: Option<(Vec<(u32, Vec<(u16, u32)>)>, usize)>)
    requires
        pos <= bytes@.len(),
    ensures
        match r {
            Some((v, p2)) => pos <= p2 <= bytes@.len() && spec_dec_list(
                bytes@.skip(pos as int),
                vote_dec(),
            ) == Some(
                (
                    v@.map_values(|e: (u32, Vec<(u16, u32)>)| (e.0, e.1@)),
                    bytes@.skip(p2 as int),
                ),
            ),
            None => spec_dec_list(bytes@.skip(pos as int), vote_dec()) is None,
        },
{
    let (n, mut p) = match dec_u32(bytes, pos) {
        Some(x) => x,
        None => {
            return None;
        },
    };
    let ghost f = vote_dec();
    let ghost view_fn = |e: (u32, Vec<(u16, u32)>)| (e.0, e.1@);
    let ghost start = p;
    let mut acc: Vec<(u32, Vec<(u16, u32)>)> = Vec::new();
    let mut k: u32 = 0;
    while k < n
        invariant
            k <= n,
            pos <= p <= bytes@.len(),
            f == vote_dec(),
            view_fn == (|e: (u32, Vec<(u16, u32)>)| (e.0, e.1@)),
            spec_dec_elems(bytes@.skip(start as int), f, n as nat) == (match spec_dec_elems(
                bytes@.skip(p as int),
                f,
                (n - k) as nat,
            ) {
                Some((vs, r)) => Some((acc@.map_values(view_fn) + vs, r)),
                None => None::<(Seq<(u32, Seq<(u16, u32)>)>, Seq<u8>)>,
            }),
        decreases n - k,
    {
        let (vidx, p1) = match dec_u32(bytes, p) {
            Some(x) => x,
            None => {
                proof {
                    assert(f(bytes@.skip(p as int)) is None);
                    assert(spec_dec_elems(bytes@.skip(p as int), f, (n - k) as nat) is None);
                }
                return None;
            },
        };
        let (edges, p2) = match dec_edges(bytes, p1) {
            Some(x) => x,
            None => {
                proof {
                    assert(f(bytes@.skip(p as int)) is None);
                    assert(spec_dec_elems(bytes@.skip(p as int), f, (n - k) as nat) is None);
                }
                return None;
            },
        };
        proof {
            assert(f(bytes@.skip(p as int)) == Some(
                ((vidx, edges@), bytes@.skip(p2 as int)),
            ));
            let inner = spec_dec_elems(bytes@.skip(p2 as int), f, (n - k - 1) as nat);
            match inner {
                Some(pr) => {
                    assert(acc@.map_values(view_fn) + (seq![(vidx, edges@)] + pr.0) =~= (
                    acc@.map_values(view_fn) + seq![(vidx, edges@)]) + pr.0);
                },
                None => {},
            }
        }
        let ghost old_acc = acc@;
        acc.push((vidx, edges));
        proof {
            assert(acc@.map_values(view_fn) =~= old_acc.map_values(view_fn) + seq![
                (vidx, edges@),
            ]);
        }
        p = p2;
        k = k + 1;
    }
    proof {
        assert(spec_dec_elems(bytes@.skip(p as int), f, 0nat) == Some(
            (Seq::<(u32, Seq<(u16, u32)>)>::empty(), bytes@.skip(p as int)),
        ));
        assert(acc@.map_values(view_fn) + Seq::<(u32, Seq<(u16, u32)>)>::empty()
            =~= acc@.map_values(view_fn));
        assert(spec_dec_elems(bytes@.skip(start as int), f, n as nat) == Some(
            (acc@.map_values(view_fn), bytes@.skip(p as int)),
        ));
    }
    Some((acc, p))
}

/// Read an election score at `pos`.
fn dec_score(bytes: &Vec<u8>, pos: usize) -> (r: Option<(ElectionScore, usize)>)
    requires
        pos <= bytes@.len(),
    ensures
        match r {
            Some((v, p2)) => pos <= p2 <= bytes@.len() && spec_dec_score(bytes@.skip(pos as int))
                == Some((v, bytes@.skip(p2 as int))),
            None => spec_dec_score(bytes@.skip(pos as int)) is None,
        },
{
    let (m, p1) = match dec_u128(bytes, pos) {
        Some(x) => x,
        None => {
            return None;
        },
    };
    let (s, p2) = match dec_u128(bytes, p1) {
        Some(x) => x,
        None => {
            return None;
        },
    };
    let (q, p3) = match dec_u128(bytes, p2) {
        Some(x) => x,
        None => {
            return None;
        },
    };
    Some((ElectionScore { minimal_stake: m, sum_stake: s, sum_stake_squared: q }, p3))
}

/// Decode a raw solution, requiring every byte to be consumed.
pub fn decode_raw_solution(bytes: &Vec<u8>) -> (r: Option<RawSolution>)
    ensures
        match r {
            Some(v) => spec_decode_raw_solution(bytes@) == Some(
                (spec_view_compact(v.compact), v.score, v.round),
            ),
            None => spec_decode_raw_solution(bytes@) is None,
        },
{
    proof {
        assert(bytes@.skip(0) =~= bytes@);
    }
    let (votes, p1) = match dec_votes(bytes, 0) {
        Some(x) => x,
        None => {
            return None;
        },
    };
    let (score, p2) = match dec_score(bytes, p1) {
        Some(x) => x,
        None => {
            return None;
        },
    };
    let (round, p3) = match dec_u32(bytes, p2) {
        Some(x) => x,
        None => {
            return None;
        },
    };
    if p3 != bytes.len() {
        proof {
            assert(bytes@.skip(p3 as int).len() != 0);
        }
        return None;
    }
    Some(RawSolution { compact: CompactSolution { votes }, score, round })
}

/// Decode a phase, requiring every byte to be consumed.
pub fn decode_phase(bytes: &Vec<u8>) -> (r: Option<Phase>)
    ensures
        match r {
            Some(v) => spec_decode_phase(bytes@) == Some(v),
            None => spec_decode_phase(bytes@) is None,
        },
{
    if bytes.len() < 1 {
        return None;
    }
    let tag = bytes[0];
    if tag == 0 {
        if bytes.len() == 1 {
            Some(Phase::Off)
        } else {
            None
        }
    } else if tag == 1 {
        if bytes.len() == 1 {
            Some(Phase::Signed)
        } else {
            None
        }
    } else if tag == 2 {
        if bytes.len() < 2 {
            return None;
        }
        let flag = bytes[1];
        if flag != 0 && flag != 1 {
            return None;
        }
        let (at, p) = match dec_u64(bytes, 2) {
            Some(x) => x,
            None => {
                proof {
                    assert(bytes@.skip(2) =~= bytes@.skip(2int));
                }
                return None;
            },
        };
        if p != bytes.len() {
            return None;
        }
        Some(Phase::Unsigned(flag == 1, at))
    } else {
        None
    }
}

/// Read one backer list at `pos`.
#[verifier::loop_isolation(false)]
fn dec_backers(bytes: &Vec<u8>, pos: usize) -> (r: Option<(Vec<(u64, u128)>, usize)>)
    requires
        pos <= bytes@.len(),
    ensures
        match r {
            Some((v, p2)) => pos <= p2 <= bytes@.len() && spec_dec_list(
                bytes@.skip(pos as int),
                backer_dec(),
            ) == Some((v@, bytes@.skip(p2 as int))),
            None => spec_dec_list(bytes@.skip(pos as int), backer_dec()) is None,
        },
{
    let (n, mut p) = match dec_u32(bytes, pos) {
        Some(x) => x,
        None => {
            return None;
        },
    };
    let ghost f = backer_dec();
    let ghost start = p;
    let mut acc: Vec<(u64, u128)> = Vec::new();
    let mut k: u32 = 0;
    while k < n
        invariant
            k <= n,
            pos <= p <= bytes@.len(),
            f == backer_dec(),
            spec_dec_elems(bytes@.skip(start as int), f, n as nat) == (match spec_dec_elems(
                bytes@.skip(p as int),
                f,
                (n - k) as nat,
            ) {
                Some((vs, r)) => Some((acc@ + vs, r)),
                None => None::<(Seq<(u64, u128)>, Seq<u8>)>,
            }),
        decreases n - k,
    {
        let (w, p1) = match dec_u64(bytes, p) {
            Some(x) => x,
            None => {
                proof {
                    assert(f(bytes@.skip(p as int)) is None);
                    assert(spec_dec_elems(bytes@.skip(p as int), f, (n - k) as nat) is None);
                }
                return None;
            },
        };
        let (st, p2) = match dec_u128(bytes, p1) {
            Some(x) => x,
            None => {
                proof {
                    assert(f(bytes@.skip(p as int)) is None);
                    assert(spec_dec_elems(bytes@.skip(p as int), f, (n - k) as nat) is None);
                }
                return None;
            },
        };
        proof {
            assert(f(bytes@.skip(p as int)) == Some(((w, st), bytes@.skip(p2 as int))));
            let inner = spec_dec_elems(bytes@.skip(p2 as int), f, (n - k - 1) as nat);
            match inner {
                Some(pr) => {
                    assert(acc@ + (seq![(w, st)] + pr.0) =~= (acc@ + seq![(w, st)]) + pr.0);
                    assert(acc@.push((w, st)) =~= acc@ + seq![(w, st)]);
                },
                None => {},
            }
        }
        acc.push((w, st));
        p = p2;
        k = k + 1;
    }
    proof {
        assert(spec_dec_elems(bytes@.skip(p as int), f, 0nat) == Some(
            (Seq::<(u64, u128)>::empty(), bytes@.skip(p as int)),
        ));
        assert(acc@ + Seq::<(u64, u128)>::empty() =~= acc@);
        assert(spec_dec_elems(bytes@.skip(start as int), f, n as nat) == Some(
            (acc@, bytes@.skip(p as int)),
        ));
    }
    Some((acc, p))
}

/// Read a supports list at `pos`.
#[verifier::loop_isolation(false)]
fn dec_supports(bytes: &Vec<u8>, pos: usize) -> (r: Option<(Vec<(u64, Support)>, usize)>)
    requires
        pos <= bytes@.len(),
    ensures
        match r {
            Some((v, p2)) => pos <= p2 <= bytes@.len() && spec_dec_list(
                bytes@.skip(pos as int),
                supentry_dec(),
            ) == Some((spec_view_supports(v@), bytes@.skip(p2 as int))),
            None => spec_dec_list(bytes@.skip(pos as int), supentry_dec()) is None,
        },
{
    let (n, mut p) = match dec_u32(bytes, pos) {
        Some(x) => x,
        None => {
            return None;
        },
    };
    let ghost f = supentry_dec();
    let ghost start = p;
    let mut acc: Vec<(u64, Support)> = Vec::new();
    let mut k: u32 = 0;
    while k < n
        invariant
            k <= n,
            pos <= p <= bytes@.len(),
            f == supentry_dec(),
            spec_dec_elems(bytes@.skip(start as int), f, n as nat) == (match spec_dec_elems(
                bytes@.skip(p as int),
                f,
                (n - k) as nat,
            ) {
                Some((vs, r)) => Some((spec_view_supports(acc@) + vs, r)),
                None => None::<(Seq<(u64, (u128, Seq<(u64, u128)>))>, Seq<u8>)>,
            }),
        decreases n - k,
    {
        let (w, p1) = match dec_u64(bytes, p) {
            Some(x) => x,
            None => {
                proof {
                    assert(f(bytes@.skip(p as int)) is None);
                    assert(spec_dec_elems(bytes@.skip(p as int), f, (n - k) as nat) is None);
                }
                return None;
            },
        };
        let (total, p2) = match dec_u128(bytes, p1) {
            Some(x) => x,
            None => {
                proof {
                    assert(f(bytes@.skip(p as int)) is None);
                    assert(spec_dec_elems(bytes@.skip(p as int), f, (n - k) as nat) is None);
                }
                return None;
            },
        };
        let (voters, p3) = match dec_backers(bytes, p2) {
            Some(x) => x,
            None => {
                proof {
                    assert(f(bytes@.skip(p as int)) is None);
                    assert(spec_dec_elems(bytes@.skip(p as int), f, (n - k) as nat) is None);
                }
                return None;
            },
        };
        let entry = Support { total, voters };
        proof {
            assert(f(bytes@.skip(p as int)) == Some(
                ((w, (total, entry.voters@)), bytes@.skip(p3 as int)),
            ));
            let inner = spec_dec_elems(bytes@.skip(p3 as int), f, (n - k - 1) as nat);
            match inner {
                Some(pr) => {
                    assert(spec_view_supports(acc@) + (seq![(w, (total, entry.voters@))] + pr.0)
                        =~= (spec_view_supports(acc@) + seq![(w, (total, entry.voters@))]) + pr.0);
                },
                None => {},
            }
        }
        let ghost old_acc = acc@;
        acc.push((w, entry));
        proof {
            assert(spec_view_supports(acc@) =~= spec_view_supports(old_acc) + seq![
                (w, (total, acc@.last().1.voters@)),
            ]);
        }
        p = p3;
        k = k + 1;
    }
    proof {
        assert(spec_dec_elems(bytes@.skip(p as int), f, 0nat) == Some(
            (Seq::<(u64, (u128, Seq<(u64, u128)>))>::empty(), bytes@.skip(p as int)),
        ));
        assert(spec_view_supports(acc@) + Seq::<(u64, (u128, Seq<(u64, u128)>))>::empty()
            =~= spec_view_supports(acc@));
        assert(spec_dec_elems(bytes@.skip(start as int), f, n as nat) == Some(
            (spec_view_supports(acc@), bytes@.skip(p as int)),
        ));
    }
    Some((acc, p))
}

/// Decode a ready solution, requiring every byte to be consumed.
pub fn decode_ready_solution(bytes: &Vec<u8>) -> (r: Option<ReadySolution>)
    ensures
        match r {
            Some(v) => spec_decode_ready_solution(bytes@) == Some(
                (spec_view_supports(v.supports@), v.score, v.compute),
            ),
            None => spec_decode_ready_solution(bytes@) is None,
        },
{
    proof {
        assert(bytes@.skip(0) =~= bytes@);
    }
    let (supports, p1) = match dec_supports(bytes, 0) {
        Some(x) => x,
        None => {
            return None;
        },
    };
    let (score, p2) = match dec_score(bytes, p1) {
        Some(x) => x,
        None => {
            return None;
        },
    };
    if p2 >= bytes.len() {
        return None;
    }
    let tag = bytes[p2];
    let compute = if tag == 0 {
        ElectionCompute::OnChain
    } else if tag == 1 {
        ElectionCompute::Signed
    } else if tag == 2 {
        ElectionCompute::Unsigned
    } else {
        return None;
    };
    if p2 + 1 != bytes.len() {
        proof {
            assert(bytes@.skip(p2 as int).skip(1) =~= bytes@.skip(p2 + 1));
        }
        return None;
    }
    proof {
        assert(bytes@.skip(p2 as int).skip(1) =~= bytes@.skip(p2 + 1));
    }
    Some(ReadySolution { supports, score, compute })
}

/// Decode a signed submission, requiring every byte to be consumed.
pub fn decode_signed_submission(bytes: &Vec<u8>) -> (r: Option<SignedSubmission>)
    ensures
        match r {
            Some(v) => spec_decode_signed_submission(bytes@) == Some(
                (
                    v.who,
                    v.deposit,
                    v.reward,
                    (spec_view_compact(v.solution.compact), v.solution.score, v.solution.round),
                ),
            ),
            None => spec_decode_signed_submission(bytes@) is None,
        },
{
    proof {
        assert(bytes@.skip(0) =~= bytes@);
    }
    let (who, p1) = match dec_u64(bytes, 0) {
        Some(x) => x,
        None => {
            return None;
        },
    };
    let (deposit, p2) = match dec_u128(bytes, p1) {
        Some(x) => x,
        None => {
            return None;
        },
    };
    let (reward, p3) = match dec_u128(bytes, p2) {
        Some(x) => x,
        None => {
            return None;
        },
    };
    let (votes, p4) = match dec_votes(bytes, p3) {
        Some(x) => x,
        None => {
            return None;
        },
    };
    let (score, p5) = match dec_score(bytes, p4) {
        Some(x) => x,
        None => {
            return None;
        },
    };
    let (round, p6) = match dec_u32(bytes, p5) {
        Some(x) => x,
        None => {
            return None;
        },
    };
    if p6 != bytes.len() {
        proof {
            assert(bytes@.skip(p6 as int).len() != 0);
        }
        return None;
    }
    Some(
        SignedSubmission {
            who,
            deposit,
            reward,
            solution: RawSolution { compact: CompactSolution { votes }, score, round },
        },
    )
}

} // verus!
