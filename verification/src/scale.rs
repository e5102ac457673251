//! The wire format of a ring, and the codec calls that read and write it.
//!
//! A ring travels as a compact length prefix followed by its members, 33 bytes
//! each. The spec functions of this module state that format; the functions
//! marked `external_body` call the codec and are believed to follow it.

use bounded_collections::{BoundedVec, ConstU32};
use parity_scale_codec::{Decode, Encode};
use vstd::prelude::*;

verus! {

/// `bounded_collections::BoundedVec`, the vector that a ring is kept in. What it
/// holds is known through `members_of` alone.
#[verifier::external_type_specification]
#[verifier::external_body]
#[verifier::reject_recursive_types(T)]
#[verifier::reject_recursive_types(S)]
pub struct ExBoundedVec<T, S>(bounded_collections::BoundedVec<T, S>);

/// `bounded_collections::ConstU32`, the bound of such a vector as a type.
#[verifier::external_type_specification]
#[verifier::external_body]
pub struct ExConstU32<const T: u32>(bounded_collections::ConstU32<T>);

/// `parity_scale_codec::Error`, which says no more than that decoding failed.
#[verifier::external_type_specification]
#[verifier::external_body]
pub struct ExCodecError(parity_scale_codec::Error);

/// The largest number of members that a ring can hold.
pub const MAX_MEMBERS: usize = 4294967295;

/// The number that four bytes hold, least significant byte first.
pub open spec fn le_u32(b0: u8, b1: u8, b2: u8, b3: u8) -> int {
    b0 + 256 * b1 + 65536 * b2 + 16777216 * b3
}

/// The four bytes of a number below 2^32, least significant byte first.
pub open spec fn le_bytes(v: int) -> Seq<u8> {
    seq![
        (v % 256) as u8,
        (v / 256 % 256) as u8,
        (v / 65536 % 256) as u8,
        (v / 16777216 % 256) as u8,
    ]
}

/// The compact encoding of a length: one, two, four or five bytes, the two low
/// bits of the first byte telling which.
pub open spec fn compact_u32(n: int) -> Seq<u8> {
    if n <= 0x3f {
        seq![(4 * n) as u8]
    } else if n <= 0x3fff {
        seq![((4 * n + 1) % 256) as u8, ((4 * n + 1) / 256) as u8]
    } else if n <= 0x3fff_ffff {
        le_bytes(4 * n + 2)
    } else {
        seq![3u8] + le_bytes(n)
    }
}

/// The length that the front of `b` encodes and the number of bytes that the
/// encoding takes, or `None` where `b` does not start with the shortest
/// encoding of a length below 2^32.
pub open spec fn compact_prefix(b: Seq<u8>) -> Option<(int, int)> {
    if b.len() < 1 {
        None
    } else if b[0] % 4 == 0 {
        Some(((b[0] / 4) as int, 1))
    } else if b[0] % 4 == 1 {
        if b.len() >= 2 && (b[0] + 256 * b[1]) / 4 > 0x3f {
            Some(((b[0] + 256 * b[1]) / 4, 2))
        } else {
            None
        }
    } else if b[0] % 4 == 2 {
        if b.len() >= 4 && le_u32(b[0], b[1], b[2], b[3]) / 4 > 0x3fff {
            Some((le_u32(b[0], b[1], b[2], b[3]) / 4, 4))
        } else {
            None
        }
    } else {
        if b[0] == 3 && b.len() >= 5 && le_u32(b[1], b[2], b[3], b[4]) > 0x3fff_ffff {
            Some((le_u32(b[1], b[2], b[3], b[4]), 5))
        } else {
            None
        }
    }
}

/// The bytes of the members of `ring`, one member after the other.
pub open spec fn members_payload(ring: Seq<[u8; 33]>) -> Seq<u8> {
    Seq::new(33 * ring.len(), |j: int| ring[j / 33][j % 33])
}

/// The encoding of a ring: the compact encoding of its length, then its members.
pub open spec fn members_encoding(ring: Seq<[u8; 33]>) -> Seq<u8> {
    compact_u32(ring.len() as int) + members_payload(ring)
}

/// The number of members that the front of `b` announces and the place where
/// the first of them starts, where `b` is long enough to hold them all.
pub open spec fn members_prefix(b: Seq<u8>) -> Option<(int, int)> {
    match compact_prefix(b) {
        Some((n, k)) => if b.len() >= k + 33 * n {
            Some((n, k))
        } else {
            None
        },
        None => None,
    }
}

/// Whether `ring` is what the front of `b` holds.
pub open spec fn members_read(b: Seq<u8>, ring: Seq<[u8; 33]>) -> bool {
    match members_prefix(b) {
        Some((n, k)) => ring.len() == n && forall|i: int, j: int|
            0 <= i < n && 0 <= j < 33 ==> (#[trigger] ring[i][j]) == b[k + 33 * i + j],
        None => false,
    }
}

/// The four bytes of `v` hold `v`.
pub proof fn lemma_le_bytes_hold(v: int)
    requires
        0 <= v < 0x1_0000_0000,
    ensures
        le_bytes(v).len() == 4,
        le_u32(le_bytes(v)[0], le_bytes(v)[1], le_bytes(v)[2], le_bytes(v)[3]) == v,
        le_bytes(v)[0] == v % 256,
{
    let q1 = v / 256;
    let q2 = q1 / 256;
    let q3 = q2 / 256;
    assert(v / 65536 == q2);
    assert(v / 16777216 == q3);
    assert(q3 < 256);
}

/// Four bytes are the bytes of the number they hold.
pub proof fn lemma_le_u32_bytes(b0: u8, b1: u8, b2: u8, b3: u8)
    ensures
        0 <= le_u32(b0, b1, b2, b3) < 0x1_0000_0000,
        le_bytes(le_u32(b0, b1, b2, b3)) == seq![b0, b1, b2, b3],
{
    let v = le_u32(b0, b1, b2, b3);
    let q1 = b1 + 256 * b2 + 65536 * b3;
    let q2 = b2 + 256 * b3;
    assert(v == b0 + 256 * q1);
    assert(v / 256 == q1);
    assert(q1 == b1 + 256 * q2);
    assert(q1 / 256 == q2);
    assert(v / 65536 == q2);
    assert(q2 / 256 == b3);
    assert(v / 16777216 == b3);
    assert(le_bytes(v) =~= seq![b0, b1, b2, b3]);
}

/// Reading a length back from its compact encoding gives that length, whatever
/// follows the encoding.
pub proof fn lemma_compact_prefix_of_encoding(n: int, rest: Seq<u8>)
    requires
        0 <= n <= u32::MAX,
    ensures
        compact_prefix(compact_u32(n) + rest) == Some((n, compact_u32(n).len() as int)),
{
    let e = compact_u32(n);
    let b = e + rest;
    if n <= 0x3f {
        assert(b[0] == e[0]);
    } else if n <= 0x3fff {
        assert(b[0] == e[0] && b[1] == e[1]);
        let v = 4 * n + 1;
        assert(e[0] == v % 256 && e[1] == v / 256);
        assert(e[0] + 256 * e[1] == v);
    } else if n <= 0x3fff_ffff {
        lemma_le_bytes_hold(4 * n + 2);
        assert(b[0] == e[0] && b[1] == e[1] && b[2] == e[2] && b[3] == e[3]);
        assert(e[0] % 4 == 2);
    } else {
        lemma_le_bytes_hold(n);
        assert(e.len() == 5);
        assert(b[0] == 3);
        assert(b[1] == le_bytes(n)[0] && b[2] == le_bytes(n)[1] && b[3] == le_bytes(n)[2] && b[4]
            == le_bytes(n)[3]);
    }
}

/// A length can be read only from its own compact encoding: the bytes that
/// `compact_prefix` accepts are the encoding of the length it reads.
pub proof fn lemma_compact_prefix_is_encoding(b: Seq<u8>)
    requires
        compact_prefix(b) is Some,
    ensures
        0 <= compact_prefix(b).unwrap().0 <= u32::MAX,
        compact_prefix(b).unwrap().1 == compact_u32(compact_prefix(b).unwrap().0).len(),
        compact_prefix(b).unwrap().1 <= b.len(),
        b.subrange(0, compact_prefix(b).unwrap().1) == compact_u32(compact_prefix(b).unwrap().0),
{
    let n = compact_prefix(b).unwrap().0;
    let k = compact_prefix(b).unwrap().1;
    if b[0] % 4 == 0 {
        assert(4 * n == b[0]);
        assert(b.subrange(0, k) =~= compact_u32(n));
    } else if b[0] % 4 == 1 {
        let v = b[0] + 256 * b[1];
        assert(v % 4 == 1);
        assert(4 * n + 1 == v);
        assert(v % 256 == b[0] && v / 256 == b[1]);
        assert(b.subrange(0, k) =~= compact_u32(n));
    } else if b[0] % 4 == 2 {
        let v = le_u32(b[0], b[1], b[2], b[3]);
        lemma_le_u32_bytes(b[0], b[1], b[2], b[3]);
        assert(v % 4 == 2);
        assert(4 * n + 2 == v);
        assert(b.subrange(0, k) =~= seq![b[0], b[1], b[2], b[3]]);
    } else {
        lemma_le_u32_bytes(b[1], b[2], b[3], b[4]);
        assert(b.subrange(0, k) =~= seq![3u8] + seq![b[1], b[2], b[3], b[4]]);
    }
}

/// The number of bytes that the compact encoding of `n` takes.
pub fn compact_len(n: u32) -> (k: usize)
    ensures
        k == compact_u32(n as int).len(),
        1 <= k <= 5,
{
    if n <= 0x3f {
        1
    } else if n <= 0x3fff {
        2
    } else if n <= 0x3fff_ffff {
        4
    } else {
        5
    }
}

/// The members that a bounded vector holds, in order.
pub uninterp spec fn members_of(v: BoundedVec<[u8; 33], ConstU32<4294967295>>) -> Seq<[u8; 33]>;

/// `BoundedVec::new`: a vector without members.
#[verifier::external_body]
pub(crate) fn members_new() -> (v: BoundedVec<[u8; 33], ConstU32<4294967295>>)
    ensures
        members_of(v) == Seq::<[u8; 33]>::empty(),
{
    BoundedVec::new()
}

/// `len` of the vector inside a `BoundedVec`: the number of members, which the
/// type keeps within its bound.
#[verifier::external_body]
pub(crate) fn members_len(v: &BoundedVec<[u8; 33], ConstU32<4294967295>>) -> (n: usize)
    ensures
        n == members_of(*v).len(),
        n <= MAX_MEMBERS,
{
    v.len()
}

/// Indexing a `BoundedVec`: the member at place `i`.
#[verifier::external_body]
pub(crate) fn members_get(v: &BoundedVec<[u8; 33], ConstU32<4294967295>>, i: usize) -> (m: [
    u8;
    33
])
    requires
        i < members_of(*v).len(),
    ensures
        m == members_of(*v)[i as int],
{
    v[i]
}

/// `BoundedVec::try_push`: appends `m` where the vector is below its bound, and
/// otherwise hands `m` back and leaves the vector as it was.
///
/// The call pushes onto a std `Vec`, which panics where the capacity it grows
/// to does not fit `isize::MAX` bytes. This contract rests on how std grows a
/// full vector: to twice its length, to one more, or to four items, whichever
/// is most. The `requires` leaves out every vector for which that is too much.
#[verifier::external_body]
pub(crate) fn members_try_push(
    v: &mut BoundedVec<[u8; 33], ConstU32<4294967295>>,
    m: [u8; 33],
) -> (r: Result<(), [u8; 33]>)
    requires
        66 * members_of(*old(v)).len() + 132 <= isize::MAX,
    ensures
        match r {
            Ok(_) => members_of(*old(v)).len() < MAX_MEMBERS && members_of(*final(v))
                == members_of(*old(v)).push(m),
            Err(back) => members_of(*old(v)).len() >= MAX_MEMBERS && back == m && members_of(
                *final(v),
            ) == members_of(*old(v)),
        },
{
    v.try_push(m)
}

/// `Decode::decode` for a `BoundedVec` of members: reads a compact length and
/// then that many members from the front of `bytes`, and fails where the
/// length is not in its shortest form or the bytes run out. Bytes behind the
/// last member are not looked at.
#[verifier::external_body]
pub(crate) fn decode_members(bytes: &[u8]) -> (r: Result<
    BoundedVec<[u8; 33], ConstU32<4294967295>>,
    parity_scale_codec::Error,
>)
    ensures
        match r {
            Ok(v) => members_read(bytes@, members_of(v)),
            Err(_) => members_prefix(bytes@) is None,
        },
{
    let mut input = bytes;
    Decode::decode(&mut input)
}

/// `Encode::encode` for a `BoundedVec` of members: the compact encoding of its
/// length, then its members.
#[verifier::external_body]
pub(crate) fn encode_members(v: &BoundedVec<[u8; 33], ConstU32<4294967295>>) -> (out: Vec<u8>)
    requires
        members_of(*v).len() <= MAX_MEMBERS,
    ensures
        out@ == members_encoding(members_of(*v)),
{
    v.encode()
}

/// `Decode::decode` for an array of bytes: the first `N` bytes of the input,
/// and a failure where it holds fewer.
#[verifier::external_body]
pub(crate) fn decode_array<const N: usize>(bytes: &[u8]) -> (r: Result<
    [u8; N],
    parity_scale_codec::Error,
>)
    ensures
        match r {
            Ok(a) => bytes@.len() >= N && a@ == bytes@.subrange(0, N as int),
            Err(_) => bytes@.len() < N,
        },
{
    let mut input = bytes;
    <[u8; N]>::decode(&mut input)
}

/// `Decode::decode` for `u32`: the number that the first four bytes of the
/// input hold, least significant byte first, and a failure where it holds
/// fewer.
#[verifier::external_body]
pub(crate) fn decode_u32(bytes: &[u8]) -> (r: Result<u32, parity_scale_codec::Error>)
    ensures
        match r {
            Ok(v) => bytes@.len() >= 4 && v == le_u32(bytes@[0], bytes@[1], bytes@[2], bytes@[3]),
            Err(_) => bytes@.len() < 4,
        },
{
    let mut input = bytes;
    u32::decode(&mut input)
}

/// `Encode::encode` for `u32`: its four bytes, least significant byte first.
#[verifier::external_body]
pub(crate) fn encode_u32(v: u32) -> (out: Vec<u8>)
    ensures
        out@ == le_bytes(v as int),
{
    v.encode()
}

/// `Encode::encode` for an array of bytes: the bytes themselves.
#[verifier::external_body]
pub(crate) fn encode_array<const N: usize>(a: &[u8; N]) -> (out: Vec<u8>)
    ensures
        out@ == a@,
{
    a.encode()
}

} // verus!
