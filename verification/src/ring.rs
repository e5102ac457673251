//! The ring: the ordered, bounded sequence of members that proofs speak of.

use crate::bytes::{same_bytes, Member};
use crate::error::ProtocolError;
use crate::scale::{
    compact_len, compact_u32, decode_members, encode_members, lemma_compact_prefix_is_encoding,
    lemma_compact_prefix_of_encoding, members_encoding, members_get, members_len, members_new,
    members_of, members_payload, members_prefix, members_read, members_try_push, MAX_MEMBERS,
};
use bounded_collections::{BoundedVec, ConstU32};
use vstd::prelude::*;

verus! {

/// An ordered sequence of at most `MAX_MEMBERS` members. The place of a member
/// in it is its index; a member may occur more than once.
pub struct Ring {
    members: BoundedVec<[u8; 33], ConstU32<4294967295>>,
}

impl View for Ring {
    type V = Seq<Member>;

    closed spec fn view(&self) -> Seq<Member> {
        members_of(self.members)
    }
}

/// Whether `i` is the first index at which `target` occurs in `ring`.
pub open spec fn is_first_index(ring: Seq<Member>, target: Member, i: int) -> bool {
    &&& 0 <= i < ring.len()
    &&& ring[i] == target
    &&& forall|j: int| 0 <= j < i ==> ring[j] != target
}

/// The first index at which `target` occurs in `ring`, if it occurs.
pub open spec fn first_index(ring: Seq<Member>, target: Member) -> Option<int> {
    if exists|i: int| is_first_index(ring, target, i) {
        Some(choose|i: int| is_first_index(ring, target, i))
    } else {
        None
    }
}

/// A target has at most one first index, and `first_index` is it.
pub proof fn lemma_first_index(ring: Seq<Member>, target: Member, i: int)
    requires
        is_first_index(ring, target, i),
    ensures
        first_index(ring, target) == Some(i),
{
    let c = choose|c: int| is_first_index(ring, target, c);
    assert(is_first_index(ring, target, c));
    if c < i {
        assert(ring[c] != target);
    } else if i < c {
        assert(ring[i] != target);
    }
}

/// A ring has no first index for a target exactly if it does not hold it.
pub proof fn lemma_first_index_none(ring: Seq<Member>, target: Member)
    ensures
        first_index(ring, target) is None <==> !ring.contains(target),
        first_index(ring, target) matches Some(i) ==> is_first_index(ring, target, i),
{
    if ring.contains(target) {
        let k = choose|k: int| 0 <= k < ring.len() && ring[k] == target;
        lemma_least_index(ring, target, k);
    } else {
        if exists|i: int| is_first_index(ring, target, i) {
            let i = choose|i: int| is_first_index(ring, target, i);
            assert(ring.contains(target));
        }
    }
}

/// Below an index that holds the target there is a first such index.
proof fn lemma_least_index(ring: Seq<Member>, target: Member, k: int)
    requires
        0 <= k < ring.len(),
        ring[k] == target,
    ensures
        exists|i: int| is_first_index(ring, target, i),
    decreases k,
{
    if exists|j: int| 0 <= j < k && ring[j] == target {
        let j = choose|j: int| 0 <= j < k && ring[j] == target;
        lemma_least_index(ring, target, j);
    } else {
        assert(is_first_index(ring, target, k));
    }
}

/// Whether a ring of `len` members can take one more: it is below the bound
/// on members, and the vector that holds it can grow to twice its size within
/// the address space. On a machine with 64-bit addresses the first says it
/// all.
pub open spec fn has_room(len: nat) -> bool {
    len < MAX_MEMBERS && 66 * len + 132 <= isize::MAX
}

/// Whether `bytes` is the encoding of a ring.
pub open spec fn is_ring_encoding(bytes: Seq<u8>) -> bool {
    exists|ring: Seq<Member>| ring.len() <= MAX_MEMBERS && #[trigger] members_encoding(ring) == bytes
}

/// The encoding of a ring holds its length and its members: reading it gives
/// the ring back, and nothing follows the last member.
pub proof fn lemma_encoding_reads_back(ring: Seq<Member>)
    requires
        ring.len() <= MAX_MEMBERS,
    ensures
        members_prefix(members_encoding(ring)) == Some(
            (ring.len() as int, compact_u32(ring.len() as int).len() as int),
        ),
        members_encoding(ring).len() == compact_u32(ring.len() as int).len() + 33 * ring.len(),
        members_read(members_encoding(ring), ring),
{
    let n = ring.len() as int;
    let k = compact_u32(n).len() as int;
    let b = members_encoding(ring);
    lemma_compact_prefix_of_encoding(n, members_payload(ring));
    assert forall|i: int, j: int| 0 <= i < n && 0 <= j < 33 implies (#[trigger] ring[i][j]) == b[k
        + 33 * i + j] by {
        let p = 33 * i + j;
        assert(0 <= p < 33 * n) by (nonlinear_arith)
            requires
                0 <= i < n,
                0 <= j < 33,
                p == 33 * i + j,
        ;
        assert(p / 33 == i && p % 33 == j);
        assert(b[k + p] == members_payload(ring)[p]);
    }
}

/// Bytes that hold a ring and nothing behind it are the encoding of that ring.
pub proof fn lemma_read_is_encoding(b: Seq<u8>, ring: Seq<Member>)
    requires
        members_read(b, ring),
        b.len() == members_prefix(b).unwrap().1 + 33 * ring.len(),
    ensures
        ring.len() <= MAX_MEMBERS,
        members_encoding(ring) == b,
{
    let n = members_prefix(b).unwrap().0;
    let k = members_prefix(b).unwrap().1;
    lemma_compact_prefix_is_encoding(b);
    let e = members_encoding(ring);
    assert(e.len() == b.len());
    assert forall|p: int| 0 <= p < b.len() implies e[p] == b[p] by {
        if p < k {
            assert(b.subrange(0, k)[p] == b[p]);
        } else {
            let q = p - k;
            let i = q / 33;
            let j = q % 33;
            assert(0 <= i < n);
            assert(ring[i][j] == b[k + 33 * i + j]);
            assert(e[p] == members_payload(ring)[q]);
        }
    }
    assert(e =~= b);
}

/// Two rings with the same encoding are the same ring.
pub proof fn lemma_encoding_unique(a: Seq<Member>, b: Seq<Member>)
    requires
        a.len() <= MAX_MEMBERS,
        b.len() <= MAX_MEMBERS,
        members_encoding(a) == members_encoding(b),
    ensures
        a == b,
{
    lemma_encoding_reads_back(a);
    lemma_encoding_reads_back(b);
    assert(a.len() == b.len());
    assert forall|i: int| 0 <= i < a.len() implies a[i] == b[i] by {
        assert forall|j: int| 0 <= j < 33 implies a[i][j] == b[i][j] by {
            assert(a[i][j] == members_encoding(a)[compact_u32(a.len() as int).len() + 33 * i + j]);
            assert(b[i][j] == members_encoding(b)[compact_u32(b.len() as int).len() + 33 * i + j]);
        }
        assert(a[i] =~= b[i]);
    }
    assert(a =~= b);
}

impl Ring {
    /// The ring without members.
    pub fn new() -> (ring: Ring)
        ensures
            ring@ == Seq::<Member>::empty(),
    {
        Ring { members: members_new() }
    }

    /// The number of members.
    pub fn len(&self) -> (n: usize)
        ensures
            n == self@.len(),
            n <= MAX_MEMBERS,
    {
        members_len(&self.members)
    }

    /// The member at index `i`.
    pub fn get(&self, i: usize) -> (member: Member)
        requires
            i < self@.len(),
        ensures
            member == self@[i as int],
    {
        members_get(&self.members, i)
    }

    /// Appends `member` as the last of the ring. A ring without room, because
    /// it is full or because its vector could not grow within the address
    /// space, hands the member back and stays as it was.
    pub fn try_push(&mut self, member: Member) -> (r: Result<(), Member>)
        ensures
            match r {
                Ok(_) => final(self)@ == old(self)@.push(member),
                Err(back) => back == member && final(self)@ == old(self)@,
            },
            r is Ok <==> has_room(old(self)@.len()),
    {
        let n = members_len(&self.members);
        if n > (isize::MAX as usize - 132) / 66 {
            return Err(member);
        }
        members_try_push(&mut self.members, member)
    }

    /// The first index at which `target` occurs, or `None` where the ring does
    /// not hold it.
    pub fn position(&self, target: &Member) -> (r: Option<u32>)
        ensures
            match r {
                Some(i) => first_index(self@, *target) == Some(i as int),
                None => first_index(self@, *target) is None,
            },
    {
        let n = self.len();
        let mut i: usize = 0;
        while i < n
            invariant
                i <= n,
                n == self@.len(),
                n <= MAX_MEMBERS,
                forall|j: int| 0 <= j < i ==> self@[j] != *target,
            decreases n - i,
        {
            let member = self.get(i);
            if same_bytes(&member, target) {
                proof {
                    lemma_first_index(self@, *target, i as int);
                }
                return Some(i as u32);
            }
            i += 1;
        }
        proof {
            lemma_first_index_none(self@, *target);
        }
        None
    }

    /// The encoding of the ring: the compact encoding of its length, then its
    /// members in order.
    pub fn encode(&self) -> (out: Vec<u8>)
        ensures
            out@ == members_encoding(self@),
    {
        let _within_bound = members_len(&self.members);
        encode_members(&self.members)
    }

    /// Decodes a ring. The input has to be the encoding of a ring, from its
    /// first byte to its last: a length that is not in its shortest form,
    /// missing members and bytes behind the last member are all refused.
    pub fn decode(bytes: &[u8]) -> (r: Result<Ring, ProtocolError>)
        ensures
            match r {
                Ok(ring) => ring@.len() <= MAX_MEMBERS && members_encoding(ring@) == bytes@,
                Err(e) => e == ProtocolError::DecodeError && !is_ring_encoding(bytes@),
            },
            r is Ok <==> is_ring_encoding(bytes@),
            forall|ring: Seq<Member>|
                ring.len() <= MAX_MEMBERS && #[trigger] members_encoding(ring) == bytes@ ==> r is Ok
                    && r.unwrap()@ == ring,
    {
        match decode_members(bytes) {
            Ok(members) => {
                let n = members_len(&members);
                let k = compact_len(n as u32);
                proof {
                    lemma_compact_prefix_is_encoding(bytes@);
                }
                if bytes.len() as u64 != (k as u64) + 33 * (n as u64) {
                    assert forall|ring: Seq<Member>|
                        ring.len() <= MAX_MEMBERS && #[trigger] members_encoding(ring)
                            == bytes@ implies false by {
                        lemma_encoding_reads_back(ring);
                    }
                    return Err(ProtocolError::DecodeError);
                }
                proof {
                    lemma_read_is_encoding(bytes@, members_of(members));
                    assert(members_encoding(members_of(members)) == bytes@);
                    assert forall|ring: Seq<Member>|
                        ring.len() <= MAX_MEMBERS && #[trigger] members_encoding(ring)
                            == bytes@ implies members_of(members) == ring by {
                        lemma_encoding_unique(ring, members_of(members));
                    }
                }
                Ok(Ring { members })
            },
            Err(_) => {
                assert forall|ring: Seq<Member>|
                    ring.len() <= MAX_MEMBERS && #[trigger] members_encoding(ring)
                        == bytes@ implies false by {
                    lemma_encoding_reads_back(ring);
                }
                Err(ProtocolError::DecodeError)
            },
        }
    }
}

} // verus!
