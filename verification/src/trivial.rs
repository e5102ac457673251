//! A scheme without any cryptography, for demonstration and for tests.
//!
//! The public point of a secret is its seed with a zero tag byte, the
//! aggregate of a ring lists its members, a proof is the member itself and the
//! alias is the seed. Nothing is hidden and nothing is bound to context or
//! message; what the scheme keeps is the shape of the protocol.

use crate::bytes::{decode_fixed, encode_fixed, Alias, Entropy, Member};
use crate::commitment::{
    built, decode_opening, encode_opening, fold_is_function, folded, lemma_opening_encoding_unique,
    lookup_is_function, open, opened, opening_encoding, RingCommitment,
};
use crate::engine::{
    alias_is_function, create, created, proof_decoded, proof_system_complete,
    reads_what_is_proved, validated, Proof,
};
use crate::error::ProtocolError;
use crate::keys::{derived, member_from_secret, new_secret, point_is_function, SecretKey};
use crate::protocol::{
    derived_from_entropy, enroll_and_prove, enroll_and_prove_done, enrolled, enrolled_proved,
    proved_for, validate, validate_answered, validate_done, validate_verified,
    Enrolled,
};
use crate::ring::{
    first_index, has_room, is_ring_encoding, lemma_encoding_unique, lemma_first_index_none, Ring,
};
use crate::scale::{members_encoding, members_payload, MAX_MEMBERS};
use vstd::prelude::*;
use vstd::slice::slice_to_vec;

verus! {

/// The encoded point of a seed: the seed, then a zero tag byte.
pub open spec fn point_bytes(seed: Seq<u8>) -> Seq<u8> {
    seed.push(0u8)
}

/// Whether the member at place `index` of the list `aggregate` is `member`.
pub open spec fn holds_at(aggregate: Seq<u8>, index: int, member: Seq<u8>) -> bool {
    0 <= index && 33 * index + 33 <= aggregate.len() && aggregate.subrange(
        33 * index,
        33 * index + 33,
    ) == member
}

/// Whether `proof` is a point of this scheme that the list `aggregate` holds.
pub open spec fn accepted(proof: Seq<u8>, aggregate: Seq<u8>) -> bool {
    proof.len() == 33 && proof[32] == 0 && exists|k: int| holds_at(aggregate, k, proof)
}

/// The point of a seed. Every seed has one.
pub fn derive_point(seed: &Entropy) -> (r: Option<Member>)
    ensures
        r matches Some(member) && member@ == point_bytes(seed@),
{
    let mut member: Member = [0u8; 33];
    let mut i: usize = 0;
    while i < 32
        invariant
            i <= 32,
            forall|j: int| 0 <= j < i ==> member[j] == seed[j],
            member[32] == 0,
        decreases 32 - i,
    {
        member[i] = seed[i];
        i += 1;
    }
    assert(member@ =~= point_bytes(seed@));
    Some(member)
}

/// The basis element for an index. The scheme has no use for one, so every
/// index has the empty element and rings are bounded by nothing.
pub fn basis_lookup(index: usize) -> (r: Result<Vec<u8>, ()>)
    ensures
        r matches Ok(basis) && basis@ == Seq::<u8>::empty(),
{
    Ok(Vec::new())
}

/// Folds a member into the aggregate: the member is appended to the list.
pub fn fold(aggregate: &Vec<u8>, member: &Member, basis: &Vec<u8>) -> (next: Vec<u8>)
    ensures
        next@ == aggregate@ + member@,
{
    let mut next = slice_to_vec(aggregate.as_slice());
    let mut i: usize = 0;
    while i < 33
        invariant
            i <= 33,
            next@ == aggregate@ + member@.subrange(0, i as int),
        decreases 33 - i,
    {
        next.push(member[i]);
        assert(member@.subrange(0, i as int).push(member[i as int]) =~= member@.subrange(
            0,
            i + 1,
        ));
        i += 1;
    }
    assert(member@.subrange(0, 33) =~= member@);
    next
}

/// Whether the member at place `index` of the list `aggregate` is `member`.
fn member_is_at(aggregate: &Vec<u8>, index: usize, member: &Member) -> (same: bool)
    requires
        33 * index + 33 <= aggregate@.len(),
    ensures
        same == holds_at(aggregate@, index as int, member@),
{
    let len = aggregate.len();
    let start = 33 * index;
    let mut i: usize = 0;
    while i < 33
        invariant
            i <= 33,
            start == 33 * index,
            start + 33 <= aggregate@.len(),
            aggregate@.len() == len,
            forall|j: int| 0 <= j < i ==> aggregate@[start + j] == member[j],
        decreases 33 - i,
    {
        if aggregate[start + i] != member[i] {
            assert(aggregate@.subrange(33 * index, 33 * index + 33)[i as int] != member@[i as int]);
            return false;
        }
        i += 1;
    }
    assert(aggregate@.subrange(33 * index, 33 * index + 33) =~= member@);
    true
}

/// Proves for the member at place `index`: the proof is the point of the
/// seed and the alias is the seed, where that point stands at the place. A
/// seed that does not fit the place is noticed and gives `None`. Context and
/// message are not looked at.
pub fn prove(
    aggregate: &Vec<u8>,
    index: u32,
    seed: &Entropy,
    context: &[u8],
    message: &[u8],
) -> (r: Option<(Vec<u8>, Alias)>)
    ensures
        match r {
            Some((proof, alias)) => holds_at(aggregate@, index as int, point_bytes(seed@))
                && proof@ == point_bytes(seed@) && alias == *seed,
            None => !holds_at(aggregate@, index as int, point_bytes(seed@)),
        },
{
    let member = match derive_point(seed) {
        Some(member) => member,
        None => {
            return None;
        },
    };
    if aggregate.len() < 33 || index as usize > (aggregate.len() - 33) / 33 {
        return None;
    }
    if member_is_at(aggregate, index as usize, &member) {
        Some((slice_to_vec(member.as_slice()), *seed))
    } else {
        None
    }
}

/// Reads a proof: the proofs of this scheme are the byte strings of 33 bytes.
pub fn read_proof(bytes: &[u8]) -> (r: Option<Vec<u8>>)
    ensures
        match r {
            Some(proof) => bytes@.len() == 33 && proof@ == bytes@,
            None => bytes@.len() != 33,
        },
{
    if bytes.len() == 33 {
        Some(slice_to_vec(bytes))
    } else {
        None
    }
}

/// Verifies a proof: it has to be a point of this scheme that the list
/// `aggregate` holds, and the alias is then the seed that the point shows.
/// Context and message are not looked at.
pub fn verify(proof: &Vec<u8>, aggregate: &Vec<u8>, context: &[u8], message: &[u8]) -> (r: Option<
    Alias,
>)
    ensures
        match r {
            Some(alias) => accepted(proof@, aggregate@) && alias@ == proof@.subrange(0, 32),
            None => !accepted(proof@, aggregate@),
        },
{
    if proof.len() != 33 || proof[32] != 0 {
        return None;
    }
    let mut member: Member = [0u8; 33];
    let mut i: usize = 0;
    while i < 33
        invariant
            i <= 33,
            proof@.len() == 33,
            forall|j: int| 0 <= j < i ==> member[j] == proof@[j],
        decreases 33 - i,
    {
        member[i] = proof[i];
        i += 1;
    }
    assert(member@ =~= proof@);
    let mut alias: Alias = [0u8; 32];
    let mut i: usize = 0;
    while i < 32
        invariant
            i <= 32,
            proof@.len() == 33,
            forall|j: int| 0 <= j < i ==> alias[j] == proof@[j],
        decreases 32 - i,
    {
        alias[i] = proof[i];
        i += 1;
    }
    assert(alias@ =~= proof@.subrange(0, 32));
    let count = aggregate.len() / 33;
    let mut k: usize = 0;
    while k < count
        invariant
            k <= count,
            count == aggregate@.len() / 33,
            member@ == proof@,
            proof@.len() == 33,
            proof@[32] == 0,
            alias@ == proof@.subrange(0, 32),
            forall|j: int| 0 <= j < k ==> !holds_at(aggregate@, j, proof@),
        decreases count - k,
    {
        if member_is_at(aggregate, k, &member) {
            assert(holds_at(aggregate@, k as int, proof@));
            return Some(alias);
        }
        k += 1;
    }
    assert forall|j: int| !holds_at(aggregate@, j, proof@) by {
        if holds_at(aggregate@, j, proof@) {
            assert(j < count);
        }
    }
    None
}

/// The capabilities of this scheme are functions of their arguments, its
/// reader reads what its prover makes and its verifier accepts it. So the
/// laws that are stated of every such scheme hold of this one.
pub proof fn lemma_scheme_is_lawful()
    ensures
        point_is_function(derive_point),
        lookup_is_function(basis_lookup),
        fold_is_function(fold),
        alias_is_function(prove),
        reads_what_is_proved(prove, read_proof),
        proof_system_complete(prove, verify),
{
    assert forall|
        aggregate: Vec<u8>,
        index: u32,
        seed: Entropy,
        context: &[u8],
        message: &[u8],
        proof: Vec<u8>,
        alias: Alias,
        bytes: &[u8],
        read: Option<Vec<u8>>,
    |
        call_ensures(prove, (&aggregate, index, &seed, context, message), Some((proof, alias)))
            && call_ensures(read_proof, (bytes,), read) && bytes@ == proof@ implies (
    read matches Some(held) && held@ == proof@) by {
        assert(proof@.len() == 33);
    }
    assert forall|seed: Entropy, a: Option<Member>, b: Option<Member>|
        call_ensures(derive_point, (&seed,), a) && call_ensures(
            derive_point,
            (&seed,),
            b,
        ) implies a == b by {
        assert(a.unwrap() =~= b.unwrap());
    }
    assert forall|
        aggregate: Vec<u8>,
        index: u32,
        seed: Entropy,
        context: &[u8],
        message: &[u8],
        proof: Vec<u8>,
        alias: Alias,
        held: Vec<u8>,
        seen: Vec<u8>,
        c: &[u8],
        m: &[u8],
        answer: Option<Alias>,
    |
        call_ensures(prove, (&aggregate, index, &seed, context, message), Some((proof, alias)))
            && call_ensures(verify, (&held, &seen, c, m), answer) && held@ == proof@ && seen@
            == aggregate@ && c@ == context@ && m@ == message@ implies answer == Some(alias) by {
        assert(holds_at(seen@, index as int, held@));
        assert(accepted(held@, seen@));
        assert(answer.unwrap()@ =~= alias@);
        assert(answer.unwrap() =~= alias);
    }
}

/// Whether `fold` appends the member to the aggregate, as the fold of this
/// scheme does.
pub open spec fn appends<F>(fold: F) -> bool where F: Fn(&Vec<u8>, &Member, &Vec<u8>) -> Vec<u8> {
    forall|aggregate: Vec<u8>, member: Member, basis: Vec<u8>, next: Vec<u8>| #[trigger]
        call_ensures(fold, (&aggregate, &member, &basis), next) ==> next@ == aggregate@ + member@
}

/// The place of a member in the list of a ring holds that member.
pub proof fn lemma_listed_at(ring: Seq<Member>, i: int)
    requires
        0 <= i < ring.len(),
    ensures
        holds_at(members_payload(ring), i, ring[i]@),
{
    let list = members_payload(ring);
    assert(33 * i + 33 <= list.len());
    assert forall|j: int| 0 <= j < 33 implies list.subrange(33 * i, 33 * i + 33)[j]
        == ring[i]@[j] by {
        assert((33 * i + j) / 33 == i && (33 * i + j) % 33 == j);
    }
    assert(list.subrange(33 * i, 33 * i + 33) =~= ring[i]@);
}

/// What stands at a place of the list of a ring is the member of that index.
pub proof fn lemma_listed_only(ring: Seq<Member>, k: int, member: Seq<u8>)
    requires
        holds_at(members_payload(ring), k, member),
    ensures
        0 <= k < ring.len(),
        ring[k]@ == member,
{
    lemma_listed_at(ring, k);
}

/// An aggregate that was folded by appending is the list of the ring.
pub proof fn lemma_aggregate_lists_ring<L, F>(
    lookup: L,
    fold: F,
    ring: Seq<Member>,
    aggregate: Vec<u8>,
) where L: Fn(usize) -> Result<Vec<u8>, ()>, F: Fn(&Vec<u8>, &Member, &Vec<u8>) -> Vec<u8>
    requires
        appends(fold),
        folded(lookup, fold, ring, aggregate),
    ensures
        aggregate@ == members_payload(ring),
    decreases ring.len(),
{
    if ring.len() == 0 {
        assert(aggregate@ =~= members_payload(ring));
    } else {
        let (prev, basis) = choose|prev: Vec<u8>, basis: Vec<u8>|
            folded(lookup, fold, ring.drop_last(), prev) && call_ensures(
                lookup,
                ((ring.len() - 1) as usize,),
                Ok::<Vec<u8>, ()>(basis),
            ) && #[trigger] call_ensures(fold, (&prev, &ring.last(), &basis), aggregate);
        lemma_aggregate_lists_ring(lookup, fold, ring.drop_last(), prev);
        let shorter = members_payload(ring.drop_last());
        let list = members_payload(ring);
        assert(aggregate@ == shorter + ring.last()@);
        assert forall|j: int| 0 <= j < list.len() implies list[j] == (shorter + ring.last()@)[j] by {
            if j < shorter.len() {
                assert(j / 33 < ring.len() - 1);
                assert(ring.drop_last()[j / 33] == ring[j / 33]);
            } else {
                assert(j / 33 == ring.len() - 1);
                assert(j - shorter.len() == j % 33);
            }
        }
        assert(aggregate@ =~= list);
    }
}

/// Whether `derive_point` gives every seed its point, as the derivation of
/// this scheme does.
pub open spec fn derives<D>(derive_point: D) -> bool where D: Fn(&Entropy) -> Option<Member> {
    forall|seed: Entropy, point: Option<Member>| #[trigger]
        call_ensures(derive_point, (&seed,), point) ==> (point matches Some(member) && member@
            == point_bytes(seed@))
}

/// Whether `lookup` finds an element for every index.
pub open spec fn never_fails<L>(lookup: L) -> bool where L: Fn(usize) -> Result<Vec<u8>, ()> {
    forall|index: usize, found: Result<Vec<u8>, ()>| #[trigger]
        call_ensures(lookup, (index,), found) ==> found is Ok
}

/// Whether `prove` proves as the prover of this scheme does.
pub open spec fn proves<P>(prove: P) -> bool where
    P: Fn(&Vec<u8>, u32, &Entropy, &[u8], &[u8]) -> Option<(Vec<u8>, Alias)>,
 {
    forall|
        aggregate: Vec<u8>,
        index: u32,
        seed: Entropy,
        context: &[u8],
        message: &[u8],
        r: Option<(Vec<u8>, Alias)>,
    | #[trigger]
        call_ensures(prove, (&aggregate, index, &seed, context, message), r) ==> match r {
            Some((proof, alias)) => holds_at(aggregate@, index as int, point_bytes(seed@))
                && proof@ == point_bytes(seed@) && alias == seed,
            None => !holds_at(aggregate@, index as int, point_bytes(seed@)),
        }
}

/// Whether `verify` verifies as the verifier of this scheme does.
pub open spec fn verifies<V>(verify: V) -> bool where
    V: Fn(&Vec<u8>, &Vec<u8>, &[u8], &[u8]) -> Option<Alias>,
 {
    forall|proof: Vec<u8>, aggregate: Vec<u8>, context: &[u8], message: &[u8], r: Option<Alias>| #[trigger]
        call_ensures(verify, (&proof, &aggregate, context, message), r) ==> match r {
            Some(alias) => accepted(proof@, aggregate@) && alias@ == proof@.subrange(0, 32),
            None => !accepted(proof@, aggregate@),
        }
}

/// Whether `read_proof` reads proofs as this scheme does.
pub open spec fn reads<R>(read_proof: R) -> bool where R: Fn(&[u8]) -> Option<Vec<u8>> {
    forall|bytes: &[u8], r: Option<Vec<u8>>| #[trigger]
        call_ensures(read_proof, (bytes,), r) ==> match r {
            Some(proof) => bytes@.len() == 33 && proof@ == bytes@,
            None => bytes@.len() != 33,
        }
}

/// Whether `proof` is a point of this scheme and a member of `ring`.
pub open spec fn names_member(proof: Seq<u8>, ring: Seq<Member>) -> bool {
    proof.len() == 33 && proof[32] == 0 && exists|k: int|
        0 <= k < ring.len() && (#[trigger] ring[k])@ == proof
}

/// What `one_shot_trivial` returns. Entropy of another length than 32 bytes
/// and bytes that are not the encoding of a ring give `DecodeError`, a ring
/// without room for one more member gives `LookupFailure`. Otherwise the
/// member is the point of the entropy, the ring is the given one with the
/// member as its last, the proof is the member and the alias is the entropy.
pub open spec fn one_shot_trivial_done(
    entropy: Seq<u8>,
    members: Seq<u8>,
    r: Result<Enrolled, ProtocolError>,
) -> bool {
    if entropy.len() != 32 || !is_ring_encoding(members) {
        r == Err::<Enrolled, ProtocolError>(ProtocolError::DecodeError)
    } else {
        exists|ring: Seq<Member>, member: Member|
            #![trigger members_encoding(ring.push(member))]
            ring.len() <= MAX_MEMBERS && members_encoding(ring) == members && member@
                == point_bytes(entropy) && if !has_room(ring.len()) {
                r == Err::<Enrolled, ProtocolError>(ProtocolError::LookupFailure)
            } else {
                r matches Ok(out) && out.member@ == point_bytes(entropy) && out.members@
                    == members_encoding(ring.push(member)) && out.proof@ == point_bytes(entropy)
                    && out.alias@ == entropy
            }
    }
}

/// With capabilities that work as those of this scheme do, enrolling and
/// proving ends as `one_shot_trivial_done` says.
proof fn lemma_enrolled_outcome<D, L, F, P>(
    derive_point: D,
    lookup: L,
    fold: F,
    prove: P,
    entropy: &[u8],
    members: &[u8],
    context: &[u8],
    message: &[u8],
    r: Result<Enrolled, ProtocolError>,
) where
    D: Fn(&Entropy) -> Option<Member>,
    L: Fn(usize) -> Result<Vec<u8>, ()>,
    F: Fn(&Vec<u8>, &Member, &Vec<u8>) -> Vec<u8>,
    P: Fn(&Vec<u8>, u32, &Entropy, &[u8], &[u8]) -> Option<(Vec<u8>, Alias)>,

    requires
        derives(derive_point),
        never_fails(lookup),
        appends(fold),
        proves(prove),
        enroll_and_prove_done(
            derive_point,
            lookup,
            fold,
            prove,
            entropy,
            members,
            context,
            message,
            r,
        ),
    ensures
        one_shot_trivial_done(entropy@, members@, r),
{
    let d = choose|d: Result<(SecretKey, Member), ProtocolError>| #[trigger]
        derived_from_entropy(derive_point, entropy, d) && match d {
            Ok((secret, member)) => enrolled(
                lookup,
                fold,
                prove,
                secret.seed(),
                member,
                members,
                context,
                message,
                r,
            ),
            Err(e) => r == Err::<Enrolled, ProtocolError>(e),
        };
    match d {
        Err(e) => {
            if entropy@.len() == 32 {
                let seed = choose|seed: Entropy|
                    seed@ == entropy@ && #[trigger] derived(
                        derive_point,
                        seed,
                        Err::<Member, ProtocolError>(e),
                    );
                assert(call_ensures(derive_point, (&seed,), None::<Member>));
            }
        },
        Ok((secret, member)) => {
            let seed = secret.seed();
            assert(call_ensures(derive_point, (&seed,), Some(member)));
            lemma_enrolled_stage(lookup, fold, prove, seed, member, members, context, message, r);
        },
    }
}

/// The part of `lemma_enrolled_outcome` that follows the derivation.
proof fn lemma_enrolled_stage<L, F, P>(
    lookup: L,
    fold: F,
    prove: P,
    seed: Entropy,
    member: Member,
    members: &[u8],
    context: &[u8],
    message: &[u8],
    r: Result<Enrolled, ProtocolError>,
) where
    L: Fn(usize) -> Result<Vec<u8>, ()>,
    F: Fn(&Vec<u8>, &Member, &Vec<u8>) -> Vec<u8>,
    P: Fn(&Vec<u8>, u32, &Entropy, &[u8], &[u8]) -> Option<(Vec<u8>, Alias)>,

    requires
        never_fails(lookup),
        appends(fold),
        proves(prove),
        member@ == point_bytes(seed@),
        enrolled(lookup, fold, prove, seed, member, members, context, message, r),
    ensures
        one_shot_trivial_done(seed@, members@, r),
{
    if is_ring_encoding(members@) {
        let ring = choose|ring: Seq<Member>|
            ring.len() <= MAX_MEMBERS && #[trigger] members_encoding(ring) == members@
                && if !has_room(ring.len()) {
                r == Err::<Enrolled, ProtocolError>(ProtocolError::LookupFailure)
            } else {
                enrolled_proved(
                    lookup,
                    fold,
                    prove,
                    seed,
                    member,
                    ring.push(member),
                    context,
                    message,
                    r,
                )
            };
        let longer = ring.push(member);
        if has_room(ring.len()) {
            assert(longer[ring.len() as int] == member);
            assert(longer.contains(member));
            lemma_proved_outcome(lookup, fold, prove, seed, member, longer, context, message, r);
        }
        assert(seed@.len() == 32);
        assert(members_encoding(longer) == members_encoding(ring.push(member)));
        assert(ring.len() <= MAX_MEMBERS && members_encoding(ring) == members@ && member@
            == point_bytes(seed@) && if !has_room(ring.len()) {
            r == Err::<Enrolled, ProtocolError>(ProtocolError::LookupFailure)
        } else {
            r matches Ok(out) && out.member@ == point_bytes(seed@) && out.members@
                == members_encoding(ring.push(member)) && out.proof@ == point_bytes(seed@)
                && out.alias@ == seed@
        });
    }
}

/// With capabilities that work as those of this scheme do, opening a ring for
/// a member that it holds and proving for it gives the member as the proof
/// and the seed as the alias.
proof fn lemma_proved_outcome<L, F, P>(
    lookup: L,
    fold: F,
    prove: P,
    seed: Entropy,
    member: Member,
    ring: Seq<Member>,
    context: &[u8],
    message: &[u8],
    r: Result<Enrolled, ProtocolError>,
) where
    L: Fn(usize) -> Result<Vec<u8>, ()>,
    F: Fn(&Vec<u8>, &Member, &Vec<u8>) -> Vec<u8>,
    P: Fn(&Vec<u8>, u32, &Entropy, &[u8], &[u8]) -> Option<(Vec<u8>, Alias)>,

    requires
        never_fails(lookup),
        appends(fold),
        proves(prove),
        member@ == point_bytes(seed@),
        ring.contains(member),
        enrolled_proved(lookup, fold, prove, seed, member, ring, context, message, r),
    ensures
        r matches Ok(out) && out.member@ == member@ && out.members@ == members_encoding(ring)
            && out.proof@ == member@ && out.alias@ == seed@,
{
    let made = choose|made: Result<(Proof, Alias), ProtocolError>| #[trigger]
        proved_for(lookup, fold, prove, seed, member, ring, context, message, made) && match made {
            Ok((proof, alias)) => r matches Ok(out) && out.member@ == member@ && out.members@
                == members_encoding(ring) && out.proof@ == proof.bytes()@ && out.alias@
                == alias@,
            Err(e) => r == Err::<Enrolled, ProtocolError>(e),
        };
    let opening = choose|opening: Result<(u32, RingCommitment), ProtocolError>| #[trigger]
        opened(lookup, fold, member, ring, opening) && match opening {
            Ok(o) => created(prove, o, seed, context, message, made),
            Err(e) => made == Err::<(Proof, Alias), ProtocolError>(e),
        };
    lemma_first_index_none(ring, member);
    let first = first_index(ring, member).unwrap();
    match opening {
        Err(_) => {
            let (k, prev) = choose|k: int, prev: Vec<u8>|
                #![trigger folded(lookup, fold, ring.take(k), prev)]
                0 <= k < ring.len() && folded(lookup, fold, ring.take(k), prev) && call_ensures(
                    lookup,
                    (k as usize,),
                    Err::<Vec<u8>, ()>(()),
                );
            assert(call_ensures(lookup, (k as usize,), Err::<Vec<u8>, ()>(())));
        },
        Ok(o) => {
            let aggregate = *o.1.aggregate();
            lemma_aggregate_lists_ring(lookup, fold, ring, aggregate);
            lemma_listed_at(ring, first);
            match made {
                Ok((proof, alias)) => {
                    assert(call_ensures(
                        prove,
                        (&aggregate, o.0, &seed, context, message),
                        Some((*proof.bytes(), alias)),
                    ));
                },
                Err(_) => {
                    assert(call_ensures(
                        prove,
                        (&aggregate, o.0, &seed, context, message),
                        None::<(Vec<u8>, Alias)>,
                    ));
                },
            }
        },
    }
}

/// Gives the secret for `entropy_input` as bytes. The secret of this scheme
/// is the entropy itself, which has to be 32 bytes.
pub fn new_secret_trivial(entropy_input: &[u8]) -> (r: Result<Vec<u8>, ProtocolError>)
    ensures
        match r {
            Ok(secret) => entropy_input@.len() == 32 && secret@ == entropy_input@,
            Err(e) => e == ProtocolError::DecodeError && entropy_input@.len() != 32,
        },
{
    match decode_fixed::<32>(entropy_input) {
        Ok(entropy) => {
            let secret = new_secret(entropy);
            let seed = secret.seed();
            Ok(encode_fixed(&seed))
        },
        Err(e) => Err(e),
    }
}

/// Gives the member for the secret `secret_input` as bytes: the secret, which
/// has to be 32 bytes, then a zero tag byte.
pub fn member_from_secret_trivial(secret_input: &[u8]) -> (r: Result<Vec<u8>, ProtocolError>)
    ensures
        match r {
            Ok(member) => secret_input@.len() == 32 && member@ == point_bytes(secret_input@),
            Err(e) => e == ProtocolError::DecodeError && secret_input@.len() != 32,
        },
{
    match decode_fixed::<32>(secret_input) {
        Ok(seed) => {
            let secret = new_secret(seed);
            let point = member_from_secret(&secret, &derive_point);
            match point {
                Ok(member) => Ok(encode_fixed(&member)),
                Err(e) => {
                    assert(call_ensures(derive_point, (&seed,), None::<Member>));
                    Err(e)
                },
            }
        },
        Err(e) => Err(e),
    }
}

/// What `open_trivial` returns. A member of another length than 33 bytes and
/// bytes that are not the encoding of a ring give `DecodeError`, a member that
/// the ring does not hold gives `MemberNotFound`. Otherwise the result is the
/// encoding of the opening: the first index of the member, then the list of
/// the ring.
pub open spec fn open_trivial_done(
    member_input: Seq<u8>,
    members_input: Seq<u8>,
    r: Result<Vec<u8>, ProtocolError>,
) -> bool {
    if member_input.len() != 33 || !is_ring_encoding(members_input) {
        r == Err::<Vec<u8>, ProtocolError>(ProtocolError::DecodeError)
    } else {
        exists|ring: Seq<Member>, member: Member|
            #![trigger members_encoding(ring), first_index(ring, member)]
            ring.len() <= MAX_MEMBERS && members_encoding(ring) == members_input && member@
                == member_input && match first_index(ring, member) {
                None => r == Err::<Vec<u8>, ProtocolError>(ProtocolError::MemberNotFound),
                Some(first) => r matches Ok(out) && out@ == opening_encoding(
                    first as u32,
                    members_payload(ring),
                ),
            }
    }
}

/// What opening gives with capabilities that work as those of this scheme do.
proof fn lemma_opened_outcome<L, F>(
    lookup: L,
    fold: F,
    member: Member,
    ring: Seq<Member>,
    r: Result<(u32, RingCommitment), ProtocolError>,
) where L: Fn(usize) -> Result<Vec<u8>, ()>, F: Fn(&Vec<u8>, &Member, &Vec<u8>) -> Vec<u8>
    requires
        never_fails(lookup),
        appends(fold),
        opened(lookup, fold, member, ring, r),
    ensures
        match first_index(ring, member) {
            None => r == Err::<(u32, RingCommitment), ProtocolError>(
                ProtocolError::MemberNotFound,
            ),
            Some(first) => r matches Ok(found) && found.0 == first && found.1.aggregate()@
                == members_payload(ring),
        },
{
    if first_index(ring, member) is Some {
        match r {
            Err(_) => {
                let (k, prev) = choose|k: int, prev: Vec<u8>|
                    #![trigger folded(lookup, fold, ring.take(k), prev)]
                    0 <= k < ring.len() && folded(lookup, fold, ring.take(k), prev)
                        && call_ensures(lookup, (k as usize,), Err::<Vec<u8>, ()>(()));
                assert(call_ensures(lookup, (k as usize,), Err::<Vec<u8>, ()>(())));
            },
            Ok(found) => {
                lemma_aggregate_lists_ring(lookup, fold, ring, *found.1.aggregate());
            },
        }
    }
}

/// Opens the ring that `members_input` encodes for the member `member_input`:
/// gives the encoding of its first index in the ring and of the commitment of
/// this scheme, which is the list of the ring.
pub fn open_trivial(member_input: &[u8], members_input: &[u8]) -> (r: Result<
    Vec<u8>,
    ProtocolError,
>)
    ensures
        open_trivial_done(member_input@, members_input@, r),
{
    let member = match decode_fixed::<33>(member_input) {
        Ok(member) => member,
        Err(e) => {
            return Err(e);
        },
    };
    let ring = match Ring::decode(members_input) {
        Ok(ring) => ring,
        Err(e) => {
            return Err(e);
        },
    };
    let opening = open(&member, &ring, &basis_lookup, &fold);
    proof {
        lemma_opened_outcome(basis_lookup, fold, member, ring@, opening);
        assert(ring@.len() <= MAX_MEMBERS && members_encoding(ring@) == members_input@ && member@
            == member_input@);
    }
    match opening {
        Ok(opening) => Ok(encode_opening(&opening)),
        Err(e) => Err(e),
    }
}

/// Creates the proof of this scheme for the opened place that `commitment`
/// encodes, an index and the list of a ring, with the secret `secret`. A
/// commitment of fewer than four bytes and a secret of another length than 32
/// bytes give `DecodeError`, a secret whose point does not stand at the index
/// gives `ProofCreationFailure`. Otherwise the result is the proof, which is
/// the point of the secret, and the alias, which is the secret.
pub fn create_trivial(commitment: &[u8], secret: &[u8], context: &[u8], message: &[u8]) -> (r:
    Result<(Vec<u8>, Vec<u8>), ProtocolError>)
    ensures
        match r {
            Ok((proof, alias)) => secret@.len() == 32 && proof@ == point_bytes(secret@) && alias@
                == secret@ && exists|index: u32, aggregate: Seq<u8>| #[trigger]
                opening_encoding(index, aggregate) == commitment@ && holds_at(
                    aggregate,
                    index as int,
                    point_bytes(secret@),
                ),
            Err(e) => if commitment@.len() < 4 || secret@.len() != 32 {
                e == ProtocolError::DecodeError
            } else {
                e == ProtocolError::ProofCreationFailure && forall|index: u32, aggregate: Seq<u8>| #[trigger]
                    opening_encoding(index, aggregate) == commitment@ ==> !holds_at(
                        aggregate,
                        index as int,
                        point_bytes(secret@),
                    )
            },
        },
{
    let opening = match decode_opening(commitment) {
        Ok(opening) => opening,
        Err(e) => {
            return Err(e);
        },
    };
    let seed = match decode_fixed::<32>(secret) {
        Ok(seed) => seed,
        Err(e) => {
            return Err(e);
        },
    };
    let key = new_secret(seed);
    let made = create(&opening, &key, context, message, &prove);
    assert(opening_encoding(opening.0, opening.1.aggregate()@) == commitment@);
    assert(opening_encoding(opening.0, opening.1.aggregate()@).len() >= 4);
    match made {
        Ok((proof, alias)) => {
            assert(call_ensures(
                prove,
                (opening.1.aggregate(), opening.0, &seed, context, message),
                Some((*proof.bytes(), alias)),
            ));
            Ok((proof.into_bytes(), encode_fixed(&alias)))
        },
        Err(e) => {
            assert(call_ensures(
                prove,
                (opening.1.aggregate(), opening.0, &seed, context, message),
                None::<(Vec<u8>, Alias)>,
            ));
            assert forall|index: u32, aggregate: Seq<u8>| #[trigger]
                opening_encoding(index, aggregate) == commitment@ implies !holds_at(
                aggregate,
                index as int,
                point_bytes(secret@),
            ) by {
                lemma_opening_encoding_unique(
                    index,
                    aggregate,
                    opening.0,
                    opening.1.aggregate()@,
                );
            }
            Err(e)
        },
    }
}

/// The context that `one_shot_trivial` hands to the prover.
pub const TRIVIAL_CONTEXT: [u8; 1] = [23];

/// The message that `one_shot_trivial` hands to the prover.
pub const TRIVIAL_MESSAGE: [u8; 1] = [42];

/// Enrolls and proves with this scheme: the member of `entropy` is appended
/// to the ring that `members` encodes, and proved for.
pub fn one_shot_trivial(entropy: &[u8], members: &[u8]) -> (r: Result<Enrolled, ProtocolError>)
    ensures
        one_shot_trivial_done(entropy@, members@, r),
{
    let fixed_context = TRIVIAL_CONTEXT;
    let fixed_message = TRIVIAL_MESSAGE;
    let context = fixed_context.as_slice();
    let message = fixed_message.as_slice();
    let r = enroll_and_prove(
        entropy,
        members,
        context,
        message,
        &derive_point,
        &basis_lookup,
        &fold,
        &prove,
    );
    proof {
        lemma_enrolled_outcome(
            derive_point,
            basis_lookup,
            fold,
            prove,
            entropy,
            members,
            context,
            message,
            r,
        );
    }
    r
}

/// A proof is accepted for the list of a ring exactly if it names a member of
/// the ring.
pub proof fn lemma_accepted_names_member(proof: Seq<u8>, ring: Seq<Member>)
    ensures
        accepted(proof, members_payload(ring)) <==> names_member(proof, ring),
{
    if accepted(proof, members_payload(ring)) {
        let k = choose|k: int| holds_at(members_payload(ring), k, proof);
        lemma_listed_only(ring, k, proof);
        assert(ring[k]@ == proof);
    }
    if names_member(proof, ring) {
        let k = choose|k: int| 0 <= k < ring.len() && (#[trigger] ring[k])@ == proof;
        lemma_listed_at(ring, k);
    }
}

/// What `validate_trivial` returns. A proof of another length than 33 bytes
/// gives `DecodeError`, whatever the other bytes are, and so do bytes that are
/// not the encoding of a ring. A proof that names a member of the ring gives
/// the alias, which is the seed that the proof shows; any other proof gives
/// `ProofValidationFailure`.
pub open spec fn validate_trivial_done(
    proof: Seq<u8>,
    members: Seq<u8>,
    r: Result<Vec<u8>, ProtocolError>,
) -> bool {
    if proof.len() != 33 || !is_ring_encoding(members) {
        r == Err::<Vec<u8>, ProtocolError>(ProtocolError::DecodeError)
    } else {
        exists|ring: Seq<Member>|
            ring.len() <= MAX_MEMBERS && #[trigger] members_encoding(ring) == members
                && if names_member(proof, ring) {
                r matches Ok(alias) && alias@ == proof.subrange(0, 32)
            } else {
                r == Err::<Vec<u8>, ProtocolError>(ProtocolError::ProofValidationFailure)
            }
    }
}

/// With capabilities that work as those of this scheme do, validating ends as
/// `validate_trivial_done` says.
proof fn lemma_validated_outcome<R, L, F, V>(
    read_proof: R,
    lookup: L,
    fold: F,
    verify: V,
    proof: &[u8],
    members: &[u8],
    context: &[u8],
    message: &[u8],
    r: Result<Vec<u8>, ProtocolError>,
) where
    R: Fn(&[u8]) -> Option<Vec<u8>>,
    L: Fn(usize) -> Result<Vec<u8>, ()>,
    F: Fn(&Vec<u8>, &Member, &Vec<u8>) -> Vec<u8>,
    V: Fn(&Vec<u8>, &Vec<u8>, &[u8], &[u8]) -> Option<Alias>,

    requires
        reads(read_proof),
        never_fails(lookup),
        appends(fold),
        verifies(verify),
        validate_done(read_proof, lookup, fold, verify, proof, members, context, message, r),
    ensures
        validate_trivial_done(proof@, members@, r),
{
    let decoded = choose|decoded: Result<Proof, ProtocolError>| #[trigger]
        proof_decoded(read_proof, proof, decoded) && match decoded {
            Ok(held) => validate_answered(
                lookup,
                fold,
                verify,
                held,
                members,
                context,
                message,
                r,
            ),
            Err(e) => r == Err::<Vec<u8>, ProtocolError>(e),
        };
    match decoded {
        Err(_) => {
            assert(call_ensures(read_proof, (proof,), None::<Vec<u8>>));
        },
        Ok(held) => {
            assert(call_ensures(read_proof, (proof,), Some(*held.bytes())));
            lemma_answered_outcome(lookup, fold, verify, held, members, context, message, r);
        },
    }
}

/// The part of `lemma_validated_outcome` that follows the decoding of the
/// proof.
proof fn lemma_answered_outcome<L, F, V>(
    lookup: L,
    fold: F,
    verify: V,
    held: Proof,
    members: &[u8],
    context: &[u8],
    message: &[u8],
    r: Result<Vec<u8>, ProtocolError>,
) where
    L: Fn(usize) -> Result<Vec<u8>, ()>,
    F: Fn(&Vec<u8>, &Member, &Vec<u8>) -> Vec<u8>,
    V: Fn(&Vec<u8>, &Vec<u8>, &[u8], &[u8]) -> Option<Alias>,

    requires
        never_fails(lookup),
        appends(fold),
        verifies(verify),
        held.bytes()@.len() == 33,
        validate_answered(lookup, fold, verify, held, members, context, message, r),
    ensures
        validate_trivial_done(held.bytes()@, members@, r),
{
    let proof = held.bytes()@;
    if is_ring_encoding(members@) {
        let (ring, commitment) = choose|
            ring: Seq<Member>,
            commitment: Result<RingCommitment, ProtocolError>,
        | #[trigger]
            built(lookup, fold, ring, commitment) && ring.len() <= MAX_MEMBERS && members_encoding(
                ring,
            ) == members@ && match commitment {
                Ok(c) => validate_verified(verify, held, c, context, message, r),
                Err(e) => r == Err::<Vec<u8>, ProtocolError>(e),
            };
        lemma_accepted_names_member(proof, ring);
        match commitment {
            Err(_) => {
                let (k, prev) = choose|k: int, prev: Vec<u8>|
                    #![trigger folded(lookup, fold, ring.take(k), prev)]
                    0 <= k < ring.len() && folded(lookup, fold, ring.take(k), prev)
                        && call_ensures(lookup, (k as usize,), Err::<Vec<u8>, ()>(()));
                assert(call_ensures(lookup, (k as usize,), Err::<Vec<u8>, ()>(())));
            },
            Ok(c) => {
                let aggregate = *c.aggregate();
                lemma_aggregate_lists_ring(lookup, fold, ring, aggregate);
                let answer = choose|answer: Result<Alias, ProtocolError>| #[trigger]
                    validated(verify, held, c, context, message, answer) && match answer {
                        Ok(alias) => r matches Ok(out) && out@ == alias@,
                        Err(e) => r == Err::<Vec<u8>, ProtocolError>(e),
                    };
                let bytes = *held.bytes();
                match answer {
                    Ok(alias) => {
                        assert(call_ensures(
                            verify,
                            (&bytes, &aggregate, context, message),
                            Some(alias),
                        ));
                    },
                    Err(_) => {
                        assert(call_ensures(
                            verify,
                            (&bytes, &aggregate, context, message),
                            None::<Alias>,
                        ));
                    },
                }
            },
        }
        assert(ring.len() <= MAX_MEMBERS && members_encoding(ring) == members@);
    }
}

/// Validates a proof of this scheme against the ring that `members` encodes,
/// and returns the encoding of the alias. The proof is decoded before the ring
/// is read. Context and message are handed to the verifier, which does not
/// look at them.
pub fn validate_trivial(proof: &[u8], members: &[u8], context: &[u8], message: &[u8]) -> (r: Result<
    Vec<u8>,
    ProtocolError,
>)
    ensures
        validate_trivial_done(proof@, members@, r),
{
    let r = validate(
        proof,
        members,
        context,
        message,
        &read_proof,
        &basis_lookup,
        &fold,
        &verify,
    );
    proof {
        lemma_validated_outcome(
            read_proof,
            basis_lookup,
            fold,
            verify,
            proof,
            members,
            context,
            message,
            r,
        );
    }
    r
}

/// What was enrolled and proved validates: the proof that `one_shot_trivial`
/// returns is accepted for the ring that it returns, and the alias that comes
/// back is the alias that it returned.
pub proof fn lemma_enrolled_proof_validates(
    entropy: Seq<u8>,
    members: Seq<u8>,
    out: Enrolled,
    r: Result<Vec<u8>, ProtocolError>,
)
    requires
        one_shot_trivial_done(entropy, members, Ok(out)),
        validate_trivial_done(out.proof@, out.members@, r),
    ensures
        r matches Ok(alias) && alias@ == out.alias@,
{
    let (ring, member) = choose|ring: Seq<Member>, member: Member|
        #![trigger members_encoding(ring.push(member))]
        ring.len() <= MAX_MEMBERS && members_encoding(ring) == members && member@ == point_bytes(
            entropy,
        ) && if !has_room(ring.len()) {
            Ok::<Enrolled, ProtocolError>(out) == Err::<Enrolled, ProtocolError>(
                ProtocolError::LookupFailure,
            )
        } else {
            out.member@ == point_bytes(entropy) && out.members@ == members_encoding(
                ring.push(member),
            ) && out.proof@ == point_bytes(entropy) && out.alias@ == entropy
        };
    let longer = ring.push(member);
    assert(longer.len() <= MAX_MEMBERS && members_encoding(longer) == out.members@);
    assert(is_ring_encoding(out.members@));
    let seen = choose|seen: Seq<Member>|
        seen.len() <= MAX_MEMBERS && #[trigger] members_encoding(seen) == out.members@
            && if names_member(out.proof@, seen) {
            r matches Ok(alias) && alias@ == out.proof@.subrange(0, 32)
        } else {
            r == Err::<Vec<u8>, ProtocolError>(ProtocolError::ProofValidationFailure)
        };
    lemma_encoding_unique(seen, longer);
    assert(longer[ring.len() as int]@ == out.proof@);
    assert(names_member(out.proof@, longer));
    assert(out.proof@.subrange(0, 32) =~= entropy);
}

} // verus!
