use verifiable::bytes::encode_fixed;
use verifiable::commitment::{
    build_commitment, decode_opening, encode_opening, finish_members, open, push_member,
    start_members, RingCommitment,
};
use verifiable::engine::{create, decode_proof, validate_proof, Proof};
use verifiable::error::ProtocolError;
use verifiable::keys::{member_from_secret, new_secret};
use verifiable::protocol::{enroll_and_prove, member_from_entropy, one_shot, validate};
use verifiable::ring::Ring;
use verifiable::verifier_key::VerifierKey;

// A stand-in for the curve and the proof system, transparent and without any
// security: the aggregate lists the members with their basis elements, and a
// proof shows the seed.

const TAG: u8 = 0x80;

fn digest(parts: &[&[u8]]) -> [u8; 32] {
    let mut state: [u64; 4] = [
        0x6a09e667f3bcc908,
        0xbb67ae8584caa73b,
        0x3c6ef372fe94f82b,
        0xa54ff53a5f1d36f1,
    ];
    for part in parts {
        for lane in state.iter_mut() {
            *lane = (*lane ^ part.len() as u64).wrapping_mul(0x100000001b3);
        }
        for (i, byte) in part.iter().enumerate() {
            let lane = i % 4;
            state[lane] = (state[lane] ^ *byte as u64).wrapping_mul(0x100000001b3);
            state[(lane + 1) % 4] = state[(lane + 1) % 4].rotate_left(7) ^ state[lane];
        }
    }
    let mut out = [0u8; 32];
    for (i, lane) in state.iter().enumerate() {
        out[8 * i..8 * i + 8].copy_from_slice(&lane.to_le_bytes());
    }
    out
}

fn derive_point(seed: &[u8; 32]) -> Option<[u8; 33]> {
    if seed[0] == 0xff {
        return None;
    }
    let mut point = [TAG; 33];
    point[..32].copy_from_slice(&digest(&[b"point", seed]));
    Some(point)
}

fn fold(aggregate: &Vec<u8>, member: &[u8; 33], basis: &Vec<u8>) -> Vec<u8> {
    let mut next = aggregate.clone();
    next.extend_from_slice(member);
    next.push(basis.len() as u8);
    next.extend_from_slice(basis);
    next
}

fn members_in(aggregate: &[u8]) -> Vec<[u8; 33]> {
    let mut members = Vec::new();
    let mut at = 0;
    while at + 34 <= aggregate.len() {
        let mut member = [0u8; 33];
        member.copy_from_slice(&aggregate[at..at + 33]);
        members.push(member);
        at += 34 + aggregate[at + 33] as usize;
    }
    members
}

fn alias_of(seed: &[u8; 32], context: &[u8], message: &[u8]) -> [u8; 32] {
    digest(&[b"alias", seed, context, message])
}

// A prover that notices a secret that does not fit the opened position.
fn prove(
    aggregate: &Vec<u8>,
    index: u32,
    seed: &[u8; 32],
    context: &[u8],
    message: &[u8],
) -> Option<(Vec<u8>, [u8; 32])> {
    let members = members_in(aggregate);
    if members.get(index as usize) != derive_point(seed).as_ref() {
        return None;
    }
    prove_unchecked(aggregate, index, seed, context, message)
}

// A prover that cannot tell, and proves whatever it is given.
fn prove_unchecked(
    aggregate: &Vec<u8>,
    _index: u32,
    seed: &[u8; 32],
    context: &[u8],
    message: &[u8],
) -> Option<(Vec<u8>, [u8; 32])> {
    let mut proof = seed.to_vec();
    proof.extend_from_slice(&digest(&[b"proof", seed, aggregate, context, message]));
    Some((proof, alias_of(seed, context, message)))
}

fn read_proof(bytes: &[u8]) -> Option<Vec<u8>> {
    if bytes.len() == 64 {
        Some(bytes.to_vec())
    } else {
        None
    }
}

fn verify(
    proof: &Vec<u8>,
    aggregate: &Vec<u8>,
    context: &[u8],
    message: &[u8],
) -> Option<[u8; 32]> {
    if proof.len() != 64 {
        return None;
    }
    let mut seed = [0u8; 32];
    seed.copy_from_slice(&proof[..32]);
    let member = derive_point(&seed)?;
    if !members_in(aggregate).contains(&member) {
        return None;
    }
    if proof[32..] != digest(&[b"proof", &seed, aggregate, context, message]) {
        return None;
    }
    Some(alias_of(&seed, context, message))
}

fn key_for(ring_size: usize) -> VerifierKey {
    VerifierKey::from_basis((0..ring_size).map(|i| vec![i as u8, 0xb5]).collect())
}

fn member_of(entropy: [u8; 32]) -> [u8; 33] {
    member_from_secret(&new_secret(entropy), &derive_point).unwrap()
}

fn ring_of_ten() -> Ring {
    let mut ring = Ring::new();
    for i in 0..10u8 {
        assert!(ring.try_push(member_of([i; 32])).is_ok());
    }
    ring
}

#[test]
fn secret_is_the_same_for_the_same_entropy() {
    let a = new_secret([3u8; 32]);
    let b = new_secret([3u8; 32]);
    assert_eq!(a.seed(), [3u8; 32]);
    assert_eq!(a.seed(), b.seed());
    assert_ne!(a.seed(), new_secret([4u8; 32]).seed());
}

#[test]
fn member_is_the_same_for_the_same_entropy() {
    let first = member_from_secret(&new_secret([3u8; 32]), &derive_point);
    let second = member_from_secret(&new_secret([3u8; 32]), &derive_point);
    assert_eq!(first, second);
    assert_eq!(first, Ok(derive_point(&[3u8; 32]).unwrap()));
}

#[test]
fn member_off_the_curve_is_an_invalid_key() {
    let r = member_from_secret(&new_secret([0xff; 32]), &derive_point);
    assert_eq!(r, Err(ProtocolError::InvalidKey));
}

#[test]
fn member_from_entropy_encodes_the_derived_member() {
    let entropy = [0u8; 32];
    let typed = member_of(entropy);
    let bytes = member_from_entropy(&entropy, &derive_point).unwrap();
    assert_eq!(bytes.len(), 33);
    assert_eq!(bytes, encode_fixed(&typed));
    assert_eq!(bytes[32], TAG);
}

#[test]
fn member_from_entropy_refuses_other_lengths() {
    assert_eq!(
        member_from_entropy(&[0u8; 31], &derive_point),
        Err(ProtocolError::DecodeError)
    );
    assert_eq!(
        member_from_entropy(&[0u8; 33], &derive_point),
        Err(ProtocolError::DecodeError)
    );
    assert_eq!(
        member_from_entropy(&[0xff; 32], &derive_point),
        Err(ProtocolError::InvalidKey)
    );
}

#[test]
fn members_encoded_one_by_one_fill_the_ring_encoding() {
    let ring = ring_of_ten();
    let mut expected = vec![40u8];
    for i in 0..10u8 {
        expected.extend_from_slice(&member_from_entropy(&[i; 32], &derive_point).unwrap());
    }
    assert_eq!(ring.encode(), expected);
}

#[test]
fn push_member_folds_in_ring_order() {
    let key = key_for(4);
    let lookup = |i: usize| key.lookup(i);
    let mut state = start_members();
    assert_eq!(state.count(), 0);
    assert!(state.aggregate().is_empty());
    assert_eq!(push_member(&mut state, [1u8; 33], &lookup, &fold), Ok(()));
    assert_eq!(state.count(), 1);
    let mut expected = vec![1u8; 33];
    expected.extend_from_slice(&[2, 0, 0xb5]);
    assert_eq!(state.aggregate(), &expected);
    assert_eq!(push_member(&mut state, [2u8; 33], &lookup, &fold), Ok(()));
    assert_eq!(state.count(), 2);
    expected.extend_from_slice(&[2u8; 33]);
    expected.extend_from_slice(&[2, 1, 0xb5]);
    assert_eq!(state.aggregate(), &expected);
    assert_eq!(finish_members(state).aggregate(), &expected);
}

#[test]
fn push_member_beyond_the_key_is_a_lookup_failure() {
    let key = key_for(1);
    let lookup = |i: usize| key.lookup(i);
    let mut state = start_members();
    assert_eq!(push_member(&mut state, [1u8; 33], &lookup, &fold), Ok(()));
    let before = state.aggregate().clone();
    assert_eq!(
        push_member(&mut state, [2u8; 33], &lookup, &fold),
        Err(ProtocolError::LookupFailure)
    );
    assert_eq!(state.count(), 1);
    assert_eq!(state.aggregate(), &before);
}

#[test]
fn push_member_passes_on_a_failing_lookup() {
    let lookup = |_: usize| Err(());
    let mut state = start_members();
    assert_eq!(
        push_member(&mut state, [1u8; 33], &lookup, &fold),
        Err(ProtocolError::LookupFailure)
    );
    assert_eq!(state.count(), 0);
    assert!(state.aggregate().is_empty());
}

#[test]
fn incremental_and_one_shot_commitments_agree() {
    let key = key_for(16);
    let lookup = |i: usize| key.lookup(i);
    let ring = ring_of_ten();
    let mut state = start_members();
    for i in 0..ring.len() {
        assert_eq!(push_member(&mut state, ring.get(i), &lookup, &fold), Ok(()));
    }
    let incremental = finish_members(state);
    let (index, opened) = open(&ring.get(7), &ring, &lookup, &fold).unwrap();
    assert_eq!(index, 7);
    assert_eq!(opened.aggregate(), incremental.aggregate());
    let built = build_commitment(&ring, &lookup, &fold).unwrap();
    assert_eq!(built.aggregate(), incremental.aggregate());
    assert_eq!(incremental.aggregate().len(), 10 * 36);
}

#[test]
fn commitment_depends_on_the_order_of_the_ring() {
    let key = key_for(16);
    let lookup = |i: usize| key.lookup(i);
    let mut forward = Ring::new();
    let mut backward = Ring::new();
    for i in 0..4u8 {
        assert!(forward.try_push(member_of([i; 32])).is_ok());
        assert!(backward.try_push(member_of([3 - i; 32])).is_ok());
    }
    let a = build_commitment(&forward, &lookup, &fold).unwrap();
    let b = build_commitment(&backward, &lookup, &fold).unwrap();
    assert_ne!(a.aggregate(), b.aggregate());
}

#[test]
fn open_of_an_absent_member_is_member_not_found() {
    let key = key_for(16);
    let lookup = |i: usize| key.lookup(i);
    let ring = ring_of_ten();
    let stranger = member_of([10u8; 32]);
    assert!(matches!(
        open(&stranger, &ring, &lookup, &fold),
        Err(ProtocolError::MemberNotFound)
    ));
    // The scan comes first: no lookup is needed to miss a member.
    let failing = |_: usize| Err(());
    assert!(matches!(
        open(&stranger, &ring, &failing, &fold),
        Err(ProtocolError::MemberNotFound)
    ));
    assert!(matches!(
        open(&stranger, &Ring::new(), &lookup, &fold),
        Err(ProtocolError::MemberNotFound)
    ));
}

#[test]
fn open_of_a_ring_larger_than_the_key_is_a_lookup_failure() {
    let key = key_for(9);
    let lookup = |i: usize| key.lookup(i);
    let ring = ring_of_ten();
    assert!(matches!(
        open(&ring.get(0), &ring, &lookup, &fold),
        Err(ProtocolError::LookupFailure)
    ));
    assert!(matches!(
        build_commitment(&ring, &lookup, &fold),
        Err(ProtocolError::LookupFailure)
    ));
}

#[test]
fn open_gives_the_first_index_of_a_repeated_member() {
    let key = key_for(16);
    let lookup = |i: usize| key.lookup(i);
    let mut ring = ring_of_ten();
    assert!(ring.try_push(member_of([2u8; 32])).is_ok());
    let (index, _) = open(&member_of([2u8; 32]), &ring, &lookup, &fold).unwrap();
    assert_eq!(index, 2);
}

#[test]
fn create_proof_validate_proof() {
    let key = key_for(16);
    let lookup = |i: usize| key.lookup(i);
    let entropy = [5u8; 32];
    let secret = new_secret(entropy);
    let member = member_from_secret(&secret, &derive_point).unwrap();
    let ring = ring_of_ten();
    assert_eq!(ring.get(5), member);
    let context = b"Context";
    let message = b"FooBar";

    let opening = open(&member, &ring, &lookup, &fold).unwrap();
    assert_eq!(opening.0, 5);
    let (proof, alias) = create(&opening, &secret, context, message, &prove).unwrap();

    let commitment = build_commitment(&ring, &lookup, &fold).unwrap();
    let validated = validate_proof(&proof, &commitment, context, message, &verify);
    assert_eq!(validated, Ok(alias));
    assert_eq!(alias, alias_of(&entropy, context, message));
}

#[test]
fn one_shot_then_validate_gives_the_alias() {
    let key = key_for(16);
    let lookup = |i: usize| key.lookup(i);
    let entropy = [5u8; 32];
    let members = ring_of_ten().encode();
    let context = b"Context";
    let message = b"FooBar";

    let out = one_shot(
        &entropy,
        &members,
        context,
        message,
        &derive_point,
        &lookup,
        &fold,
        &prove,
    )
    .unwrap();
    assert_eq!(out.member, member_of(entropy).to_vec());
    assert_eq!(out.members, members);
    assert_eq!(out.context, context.to_vec());
    assert_eq!(out.message, message.to_vec());
    assert_eq!(out.alias.len(), 32);
    assert_eq!(out.alias, alias_of(&entropy, context, message).to_vec());

    let alias = validate(&out.proof, &members, context, message, &read_proof, &lookup, &fold, &verify);
    assert_eq!(alias, Ok(out.alias));
}

#[test]
fn one_shot_agrees_with_the_typed_operations() {
    let key = key_for(16);
    let lookup = |i: usize| key.lookup(i);
    let entropy = [0u8; 32];
    let ring = ring_of_ten();
    let context = b"Context";
    let message = b"FooBar";

    let secret = new_secret(entropy);
    let member = ring.get(0);
    let opening = open(&member, &ring, &lookup, &fold).unwrap();
    let (proof, alias) = create(&opening, &secret, context, message, &prove).unwrap();

    let out = one_shot(
        &entropy,
        &ring.encode(),
        context,
        message,
        &derive_point,
        &lookup,
        &fold,
        &prove,
    )
    .unwrap();
    assert_eq!(out.alias, alias.to_vec());
    assert_eq!(out.member, member.to_vec());
    assert_eq!(&out.proof, proof.bytes());
    assert_eq!(out.proof.len(), proof.bytes().len());

    let from_one_shot = validate(
        &out.proof,
        &ring.encode(),
        context,
        message,
        &read_proof,
        &lookup,
        &fold,
        &verify,
    );
    assert_eq!(from_one_shot, Ok(alias.to_vec()));
    let from_typed = validate(
        proof.bytes(),
        &ring.encode(),
        context,
        message,
        &read_proof,
        &lookup,
        &fold,
        &verify,
    );
    assert_eq!(from_typed, Ok(alias.to_vec()));
}

#[test]
fn one_shot_reports_each_failure() {
    let key = key_for(16);
    let lookup = |i: usize| key.lookup(i);
    let members = ring_of_ten().encode();
    let run = |entropy: &[u8], members: &[u8]| {
        one_shot(
            entropy,
            members,
            b"c",
            b"m",
            &derive_point,
            &lookup,
            &fold,
            &prove,
        )
        .map(|out| out.alias)
    };
    assert_eq!(run(&[5u8; 31], &members), Err(ProtocolError::DecodeError));
    assert_eq!(run(&[0xff; 32], &members), Err(ProtocolError::InvalidKey));
    assert_eq!(run(&[5u8; 32], &members[1..]), Err(ProtocolError::DecodeError));
    assert_eq!(run(&[10u8; 32], &members), Err(ProtocolError::MemberNotFound));
    assert_eq!(run(&[5u8; 32], &[0u8]), Err(ProtocolError::MemberNotFound));

    let small = key_for(3);
    let small_lookup = |i: usize| small.lookup(i);
    let r = one_shot(
        &[5u8; 32],
        &members,
        b"c",
        b"m",
        &derive_point,
        &small_lookup,
        &fold,
        &prove,
    );
    assert!(matches!(r, Err(ProtocolError::LookupFailure)));

    let refusing = |_: &Vec<u8>, _: u32, _: &[u8; 32], _: &[u8], _: &[u8]| None;
    let r = one_shot(
        &[5u8; 32],
        &members,
        b"c",
        b"m",
        &derive_point,
        &lookup,
        &fold,
        &refusing,
    );
    assert!(matches!(r, Err(ProtocolError::ProofCreationFailure)));
}

#[test]
fn create_with_a_secret_of_another_member_fails_where_the_prover_notices() {
    let key = key_for(16);
    let lookup = |i: usize| key.lookup(i);
    let ring = ring_of_ten();
    let opening = open(&ring.get(5), &ring, &lookup, &fold).unwrap();
    let other = new_secret([6u8; 32]);
    let r = create(&opening, &other, b"c", b"m", &prove);
    assert!(matches!(r, Err(ProtocolError::ProofCreationFailure)));
}

#[test]
fn create_with_a_secret_outside_the_ring_is_rejected_at_the_latest_by_validate() {
    let key = key_for(16);
    let lookup = |i: usize| key.lookup(i);
    let ring = ring_of_ten();
    let opening = open(&ring.get(5), &ring, &lookup, &fold).unwrap();
    let outsider = new_secret([77u8; 32]);
    let (proof, _) = create(&opening, &outsider, b"c", b"m", &prove_unchecked).unwrap();
    let r = validate_proof(&proof, &opening.1, b"c", b"m", &verify);
    assert_eq!(r, Err(ProtocolError::ProofValidationFailure));
}

#[test]
fn validate_rejects_what_was_not_proved() {
    let key = key_for(16);
    let lookup = |i: usize| key.lookup(i);
    let ring = ring_of_ten();
    let secret = new_secret([5u8; 32]);
    let opening = open(&ring.get(5), &ring, &lookup, &fold).unwrap();
    let (proof, alias) = create(&opening, &secret, b"Context", b"FooBar", &prove).unwrap();
    let commitment = &opening.1;
    let failure = Err(ProtocolError::ProofValidationFailure);

    assert_eq!(
        validate_proof(&proof, commitment, b"Context", b"FooBar", &verify),
        Ok(alias)
    );
    assert_eq!(
        validate_proof(&proof, commitment, b"context", b"FooBar", &verify),
        failure
    );
    assert_eq!(
        validate_proof(&proof, commitment, b"Context", b"FooBaz", &verify),
        failure
    );
    assert_eq!(
        validate_proof(&proof, commitment, b"FooBar", b"Context", &verify),
        failure
    );

    let mut tampered = proof.bytes().clone();
    tampered[40] ^= 1;
    assert_eq!(
        validate_proof(&Proof::from_bytes(tampered), commitment, b"Context", b"FooBar", &verify),
        failure
    );
    assert_eq!(
        validate_proof(&Proof::from_bytes(vec![]), commitment, b"Context", b"FooBar", &verify),
        failure
    );
    assert!(matches!(
        decode_proof(&[], &read_proof),
        Err(ProtocolError::DecodeError)
    ));
    assert_eq!(
        decode_proof(proof.bytes(), &read_proof).unwrap().bytes(),
        proof.bytes()
    );

    // Another ring, and the same ring in another order.
    let mut other = Ring::new();
    let mut reordered = Ring::new();
    for i in 0..10u8 {
        assert!(other.try_push(member_of([i + 20; 32])).is_ok());
        assert!(reordered.try_push(member_of([9 - i; 32])).is_ok());
    }
    let other = build_commitment(&other, &lookup, &fold).unwrap();
    assert_eq!(
        validate_proof(&proof, &other, b"Context", b"FooBar", &verify),
        failure
    );
    let reordered = build_commitment(&reordered, &lookup, &fold).unwrap();
    assert_eq!(
        validate_proof(&proof, &reordered, b"Context", b"FooBar", &verify),
        failure
    );
    let handed = RingCommitment::from_aggregate(commitment.aggregate().clone());
    assert_eq!(
        validate_proof(&proof, &handed, b"Context", b"FooBar", &verify),
        Ok(alias)
    );
}

#[test]
fn validate_reports_each_failure() {
    let key = key_for(16);
    let lookup = |i: usize| key.lookup(i);
    let members = ring_of_ten().encode();
    let out = one_shot(
        &[5u8; 32],
        &members,
        b"c",
        b"m",
        &derive_point,
        &lookup,
        &fold,
        &prove,
    )
    .unwrap();
    let mut longer = members.clone();
    longer.push(0);
    assert_eq!(
        validate(&out.proof, &longer, b"c", b"m", &read_proof, &lookup, &fold, &verify),
        Err(ProtocolError::DecodeError)
    );
    let small = key_for(3);
    let small_lookup = |i: usize| small.lookup(i);
    assert_eq!(
        validate(&out.proof, &members, b"c", b"m", &read_proof, &small_lookup, &fold, &verify),
        Err(ProtocolError::LookupFailure)
    );
    assert_eq!(
        validate(&out.proof, &members, b"c", b"n", &read_proof, &lookup, &fold, &verify),
        Err(ProtocolError::ProofValidationFailure)
    );
    assert_eq!(
        validate(&out.proof[1..], &members, b"c", b"m", &read_proof, &lookup, &fold, &verify),
        Err(ProtocolError::DecodeError)
    );
    let mut flipped = out.proof.clone();
    flipped[40] ^= 1;
    assert_eq!(
        validate(&flipped, &members, b"c", b"m", &read_proof, &lookup, &fold, &verify),
        Err(ProtocolError::ProofValidationFailure)
    );
    assert_eq!(
        validate(&out.proof, &members, b"c", b"m", &read_proof, &lookup, &fold, &verify),
        Ok(out.alias)
    );
}

#[test]
fn alias_depends_on_secret_context_and_message_only() {
    let key = key_for(16);
    let lookup = |i: usize| key.lookup(i);
    let secret = new_secret([5u8; 32]);
    let member = member_of([5u8; 32]);
    let ring = ring_of_ten();
    let mut small = Ring::new();
    assert!(small.try_push(member_of([9u8; 32])).is_ok());
    assert!(small.try_push(member).is_ok());

    let in_ten = open(&member, &ring, &lookup, &fold).unwrap();
    let in_two = open(&member, &small, &lookup, &fold).unwrap();
    assert_eq!(in_ten.0, 5);
    assert_eq!(in_two.0, 1);
    let (_, a) = create(&in_ten, &secret, b"Context", b"FooBar", &prove).unwrap();
    let (_, b) = create(&in_ten, &secret, b"Context", b"FooBar", &prove).unwrap();
    let (_, c) = create(&in_two, &secret, b"Context", b"FooBar", &prove).unwrap();
    assert_eq!(a, b);
    assert_eq!(a, c);

    let (_, other_context) = create(&in_ten, &secret, b"Other", b"FooBar", &prove).unwrap();
    let (_, other_message) = create(&in_ten, &secret, b"Context", b"Other", &prove).unwrap();
    assert_ne!(a, other_context);
    assert_ne!(a, other_message);

    let other_secret = new_secret([6u8; 32]);
    let opening = open(&member_of([6u8; 32]), &ring, &lookup, &fold).unwrap();
    let (_, d) = create(&opening, &other_secret, b"Context", b"FooBar", &prove).unwrap();
    assert_ne!(a, d);
}

#[test]
fn enroll_and_prove_enrolls_the_member_as_the_last() {
    let key = key_for(16);
    let lookup = |i: usize| key.lookup(i);
    let entropy = [42u8; 32];
    let member = member_of(entropy);
    let ring = ring_of_ten();
    let out = enroll_and_prove(
        &entropy,
        &ring.encode(),
        b"c",
        b"m",
        &derive_point,
        &lookup,
        &fold,
        &prove,
    )
    .unwrap();
    assert_eq!(out.member, member.to_vec());
    let enrolled = Ring::decode(&out.members).unwrap();
    assert_eq!(enrolled.len(), 11);
    assert_eq!(enrolled.get(10), member);
    for i in 0..10 {
        assert_eq!(enrolled.get(i), ring.get(i));
    }
    assert_eq!(out.alias, alias_of(&entropy, b"c", b"m").to_vec());
    let alias = validate(&out.proof, &out.members, b"c", b"m", &read_proof, &lookup, &fold, &verify);
    assert_eq!(alias, Ok(out.alias));
}

#[test]
fn enroll_and_prove_proves_for_the_first_place_of_a_member_already_there() {
    let key = key_for(16);
    let lookup = |i: usize| key.lookup(i);
    let seen = std::cell::Cell::new(u32::MAX);
    let watching = |aggregate: &Vec<u8>, index: u32, seed: &[u8; 32], c: &[u8], m: &[u8]| {
        seen.set(index);
        prove(aggregate, index, seed, c, m)
    };
    let out = enroll_and_prove(
        &[3u8; 32],
        &ring_of_ten().encode(),
        b"c",
        b"m",
        &derive_point,
        &lookup,
        &fold,
        &watching,
    )
    .unwrap();
    assert_eq!(seen.get(), 3);
    assert_eq!(Ring::decode(&out.members).unwrap().len(), 11);
}

#[test]
fn enroll_and_prove_starts_a_ring_where_there_is_none() {
    let key = key_for(16);
    let lookup = |i: usize| key.lookup(i);
    let out = enroll_and_prove(
        &[1u8; 32],
        &[0u8],
        b"c",
        b"m",
        &derive_point,
        &lookup,
        &fold,
        &prove,
    )
    .unwrap();
    let mut expected = vec![4u8];
    expected.extend_from_slice(&member_of([1u8; 32]));
    assert_eq!(out.members, expected);
}

#[test]
fn enroll_and_prove_reports_each_failure() {
    let key = key_for(10);
    let lookup = |i: usize| key.lookup(i);
    let members = ring_of_ten().encode();
    let run = |entropy: &[u8], members: &[u8]| {
        enroll_and_prove(
            entropy,
            members,
            b"c",
            b"m",
            &derive_point,
            &lookup,
            &fold,
            &prove,
        )
        .map(|out| out.alias)
    };
    assert_eq!(run(&[], &members), Err(ProtocolError::DecodeError));
    assert_eq!(run(&[0xff; 32], &members), Err(ProtocolError::InvalidKey));
    assert_eq!(run(&[1u8; 32], &[]), Err(ProtocolError::DecodeError));
    // Ten members fill the key: there is no basis element for an eleventh.
    assert_eq!(run(&[42u8; 32], &members), Err(ProtocolError::LookupFailure));
    let refusing = |_: &Vec<u8>, _: u32, _: &[u8; 32], _: &[u8], _: &[u8]| None;
    let large = key_for(11);
    let large_lookup = |i: usize| large.lookup(i);
    let r = enroll_and_prove(
        &[42u8; 32],
        &members,
        b"c",
        b"m",
        &derive_point,
        &large_lookup,
        &fold,
        &refusing,
    );
    assert!(matches!(r, Err(ProtocolError::ProofCreationFailure)));
}

#[test]
fn validate_refuses_a_malformed_proof_before_it_reads_the_ring() {
    let key = key_for(16);
    let lookup = |i: usize| key.lookup(i);
    let members = ring_of_ten().encode();
    assert_eq!(
        validate(&[], &members, b"Context", b"FooBar", &read_proof, &lookup, &fold, &verify),
        Err(ProtocolError::DecodeError)
    );
    assert_eq!(
        validate(&[0u8; 63], &members, b"Context", b"FooBar", &read_proof, &lookup, &fold, &verify),
        Err(ProtocolError::DecodeError)
    );
    assert_eq!(
        validate(&[0u8; 65], &members, b"Context", b"FooBar", &read_proof, &lookup, &fold, &verify),
        Err(ProtocolError::DecodeError)
    );
    // The ring is not looked at: no lookup and no fold is called for.
    let untouched = |_: usize| -> Result<Vec<u8>, ()> { panic!("the ring was read") };
    assert_eq!(
        validate(&[], &members, b"Context", b"FooBar", &read_proof, &untouched, &fold, &verify),
        Err(ProtocolError::DecodeError)
    );
    // A well-formed proof that proves nothing is a failed validation.
    assert_eq!(
        validate(&[0u8; 64], &members, b"Context", b"FooBar", &read_proof, &lookup, &fold, &verify),
        Err(ProtocolError::ProofValidationFailure)
    );
}

#[test]
fn opening_encodes_as_index_then_aggregate() {
    let opening = (0x0102_0304u32, RingCommitment::from_aggregate(vec![9, 8, 7]));
    let bytes = encode_opening(&opening);
    assert_eq!(bytes, vec![4, 3, 2, 1, 9, 8, 7]);
    let back = decode_opening(&bytes).unwrap();
    assert_eq!(back.0, 0x0102_0304);
    assert_eq!(back.1.aggregate(), &vec![9u8, 8, 7]);
    let bare = decode_opening(&[5, 0, 0, 0]).unwrap();
    assert_eq!(bare.0, 5);
    assert!(bare.1.aggregate().is_empty());
    assert!(matches!(
        decode_opening(&[5, 0, 0]),
        Err(ProtocolError::DecodeError)
    ));
    assert!(matches!(decode_opening(&[]), Err(ProtocolError::DecodeError)));
}

#[test]
fn one_shot_gives_the_same_alias_in_every_ring() {
    let key = key_for(16);
    let lookup = |i: usize| key.lookup(i);
    let entropy = [5u8; 32];
    let ten = ring_of_ten().encode();
    let mut two = Ring::new();
    assert!(two.try_push(member_of([9u8; 32])).is_ok());
    assert!(two.try_push(member_of(entropy)).is_ok());
    let two = two.encode();
    let run = |members: &[u8]| {
        one_shot(
            &entropy,
            members,
            b"Context",
            b"FooBar",
            &derive_point,
            &lookup,
            &fold,
            &prove,
        )
        .unwrap()
    };
    let first = run(&ten);
    let again = run(&ten);
    let second = run(&two);
    assert_eq!(first.alias, again.alias);
    assert_eq!(first.member, again.member);
    assert_eq!(first.members, again.members);
    assert_eq!(first.alias, second.alias);
    assert_eq!(first.member, second.member);
    assert_ne!(first.proof, second.proof);

    let seen_in_ten = validate(
        &first.proof,
        &ten,
        b"Context",
        b"FooBar",
        &read_proof,
        &lookup,
        &fold,
        &verify,
    );
    let seen_in_two = validate(
        &second.proof,
        &two,
        b"Context",
        b"FooBar",
        &read_proof,
        &lookup,
        &fold,
        &verify,
    );
    assert_eq!(seen_in_ten, Ok(first.alias));
    assert_eq!(seen_in_ten, seen_in_two);
}

#[test]
fn member_from_entropy_repeats() {
    let first = member_from_entropy(&[8u8; 32], &derive_point);
    let second = member_from_entropy(&[8u8; 32], &derive_point);
    assert_eq!(first, second);
    assert_eq!(first, Ok(member_of([8u8; 32]).to_vec()));
}
