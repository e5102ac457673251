use verifiable::commitment::{build_commitment, open};
use verifiable::engine::{create, validate_proof, Proof};
use verifiable::error::ProtocolError;
use verifiable::keys::{member_from_secret, new_secret};
use verifiable::protocol::{member_from_entropy, one_shot, validate};
use verifiable::ring::Ring;
use verifiable::trivial::{
    basis_lookup, create_trivial, derive_point, fold, member_from_secret_trivial,
    new_secret_trivial, one_shot_trivial, open_trivial, prove, read_proof, validate_trivial,
    verify,
    TRIVIAL_CONTEXT, TRIVIAL_MESSAGE,
};

fn point(seed: [u8; 32]) -> [u8; 33] {
    let mut member = [0u8; 33];
    member[..32].copy_from_slice(&seed);
    member
}

fn ring_of_ten() -> Ring {
    let mut ring = Ring::new();
    for i in 0..10u8 {
        assert!(ring.try_push(point([i; 32])).is_ok());
    }
    ring
}

#[test]
fn trivial_point_is_the_seed_with_a_zero_tag() {
    assert_eq!(derive_point(&[9u8; 32]), Some(point([9u8; 32])));
    assert_eq!(derive_point(&[0xff; 32]), Some(point([0xff; 32])));
    let member = member_from_secret(&new_secret([9u8; 32]), &derive_point);
    assert_eq!(member, Ok(point([9u8; 32])));
    let mut expected = vec![9u8; 32];
    expected.push(0);
    assert_eq!(member_from_entropy(&[9u8; 32], &derive_point), Ok(expected));
}

#[test]
fn trivial_lookup_has_the_empty_element_for_every_index() {
    assert_eq!(basis_lookup(0), Ok(vec![]));
    assert_eq!(basis_lookup(usize::MAX), Ok(vec![]));
}

#[test]
fn trivial_fold_appends_the_member() {
    let first = fold(&vec![], &[1u8; 33], &vec![]);
    assert_eq!(first, vec![1u8; 33]);
    let second = fold(&first, &[2u8; 33], &vec![7, 7]);
    let mut expected = vec![1u8; 33];
    expected.extend_from_slice(&[2u8; 33]);
    assert_eq!(second, expected);
}

#[test]
fn trivial_aggregate_lists_the_ring() {
    let ring = ring_of_ten();
    let commitment = build_commitment(&ring, &basis_lookup, &fold).unwrap();
    assert_eq!(commitment.aggregate()[..], ring.encode()[1..]);
}

#[test]
fn trivial_prove_wants_the_seed_of_the_opened_place() {
    let ring = ring_of_ten();
    let aggregate = build_commitment(&ring, &basis_lookup, &fold)
        .unwrap()
        .aggregate()
        .clone();
    let made = prove(&aggregate, 5, &[5u8; 32], b"c", b"m");
    assert_eq!(made, Some((point([5u8; 32]).to_vec(), [5u8; 32])));
    assert_eq!(prove(&aggregate, 4, &[5u8; 32], b"c", b"m"), None);
    assert_eq!(prove(&aggregate, 5, &[6u8; 32], b"c", b"m"), None);
    assert_eq!(prove(&aggregate, 10, &[5u8; 32], b"c", b"m"), None);
    assert_eq!(prove(&aggregate, u32::MAX, &[5u8; 32], b"c", b"m"), None);
    assert_eq!(prove(&vec![], 0, &[5u8; 32], b"c", b"m"), None);
}

#[test]
fn trivial_verify_wants_a_member_of_the_ring() {
    let ring = ring_of_ten();
    let aggregate = build_commitment(&ring, &basis_lookup, &fold)
        .unwrap()
        .aggregate()
        .clone();
    assert_eq!(
        verify(&point([9u8; 32]).to_vec(), &aggregate, b"c", b"m"),
        Some([9u8; 32])
    );
    assert_eq!(verify(&point([10u8; 32]).to_vec(), &aggregate, b"c", b"m"), None);
    assert_eq!(verify(&vec![9u8; 33], &aggregate, b"c", b"m"), None);
    assert_eq!(verify(&vec![9u8; 32], &aggregate, b"c", b"m"), None);
    assert_eq!(verify(&vec![], &aggregate, b"c", b"m"), None);
    // A point that straddles two members is not a member.
    let mut straddling = vec![2u8; 31];
    straddling.extend_from_slice(&[0, 3]);
    assert_eq!(straddling.len(), 33);
    assert_eq!(verify(&straddling, &aggregate, b"c", b"m"), None);
    assert_eq!(verify(&point([0u8; 32]).to_vec(), &vec![0u8; 32], b"c", b"m"), None);
}

#[test]
fn trivial_scheme_runs_the_whole_protocol() {
    let ring = ring_of_ten();
    let secret = new_secret([5u8; 32]);
    let member = member_from_secret(&secret, &derive_point).unwrap();
    let opening = open(&member, &ring, &basis_lookup, &fold).unwrap();
    assert_eq!(opening.0, 5);
    let (proof, alias) = create(&opening, &secret, b"Context", b"FooBar", &prove).unwrap();
    assert_eq!(alias, [5u8; 32]);
    let commitment = build_commitment(&ring, &basis_lookup, &fold).unwrap();
    assert_eq!(
        validate_proof(&proof, &commitment, b"Context", b"FooBar", &verify),
        Ok(alias)
    );
    let stranger = Proof::from_bytes(point([11u8; 32]).to_vec());
    assert_eq!(
        validate_proof(&stranger, &commitment, b"Context", b"FooBar", &verify),
        Err(ProtocolError::ProofValidationFailure)
    );
    let other = new_secret([6u8; 32]);
    assert!(matches!(
        create(&opening, &other, b"Context", b"FooBar", &prove),
        Err(ProtocolError::ProofCreationFailure)
    ));

    let members = ring.encode();
    let out = one_shot(
        &[5u8; 32],
        &members,
        b"Context",
        b"FooBar",
        &derive_point,
        &basis_lookup,
        &fold,
        &prove,
    )
    .unwrap();
    assert_eq!(&out.proof, proof.bytes());
    assert_eq!(out.alias, alias.to_vec());
    assert_eq!(
        validate(
            &out.proof,
            &members,
            b"Context",
            b"FooBar",
            &read_proof,
            &basis_lookup,
            &fold,
            &verify
        ),
        Ok(alias.to_vec())
    );
}

#[test]
fn one_shot_trivial_enrolls_and_proves() {
    let ring = ring_of_ten();
    let out = one_shot_trivial(&[42u8; 32], &ring.encode()).unwrap();
    let mut member = vec![42u8; 32];
    member.push(0);
    assert_eq!(out.member, member);
    assert_eq!(out.proof, member);
    assert_eq!(out.alias, vec![42u8; 32]);
    let mut members = ring.encode();
    members[0] = 44;
    members.extend_from_slice(&member);
    assert_eq!(out.members, members);
}

#[test]
fn one_shot_trivial_starts_a_ring_where_there_is_none() {
    let out = one_shot_trivial(&[1u8; 32], &[0u8]).unwrap();
    let mut members = vec![4u8];
    members.extend_from_slice(&[1u8; 32]);
    members.push(0);
    assert_eq!(out.members, members);
}

#[test]
fn one_shot_trivial_refuses_malformed_input() {
    let members = ring_of_ten().encode();
    assert!(matches!(
        one_shot_trivial(&[1u8; 31], &members),
        Err(ProtocolError::DecodeError)
    ));
    assert!(matches!(
        one_shot_trivial(&[1u8; 32], &members[..members.len() - 1]),
        Err(ProtocolError::DecodeError)
    ));
    assert!(matches!(
        one_shot_trivial(&[1u8; 32], &[]),
        Err(ProtocolError::DecodeError)
    ));
}

#[test]
fn one_shot_trivial_then_validate_trivial_gives_the_alias() {
    let out = one_shot_trivial(&[42u8; 32], &ring_of_ten().encode()).unwrap();
    let alias = validate_trivial(&out.proof, &out.members, &TRIVIAL_CONTEXT, &TRIVIAL_MESSAGE);
    assert_eq!(alias, Ok(out.alias));
}

#[test]
fn validate_trivial_reports_each_failure() {
    let members = ring_of_ten().encode();
    let proof = point([3u8; 32]).to_vec();
    assert_eq!(
        validate_trivial(&proof, &members, b"c", b"m"),
        Ok(vec![3u8; 32])
    );
    assert_eq!(
        validate_trivial(&proof, &members[1..], b"c", b"m"),
        Err(ProtocolError::DecodeError)
    );
    assert_eq!(
        validate_trivial(&point([30u8; 32]), &members, b"c", b"m"),
        Err(ProtocolError::ProofValidationFailure)
    );
    assert_eq!(
        validate_trivial(&proof[..32], &members, b"c", b"m"),
        Err(ProtocolError::DecodeError)
    );
    assert_eq!(
        validate_trivial(&[], &members, b"Context", b"FooBar"),
        Err(ProtocolError::DecodeError)
    );
    assert_eq!(
        validate_trivial(&[], &members[1..], b"c", b"m"),
        Err(ProtocolError::DecodeError)
    );
    assert_eq!(
        validate_trivial(&[3u8; 33], &members, b"c", b"m"),
        Err(ProtocolError::ProofValidationFailure)
    );
    assert_eq!(
        validate_trivial(&proof, &[0u8], b"c", b"m"),
        Err(ProtocolError::ProofValidationFailure)
    );
}

#[test]
fn new_secret_trivial_is_the_entropy() {
    assert_eq!(new_secret_trivial(&[8u8; 32]), Ok(vec![8u8; 32]));
    assert_eq!(new_secret_trivial(&[8u8; 33]), Err(ProtocolError::DecodeError));
    assert_eq!(new_secret_trivial(&[]), Err(ProtocolError::DecodeError));
}

#[test]
fn member_from_secret_trivial_adds_the_tag() {
    let secret = new_secret_trivial(&[8u8; 32]).unwrap();
    assert_eq!(
        member_from_secret_trivial(&secret),
        Ok(point([8u8; 32]).to_vec())
    );
    assert_eq!(
        member_from_secret_trivial(&[8u8; 31]),
        Err(ProtocolError::DecodeError)
    );
}

#[test]
fn open_trivial_gives_the_index_and_the_list() {
    let ring = ring_of_ten();
    let members = ring.encode();
    let opened = open_trivial(&point([7u8; 32]), &members);
    let mut expected = vec![7u8, 0, 0, 0];
    expected.extend_from_slice(&members[1..]);
    assert_eq!(opened, Ok(expected));
    assert_eq!(
        open_trivial(&point([17u8; 32]), &members),
        Err(ProtocolError::MemberNotFound)
    );
    assert_eq!(
        open_trivial(&point([7u8; 32]), &[0u8]),
        Err(ProtocolError::MemberNotFound)
    );
    assert_eq!(
        open_trivial(&[7u8; 32], &members),
        Err(ProtocolError::DecodeError)
    );
    assert_eq!(
        open_trivial(&point([7u8; 32]), &members[..40]),
        Err(ProtocolError::DecodeError)
    );
}

#[test]
fn create_trivial_proves_for_the_opened_place() {
    let members = ring_of_ten().encode();
    let opened = open_trivial(&point([7u8; 32]), &members).unwrap();
    let made = create_trivial(&opened, &[7u8; 32], b"c", b"m");
    assert_eq!(made, Ok((point([7u8; 32]).to_vec(), vec![7u8; 32])));
    assert_eq!(
        create_trivial(&opened, &[6u8; 32], b"c", b"m"),
        Err(ProtocolError::ProofCreationFailure)
    );
    assert_eq!(
        create_trivial(&opened, &[7u8; 30], b"c", b"m"),
        Err(ProtocolError::DecodeError)
    );
    assert_eq!(
        create_trivial(&opened[..3], &[7u8; 32], b"c", b"m"),
        Err(ProtocolError::DecodeError)
    );
    let mut elsewhere = opened.clone();
    elsewhere[0] = 10;
    assert_eq!(
        create_trivial(&elsewhere, &[7u8; 32], b"c", b"m"),
        Err(ProtocolError::ProofCreationFailure)
    );
    let (proof, alias) = made.unwrap();
    assert_eq!(validate_trivial(&proof, &members, b"c", b"m"), Ok(alias));
}

#[test]
fn trivial_read_proof_wants_33_bytes() {
    assert_eq!(read_proof(&[1u8; 33]), Some(vec![1u8; 33]));
    assert_eq!(read_proof(&[1u8; 32]), None);
    assert_eq!(read_proof(&[1u8; 34]), None);
    assert_eq!(read_proof(&[]), None);
}
