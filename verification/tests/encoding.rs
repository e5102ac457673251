use verifiable::bytes::{decode_fixed, encode_fixed, same_bytes};
use verifiable::error::ProtocolError;
use verifiable::ring::Ring;
use verifiable::scale::compact_len;
use verifiable::verifier_key::VerifierKey;

fn ring_of(count: usize) -> Ring {
    let mut ring = Ring::new();
    for i in 0..count {
        let mut member = [0u8; 33];
        member[0] = (i % 251) as u8;
        member[1] = (i / 251) as u8;
        member[32] = 0x80;
        assert!(ring.try_push(member).is_ok());
    }
    ring
}

#[test]
fn member_encodes_to_its_33_bytes() {
    let mut member = [0u8; 33];
    for (i, byte) in member.iter_mut().enumerate() {
        *byte = i as u8;
    }
    let bytes = encode_fixed(&member);
    assert_eq!(bytes.len(), 33);
    assert_eq!(bytes, member.to_vec());
}

#[test]
fn member_round_trips() {
    let mut member = [7u8; 33];
    member[32] = 0x80;
    let back: Result<[u8; 33], ProtocolError> = decode_fixed(&encode_fixed(&member));
    assert_eq!(back, Ok(member));
}

#[test]
fn entropy_has_to_be_32_bytes() {
    let exact: Result<[u8; 32], ProtocolError> = decode_fixed(&[9u8; 32]);
    assert_eq!(exact, Ok([9u8; 32]));
    let short: Result<[u8; 32], ProtocolError> = decode_fixed(&[9u8; 31]);
    assert_eq!(short, Err(ProtocolError::DecodeError));
    let long: Result<[u8; 32], ProtocolError> = decode_fixed(&[9u8; 33]);
    assert_eq!(long, Err(ProtocolError::DecodeError));
    let empty: Result<[u8; 32], ProtocolError> = decode_fixed(&[]);
    assert_eq!(empty, Err(ProtocolError::DecodeError));
}

#[test]
fn same_bytes_compares_every_byte() {
    let a = [1u8; 33];
    let mut b = [1u8; 33];
    assert!(same_bytes(&a, &b));
    b[32] = 2;
    assert!(!same_bytes(&a, &b));
}

#[test]
fn compact_len_follows_the_four_ranges() {
    assert_eq!(compact_len(0), 1);
    assert_eq!(compact_len(63), 1);
    assert_eq!(compact_len(64), 2);
    assert_eq!(compact_len(16383), 2);
    assert_eq!(compact_len(16384), 4);
    assert_eq!(compact_len(1073741823), 4);
    assert_eq!(compact_len(1073741824), 5);
    assert_eq!(compact_len(u32::MAX), 5);
}

#[test]
fn empty_ring_is_one_zero_byte() {
    let ring = Ring::new();
    assert_eq!(ring.len(), 0);
    assert_eq!(ring.encode(), vec![0u8]);
    let back = Ring::decode(&[0u8]).unwrap();
    assert_eq!(back.len(), 0);
}

#[test]
fn ring_of_ten_has_a_one_byte_prefix() {
    let ring = ring_of(10);
    let bytes = ring.encode();
    assert_eq!(bytes.len(), 1 + 10 * 33);
    assert_eq!(bytes[0], 40);
    assert_eq!(&bytes[1..34], &ring.get(0)[..]);
    assert_eq!(&bytes[1 + 9 * 33..], &ring.get(9)[..]);
}

#[test]
fn ring_of_64_has_a_two_byte_prefix() {
    let ring = ring_of(64);
    let bytes = ring.encode();
    assert_eq!(bytes.len(), 2 + 64 * 33);
    assert_eq!(&bytes[..2], &[0x01, 0x01]);
    let back = Ring::decode(&bytes).unwrap();
    assert_eq!(back.len(), 64);
    assert_eq!(back.get(63), ring.get(63));
}

#[test]
fn ring_of_16384_has_a_four_byte_prefix() {
    let ring = ring_of(16384);
    let bytes = ring.encode();
    assert_eq!(bytes.len(), 4 + 16384 * 33);
    assert_eq!(&bytes[..4], &[0x02, 0x00, 0x01, 0x00]);
    let back = Ring::decode(&bytes).unwrap();
    assert_eq!(back.len(), 16384);
    assert_eq!(back.get(16383), ring.get(16383));
}

#[test]
fn ring_round_trips_in_order() {
    let ring = ring_of(100);
    let back = Ring::decode(&ring.encode()).unwrap();
    assert_eq!(back.len(), 100);
    for i in 0..100 {
        assert_eq!(back.get(i), ring.get(i));
    }
    assert_eq!(back.encode(), ring.encode());
}

#[test]
fn ring_with_bytes_behind_the_last_member_is_refused() {
    let mut bytes = ring_of(3).encode();
    bytes.push(0);
    assert!(matches!(Ring::decode(&bytes), Err(ProtocolError::DecodeError)));
}

#[test]
fn ring_with_a_member_cut_short_is_refused() {
    let mut bytes = ring_of(3).encode();
    bytes.pop();
    assert!(matches!(Ring::decode(&bytes), Err(ProtocolError::DecodeError)));
    assert!(matches!(Ring::decode(&[]), Err(ProtocolError::DecodeError)));
}

#[test]
fn ring_with_a_padded_length_is_refused() {
    // Three members, the length written in two bytes where one would do.
    let canonical = ring_of(3).encode();
    let mut padded = vec![0x0d, 0x00];
    padded.extend_from_slice(&canonical[1..]);
    assert!(matches!(Ring::decode(&padded), Err(ProtocolError::DecodeError)));
    // And in four bytes.
    let mut padded = vec![0x0e, 0x00, 0x00, 0x00];
    padded.extend_from_slice(&canonical[1..]);
    assert!(matches!(Ring::decode(&padded), Err(ProtocolError::DecodeError)));
    // And in five.
    let mut padded = vec![0x03, 0x03, 0x00, 0x00, 0x00];
    padded.extend_from_slice(&canonical[1..]);
    assert!(matches!(Ring::decode(&padded), Err(ProtocolError::DecodeError)));
}

#[test]
fn ring_with_a_length_beyond_32_bits_is_refused() {
    assert!(matches!(
        Ring::decode(&[0x07, 0, 0, 0, 0, 1]),
        Err(ProtocolError::DecodeError)
    ));
}

#[test]
fn ring_that_announces_more_than_it_holds_is_refused() {
    // 2^30 members announced, none there.
    assert!(matches!(
        Ring::decode(&[0x03, 0x00, 0x00, 0x00, 0x40]),
        Err(ProtocolError::DecodeError)
    ));
}

#[test]
fn position_is_the_first_occurrence() {
    let mut ring = Ring::new();
    let a = [1u8; 33];
    let b = [2u8; 33];
    let c = [3u8; 33];
    for member in [a, b, a, c, b] {
        assert!(ring.try_push(member).is_ok());
    }
    assert_eq!(ring.len(), 5);
    assert_eq!(ring.position(&a), Some(0));
    assert_eq!(ring.position(&b), Some(1));
    assert_eq!(ring.position(&c), Some(3));
    assert_eq!(ring.position(&[4u8; 33]), None);
    assert_eq!(Ring::new().position(&a), None);
}

#[test]
fn try_push_appends_at_the_end() {
    let mut ring = Ring::new();
    assert_eq!(ring.try_push([5u8; 33]), Ok(()));
    assert_eq!(ring.try_push([6u8; 33]), Ok(()));
    assert_eq!(ring.len(), 2);
    assert_eq!(ring.get(0), [5u8; 33]);
    assert_eq!(ring.get(1), [6u8; 33]);
}

#[test]
fn verifier_key_looks_up_within_its_ring_size() {
    let key = VerifierKey::from_basis(vec![vec![1, 2, 3], vec![], vec![9]]);
    assert_eq!(key.ring_size(), 3);
    assert_eq!(key.lookup(0), Ok(vec![1, 2, 3]));
    assert_eq!(key.lookup(1), Ok(vec![]));
    assert_eq!(key.lookup(2), Ok(vec![9]));
    assert_eq!(key.lookup(3), Err(()));
    assert_eq!(key.lookup(usize::MAX), Err(()));
    assert_eq!(VerifierKey::from_basis(vec![]).lookup(0), Err(()));
}
