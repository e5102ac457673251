//! The fixed-size byte values of the protocol and their encodings.

use crate::error::ProtocolError;
use crate::scale::{decode_array, encode_array};
use vstd::prelude::*;

verus! {

/// The 32 bytes from which a secret is derived. Any value is valid.
pub type Entropy = [u8; 32];

/// The public identifier of a party: a compressed curve point of 32 bytes and
/// one tag byte.
pub type Member = [u8; 33];

/// The output that a secret yields for a context and a message.
pub type Alias = [u8; 32];

/// Whether two arrays hold the same bytes.
pub fn same_bytes<const N: usize>(a: &[u8; N], b: &[u8; N]) -> (same: bool)
    ensures
        same == (*a == *b),
{
    let mut i: usize = 0;
    while i < N
        invariant
            i <= N,
            forall|j: int| 0 <= j < i ==> a[j] == b[j],
        decreases N - i,
    {
        if a[i] != b[i] {
            return false;
        }
        i += 1;
    }
    assert(*a =~= *b);
    true
}

/// The encoding of a fixed-size value: its bytes.
pub open spec fn fixed_encoding<const N: usize>(value: [u8; N]) -> Seq<u8> {
    value@
}

/// Two fixed-size values with the same encoding are the same value, and an
/// encoding has as many bytes as the value.
pub proof fn lemma_fixed_encoding_unique<const N: usize>(a: [u8; N], b: [u8; N])
    ensures
        fixed_encoding(a).len() == N,
        fixed_encoding(a) == fixed_encoding(b) ==> a == b,
{
    if fixed_encoding(a) == fixed_encoding(b) {
        assert(forall|i: int| 0 <= i < N ==> a[i] == a@[i] && b[i] == b@[i]);
        assert(a =~= b);
    }
}

/// Encodes a fixed-size value.
pub fn encode_fixed<const N: usize>(value: &[u8; N]) -> (out: Vec<u8>)
    ensures
        out@ == fixed_encoding(*value),
        out@.len() == N,
{
    encode_array(value)
}

/// Decodes a fixed-size value from exactly `N` bytes. Input of any other
/// length is refused; the encoding of a value decodes to that value.
pub fn decode_fixed<const N: usize>(bytes: &[u8]) -> (r: Result<[u8; N], ProtocolError>)
    ensures
        match r {
            Ok(value) => fixed_encoding(value) == bytes@,
            Err(e) => e == ProtocolError::DecodeError && bytes@.len() != N,
        },
        forall|value: [u8; N]| #[trigger]
            fixed_encoding(value) == bytes@ ==> r == Ok::<[u8; N], ProtocolError>(value),
{
    if bytes.len() != N {
        return Err(ProtocolError::DecodeError);
    }
    match decode_array::<N>(bytes) {
        Ok(value) => {
            assert(bytes@.subrange(0, N as int) =~= bytes@);
            assert forall|other: [u8; N]| #[trigger] fixed_encoding(other) == bytes@ implies other
                == value by {
                lemma_fixed_encoding_unique(other, value);
            }
            Ok(value)
        },
        Err(_) => Err(ProtocolError::DecodeError),
    }
}

} // verus!
