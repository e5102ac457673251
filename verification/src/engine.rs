//! The proof engine: creating a membership proof and validating one.
//!
//! The proof system itself is a capability. `decode_proof` lets it say whether
//! bytes are a well-formed proof; `create` hands the prover what it needs and
//! passes on what it answers; `validate_proof` does the same with the
//! verifier. Context and message go to both calls unchanged, so both are bound
//! into proof and alias.

use crate::bytes::{Alias, Entropy};
use crate::commitment::RingCommitment;
use crate::error::ProtocolError;
use crate::keys::SecretKey;
use vstd::prelude::*;

verus! {

/// A membership proof: bytes that only the proof system can read.
pub struct Proof {
    bytes: Vec<u8>,
}

impl Proof {
    /// The bytes of the proof.
    pub closed spec fn spec_bytes(&self) -> &Vec<u8> {
        &self.bytes
    }

    /// The bytes of the proof.
    #[verifier::when_used_as_spec(spec_bytes)]
    pub fn bytes(&self) -> (bytes: &Vec<u8>)
        ensures
            bytes == self.spec_bytes(),
    {
        &self.bytes
    }

    /// Gives up the proof for its bytes.
    pub fn into_bytes(self) -> (bytes: Vec<u8>)
        ensures
            bytes == *self.bytes(),
    {
        self.bytes
    }

    /// The proof with the given bytes. Any bytes make a proof; whether it
    /// holds is for `validate_proof` to say.
    pub fn from_bytes(bytes: Vec<u8>) -> (proof: Proof)
        ensures
            *proof.bytes() == bytes,
    {
        Proof { bytes }
    }
}

/// Whether `r` is what `decode_proof` can return: the proof that `read_proof`
/// read from the bytes, or `DecodeError` where it read none.
pub open spec fn proof_decoded<R>(read_proof: R, bytes: &[u8], r: Result<Proof, ProtocolError>) -> bool
    where R: Fn(&[u8]) -> Option<Vec<u8>> {
    match r {
        Ok(proof) => call_ensures(read_proof, (bytes,), Some(*proof.bytes())),
        Err(e) => e == ProtocolError::DecodeError && call_ensures(
            read_proof,
            (bytes,),
            None::<Vec<u8>>,
        ),
    }
}

/// Decodes a proof. Only the proof system knows what a well-formed proof is:
/// `read_proof` is called once, on `bytes`, and gives the bytes of the proof,
/// or `None` where `bytes` are malformed or of the wrong length, which is a
/// `DecodeError`.
pub fn decode_proof<R>(bytes: &[u8], read_proof: &R) -> (r: Result<Proof, ProtocolError>) where
    R: Fn(&[u8]) -> Option<Vec<u8>>,

    requires
        forall|b: &[u8]| call_requires(*read_proof, (b,)),
    ensures
        proof_decoded(*read_proof, bytes, r),
{
    let read = read_proof(bytes);
    match read {
        Some(held) => {
            assert(read == Some(held));
            Ok(Proof { bytes: held })
        },
        None => Err(ProtocolError::DecodeError),
    }
}

/// Whether `r` is what `create` can return: the proof and the alias that
/// `prove` gave for the opened position, the seed of the secret, the context and the
/// message, or `ProofCreationFailure` where it gave none.
pub open spec fn created<P>(
    prove: P,
    opening: (u32, RingCommitment),
    seed: Entropy,
    context: &[u8],
    message: &[u8],
    r: Result<(Proof, Alias), ProtocolError>,
) -> bool where P: Fn(&Vec<u8>, u32, &Entropy, &[u8], &[u8]) -> Option<(Vec<u8>, Alias)> {
    match r {
        Ok((proof, alias)) => call_ensures(
            prove,
            (opening.1.aggregate(), opening.0, &seed, context, message),
            Some((*proof.bytes(), alias)),
        ),
        Err(e) => e == ProtocolError::ProofCreationFailure && call_ensures(
            prove,
            (opening.1.aggregate(), opening.0, &seed, context, message),
            None::<(Vec<u8>, Alias)>,
        ),
    }
}

/// Creates a proof that `secret` belongs to the member at the opened position
/// of the ring, bound to `context` and `message`, and the alias of the secret.
///
/// `prove` is called once, on the aggregate and the index of `opening`, the
/// seed of `secret`, `context` and `message`. Where it returns a proof and an
/// alias, those are the result. Where it returns `None`, having found that the
/// secret does not fit the position, the result is `ProofCreationFailure`. A
/// prover that cannot tell returns a proof that no verifier accepts; this
/// function does not look into the proof and so cannot fail on it.
pub fn create<P>(
    opening: &(u32, RingCommitment),
    secret: &SecretKey,
    context: &[u8],
    message: &[u8],
    prove: &P,
) -> (r: Result<(Proof, Alias), ProtocolError>) where
    P: Fn(&Vec<u8>, u32, &Entropy, &[u8], &[u8]) -> Option<(Vec<u8>, Alias)>,

    requires
        forall|aggregate: &Vec<u8>, index: u32, seed: &Entropy, c: &[u8], m: &[u8]|
            call_requires(*prove, (aggregate, index, seed, c, m)),
    ensures
        created(*prove, *opening, secret.seed(), context, message, r),
{
    let seed = secret.seed();
    let proved = prove(opening.1.aggregate(), opening.0, &seed, context, message);
    match proved {
        Some((bytes, alias)) => {
            assert(proved == Some((bytes, alias)));
            Ok((Proof { bytes }, alias))
        },
        None => Err(ProtocolError::ProofCreationFailure),
    }
}

/// Whether `r` is what `validate_proof` can return: the alias that `verify`
/// gave for the proof, the commitment, the context and the message, or
/// `ProofValidationFailure` where it gave none.
pub open spec fn validated<V>(
    verify: V,
    proof: Proof,
    commitment: RingCommitment,
    context: &[u8],
    message: &[u8],
    r: Result<Alias, ProtocolError>,
) -> bool where V: Fn(&Vec<u8>, &Vec<u8>, &[u8], &[u8]) -> Option<Alias> {
    match r {
        Ok(alias) => call_ensures(
            verify,
            (proof.bytes(), commitment.aggregate(), context, message),
            Some(alias),
        ),
        Err(e) => e == ProtocolError::ProofValidationFailure && call_ensures(
            verify,
            (proof.bytes(), commitment.aggregate(), context, message),
            None::<Alias>,
        ),
    }
}

/// Validates `proof` against the commitment to a ring, `context` and
/// `message`, and recovers the alias.
///
/// `verify` is called once, on the bytes of the proof, the aggregate of
/// `commitment`, `context` and `message`. Where it returns an alias, that is
/// the result. Where it returns `None`, for whatever mismatch, the result is
/// `ProofValidationFailure`.
pub fn validate_proof<V>(
    proof: &Proof,
    commitment: &RingCommitment,
    context: &[u8],
    message: &[u8],
    verify: &V,
) -> (r: Result<Alias, ProtocolError>) where
    V: Fn(&Vec<u8>, &Vec<u8>, &[u8], &[u8]) -> Option<Alias>,

    requires
        forall|p: &Vec<u8>, aggregate: &Vec<u8>, c: &[u8], m: &[u8]|
            call_requires(*verify, (p, aggregate, c, m)),
    ensures
        validated(*verify, *proof, *commitment, context, message, r),
{
    let verified = verify(proof.bytes(), commitment.aggregate(), context, message);
    match verified {
        Some(alias) => {
            assert(verified == Some(alias));
            Ok(alias)
        },
        None => Err(ProtocolError::ProofValidationFailure),
    }
}

/// Whether the verifier accepts what the prover makes: a proof that `prove`
/// returned, `verify` answers with the alias that `prove` returned with it,
/// for the same bytes of the aggregate, the context and the message.
pub open spec fn proof_system_complete<P, V>(prove: P, verify: V) -> bool where
    P: Fn(&Vec<u8>, u32, &Entropy, &[u8], &[u8]) -> Option<(Vec<u8>, Alias)>,
    V: Fn(&Vec<u8>, &Vec<u8>, &[u8], &[u8]) -> Option<Alias>,
 {
    forall|
        aggregate: Vec<u8>,
        index: u32,
        seed: Entropy,
        context: &[u8],
        message: &[u8],
        proof: Vec<u8>,
        alias: Alias,
        held: Vec<u8>,
        seen: Vec<u8>,
        c: &[u8],
        m: &[u8],
        answer: Option<Alias>,
    |
        #![trigger call_ensures(prove, (&aggregate, index, &seed, context, message), Some((proof, alias))), call_ensures(verify, (&held, &seen, c, m), answer)]
        call_ensures(prove, (&aggregate, index, &seed, context, message), Some((proof, alias)))
            && call_ensures(verify, (&held, &seen, c, m), answer) && held@ == proof@ && seen@
            == aggregate@ && c@ == context@ && m@ == message@ ==> answer == Some(alias)
}

/// A proof made for a commitment validates against that commitment, under the
/// same context and message, and gives back the alias it was made with. The
/// engine adds no failure of its own: this holds as soon as the verifier
/// accepts what the prover makes.
pub proof fn lemma_created_proof_validates<P, V>(
    prove: P,
    verify: V,
    opening: (u32, RingCommitment),
    secret: SecretKey,
    context: &[u8],
    message: &[u8],
    proof: Proof,
    alias: Alias,
    held: Proof,
    commitment: RingCommitment,
    r: Result<Alias, ProtocolError>,
) where
    P: Fn(&Vec<u8>, u32, &Entropy, &[u8], &[u8]) -> Option<(Vec<u8>, Alias)>,
    V: Fn(&Vec<u8>, &Vec<u8>, &[u8], &[u8]) -> Option<Alias>,

    requires
        proof_system_complete(prove, verify),
        created(prove, opening, secret.seed(), context, message, Ok((proof, alias))),
        held.bytes()@ == proof.bytes()@,
        commitment.aggregate()@ == opening.1.aggregate()@,
        validated(verify, held, commitment, context, message, r),
    ensures
        r == Ok::<Alias, ProtocolError>(alias),
{
    let aggregate = *opening.1.aggregate();
    let bytes = *proof.bytes();
    let seed = secret.seed();
    let seen = *commitment.aggregate();
    let shown = *held.bytes();
    assert(call_ensures(
        prove,
        (&aggregate, opening.0, &seed, context, message),
        Some((bytes, alias)),
    ));
    match r {
        Ok(found) => {
            assert(call_ensures(verify, (&shown, &seen, context, message), Some(found)));
        },
        Err(_) => {
            assert(call_ensures(verify, (&shown, &seen, context, message), None::<Alias>));
        },
    }
}

/// Whether the reader reads what the prover makes: the bytes of a proof that
/// `prove` returned, `read_proof` reads as that proof.
pub open spec fn reads_what_is_proved<P, R>(prove: P, read_proof: R) -> bool where
    P: Fn(&Vec<u8>, u32, &Entropy, &[u8], &[u8]) -> Option<(Vec<u8>, Alias)>,
    R: Fn(&[u8]) -> Option<Vec<u8>>,
 {
    forall|
        aggregate: Vec<u8>,
        index: u32,
        seed: Entropy,
        context: &[u8],
        message: &[u8],
        proof: Vec<u8>,
        alias: Alias,
        bytes: &[u8],
        read: Option<Vec<u8>>,
    |
        #![trigger call_ensures(prove, (&aggregate, index, &seed, context, message), Some((proof, alias))), call_ensures(read_proof, (bytes,), read)]
        call_ensures(prove, (&aggregate, index, &seed, context, message), Some((proof, alias)))
            && call_ensures(read_proof, (bytes,), read) && bytes@ == proof@ ==> (
        read matches Some(held) && held@ == proof@)
}

/// Whether the alias that `prove` returns is a function of the seed, the
/// context and the message alone.
pub open spec fn alias_is_function<P>(prove: P) -> bool where
    P: Fn(&Vec<u8>, u32, &Entropy, &[u8], &[u8]) -> Option<(Vec<u8>, Alias)>,
 {
    forall|
        a1: Vec<u8>,
        i1: u32,
        a2: Vec<u8>,
        i2: u32,
        seed: Entropy,
        c1: &[u8],
        m1: &[u8],
        c2: &[u8],
        m2: &[u8],
        p1: Vec<u8>,
        p2: Vec<u8>,
        alias1: Alias,
        alias2: Alias,
    |
        #![trigger call_ensures(prove, (&a1, i1, &seed, c1, m1), Some((p1, alias1))), call_ensures(prove, (&a2, i2, &seed, c2, m2), Some((p2, alias2)))]
        c1@ == c2@ && m1@ == m2@ && call_ensures(
            prove,
            (&a1, i1, &seed, c1, m1),
            Some((p1, alias1)),
        ) && call_ensures(prove, (&a2, i2, &seed, c2, m2), Some((p2, alias2))) ==> alias1
            == alias2
}

/// One secret, one context, one message: one alias. Two proofs made from the
/// same secret for the same context and message carry the same alias, whatever
/// the rings and positions they were made for.
pub proof fn lemma_alias_is_function_of_secret_context_message<P>(
    prove: P,
    first: (u32, RingCommitment),
    second: (u32, RingCommitment),
    secret: SecretKey,
    context: &[u8],
    message: &[u8],
    first_made: (Proof, Alias),
    second_made: (Proof, Alias),
) where P: Fn(&Vec<u8>, u32, &Entropy, &[u8], &[u8]) -> Option<(Vec<u8>, Alias)>
    requires
        alias_is_function(prove),
        created(prove, first, secret.seed(), context, message, Ok(first_made)),
        created(prove, second, secret.seed(), context, message, Ok(second_made)),
    ensures
        first_made.1 == second_made.1,
{
    let seed = secret.seed();
    let a1 = *first.1.aggregate();
    let a2 = *second.1.aggregate();
    assert(call_ensures(
        prove,
        (&a1, first.0, &seed, context, message),
        Some((*first_made.0.bytes(), first_made.1)),
    ));
    assert(call_ensures(
        prove,
        (&a2, second.0, &seed, context, message),
        Some((*second_made.0.bytes(), second_made.1)),
    ));
}

} // verus!
