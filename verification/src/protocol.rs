//! The workflows of the protocol, from bytes to bytes: deriving a member,
//! proving, enrolling and proving, and validating.
//!
//! Each workflow takes its steps in a fixed order and ends with the error of
//! the first step that fails.

use crate::bytes::{decode_fixed, encode_fixed, Alias, Entropy, Member};
use crate::commitment::{
    build_commitment, built, fold_is_function, lemma_built_again, lookup_is_function, open,
    opened, RingCommitment,
};
use crate::engine::{
    alias_is_function, create, created, decode_proof,
    lemma_alias_is_function_of_secret_context_message, proof_decoded, proof_system_complete,
    reads_what_is_proved, validate_proof, validated, Proof,
};
use crate::error::ProtocolError;
use crate::keys::{derived, member_from_secret, new_secret, point_is_function, SecretKey};
use crate::ring::{first_index, has_room, is_ring_encoding, lemma_encoding_unique, Ring};
use crate::scale::{members_encoding, MAX_MEMBERS};
use vstd::prelude::*;
use vstd::slice::slice_to_vec;

verus! {

/// Whether `d` is what deriving from the bytes `entropy` can give. Bytes of
/// another length than 32 give `DecodeError`. Otherwise the result is the
/// secret of the entropy with the member that was derived for it, or the
/// error of the derivation.
pub open spec fn derived_from_entropy<D>(
    derive_point: D,
    entropy: &[u8],
    d: Result<(SecretKey, Member), ProtocolError>,
) -> bool where D: Fn(&Entropy) -> Option<Member> {
    match d {
        Ok((secret, member)) => secret.seed()@ == entropy@ && derived(
            derive_point,
            secret.seed(),
            Ok::<Member, ProtocolError>(member),
        ),
        Err(e) => if entropy@.len() != 32 {
            e == ProtocolError::DecodeError
        } else {
            exists|seed: Entropy|
                seed@ == entropy@ && #[trigger] derived(
                    derive_point,
                    seed,
                    Err::<Member, ProtocolError>(e),
                )
        },
    }
}

/// Decodes the entropy and derives the secret and the member from it.
fn derive_from_entropy<D>(entropy: &[u8], derive_point: &D) -> (d: Result<
    (SecretKey, Member),
    ProtocolError,
>) where D: Fn(&Entropy) -> Option<Member>
    requires
        forall|seed: &Entropy| call_requires(*derive_point, (seed,)),
    ensures
        derived_from_entropy(*derive_point, entropy, d),
{
    let seed = match decode_fixed::<32>(entropy) {
        Ok(seed) => seed,
        Err(e) => {
            return Err(e);
        },
    };
    let secret = new_secret(seed);
    match member_from_secret(&secret, derive_point) {
        Ok(member) => Ok((secret, member)),
        Err(e) => {
            assert(seed@ == entropy@ && derived(
                *derive_point,
                seed,
                Err::<Member, ProtocolError>(e),
            ));
            Err(e)
        },
    }
}

/// Whether `r` is what `member_from_entropy` can return for `entropy`: the
/// encoding of the member derived from it, or the error of the derivation.
pub open spec fn member_encoded<D>(
    derive_point: D,
    entropy: &[u8],
    r: Result<Vec<u8>, ProtocolError>,
) -> bool where D: Fn(&Entropy) -> Option<Member> {
    exists|d: Result<(SecretKey, Member), ProtocolError>| #[trigger]
        derived_from_entropy(derive_point, entropy, d) && match d {
            Ok((_, member)) => r matches Ok(out) && out@ == member@,
            Err(e) => r == Err::<Vec<u8>, ProtocolError>(e),
        }
}

/// Derives the member for `entropy` and encodes it: entropy to secret, secret
/// to member, member to its 33 bytes.
pub fn member_from_entropy<D>(entropy: &[u8], derive_point: &D) -> (r: Result<
    Vec<u8>,
    ProtocolError,
>) where D: Fn(&Entropy) -> Option<Member>
    requires
        forall|seed: &Entropy| call_requires(*derive_point, (seed,)),
    ensures
        member_encoded(*derive_point, entropy, r),
{
    match derive_from_entropy(entropy, derive_point) {
        Ok((_, member)) => Ok(encode_fixed(&member)),
        Err(e) => Err(e),
    }
}

/// Whether `made` is what opening `ring` for `member` and creating a proof for
/// the opened position can give: the error of the opening, or else the outcome
/// of the creation.
pub open spec fn proved_for<L, F, P>(
    lookup: L,
    fold: F,
    prove: P,
    seed: Entropy,
    member: Member,
    ring: Seq<Member>,
    context: &[u8],
    message: &[u8],
    made: Result<(Proof, Alias), ProtocolError>,
) -> bool where
    L: Fn(usize) -> Result<Vec<u8>, ()>,
    F: Fn(&Vec<u8>, &Member, &Vec<u8>) -> Vec<u8>,
    P: Fn(&Vec<u8>, u32, &Entropy, &[u8], &[u8]) -> Option<(Vec<u8>, Alias)>,
 {
    exists|opening: Result<(u32, RingCommitment), ProtocolError>| #[trigger]
        opened(lookup, fold, member, ring, opening) && match opening {
            Ok(o) => created(prove, o, seed, context, message, made),
            Err(e) => made == Err::<(Proof, Alias), ProtocolError>(e),
        }
}

/// Opens `ring` for `member` and creates the proof for the opened position
/// with `secret`, bound to `context` and `message`.
fn prove_for<L, F, P>(
    secret: &SecretKey,
    member: &Member,
    ring: &Ring,
    context: &[u8],
    message: &[u8],
    basis_lookup: &L,
    fold: &F,
    prove: &P,
) -> (made: Result<(Proof, Alias), ProtocolError>) where
    L: Fn(usize) -> Result<Vec<u8>, ()>,
    F: Fn(&Vec<u8>, &Member, &Vec<u8>) -> Vec<u8>,
    P: Fn(&Vec<u8>, u32, &Entropy, &[u8], &[u8]) -> Option<(Vec<u8>, Alias)>,

    requires
        forall|index: usize| call_requires(*basis_lookup, (index,)),
        forall|aggregate: &Vec<u8>, next: &Member, basis: &Vec<u8>|
            call_requires(*fold, (aggregate, next, basis)),
        forall|aggregate: &Vec<u8>, index: u32, seed: &Entropy, c: &[u8], m: &[u8]|
            call_requires(*prove, (aggregate, index, seed, c, m)),
    ensures
        proved_for(
            *basis_lookup,
            *fold,
            *prove,
            secret.seed(),
            *member,
            ring@,
            context,
            message,
            made,
        ),
{
    let opening = open(member, ring, basis_lookup, fold);
    assert(opened(*basis_lookup, *fold, *member, ring@, opening));
    match opening {
        Ok(opening) => create(&opening, secret, context, message, prove),
        Err(e) => Err(e),
    }
}

/// What `one_shot` gives: the encodings of the member, of the ring, of the
/// proof and of the alias, and the message and the context that the proof is
/// bound to.
pub struct OneShot {
    pub member: Vec<u8>,
    pub members: Vec<u8>,
    pub proof: Vec<u8>,
    pub alias: Vec<u8>,
    pub message: Vec<u8>,
    pub context: Vec<u8>,
}

/// The steps of `one_shot` once the member is derived: the ring is decoded,
/// then opened and proved for.
pub open spec fn one_shot_proved<L, F, P>(
    lookup: L,
    fold: F,
    prove: P,
    seed: Entropy,
    member: Member,
    members: &[u8],
    context: &[u8],
    message: &[u8],
    r: Result<OneShot, ProtocolError>,
) -> bool where
    L: Fn(usize) -> Result<Vec<u8>, ()>,
    F: Fn(&Vec<u8>, &Member, &Vec<u8>) -> Vec<u8>,
    P: Fn(&Vec<u8>, u32, &Entropy, &[u8], &[u8]) -> Option<(Vec<u8>, Alias)>,
 {
    if !is_ring_encoding(members@) {
        r == Err::<OneShot, ProtocolError>(ProtocolError::DecodeError)
    } else {
        exists|ring: Seq<Member>, made: Result<(Proof, Alias), ProtocolError>| #[trigger]
            proved_for(lookup, fold, prove, seed, member, ring, context, message, made)
                && ring.len() <= MAX_MEMBERS && members_encoding(ring) == members@ && match made {
                Ok((proof, alias)) => r matches Ok(out) && out.member@ == member@ && out.members@
                    == members@ && out.proof@ == proof.bytes()@ && out.alias@ == alias@
                    && out.message@ == message@ && out.context@ == context@,
                Err(e) => r == Err::<OneShot, ProtocolError>(e),
            }
    }
}

/// Whether `r` is what `one_shot` can return. The steps are taken in this
/// order, and the first that fails gives the error: the entropy is decoded
/// (`DecodeError`), the member derived (`InvalidKey`), the ring decoded
/// (`DecodeError`) and opened for the member (`MemberNotFound`,
/// `LookupFailure`), the proof created (`ProofCreationFailure`).
pub open spec fn one_shot_done<D, L, F, P>(
    derive_point: D,
    lookup: L,
    fold: F,
    prove: P,
    entropy: &[u8],
    members: &[u8],
    context: &[u8],
    message: &[u8],
    r: Result<OneShot, ProtocolError>,
) -> bool where
    D: Fn(&Entropy) -> Option<Member>,
    L: Fn(usize) -> Result<Vec<u8>, ()>,
    F: Fn(&Vec<u8>, &Member, &Vec<u8>) -> Vec<u8>,
    P: Fn(&Vec<u8>, u32, &Entropy, &[u8], &[u8]) -> Option<(Vec<u8>, Alias)>,
 {
    exists|d: Result<(SecretKey, Member), ProtocolError>| #[trigger]
        derived_from_entropy(derive_point, entropy, d) && match d {
            Ok((secret, member)) => one_shot_proved(
                lookup,
                fold,
                prove,
                secret.seed(),
                member,
                members,
                context,
                message,
                r,
            ),
            Err(e) => r == Err::<OneShot, ProtocolError>(e),
        }
}

/// Proves membership in one call. The secret and the member are derived from
/// `entropy`; `members` is the encoding of the ring, which has to hold the
/// member; the proof is created with the derived secret for the first place
/// of the member in the ring, bound to `context` and `message`.
pub fn one_shot<D, L, F, P>(
    entropy: &[u8],
    members: &[u8],
    context: &[u8],
    message: &[u8],
    derive_point: &D,
    basis_lookup: &L,
    fold: &F,
    prove: &P,
) -> (r: Result<OneShot, ProtocolError>) where
    D: Fn(&Entropy) -> Option<Member>,
    L: Fn(usize) -> Result<Vec<u8>, ()>,
    F: Fn(&Vec<u8>, &Member, &Vec<u8>) -> Vec<u8>,
    P: Fn(&Vec<u8>, u32, &Entropy, &[u8], &[u8]) -> Option<(Vec<u8>, Alias)>,

    requires
        forall|seed: &Entropy| call_requires(*derive_point, (seed,)),
        forall|index: usize| call_requires(*basis_lookup, (index,)),
        forall|aggregate: &Vec<u8>, next: &Member, basis: &Vec<u8>|
            call_requires(*fold, (aggregate, next, basis)),
        forall|aggregate: &Vec<u8>, index: u32, seed: &Entropy, c: &[u8], m: &[u8]|
            call_requires(*prove, (aggregate, index, seed, c, m)),
    ensures
        one_shot_done(
            *derive_point,
            *basis_lookup,
            *fold,
            *prove,
            entropy,
            members,
            context,
            message,
            r,
        ),
{
    let (secret, member) = match derive_from_entropy(entropy, derive_point) {
        Ok(derived) => derived,
        Err(e) => {
            return Err(e);
        },
    };
    let ring = match Ring::decode(members) {
        Ok(ring) => ring,
        Err(e) => {
            return Err(e);
        },
    };
    let made = prove_for(&secret, &member, &ring, context, message, basis_lookup, fold, prove);
    assert(proved_for(
        *basis_lookup,
        *fold,
        *prove,
        secret.seed(),
        member,
        ring@,
        context,
        message,
        made,
    ));
    match made {
        Ok((proof, alias)) => Ok(
            OneShot {
                member: encode_fixed(&member),
                members: ring.encode(),
                proof: proof.into_bytes(),
                alias: encode_fixed(&alias),
                message: slice_to_vec(message),
                context: slice_to_vec(context),
            },
        ),
        Err(e) => Err(e),
    }
}

/// What `enroll_and_prove` gives: the encodings of the member, of the ring
/// with the member enrolled, of the proof and of the alias.
pub struct Enrolled {
    pub member: Vec<u8>,
    pub members: Vec<u8>,
    pub proof: Vec<u8>,
    pub alias: Vec<u8>,
}

/// The last steps of `enroll_and_prove`, once `member` is enrolled and `ring`
/// is the longer ring: it is opened and proved for.
pub open spec fn enrolled_proved<L, F, P>(
    lookup: L,
    fold: F,
    prove: P,
    seed: Entropy,
    member: Member,
    ring: Seq<Member>,
    context: &[u8],
    message: &[u8],
    r: Result<Enrolled, ProtocolError>,
) -> bool where
    L: Fn(usize) -> Result<Vec<u8>, ()>,
    F: Fn(&Vec<u8>, &Member, &Vec<u8>) -> Vec<u8>,
    P: Fn(&Vec<u8>, u32, &Entropy, &[u8], &[u8]) -> Option<(Vec<u8>, Alias)>,
 {
    exists|made: Result<(Proof, Alias), ProtocolError>| #[trigger]
        proved_for(lookup, fold, prove, seed, member, ring, context, message, made) && match made {
            Ok((proof, alias)) => r matches Ok(out) && out.member@ == member@ && out.members@
                == members_encoding(ring) && out.proof@ == proof.bytes()@ && out.alias@
                == alias@,
            Err(e) => r == Err::<Enrolled, ProtocolError>(e),
        }
}

/// The steps of `enroll_and_prove` once the member is derived: the ring is
/// decoded and the member enrolled as its last, where the ring has room.
pub open spec fn enrolled<L, F, P>(
    lookup: L,
    fold: F,
    prove: P,
    seed: Entropy,
    member: Member,
    members: &[u8],
    context: &[u8],
    message: &[u8],
    r: Result<Enrolled, ProtocolError>,
) -> bool where
    L: Fn(usize) -> Result<Vec<u8>, ()>,
    F: Fn(&Vec<u8>, &Member, &Vec<u8>) -> Vec<u8>,
    P: Fn(&Vec<u8>, u32, &Entropy, &[u8], &[u8]) -> Option<(Vec<u8>, Alias)>,
 {
    if !is_ring_encoding(members@) {
        r == Err::<Enrolled, ProtocolError>(ProtocolError::DecodeError)
    } else {
        exists|ring: Seq<Member>|
            ring.len() <= MAX_MEMBERS && #[trigger] members_encoding(ring) == members@
                && if !has_room(ring.len()) {
                r == Err::<Enrolled, ProtocolError>(ProtocolError::LookupFailure)
            } else {
                enrolled_proved(
                    lookup,
                    fold,
                    prove,
                    seed,
                    member,
                    ring.push(member),
                    context,
                    message,
                    r,
                )
            }
    }
}

/// Whether `r` is what `enroll_and_prove` can return. The steps are taken in
/// this order, and the first that fails gives the error: the entropy is
/// decoded (`DecodeError`), the member derived (`InvalidKey`), the ring
/// decoded (`DecodeError`), the member enrolled (`LookupFailure` where the
/// ring has no room), the longer ring opened (`LookupFailure`), the proof
/// created (`ProofCreationFailure`).
pub open spec fn enroll_and_prove_done<D, L, F, P>(
    derive_point: D,
    lookup: L,
    fold: F,
    prove: P,
    entropy: &[u8],
    members: &[u8],
    context: &[u8],
    message: &[u8],
    r: Result<Enrolled, ProtocolError>,
) -> bool where
    D: Fn(&Entropy) -> Option<Member>,
    L: Fn(usize) -> Result<Vec<u8>, ()>,
    F: Fn(&Vec<u8>, &Member, &Vec<u8>) -> Vec<u8>,
    P: Fn(&Vec<u8>, u32, &Entropy, &[u8], &[u8]) -> Option<(Vec<u8>, Alias)>,
 {
    exists|d: Result<(SecretKey, Member), ProtocolError>| #[trigger]
        derived_from_entropy(derive_point, entropy, d) && match d {
            Ok((secret, member)) => enrolled(
                lookup,
                fold,
                prove,
                secret.seed(),
                member,
                members,
                context,
                message,
                r,
            ),
            Err(e) => r == Err::<Enrolled, ProtocolError>(e),
        }
}

/// Enrolls and proves in one call. The secret and the member are derived from
/// `entropy`; the member is appended to the ring that `members` encodes; the
/// proof is created with the derived secret for the first place of the member
/// in the longer ring, bound to `context` and `message`.
pub fn enroll_and_prove<D, L, F, P>(
    entropy: &[u8],
    members: &[u8],
    context: &[u8],
    message: &[u8],
    derive_point: &D,
    basis_lookup: &L,
    fold: &F,
    prove: &P,
) -> (r: Result<Enrolled, ProtocolError>) where
    D: Fn(&Entropy) -> Option<Member>,
    L: Fn(usize) -> Result<Vec<u8>, ()>,
    F: Fn(&Vec<u8>, &Member, &Vec<u8>) -> Vec<u8>,
    P: Fn(&Vec<u8>, u32, &Entropy, &[u8], &[u8]) -> Option<(Vec<u8>, Alias)>,

    requires
        forall|seed: &Entropy| call_requires(*derive_point, (seed,)),
        forall|index: usize| call_requires(*basis_lookup, (index,)),
        forall|aggregate: &Vec<u8>, next: &Member, basis: &Vec<u8>|
            call_requires(*fold, (aggregate, next, basis)),
        forall|aggregate: &Vec<u8>, index: u32, seed: &Entropy, c: &[u8], m: &[u8]|
            call_requires(*prove, (aggregate, index, seed, c, m)),
    ensures
        enroll_and_prove_done(
            *derive_point,
            *basis_lookup,
            *fold,
            *prove,
            entropy,
            members,
            context,
            message,
            r,
        ),
{
    let (secret, member) = match derive_from_entropy(entropy, derive_point) {
        Ok(derived) => derived,
        Err(e) => {
            return Err(e);
        },
    };
    let mut ring = match Ring::decode(members) {
        Ok(ring) => ring,
        Err(e) => {
            return Err(e);
        },
    };
    let ghost given = ring@;
    match ring.try_push(member) {
        Ok(_) => {},
        Err(_) => {
            assert(members_encoding(given) == members@);
            return Err(ProtocolError::LookupFailure);
        },
    }
    let made = prove_for(&secret, &member, &ring, context, message, basis_lookup, fold, prove);
    assert(members_encoding(given) == members@ && proved_for(
        *basis_lookup,
        *fold,
        *prove,
        secret.seed(),
        member,
        given.push(member),
        context,
        message,
        made,
    ));
    match made {
        Ok((proof, alias)) => Ok(
            Enrolled {
                member: encode_fixed(&member),
                members: ring.encode(),
                proof: proof.into_bytes(),
                alias: encode_fixed(&alias),
            },
        ),
        Err(e) => Err(e),
    }
}

/// The last step of `validate`, once the commitment is built: the outcome of
/// validating the proof decides the result.
pub open spec fn validate_verified<V>(
    verify: V,
    held: Proof,
    commitment: RingCommitment,
    context: &[u8],
    message: &[u8],
    r: Result<Vec<u8>, ProtocolError>,
) -> bool where V: Fn(&Vec<u8>, &Vec<u8>, &[u8], &[u8]) -> Option<Alias> {
    exists|answer: Result<Alias, ProtocolError>| #[trigger]
        validated(verify, held, commitment, context, message, answer) && match answer {
            Ok(alias) => r matches Ok(out) && out@ == alias@,
            Err(e) => r == Err::<Vec<u8>, ProtocolError>(e),
        }
}

/// The steps of `validate` once the proof is decoded: the ring is decoded, its
/// commitment built and the proof validated against it.
pub open spec fn validate_answered<L, F, V>(
    lookup: L,
    fold: F,
    verify: V,
    held: Proof,
    members: &[u8],
    context: &[u8],
    message: &[u8],
    r: Result<Vec<u8>, ProtocolError>,
) -> bool where
    L: Fn(usize) -> Result<Vec<u8>, ()>,
    F: Fn(&Vec<u8>, &Member, &Vec<u8>) -> Vec<u8>,
    V: Fn(&Vec<u8>, &Vec<u8>, &[u8], &[u8]) -> Option<Alias>,
 {
    if !is_ring_encoding(members@) {
        r == Err::<Vec<u8>, ProtocolError>(ProtocolError::DecodeError)
    } else {
        exists|ring: Seq<Member>, commitment: Result<RingCommitment, ProtocolError>| #[trigger]
            built(lookup, fold, ring, commitment) && ring.len() <= MAX_MEMBERS && members_encoding(
                ring,
            ) == members@ && match commitment {
                Ok(c) => validate_verified(verify, held, c, context, message, r),
                Err(e) => r == Err::<Vec<u8>, ProtocolError>(e),
            }
    }
}

/// Whether `r` is what `validate` can return. The steps are taken in this
/// order, and the first that fails gives the error: the proof is decoded
/// (`DecodeError`), the ring decoded (`DecodeError`), its commitment built
/// (`LookupFailure`), the proof validated against it
/// (`ProofValidationFailure`). The result is else the encoding of the alias.
pub open spec fn validate_done<R, L, F, V>(
    read_proof: R,
    lookup: L,
    fold: F,
    verify: V,
    proof: &[u8],
    members: &[u8],
    context: &[u8],
    message: &[u8],
    r: Result<Vec<u8>, ProtocolError>,
) -> bool where
    R: Fn(&[u8]) -> Option<Vec<u8>>,
    L: Fn(usize) -> Result<Vec<u8>, ()>,
    F: Fn(&Vec<u8>, &Member, &Vec<u8>) -> Vec<u8>,
    V: Fn(&Vec<u8>, &Vec<u8>, &[u8], &[u8]) -> Option<Alias>,
 {
    exists|decoded: Result<Proof, ProtocolError>| #[trigger]
        proof_decoded(read_proof, proof, decoded) && match decoded {
            Ok(held) => validate_answered(
                lookup,
                fold,
                verify,
                held,
                members,
                context,
                message,
                r,
            ),
            Err(e) => r == Err::<Vec<u8>, ProtocolError>(e),
        }
}

/// Validates a proof against a ring given by its encoding, and returns the
/// encoding of the alias. The proof is decoded first, so bytes that are no
/// proof are refused before the ring is read. The commitment to the ring is
/// built here, member by member in ring order, from nothing but the ring and
/// the capabilities.
pub fn validate<R, L, F, V>(
    proof: &[u8],
    members: &[u8],
    context: &[u8],
    message: &[u8],
    read_proof: &R,
    basis_lookup: &L,
    fold: &F,
    verify: &V,
) -> (r: Result<Vec<u8>, ProtocolError>) where
    R: Fn(&[u8]) -> Option<Vec<u8>>,
    L: Fn(usize) -> Result<Vec<u8>, ()>,
    F: Fn(&Vec<u8>, &Member, &Vec<u8>) -> Vec<u8>,
    V: Fn(&Vec<u8>, &Vec<u8>, &[u8], &[u8]) -> Option<Alias>,

    requires
        forall|b: &[u8]| call_requires(*read_proof, (b,)),
        forall|index: usize| call_requires(*basis_lookup, (index,)),
        forall|aggregate: &Vec<u8>, next: &Member, basis: &Vec<u8>|
            call_requires(*fold, (aggregate, next, basis)),
        forall|p: &Vec<u8>, aggregate: &Vec<u8>, c: &[u8], m: &[u8]|
            call_requires(*verify, (p, aggregate, c, m)),
    ensures
        validate_done(
            *read_proof,
            *basis_lookup,
            *fold,
            *verify,
            proof,
            members,
            context,
            message,
            r,
        ),
{
    let decoded = decode_proof(proof, read_proof);
    assert(proof_decoded(*read_proof, proof, decoded));
    let held = match decoded {
        Ok(held) => held,
        Err(e) => {
            return Err(e);
        },
    };
    let ring = match Ring::decode(members) {
        Ok(ring) => ring,
        Err(e) => {
            return Err(e);
        },
    };
    let commitment = build_commitment(&ring, basis_lookup, fold);
    assert(built(*basis_lookup, *fold, ring@, commitment));
    let commitment = match commitment {
        Ok(commitment) => commitment,
        Err(e) => {
            return Err(e);
        },
    };
    let answer = validate_proof(&held, &commitment, context, message, verify);
    assert(validated(*verify, held, commitment, context, message, answer));
    match answer {
        Ok(alias) => Ok(encode_fixed(&alias)),
        Err(e) => Err(e),
    }
}

/// Equal entropy, equal derivation: with a point derivation that is a
/// function of the seed, two derivations from the same bytes end alike, with
/// the same secret and the same member or with the same error.
pub proof fn lemma_derivation_is_function<D>(
    derive_point: D,
    first: &[u8],
    second: &[u8],
    a: Result<(SecretKey, Member), ProtocolError>,
    b: Result<(SecretKey, Member), ProtocolError>,
) where D: Fn(&Entropy) -> Option<Member>
    requires
        point_is_function(derive_point),
        first@ == second@,
        derived_from_entropy(derive_point, first, a),
        derived_from_entropy(derive_point, second, b),
    ensures
        match (a, b) {
            (Ok((s, m)), Ok((t, n))) => s.seed() == t.seed() && m == n,
            (Err(x), Err(y)) => x == y,
            _ => false,
        },
{
    match (a, b) {
        (Ok((s, m)), Ok((t, n))) => {
            assert(s.seed() =~= t.seed());
            let seed = s.seed();
            assert(call_ensures(derive_point, (&seed,), Some(m)));
            assert(call_ensures(derive_point, (&seed,), Some(n)));
        },
        (Ok((s, m)), Err(y)) => {
            let seed = s.seed();
            let other = choose|other: Entropy|
                other@ == second@ && #[trigger] derived(
                    derive_point,
                    other,
                    Err::<Member, ProtocolError>(y),
                );
            assert(other =~= seed);
            assert(call_ensures(derive_point, (&seed,), Some(m)));
            assert(call_ensures(derive_point, (&seed,), None::<Member>));
        },
        (Err(x), Ok((t, n))) => {
            let seed = t.seed();
            let other = choose|other: Entropy|
                other@ == first@ && #[trigger] derived(
                    derive_point,
                    other,
                    Err::<Member, ProtocolError>(x),
                );
            assert(other =~= seed);
            assert(call_ensures(derive_point, (&seed,), Some(n)));
            assert(call_ensures(derive_point, (&seed,), None::<Member>));
        },
        (Err(x), Err(y)) => {},
    }
}

/// Whether two results are the same bytes or the same error.
pub open spec fn same_outcome(
    a: Result<Vec<u8>, ProtocolError>,
    b: Result<Vec<u8>, ProtocolError>,
) -> bool {
    match (a, b) {
        (Ok(x), Ok(y)) => x@ == y@,
        (Err(x), Err(y)) => x == y,
        _ => false,
    }
}

/// The member is a function of the entropy alone: with a point derivation
/// that is a function of the seed, two calls of `member_from_entropy` on the
/// same bytes return the same bytes or the same error.
pub proof fn lemma_member_from_entropy_is_function<D>(
    derive_point: D,
    first: &[u8],
    second: &[u8],
    a: Result<Vec<u8>, ProtocolError>,
    b: Result<Vec<u8>, ProtocolError>,
) where D: Fn(&Entropy) -> Option<Member>
    requires
        point_is_function(derive_point),
        first@ == second@,
        member_encoded(derive_point, first, a),
        member_encoded(derive_point, second, b),
    ensures
        same_outcome(a, b),
{
    let d = choose|d: Result<(SecretKey, Member), ProtocolError>| #[trigger]
        derived_from_entropy(derive_point, first, d) && match d {
            Ok((_, member)) => a matches Ok(out) && out@ == member@,
            Err(e) => a == Err::<Vec<u8>, ProtocolError>(e),
        };
    let e = choose|e: Result<(SecretKey, Member), ProtocolError>| #[trigger]
        derived_from_entropy(derive_point, second, e) && match e {
            Ok((_, member)) => b matches Ok(out) && out@ == member@,
            Err(x) => b == Err::<Vec<u8>, ProtocolError>(x),
        };
    lemma_derivation_is_function(derive_point, first, second, d, e);
}

/// `member_from_entropy` gives the encoding of what `member_from_secret`
/// gives for the secret of the entropy, with a point derivation that is a
/// function of the seed.
pub proof fn lemma_member_from_entropy_encodes_member_from_secret<D>(
    derive_point: D,
    entropy: &[u8],
    secret: SecretKey,
    member: Result<Member, ProtocolError>,
    encoded: Result<Vec<u8>, ProtocolError>,
) where D: Fn(&Entropy) -> Option<Member>
    requires
        point_is_function(derive_point),
        secret.seed()@ == entropy@,
        derived(derive_point, secret.seed(), member),
        member_encoded(derive_point, entropy, encoded),
    ensures
        match member {
            Ok(m) => encoded matches Ok(out) && out@ == m@,
            Err(e) => encoded == Err::<Vec<u8>, ProtocolError>(e),
        },
{
    let d = choose|d: Result<(SecretKey, Member), ProtocolError>| #[trigger]
        derived_from_entropy(derive_point, entropy, d) && match d {
            Ok((_, m)) => encoded matches Ok(out) && out@ == m@,
            Err(e) => encoded == Err::<Vec<u8>, ProtocolError>(e),
        };
    let mine: Result<(SecretKey, Member), ProtocolError> = match member {
        Ok(m) => Ok((secret, m)),
        Err(e) => Err(e),
    };
    assert(derived_from_entropy(derive_point, entropy, mine)) by {
        if member is Err {
            assert(secret.seed()@ == entropy@ && derived(
                derive_point,
                secret.seed(),
                Err::<Member, ProtocolError>(member->Err_0),
            ));
        }
    }
    lemma_derivation_is_function(derive_point, entropy, entropy, mine, d);
}

/// What was proved validates, from bytes to bytes: a proof created for the
/// opening of a ring, handed to `validate` as bytes with the encoding of that
/// ring and the same context and message, gives back the alias it was created
/// with. This holds of capabilities that are functions of their arguments,
/// with a reader that reads what the prover makes and a verifier that accepts
/// it.
pub proof fn lemma_validate_gives_back_the_alias<R, L, F, P, V>(
    read_proof: R,
    lookup: L,
    fold: F,
    prove: P,
    verify: V,
    target: Member,
    ring: Seq<Member>,
    opening: (u32, RingCommitment),
    secret: SecretKey,
    context: &[u8],
    message: &[u8],
    made: (Proof, Alias),
    proof: &[u8],
    members: &[u8],
    c: &[u8],
    m: &[u8],
    r: Result<Vec<u8>, ProtocolError>,
) where
    R: Fn(&[u8]) -> Option<Vec<u8>>,
    L: Fn(usize) -> Result<Vec<u8>, ()>,
    F: Fn(&Vec<u8>, &Member, &Vec<u8>) -> Vec<u8>,
    P: Fn(&Vec<u8>, u32, &Entropy, &[u8], &[u8]) -> Option<(Vec<u8>, Alias)>,
    V: Fn(&Vec<u8>, &Vec<u8>, &[u8], &[u8]) -> Option<Alias>,

    requires
        lookup_is_function(lookup),
        fold_is_function(fold),
        reads_what_is_proved(prove, read_proof),
        proof_system_complete(prove, verify),
        ring.len() <= MAX_MEMBERS,
        opened(lookup, fold, target, ring, Ok(opening)),
        created(prove, opening, secret.seed(), context, message, Ok(made)),
        proof@ == made.0.bytes()@,
        members@ == members_encoding(ring),
        c@ == context@,
        m@ == message@,
        validate_done(read_proof, lookup, fold, verify, proof, members, c, m, r),
    ensures
        r matches Ok(alias) && alias@ == made.1@,
{
    let aggregate = *opening.1.aggregate();
    let bytes = *made.0.bytes();
    let seed = secret.seed();
    assert(call_ensures(prove, (&aggregate, opening.0, &seed, context, message), Some(
        (bytes, made.1),
    )));
    let decoded = choose|decoded: Result<Proof, ProtocolError>| #[trigger]
        proof_decoded(read_proof, proof, decoded) && match decoded {
            Ok(held) => validate_answered(lookup, fold, verify, held, members, c, m, r),
            Err(e) => r == Err::<Vec<u8>, ProtocolError>(e),
        };
    match decoded {
        Err(_) => {
            assert(call_ensures(read_proof, (proof,), None::<Vec<u8>>));
        },
        Ok(held) => {
            let shown = *held.bytes();
            assert(call_ensures(read_proof, (proof,), Some(shown)));
            assert(is_ring_encoding(members@)) by {
                assert(members_encoding(ring) == members@);
            }
            let (seen, commitment) = choose|
                seen: Seq<Member>,
                commitment: Result<RingCommitment, ProtocolError>,
            | #[trigger]
                built(lookup, fold, seen, commitment) && seen.len() <= MAX_MEMBERS
                    && members_encoding(seen) == members@ && match commitment {
                    Ok(k) => validate_verified(verify, held, k, c, m, r),
                    Err(e) => r == Err::<Vec<u8>, ProtocolError>(e),
                };
            lemma_encoding_unique(seen, ring);
            assert(first_index(ring, target) is Some);
            lemma_built_again(lookup, fold, ring, aggregate, commitment);
            let again = commitment->Ok_0;
            let folded_again = *again.aggregate();
            let answer = choose|answer: Result<Alias, ProtocolError>| #[trigger]
                validated(verify, held, again, c, m, answer) && match answer {
                    Ok(alias) => r matches Ok(out) && out@ == alias@,
                    Err(e) => r == Err::<Vec<u8>, ProtocolError>(e),
                };
            match answer {
                Ok(alias) => {
                    assert(call_ensures(verify, (&shown, &folded_again, c, m), Some(alias)));
                },
                Err(_) => {
                    assert(call_ensures(verify, (&shown, &folded_again, c, m), None::<Alias>));
                },
            }
        },
    }
}

/// One secret, one alias, whatever the ring: two proofs created with the same
/// secret for the same context and message, each validated from bytes against
/// its own ring, give the same alias. This is what lets a verifier notice
/// that one secret spoke twice. It holds under the premises of
/// `lemma_validate_gives_back_the_alias`, with a prover whose alias is a
/// function of seed, context and message.
pub proof fn lemma_validated_aliases_agree<R, L, F, P, V>(
    read_proof: R,
    lookup: L,
    fold: F,
    prove: P,
    verify: V,
    secret: SecretKey,
    context: &[u8],
    message: &[u8],
    first: (Member, Seq<Member>, (u32, RingCommitment), (Proof, Alias)),
    second: (Member, Seq<Member>, (u32, RingCommitment), (Proof, Alias)),
    first_bytes: (&[u8], &[u8]),
    second_bytes: (&[u8], &[u8]),
    a: Result<Vec<u8>, ProtocolError>,
    b: Result<Vec<u8>, ProtocolError>,
) where
    R: Fn(&[u8]) -> Option<Vec<u8>>,
    L: Fn(usize) -> Result<Vec<u8>, ()>,
    F: Fn(&Vec<u8>, &Member, &Vec<u8>) -> Vec<u8>,
    P: Fn(&Vec<u8>, u32, &Entropy, &[u8], &[u8]) -> Option<(Vec<u8>, Alias)>,
    V: Fn(&Vec<u8>, &Vec<u8>, &[u8], &[u8]) -> Option<Alias>,

    requires
        lookup_is_function(lookup),
        fold_is_function(fold),
        alias_is_function(prove),
        reads_what_is_proved(prove, read_proof),
        proof_system_complete(prove, verify),
        first.1.len() <= MAX_MEMBERS,
        second.1.len() <= MAX_MEMBERS,
        opened(lookup, fold, first.0, first.1, Ok(first.2)),
        opened(lookup, fold, second.0, second.1, Ok(second.2)),
        created(prove, first.2, secret.seed(), context, message, Ok(first.3)),
        created(prove, second.2, secret.seed(), context, message, Ok(second.3)),
        first_bytes.0@ == first.3.0.bytes()@,
        second_bytes.0@ == second.3.0.bytes()@,
        first_bytes.1@ == members_encoding(first.1),
        second_bytes.1@ == members_encoding(second.1),
        validate_done(
            read_proof,
            lookup,
            fold,
            verify,
            first_bytes.0,
            first_bytes.1,
            context,
            message,
            a,
        ),
        validate_done(
            read_proof,
            lookup,
            fold,
            verify,
            second_bytes.0,
            second_bytes.1,
            context,
            message,
            b,
        ),
    ensures
        a is Ok,
        same_outcome(a, b),
{
    lemma_validate_gives_back_the_alias(
        read_proof,
        lookup,
        fold,
        prove,
        verify,
        first.0,
        first.1,
        first.2,
        secret,
        context,
        message,
        first.3,
        first_bytes.0,
        first_bytes.1,
        context,
        message,
        a,
    );
    lemma_validate_gives_back_the_alias(
        read_proof,
        lookup,
        fold,
        prove,
        verify,
        second.0,
        second.1,
        second.2,
        secret,
        context,
        message,
        second.3,
        second_bytes.0,
        second_bytes.1,
        context,
        message,
        b,
    );
    lemma_alias_is_function_of_secret_context_message(
        prove,
        first.2,
        second.2,
        secret,
        context,
        message,
        first.3,
        second.3,
    );
}

/// One entropy, one context, one message: one member and one alias. With a
/// point derivation and a prover's alias that are functions of their
/// arguments, two calls of `one_shot` that succeed on the same entropy,
/// context and message return the same member and the same alias, whatever
/// the two rings are.
pub proof fn lemma_one_shot_alias_is_function<D, L, F, P>(
    derive_point: D,
    lookup: L,
    fold: F,
    prove: P,
    entropy: &[u8],
    context: &[u8],
    message: &[u8],
    first_members: &[u8],
    second_members: &[u8],
    first: OneShot,
    second: OneShot,
) where
    D: Fn(&Entropy) -> Option<Member>,
    L: Fn(usize) -> Result<Vec<u8>, ()>,
    F: Fn(&Vec<u8>, &Member, &Vec<u8>) -> Vec<u8>,
    P: Fn(&Vec<u8>, u32, &Entropy, &[u8], &[u8]) -> Option<(Vec<u8>, Alias)>,

    requires
        point_is_function(derive_point),
        alias_is_function(prove),
        one_shot_done(
            derive_point,
            lookup,
            fold,
            prove,
            entropy,
            first_members,
            context,
            message,
            Ok(first),
        ),
        one_shot_done(
            derive_point,
            lookup,
            fold,
            prove,
            entropy,
            second_members,
            context,
            message,
            Ok(second),
        ),
    ensures
        first.member@ == second.member@,
        first.alias@ == second.alias@,
        first.context@ == second.context@,
        first.message@ == second.message@,
{
    let a = lemma_one_shot_made(
        derive_point,
        lookup,
        fold,
        prove,
        entropy,
        first_members,
        context,
        message,
        first,
    );
    let b = lemma_one_shot_made(
        derive_point,
        lookup,
        fold,
        prove,
        entropy,
        second_members,
        context,
        message,
        second,
    );
    lemma_derivation_is_function(
        derive_point,
        entropy,
        entropy,
        Ok::<(SecretKey, Member), ProtocolError>((a.0, a.1)),
        Ok::<(SecretKey, Member), ProtocolError>((b.0, b.1)),
    );
    let seed = a.0.seed();
    let x = *a.2.1.aggregate();
    let y = *b.2.1.aggregate();
    assert(call_ensures(prove, (&x, a.2.0, &seed, context, message), Some(
        (*a.3.0.bytes(), a.3.1),
    )));
    assert(call_ensures(prove, (&y, b.2.0, &seed, context, message), Some(
        (*b.3.0.bytes(), b.3.1),
    )));
}

/// What stands behind a result of `one_shot`: the secret and the member that
/// were derived, the opening of the ring and the proof with its alias.
proof fn lemma_one_shot_made<D, L, F, P>(
    derive_point: D,
    lookup: L,
    fold: F,
    prove: P,
    entropy: &[u8],
    members: &[u8],
    context: &[u8],
    message: &[u8],
    out: OneShot,
) -> (made: (SecretKey, Member, (u32, RingCommitment), (Proof, Alias))) where
    D: Fn(&Entropy) -> Option<Member>,
    L: Fn(usize) -> Result<Vec<u8>, ()>,
    F: Fn(&Vec<u8>, &Member, &Vec<u8>) -> Vec<u8>,
    P: Fn(&Vec<u8>, u32, &Entropy, &[u8], &[u8]) -> Option<(Vec<u8>, Alias)>,

    requires
        one_shot_done(
            derive_point,
            lookup,
            fold,
            prove,
            entropy,
            members,
            context,
            message,
            Ok(out),
        ),
    ensures
        derived_from_entropy(
            derive_point,
            entropy,
            Ok::<(SecretKey, Member), ProtocolError>((made.0, made.1)),
        ),
        created(prove, made.2, made.0.seed(), context, message, Ok(made.3)),
        out.member@ == made.1@,
        out.alias@ == made.3.1@,
        out.proof@ == made.3.0.bytes()@,
        out.context@ == context@,
        out.message@ == message@,
{
    let r = Ok::<OneShot, ProtocolError>(out);
    let d = choose|d: Result<(SecretKey, Member), ProtocolError>| #[trigger]
        derived_from_entropy(derive_point, entropy, d) && match d {
            Ok((secret, member)) => one_shot_proved(
                lookup,
                fold,
                prove,
                secret.seed(),
                member,
                members,
                context,
                message,
                r,
            ),
            Err(e) => r == Err::<OneShot, ProtocolError>(e),
        };
    let (secret, member) = d->Ok_0;
    let (ring, made) = choose|ring: Seq<Member>, made: Result<(Proof, Alias), ProtocolError>| #[trigger]
        proved_for(lookup, fold, prove, secret.seed(), member, ring, context, message, made)
            && ring.len() <= MAX_MEMBERS && members_encoding(ring) == members@ && match made {
            Ok((proof, alias)) => r matches Ok(o) && o.member@ == member@ && o.members@
                == members@ && o.proof@ == proof.bytes()@ && o.alias@ == alias@ && o.message@
                == message@ && o.context@ == context@,
            Err(e) => r == Err::<OneShot, ProtocolError>(e),
        };
    let opening = choose|opening: Result<(u32, RingCommitment), ProtocolError>| #[trigger]
        opened(lookup, fold, member, ring, opening) && match opening {
            Ok(o) => created(prove, o, secret.seed(), context, message, made),
            Err(e) => made == Err::<(Proof, Alias), ProtocolError>(e),
        };
    (secret, member, opening->Ok_0, made->Ok_0)
}

} // verus!
