//! Key derivation: entropy to secret, secret to member.

use crate::bytes::{Entropy, Member};
use crate::error::ProtocolError;
use vstd::prelude::*;

verus! {

/// A secret key. It is held as the seed from which the curve library expands
/// the scalar whenever the key is used, so that equal entropy gives equal
/// secrets, byte for byte.
pub struct SecretKey {
    seed: Entropy,
}

impl SecretKey {
    /// The seed that the key was derived from.
    pub closed spec fn spec_seed(&self) -> Entropy {
        self.seed
    }

    /// The seed that the key was derived from.
    #[verifier::when_used_as_spec(spec_seed)]
    pub fn seed(&self) -> (seed: Entropy)
        ensures
            seed == self.spec_seed(),
    {
        self.seed
    }
}

/// Derives the secret for `entropy`. Every entropy is valid, and the secret
/// depends on nothing else.
pub fn new_secret(entropy: Entropy) -> (secret: SecretKey)
    ensures
        secret.seed() == entropy,
{
    SecretKey { seed: entropy }
}

/// Two secrets derived from the same entropy are the same secret.
pub proof fn lemma_secret_is_function_of_entropy(a: SecretKey, b: SecretKey)
    requires
        a.seed() == b.seed(),
    ensures
        a == b,
{
}

/// Whether `r` is what `member_from_secret` can return for a secret of `seed`: the point
/// that `derive_point` gave for the seed, or `InvalidKey` where it gave none.
pub open spec fn derived<D>(derive_point: D, seed: Entropy, r: Result<Member, ProtocolError>) -> bool
    where D: Fn(&Entropy) -> Option<Member> {
    match r {
        Ok(member) => call_ensures(derive_point, (&seed,), Some(member)),
        Err(e) => e == ProtocolError::InvalidKey && call_ensures(
            derive_point,
            (&seed,),
            None::<Member>,
        ),
    }
}

/// Derives the member of `secret`. `derive_point` maps a seed to the encoded
/// public point, or to `None` where that point is not on the curve; it is
/// called once, on the seed of `secret`, and what it returns decides the
/// result.
pub fn member_from_secret<D>(secret: &SecretKey, derive_point: &D) -> (r: Result<
    Member,
    ProtocolError,
>) where D: Fn(&Entropy) -> Option<Member>
    requires
        forall|seed: &Entropy| call_requires(*derive_point, (seed,)),
    ensures
        derived(*derive_point, secret.seed(), r),
{
    let point = derive_point(&secret.seed);
    match point {
        Some(member) => {
            assert(point == Some(member));
            Ok(member)
        },
        None => Err(ProtocolError::InvalidKey),
    }
}

/// Whether the point that `derive_point` gives is a function of the seed.
pub open spec fn point_is_function<D>(derive_point: D) -> bool where
    D: Fn(&Entropy) -> Option<Member>,
 {
    forall|seed: Entropy, a: Option<Member>, b: Option<Member>|
        #![trigger call_ensures(derive_point, (&seed,), a), call_ensures(derive_point, (&seed,), b)]
        call_ensures(derive_point, (&seed,), a) && call_ensures(derive_point, (&seed,), b) ==> a
            == b
}

/// Equal entropy gives equal members: with a point derivation that is a
/// function of the seed, any two derivations from secrets of the same entropy
/// end alike.
pub proof fn lemma_member_is_function_of_entropy<D>(
    derive_point: D,
    a: SecretKey,
    b: SecretKey,
    ra: Result<Member, ProtocolError>,
    rb: Result<Member, ProtocolError>,
) where D: Fn(&Entropy) -> Option<Member>
    requires
        point_is_function(derive_point),
        a.seed() == b.seed(),
        derived(derive_point, a.seed(), ra),
        derived(derive_point, b.seed(), rb),
    ensures
        ra == rb,
{
    let seed = a.seed();
    match (ra, rb) {
        (Ok(x), Ok(y)) => {
            assert(call_ensures(derive_point, (&seed,), Some(x)));
            assert(call_ensures(derive_point, (&seed,), Some(y)));
        },
        (Ok(x), Err(_)) => {
            assert(call_ensures(derive_point, (&seed,), Some(x)));
            assert(call_ensures(derive_point, (&seed,), None::<Member>));
        },
        (Err(_), Ok(y)) => {
            assert(call_ensures(derive_point, (&seed,), None::<Member>));
            assert(call_ensures(derive_point, (&seed,), Some(y)));
        },
        (Err(_), Err(_)) => {},
    }
}

} // verus!
