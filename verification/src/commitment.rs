//! Ring commitments: the aggregate over an ordered ring, built member by
//! member or in one call.
//!
//! The aggregate is folded from the empty aggregate, one member at a time and
//! in ring order. Two capabilities do the work that needs the curve: the basis
//! lookup, which gives the basis element for a ring index, and the fold, which
//! combines a partial aggregate, the next member and its basis element.

use crate::bytes::Member;
use crate::error::ProtocolError;
use crate::ring::{first_index, Ring};
use crate::scale::{
    decode_u32, encode_u32, le_bytes, le_u32, lemma_le_bytes_hold, lemma_le_u32_bytes,
    MAX_MEMBERS,
};
use vstd::prelude::*;
use vstd::slice::{slice_subrange, slice_to_vec};

verus! {

/// The aggregate commitment to a whole ring.
pub struct RingCommitment {
    aggregate: Vec<u8>,
}

impl RingCommitment {
    /// The bytes of the aggregate.
    pub closed spec fn spec_aggregate(&self) -> &Vec<u8> {
        &self.aggregate
    }

    /// The bytes of the aggregate.
    #[verifier::when_used_as_spec(spec_aggregate)]
    pub fn aggregate(&self) -> (bytes: &Vec<u8>)
        ensures
            bytes == self.spec_aggregate(),
    {
        &self.aggregate
    }

    /// The commitment with the given aggregate, for a verifier that was handed
    /// the aggregate instead of the ring.
    pub fn from_aggregate(aggregate: Vec<u8>) -> (commitment: RingCommitment)
        ensures
            *commitment.aggregate() == aggregate,
    {
        RingCommitment { aggregate }
    }
}

/// The running aggregate of an incremental construction, and the number of
/// members folded into it so far.
pub struct BuilderState {
    count: usize,
    aggregate: Vec<u8>,
}

/// Whether `aggregate` can come out of folding `ring`, in order, into the
/// empty aggregate: each member with the basis element that `lookup` gave for
/// its index, each step one call of `fold`.
pub open spec fn folded<L, F>(lookup: L, fold: F, ring: Seq<Member>, aggregate: Vec<u8>) -> bool
    where L: Fn(usize) -> Result<Vec<u8>, ()>, F: Fn(&Vec<u8>, &Member, &Vec<u8>) -> Vec<u8>
    decreases ring.len(),
{
    if ring.len() == 0 {
        aggregate@ == Seq::<u8>::empty()
    } else {
        exists|prev: Vec<u8>, basis: Vec<u8>|
            folded(lookup, fold, ring.drop_last(), prev) && call_ensures(
                lookup,
                ((ring.len() - 1) as usize,),
                Ok::<Vec<u8>, ()>(basis),
            ) && #[trigger] call_ensures(fold, (&prev, &ring.last(), &basis), aggregate)
    }
}

/// Whether the lookup can fail while `ring` is folded: for some index of the
/// ring, the members before it fold and `lookup` has no element for it.
pub open spec fn lookup_fails<L, F>(lookup: L, fold: F, ring: Seq<Member>) -> bool where
    L: Fn(usize) -> Result<Vec<u8>, ()>,
    F: Fn(&Vec<u8>, &Member, &Vec<u8>) -> Vec<u8>,
 {
    exists|k: int, prev: Vec<u8>|
        #![trigger folded(lookup, fold, ring.take(k), prev)]
        0 <= k < ring.len() && folded(lookup, fold, ring.take(k), prev) && call_ensures(
            lookup,
            (k as usize,),
            Err::<Vec<u8>, ()>(()),
        )
}

impl BuilderState {
    /// The number of members folded in so far, which is the index of the next.
    pub closed spec fn spec_count(&self) -> usize {
        self.count
    }

    /// The running aggregate.
    pub closed spec fn spec_aggregate(&self) -> &Vec<u8> {
        &self.aggregate
    }

    /// The number of members folded in so far, which is the index of the next.
    #[verifier::when_used_as_spec(spec_count)]
    pub fn count(&self) -> (count: usize)
        ensures
            count == self.spec_count(),
    {
        self.count
    }

    /// The running aggregate.
    #[verifier::when_used_as_spec(spec_aggregate)]
    pub fn aggregate(&self) -> (bytes: &Vec<u8>)
        ensures
            bytes == self.spec_aggregate(),
    {
        &self.aggregate
    }

    /// Whether the state is what folding `ring` can give.
    pub open spec fn holds<L, F>(&self, lookup: L, fold: F, ring: Seq<Member>) -> bool where
        L: Fn(usize) -> Result<Vec<u8>, ()>,
        F: Fn(&Vec<u8>, &Member, &Vec<u8>) -> Vec<u8>,
     {
        self.count() == ring.len() && folded(lookup, fold, ring, *self.aggregate())
    }
}

/// Starts an incremental construction: no member yet, the aggregate empty.
pub fn start_members() -> (state: BuilderState)
    ensures
        state.count() == 0,
        state.aggregate()@ == Seq::<u8>::empty(),
{
    BuilderState { count: 0, aggregate: Vec::new() }
}

/// Folds `member` into the running aggregate as the next member of the ring.
///
/// The basis element is looked up for the index of the member, which is the
/// number of members pushed before. Where the ring is full or the lookup
/// fails, the state stays as it was and the result is `LookupFailure`; `fold`
/// is then not called. Otherwise `fold` is called once, on the running
/// aggregate, the member and the element found, and its result is the new
/// aggregate.
pub fn push_member<L, F>(
    state: &mut BuilderState,
    member: Member,
    basis_lookup: &L,
    fold: &F,
) -> (r: Result<(), ProtocolError>) where
    L: Fn(usize) -> Result<Vec<u8>, ()>,
    F: Fn(&Vec<u8>, &Member, &Vec<u8>) -> Vec<u8>,

    requires
        forall|index: usize| call_requires(*basis_lookup, (index,)),
        forall|aggregate: &Vec<u8>, next: &Member, basis: &Vec<u8>|
            call_requires(*fold, (aggregate, next, basis)),
    ensures
        match r {
            Ok(_) => old(state).count() < MAX_MEMBERS && final(state).count() == old(state).count()
                + 1 && exists|basis: Vec<u8>|
                call_ensures(*basis_lookup, (old(state).count(),), Ok::<Vec<u8>, ()>(basis))
                    && #[trigger] call_ensures(
                    *fold,
                    (old(state).aggregate(), &member, &basis),
                    *final(state).aggregate(),
                ),
            Err(e) => e == ProtocolError::LookupFailure && *final(state) == *old(state) && (old(
                state,
            ).count() >= MAX_MEMBERS || call_ensures(
                *basis_lookup,
                (old(state).count(),),
                Err::<Vec<u8>, ()>(()),
            )),
        },
        forall|ring: Seq<Member>| #[trigger]
            old(state).holds(*basis_lookup, *fold, ring) && r is Ok ==> final(state).holds(
                *basis_lookup,
                *fold,
                ring.push(member),
            ),
{
    let index = state.count;
    if index >= MAX_MEMBERS {
        return Err(ProtocolError::LookupFailure);
    }
    let found = basis_lookup(index);
    match found {
        Ok(basis) => {
            assert(found == Ok::<Vec<u8>, ()>(basis));
            let next = fold(&state.aggregate, &member, &basis);
            proof {
                let prev = state.aggregate;
                assert(call_ensures(*fold, (&prev, &member, &basis), next));
                assert forall|ring: Seq<Member>| #[trigger]
                    old(state).holds(*basis_lookup, *fold, ring) implies folded(
                    *basis_lookup,
                    *fold,
                    ring.push(member),
                    next,
                ) by {
                    let longer = ring.push(member);
                    assert(longer.drop_last() =~= ring);
                    assert(longer.last() == member);
                    assert(longer.len() - 1 == index);
                    assert(folded(*basis_lookup, *fold, longer.drop_last(), prev));
                    assert(call_ensures(
                        *basis_lookup,
                        ((longer.len() - 1) as usize,),
                        Ok::<Vec<u8>, ()>(basis),
                    ));
                    assert(call_ensures(*fold, (&prev, &longer.last(), &basis), next));
                }
            }
            state.aggregate = next;
            state.count = index + 1;
            assert(call_ensures(
                *fold,
                (old(state).aggregate(), &member, &basis),
                *state.aggregate(),
            ));
            Ok(())
        },
        Err(e) => {
            assert(e == ());
            assert(found == Err::<Vec<u8>, ()>(()));
            Err(ProtocolError::LookupFailure)
        },
    }
}

/// Closes an incremental construction: the commitment is the running
/// aggregate.
pub fn finish_members(state: BuilderState) -> (commitment: RingCommitment)
    ensures
        commitment.aggregate() == state.aggregate(),
{
    RingCommitment { aggregate: state.aggregate }
}

/// Whether `r` is what building the commitment to `ring` can give: an
/// aggregate folded from the whole ring, or `LookupFailure` where the lookup
/// failed on the way.
pub open spec fn built<L, F>(
    lookup: L,
    fold: F,
    ring: Seq<Member>,
    r: Result<RingCommitment, ProtocolError>,
) -> bool where L: Fn(usize) -> Result<Vec<u8>, ()>, F: Fn(&Vec<u8>, &Member, &Vec<u8>) -> Vec<u8> {
    match r {
        Ok(commitment) => folded(lookup, fold, ring, *commitment.aggregate()),
        Err(e) => e == ProtocolError::LookupFailure && lookup_fails(lookup, fold, ring),
    }
}

/// Builds the commitment to `ring` in one call: the members are folded in
/// ring order, as `start_members`, `push_member` and `finish_members` fold
/// them. A failed lookup ends the construction with `LookupFailure`.
pub fn build_commitment<L, F>(ring: &Ring, basis_lookup: &L, fold: &F) -> (r: Result<
    RingCommitment,
    ProtocolError,
>) where L: Fn(usize) -> Result<Vec<u8>, ()>, F: Fn(&Vec<u8>, &Member, &Vec<u8>) -> Vec<u8>
    requires
        forall|index: usize| call_requires(*basis_lookup, (index,)),
        forall|aggregate: &Vec<u8>, next: &Member, basis: &Vec<u8>|
            call_requires(*fold, (aggregate, next, basis)),
    ensures
        built(*basis_lookup, *fold, ring@, r),
{
    let n = ring.len();
    let mut state = start_members();
    let mut i: usize = 0;
    assert(ring@.take(0) =~= Seq::<Member>::empty());
    while i < n
        invariant
            i <= n,
            n == ring@.len(),
            n <= MAX_MEMBERS,
            state.holds(*basis_lookup, *fold, ring@.take(i as int)),
            forall|index: usize| call_requires(*basis_lookup, (index,)),
            forall|aggregate: &Vec<u8>, next: &Member, basis: &Vec<u8>|
                call_requires(*fold, (aggregate, next, basis)),
        decreases n - i,
    {
        let member = ring.get(i);
        let ghost before = state;
        let pushed = push_member(&mut state, member, basis_lookup, fold);
        match pushed {
            Ok(_) => {},
            Err(_) => {
                assert(folded(*basis_lookup, *fold, ring@.take(i as int), *before.aggregate()));
                return Err(ProtocolError::LookupFailure);
            },
        }
        assert(ring@.take(i as int).push(member) =~= ring@.take(i + 1));
        i += 1;
    }
    assert(ring@.take(n as int) =~= ring@);
    Ok(finish_members(state))
}

/// Whether `r` is what opening `ring` for `target` can give. A target that
/// the ring does not hold gives `MemberNotFound`. For one that it holds, the
/// result is the first index at which it occurs and a commitment folded from
/// the whole ring, or `LookupFailure` where the lookup failed on the way.
pub open spec fn opened<L, F>(
    lookup: L,
    fold: F,
    target: Member,
    ring: Seq<Member>,
    r: Result<(u32, RingCommitment), ProtocolError>,
) -> bool where L: Fn(usize) -> Result<Vec<u8>, ()>, F: Fn(&Vec<u8>, &Member, &Vec<u8>) -> Vec<u8> {
    match first_index(ring, target) {
        None => r == Err::<(u32, RingCommitment), ProtocolError>(ProtocolError::MemberNotFound),
        Some(first) => match r {
            Ok((index, commitment)) => index == first && folded(
                lookup,
                fold,
                ring,
                *commitment.aggregate(),
            ),
            Err(e) => e == ProtocolError::LookupFailure && lookup_fails(lookup, fold, ring),
        },
    }
}

/// Opens `ring` for `target`: finds the first index at which `target` occurs
/// and builds the commitment to the whole ring.
///
/// The ring is scanned before anything is folded, so a target that the ring
/// does not hold gives `MemberNotFound` whatever the capabilities do.
pub fn open<L, F>(target: &Member, ring: &Ring, basis_lookup: &L, fold: &F) -> (r: Result<
    (u32, RingCommitment),
    ProtocolError,
>) where L: Fn(usize) -> Result<Vec<u8>, ()>, F: Fn(&Vec<u8>, &Member, &Vec<u8>) -> Vec<u8>
    requires
        forall|index: usize| call_requires(*basis_lookup, (index,)),
        forall|aggregate: &Vec<u8>, next: &Member, basis: &Vec<u8>|
            call_requires(*fold, (aggregate, next, basis)),
    ensures
        opened(*basis_lookup, *fold, *target, ring@, r),
{
    let index = match ring.position(target) {
        Some(index) => index,
        None => {
            return Err(ProtocolError::MemberNotFound);
        },
    };
    match build_commitment(ring, basis_lookup, fold) {
        Ok(commitment) => Ok((index, commitment)),
        Err(e) => Err(e),
    }
}

/// The encoding of an opened ring: the four bytes of the index, least
/// significant byte first, then the aggregate.
pub open spec fn opening_encoding(index: u32, aggregate: Seq<u8>) -> Seq<u8> {
    le_bytes(index as int) + aggregate
}

/// Two openings with the same encoding have the same index and the same
/// aggregate.
pub proof fn lemma_opening_encoding_unique(i: u32, a: Seq<u8>, j: u32, b: Seq<u8>)
    requires
        opening_encoding(i, a) == opening_encoding(j, b),
    ensures
        i == j,
        a == b,
{
    lemma_le_bytes_hold(i as int);
    lemma_le_bytes_hold(j as int);
    let e = opening_encoding(i, a);
    let x = le_bytes(i as int);
    let y = le_bytes(j as int);
    assert(e.len() == 4 + a.len() && e.len() == 4 + b.len());
    assert forall|k: int| 0 <= k < 4 implies x[k] == y[k] by {
        assert(x[k] == e[k]);
        assert(y[k] == opening_encoding(j, b)[k]);
    }
    assert(le_u32(x[0], x[1], x[2], x[3]) == le_u32(y[0], y[1], y[2], y[3]));
    assert forall|k: int| 0 <= k < a.len() implies a[k] == b[k] by {
        assert(a[k] == e[k + 4]);
        assert(b[k] == opening_encoding(j, b)[k + 4]);
    }
    assert(a =~= b);
}

/// Encodes what `open` returned: the index, then the aggregate.
pub fn encode_opening(opening: &(u32, RingCommitment)) -> (out: Vec<u8>)
    ensures
        out@ == opening_encoding(opening.0, opening.1.aggregate()@),
{
    let mut out = encode_u32(opening.0);
    let aggregate = opening.1.aggregate();
    let n = aggregate.len();
    let mut i: usize = 0;
    while i < n
        invariant
            i <= n,
            n == aggregate@.len(),
            out@ == le_bytes(opening.0 as int) + aggregate@.subrange(0, i as int),
        decreases n - i,
    {
        out.push(aggregate[i]);
        assert(aggregate@.subrange(0, i as int).push(aggregate@[i as int]) =~= aggregate@.subrange(
            0,
            i + 1,
        ));
        i += 1;
    }
    assert(aggregate@.subrange(0, n as int) =~= aggregate@);
    out
}

/// Decodes an opened ring. Fewer than four bytes are refused; any bytes may
/// follow the index as the aggregate. The encoding of an opening decodes to
/// that opening.
pub fn decode_opening(bytes: &[u8]) -> (r: Result<(u32, RingCommitment), ProtocolError>)
    ensures
        match r {
            Ok(opening) => opening_encoding(opening.0, opening.1.aggregate()@) == bytes@,
            Err(e) => e == ProtocolError::DecodeError && bytes@.len() < 4,
        },
        forall|index: u32, aggregate: Seq<u8>| #[trigger]
            opening_encoding(index, aggregate) == bytes@ ==> (r matches Ok(opening) && opening.0
                == index && opening.1.aggregate()@ == aggregate),
{
    match decode_u32(bytes) {
        Ok(index) => {
            let aggregate = slice_to_vec(slice_subrange(bytes, 4, bytes.len()));
            proof {
                lemma_le_u32_bytes(bytes@[0], bytes@[1], bytes@[2], bytes@[3]);
                assert(opening_encoding(index, aggregate@) =~= bytes@);
                assert forall|i: u32, a: Seq<u8>| #[trigger]
                    opening_encoding(i, a) == bytes@ implies i == index && a == aggregate@ by {
                    lemma_opening_encoding_unique(i, a, index, aggregate@);
                }
            }
            Ok((index, RingCommitment { aggregate }))
        },
        Err(_) => {
            assert forall|i: u32, a: Seq<u8>| #[trigger]
                opening_encoding(i, a) == bytes@ implies false by {
                assert(opening_encoding(i, a).len() >= 4);
            }
            Err(ProtocolError::DecodeError)
        },
    }
}

/// Whether what `lookup` finds for an index is a function of the index: it
/// fails for an index always or never, and the elements it finds for an index
/// are the same bytes.
pub open spec fn lookup_is_function<L>(lookup: L) -> bool where
    L: Fn(usize) -> Result<Vec<u8>, ()>,
 {
    forall|index: usize, a: Result<Vec<u8>, ()>, b: Result<Vec<u8>, ()>|
        #![trigger call_ensures(lookup, (index,), a), call_ensures(lookup, (index,), b)]
        call_ensures(lookup, (index,), a) && call_ensures(lookup, (index,), b) ==> match (a, b) {
            (Ok(x), Ok(y)) => x@ == y@,
            (Err(_), Err(_)) => true,
            _ => false,
        }
}

/// Whether the bytes that `fold` returns are a function of the bytes of the
/// aggregate, the member and the bytes of the basis element.
pub open spec fn fold_is_function<F>(fold: F) -> bool where
    F: Fn(&Vec<u8>, &Member, &Vec<u8>) -> Vec<u8>,
 {
    forall|p1: Vec<u8>, p2: Vec<u8>, member: Member, b1: Vec<u8>, b2: Vec<u8>, r1: Vec<u8>, r2: Vec<u8>|
        #![trigger call_ensures(fold, (&p1, &member, &b1), r1), call_ensures(fold, (&p2, &member, &b2), r2)]
        p1@ == p2@ && b1@ == b2@ && call_ensures(fold, (&p1, &member, &b1), r1) && call_ensures(
            fold,
            (&p2, &member, &b2),
            r2,
        ) ==> r1@ == r2@
}

/// One ring, one aggregate: however an ordered ring was folded, by `open` or
/// by `start_members`, one `push_member` for each member in ring order and
/// `finish_members`, the aggregates are the same bytes. This holds of
/// capabilities whose results are functions of their arguments.
pub proof fn lemma_one_ring_one_aggregate<L, F>(
    lookup: L,
    fold: F,
    ring: Seq<Member>,
    a: Vec<u8>,
    b: Vec<u8>,
) where L: Fn(usize) -> Result<Vec<u8>, ()>, F: Fn(&Vec<u8>, &Member, &Vec<u8>) -> Vec<u8>
    requires
        lookup_is_function(lookup),
        fold_is_function(fold),
        folded(lookup, fold, ring, a),
        folded(lookup, fold, ring, b),
    ensures
        a@ == b@,
    decreases ring.len(),
{
    if ring.len() == 0 {
        assert(a@ =~= b@);
    } else {
        let (pa, ba) = choose|prev: Vec<u8>, basis: Vec<u8>|
            folded(lookup, fold, ring.drop_last(), prev) && call_ensures(
                lookup,
                ((ring.len() - 1) as usize,),
                Ok::<Vec<u8>, ()>(basis),
            ) && #[trigger] call_ensures(fold, (&prev, &ring.last(), &basis), a);
        let (pb, bb) = choose|prev: Vec<u8>, basis: Vec<u8>|
            folded(lookup, fold, ring.drop_last(), prev) && call_ensures(
                lookup,
                ((ring.len() - 1) as usize,),
                Ok::<Vec<u8>, ()>(basis),
            ) && #[trigger] call_ensures(fold, (&prev, &ring.last(), &basis), b);
        lemma_one_ring_one_aggregate(lookup, fold, ring.drop_last(), pa, pb);
        let index = (ring.len() - 1) as usize;
        assert(call_ensures(lookup, (index,), Ok::<Vec<u8>, ()>(ba)) && call_ensures(
            lookup,
            (index,),
            Ok::<Vec<u8>, ()>(bb),
        ));
        assert(ba@ == bb@);
        assert(a@ == b@);
    }
}

/// Incremental and one-shot construction agree: the commitment that `open`
/// returns for a ring is, byte for byte, the commitment that
/// `finish_members` returns once every member of the ring was pushed in ring
/// order. This holds of capabilities whose results are functions of their
/// arguments.
pub proof fn lemma_open_agrees_with_builder<L, F>(
    lookup: L,
    fold: F,
    target: Member,
    ring: Seq<Member>,
    opening: (u32, RingCommitment),
    state: BuilderState,
    finished: RingCommitment,
) where L: Fn(usize) -> Result<Vec<u8>, ()>, F: Fn(&Vec<u8>, &Member, &Vec<u8>) -> Vec<u8>
    requires
        lookup_is_function(lookup),
        fold_is_function(fold),
        opened(lookup, fold, target, ring, Ok(opening)),
        state.holds(lookup, fold, ring),
        finished.aggregate() == state.aggregate(),
    ensures
        opening.1.aggregate()@ == finished.aggregate()@,
{
    assert(first_index(ring, target) is Some);
    lemma_one_ring_one_aggregate(
        lookup,
        fold,
        ring,
        *opening.1.aggregate(),
        *finished.aggregate(),
    );
}

/// While a ring was folded, the lookup found an element for each of its
/// indices.
pub proof fn lemma_folded_found_every_element<L, F>(
    lookup: L,
    fold: F,
    ring: Seq<Member>,
    aggregate: Vec<u8>,
    k: int,
) where L: Fn(usize) -> Result<Vec<u8>, ()>, F: Fn(&Vec<u8>, &Member, &Vec<u8>) -> Vec<u8>
    requires
        folded(lookup, fold, ring, aggregate),
        0 <= k < ring.len(),
    ensures
        exists|basis: Vec<u8>| call_ensures(lookup, (k as usize,), Ok::<Vec<u8>, ()>(basis)),
    decreases ring.len(),
{
    let (prev, basis) = choose|prev: Vec<u8>, basis: Vec<u8>|
        folded(lookup, fold, ring.drop_last(), prev) && call_ensures(
            lookup,
            ((ring.len() - 1) as usize,),
            Ok::<Vec<u8>, ()>(basis),
        ) && #[trigger] call_ensures(fold, (&prev, &ring.last(), &basis), aggregate);
    if k < ring.len() - 1 {
        lemma_folded_found_every_element(lookup, fold, ring.drop_last(), prev, k);
    }
}

/// A ring that was folded once folds again: with capabilities that are
/// functions of their arguments, building the commitment to a ring that has
/// an aggregate does not fail, and gives the same bytes.
pub proof fn lemma_built_again<L, F>(
    lookup: L,
    fold: F,
    ring: Seq<Member>,
    aggregate: Vec<u8>,
    r: Result<RingCommitment, ProtocolError>,
) where L: Fn(usize) -> Result<Vec<u8>, ()>, F: Fn(&Vec<u8>, &Member, &Vec<u8>) -> Vec<u8>
    requires
        lookup_is_function(lookup),
        fold_is_function(fold),
        folded(lookup, fold, ring, aggregate),
        built(lookup, fold, ring, r),
    ensures
        r matches Ok(commitment) && commitment.aggregate()@ == aggregate@,
{
    match r {
        Ok(commitment) => {
            lemma_one_ring_one_aggregate(lookup, fold, ring, *commitment.aggregate(), aggregate);
        },
        Err(_) => {
            let (k, prev) = choose|k: int, prev: Vec<u8>|
                #![trigger folded(lookup, fold, ring.take(k), prev)]
                0 <= k < ring.len() && folded(lookup, fold, ring.take(k), prev) && call_ensures(
                    lookup,
                    (k as usize,),
                    Err::<Vec<u8>, ()>(()),
                );
            lemma_folded_found_every_element(lookup, fold, ring, aggregate, k);
            let basis = choose|basis: Vec<u8>|
                call_ensures(lookup, (k as usize,), Ok::<Vec<u8>, ()>(basis));
            assert(call_ensures(lookup, (k as usize,), Ok::<Vec<u8>, ()>(basis)) && call_ensures(
                lookup,
                (k as usize,),
                Err::<Vec<u8>, ()>(()),
            ));
        },
    }
}

} // verus!
