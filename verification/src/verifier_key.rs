//! The verifier key: the table of basis elements, one for each ring index.

use vstd::prelude::*;
use vstd::slice::slice_to_vec;

verus! {

/// The parameter table that commitments are built against. It holds one
/// encoded basis element for each index of a ring, and so bounds the size of
/// the rings that can be committed to. It is never changed once made.
pub struct VerifierKey {
    basis: Vec<Vec<u8>>,
}

impl View for VerifierKey {
    type V = Seq<Seq<u8>>;

    closed spec fn view(&self) -> Seq<Seq<u8>> {
        Seq::new(self.basis@.len(), |i: int| self.basis@[i]@)
    }
}

impl VerifierKey {
    /// The key with the given basis elements, in index order.
    pub fn from_basis(basis: Vec<Vec<u8>>) -> (key: VerifierKey)
        ensures
            key@.len() == basis@.len(),
            forall|i: int| 0 <= i < basis@.len() ==> key@[i] == basis@[i]@,
    {
        VerifierKey { basis }
    }

    /// The largest ring that the key supports.
    pub fn ring_size(&self) -> (size: usize)
        ensures
            size == self@.len(),
    {
        self.basis.len()
    }

    /// The basis element for `index`, or an error where `index` is beyond the
    /// ring size that the key supports.
    pub fn lookup(&self, index: usize) -> (r: Result<Vec<u8>, ()>)
        ensures
            match r {
                Ok(element) => index < self@.len() && element@ == self@[index as int],
                Err(_) => index >= self@.len(),
            },
    {
        if index < self.basis.len() {
            Ok(slice_to_vec(self.basis[index].as_slice()))
        } else {
            Err(())
        }
    }
}

} // verus!
