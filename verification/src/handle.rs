//! Opaque identities for component instances.

use vstd::prelude::*;

verus! {

/// An opaque, globally unique identifier naming one component instance
/// within a network. A handle is immutable once assigned; components
/// exchange handles, never references to each other's internals.
#[derive(Clone, Copy, Debug, PartialEq, Eq, Hash, Structural)]
pub struct Handle {
    bits: u128,
}

/// Relies on `uuid::Uuid::new_v4`: draws a fresh random 128-bit
/// identifier from the process's entropy source. The result depends on
/// chance, so nothing is promised of its value.
#[verifier::external_body]
fn random_bits() -> u128 {
    uuid::Uuid::new_v4().as_u128()
}

impl Handle {
    /// The mathematical identity of this handle: two handles are equal
    /// exactly when their identities are.
    pub closed spec fn id(&self) -> u128 {
        self.bits
    }

    /// The handle with the given identity, mathematically.
    pub closed spec fn spec_from_bits(bits: u128) -> Handle {
        Handle { bits }
    }

    /// Allocate a fresh handle. Uniqueness is probabilistic: two draws
    /// of a 128-bit random value collide with negligible probability,
    /// so nothing relates the result to previously allocated handles.
    pub fn allocate() -> Handle {
        Handle { bits: random_bits() }
    }

    /// Build a handle from explicitly chosen bits; intended for tests
    /// and for callers that manage identities themselves.
    pub fn from_bits(bits: u128) -> (h: Handle)
        ensures
            h.id() == bits,
            h == Handle::spec_from_bits(bits),
    {
        Handle { bits }
    }

    /// The raw 128-bit value behind this handle.
    pub fn bits(&self) -> (b: u128)
        ensures
            b == self.id(),
    {
        self.bits
    }

    /// Handles with equal identities are equal values.
    pub proof fn lemma_id_injective(a: Handle, b: Handle)
        ensures
            a.id() == b.id() <==> a == b,
    {
    }
}

} // verus!
