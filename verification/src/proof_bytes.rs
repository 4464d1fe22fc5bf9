//! Proof bytes: the finalized transcript the proving engine emits.
//!
//! A proof is an opaque byte vector; equality is byte equality, and its
//! length is deterministic in the circuit shape and the instance count.

use vstd::prelude::*;

verus! {

/// A proof of the validity of one or more actions.
#[derive(Clone, Debug)]
pub struct Proof {
    bytes: Vec<u8>,
}

impl View for Proof {
    type V = Seq<u8>;

    closed spec fn view(&self) -> Seq<u8> {
        self.bytes@
    }
}

impl Proof {
    /// Constructs a new proof value from raw bytes.
    pub fn new(bytes: Vec<u8>) -> (r: Proof)
        ensures
            r@ == bytes@,
    {
        Proof { bytes }
    }

    /// The raw proof bytes.
    pub fn as_bytes(&self) -> (r: &Vec<u8>)
        ensures
            r@ == self@,
    {
        &self.bytes
    }

    /// The proof's size in bytes.
    pub fn len(&self) -> (r: usize)
        ensures
            r == self@.len(),
    {
        self.bytes.len()
    }
}

} // verus!
