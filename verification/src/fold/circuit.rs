//! The step circuit of recursive transfer proofs: each step takes the
//! transfer count and produces it incremented by one. Only the witness it
//! carries is held here; the constraint system itself belongs to the
//! proving backend.

use vstd::prelude::*;

verus! {

/// The circuit of one transfer step.
#[derive(Clone, Copy, Debug)]
pub struct TransferCircuit {
    /// The new owner's data folded in at this step (private witness).
    new_owner_data: u64,
}

impl TransferCircuit {
    /// The witness of the circuit.
    pub closed spec fn data(&self) -> u64 {
        self.new_owner_data
    }

    /// A circuit for a step with the given owner data.
    pub fn new(data: u64) -> (c: Self)
        ensures
            c.data() == data,
    {
        TransferCircuit { new_owner_data: data }
    }

    /// The circuit with an empty witness, used for setup.
    pub fn blank() -> (c: Self)
        ensures
            c.data() == 0,
    {
        TransferCircuit { new_owner_data: 0 }
    }

    /// The number of state elements: the transfer count.
    pub fn arity(&self) -> (n: usize)
        ensures
            n == 1,
    {
        1
    }
}

} // verus!
