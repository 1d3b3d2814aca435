//! Circuit bookkeeping shared by the built-in circuits.
//!
//! The recursive-proof layer registers a fixed family of internal circuits
//! after the application's own steps; [`InternalCircuitIndex`] names them and
//! fixes their position in the registration order. The data carried between
//! stages ([`KyValues`], [`ProofHeaders`]) travels as plain field elements.

use vstd::prelude::*;

use vstd::arithmetic::power2::pow2;

use crate::components::Element;
use crate::drivers::Emulator;
use crate::field::Fe;
use crate::Error;

verus! {

/// The number of step circuits registered before the internal circuits.
pub const NUM_INTERNAL_STEPS: usize = 2;

/// The number of internal circuits, and of variants of
/// [`InternalCircuitIndex`].
pub const NUM_INTERNAL_CIRCUITS: usize = 13;

/// The internal circuits, in registration order.
#[derive(Clone, Copy, Debug, PartialEq, Eq, Structural)]
pub enum InternalCircuitIndex {
    /// The trivial placeholder circuit.
    DummyCircuit,
    /// Final stage object of the error chain.
    ErrorNFinalStaged,
    /// Final stage object of the evaluation chain.
    EvalFinalStaged,
    /// First transcript-hashing circuit.
    Hashes1Circuit,
    /// Second transcript-hashing circuit.
    Hashes2Circuit,
    /// The folding circuit.
    FoldCircuit,
    /// The folded-claim computation circuit.
    ComputeCCircuit,
    /// The evaluation-check circuit.
    ComputeVCircuit,
    /// The preamble stage.
    PreambleStage,
    /// The first-layer error stage.
    ErrorMStage,
    /// The second-layer error stage.
    ErrorNStage,
    /// The query stage.
    QueryStage,
    /// The evaluation stage.
    EvalStage,
}

impl InternalCircuitIndex {
    /// The position of this circuit in registration order, starting at the
    /// dummy circuit.
    pub open spec fn ordinal(self) -> int {
        match self {
            InternalCircuitIndex::DummyCircuit => 0,
            InternalCircuitIndex::ErrorNFinalStaged => 1,
            InternalCircuitIndex::EvalFinalStaged => 2,
            InternalCircuitIndex::Hashes1Circuit => 3,
            InternalCircuitIndex::Hashes2Circuit => 4,
            InternalCircuitIndex::FoldCircuit => 5,
            InternalCircuitIndex::ComputeCCircuit => 6,
            InternalCircuitIndex::ComputeVCircuit => 7,
            InternalCircuitIndex::PreambleStage => 8,
            InternalCircuitIndex::ErrorMStage => 9,
            InternalCircuitIndex::ErrorNStage => 10,
            InternalCircuitIndex::QueryStage => 11,
            InternalCircuitIndex::EvalStage => 12,
        }
    }

    /// The index of this circuit in a mesh with the given number of
    /// application steps: application steps first, then the internal steps,
    /// then the internal circuits in registration order.
    pub fn circuit_index(self, num_application_steps: usize) -> (r: usize)
        requires
            num_application_steps + NUM_INTERNAL_STEPS + NUM_INTERNAL_CIRCUITS <= usize::MAX,
        ensures
            r == num_application_steps + NUM_INTERNAL_STEPS + self.ordinal(),
    {
        let ordinal: usize = match self {
            InternalCircuitIndex::DummyCircuit => 0,
            InternalCircuitIndex::ErrorNFinalStaged => 1,
            InternalCircuitIndex::EvalFinalStaged => 2,
            InternalCircuitIndex::Hashes1Circuit => 3,
            InternalCircuitIndex::Hashes2Circuit => 4,
            InternalCircuitIndex::FoldCircuit => 5,
            InternalCircuitIndex::ComputeCCircuit => 6,
            InternalCircuitIndex::ComputeVCircuit => 7,
            InternalCircuitIndex::PreambleStage => 8,
            InternalCircuitIndex::ErrorMStage => 9,
            InternalCircuitIndex::ErrorNStage => 10,
            InternalCircuitIndex::QueryStage => 11,
            InternalCircuitIndex::EvalStage => 12,
        };
        num_application_steps + NUM_INTERNAL_STEPS + ordinal
    }
}

/// The total circuit count of a mesh with the given number of application
/// steps, and the binary logarithm of the smallest power-of-two domain
/// holding that many circuits.
pub fn total_circuit_counts(num_application_steps: usize) -> (r: (usize, u32))
    requires
        num_application_steps <= 0x1000_0000,
    ensures
        r.0 == num_application_steps + NUM_INTERNAL_STEPS + NUM_INTERNAL_CIRCUITS,
        pow2(r.1 as nat) >= r.0,
        r.1 > 0 ==> pow2((r.1 - 1) as nat) < r.0,
    {
    let total = num_application_steps + NUM_INTERNAL_STEPS + NUM_INTERNAL_CIRCUITS;
    let mut k: u32 = 0;
    let mut p: u64 = 1;
    proof {
        vstd::arithmetic::power2::lemma2_to64();
    }
    while p < total as u64
        invariant
            total <= 0x1000_0000 + 15,
            p == pow2(k as nat),
            k <= 35,
            k > 0 ==> pow2((k - 1) as nat) < total,
        decreases 36 - k,
    {
        proof {
            vstd::arithmetic::power2::lemma2_to64();
            vstd::arithmetic::power2::lemma_pow2_unfold((k + 1) as nat);
            if k >= 35 {
                vstd::arithmetic::power2::lemma2_to64_rest();
                vstd::arithmetic::power2::lemma_pow2_strictly_increases(34, k as nat);
                assert(false);
            }
        }
        p = p * 2;
        k = k + 1;
    }
    (total, k)
}

/// Converts a vector to one of a statically expected length, rejecting a
/// vector of any other length.
pub fn vec_to_array(v: &Vec<Fe>, expected: usize) -> (r: Result<Vec<Fe>, Error>)
    ensures
        v@.len() == expected ==> (r matches Ok(w) && w@ == v@),
        v@.len() != expected ==> r == Err::<Vec<Fe>, Error>(
            Error::LengthMismatch(expected, v@.len() as usize),
        ),
{
    if v.len() != expected {
        return Err(Error::LengthMismatch(expected, v.len()));
    }
    let mut w: Vec<Fe> = Vec::new();
    let mut i: usize = 0;
    while i < v.len()
        invariant
            i <= v@.len(),
            w@ =~= v@.subrange(0, i as int),
        decreases v@.len() - i,
    {
        w.push(v[i]);
        i = i + 1;
    }
    proof {
        assert(w@ =~= v@);
    }
    Ok(w)
}

/// The `k(y)` evaluation values computed while fusing two proofs.
#[derive(Clone, Copy, Debug, PartialEq, Eq, Structural)]
pub struct KyValues {
    /// `k(y)` of the left application circuit.
    pub left_application: Fe,
    /// `k(y)` of the right application circuit.
    pub right_application: Fe,
    /// `k(y)` of the left unified circuit.
    pub left_unified: Fe,
    /// `k(y)` of the right unified circuit.
    pub right_unified: Fe,
    /// `k(y)` of the left header-unified binding.
    pub left_unified_bridge: Fe,
    /// `k(y)` of the right header-unified binding.
    pub right_unified_bridge: Fe,
}

/// The headers extracted from a single proof's `k(Y)` polynomial, each a
/// fixed-length sequence of field elements.
#[derive(Debug)]
pub struct ProofHeaders {
    /// The right child's header.
    pub right_header: Vec<Fe>,
    /// The left child's header.
    pub left_header: Vec<Fe>,
    /// The output header.
    pub output_header: Vec<Fe>,
}

impl ProofHeaders {
    /// All three headers have the fixed header size.
    pub open spec fn wf(self, header_size: int) -> bool {
        self.right_header@.len() == header_size && self.left_header@.len() == header_size
            && self.output_header@.len() == header_size
    }

    /// Assembles the headers of one proof, rejecting a header of the wrong
    /// length.
    pub fn new(right_header: Vec<Fe>, left_header: Vec<Fe>, output_header: Vec<Fe>, header_size: usize)
        -> (r: Result<ProofHeaders, Error>)
        ensures
            r matches Ok(h) ==> h.wf(header_size as int) && h.right_header@ == right_header@
                && h.left_header@ == left_header@ && h.output_header@ == output_header@,
            r is Err ==> right_header@.len() != header_size || left_header@.len() != header_size
                || output_header@.len() != header_size,
            (right_header@.len() == header_size && left_header@.len() == header_size
                && output_header@.len() == header_size) ==> r is Ok,
    {
        if right_header.len() != header_size {
            return Err(Error::LengthMismatch(header_size, right_header.len()));
        }
        if left_header.len() != header_size {
            return Err(Error::LengthMismatch(header_size, left_header.len()));
        }
        if output_header.len() != header_size {
            return Err(Error::LengthMismatch(header_size, output_header.len()));
        }
        Ok(ProofHeaders { right_header, left_header, output_header })
    }
}

/// The trivial circuit: no witness, no constraints, and a fixed output of two
/// constant-one elements. Useful for testing and as a placeholder.
#[derive(Clone, Copy, Debug)]
pub struct Dummy;

impl Dummy {
    /// The instance side of the circuit: the fixed output.
    pub fn instance(&self, dr: &mut Emulator) -> (r: (Element, Element))
        ensures
            *final(dr) == *old(dr),
            r.0.value_spec() == Some(1int),
            r.1.value_spec() == Some(1int),
    {
        let _ = dr;
        (Element::one(), Element::one())
    }

    /// The witness side of the circuit: the fixed output, with no
    /// allocations.
    pub fn witness(&self, dr: &mut Emulator) -> (r: (Element, Element))
        ensures
            *final(dr) == *old(dr),
            r.0.value_spec() == Some(1int),
            r.1.value_spec() == Some(1int),
    {
        let _ = dr;
        (Element::one(), Element::one())
    }
}

} // verus!
