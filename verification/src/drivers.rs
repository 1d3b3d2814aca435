//! Emulation drivers: executing circuit synthesis code without constraint
//! enforcement.
//!
//! A driver realizes the circuit-synthesis interface (`alloc`, `constant`,
//! `mul`, `add`, `enforce_zero`, `routine`). The [`Emulator`] here is the
//! emulation family: it runs in a wireless mode whose wires carry no identity
//! at all, used for plain functional replay, and in a wired mode whose wires
//! carry a possibly-erased field value with no constraint enforcement, used to
//! extract concrete witness values or to compute a later stage's inputs.
//!
//! Witness presence is a [`MaybeKind`] carried by the driver: circuit code
//! written once runs both with a witness and with the witness erased. The
//! driver also counts allocations and multiplication gates, which callers use
//! to measure how many multiplication gates a routine costs.

use vstd::prelude::*;

use crate::field::{fadd, fmul, Fe};

verus! {

/// Whether values are present ([`MaybeKind::Always`]) or statically erased
/// ([`MaybeKind::Empty`]) in the current execution.
#[derive(Clone, Copy, Debug, PartialEq, Eq, Structural)]
pub enum MaybeKind {
    /// A container always holds a value.
    Always,
    /// A container is statically empty.
    Empty,
}

/// A field value that may be erased, depending on the ambient [`MaybeKind`].
#[derive(Clone, Copy, Debug, PartialEq, Eq, Structural)]
pub enum MaybeValue {
    /// The value is present.
    Known(Fe),
    /// The value is erased.
    Absent,
}

impl MaybeValue {
    /// The residue held, if one is present.
    pub open spec fn spec_value(self) -> Option<int> {
        match self {
            MaybeValue::Known(v) => Some(v.val()),
            MaybeValue::Absent => None,
        }
    }

    /// Whether a value is present.
    pub fn is_known(&self) -> (r: bool)
        ensures
            r <==> self.spec_value() is Some,
    {
        match self {
            MaybeValue::Known(_) => true,
            MaybeValue::Absent => false,
        }
    }

    /// The held value.
    pub fn take(self) -> (r: Fe)
        requires
            self.spec_value() is Some,
        ensures
            r.val() == self.spec_value().unwrap(),
    {
        match self {
            MaybeValue::Known(v) => v,
            MaybeValue::Absent => Fe::zero(),
        }
    }
}

/// A wire handle produced by a driver.
#[derive(Clone, Copy, Debug, PartialEq, Eq, Structural)]
pub enum MaybeWired {
    /// The special wire standing for the constant one.
    One,
    /// A wire with an arbitrary, possibly erased, assignment.
    Arbitrary(MaybeValue),
    /// A wire of the wireless mode, carrying no identity at all.
    Unit,
}

impl MaybeWired {
    /// The residue assigned to this wire, if it is tracked and present.
    pub open spec fn spec_value(self) -> Option<int> {
        match self {
            MaybeWired::One => Some(1),
            MaybeWired::Arbitrary(v) => v.spec_value(),
            MaybeWired::Unit => None,
        }
    }

    /// Whether this wire carries a value.
    pub fn has_value(&self) -> (r: bool)
        ensures
            r <==> self.spec_value() is Some,
    {
        match self {
            MaybeWired::One => true,
            MaybeWired::Arbitrary(v) => v.is_known(),
            MaybeWired::Unit => false,
        }
    }

    /// Retrieves the underlying wire value.
    pub fn value(self) -> (r: Fe)
        requires
            self.spec_value() is Some,
        ensures
            r.val() == self.spec_value().unwrap(),
    {
        match self {
            MaybeWired::One => Fe::one(),
            MaybeWired::Arbitrary(v) => v.take(),
            MaybeWired::Unit => Fe::zero(),
        }
    }
}

/// A linear combination of wires, accumulated eagerly: the running value is
/// present as long as every wire added so far carried a value.
#[derive(Clone, Copy, Debug, PartialEq, Eq, Structural)]
pub struct LinearCombination {
    value: MaybeValue,
}

impl LinearCombination {
    /// The running value, if every term so far carried one.
    pub closed spec fn spec_value(self) -> Option<int> {
        self.value.spec_value()
    }

    /// The empty combination.
    pub fn new() -> (r: LinearCombination)
        ensures
            r.spec_value() == Some(0int),
    {
        LinearCombination { value: MaybeValue::Known(Fe::zero()) }
    }

    /// Adds `coeff` times `wire`.
    pub fn add_term(self, wire: &MaybeWired, coeff: Fe) -> (r: LinearCombination)
        ensures
            r.spec_value() == match (self.spec_value(), wire.spec_value()) {
                (Some(acc), Some(w)) => Some(fadd(acc, fmul(w, coeff.val()))),
                _ => None::<int>,
            },
    {
        match (self.value, wire.has_value()) {
            (MaybeValue::Known(acc), true) => LinearCombination {
                value: MaybeValue::Known(acc.add(wire.value().mul(coeff))),
            },
            _ => LinearCombination { value: MaybeValue::Absent },
        }
    }

    /// Adds `wire` with coefficient one.
    pub fn add(self, wire: &MaybeWired) -> (r: LinearCombination)
        ensures
            r.spec_value() == match (self.spec_value(), wire.spec_value()) {
                (Some(acc), Some(w)) => Some(fadd(acc, fmul(w, 1))),
                _ => None::<int>,
            },
    {
        self.add_term(wire, Fe::one())
    }

    /// Subtracts `wire`: adds it with coefficient minus one.
    pub fn sub(self, wire: &MaybeWired) -> (r: LinearCombination)
        ensures
            r.spec_value() == match (self.spec_value(), wire.spec_value()) {
                (Some(acc), Some(w)) => Some(
                    fadd(acc, fmul(w, crate::field::fneg(1) % crate::field::modulus())),
                ),
                _ => None::<int>,
            },
    {
        self.add_term(wire, Fe::one().neg())
    }

    /// Scales the whole combination by `coeff`.
    pub fn gain(self, coeff: Fe) -> (r: LinearCombination)
        ensures
            r.spec_value() == match self.spec_value() {
                Some(acc) => Some(fmul(acc, coeff.val())),
                None => None::<int>,
            },
    {
        match self.value {
            MaybeValue::Known(acc) => LinearCombination {
                value: MaybeValue::Known(acc.mul(coeff)),
            },
            MaybeValue::Absent => self,
        }
    }
}

/// A driver that executes circuit synthesis code directly, without enforcing
/// constraints: in wired mode every wire carries a (possibly erased) value, in
/// wireless mode wires carry nothing.
#[derive(Clone, Copy, Debug)]
pub struct Emulator {
    wired: bool,
    kind: MaybeKind,
    allocations: u64,
    multiplications: u64,
}

impl Emulator {
    /// Whether wires of this driver carry assignments.
    pub closed spec fn is_wired(self) -> bool {
        self.wired
    }

    /// Whether a witness is present in this execution.
    pub closed spec fn kind(self) -> MaybeKind {
        self.kind
    }

    /// How many wires have been allocated through `allocate`.
    pub closed spec fn allocations(self) -> int {
        self.allocations as int
    }

    /// How many multiplication gates have been consumed through `mul`.
    pub closed spec fn multiplications(self) -> int {
        self.multiplications as int
    }

    /// An emulator that does not track wire assignments; a witness may or may
    /// not be present depending on `kind`.
    pub fn wireless(kind: MaybeKind) -> (r: Emulator)
        ensures
            !r.is_wired(),
            r.kind() == kind,
            r.allocations() == 0,
            r.multiplications() == 0,
    {
        Emulator { wired: false, kind, allocations: 0, multiplications: 0 }
    }

    /// An emulator for executing a computation over a witness that is always
    /// present, without tracking wires.
    pub fn execute() -> (r: Emulator)
        ensures
            !r.is_wired(),
            r.kind() == MaybeKind::Always,
            r.allocations() == 0,
            r.multiplications() == 0,
    {
        Emulator::wireless(MaybeKind::Always)
    }

    /// An emulator that tracks every wire assignment, for extracting wire
    /// values afterward.
    pub fn extractor() -> (r: Emulator)
        ensures
            r.is_wired(),
            r.kind() == MaybeKind::Always,
            r.allocations() == 0,
            r.multiplications() == 0,
    {
        Emulator { wired: true, kind: MaybeKind::Always, allocations: 0, multiplications: 0 }
    }

    /// The number of multiplication gates consumed so far.
    pub fn num_multiplications(&self) -> (r: u64)
        ensures
            r == self.multiplications(),
    {
        self.multiplications
    }

    /// The number of wires allocated so far.
    pub fn num_allocations(&self) -> (r: u64)
        ensures
            r == self.allocations(),
    {
        self.allocations
    }

    /// Whether a witness is present in this execution.
    pub fn has_witness(&self) -> (r: bool)
        ensures
            r <==> self.kind() == MaybeKind::Always,
    {
        match self.kind {
            MaybeKind::Always => true,
            MaybeKind::Empty => false,
        }
    }

    /// Allocates one wire for the given value.
    pub fn allocate(&mut self, v: MaybeValue) -> (r: MaybeWired)
        requires
            old(self).allocations() < u64::MAX,
        ensures
            final(self).allocations() == old(self).allocations() + 1,
            final(self).multiplications() == old(self).multiplications(),
            final(self).is_wired() == old(self).is_wired(),
            final(self).kind() == old(self).kind(),
            r == if old(self).is_wired() {
                MaybeWired::Arbitrary(v)
            } else {
                MaybeWired::Unit
            },
    {
        self.allocations = self.allocations + 1;
        if self.wired {
            MaybeWired::Arbitrary(v)
        } else {
            MaybeWired::Unit
        }
    }

    /// A wire bound to a fixed value, with no allocation cost. The value is
    /// retained only when a witness is present.
    pub fn constant(&mut self, v: Fe) -> (r: MaybeWired)
        ensures
            *final(self) == *old(self),
            r == if old(self).is_wired() {
                MaybeWired::Arbitrary(
                    if old(self).kind() == MaybeKind::Always {
                        MaybeValue::Known(v)
                    } else {
                        MaybeValue::Absent
                    },
                )
            } else {
                MaybeWired::Unit
            },
    {
        if self.wired {
            match self.kind {
                MaybeKind::Always => MaybeWired::Arbitrary(MaybeValue::Known(v)),
                MaybeKind::Empty => MaybeWired::Arbitrary(MaybeValue::Absent),
            }
        } else {
            MaybeWired::Unit
        }
    }

    /// Allocates the triple of wires of one multiplication gate. The emulator
    /// records one more gate consumed but does not enforce the multiplicative
    /// constraint.
    pub fn mul(&mut self, abc: (MaybeValue, MaybeValue, MaybeValue)) -> (r: (
        MaybeWired,
        MaybeWired,
        MaybeWired,
    ))
        requires
            old(self).multiplications() < u64::MAX,
        ensures
            final(self).multiplications() == old(self).multiplications() + 1,
            final(self).allocations() == old(self).allocations(),
            final(self).is_wired() == old(self).is_wired(),
            final(self).kind() == old(self).kind(),
            r == if old(self).is_wired() {
                (
                    MaybeWired::Arbitrary(abc.0),
                    MaybeWired::Arbitrary(abc.1),
                    MaybeWired::Arbitrary(abc.2),
                )
            } else {
                (MaybeWired::Unit, MaybeWired::Unit, MaybeWired::Unit)
            },
    {
        self.multiplications = self.multiplications + 1;
        if self.wired {
            (
                MaybeWired::Arbitrary(abc.0),
                MaybeWired::Arbitrary(abc.1),
                MaybeWired::Arbitrary(abc.2),
            )
        } else {
            (MaybeWired::Unit, MaybeWired::Unit, MaybeWired::Unit)
        }
    }

    /// Builds one new wire as a linear combination of existing wires.
    pub fn add(&mut self, lc: &LinearCombination) -> (r: MaybeWired)
        ensures
            *final(self) == *old(self),
            old(self).is_wired() ==> r.spec_value() == lc.spec_value() && r is Arbitrary,
            !old(self).is_wired() ==> r == MaybeWired::Unit,
    {
        if self.wired {
            MaybeWired::Arbitrary(lc.value)
        } else {
            MaybeWired::Unit
        }
    }

    /// Asserts that a linear combination is identically zero: a no-op in
    /// emulation modes.
    pub fn enforce_zero(&mut self, lc: &LinearCombination) -> (r: Result<(), crate::Error>)
        ensures
            *final(self) == *old(self),
            r is Ok,
    {
        let _ = lc;
        Ok(())
    }
}

/// The residues assigned to a sequence of wires, where all are present.
pub open spec fn wire_values(s: Seq<MaybeWired>) -> Seq<int> {
    s.map_values(|w: MaybeWired| w.spec_value().unwrap())
}

/// Extracts the flat sequence of concrete values of a gadget's wires, in
/// declaration order.
pub fn wires(gadget: &Vec<MaybeWired>) -> (r: Vec<Fe>)
    requires
        forall|i: int| 0 <= i < gadget@.len() ==> (#[trigger] gadget@[i].spec_value()) is Some,
    ensures
        r@.len() == gadget@.len(),
        forall|i: int| 0 <= i < gadget@.len() ==> (#[trigger] r@[i].val()) == wire_values(
            gadget@,
        )[i],
{
    let mut out: Vec<Fe> = Vec::new();
    let mut i: usize = 0;
    while i < gadget.len()
        invariant
            i <= gadget@.len(),
            out@.len() == i,
            forall|k: int| 0 <= k < gadget@.len() ==> (#[trigger] gadget@[k].spec_value()) is Some,
            forall|k: int| 0 <= k < i ==> (#[trigger] out@[k].val()) == gadget@[k].spec_value().unwrap(),
        decreases gadget@.len() - i,
    {
        out.push(gadget[i].value());
        i = i + 1;
    }
    out
}


/// What a routine predicted about its output before execution.
#[derive(Debug)]
pub enum Prediction {
    /// The routine derived its output, as a gadget's wires, without driving
    /// further computation.
    Known(Vec<MaybeWired>),
    /// The routine must be executed in full.
    Unknown,
}

/// An optimized sub-protocol invoked through a driver, working on gadgets
/// given as their flat wires.
pub trait Routine {
    /// Tries to derive the routine's output without driving further
    /// computation, for example from constants.
    fn predict(&self, dr: &Emulator, input: &Vec<MaybeWired>) -> (r: Result<
        Prediction,
        crate::Error,
    >);

    /// Executes the routine in full.
    fn execute(&self, dr: &mut Emulator, input: Vec<MaybeWired>) -> (r: Result<
        Vec<MaybeWired>,
        crate::Error,
    >);
}

impl Emulator {
    /// Invokes a sub-protocol, attempting a prediction short-circuit first:
    /// the emulator enforces no constraints, so a routine that can derive its
    /// output skips full execution.
    pub fn routine<R: Routine>(&mut self, routine: &R, input: Vec<MaybeWired>) -> (r: Result<
        Vec<MaybeWired>,
        crate::Error,
    >) {
        let p = match routine.predict(self, &input) {
            Ok(p) => p,
            Err(e) => {
                return Err(e);
            },
        };
        match p {
            Prediction::Known(output) => Ok(output),
            Prediction::Unknown => routine.execute(self, input),
        }
    }
}

} // verus!
