//! Stages of witness construction and the stage builder.
//!
//! A large circuit is built as an ordered chain of stages. Each stage declares
//! how many witness values it allocates; the chain assigns it a contiguous
//! window of multiplication gates, after the gates of all earlier stages.
//! Gate zero is reserved for the constant-one wire and belongs to no window.
//!
//! [`StageShape::rx`] builds the structured witness polynomial of exactly one
//! stage, zero outside the stage's window and a genuine multiplication triple
//! everywhere. [`StageBuilder`] drives each stage's witness construction in
//! order via a two-pass shadow-allocation protocol: a discovery pass against a
//! fresh no-op driver finds the stage's wire layout, and a replay pass
//! performs the real allocations, rejecting a stage that needs more wires
//! than it declared.

use vstd::prelude::*;

use crate::drivers::{Emulator, MaybeKind, MaybeValue, MaybeWired};
use crate::field::{fmul, Fe};
use crate::poly::{coeff_at, StructuredPolynomial};
use crate::Error;

verus! {

/// The number of multiplication gates a stage of `values` witness values
/// occupies: two values per gate, rounded up.
pub open spec fn stage_size(values: int) -> int {
    values / 2 + values % 2
}

/// The window of one stage: the gates of all earlier stages come first.
#[derive(Clone, Copy, Debug, PartialEq, Eq, Structural)]
pub struct StageShape {
    /// Multiplication gates consumed by earlier stages, gate zero not counted.
    pub skip: usize,
    /// Witness field elements this stage allocates.
    pub values: usize,
}

impl StageShape {
    /// The number of multiplication gates this stage occupies.
    pub fn size(&self) -> (r: usize)
        ensures
            r == stage_size(self.values as int),
    {
        self.values / 2 + self.values % 2
    }

    /// The number of multiplication gates this stage occupies.
    pub fn num_multiplications(&self) -> (r: usize)
        ensures
            r == stage_size(self.values as int),
    {
        self.size()
    }

    /// Builds the structured witness polynomial for exactly this stage: a
    /// reserved zero triple for gate zero, zero triples for all earlier
    /// stages' gates, then the supplied values paired two at a time into
    /// `(a, b, a·b)` triples, the final missing value defaulting to zero.
    ///
    /// The result is zero outside the window
    /// `[skip + 1, skip + 1 + size)` and a genuine multiplication triple
    /// everywhere, even in padding.
    pub fn rx(&self, values: &Vec<Fe>) -> (r: StructuredPolynomial)
        requires
            values@.len() == self.values,
        ensures
            r.av().len() == 1 + self.skip + stage_size(self.values as int),
            r.bv().len() == r.av().len(),
            r.cv().len() == r.av().len(),
            forall|j: int| 0 <= j < 1 + self.skip ==> #[trigger] r.av()[j] == 0,
            forall|j: int| 0 <= j < 1 + self.skip ==> #[trigger] r.bv()[j] == 0,
            forall|j: int| 0 <= j < 1 + self.skip ==> #[trigger] r.cv()[j] == 0,
            forall|t: int| 0 <= t < stage_size(self.values as int) ==> #[trigger] r.av()[1
                + self.skip + t] == coeff_at(crate::poly::vals(values@), 2 * t),
            forall|t: int| 0 <= t < stage_size(self.values as int) ==> #[trigger] r.bv()[1
                + self.skip + t] == coeff_at(crate::poly::vals(values@), 2 * t + 1),
            forall|t: int| 0 <= t < stage_size(self.values as int) ==> #[trigger] r.cv()[1
                + self.skip + t] == fmul(
                coeff_at(crate::poly::vals(values@), 2 * t),
                coeff_at(crate::poly::vals(values@), 2 * t + 1),
            ),
            forall|j: int| 0 <= j < r.av().len() ==> #[trigger] r.cv()[j] == fmul(
                r.av()[j],
                r.bv()[j],
            ),
    {
        let size = self.size();
        let zero = Fe::zero();
        let mut r = StructuredPolynomial::new();

        r.push_gate(zero, zero, zero);
        let mut j: usize = 0;
        while j < self.skip
            invariant
                j <= self.skip,
                zero.val() == 0,
                r.av().len() == 1 + j,
                r.bv().len() == r.av().len(),
                r.cv().len() == r.av().len(),
                forall|i: int| 0 <= i < 1 + j ==> #[trigger] r.av()[i] == 0,
                forall|i: int| 0 <= i < 1 + j ==> #[trigger] r.bv()[i] == 0,
                forall|i: int| 0 <= i < 1 + j ==> #[trigger] r.cv()[i] == 0,
            decreases self.skip - j,
        {
            r.push_gate(zero, zero, zero);
            j = j + 1;
        }

        let mut t: usize = 0;
        while t < size
            invariant
                t <= size,
                zero.val() == 0,
                size == stage_size(self.values as int),
                values@.len() == self.values,
                r.av().len() == 1 + self.skip + t,
                r.bv().len() == r.av().len(),
                r.cv().len() == r.av().len(),
                forall|i: int| 0 <= i < 1 + self.skip ==> #[trigger] r.av()[i] == 0,
                forall|i: int| 0 <= i < 1 + self.skip ==> #[trigger] r.bv()[i] == 0,
                forall|i: int| 0 <= i < 1 + self.skip ==> #[trigger] r.cv()[i] == 0,
                forall|i: int| 0 <= i < t ==> #[trigger] r.av()[1 + self.skip + i] == coeff_at(
                    crate::poly::vals(values@),
                    2 * i,
                ),
                forall|i: int| 0 <= i < t ==> #[trigger] r.bv()[1 + self.skip + i] == coeff_at(
                    crate::poly::vals(values@),
                    2 * i + 1,
                ),
                forall|i: int| 0 <= i < t ==> #[trigger] r.cv()[1 + self.skip + i] == fmul(
                    coeff_at(crate::poly::vals(values@), 2 * i),
                    coeff_at(crate::poly::vals(values@), 2 * i + 1),
                ),
            decreases size - t,
        {
            let a = if 2 * t < values.len() {
                values[2 * t]
            } else {
                zero
            };
            let b = if 2 * t + 1 < values.len() {
                values[2 * t + 1]
            } else {
                zero
            };
            let c = a.mul(b);
            r.push_gate(a, b, c);
            t = t + 1;
        }

        proof {
            assert forall|j: int| 0 <= j < r.av().len() implies #[trigger] r.cv()[j] == fmul(
                r.av()[j],
                r.bv()[j],
            ) by {
                if j < 1 + self.skip {
                    assert(r.av()[j] == 0);
                    assert(r.bv()[j] == 0);
                    assert(r.cv()[j] == 0);
                    crate::field::lemma_fmul_zero(0);
                } else {
                    let i = j - (1 + self.skip);
                    assert(r.av()[1 + self.skip + i] == coeff_at(
                        crate::poly::vals(values@),
                        2 * i,
                    ));
                    assert(r.bv()[1 + self.skip + i] == coeff_at(
                        crate::poly::vals(values@),
                        2 * i + 1,
                    ));
                    assert(r.cv()[1 + self.skip + i] == fmul(
                        coeff_at(crate::poly::vals(values@), 2 * i),
                        coeff_at(crate::poly::vals(values@), 2 * i + 1),
                    ));
                }
            }
        }
        r
    }
}

/// A stage of witness construction: a declared witness value count, and the
/// witness logic that builds the stage's gadget against a driver.
pub trait StagingCircuit {
    /// The number of witness field elements this stage allocates.
    spec fn values_spec(&self) -> int;

    /// The number of witness field elements this stage allocates.
    fn values(&self) -> (r: usize)
        ensures
            r == self.values_spec(),
    ;

    /// The stage's witness-construction logic: drives `dr` to build the
    /// stage's gadget, returning the gadget's wires in declaration order.
    /// The builder always runs it against a fresh driver.
    fn witness(&self, dr: &mut Emulator, witness: &Vec<MaybeValue>) -> (r: Result<
        Vec<MaybeWired>,
        Error,
    >)
        requires
            old(dr).allocations() == 0,
    ;
}

/// A stage whose gadget is a flat vector of freshly allocated wires: it
/// declares `declared` witness values and its witness logic allocates
/// `wires` logical wires, one per gadget element. A stage whose logic
/// allocates more wires than it declares is rejected by the builder.
#[derive(Clone, Copy, Debug, PartialEq, Eq, Structural)]
pub struct FlatStage {
    /// The declared witness value count.
    pub declared: usize,
    /// How many logical wires the witness logic allocates.
    pub wires: usize,
}

impl StagingCircuit for FlatStage {
    open spec fn values_spec(&self) -> int {
        self.declared as int
    }

    fn values(&self) -> usize {
        self.declared
    }

    fn witness(&self, dr: &mut Emulator, witness: &Vec<MaybeValue>) -> Result<
        Vec<MaybeWired>,
        Error,
    > {
        let mut out: Vec<MaybeWired> = Vec::new();
        let mut i: usize = 0;
        while i < self.wires
            invariant
                i <= self.wires,
                dr.allocations() == i,
                out@.len() == i,
            decreases self.wires - i,
        {
            let v = if i < witness.len() {
                witness[i]
            } else {
                MaybeValue::Absent
            };
            out.push(dr.allocate(v));
            i = i + 1;
        }
        Ok(out)
    }
}

/// Builder for synthesizing a staged circuit witness, stage by stage in
/// ancestry order, against an underlying driver.
#[derive(Debug)]
pub struct StageBuilder {
    driver: Emulator,
    skip: usize,
}

impl StageBuilder {
    /// The underlying driver.
    pub closed spec fn driver_spec(self) -> Emulator {
        self.driver
    }

    /// Multiplication gates consumed by the stages added so far.
    pub closed spec fn skip_spec(self) -> int {
        self.skip as int
    }

    /// Starts a staged synthesis against `driver`, positioned at the unit
    /// stage.
    pub fn new(driver: Emulator) -> (r: StageBuilder)
        ensures
            r.driver_spec() == driver,
            r.skip_spec() == 0,
    {
        StageBuilder { driver, skip: 0 }
    }

    /// The replay pass of the shadow protocol: performs one real zero-valued
    /// allocation for each of the `discovered` logical wires, then keeps
    /// allocating until the stage's declared `values` are used and the stage
    /// occupies a whole number of multiplication gates. Rejects a stage whose
    /// witness logic discovered more logical wires than it declared.
    pub fn replay_stage(&mut self, discovered: usize, values: usize) -> (r: Result<
        Vec<MaybeWired>,
        Error,
    >)
        requires
            values <= 0x1fff_fffe,
            old(self).driver_spec().allocations() + values + 1 <= u64::MAX,
            old(self).skip_spec() + stage_size(values as int) <= usize::MAX,
        ensures
            r is Err <==> discovered > values,
            r is Err ==> *final(self) == *old(self) && r == Err::<Vec<MaybeWired>, Error>(
                Error::MultiplicationBoundExceeded(stage_size(values as int) as usize),
            ),
            r is Ok ==> {
                &&& r.unwrap()@.len() == discovered
                &&& final(self).skip_spec() == old(self).skip_spec() + stage_size(values as int)
                &&& final(self).driver_spec().allocations() == old(
                    self,
                ).driver_spec().allocations() + 2 * stage_size(values as int)
                &&& final(self).driver_spec().multiplications() == old(
                    self,
                ).driver_spec().multiplications()
                &&& final(self).driver_spec().is_wired() == old(self).driver_spec().is_wired()
                &&& final(self).driver_spec().kind() == old(self).driver_spec().kind()
            },
    {
        if discovered > values {
            let size = values / 2 + values % 2;
            return Err(Error::MultiplicationBoundExceeded(size));
        }
        let zero = if self.driver.has_witness() {
            MaybeValue::Known(Fe::zero())
        } else {
            MaybeValue::Absent
        };
        let mut out: Vec<MaybeWired> = Vec::new();
        let mut count: usize = 0;
        while count < discovered
            invariant
                discovered <= values <= 0x1fff_fffe,
                count <= discovered,
                out@.len() == count,
                self.skip == old(self).skip,
                self.driver_spec().allocations() == old(self).driver_spec().allocations() + count,
                self.driver_spec().multiplications() == old(self).driver_spec().multiplications(),
                self.driver_spec().is_wired() == old(self).driver_spec().is_wired(),
                self.driver_spec().kind() == old(self).driver_spec().kind(),
                old(self).driver_spec().allocations() + values + 1 <= u64::MAX,
            decreases discovered - count,
        {
            out.push(self.driver.allocate(zero));
            count = count + 1;
        }
        while count < values
            invariant
                count <= values <= 0x1fff_fffe,
                out@.len() == discovered <= values,
                discovered <= count,
                self.skip == old(self).skip,
                self.driver_spec().allocations() == old(self).driver_spec().allocations() + count,
                self.driver_spec().multiplications() == old(self).driver_spec().multiplications(),
                self.driver_spec().is_wired() == old(self).driver_spec().is_wired(),
                self.driver_spec().kind() == old(self).driver_spec().kind(),
                old(self).driver_spec().allocations() + values + 1 <= u64::MAX,
            decreases values - count,
        {
            let _ = self.driver.allocate(zero);
            count = count + 1;
        }
        if count % 2 == 1 {
            let _ = self.driver.allocate(zero);
            count = count + 1;
        }
        let size = values / 2 + values % 2;
        assert(count == 2 * stage_size(values as int));
        self.skip = self.skip + size;
        Ok(out)
    }

    /// Adds the next stage: runs the stage's witness logic against a fresh
    /// ghost driver to discover its wire layout, then replays the discovered
    /// wires as real zero-valued allocations on the underlying driver. Fails
    /// if the stage's logic needs more wires than it declared, or if the
    /// stage's own logic fails.
    pub fn add_stage<S: StagingCircuit>(&mut self, stage: &S, witness: &Vec<MaybeValue>) -> (r:
        Result<(Vec<MaybeWired>, StageShape), Error>)
        requires
            0 <= stage.values_spec() <= 0x1fff_fffe,
            old(self).driver_spec().allocations() + stage.values_spec() + 1 <= u64::MAX,
            old(self).skip_spec() + stage_size(stage.values_spec()) <= usize::MAX,
        ensures
            r is Ok ==> {
                &&& r.unwrap().0@.len() <= stage.values_spec()
                &&& r.unwrap().1 == (StageShape {
                    skip: old(self).skip_spec() as usize,
                    values: stage.values_spec() as usize,
                })
                &&& final(self).skip_spec() == old(self).skip_spec() + stage_size(
                    stage.values_spec(),
                )
                &&& final(self).driver_spec().allocations() == old(
                    self,
                ).driver_spec().allocations() + 2 * stage_size(stage.values_spec())
                &&& final(self).driver_spec().multiplications() == old(
                    self,
                ).driver_spec().multiplications()
            },
            r is Err ==> *final(self) == *old(self),
    {
        let values = stage.values();
        let shape = StageShape { skip: self.skip, values };
        let mut ghost_driver = Emulator::wireless(
            if self.driver.has_witness() {
                MaybeKind::Always
            } else {
                MaybeKind::Empty
            },
        );
        let gadget = match stage.witness(&mut ghost_driver, witness) {
            Ok(g) => g,
            Err(e) => {
                return Err(e);
            },
        };
        let wires = self.replay_stage(gadget.len(), values)?;
        Ok((wires, shape))
    }

    /// Finishes the staged synthesis, yielding the underlying driver and the
    /// total number of multiplication gates the stages consumed.
    pub fn finish(self) -> (r: (Emulator, usize))
        ensures
            r.0 == self.driver_spec(),
            r.1 == self.skip_spec(),
    {
        (self.driver, self.skip)
    }
}

} // verus!
