use stagecraft::drivers::{wires, Emulator, MaybeValue, MaybeWired};
use stagecraft::field::Fe;
use stagecraft::poly::Rank;
use stagecraft::staging::{FlatStage, StageBuilder, StageShape};
use stagecraft::Error;

fn next(state: &mut u64) -> u64 {
    let mut x = *state;
    x ^= x << 13;
    x ^= x >> 7;
    x ^= x << 17;
    *state = x;
    x
}

fn nonzero(state: &mut u64) -> Fe {
    loop {
        let v = Fe::new(next(state));
        if !v.is_zero() {
            return v;
        }
    }
}

fn witness_values(state: &mut u64, n: usize) -> Vec<Fe> {
    let mut out = Vec::new();
    for _ in 0..n {
        out.push(nonzero(state));
    }
    out
}

#[test]
fn staging_test_staging_valid() {
    // Two stages over a rank of 128 gates: the first declares 13 values
    // (7 gates, skip 0), the second 20 values (10 gates, skip 7).
    let rank = Rank::new(128);
    let stage1 = StageShape { skip: 0, values: 13 };
    let stage2 = StageShape { skip: 7, values: 20 };
    assert_eq!(stage1.size(), 7);
    assert_eq!(stage2.size(), 10);
    assert_eq!(stage2.skip, stage1.size());

    let mut rng: u64 = 0x5eed_1001;
    let w1 = witness_values(&mut rng, 13);
    let w2 = witness_values(&mut rng, 20);

    let rx1 = stage1.rx(&w1);
    let rx2 = stage2.rx(&w2);

    let circ1 = stage1.into_object(rank).unwrap();
    let circ2 = stage2.into_object(rank).unwrap();

    let y = nonzero(&mut rng);
    let k = nonzero(&mut rng);

    assert_eq!(rx1.revdot(&circ1.sy(y, k)), Fe::zero());
    assert_eq!(rx2.revdot(&circ2.sy(y, k)), Fe::zero());
    assert!(rx1.revdot(&circ2.sy(y, k)) != Fe::zero());
    assert!(rx2.revdot(&circ1.sy(y, k)) != Fe::zero());
}

#[test]
fn object_test_staging_valid() {
    // Two stages over a rank of 8192 gates: 128 values (64 gates), then 4
    // values (2 gates). Combining several witnesses of one stage into a
    // single revdot claim at distinct weights is safe, because the right
    // hand side is the same for each and the result must be zero for all.
    let rank = Rank::new(8192);
    let stage1 = StageShape { skip: 0, values: 128 };
    let stage2 = StageShape { skip: 64, values: 4 };
    assert_eq!(stage2.skip, stage1.size());

    let mut rng: u64 = 0x5eed_1002;
    let w1a = witness_values(&mut rng, 128);
    let w1b = witness_values(&mut rng, 128);
    let w2 = witness_values(&mut rng, 4);

    let rx1_a = stage1.rx(&w1a);
    let rx1_b = stage1.rx(&w1b);
    let rx2 = stage2.rx(&w2);

    let circ1 = stage1.into_object(rank).unwrap();
    let circ2 = stage2.into_object(rank).unwrap();

    let z = nonzero(&mut rng);
    let y = nonzero(&mut rng);
    let k = nonzero(&mut rng);

    {
        let rhs = circ1.sy(y, k);
        assert_eq!(rx1_a.revdot(&rhs), Fe::zero());
        assert_eq!(rx1_b.revdot(&rhs), Fe::zero());

        let mut combined = rx1_a.clone();
        combined.scale(z);
        combined.add_assign(&rx1_b);
        assert_eq!(combined.revdot(&rhs), Fe::zero());
    }

    assert_eq!(rx1_a.revdot(&circ1.sy(y, k)), Fe::zero());
    assert_eq!(rx2.revdot(&circ2.sy(y, k)), Fe::zero());
    assert!(rx1_a.revdot(&circ2.sy(y, k)) != Fe::zero());
    assert!(rx2.revdot(&circ1.sy(y, k)) != Fe::zero());
}

#[test]
fn test_fold_many_witnesses() {
    // Folding several same-shape witnesses at successive weights keeps the
    // revdot claim zero.
    let rank = Rank::new(128);
    let stage = StageShape { skip: 5, values: 9 };
    let mut rng: u64 = 0x5eed_1003;
    let z = nonzero(&mut rng);
    let y = nonzero(&mut rng);
    let k = nonzero(&mut rng);

    let mut combined = stage.rx(&witness_values(&mut rng, 9));
    for _ in 0..4 {
        let other = stage.rx(&witness_values(&mut rng, 9));
        combined.scale(z);
        combined.add_assign(&other);
    }
    let sy = stage.into_object(rank).unwrap().sy(y, k);
    assert_eq!(combined.revdot(&sy), Fe::zero());
}

#[test]
fn test_rx_layout() {
    // rx places the paired values after the reserved gate and the skipped
    // gates, with c = a·b, padding the final odd value with zero.
    let stage = StageShape { skip: 2, values: 3 };
    let values = vec![Fe::new(5), Fe::new(7), Fe::new(9)];
    let rx = stage.rx(&values);
    assert_eq!(rx.len(), 1 + 2 + 2);
    for j in 0..3 {
        let (a, b, c) = rx.gate(j);
        assert_eq!(a, Fe::zero());
        assert_eq!(b, Fe::zero());
        assert_eq!(c, Fe::zero());
    }
    let (a, b, c) = rx.gate(3);
    assert_eq!(a, Fe::new(5));
    assert_eq!(b, Fe::new(7));
    assert_eq!(c, Fe::new(35));
    let (a, b, c) = rx.gate(4);
    assert_eq!(a, Fe::new(9));
    assert_eq!(b, Fe::zero());
    assert_eq!(c, Fe::zero());
}

#[test]
fn test_stage_builder_two_pass() {
    // The builder discovers the stage's wires against a ghost driver, then
    // replays them as real zero-valued allocations.
    let mut builder = StageBuilder::new(Emulator::extractor());
    let stage = FlatStage { declared: 4, wires: 3 };
    let witness = vec![
        MaybeValue::Known(Fe::new(8)),
        MaybeValue::Known(Fe::new(9)),
        MaybeValue::Known(Fe::new(10)),
    ];
    let (gadget, shape) = builder.add_stage(&stage, &witness).unwrap();
    assert_eq!(gadget.len(), 3);
    assert_eq!(shape, StageShape { skip: 0, values: 4 });

    // The next stage starts after the first stage's two gates.
    let stage2 = FlatStage { declared: 2, wires: 2 };
    let (_, shape2) = builder.add_stage(&stage2, &witness).unwrap();
    assert_eq!(shape2, StageShape { skip: 2, values: 2 });

    let (driver, consumed) = builder.finish();
    assert_eq!(consumed, 3);
    // Each gate holds two value allocations.
    assert_eq!(driver.num_allocations(), 6);
}

#[test]
fn test_stage_builder_rejects_overallocation() {
    // A stage whose witness logic allocates more logical wires than its
    // declared values() is rejected with a gate-budget error.
    let mut builder = StageBuilder::new(Emulator::extractor());
    let stage = FlatStage { declared: 5, wires: 7 };
    let witness = Vec::new();
    let r = builder.add_stage(&stage, &witness);
    assert_eq!(r.err(), Some(Error::MultiplicationBoundExceeded(3)));

    // The builder is unchanged and still usable.
    let ok = FlatStage { declared: 5, wires: 5 };
    let (gadget, shape) = builder.add_stage(&ok, &witness).unwrap();
    assert_eq!(gadget.len(), 5);
    assert_eq!(shape, StageShape { skip: 0, values: 5 });
}

#[test]
fn test_wires_extraction() {
    // The extraction utility returns the flat sequence of concrete values in
    // declaration order.
    let gadget = vec![
        MaybeWired::One,
        MaybeWired::Arbitrary(MaybeValue::Known(Fe::new(7))),
        MaybeWired::Arbitrary(MaybeValue::Known(Fe::new(250))),
    ];
    let values = wires(&gadget);
    assert_eq!(values.len(), 3);
    assert_eq!(values[0], Fe::new(1));
    assert_eq!(values[1], Fe::new(7));
    assert_eq!(values[2], Fe::new(250));

    // Replayed stage wires carry the zero value in extractor mode.
    let mut builder = StageBuilder::new(Emulator::extractor());
    let stage = FlatStage { declared: 2, wires: 2 };
    let witness = vec![MaybeValue::Known(Fe::new(3)), MaybeValue::Known(Fe::new(4))];
    let (gadget, _) = builder.add_stage(&stage, &witness).unwrap();
    let values = wires(&gadget);
    assert_eq!(values, vec![Fe::zero(), Fe::zero()]);
}

#[test]
fn test_emulator_modes() {
    // Wireless wires carry no identity; wired wires carry the value.
    let mut wl = Emulator::execute();
    assert_eq!(wl.allocate(MaybeValue::Known(Fe::new(5))), MaybeWired::Unit);
    let mut wd = Emulator::extractor();
    let w = wd.allocate(MaybeValue::Known(Fe::new(5)));
    assert_eq!(w, MaybeWired::Arbitrary(MaybeValue::Known(Fe::new(5))));
    assert_eq!(wl.num_allocations(), 1);
    assert_eq!(wd.num_allocations(), 1);

    // A linear combination accumulates weighted wire values eagerly.
    let lc = stagecraft::drivers::LinearCombination::new()
        .add(&MaybeWired::One)
        .add_term(&w, Fe::new(2))
        .sub(&MaybeWired::One);
    let sum = wd.add(&lc);
    assert_eq!(sum, MaybeWired::Arbitrary(MaybeValue::Known(Fe::new(10))));
    assert!(wd.enforce_zero(&lc).is_ok());

    // Constants have no allocation cost and are erased without a witness.
    let mut erased = Emulator::wireless(stagecraft::drivers::MaybeKind::Empty);
    assert!(!erased.has_witness());
    assert_eq!(erased.constant(Fe::new(3)), MaybeWired::Unit);
    assert_eq!(erased.num_allocations(), 0);
}

struct DoubleOrKnown {
    fixed: Option<Fe>,
}

impl stagecraft::drivers::Routine for DoubleOrKnown {
    fn predict(
        &self,
        _dr: &Emulator,
        _input: &Vec<MaybeWired>,
    ) -> Result<stagecraft::drivers::Prediction, Error> {
        match self.fixed {
            Some(v) => Ok(stagecraft::drivers::Prediction::Known(vec![
                MaybeWired::Arbitrary(MaybeValue::Known(v)),
            ])),
            None => Ok(stagecraft::drivers::Prediction::Unknown),
        }
    }

    fn execute(
        &self,
        dr: &mut Emulator,
        input: Vec<MaybeWired>,
    ) -> Result<Vec<MaybeWired>, Error> {
        let v = input[0].value();
        Ok(vec![dr.allocate(MaybeValue::Known(v.add(v)))])
    }
}

#[test]
fn test_routine_prediction() {
    // A routine that can predict its output skips full execution; one that
    // cannot is executed and drives the underlying driver.
    let mut dr = Emulator::extractor();
    let input = vec![MaybeWired::Arbitrary(MaybeValue::Known(Fe::new(21)))];

    let known = DoubleOrKnown { fixed: Some(Fe::new(99)) };
    let out = dr.routine(&known, input.clone()).unwrap();
    assert_eq!(out[0].value(), Fe::new(99));
    assert_eq!(dr.num_allocations(), 0);

    let unknown = DoubleOrKnown { fixed: None };
    let out = dr.routine(&unknown, input).unwrap();
    assert_eq!(out[0].value(), Fe::new(42));
    assert_eq!(dr.num_allocations(), 1);
}

#[test]
fn test_polynomial_views_interconvert() {
    // The structured and flat views interconvert without loss.
    let rank = Rank::new(16);
    let stage = StageShape { skip: 3, values: 8 };
    let mut rng: u64 = 0x5eed_1004;
    let rx = stage.rx(&witness_values(&mut rng, 8));

    let flat = rx.unstructured(rank);
    assert_eq!(flat.len(), 64);
    let back = flat.structured(rank);
    assert_eq!(back.len(), 16);
    for j in 0..rx.len() {
        assert_eq!(back.gate(j), rx.gate(j));
    }
    for j in rx.len()..16 {
        assert_eq!(back.gate(j), (Fe::zero(), Fe::zero(), Fe::zero()));
    }

    // The flat view evaluates by Horner's method.
    let mut rng2: u64 = 0x5eed_1005;
    let point = nonzero(&mut rng2);
    let mut expected = Fe::zero();
    let mut pw = Fe::new(1);
    for m in 0..flat.len() {
        expected = expected.add(flat.coeff(m).mul(pw));
        pw = pw.mul(point);
    }
    assert_eq!(flat.eval(point), expected);
}

#[test]
fn test_own_claim_zero() {
    // The statically proved claim: a stage's witness polynomial dotted with
    // its own window's selector is zero, whatever the inputs.
    let rank = Rank::new(64);
    let stage = StageShape { skip: 11, values: 17 };
    let mut rng: u64 = 0x5eed_1006;
    let w = witness_values(&mut rng, 17);
    let y = nonzero(&mut rng);
    let k = nonzero(&mut rng);
    assert_eq!(stage.own_claim(rank, &w, y, k), Fe::zero());
    assert_eq!(stage.own_claim(rank, &w, Fe::zero(), k), Fe::zero());
}
