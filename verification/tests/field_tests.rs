use stagecraft::circuits::{total_circuit_counts, vec_to_array, InternalCircuitIndex,
    ProofHeaders, NUM_INTERNAL_CIRCUITS, NUM_INTERNAL_STEPS};
use stagecraft::field::{geosum, Fe, MODULUS};
use stagecraft::Error;

#[test]
fn test_field_ops_exact() {
    assert_eq!(MODULUS, 251);
    assert_eq!(Fe::new(250).add(Fe::new(3)), Fe::new(2));
    assert_eq!(Fe::new(2).sub(Fe::new(5)), Fe::new(248));
    assert_eq!(Fe::new(20).mul(Fe::new(30)), Fe::new(600 % 251));
    assert_eq!(Fe::new(0).neg(), Fe::new(0));
    assert_eq!(Fe::new(1).neg(), Fe::new(250));
    assert_eq!(Fe::new(251), Fe::new(0));
    assert_eq!(Fe::new(13).square(), Fe::new(169));
    assert!(Fe::zero().is_zero());
    assert!(!Fe::one().is_zero());
    assert_eq!(Fe::new(7).as_u64(), 7);
}

#[test]
fn test_invert_every_nonzero() {
    for v in 1..MODULUS {
        let x = Fe::new(v);
        let inv = x.invert();
        assert_eq!(x.mul(inv), Fe::new(1));
    }
}

#[test]
fn test_pow_and_geosum() {
    assert_eq!(Fe::new(2).pow(10), Fe::new(1024 % 251));
    assert_eq!(Fe::new(5).pow(0), Fe::new(1));
    assert_eq!(Fe::new(0).pow(3), Fe::new(0));
    // 1 + 2 + 4 + 8 + 16 = 31.
    assert_eq!(geosum(Fe::new(2), 5), Fe::new(31));
    assert_eq!(geosum(Fe::new(9), 0), Fe::new(0));
    assert_eq!(geosum(Fe::new(9), 1), Fe::new(1));
}

#[test]
fn test_vec_to_array_lengths() {
    let v = vec![Fe::new(1), Fe::new(2), Fe::new(3)];
    let w = vec_to_array(&v, 3).unwrap();
    assert_eq!(w, v);
    let e = vec_to_array(&v, 4);
    assert_eq!(e.err(), Some(Error::LengthMismatch(4, 3)));
}

#[test]
fn test_circuit_index() {
    assert_eq!(NUM_INTERNAL_CIRCUITS, 13);
    assert_eq!(
        InternalCircuitIndex::DummyCircuit.circuit_index(0),
        NUM_INTERNAL_STEPS
    );
    assert_eq!(
        InternalCircuitIndex::ComputeVCircuit.circuit_index(4),
        4 + NUM_INTERNAL_STEPS + 7
    );
    assert_eq!(
        InternalCircuitIndex::EvalStage.circuit_index(0),
        NUM_INTERNAL_STEPS + 12
    );
}

#[test]
fn test_total_circuit_counts() {
    let (total, log2) = total_circuit_counts(0);
    assert_eq!(total, NUM_INTERNAL_STEPS + NUM_INTERNAL_CIRCUITS);
    assert_eq!(log2, 4);
    let (total, log2) = total_circuit_counts(1);
    assert_eq!(total, 16);
    assert_eq!(log2, 4);
    let (total, log2) = total_circuit_counts(2);
    assert_eq!(total, 17);
    assert_eq!(log2, 5);
}

#[test]
fn test_proof_headers() {
    let h = |n: usize| -> Vec<Fe> { (0..n).map(|i| Fe::new(i as u64)).collect() };
    let ok = ProofHeaders::new(h(4), h(4), h(4), 4);
    assert!(ok.is_ok());
    let bad = ProofHeaders::new(h(4), h(3), h(4), 4);
    assert_eq!(bad.err(), Some(Error::LengthMismatch(4, 3)));
}
