use stagecraft::field::Fe;
use stagecraft::poly::Rank;
use stagecraft::selectors::StageObject;
use stagecraft::Error;

fn next(state: &mut u64) -> u64 {
    let mut x = *state;
    x ^= x << 13;
    x ^= x >> 7;
    x ^= x << 17;
    *state = x;
    x
}

fn sample(state: &mut u64) -> Fe {
    Fe::new(next(state))
}

fn nonzero(state: &mut u64) -> Fe {
    loop {
        let v = sample(state);
        if !v.is_zero() {
            return v;
        }
    }
}

#[test]
fn test_skip_multiplications_zero() {
    let rank = Rank::new(128);
    let stage_object = StageObject::new(rank, 0, 5).unwrap();

    let mut rng: u64 = 0x5eed_0001;
    let x = nonzero(&mut rng);
    let y = nonzero(&mut rng);
    let k = sample(&mut rng);

    let sxy = stage_object.sxy(x, y, k);
    let sx = stage_object.sx(x, k);
    let sy = stage_object.sy(y, k);

    assert_eq!(sxy, sx.eval(y));
    assert_eq!(sxy, sy.eval(rank, x));
}

#[test]
fn test_stage_object_all_multiplications() {
    // Edge case: skip = 0, num = n - 1, reserved = 0.
    let rank = Rank::new(128);
    let stage = StageObject::new(rank, 0, 128 - 1).unwrap();
    let mut rng: u64 = 0x5eed_0002;
    let x = nonzero(&mut rng);
    let y = nonzero(&mut rng);
    let k = sample(&mut rng);

    let sxy = stage.sxy(x, y, k);
    assert_eq!(sxy, stage.sx(x, k).eval(y));
    assert_eq!(sxy, stage.sy(y, k).eval(rank, x));
}

#[test]
fn test_placeholder_constraint_with_zero_k() {
    // The polynomial evaluations stay consistent even when k = 0 (which
    // would make the circuit unsatisfiable).
    let rank = Rank::new(128);
    let stage = StageObject::new(rank, 2, 9).unwrap();
    let mut rng: u64 = 0x5eed_0003;
    let y = nonzero(&mut rng);
    let k = Fe::zero();

    let x = nonzero(&mut rng);
    let sxy_result = stage.sy(y, k).eval(rank, x);
    let sxy_direct = stage.sxy(x, y, k);
    assert_eq!(
        sxy_result, sxy_direct,
        "sy.eval(x) should match sxy(x, y, k) even with k = 0"
    );
}

#[test]
fn test_stage_object_exact_boundary() {
    let rank = Rank::new(8192);
    let result = StageObject::new(rank, 8192 - 2, 1);
    assert!(result.is_ok(), "Should accept skip + num + 1 == R::n()");

    let result = StageObject::new(rank, 8192 - 1, 1);
    assert!(result.is_err(), "Should reject skip + num + 1 > R::n()");
    assert_eq!(result.err(), Some(Error::MultiplicationBoundExceeded(8192)));
}

#[test]
fn test_stage_object_reserved_zero() {
    // When reserved = 0, all gates except one are used.
    let rank = Rank::new(128);
    let stage = StageObject::new(rank, 0, 128 - 1).expect("skip multiplications");

    let mut rng: u64 = 0x5eed_0004;
    let x = nonzero(&mut rng);
    let y = nonzero(&mut rng);
    let k = sample(&mut rng);

    let sxy = stage.sxy(x, y, k);
    let sx = stage.sx(x, k);
    let sy = stage.sy(y, k);

    assert_eq!(sxy, sx.eval(y));
    assert_eq!(sxy, sy.eval(rank, x));
}

#[test]
fn test_stage_object_reserved_computation() {
    // Check reserved is computed correctly.
    let rank = Rank::new(8192);
    for skip in 0..10 {
        for num in 0..(8192 - skip - 1) {
            let _ = StageObject::new(rank, skip, num).expect("skip multiplications");
            let expected_reserved = 8192 - skip - num - 1;

            let num_linear_from_gates = 3 * (skip + expected_reserved);
            assert!(
                num_linear_from_gates < rank.num_coeffs(),
                "Reserved computation should not cause overflow"
            );
        }
    }
}

#[test]
fn test_selector_views_agree() {
    // The three entry points agree for all sampled windows and points,
    // including x = 0, y = 0, and both zero simultaneously.
    let rank = Rank::new(128);
    let mut rng: u64 = 0x5eed_0005;
    let windows = [(0usize, 5usize), (3, 7), (126, 1), (0, 127), (10, 0)];
    for (skip, num) in windows {
        let stage = StageObject::new(rank, skip, num).unwrap();
        let k = sample(&mut rng);
        let xs = [nonzero(&mut rng), Fe::zero()];
        let ys = [nonzero(&mut rng), Fe::zero()];
        for x in xs {
            for y in ys {
                let sxy = stage.sxy(x, y, k);
                assert_eq!(sxy, stage.sx(x, k).eval(y));
                assert_eq!(sxy, stage.sy(y, k).eval(rank, x));
            }
        }
    }
}

#[test]
fn test_window_zero_points() {
    // At x = 0 or y = 0 every view evaluates to the additive identity.
    let rank = Rank::new(128);
    let stage = StageObject::new(rank, 4, 11).unwrap();
    let mut rng: u64 = 0x5eed_0006;
    let y = nonzero(&mut rng);
    let x = nonzero(&mut rng);
    let k = sample(&mut rng);
    assert_eq!(stage.sxy(Fe::zero(), y, k), Fe::zero());
    assert_eq!(stage.sxy(x, Fe::zero(), k), Fe::zero());
    assert_eq!(stage.sxy(Fe::zero(), Fe::zero(), k), Fe::zero());
    assert_eq!(stage.sx(Fe::zero(), k).len(), 0);
    assert_eq!(stage.sy(Fe::zero(), k).len(), 0);
}

#[test]
fn test_new_max_width() {
    let rank = Rank::new(128);
    let o = StageObject::new_max(rank, 40).unwrap();
    assert_eq!(o.skip_multiplications(), 40);
    assert_eq!(o.num_multiplications(), 128 - 40 - 1);
    let bad = StageObject::new_max(rank, 128);
    assert_eq!(bad.err(), Some(Error::MultiplicationBoundExceeded(128)));
}
