use stagecraft::components::{compute_c, Buffer, Element, ErrorTermsLen, Ky, LayerParameters,
    NativeParameters, Parameters};
use stagecraft::circuits::Dummy;
use stagecraft::drivers::{Emulator, MaybeValue};
use stagecraft::field::Fe;

fn next(state: &mut u64) -> u64 {
    let mut x = *state;
    x ^= x << 13;
    x ^= x >> 7;
    x ^= x << 17;
    *state = x;
    x
}

fn nonzero(state: &mut u64) -> Fe {
    loop {
        let v = Fe::new(next(state));
        if !v.is_zero() {
            return v;
        }
    }
}

#[test]
fn test_revdot_folding() {
    let params = LayerParameters { n: 3, m: 1 };
    let n = params.n();

    let mut rng: u64 = 0x5eed_2001;
    let a: Vec<Fe> = (0..n).map(|_| nonzero(&mut rng)).collect();
    let b: Vec<Fe> = (0..n).map(|_| nonzero(&mut rng)).collect();

    let mut ky = vec![];
    let mut error = vec![];

    for (i, ai) in a.iter().enumerate() {
        for (j, bj) in b.iter().enumerate() {
            if i == j {
                ky.push(ai.mul(*bj));
            } else {
                error.push(ai.mul(*bj));
            }
        }
    }

    let mu = nonzero(&mut rng);
    let nu = nonzero(&mut rng);
    let mu_inv = mu.invert();
    let munu = mu.mul(nu);

    // sum of a_i·mu_inv^i times sum of b_j·(mu·nu)^j.
    let eval = |coeffs: &Vec<Fe>, point: Fe| -> Fe {
        let mut acc = Fe::zero();
        let mut pw = Fe::new(1);
        for c in coeffs {
            acc = acc.add(c.mul(pw));
            pw = pw.mul(point);
        }
        acc
    };
    let expected_c = eval(&a, mu_inv).mul(eval(&b, munu));

    let dr = &mut Emulator::execute();

    let mu = Element::constant(dr, mu);
    let nu = Element::constant(dr, nu);
    let error_terms: Vec<Element> = error.iter().map(|&v| Element::constant(dr, v)).collect();
    let ky_values: Vec<Element> = ky.iter().map(|&v| Element::constant(dr, v)).collect();

    let result = compute_c(dr, &params, &mu, &nu, &error_terms, &ky_values).unwrap();
    let computed_c = result.value().take();

    assert_eq!(
        computed_c, expected_c,
        "C routine computed value doesn't match expected"
    );
}

fn measure_constraints(n: usize) -> u64 {
    let params = LayerParameters { n, m: 1 };
    let dr = &mut Emulator::execute();
    let mut rng: u64 = 0x5eed_2002 ^ (n as u64);

    let mu = Element::constant(dr, nonzero(&mut rng));
    let nu = Element::constant(dr, nonzero(&mut rng));
    let error_terms: Vec<Element> = (0..ErrorTermsLen { claims: n }.len())
        .map(|_| Element::constant(dr, nonzero(&mut rng)))
        .collect();
    let ky_values: Vec<Element> = (0..n)
        .map(|_| Element::constant(dr, nonzero(&mut rng)))
        .collect();

    compute_c(dr, &params, &mu, &nu, &error_terms, &ky_values).unwrap();
    dr.num_multiplications()
}

#[test]
fn test_compute_c_constraints() {
    // Formula: 2*m^2 + m + 2
    assert_eq!(measure_constraints(5), 57);
    assert_eq!(measure_constraints(15), 467);
    assert_eq!(measure_constraints(30), 1832);
    assert_eq!(measure_constraints(60), 7262);
}

fn measure_multireduce(m: usize, n: usize) -> u64 {
    let pm = LayerParameters { n: m, m: 1 };
    let pn = LayerParameters { n, m: 1 };
    let dr = &mut Emulator::execute();
    let mut rng: u64 = 0x5eed_2003 ^ ((m as u64) << 8) ^ (n as u64);

    let mu = Element::allocate(dr, MaybeValue::Known(nonzero(&mut rng)));
    let nu = Element::allocate(dr, MaybeValue::Known(nonzero(&mut rng)));
    let error_terms: Vec<Element> = (0..ErrorTermsLen { claims: m }.len())
        .map(|_| Element::allocate(dr, MaybeValue::Known(nonzero(&mut rng))))
        .collect();
    let ky_values: Vec<Element> = (0..m)
        .map(|_| Element::allocate(dr, MaybeValue::Known(nonzero(&mut rng))))
        .collect();

    let mut collapsed = vec![];
    for _ in 0..n {
        let v = compute_c(dr, &pm, &mu, &nu, &error_terms, &ky_values).unwrap();
        collapsed.push(v);
    }
    let error_terms: Vec<Element> = (0..ErrorTermsLen { claims: n }.len())
        .map(|_| Element::allocate(dr, MaybeValue::Known(nonzero(&mut rng))))
        .collect();

    compute_c(dr, &pn, &mu, &nu, &error_terms, &collapsed).unwrap();

    let num = dr.num_multiplications();

    // N * cost(M) + cost(N) where cost(x) = 2x² + x + 2
    let cost = |x: u64| 2 * x * x + x + 2;
    assert_eq!(num, (n as u64) * cost(m as u64) + cost(n as u64));

    num
}

#[test]
fn test_multireduce() {
    assert_eq!(measure_multireduce(2, 2), 36);
    assert_eq!(measure_multireduce(3, 7), 268);
    assert_eq!(measure_multireduce(6, 11), 1135);
    assert_eq!(measure_multireduce(5, 10), 782);
    assert_eq!(measure_multireduce(10, 10), 2332);
}

#[test]
fn test_native_parameters() {
    assert_eq!(NativeParameters.n(), 3);
    assert_eq!(NativeParameters.m(), 1);
    assert_eq!(ErrorTermsLen { claims: 3 }.len(), 6);
    assert_eq!(ErrorTermsLen { claims: 1 }.len(), 0);
    assert_eq!(ErrorTermsLen { claims: 0 }.len(), 0);
}

#[test]
fn test_ky_horner() {
    // Writing coefficients 3, 5 at y = 7 gives (3·7 + 5)·7 + 1 = 183.
    let dr = &mut Emulator::execute();
    let y = Element::constant(dr, Fe::new(7));
    let mut ky = Ky::new(dr, &y);
    let c3 = Element::constant(dr, Fe::new(3));
    ky.write(dr, &c3).unwrap();
    let c5 = Element::constant(dr, Fe::new(5));
    ky.write(dr, &c5).unwrap();
    let out = ky.finish(dr).unwrap();
    assert_eq!(out.value().take(), Fe::new(183));
    // Two Horner steps and the finishing step each cost one gate.
    assert_eq!(dr.num_multiplications(), 3);
}

#[test]
fn test_element_ops() {
    let dr = &mut Emulator::execute();
    let a = Element::constant(dr, Fe::new(9));
    let b = Element::constant(dr, Fe::new(100));
    assert_eq!(a.mul(dr, &b).value().take(), Fe::new(900 % 251));
    assert_eq!(a.add(dr, &b).value().take(), Fe::new(109));
    assert_eq!(a.square(dr).value().take(), Fe::new(81));
    let inv = a.invert(dr);
    assert_eq!(inv.value().take().mul(Fe::new(9)), Fe::new(1));
    assert_eq!(Element::one().value().take(), Fe::new(1));
    assert_eq!(Element::zero(dr).value().take(), Fe::new(0));
    // No allocations happened; mul, square and invert each consumed a gate.
    assert_eq!(dr.num_allocations(), 0);
    assert_eq!(dr.num_multiplications(), 3);
}

#[test]
fn test_dummy_circuit() {
    let dr = &mut Emulator::execute();
    let (a, b) = Dummy.instance(dr);
    assert_eq!(a.value().take(), Fe::new(1));
    assert_eq!(b.value().take(), Fe::new(1));
    let (a, b) = Dummy.witness(dr);
    assert_eq!(a.value().take(), Fe::new(1));
    assert_eq!(b.value().take(), Fe::new(1));
    assert_eq!(dr.num_allocations(), 0);
    assert_eq!(dr.num_multiplications(), 0);
}
