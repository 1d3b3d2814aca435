//! A small prime field, the coefficient domain for every polynomial in this
//! crate.
//!
//! Elements are residues modulo [`MODULUS`]. The spec-level model is plain
//! integer arithmetic modulo [`modulus`]: every operation on [`Fe`] is proved
//! against [`fadd`], [`fsub`], [`fmul`], [`fpow`] and friends, so algebraic
//! laws about the synthesis core can be stated and proved over integers.

use vstd::prelude::*;
use vstd::arithmetic::div_mod::{
    lemma_add_mod_noop, lemma_add_mod_noop_right, lemma_fundamental_div_mod,
    lemma_mod_add_multiples_vanish, lemma_mod_bound, lemma_mod_multiples_basic,
    lemma_mod_multiples_vanish, lemma_mul_mod_noop, lemma_mul_mod_noop_left,
    lemma_mul_mod_noop_right, lemma_small_mod, lemma_sub_mod_noop, lemma_sub_mod_noop_right,
};
use vstd::arithmetic::mul::{
    lemma_mul_is_distributive_add, lemma_mul_is_distributive_sub, lemma_mul_unary_negation,
};
use vstd::arithmetic::power::{lemma_pow_distributes, lemma_pow_mod_noop, lemma_pow_multiplies};
use vstd::arithmetic::mul::{lemma_mul_is_associative, lemma_mul_is_commutative};
use vstd::arithmetic::power::{lemma_pow_adds, pow};

verus! {

/// The field modulus: a prime.
pub const MODULUS: u64 = 251;

/// The modulus as a spec-level integer.
pub open spec fn modulus() -> int {
    251
}

/// Whether an integer is a canonical field residue.
pub open spec fn in_field(a: int) -> bool {
    0 <= a < modulus()
}

/// Field addition on residues.
pub open spec fn fadd(a: int, b: int) -> int {
    (a + b) % modulus()
}

/// Field subtraction on residues.
pub open spec fn fsub(a: int, b: int) -> int {
    (a - b) % modulus()
}

/// Field negation on residues.
pub open spec fn fneg(a: int) -> int {
    (-a) % modulus()
}

/// Field multiplication on residues.
pub open spec fn fmul(a: int, b: int) -> int {
    (a * b) % modulus()
}

/// Field exponentiation on residues.
pub open spec fn fpow(b: int, e: nat) -> int {
    pow(b, e) % modulus()
}

/// A field element: a canonical residue modulo [`MODULUS`].
#[derive(Clone, Copy, Debug, PartialEq, Eq, Structural)]
pub struct Fe {
    v: u64,
}

impl Fe {
    /// The residue this element stands for.
    pub closed spec fn val(self) -> int {
        self.v as int
    }

    /// Every element is a canonical residue.
    #[verifier::type_invariant]
    pub closed spec fn wf(self) -> bool {
        0 <= self.v < MODULUS
    }

    /// Builds the element standing for `v`, reducing modulo [`MODULUS`].
    pub fn new(v: u64) -> (r: Fe)
        ensures
            r.val() == v as int % modulus(),
    {
        Fe { v: v % MODULUS }
    }

    /// The canonical residue as a machine integer.
    pub fn as_u64(self) -> (r: u64)
        ensures
            r == self.val(),
            0 <= r < MODULUS,
    {
        proof {
            use_type_invariant(self);
        }
        self.v
    }

    /// The additive identity.
    pub fn zero() -> (r: Fe)
        ensures
            r.val() == 0,
    {
        Fe { v: 0 }
    }

    /// The multiplicative identity.
    pub fn one() -> (r: Fe)
        ensures
            r.val() == 1,
    {
        Fe { v: 1 }
    }

    /// Whether this is the additive identity.
    pub fn is_zero(self) -> (r: bool)
        ensures
            r <==> self.val() == 0,
    {
        proof {
            use_type_invariant(self);
        }
        self.v == 0
    }

    /// Field addition.
    pub fn add(self, other: Fe) -> (r: Fe)
        ensures
            r.val() == fadd(self.val(), other.val()),
            in_field(r.val()),
    {
        proof {
            use_type_invariant(self);
            use_type_invariant(other);
        }
        Fe { v: (self.v + other.v) % MODULUS }
    }

    /// Field subtraction.
    pub fn sub(self, other: Fe) -> (r: Fe)
        ensures
            r.val() == fsub(self.val(), other.val()),
            in_field(r.val()),
    {
        proof {
            use_type_invariant(self);
            use_type_invariant(other);
            lemma_mod_add_multiples_vanish(self.val() - other.val(), modulus());
        }
        Fe { v: (self.v + MODULUS - other.v) % MODULUS }
    }

    /// Field negation.
    pub fn neg(self) -> (r: Fe)
        ensures
            r.val() == fneg(self.val()),
            in_field(r.val()),
    {
        proof {
            use_type_invariant(self);
            lemma_mod_add_multiples_vanish(-self.val(), modulus());
        }
        Fe { v: (MODULUS - self.v) % MODULUS }
    }

    /// Field multiplication.
    pub fn mul(self, other: Fe) -> (r: Fe)
        ensures
            r.val() == fmul(self.val(), other.val()),
            in_field(r.val()),
    {
        proof {
            use_type_invariant(self);
            use_type_invariant(other);
            assert(self.v * other.v <= 250 * 250) by (nonlinear_arith)
                requires
                    self.v <= 250,
                    other.v <= 250,
            ;
        }
        Fe { v: (self.v * other.v) % MODULUS }
    }

    /// Field squaring.
    pub fn square(self) -> (r: Fe)
        ensures
            r.val() == fmul(self.val(), self.val()),
            in_field(r.val()),
    {
        self.mul(self)
    }
}

/// A well-formed element's residue is canonical.
pub proof fn lemma_fe_wf(a: Fe)
    requires
        a.wf(),
    ensures
        in_field(a.val()),
{
}

/// Residues are unchanged by reduction.
pub proof fn lemma_residue(a: int)
    requires
        in_field(a),
    ensures
        a % modulus() == a,
{
    lemma_small_mod(a as nat, modulus() as nat);
}

/// The result of every field operation is a residue.
pub proof fn lemma_ops_in_field(a: int, b: int)
    ensures
        in_field(fadd(a, b)),
        in_field(fsub(a, b)),
        in_field(fneg(a)),
        in_field(fmul(a, b)),
        in_field(fpow(a, b as nat)),
{
    lemma_mod_bound(a + b, modulus());
    lemma_mod_bound(a - b, modulus());
    lemma_mod_bound(-a, modulus());
    lemma_mod_bound(a * b, modulus());
    lemma_mod_bound(pow(a, b as nat), modulus());
}


impl Fe {
    /// Field exponentiation by repeated multiplication.
    pub fn pow(self, e: u64) -> (r: Fe)
        ensures
            r.val() == fpow(self.val(), e as nat),
            in_field(r.val()),
    {
        proof {
            use_type_invariant(self);
        }
        let mut acc = Fe::one();
        let mut i: u64 = 0;
        proof {
            lemma_fpow_zero(self.val());
        }
        while i < e
            invariant
                i <= e,
                self.wf(),
                acc.wf(),
                acc.val() == fpow(self.val(), i as nat),
            decreases e - i,
        {
            proof {
                lemma_fpow_unfold_top(self.val(), (i + 1) as nat);
                lemma_fmul_comm(self.val(), fpow(self.val(), i as nat));
            }
            acc = acc.mul(self);
            i = i + 1;
        }
        acc
    }

    /// The multiplicative inverse, found by exhaustive search over the field.
    pub fn invert(self) -> (r: Fe)
        requires
            self.val() != 0,
        ensures
            fmul(self.val(), r.val()) == 1,
            r.val() == finv(self.val()),
            in_field(r.val()),
            r.val() != 0,
    {
        proof {
            use_type_invariant(self);
        }
        let a = self.v;
        let mut c: u64 = 1;
        while c < MODULUS
            invariant
                1 <= c <= MODULUS,
                1 <= a < MODULUS,
                a == self.val(),
                forall|b: int| 1 <= b < c ==> #[trigger] fmul(a as int, b) != 1,
            decreases MODULUS - c,
        {
            proof {
                assert(a * c <= 250 * 250) by (nonlinear_arith)
                    requires
                        a <= 250,
                        c <= 250,
                ;
            }
            if (a * c) % MODULUS == 1 {
                proof {
                    lemma_finv(a as int);
                    lemma_inverse_unique(a as int, c as int, finv(a as int));
                }
                return Fe { v: c };
            }
            c = c + 1;
        }
        proof {
            lemma_inverse_exists(a as int);
            let b = choose|b: int| 1 <= b < modulus() && #[trigger] fmul(a as int, b) == 1;
            assert(fmul(a as int, b) != 1);
        }
        assert(false);
        self
    }
}

/// The geometric sum of `len` powers of `b`, starting from the zeroth.
pub open spec fn geo(b: int, len: nat) -> int
    decreases len,
{
    if len == 0 {
        0
    } else {
        fadd(geo(b, (len - 1) as nat), fpow(b, (len - 1) as nat))
    }
}

/// The sum of the first `len` powers of `base`.
pub fn geosum(base: Fe, len: usize) -> (r: Fe)
    ensures
        r.val() == geo(base.val(), len as nat),
        in_field(r.val()),
{
    proof {
        use_type_invariant(base);
    }
    let mut acc = Fe::zero();
    let mut pw = Fe::one();
    let mut i: usize = 0;
    proof {
        lemma_fpow_zero(base.val());
        lemma_ops_in_field(0, 0);
    }
    while i < len
        invariant
            i <= len,
            base.wf(),
            acc.wf(),
            pw.wf(),
            acc.val() == geo(base.val(), i as nat),
            pw.val() == fpow(base.val(), i as nat),
        decreases len - i,
    {
        proof {
            lemma_fpow_unfold_top(base.val(), (i + 1) as nat);
            lemma_fmul_comm(base.val(), fpow(base.val(), i as nat));
        }
        acc = acc.add(pw);
        pw = pw.mul(base);
        i = i + 1;
    }
    acc
}

/// Field multiplication is commutative.
pub proof fn lemma_fmul_comm(a: int, b: int)
    ensures
        fmul(a, b) == fmul(b, a),
{
    lemma_mul_is_commutative(a, b);
}

/// Field multiplication is associative.
pub proof fn lemma_fmul_assoc(a: int, b: int, c: int)
    ensures
        fmul(fmul(a, b), c) == fmul(a, fmul(b, c)),
{
    lemma_mul_mod_noop_left(a * b, c, modulus());
    lemma_mul_mod_noop_right(a, b * c, modulus());
    lemma_mul_is_associative(a, b, c);
}

/// The multiplicative identity is neutral on residues.
pub proof fn lemma_fmul_one(a: int)
    requires
        in_field(a),
    ensures
        fmul(a, 1) == a,
        fmul(1, a) == a,
{
    lemma_residue(a);
}

/// Multiplication by zero annihilates.
pub proof fn lemma_fmul_zero(a: int)
    ensures
        fmul(a, 0) == 0,
        fmul(0, a) == 0,
{
}

/// Reducing either factor first does not change a field product.
pub proof fn lemma_fmul_mod_noop(a: int, b: int)
    ensures
        fmul(a % modulus(), b) == fmul(a, b),
        fmul(a, b % modulus()) == fmul(a, b),
{
    lemma_mul_mod_noop_left(a, b, modulus());
    lemma_mul_mod_noop_right(a, b, modulus());
}

/// The zeroth power is one.
pub proof fn lemma_fpow_zero(b: int)
    ensures
        fpow(b, 0) == 1,
{
    reveal(pow);
}

/// The first power of a residue is itself.
pub proof fn lemma_fpow_one(b: int)
    requires
        in_field(b),
    ensures
        fpow(b, 1) == b,
{
    reveal(pow);
    lemma_fpow_zero(b);
    lemma_residue(b);
}

/// Exponents add under multiplication.
pub proof fn lemma_fpow_adds(b: int, e1: nat, e2: nat)
    ensures
        fmul(fpow(b, e1), fpow(b, e2)) == fpow(b, e1 + e2),
{
    lemma_pow_adds(b, e1, e2);
    lemma_mul_mod_noop(pow(b, e1), pow(b, e2), modulus());
}

/// Unfolding one step of exponentiation, factor at the top.
pub proof fn lemma_fpow_unfold_top(b: int, e: nat)
    requires
        e > 0,
    ensures
        fpow(b, e) == fmul(b, fpow(b, (e - 1) as nat)),
{
    reveal(pow);
    lemma_mul_mod_noop_right(b, pow(b, (e - 1) as nat), modulus());
}

/// The modulus has no proper divisor.
pub proof fn lemma_modulus_prime(d: int)
    requires
        2 <= d < modulus(),
    ensures
        modulus() % d != 0,
    decreases d,
{
    if d <= 15 {
        if d == 2 {
            assert(251int % 2int == 1);
        } else if d == 3 {
            assert(251int % 3int == 2);
        } else if d == 4 {
            assert(251int % 4int == 3);
        } else if d == 5 {
            assert(251int % 5int == 1);
        } else if d == 6 {
            assert(251int % 6int == 5);
        } else if d == 7 {
            assert(251int % 7int == 6);
        } else if d == 8 {
            assert(251int % 8int == 3);
        } else if d == 9 {
            assert(251int % 9int == 8);
        } else if d == 10 {
            assert(251int % 10int == 1);
        } else if d == 11 {
            assert(251int % 11int == 9);
        } else if d == 12 {
            assert(251int % 12int == 11);
        } else if d == 13 {
            assert(251int % 13int == 4);
        } else if d == 14 {
            assert(251int % 14int == 13);
        } else if d == 15 {
            assert(251int % 15int == 11);
        } else {
            assert(false);
        }
    } else {
        if modulus() % d == 0 {
            let q = modulus() / d;
            lemma_fundamental_div_mod(modulus(), d);
            assert(modulus() == d * q);
            assert(2 <= q <= 15) by (nonlinear_arith)
                requires
                    16 <= d < 251,
                    251 == d * q,
            ;
            lemma_mod_multiples_basic(d, q);
            assert(modulus() % q == 0);
            lemma_modulus_prime(q);
            assert(false);
        }
    }
}

/// Every nonzero residue has a multiplicative inverse.
pub proof fn lemma_inverse_exists(a: int)
    requires
        1 <= a < modulus(),
    ensures
        exists|b: int| 1 <= b < modulus() && #[trigger] fmul(a, b) == 1,
    decreases a,
{
    if a == 1 {
        assert(fmul(1, 1) == 1);
    } else {
        let q = modulus() / a;
        let r = modulus() % a;
        lemma_modulus_prime(a);
        lemma_mod_bound(modulus(), a);
        assert(1 <= r < a);
        lemma_inverse_exists(r);
        let s = choose|s: int| 1 <= s < modulus() && #[trigger] fmul(r, s) == 1;
        let u = (q * s) % modulus();
        let w = (q * s) / modulus();
        let b = (modulus() - u) % modulus();
        lemma_fundamental_div_mod(modulus(), a);
        lemma_fundamental_div_mod(q * s, modulus());
        let kk = a - s + a * w;
        assert(a * (modulus() - u) == modulus() * kk + r * s) by (nonlinear_arith)
            requires
                251 == a * q + r,
                q * s == 251 * w + u,
                kk == a - s + a * w,
        ;
        lemma_mod_multiples_vanish(kk, r * s, modulus());
        lemma_mul_mod_noop_right(a, modulus() - u, modulus());
        assert(fmul(a, b) == (a * (modulus() - u)) % modulus());
        assert(fmul(a, b) == fmul(r, s));
        lemma_mod_bound(modulus() - u, modulus());
        if b == 0 {
            lemma_fmul_zero(a);
            assert(false);
        }
        assert(1 <= b < modulus());
    }
}


/// The multiplicative inverse of a residue, as a spec-level value.
pub open spec fn finv(a: int) -> int {
    choose|b: int| 1 <= b < modulus() && #[trigger] fmul(a, b) == 1
}

/// The spec-level inverse of a nonzero residue is an inverse.
pub proof fn lemma_finv(a: int)
    requires
        1 <= a < modulus(),
    ensures
        1 <= finv(a) < modulus(),
        fmul(a, finv(a)) == 1,
{
    lemma_inverse_exists(a);
}

/// Inverses are unique among residues.
pub proof fn lemma_inverse_unique(a: int, b1: int, b2: int)
    requires
        in_field(b1),
        in_field(b2),
        fmul(a, b1) == 1,
        fmul(a, b2) == 1,
    ensures
        b1 == b2,
{
    lemma_fmul_comm(a, b1);
    lemma_fmul_comm(a, b2);
    lemma_fmul_assoc(b1, a, b2);
    lemma_fmul_one(b1);
    lemma_fmul_one(b2);
    lemma_fmul_comm(b1, 1);
    lemma_fmul_comm(fmul(b1, a), b2);
    lemma_fmul_mod_noop(b1, b2);
    assert(fmul(b1, fmul(a, b2)) == fmul(fmul(b1, a), b2));
    assert(fmul(b1, fmul(a, b2)) == fmul(b1, 1));
    assert(fmul(fmul(b1, a), b2) == fmul(fmul(a, b1), b2));
}

/// Multiplying one power of `x` by an inverse of `x` steps the exponent down.
pub proof fn lemma_fpow_step_down(x: int, xi: int, e: nat)
    requires
        fmul(x, xi) == 1,
        e > 0,
    ensures
        fmul(fpow(x, e), xi) == fpow(x, (e - 1) as nat),
{
    let p = fpow(x, (e - 1) as nat);
    lemma_ops_in_field(x, e - 1);
    lemma_fpow_unfold_top(x, e);
    lemma_fmul_comm(x, p);
    lemma_fmul_assoc(p, x, xi);
    lemma_fmul_one(p);
}


/// Field addition is associative.
pub proof fn lemma_fadd_assoc(a: int, b: int, c: int)
    ensures
        fadd(fadd(a, b), c) == fadd(a, fadd(b, c)),
{
    lemma_add_mod_noop_right(c, a + b, modulus());
    lemma_add_mod_noop_right(a, b + c, modulus());
}

/// Adding zero leaves a residue unchanged.
pub proof fn lemma_fadd_zero(a: int)
    requires
        in_field(a),
    ensures
        fadd(a, 0) == a,
        fadd(0, a) == a,
{
    lemma_residue(a);
}

/// Multiplication distributes over field addition.
pub proof fn lemma_fmul_fadd(a: int, b: int, c: int)
    ensures
        fmul(a, fadd(b, c)) == fadd(fmul(a, b), fmul(a, c)),
{
    lemma_mul_mod_noop_right(a, b + c, modulus());
    lemma_mul_is_distributive_add(a, b, c);
    lemma_add_mod_noop(a * b, a * c, modulus());
}

/// Multiplication distributes over field subtraction.
pub proof fn lemma_fmul_fsub(a: int, b: int, c: int)
    ensures
        fmul(a, fsub(b, c)) == fsub(fmul(a, b), fmul(a, c)),
{
    lemma_mul_mod_noop_right(a, b - c, modulus());
    lemma_mul_is_distributive_sub(a, b, c);
    lemma_sub_mod_noop(a * b, a * c, modulus());
}

/// A negated factor negates the product.
pub proof fn lemma_fmul_fneg(a: int, b: int)
    ensures
        fmul(fneg(a), b) == fneg(fmul(a, b)),
{
    lemma_mul_mod_noop_left(-a, b, modulus());
    lemma_mul_unary_negation(a, b);
    lemma_sub_mod_noop_right(0, a * b, modulus());
}

/// Adding a negation is subtracting.
pub proof fn lemma_fadd_fneg(a: int, b: int)
    ensures
        fadd(a, fneg(b)) == fsub(a, b),
{
    lemma_add_mod_noop_right(a, -b, modulus());
}

/// Powers of a product split into products of powers.
pub proof fn lemma_fpow_distributes(a: int, b: int, e: nat)
    ensures
        fpow(fmul(a, b), e) == fmul(fpow(a, e), fpow(b, e)),
{
    lemma_pow_mod_noop(a * b, e, modulus());
    lemma_pow_distributes(a, b, e);
    lemma_mul_mod_noop(pow(a, e), pow(b, e), modulus());
}

/// An iterated power is a power of the product of the exponents.
pub proof fn lemma_fpow_fpow(b: int, e1: nat, e2: nat)
    ensures
        fpow(fpow(b, e1), e2) == fpow(b, e1 * e2),
{
    lemma_pow_mod_noop(pow(b, e1), e2, modulus());
    lemma_pow_multiplies(b, e1, e2);
}

/// Multiplying by a power of an inverse steps the exponent down that far.
pub proof fn lemma_fpow_down_many(x: int, xi: int, a: nat, i: nat)
    requires
        fmul(x, xi) == 1,
        i <= a,
    ensures
        fmul(fpow(x, a), fpow(xi, i)) == fpow(x, (a - i) as nat),
    decreases i,
{
    if i == 0 {
        lemma_fpow_zero(xi);
        lemma_ops_in_field(x, a as int);
        lemma_fmul_one(fpow(x, a));
    } else {
        lemma_fpow_down_many(x, xi, a, (i - 1) as nat);
        lemma_fpow_unfold_top(xi, i);
        lemma_fmul_comm(xi, fpow(xi, (i - 1) as nat));
        lemma_fmul_assoc(fpow(x, a), fpow(xi, (i - 1) as nat), xi);
        lemma_fpow_step_down(x, xi, (a - i + 1) as nat);
    }
}

/// The product of two monomials in `y` and `x` collects the exponents.
pub proof fn lemma_mono_mul(y: int, x: int, e1: nat, f1: nat, e2: nat, f2: nat)
    ensures
        fmul(fmul(fpow(y, e1), fpow(x, f1)), fmul(fpow(y, e2), fpow(x, f2))) == fmul(
            fpow(y, e1 + e2),
            fpow(x, f1 + f2),
        ),
{
    let ya = fpow(y, e1);
    let xa = fpow(x, f1);
    let yb = fpow(y, e2);
    let xb = fpow(x, f2);
    lemma_fmul_assoc(fmul(ya, xa), yb, xb);
    lemma_fmul_assoc(ya, xa, yb);
    lemma_fmul_comm(xa, yb);
    lemma_fmul_assoc(ya, yb, xa);
    lemma_fmul_assoc(fmul(ya, yb), xa, xb);
    lemma_fpow_adds(y, e1, e2);
    lemma_fpow_adds(x, f1, f2);
}

/// The product of a monomial and a monomial in the inverse of `x` collects
/// the `y` exponents and steps the `x` exponent down.
pub proof fn lemma_mono_mul_inv(y: int, x: int, xi: int, e1: nat, f1: nat, e2: nat, i: nat)
    requires
        fmul(x, xi) == 1,
        i <= f1,
    ensures
        fmul(fmul(fpow(y, e1), fpow(x, f1)), fmul(fpow(y, e2), fpow(xi, i))) == fmul(
            fpow(y, e1 + e2),
            fpow(x, (f1 - i) as nat),
        ),
{
    let ya = fpow(y, e1);
    let xa = fpow(x, f1);
    let yb = fpow(y, e2);
    let xb = fpow(xi, i);
    lemma_fmul_assoc(fmul(ya, xa), yb, xb);
    lemma_fmul_assoc(ya, xa, yb);
    lemma_fmul_comm(xa, yb);
    lemma_fmul_assoc(ya, yb, xa);
    lemma_fmul_assoc(fmul(ya, yb), xa, xb);
    lemma_fpow_adds(y, e1, e2);
    lemma_fpow_down_many(x, xi, f1, i);
}

/// Regrouping a sum of three two-term sums into two three-term sums.
pub proof fn lemma_fadd_shuffle6(a: int, b: int, c: int, d: int, e: int, f: int)
    ensures
        fadd(fadd(fadd(a, b), fadd(c, d)), fadd(e, f)) == fadd(
            fadd(fadd(a, c), e),
            fadd(fadd(b, d), f),
        ),
{
    let m = modulus();
    assert(fadd(fadd(a, b), fadd(c, d)) == (a + b + c + d) % m) by {
        lemma_add_mod_noop(a + b, c + d, m);
    }
    assert(fadd(fadd(fadd(a, b), fadd(c, d)), fadd(e, f)) == (a + b + c + d + e + f) % m) by {
        lemma_add_mod_noop(a + b + c + d, e + f, m);
    }
    assert(fadd(fadd(a, c), e) == (a + c + e) % m) by {
        lemma_add_mod_noop_right(e, a + c, m);
    }
    assert(fadd(fadd(b, d), f) == (b + d + f) % m) by {
        lemma_add_mod_noop_right(f, b + d, m);
    }
    assert(fadd(fadd(fadd(a, c), e), fadd(fadd(b, d), f)) == (a + b + c + d + e + f) % m) by {
        lemma_add_mod_noop(a + c + e, b + d + f, m);
    }
}


/// Positive powers of zero are zero.
pub proof fn lemma_fpow_zero_base(e: nat)
    requires
        e > 0,
    ensures
        fpow(0, e) == 0,
{
    vstd::arithmetic::power::lemma0_pow(e);
}

/// The first factors of a left-associated three-term sum may swap with the
/// last.
pub proof fn lemma_fadd_comm3(a: int, b: int, c: int)
    ensures
        fadd(fadd(a, b), c) == fadd(fadd(c, b), a),
{
    let m = modulus();
    assert(fadd(fadd(a, b), c) == (a + b + c) % m) by {
        lemma_add_mod_noop_right(c, a + b, m);
    }
    assert(fadd(fadd(c, b), a) == (a + b + c) % m) by {
        lemma_add_mod_noop_right(a, c + b, m);
    }
}

/// An extra power of `y` folds into a monomial's `y` exponent.
pub proof fn lemma_mono_weight(y: int, x: int, w: nat, e: nat, f: nat)
    ensures
        fmul(fpow(y, w), fmul(fpow(y, e), fpow(x, f))) == fmul(fpow(y, w + e), fpow(x, f)),
{
    lemma_fmul_assoc(fpow(y, w), fpow(y, e), fpow(x, f));
    lemma_fpow_adds(y, w, e);
}

/// The square and cube of a residue are its second and third powers.
pub proof fn lemma_fpow_small(y: int)
    requires
        in_field(y),
    ensures
        fpow(y, 1) == y,
        fmul(y, y) == fpow(y, 2),
        fmul(y, fmul(y, y)) == fpow(y, 3),
{
    lemma_fpow_one(y);
    lemma_fpow_unfold_top(y, 2);
    lemma_fpow_unfold_top(y, 3);
}


/// Folding three terms onto a sum one by one, lowest slot first, groups them
/// as one gate's triple.
pub proof fn lemma_fadd_fold3(s: int, a: int, b: int, c: int)
    ensures
        fadd(fadd(fadd(s, c), b), a) == fadd(s, fadd(fadd(a, b), c)),
{
    let m = modulus();
    assert(fadd(fadd(fadd(s, c), b), a) == (s + a + b + c) % m) by {
        lemma_add_mod_noop_right(b, s + c, m);
        lemma_add_mod_noop_right(a, s + c + b, m);
    }
    assert(fadd(s, fadd(fadd(a, b), c)) == (s + a + b + c) % m) by {
        lemma_add_mod_noop_right(c, a + b, m);
        lemma_add_mod_noop_right(s, a + b + c, m);
    }
}

} // verus!
