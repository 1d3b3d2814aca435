//! Selector polynomials for stage windows.
//!
//! For a window `[skip, skip + size)` of multiplication gates, a selector
//! object produces polynomials enforcing "every gate outside the window is
//! zero": `sy(y, k)` is the selector as a structured polynomial in `x`,
//! `sx(x, k)` the same selector as a flat polynomial in `y`, and `sxy(x, y, k)`
//! its direct evaluation in closed form. Staged witnesses never use the
//! constant term, so at `x = 0` or `y = 0` every view evaluates to zero.
//!
//! A placeholder occupies gate zero: with `q = 3·(skip + reserved)` it
//! contributes `y^(q+1)·(x^(2n-1) - k·x^(4n-1))`, folding one always-present
//! boundary constraint into the same polynomial at challenge weight `k`.

use vstd::prelude::*;

use crate::field::{fadd, fmul, fneg, fpow, fsub, Fe};
use crate::poly::{gate_term, supported_in, Rank, StructuredPolynomial, UnstructuredPolynomial};
use crate::staging::{stage_size, StageShape};
use crate::Error;

verus! {

/// The highest selector exponent of `y` below the placeholder: three linear
/// constraints for each gate outside the window.
pub open spec fn sel_q(n: int, size: int) -> int {
    3 * (n - size - 1)
}

/// The `a` slot of gate `j` of the selector's structured view.
pub open spec fn sy_a(n: int, skip: int, size: int, y: int, k: int, j: int) -> int {
    let q = sel_q(n, size);
    if j == 0 {
        fpow(y, (q + 1) as nat)
    } else if j <= skip {
        fpow(y, (q - 3 * j + 3) as nat)
    } else if j <= skip + size {
        0
    } else {
        fpow(y, (q + 3 * size - 3 * j + 3) as nat)
    }
}

/// The `b` slot of gate `j` of the selector's structured view.
pub open spec fn sy_b(n: int, skip: int, size: int, y: int, k: int, j: int) -> int {
    let q = sel_q(n, size);
    if j == 0 {
        0
    } else if j <= skip {
        fpow(y, (q - 3 * j + 2) as nat)
    } else if j <= skip + size {
        0
    } else {
        fpow(y, (q + 3 * size - 3 * j + 2) as nat)
    }
}

/// The `c` slot of gate `j` of the selector's structured view.
pub open spec fn sy_c(n: int, skip: int, size: int, y: int, k: int, j: int) -> int {
    let q = sel_q(n, size);
    if j == 0 {
        fmul(fneg(k), fpow(y, (q + 1) as nat))
    } else if j <= skip {
        fpow(y, (q - 3 * j + 1) as nat)
    } else if j <= skip + size {
        0
    } else {
        fpow(y, (q + 3 * size - 3 * j + 1) as nat)
    }
}

/// A committable selector for one stage window: witnesses satisfying it have
/// every non-placeholder multiplication gate outside
/// `[skip, skip + size)` enforced to zero.
#[derive(Clone, Copy, Debug)]
pub struct StageObject {
    rank: Rank,
    skip_multiplications: usize,
    num_multiplications: usize,
}

impl StageObject {
    /// The rank this selector was built for.
    pub closed spec fn rank_spec(self) -> Rank {
        self.rank
    }

    /// The gates skipped before the window.
    pub closed spec fn skip_spec(self) -> int {
        self.skip_multiplications as int
    }

    /// The width of the window.
    pub closed spec fn num_spec(self) -> int {
        self.num_multiplications as int
    }

    /// The window and the placeholder always fit within the rank's budget.
    #[verifier::type_invariant]
    pub closed spec fn wf(self) -> bool {
        self.skip_multiplications + self.num_multiplications + 1 <= self.rank.n_spec()
    }

    /// Builds the selector for the window
    /// `[skip_multiplications, skip_multiplications + num_multiplications)`,
    /// rejecting a window that exceeds the rank's gate budget.
    pub fn new(rank: Rank, skip_multiplications: usize, num_multiplications: usize) -> (r: Result<
        StageObject,
        Error,
    >)
        ensures
            skip_multiplications + num_multiplications + 1 <= rank.n_spec() ==> (r matches Ok(o)
                && o.rank_spec() == rank && o.skip_spec() == skip_multiplications && o.num_spec()
                == num_multiplications),
            skip_multiplications + num_multiplications + 1 > rank.n_spec() ==> r == Err::<
                StageObject,
                Error,
            >(Error::MultiplicationBoundExceeded(rank.n_spec() as usize)),
    {
        let n = rank.n();
        if skip_multiplications > n - 1 || num_multiplications > n - 1 - skip_multiplications {
            return Err(Error::MultiplicationBoundExceeded(n));
        }
        Ok(StageObject { rank, skip_multiplications, num_multiplications })
    }

    /// Builds the selector with the given skip and the maximum window width
    /// the budget leaves, `n - skip_multiplications - 1`.
    pub fn new_max(rank: Rank, skip_multiplications: usize) -> (r: Result<StageObject, Error>)
        ensures
            skip_multiplications + 1 <= rank.n_spec() ==> (r matches Ok(o) && o.rank_spec() == rank
                && o.skip_spec() == skip_multiplications && o.num_spec() == rank.n_spec()
                - skip_multiplications - 1),
            skip_multiplications + 1 > rank.n_spec() ==> r == Err::<StageObject, Error>(
                Error::MultiplicationBoundExceeded(rank.n_spec() as usize),
            ),
    {
        let n = rank.n();
        if skip_multiplications > n - 1 {
            return Err(Error::MultiplicationBoundExceeded(n));
        }
        let num_multiplications = n - skip_multiplications - 1;
        Ok(StageObject { rank, skip_multiplications, num_multiplications })
    }

    /// The gates skipped before the window.
    pub fn skip_multiplications(&self) -> (r: usize)
        ensures
            r == self.skip_spec(),
    {
        self.skip_multiplications
    }

    /// The width of the window.
    pub fn num_multiplications(&self) -> (r: usize)
        ensures
            r == self.num_spec(),
    {
        self.num_multiplications
    }

    /// The rank this selector was built for.
    pub fn rank(&self) -> (r: Rank)
        ensures
            r == self.rank_spec(),
    {
        self.rank
    }

    /// The selector as a structured polynomial in `x`: the placeholder triple
    /// at gate zero, explicit decreasing powers of `y` at every gate outside
    /// the window, and explicit zero triples inside the window. At `y = 0`
    /// the selector is the empty polynomial. Evaluating the result at `x`
    /// gives `sxy(x, y, k)`: see [`lemma_selector_entry_points_agree`].
    pub fn sy(&self, y: Fe, k: Fe) -> (r: StructuredPolynomial)
        ensures
            y.val() == 0 ==> r.av().len() == 0 && r.bv().len() == 0 && r.cv().len() == 0,
            y.val() != 0 ==> {
                &&& r.av().len() == self.rank_spec().n_spec()
                &&& r.bv().len() == r.av().len()
                &&& r.cv().len() == r.av().len()
            },
            y.val() != 0 ==> forall|j: int| 0 <= j < self.rank_spec().n_spec()
                ==> #[trigger] r.av()[j] == sy_a(
                self.rank_spec().n_spec(),
                self.skip_spec(),
                self.num_spec(),
                y.val(),
                k.val(),
                j,
            ),
            y.val() != 0 ==> forall|j: int| 0 <= j < self.rank_spec().n_spec()
                ==> #[trigger] r.bv()[j] == sy_b(
                self.rank_spec().n_spec(),
                self.skip_spec(),
                self.num_spec(),
                y.val(),
                k.val(),
                j,
            ),
            y.val() != 0 ==> forall|j: int| 0 <= j < self.rank_spec().n_spec()
                ==> #[trigger] r.cv()[j] == sy_c(
                self.rank_spec().n_spec(),
                self.skip_spec(),
                self.num_spec(),
                y.val(),
                k.val(),
                j,
            ),
    {
        proof {
            use_type_invariant(self);
        }
        let ghost yv = y.val();
        let ghost kv = k.val();
        let n = self.rank.n();
        let skip = self.skip_multiplications;
        let num = self.num_multiplications;
        let reserved = n - skip - num - 1;
        let ghost ni = n as int;

        let mut poly = StructuredPolynomial::new();
        if y.is_zero() {
            return poly;
        }

        let q = 3 * (reserved + skip);
        proof {
            assert(q == sel_q(ni, num as int));
        }
        let mut yq = y.pow((q + 1) as u64);
        let yi = y.invert();

        poly.push_gate(yq, Fe::zero(), k.neg().mul(yq));
        proof {
            crate::field::lemma_fpow_step_down(yv, yi.val(), (q + 1) as nat);
        }
        yq = yq.mul(yi);

        let mut j: usize = 0;
        while j < skip
            invariant
                j <= skip,
                q == sel_q(ni, num as int),
                ni == self.rank_spec().n_spec(),
                skip == self.skip_spec(),
                num == self.num_spec(),
                skip + num + 1 + reserved == ni,
                q == 3 * (reserved + skip),
                yv == y.val(),
                kv == k.val(),
                yv != 0,
                fmul(yv, yi.val()) == 1,
                yq.val() == fpow(yv, (q - 3 * j) as nat),
                poly.av().len() == 1 + j,
                poly.bv().len() == poly.av().len(),
                poly.cv().len() == poly.av().len(),
                poly.av()[0] == sy_a(ni, skip as int, num as int, yv, kv, 0),
                poly.bv()[0] == sy_b(ni, skip as int, num as int, yv, kv, 0),
                poly.cv()[0] == sy_c(ni, skip as int, num as int, yv, kv, 0),
                forall|i: int| 1 <= i < 1 + j ==> #[trigger] poly.av()[i] == sy_a(
                    ni,
                    skip as int,
                    num as int,
                    yv,
                    kv,
                    i,
                ),
                forall|i: int| 1 <= i < 1 + j ==> #[trigger] poly.bv()[i] == sy_b(
                    ni,
                    skip as int,
                    num as int,
                    yv,
                    kv,
                    i,
                ),
                forall|i: int| 1 <= i < 1 + j ==> #[trigger] poly.cv()[i] == sy_c(
                    ni,
                    skip as int,
                    num as int,
                    yv,
                    kv,
                    i,
                ),
            decreases skip - j,
        {
            let a = yq;
            proof {
                crate::field::lemma_fpow_step_down(yv, yi.val(), (q - 3 * j) as nat);
            }
            yq = yq.mul(yi);
            let b = yq;
            proof {
                crate::field::lemma_fpow_step_down(yv, yi.val(), (q - 3 * j - 1) as nat);
            }
            yq = yq.mul(yi);
            let c = yq;
            proof {
                crate::field::lemma_fpow_step_down(yv, yi.val(), (q - 3 * j - 2) as nat);
            }
            yq = yq.mul(yi);
            poly.push_gate(a, b, c);
            j = j + 1;
        }

        let mut t: usize = 0;
        while t < num
            invariant
                t <= num,
                q == sel_q(ni, num as int),
                ni == self.rank_spec().n_spec(),
                skip == self.skip_spec(),
                num == self.num_spec(),
                skip + num + 1 + reserved == ni,
                q == 3 * (reserved + skip),
                yv == y.val(),
                kv == k.val(),
                yv != 0,
                fmul(yv, yi.val()) == 1,
                yq.val() == fpow(yv, (q - 3 * skip) as nat),
                poly.av().len() == 1 + skip + t,
                poly.bv().len() == poly.av().len(),
                poly.cv().len() == poly.av().len(),
                forall|i: int| 0 <= i < 1 + skip + t ==> #[trigger] poly.av()[i] == sy_a(
                    ni,
                    skip as int,
                    num as int,
                    yv,
                    kv,
                    i,
                ),
                forall|i: int| 0 <= i < 1 + skip + t ==> #[trigger] poly.bv()[i] == sy_b(
                    ni,
                    skip as int,
                    num as int,
                    yv,
                    kv,
                    i,
                ),
                forall|i: int| 0 <= i < 1 + skip + t ==> #[trigger] poly.cv()[i] == sy_c(
                    ni,
                    skip as int,
                    num as int,
                    yv,
                    kv,
                    i,
                ),
            decreases num - t,
        {
            poly.push_gate(Fe::zero(), Fe::zero(), Fe::zero());
            t = t + 1;
        }

        let mut u: usize = 0;
        while u < reserved
            invariant
                u <= reserved,
                q == sel_q(ni, num as int),
                ni == self.rank_spec().n_spec(),
                skip == self.skip_spec(),
                num == self.num_spec(),
                skip + num + 1 + reserved == ni,
                q == 3 * (reserved + skip),
                yv == y.val(),
                kv == k.val(),
                yv != 0,
                fmul(yv, yi.val()) == 1,
                yq.val() == fpow(yv, (q - 3 * skip - 3 * u) as nat),
                poly.av().len() == 1 + skip + num + u,
                poly.bv().len() == poly.av().len(),
                poly.cv().len() == poly.av().len(),
                forall|i: int| 0 <= i < 1 + skip + num + u ==> #[trigger] poly.av()[i] == sy_a(
                    ni,
                    skip as int,
                    num as int,
                    yv,
                    kv,
                    i,
                ),
                forall|i: int| 0 <= i < 1 + skip + num + u ==> #[trigger] poly.bv()[i] == sy_b(
                    ni,
                    skip as int,
                    num as int,
                    yv,
                    kv,
                    i,
                ),
                forall|i: int| 0 <= i < 1 + skip + num + u ==> #[trigger] poly.cv()[i] == sy_c(
                    ni,
                    skip as int,
                    num as int,
                    yv,
                    kv,
                    i,
                ),
            decreases reserved - u,
        {
            let a = yq;
            proof {
                crate::field::lemma_fpow_step_down(yv, yi.val(), (q - 3 * skip - 3 * u) as nat);
            }
            yq = yq.mul(yi);
            let b = yq;
            proof {
                crate::field::lemma_fpow_step_down(yv, yi.val(), (q - 3 * skip - 3 * u - 1) as nat);
            }
            yq = yq.mul(yi);
            let c = yq;
            proof {
                crate::field::lemma_fpow_step_down(yv, yi.val(), (q - 3 * skip - 3 * u - 2) as nat);
            }
            yq = yq.mul(yi);
            let ghost gate = 1 + skip + num + u;
            proof {
                assert(q + 3 * (num as int) - 3 * gate + 3 == q - 3 * skip - 3 * u);
            }
            poly.push_gate(a, b, c);
            u = u + 1;
        }
        poly
    }
}


/// The closed-form contribution of one block of enforced-zero gates ending at
/// gate `e` with `len` gates, evaluated at `x`, `y`, with `xi` inverse to `x`.
pub open spec fn sxy_block(n: int, x: int, xi: int, y: int, e: int, len: int) -> int {
    let y2 = fmul(y, y);
    let y3 = fmul(y, y2);
    let w = fmul(y, fpow(x, (4 * n - 2 - e) as nat));
    let v = fmul(y2, fpow(x, (2 * n + 1 + e) as nat));
    let u = fmul(y3, fpow(x, (2 * n - 2 - e) as nat));
    let plus = crate::field::geo(fmul(x, y3), len as nat);
    let minus = crate::field::geo(fmul(xi, y3), len as nat);
    fadd(fadd(fmul(w, plus), fmul(v, minus)), fmul(u, plus))
}

/// The selector evaluated at `(x, y)` in closed form: the placeholder term,
/// the block covering the skipped prefix, weighted to sit above the reserved
/// suffix's powers, and the block covering the reserved suffix. Zero whenever
/// `x` or `y` is zero.
pub open spec fn sxy_spec(n: int, skip: int, size: int, x: int, y: int, k: int) -> int {
    if x == 0 || y == 0 {
        0
    } else {
        let xi = crate::field::finv(x);
        let reserved = n - skip - size - 1;
        let q = sel_q(n, size);
        let placeholder = fmul(
            fpow(y, (q + 1) as nat),
            fsub(fpow(x, (2 * n - 1) as nat), fmul(k, fpow(x, (4 * n - 1) as nat))),
        );
        let c1 = if skip > 0 {
            sxy_block(n, x, xi, y, skip - 1, skip)
        } else {
            0
        };
        let c2 = sxy_block(n, x, xi, y, n - 2, reserved);
        fadd(fadd(placeholder, fmul(fpow(y, (3 * reserved) as nat), c1)), c2)
    }
}

/// A block of no gates contributes nothing.
proof fn lemma_sxy_block_empty(n: int, x: int, xi: int, y: int, e: int)
    ensures
        sxy_block(n, x, xi, y, e, 0) == 0,
{
    let y2 = fmul(y, y);
    let y3 = fmul(y, y2);
    crate::field::lemma_fmul_zero(fmul(y, fpow(x, (4 * n - 2 - e) as nat)));
    crate::field::lemma_fmul_zero(fmul(y2, fpow(x, (2 * n + 1 + e) as nat)));
    crate::field::lemma_fmul_zero(fmul(y3, fpow(x, (2 * n - 2 - e) as nat)));
}

/// One block of the closed-form selector evaluation.
fn block_eval(n: usize, x: Fe, xi: Fe, y: Fe, e: usize, len: usize) -> (r: Fe)
    requires
        1 <= n <= 0x0fff_ffff,
        e <= n - 2,
        x.val() != 0,
        xi.val() == crate::field::finv(x.val()),
    ensures
        r.val() == sxy_block(n as int, x.val(), xi.val(), y.val(), e as int, len as int),
{
    let y2 = y.square();
    let y3 = y.mul(y2);
    let w = y.mul(x.pow((4 * n - 2 - e) as u64));
    let v = y2.mul(x.pow((2 * n + 1 + e) as u64));
    let u = y3.mul(x.pow((2 * n - 2 - e) as u64));
    let plus = crate::field::geosum(x.mul(y3), len);
    let minus = crate::field::geosum(xi.mul(y3), len);
    w.mul(plus).add(v.mul(minus)).add(u.mul(plus))
}

impl StageObject {
    /// Evaluates the selector at `(x, y)` directly, in closed form via
    /// geometric sums: equal to zero when `x` or `y` is zero, since staged
    /// witnesses never use the constant term.
    #[verifier::rlimit(60)]
    pub fn sxy(&self, x: Fe, y: Fe, k: Fe) -> (r: Fe)
        ensures
            r.val() == sxy_spec(
                self.rank_spec().n_spec(),
                self.skip_spec(),
                self.num_spec(),
                x.val(),
                y.val(),
                k.val(),
            ),
    {
        proof {
            use_type_invariant(self);
        }
        let n = self.rank.n();
        let skip = self.skip_multiplications;
        let num = self.num_multiplications;
        let reserved = n - skip - num - 1;

        if x.is_zero() || y.is_zero() {
            return Fe::zero();
        }

        let xi = x.invert();
        let q = 3 * (reserved + skip);
        proof {
            assert(q == sel_q(n as int, num as int));
        }

        let y_pow = y.pow((q + 1) as u64);
        let x_2n_minus_1 = x.pow((2 * n - 1) as u64);
        let x_4n_minus_1 = x.pow((4 * n - 1) as u64);
        let placeholder = y_pow.mul(x_2n_minus_1.sub(k.mul(x_4n_minus_1)));

        let c1 = if skip > 0 {
            block_eval(n, x, xi, y, skip - 1, skip)
        } else {
            Fe::zero()
        };
        let c2 = if reserved > 0 {
            block_eval(n, x, xi, y, n - 2, reserved)
        } else {
            proof {
                lemma_sxy_block_empty(
                    n as int,
                    x.val(),
                    crate::field::finv(x.val()),
                    y.val(),
                    n - 2,
                );
            }
            Fe::zero()
        };

        placeholder.add(y.pow((3 * reserved) as u64).mul(c1)).add(c2)
    }
}


/// The `x`-power of slot `s` (0 for `a`, 1 for `b`, 2 for `c`) of gate `j`.
pub open spec fn sx_slot(n: int, x: int, j: int, s: int) -> int {
    if s == 0 {
        fpow(x, (2 * n - 1 - j) as nat)
    } else if s == 1 {
        fpow(x, (2 * n + j) as nat)
    } else {
        fpow(x, (4 * n - 1 - j) as nat)
    }
}

/// The `p`-th coefficient recorded while walking the gates in ascending
/// order: the placeholder first, then three slots for each gate of the
/// skipped prefix, then three for each gate of the reserved suffix, and an
/// enforced-zero constant term last. Gates of the active window are walked
/// but never recorded.
pub open spec fn sx_push(n: int, skip: int, size: int, x: int, k: int, p: int) -> int {
    let q = sel_q(n, size);
    if p == 0 {
        fsub(fpow(x, (2 * n - 1) as nat), fmul(k, fpow(x, (4 * n - 1) as nat)))
    } else if p <= 3 * skip {
        sx_slot(n, x, 1 + (p - 1) / 3, (p - 1) % 3)
    } else if p <= q {
        sx_slot(n, x, 1 + skip + size + (p - 1 - 3 * skip) / 3, (p - 1 - 3 * skip) % 3)
    } else {
        0
    }
}

/// The coefficient of `y^m` of the selector's flat view: the recorded walk,
/// stored reversed.
pub open spec fn sx_coeff(n: int, skip: int, size: int, x: int, k: int, m: int) -> int {
    let q = sel_q(n, size);
    sx_push(n, skip, size, x, k, q + 1 - m)
}

/// Steps the three running slot powers of `x` from gate `g` to gate `g + 1`.
fn advance_powers(x: Fe, xi: Fe, u: Fe, v: Fe, w: Fe, Ghost(n): Ghost<int>, Ghost(g): Ghost<int>)
    -> (r: (Fe, Fe, Fe))
    requires
        crate::field::in_field(x.val()),
        fmul(x.val(), xi.val()) == 1,
        0 <= g,
        g + 1 < 2 * n,
        u.val() == fpow(x.val(), (2 * n - 1 - g) as nat),
        v.val() == fpow(x.val(), (2 * n + g) as nat),
        w.val() == fpow(x.val(), (4 * n - 1 - g) as nat),
    ensures
        r.0.val() == fpow(x.val(), (2 * n - 1 - (g + 1)) as nat),
        r.1.val() == fpow(x.val(), (2 * n + g + 1) as nat),
        r.2.val() == fpow(x.val(), (4 * n - 1 - (g + 1)) as nat),
{
    proof {
        crate::field::lemma_fpow_step_down(x.val(), xi.val(), (2 * n - 1 - g) as nat);
        crate::field::lemma_fpow_step_down(x.val(), xi.val(), (4 * n - 1 - g) as nat);
        crate::field::lemma_fpow_adds(x.val(), (2 * n + g) as nat, 1);
        crate::field::lemma_fpow_one(x.val());
        crate::field::lemma_fmul_mod_noop(fpow(x.val(), (2 * n + g) as nat), x.val());
    }
    (u.mul(xi), v.mul(x), w.mul(xi))
}

impl StageObject {
    /// The selector as a flat polynomial in `y`: one recorded coefficient per
    /// linear-constraint slot, walking increasing and decreasing powers of
    /// `x` once per slot, the sequence stored reversed behind an
    /// enforced-zero constant term. At `x = 0` the selector is the empty
    /// polynomial. Evaluating the result at `y` gives `sxy(x, y, k)`: see
    /// [`lemma_selector_entry_points_agree`].
    pub fn sx(&self, x: Fe, k: Fe) -> (r: UnstructuredPolynomial)
        ensures
            x.val() == 0 ==> r.coeffs_spec().len() == 0,
            x.val() != 0 ==> r.coeffs_spec().len() == sel_q(
                self.rank_spec().n_spec(),
                self.num_spec(),
            ) + 2,
            x.val() != 0 ==> forall|m: int| 0 <= m < r.coeffs_spec().len()
                ==> #[trigger] r.coeffs_spec()[m] == sx_coeff(
                self.rank_spec().n_spec(),
                self.skip_spec(),
                self.num_spec(),
                x.val(),
                k.val(),
                m,
            ),
    {
        proof {
            use_type_invariant(self);
            use_type_invariant(x);
            crate::field::lemma_fe_wf(x);
        }
        let ghost xv = x.val();
        let ghost kv = k.val();
        let n = self.rank.n();
        let skip = self.skip_multiplications;
        let num = self.num_multiplications;
        let reserved = n - skip - num - 1;
        let ghost ni = n as int;
        let ghost si = skip as int;
        let ghost mi = num as int;
        let ghost q = sel_q(ni, mi);

        if x.is_zero() {
            return UnstructuredPolynomial::new();
        }

        let xi = x.invert();
        let mut u = x.pow((2 * n - 1) as u64);
        let mut v = x.pow((2 * n) as u64);
        let mut w = x.pow((4 * n - 1) as u64);
        let mut coeffs: Vec<Fe> = Vec::new();

        coeffs.push(u.sub(k.mul(w)));
        let (u1, v1, w1) = advance_powers(x, xi, u, v, w, Ghost(ni), Ghost(0));
        u = u1;
        v = v1;
        w = w1;

        let mut j: usize = 1;
        while j <= skip
            invariant
                1 <= j <= skip + 1,
                ni == self.rank_spec().n_spec(),
                si == self.skip_spec(),
                mi == self.num_spec(),
                si + mi + 1 + reserved == ni,
                1 <= ni <= 0x0fff_ffff,
                skip == si,
                num == mi,
                q == sel_q(ni, mi),
                xv == x.val(),
                kv == k.val(),
                crate::field::in_field(xv),
                xv != 0,
                fmul(xv, xi.val()) == 1,
                u.val() == fpow(xv, (2 * ni - 1 - j) as nat),
                v.val() == fpow(xv, (2 * ni + j) as nat),
                w.val() == fpow(xv, (4 * ni - 1 - j) as nat),
                coeffs@.len() == 1 + 3 * (j - 1),
                forall|p: int| 0 <= p < coeffs@.len() ==> (#[trigger] coeffs@[p]).val() == sx_push(
                    ni,
                    si,
                    mi,
                    xv,
                    kv,
                    p,
                ),
            decreases skip + 1 - j,
        {
            let ghost oldc = coeffs@;
            coeffs.push(u);
            coeffs.push(v);
            coeffs.push(w);
            proof {
                let l0 = oldc.len() as int;
                assert(l0 == 1 + 3 * (j - 1));
                assert((l0 - 1) / 3 == j - 1 && (l0 - 1) % 3 == 0);
                assert((l0 + 1 - 1) / 3 == j - 1 && (l0 + 1 - 1) % 3 == 1);
                assert((l0 + 2 - 1) / 3 == j - 1 && (l0 + 2 - 1) % 3 == 2);
                assert forall|p: int| 0 <= p < coeffs@.len() implies (
                #[trigger] coeffs@[p]).val() == sx_push(ni, si, mi, xv, kv, p) by {
                    if p < l0 {
                        assert(coeffs@[p] == oldc[p]);
                    } else if p == l0 {
                        assert(coeffs@[p] == u);
                    } else if p == l0 + 1 {
                        assert(coeffs@[p] == v);
                    } else {
                        assert(coeffs@[p] == w);
                    }
                }
            }
            let (u2, v2, w2) = advance_powers(x, xi, u, v, w, Ghost(ni), Ghost(j as int));
            u = u2;
            v = v2;
            w = w2;
            j = j + 1;
        }

        let mut t: usize = 0;
        while t < num
            invariant
                0 <= t <= num,
                ni == self.rank_spec().n_spec(),
                si == self.skip_spec(),
                mi == self.num_spec(),
                si + mi + 1 + reserved == ni,
                1 <= ni <= 0x0fff_ffff,
                skip == si,
                num == mi,
                q == sel_q(ni, mi),
                xv == x.val(),
                kv == k.val(),
                crate::field::in_field(xv),
                xv != 0,
                fmul(xv, xi.val()) == 1,
                u.val() == fpow(xv, (2 * ni - 1 - (1 + si + t)) as nat),
                v.val() == fpow(xv, (2 * ni + 1 + si + t) as nat),
                w.val() == fpow(xv, (4 * ni - 1 - (1 + si + t)) as nat),
                coeffs@.len() == 1 + 3 * si,
                forall|p: int| 0 <= p < coeffs@.len() ==> (#[trigger] coeffs@[p]).val() == sx_push(
                    ni,
                    si,
                    mi,
                    xv,
                    kv,
                    p,
                ),
            decreases num - t,
        {
            let (u2, v2, w2) = advance_powers(x, xi, u, v, w, Ghost(ni), Ghost(1 + si + t));
            u = u2;
            v = v2;
            w = w2;
            t = t + 1;
        }

        let mut e: usize = 0;
        while e < reserved
            invariant
                0 <= e <= reserved,
                ni == self.rank_spec().n_spec(),
                si == self.skip_spec(),
                mi == self.num_spec(),
                si + mi + 1 + reserved == ni,
                1 <= ni <= 0x0fff_ffff,
                skip == si,
                num == mi,
                q == sel_q(ni, mi),
                xv == x.val(),
                kv == k.val(),
                crate::field::in_field(xv),
                xv != 0,
                fmul(xv, xi.val()) == 1,
                u.val() == fpow(xv, (2 * ni - 1 - (1 + si + mi + e)) as nat),
                v.val() == fpow(xv, (2 * ni + 1 + si + mi + e) as nat),
                w.val() == fpow(xv, (4 * ni - 1 - (1 + si + mi + e)) as nat),
                coeffs@.len() == 1 + 3 * si + 3 * e,
                forall|p: int| 0 <= p < coeffs@.len() ==> (#[trigger] coeffs@[p]).val() == sx_push(
                    ni,
                    si,
                    mi,
                    xv,
                    kv,
                    p,
                ),
            decreases reserved - e,
        {
            let ghost oldc = coeffs@;
            coeffs.push(u);
            coeffs.push(v);
            coeffs.push(w);
            proof {
                let l0 = oldc.len() as int;
                assert((l0 - 1 - 3 * si) / 3 == e && (l0 - 1 - 3 * si) % 3 == 0);
                assert((l0 + 1 - 1 - 3 * si) / 3 == e && (l0 + 1 - 1 - 3 * si) % 3 == 1);
                assert((l0 + 2 - 1 - 3 * si) / 3 == e && (l0 + 2 - 1 - 3 * si) % 3 == 2);
                assert forall|p: int| 0 <= p < coeffs@.len() implies (
                #[trigger] coeffs@[p]).val() == sx_push(ni, si, mi, xv, kv, p) by {
                    if p < l0 {
                        assert(coeffs@[p] == oldc[p]);
                    } else if p == l0 {
                        assert(coeffs@[p] == u);
                    } else if p == l0 + 1 {
                        assert(coeffs@[p] == v);
                    } else {
                        assert(coeffs@[p] == w);
                    }
                }
            }
            let g = 1 + skip + num + e;
            let (u2, v2, w2) = advance_powers(x, xi, u, v, w, Ghost(ni), Ghost(g as int));
            u = u2;
            v = v2;
            w = w2;
            e = e + 1;
        }

        coeffs.push(Fe::zero());
        proof {
            assert(coeffs@.len() == q + 2);
        }

        let total = coeffs.len();
        let mut rev: Vec<Fe> = Vec::new();
        let mut m: usize = 0;
        while m < total
            invariant
                0 <= m <= total,
                total == coeffs@.len(),
                rev@.len() == m,
                forall|i: int| 0 <= i < m ==> #[trigger] rev@[i] == coeffs@[total - 1 - i],
            decreases total - m,
        {
            rev.push(coeffs[total - 1 - m]);
            m = m + 1;
        }

        let r = UnstructuredPolynomial::from_coeffs(rev);
        proof {
            assert forall|i: int| 0 <= i < r.coeffs_spec().len() implies #[trigger] r.coeffs_spec()[
                i
            ] == sx_coeff(ni, si, mi, xv, kv, i) by {
                assert(rev@[i] == coeffs@[q + 1 - i]);
                assert(coeffs@[q + 1 - i].val() == sx_push(ni, si, mi, xv, kv, q + 1 - i));
            }
        }
        r
    }
}


impl StageShape {
    /// Converts this stage's window into a committable selector object,
    /// rejecting a stage whose window exceeds the rank's gate budget.
    pub fn into_object(&self, rank: Rank) -> (r: Result<StageObject, Error>)
        ensures
            self.skip + stage_size(self.values as int) + 1 <= rank.n_spec() ==> (r matches Ok(o)
                && o.rank_spec() == rank && o.skip_spec() == self.skip && o.num_spec()
                == stage_size(self.values as int)),
            self.skip + stage_size(self.values as int) + 1 > rank.n_spec() ==> r == Err::<
                StageObject,
                Error,
            >(Error::MultiplicationBoundExceeded(rank.n_spec() as usize)),
    {
        StageObject::new(rank, self.skip, self.size())
    }
}

/// The structured selector is zero on every gate of the active window: gates
/// `skip + 1 ..= skip + size`.
pub proof fn lemma_sy_zero_on_window(n: int, skip: int, size: int, y: int, k: int, j: int)
    requires
        0 <= skip,
        skip < j <= skip + size,
    ensures
        sy_a(n, skip, size, y, k, j) == 0,
        sy_b(n, skip, size, y, k, j) == 0,
        sy_c(n, skip, size, y, k, j) == 0,
{
}

/// Soundness of one stage against its own selector: the structured witness
/// polynomial a stage builds from any witness values has reversed-order dot
/// product zero with the selector of the stage's window, at every evaluation
/// point `y` and challenge `k` — the witness touches only gates the selector
/// leaves free.
///
/// `ra`, `rb`, `rc` are the views of [`crate::staging::StageShape::rx`] for
/// the stage `(skip, values)`; `sa`, `sb`, `sc` are the views of
/// [`StageObject::sy`] for the window `(skip, stage_size(values))`, empty when
/// `y` is zero.
pub proof fn lemma_stage_revdot_zero(
    ra: Seq<int>,
    rb: Seq<int>,
    rc: Seq<int>,
    sa: Seq<int>,
    sb: Seq<int>,
    sc: Seq<int>,
    n: int,
    skip: int,
    values: int,
    y: int,
    k: int,
)
    requires
        0 <= skip,
        0 <= values,
        ra.len() == 1 + skip + stage_size(values),
        rb.len() == ra.len(),
        rc.len() == ra.len(),
        forall|j: int| 0 <= j < 1 + skip ==> #[trigger] ra[j] == 0,
        forall|j: int| 0 <= j < 1 + skip ==> #[trigger] rb[j] == 0,
        forall|j: int| 0 <= j < 1 + skip ==> #[trigger] rc[j] == 0,
        sa.len() == 0 || sa.len() == n,
        sb.len() == sa.len(),
        sc.len() == sa.len(),
        forall|j: int| 0 <= j < sa.len() ==> #[trigger] sa[j] == sy_a(
            n,
            skip,
            stage_size(values),
            y,
            k,
            j,
        ),
        forall|j: int| 0 <= j < sa.len() ==> #[trigger] sb[j] == sy_b(
            n,
            skip,
            stage_size(values),
            y,
            k,
            j,
        ),
        forall|j: int| 0 <= j < sa.len() ==> #[trigger] sc[j] == sy_c(
            n,
            skip,
            stage_size(values),
            y,
            k,
            j,
        ),
    ensures
        crate::poly::revdot_spec(ra, rb, rc, sa, sb, sc) == 0,
{
    let size = stage_size(values);
    let lo = 1 + skip;
    let hi = 1 + skip + size;
    assert(supported_in(ra, lo, hi));
    assert(supported_in(rb, lo, hi));
    assert(supported_in(rc, lo, hi));
    assert forall|j: int| 0 <= j < sa.len() && lo <= j < hi implies #[trigger] sa[j] == 0 by {
        lemma_sy_zero_on_window(n, skip, size, y, k, j);
    }
    assert forall|j: int| 0 <= j < sb.len() && lo <= j < hi implies #[trigger] sb[j] == 0 by {
        lemma_sy_zero_on_window(n, skip, size, y, k, j);
    }
    assert forall|j: int| 0 <= j < sc.len() && lo <= j < hi implies #[trigger] sc[j] == 0 by {
        lemma_sy_zero_on_window(n, skip, size, y, k, j);
    }
    crate::poly::lemma_revdot_zero_of_disjoint(ra, rb, rc, sa, sb, sc, lo, hi);
}

/// Folding safety: combining two witness polynomials of the same stage at a
/// challenge weight `z` — scaling one by `z` and adding the other — yields a
/// polynomial that still touches only the stage's window, so its
/// reversed-order dot product with the window's selector is still zero. More
/// weighted witnesses fold in by repeating the step.
///
/// `r1`/`r2` are views of [`crate::staging::StageShape::rx`] for the stage
/// `(skip, values)`, `f` the views of scaling `r1` by `z` and adding `r2`,
/// and `s` the views of [`StageObject::sy`] as in
/// [`lemma_stage_revdot_zero`].
pub proof fn lemma_fold_revdot_zero(
    r1a: Seq<int>,
    r1b: Seq<int>,
    r1c: Seq<int>,
    r2a: Seq<int>,
    r2b: Seq<int>,
    r2c: Seq<int>,
    fa: Seq<int>,
    fb: Seq<int>,
    fc: Seq<int>,
    sa: Seq<int>,
    sb: Seq<int>,
    sc: Seq<int>,
    n: int,
    skip: int,
    values: int,
    y: int,
    k: int,
    z: int,
)
    requires
        0 <= skip,
        0 <= values,
        r1a.len() == 1 + skip + stage_size(values),
        r1b.len() == r1a.len(),
        r1c.len() == r1a.len(),
        r2a.len() == r1a.len(),
        r2b.len() == r1a.len(),
        r2c.len() == r1a.len(),
        forall|j: int| 0 <= j < 1 + skip ==> #[trigger] r1a[j] == 0,
        forall|j: int| 0 <= j < 1 + skip ==> #[trigger] r1b[j] == 0,
        forall|j: int| 0 <= j < 1 + skip ==> #[trigger] r1c[j] == 0,
        forall|j: int| 0 <= j < 1 + skip ==> #[trigger] r2a[j] == 0,
        forall|j: int| 0 <= j < 1 + skip ==> #[trigger] r2b[j] == 0,
        forall|j: int| 0 <= j < 1 + skip ==> #[trigger] r2c[j] == 0,
        fa.len() == r1a.len(),
        fb.len() == r1a.len(),
        fc.len() == r1a.len(),
        forall|j: int| 0 <= j < fa.len() ==> #[trigger] fa[j] == fadd(
            fmul(r1a[j], z),
            crate::poly::coeff_at(r2a, j),
        ),
        forall|j: int| 0 <= j < fb.len() ==> #[trigger] fb[j] == fadd(
            fmul(r1b[j], z),
            crate::poly::coeff_at(r2b, j),
        ),
        forall|j: int| 0 <= j < fc.len() ==> #[trigger] fc[j] == fadd(
            fmul(r1c[j], z),
            crate::poly::coeff_at(r2c, j),
        ),
        sa.len() == 0 || sa.len() == n,
        sb.len() == sa.len(),
        sc.len() == sa.len(),
        forall|j: int| 0 <= j < sa.len() ==> #[trigger] sa[j] == sy_a(
            n,
            skip,
            stage_size(values),
            y,
            k,
            j,
        ),
        forall|j: int| 0 <= j < sa.len() ==> #[trigger] sb[j] == sy_b(
            n,
            skip,
            stage_size(values),
            y,
            k,
            j,
        ),
        forall|j: int| 0 <= j < sa.len() ==> #[trigger] sc[j] == sy_c(
            n,
            skip,
            stage_size(values),
            y,
            k,
            j,
        ),
    ensures
        crate::poly::revdot_spec(fa, fb, fc, sa, sb, sc) == 0,
{
    let size = stage_size(values);
    let lo = 1 + skip;
    let hi = 1 + skip + size;
    assert forall|j: int| 0 <= j < fa.len() && !(lo <= j < hi) implies #[trigger] fa[j] == 0 by {
        assert(r1a[j] == 0);
        assert(r2a[j] == 0);
        crate::field::lemma_fmul_zero(z);
    }
    assert forall|j: int| 0 <= j < fb.len() && !(lo <= j < hi) implies #[trigger] fb[j] == 0 by {
        assert(r1b[j] == 0);
        assert(r2b[j] == 0);
        crate::field::lemma_fmul_zero(z);
    }
    assert forall|j: int| 0 <= j < fc.len() && !(lo <= j < hi) implies #[trigger] fc[j] == 0 by {
        assert(r1c[j] == 0);
        assert(r2c[j] == 0);
        crate::field::lemma_fmul_zero(z);
    }
    assert forall|j: int| 0 <= j < sa.len() && lo <= j < hi implies #[trigger] sa[j] == 0 by {
        lemma_sy_zero_on_window(n, skip, size, y, k, j);
    }
    assert forall|j: int| 0 <= j < sb.len() && lo <= j < hi implies #[trigger] sb[j] == 0 by {
        lemma_sy_zero_on_window(n, skip, size, y, k, j);
    }
    assert forall|j: int| 0 <= j < sc.len() && lo <= j < hi implies #[trigger] sc[j] == 0 by {
        lemma_sy_zero_on_window(n, skip, size, y, k, j);
    }
    crate::poly::lemma_revdot_zero_of_disjoint(fa, fb, fc, sa, sb, sc, lo, hi);
}


/// The `a` slots of the selector's structured view over all gates.
pub open spec fn sy_a_seq(n: int, skip: int, size: int, y: int, k: int) -> Seq<int> {
    Seq::new(n as nat, |j: int| sy_a(n, skip, size, y, k, j))
}

/// The `b` slots of the selector's structured view over all gates.
pub open spec fn sy_b_seq(n: int, skip: int, size: int, y: int, k: int) -> Seq<int> {
    Seq::new(n as nat, |j: int| sy_b(n, skip, size, y, k, j))
}

/// The `c` slots of the selector's structured view over all gates.
pub open spec fn sy_c_seq(n: int, skip: int, size: int, y: int, k: int) -> Seq<int> {
    Seq::new(n as nat, |j: int| sy_c(n, skip, size, y, k, j))
}

/// The `i`-th geometric-sum step of a block's closed form: the three slot
/// terms the step contributes.
pub open spec fn sxy_block_term(n: int, x: int, xi: int, y: int, e: int, i: int) -> int {
    let y2 = fmul(y, y);
    let y3 = fmul(y, y2);
    let w = fmul(y, fpow(x, (4 * n - 2 - e) as nat));
    let v = fmul(y2, fpow(x, (2 * n + 1 + e) as nat));
    let u = fmul(y3, fpow(x, (2 * n - 2 - e) as nat));
    fadd(
        fadd(
            fmul(w, fpow(fmul(x, y3), i as nat)),
            fmul(v, fpow(fmul(xi, y3), i as nat)),
        ),
        fmul(u, fpow(fmul(x, y3), i as nat)),
    )
}

/// One step of a block: the three slot terms of the next lower gate match
/// the next geometric-sum terms of the block's closed form.
proof fn lemma_block_step(
    n: int,
    skip: int,
    size: int,
    x: int,
    xi: int,
    y: int,
    k: int,
    e: int,
    i: int,
    g: int,
    weight: nat,
)
    requires
        0 <= skip,
        0 <= size,
        skip + size + 1 <= n,
        crate::field::in_field(x),
        crate::field::in_field(y),
        x != 0,
        y != 0,
        fmul(x, xi) == 1,
        1 <= i,
        g == e + 1 - (i - 1),
        1 <= g < n,
        i - 1 <= 2 * n + 1 + e,
        0 <= e <= n - 2,
        sy_a(n, skip, size, y, k, g) == fpow(y, (weight + 3 + 3 * (i - 1)) as nat),
        sy_b(n, skip, size, y, k, g) == fpow(y, (weight + 2 + 3 * (i - 1)) as nat),
        sy_c(n, skip, size, y, k, g) == fpow(y, (weight + 1 + 3 * (i - 1)) as nat),
    ensures
        gate_term(
            sy_a(n, skip, size, y, k, g),
            sy_b(n, skip, size, y, k, g),
            sy_c(n, skip, size, y, k, g),
            x,
            n,
            g,
        ) == fmul(fpow(y, weight), sxy_block_term(n, x, xi, y, e, i - 1)),
{
    let y2 = fmul(y, y);
    let y3 = fmul(y, y2);
    crate::field::lemma_fpow_small(y);
    let ii = (i - 1) as nat;
    let w = fmul(y, fpow(x, (4 * n - 2 - e) as nat));
    let v = fmul(y2, fpow(x, (2 * n + 1 + e) as nat));
    let u = fmul(y3, fpow(x, (2 * n - 2 - e) as nat));
    let bp = fmul(x, y3);
    let bm = fmul(xi, y3);

    // The step powers of the geometric bases, as monomials.
    crate::field::lemma_fpow_distributes(x, y3, ii);
    crate::field::lemma_fpow_distributes(xi, y3, ii);
    crate::field::lemma_fpow_fpow(y, 3, ii);
    crate::field::lemma_fmul_comm(fpow(x, ii), fpow(y3, ii));
    crate::field::lemma_fmul_comm(fpow(xi, ii), fpow(y3, ii));
    assert(fpow(bp, ii) == fmul(fpow(y, (3 * (i - 1)) as nat), fpow(x, ii)));
    assert(fpow(bm, ii) == fmul(fpow(y, (3 * (i - 1)) as nat), fpow(xi, ii)));

    // Collect each slot's exponents.
    crate::field::lemma_mono_mul(y, x, 1, (4 * n - 2 - e) as nat, (3 * (i - 1)) as nat, ii);
    crate::field::lemma_mono_mul_inv(
        y,
        x,
        xi,
        2,
        (2 * n + 1 + e) as nat,
        (3 * (i - 1)) as nat,
        ii,
    );
    crate::field::lemma_mono_mul(y, x, 3, (2 * n - 2 - e) as nat, (3 * (i - 1)) as nat, ii);
    assert(fmul(w, fpow(bp, ii)) == fmul(
        fpow(y, (1 + 3 * (i - 1)) as nat),
        fpow(x, (4 * n - 1 - g) as nat),
    ));
    assert(fmul(v, fpow(bm, ii)) == fmul(
        fpow(y, (2 + 3 * (i - 1)) as nat),
        fpow(x, (2 * n + g) as nat),
    ));
    assert(fmul(u, fpow(bp, ii)) == fmul(
        fpow(y, (3 + 3 * (i - 1)) as nat),
        fpow(x, (2 * n - 1 - g) as nat),
    ));

    // Fold in the weight.
    crate::field::lemma_mono_weight(y, x, weight, (1 + 3 * (i - 1)) as nat, (4 * n - 1 - g) as nat);
    crate::field::lemma_mono_weight(y, x, weight, (2 + 3 * (i - 1)) as nat, (2 * n + g) as nat);
    crate::field::lemma_mono_weight(y, x, weight, (3 + 3 * (i - 1)) as nat, (2 * n - 1 - g) as nat);
    crate::field::lemma_fmul_fadd(
        fpow(y, weight),
        fadd(fmul(w, fpow(bp, ii)), fmul(v, fpow(bm, ii))),
        fmul(u, fpow(bp, ii)),
    );
    crate::field::lemma_fmul_fadd(fpow(y, weight), fmul(w, fpow(bp, ii)), fmul(v, fpow(bm, ii)));

    // Reorder the slots from (c, b, a) to (a, b, c).
    crate::field::lemma_fadd_comm3(
        fmul(fpow(y, (weight + 1 + 3 * (i - 1)) as nat), fpow(x, (4 * n - 1 - g) as nat)),
        fmul(fpow(y, (weight + 2 + 3 * (i - 1)) as nat), fpow(x, (2 * n + g) as nat)),
        fmul(fpow(y, (weight + 3 + 3 * (i - 1)) as nat), fpow(x, (2 * n - 1 - g) as nat)),
    );
}

/// The downward gate-segment sum of an enforced-zero block equals the
/// weighted closed-form block contribution: `hi` is the block's highest
/// gate, `e` its closed-form end index, and every gate of the block carries
/// slot powers descending from `weight` at the bottom.
proof fn lemma_block_segment(
    n: int,
    skip: int,
    size: int,
    x: int,
    xi: int,
    y: int,
    k: int,
    e: int,
    hi: int,
    len: int,
    weight: nat,
    i: int,
)
    requires
        0 <= skip,
        0 <= size,
        skip + size + 1 <= n,
        crate::field::in_field(x),
        crate::field::in_field(y),
        x != 0,
        y != 0,
        fmul(x, xi) == 1,
        len > 0 ==> 0 <= e <= n - 2,
        hi == e + 1,
        len > 0 ==> 1 <= hi < n,
        0 <= i <= len,
        len <= hi || len == 0,
        forall|g: int| hi - len < g <= hi ==> sy_a(n, skip, size, y, k, g) == fpow(
            y,
            (weight + 3 + 3 * (hi - g)) as nat,
        ),
        forall|g: int| hi - len < g <= hi ==> sy_b(n, skip, size, y, k, g) == fpow(
            y,
            (weight + 2 + 3 * (hi - g)) as nat,
        ),
        forall|g: int| hi - len < g <= hi ==> sy_c(n, skip, size, y, k, g) == fpow(
            y,
            (weight + 1 + 3 * (hi - g)) as nat,
        ),
    ensures
        crate::poly::struct_eval_down(
            sy_a_seq(n, skip, size, y, k),
            sy_b_seq(n, skip, size, y, k),
            sy_c_seq(n, skip, size, y, k),
            x,
            n,
            hi,
            i,
        ) == fmul(fpow(y, weight), sxy_block(n, x, xi, y, e, i)),
    decreases i,
{
    let sa = sy_a_seq(n, skip, size, y, k);
    let sb = sy_b_seq(n, skip, size, y, k);
    let sc = sy_c_seq(n, skip, size, y, k);
    if i == 0 {
        lemma_sxy_block_empty(n, x, xi, y, e);
        crate::field::lemma_fmul_zero(fpow(y, weight));
    } else {
        lemma_block_segment(n, skip, size, x, xi, y, k, e, hi, len, weight, i - 1);
        let g = hi - (i - 1);
        let ii = (i - 1) as nat;
        let y2 = fmul(y, y);
        let y3 = fmul(y, y2);
        let w = fmul(y, fpow(x, (4 * n - 2 - e) as nat));
        let v = fmul(y2, fpow(x, (2 * n + 1 + e) as nat));
        let u = fmul(y3, fpow(x, (2 * n - 2 - e) as nat));
        let bp = fmul(x, y3);
        let bm = fmul(xi, y3);
        let plus0 = crate::field::geo(bp, ii);
        let minus0 = crate::field::geo(bm, ii);

        // Unfold the geometric sums one step and distribute.
        assert(crate::field::geo(bp, i as nat) == fadd(plus0, fpow(bp, ii)));
        assert(crate::field::geo(bm, i as nat) == fadd(minus0, fpow(bm, ii)));
        crate::field::lemma_fmul_fadd(w, plus0, fpow(bp, ii));
        crate::field::lemma_fmul_fadd(v, minus0, fpow(bm, ii));
        crate::field::lemma_fmul_fadd(u, plus0, fpow(bp, ii));
        crate::field::lemma_fadd_shuffle6(
            fmul(w, plus0),
            fmul(w, fpow(bp, ii)),
            fmul(v, minus0),
            fmul(v, fpow(bm, ii)),
            fmul(u, plus0),
            fmul(u, fpow(bp, ii)),
        );
        let delta = fadd(
            fadd(fmul(w, fpow(bp, ii)), fmul(v, fpow(bm, ii))),
            fmul(u, fpow(bp, ii)),
        );
        assert(sxy_block(n, x, xi, y, e, i) == fadd(sxy_block(n, x, xi, y, e, i - 1), delta));
        crate::field::lemma_fmul_fadd(fpow(y, weight), sxy_block(n, x, xi, y, e, i - 1), delta);

        // The new term is exactly gate `g`'s contribution.
        assert(sy_a(n, skip, size, y, k, g) == fpow(y, (weight + 3 + 3 * (i - 1)) as nat));
        assert(sy_b(n, skip, size, y, k, g) == fpow(y, (weight + 2 + 3 * (i - 1)) as nat));
        assert(sy_c(n, skip, size, y, k, g) == fpow(y, (weight + 1 + 3 * (i - 1)) as nat));
        lemma_block_step(n, skip, size, x, xi, y, k, e, i, g, weight);
        assert(crate::poly::coeff_at(sa, g) == sy_a(n, skip, size, y, k, g));
        assert(crate::poly::coeff_at(sb, g) == sy_b(n, skip, size, y, k, g));
        assert(crate::poly::coeff_at(sc, g) == sy_c(n, skip, size, y, k, g));
    }
}



/// The downward gate sum of the reserved suffix equals the closed-form block
/// covering it.
proof fn lemma_reserved_down(n: int, skip: int, size: int, x: int, xi: int, y: int, k: int)
    requires
        0 <= skip,
        0 <= size,
        skip + size + 1 <= n,
        crate::field::in_field(x),
        crate::field::in_field(y),
        x != 0,
        y != 0,
        fmul(x, xi) == 1,
    ensures
        crate::poly::struct_eval_down(
            sy_a_seq(n, skip, size, y, k),
            sy_b_seq(n, skip, size, y, k),
            sy_c_seq(n, skip, size, y, k),
            x,
            n,
            n - 1,
            n - skip - size - 1,
        ) == sxy_block(n, x, xi, y, n - 2, n - skip - size - 1),
{
    let reserved = n - skip - size - 1;
    let q = sel_q(n, size);
    assert forall|g: int| (n - 1) - reserved < g <= n - 1 implies sy_a(n, skip, size, y, k, g)
        == fpow(y, (0 + 3 + 3 * ((n - 1) - g)) as nat) && sy_b(n, skip, size, y, k, g) == fpow(
        y,
        (0 + 2 + 3 * ((n - 1) - g)) as nat,
    ) && sy_c(n, skip, size, y, k, g) == fpow(y, (0 + 1 + 3 * ((n - 1) - g)) as nat) by {
        assert(g > skip + size);
        assert(q + 3 * size - 3 * g + 3 == 3 + 3 * ((n - 1) - g));
    }
    lemma_block_segment(n, skip, size, x, xi, y, k, n - 2, n - 1, reserved, 0, reserved);
    crate::field::lemma_fpow_zero(y);
    lemma_sxy_block_in_field(n, x, xi, y, n - 2, reserved);
    crate::field::lemma_fmul_one(sxy_block(n, x, xi, y, n - 2, reserved));
}

/// The downward gate sum of the skipped prefix equals the closed-form block
/// covering it, weighted to sit above the reserved suffix's powers.
proof fn lemma_skip_down(n: int, skip: int, size: int, x: int, xi: int, y: int, k: int)
    requires
        0 <= skip,
        0 <= size,
        skip + size + 1 <= n,
        crate::field::in_field(x),
        crate::field::in_field(y),
        x != 0,
        y != 0,
        fmul(x, xi) == 1,
    ensures
        crate::poly::struct_eval_down(
            sy_a_seq(n, skip, size, y, k),
            sy_b_seq(n, skip, size, y, k),
            sy_c_seq(n, skip, size, y, k),
            x,
            n,
            skip,
            skip,
        ) == fmul(
            fpow(y, (3 * (n - skip - size - 1)) as nat),
            sxy_block(n, x, xi, y, skip - 1, skip),
        ),
{
    let reserved = n - skip - size - 1;
    let q = sel_q(n, size);
    assert forall|g: int| skip - skip < g <= skip implies sy_a(n, skip, size, y, k, g) == fpow(
        y,
        (3 * reserved + 3 + 3 * (skip - g)) as nat,
    ) && sy_b(n, skip, size, y, k, g) == fpow(y, (3 * reserved + 2 + 3 * (skip - g)) as nat)
        && sy_c(n, skip, size, y, k, g) == fpow(y, (3 * reserved + 1 + 3 * (skip - g)) as nat) by {
        assert(q - 3 * g + 3 == 3 * reserved + 3 + 3 * (skip - g));
    }
    lemma_block_segment(
        n,
        skip,
        size,
        x,
        xi,
        y,
        k,
        skip - 1,
        skip,
        skip,
        (3 * reserved) as nat,
        skip,
    );
}

/// The placeholder gate's structured triple contributes exactly the
/// placeholder term of the closed form.
proof fn lemma_placeholder_gate(n: int, skip: int, size: int, x: int, y: int, k: int)
    requires
        0 <= skip,
        0 <= size,
        skip + size + 1 <= n,
    ensures
        gate_term(
            sy_a(n, skip, size, y, k, 0),
            sy_b(n, skip, size, y, k, 0),
            sy_c(n, skip, size, y, k, 0),
            x,
            n,
            0,
        ) == fmul(
            fpow(y, (sel_q(n, size) + 1) as nat),
            fsub(fpow(x, (2 * n - 1) as nat), fmul(k, fpow(x, (4 * n - 1) as nat))),
        ),
{
    let yq = fpow(y, (sel_q(n, size) + 1) as nat);
    let x1 = fpow(x, (2 * n - 1) as nat);
    let xb = fpow(x, (2 * n) as nat);
    let x2 = fpow(x, (4 * n - 1) as nat);
    crate::field::lemma_fmul_zero(xb);
    crate::field::lemma_ops_in_field(yq, x1);
    crate::field::lemma_fadd_zero(fmul(yq, x1));
    crate::field::lemma_fmul_fneg(k, yq);
    crate::field::lemma_fmul_fneg(fmul(k, yq), x2);
    crate::field::lemma_fadd_fneg(fmul(yq, x1), fmul(fmul(k, yq), x2));
    crate::field::lemma_fmul_fsub(yq, x1, fmul(k, x2));
    crate::field::lemma_fmul_comm(k, yq);
    crate::field::lemma_fmul_assoc(yq, k, x2);
}

/// The selector's structured and closed-form views agree: evaluating the
/// structured view at `x` gives exactly `sxy(x, y, k)`, for every window and
/// all `x`, `y`, `k` in the field, including `x = 0` and `y = 0`.
pub proof fn lemma_selector_transpose(n: int, skip: int, size: int, x: int, y: int, k: int)
    requires
        0 <= skip,
        0 <= size,
        skip + size + 1 <= n,
        crate::field::in_field(x),
        crate::field::in_field(y),
        crate::field::in_field(k),
    ensures
        crate::poly::struct_eval_prefix(
            sy_a_seq(n, skip, size, y, k),
            sy_b_seq(n, skip, size, y, k),
            sy_c_seq(n, skip, size, y, k),
            x,
            n,
            n,
        ) == sxy_spec(n, skip, size, x, y, k),
{
    let sa = sy_a_seq(n, skip, size, y, k);
    let sb = sy_b_seq(n, skip, size, y, k);
    let sc = sy_c_seq(n, skip, size, y, k);
    let reserved = n - skip - size - 1;
    let q = sel_q(n, size);

    if y == 0 {
        assert forall|g: int| 0 <= g < n implies crate::poly::coeff_at(sa, g) == 0
            && crate::poly::coeff_at(sb, g) == 0 && crate::poly::coeff_at(sc, g) == 0 by {
            if g == 0 {
                crate::field::lemma_fpow_zero_base((q + 1) as nat);
                crate::field::lemma_fmul_zero(crate::field::fneg(k));
            } else if g <= skip {
                crate::field::lemma_fpow_zero_base((q - 3 * g + 3) as nat);
                crate::field::lemma_fpow_zero_base((q - 3 * g + 2) as nat);
                crate::field::lemma_fpow_zero_base((q - 3 * g + 1) as nat);
            } else if g <= skip + size {
            } else {
                crate::field::lemma_fpow_zero_base((q + 3 * size - 3 * g + 3) as nat);
                crate::field::lemma_fpow_zero_base((q + 3 * size - 3 * g + 2) as nat);
                crate::field::lemma_fpow_zero_base((q + 3 * size - 3 * g + 1) as nat);
            }
        }
        crate::poly::lemma_prefix_zero_segment(sa, sb, sc, x, n, 0, n);
    } else if x == 0 {
        crate::poly::lemma_prefix_zero_x(sa, sb, sc, n, n);
    } else {
        let xi = crate::field::finv(x);
        crate::field::lemma_finv(x);

        // The reserved suffix, gates skip + size + 1 ..= n - 1.
        lemma_reserved_down(n, skip, size, x, xi, y, k);
        crate::poly::lemma_prefix_extends_down(sa, sb, sc, x, n, n - 1, reserved);

        // The active window contributes nothing.
        assert forall|g: int| skip + 1 <= g < skip + size + 1 implies crate::poly::coeff_at(sa, g)
            == 0 && crate::poly::coeff_at(sb, g) == 0 && crate::poly::coeff_at(sc, g) == 0 by {
            lemma_sy_zero_on_window(n, skip, size, y, k, g);
        }
        crate::poly::lemma_prefix_zero_segment(sa, sb, sc, x, n, skip + 1, skip + size + 1);

        // The skipped prefix, gates 1 ..= skip.
        lemma_skip_down(n, skip, size, x, xi, y, k);
        crate::poly::lemma_prefix_extends_down(sa, sb, sc, x, n, skip, skip);

        // The placeholder gate.
        let t0 = gate_term(
            crate::poly::coeff_at(sa, 0),
            crate::poly::coeff_at(sb, 0),
            crate::poly::coeff_at(sc, 0),
            x,
            n,
            0,
        );
        assert(crate::poly::struct_eval_prefix(sa, sb, sc, x, n, 0) == 0);
        assert(crate::poly::struct_eval_prefix(sa, sb, sc, x, n, 1) == fadd(0, t0));
        crate::poly::lemma_struct_eval_prefix_in_field(sa, sb, sc, x, n, 1);
        assert(fadd(0, t0) == t0 % crate::field::modulus()) by {
            vstd::arithmetic::div_mod::lemma_mod_twice(t0, crate::field::modulus());
        }
        crate::field::lemma_ops_in_field(
            fadd(
                fmul(crate::poly::coeff_at(sa, 0), fpow(x, (2 * n - 1) as nat)),
                fmul(crate::poly::coeff_at(sb, 0), fpow(x, (2 * n) as nat)),
            ),
            fmul(crate::poly::coeff_at(sc, 0), fpow(x, (4 * n - 1) as nat)),
        );
        crate::field::lemma_residue(t0);
        lemma_placeholder_gate(n, skip, size, x, y, k);

        // Assemble the three regions.
        let placeholder = fmul(
            fpow(y, (q + 1) as nat),
            fsub(fpow(x, (2 * n - 1) as nat), fmul(k, fpow(x, (4 * n - 1) as nat))),
        );
        let c2 = sxy_block(n, x, xi, y, n - 2, reserved);
        let down_res = crate::poly::struct_eval_down(sa, sb, sc, x, n, n - 1, reserved);
        let down_skip = crate::poly::struct_eval_down(sa, sb, sc, x, n, skip, skip);
        assert(down_res == c2);

        if skip > 0 {
            assert(down_skip == fmul(
                fpow(y, (3 * reserved) as nat),
                sxy_block(n, x, xi, y, skip - 1, skip),
            ));
        } else {
            lemma_sxy_block_empty(n, x, xi, y, skip - 1);
            crate::field::lemma_fmul_zero(fpow(y, (3 * reserved) as nat));
            assert(down_skip == 0);
        }
        assert(crate::poly::struct_eval_prefix(sa, sb, sc, x, n, n) == fadd(
            fadd(placeholder, down_skip),
            down_res,
        ));
    }
}


/// The flat coefficients of the selector, the coefficient of `y^m` at
/// index `m`.
pub open spec fn sx_coeff_seq(n: int, skip: int, size: int, x: int, k: int) -> Seq<int> {
    Seq::new((sel_q(n, size) + 2) as nat, |m: int| sx_coeff(n, skip, size, x, k, m))
}

/// A block's closed-form contribution is a residue.
proof fn lemma_sxy_block_in_field(n: int, x: int, xi: int, y: int, e: int, len: int)
    ensures
        crate::field::in_field(sxy_block(n, x, xi, y, e, len)),
{
    let y2 = fmul(y, y);
    let y3 = fmul(y, y2);
    let w = fmul(y, fpow(x, (4 * n - 2 - e) as nat));
    let v = fmul(y2, fpow(x, (2 * n + 1 + e) as nat));
    let u = fmul(y3, fpow(x, (2 * n - 2 - e) as nat));
    let plus = crate::field::geo(fmul(x, y3), len as nat);
    let minus = crate::field::geo(fmul(xi, y3), len as nat);
    crate::field::lemma_ops_in_field(fadd(fmul(w, plus), fmul(v, minus)), fmul(u, plus));
}

/// The monomial sum of the selector's lowest flat coefficients matches the
/// downward gate sum of the reserved suffix: the enforced-zero constant term,
/// then three recorded slots for each reserved gate, highest gate first.
#[verifier::rlimit(60)]
proof fn lemma_flat_reserved(n: int, skip: int, size: int, x: int, y: int, k: int, t: int)
    requires
        0 <= skip,
        0 <= size,
        skip + size + 1 <= n,
        0 <= t <= n - skip - size - 1,
    ensures
        crate::poly::monomial_sum(sx_coeff_seq(n, skip, size, x, k), y, 0, 1 + 3 * t)
            == crate::poly::struct_eval_down(
            sy_a_seq(n, skip, size, y, k),
            sy_b_seq(n, skip, size, y, k),
            sy_c_seq(n, skip, size, y, k),
            x,
            n,
            n - 1,
            t,
        ),
    decreases t,
{
    let sxs = sx_coeff_seq(n, skip, size, x, k);
    let sa = sy_a_seq(n, skip, size, y, k);
    let sb = sy_b_seq(n, skip, size, y, k);
    let sc = sy_c_seq(n, skip, size, y, k);
    let q = sel_q(n, size);
    let res = n - skip - size - 1;
    if t == 0 {
        assert(crate::poly::coeff_at(sxs, 0) == sx_coeff(n, skip, size, x, k, 0));
        assert(sx_coeff(n, skip, size, x, k, 0) == 0);
        crate::field::lemma_fmul_zero(fpow(y, 0));
        assert(crate::poly::monomial_sum(sxs, y, 0, 0) == 0);
    } else {
        lemma_flat_reserved(n, skip, size, x, y, k, t - 1);
        let g = n - t;
        let u = res - t;
        let m_c = 3 * t - 2;
        let m_b = 3 * t - 1;
        let m_a = 3 * t;

        // Resolve the three recorded slots.
        assert(q + 1 - m_a == 3 * skip + 3 * u + 1);
        assert(q + 1 - m_b == 3 * skip + 3 * u + 2);
        assert(q + 1 - m_c == 3 * skip + 3 * u + 3);
        assert((3 * u + 1 - 1) / 3 == u && (3 * u + 1 - 1) % 3 == 0);
        assert((3 * u + 2 - 1) / 3 == u && (3 * u + 2 - 1) % 3 == 1);
        assert((3 * u + 3 - 1) / 3 == u && (3 * u + 3 - 1) % 3 == 2);
        assert(1 + skip + size + u == g);
        assert(crate::poly::coeff_at(sxs, m_a) == fpow(x, (2 * n - 1 - g) as nat));
        assert(crate::poly::coeff_at(sxs, m_b) == fpow(x, (2 * n + g) as nat));
        assert(crate::poly::coeff_at(sxs, m_c) == fpow(x, (4 * n - 1 - g) as nat));

        // The matching structured slots of gate `g`.
        assert(q + 3 * size - 3 * g + 3 == m_a);
        assert(crate::poly::coeff_at(sa, g) == fpow(y, m_a as nat));
        assert(crate::poly::coeff_at(sb, g) == fpow(y, m_b as nat));
        assert(crate::poly::coeff_at(sc, g) == fpow(y, m_c as nat));
        crate::field::lemma_fmul_comm(fpow(x, (2 * n - 1 - g) as nat), fpow(y, m_a as nat));
        crate::field::lemma_fmul_comm(fpow(x, (2 * n + g) as nat), fpow(y, m_b as nat));
        crate::field::lemma_fmul_comm(fpow(x, (4 * n - 1 - g) as nat), fpow(y, m_c as nat));

        // Fold the three flat terms into one gate's triple.
        crate::field::lemma_fadd_fold3(
            crate::poly::monomial_sum(sxs, y, 0, 1 + 3 * (t - 1)),
            fmul(crate::poly::coeff_at(sa, g), fpow(x, (2 * n - 1 - g) as nat)),
            fmul(crate::poly::coeff_at(sb, g), fpow(x, (2 * n + g) as nat)),
            fmul(crate::poly::coeff_at(sc, g), fpow(x, (4 * n - 1 - g) as nat)),
        );
        assert(crate::poly::monomial_sum(sxs, y, 0, m_c + 1) == fadd(
            crate::poly::monomial_sum(sxs, y, 0, m_c),
            fmul(crate::poly::coeff_at(sxs, m_c), fpow(y, m_c as nat)),
        ));
        assert(crate::poly::monomial_sum(sxs, y, 0, m_b + 1) == fadd(
            crate::poly::monomial_sum(sxs, y, 0, m_b),
            fmul(crate::poly::coeff_at(sxs, m_b), fpow(y, m_b as nat)),
        ));
        assert(crate::poly::monomial_sum(sxs, y, 0, m_a + 1) == fadd(
            crate::poly::monomial_sum(sxs, y, 0, m_a),
            fmul(crate::poly::coeff_at(sxs, m_a), fpow(y, m_a as nat)),
        ));
    }
}

/// The monomial segment of the selector's flat coefficients above the
/// reserved suffix matches the downward gate sum of the skipped prefix.
#[verifier::rlimit(60)]
proof fn lemma_flat_skip(n: int, skip: int, size: int, x: int, y: int, k: int, t: int)
    requires
        0 <= skip,
        0 <= size,
        skip + size + 1 <= n,
        0 <= t <= skip,
    ensures
        crate::poly::monomial_seg(
            sx_coeff_seq(n, skip, size, x, k),
            y,
            1 + 3 * (n - skip - size - 1),
            3 * t,
        ) == crate::poly::struct_eval_down(
            sy_a_seq(n, skip, size, y, k),
            sy_b_seq(n, skip, size, y, k),
            sy_c_seq(n, skip, size, y, k),
            x,
            n,
            skip,
            t,
        ),
    decreases t,
{
    let sxs = sx_coeff_seq(n, skip, size, x, k);
    let sa = sy_a_seq(n, skip, size, y, k);
    let sb = sy_b_seq(n, skip, size, y, k);
    let sc = sy_c_seq(n, skip, size, y, k);
    let q = sel_q(n, size);
    let res = n - skip - size - 1;
    let lo = 1 + 3 * res;
    if t > 0 {
        lemma_flat_skip(n, skip, size, x, y, k, t - 1);
        let g = skip - t + 1;
        let m_c = lo + 3 * (t - 1);
        let m_b = m_c + 1;
        let m_a = m_c + 2;

        // Resolve the three recorded slots.
        assert(q + 1 - m_a == 3 * (g - 1) + 1);
        assert(q + 1 - m_b == 3 * (g - 1) + 2);
        assert(q + 1 - m_c == 3 * (g - 1) + 3);
        assert((3 * (g - 1) + 1 - 1) / 3 == g - 1 && (3 * (g - 1) + 1 - 1) % 3 == 0);
        assert((3 * (g - 1) + 2 - 1) / 3 == g - 1 && (3 * (g - 1) + 2 - 1) % 3 == 1);
        assert((3 * (g - 1) + 3 - 1) / 3 == g - 1 && (3 * (g - 1) + 3 - 1) % 3 == 2);
        assert(crate::poly::coeff_at(sxs, m_a) == fpow(x, (2 * n - 1 - g) as nat));
        assert(crate::poly::coeff_at(sxs, m_b) == fpow(x, (2 * n + g) as nat));
        assert(crate::poly::coeff_at(sxs, m_c) == fpow(x, (4 * n - 1 - g) as nat));

        // The matching structured slots of gate `g`.
        assert(q - 3 * g + 3 == m_a);
        assert(crate::poly::coeff_at(sa, g) == fpow(y, m_a as nat));
        assert(crate::poly::coeff_at(sb, g) == fpow(y, m_b as nat));
        assert(crate::poly::coeff_at(sc, g) == fpow(y, m_c as nat));
        crate::field::lemma_fmul_comm(fpow(x, (2 * n - 1 - g) as nat), fpow(y, m_a as nat));
        crate::field::lemma_fmul_comm(fpow(x, (2 * n + g) as nat), fpow(y, m_b as nat));
        crate::field::lemma_fmul_comm(fpow(x, (4 * n - 1 - g) as nat), fpow(y, m_c as nat));

        // Fold the three flat terms into one gate's triple.
        crate::field::lemma_fadd_fold3(
            crate::poly::monomial_seg(sxs, y, lo, 3 * (t - 1)),
            fmul(crate::poly::coeff_at(sa, g), fpow(x, (2 * n - 1 - g) as nat)),
            fmul(crate::poly::coeff_at(sb, g), fpow(x, (2 * n + g) as nat)),
            fmul(crate::poly::coeff_at(sc, g), fpow(x, (4 * n - 1 - g) as nat)),
        );
        assert(crate::poly::monomial_seg(sxs, y, lo, 3 * (t - 1) + 1) == fadd(
            crate::poly::monomial_seg(sxs, y, lo, 3 * (t - 1)),
            fmul(crate::poly::coeff_at(sxs, m_c), fpow(y, m_c as nat)),
        ));
        assert(crate::poly::monomial_seg(sxs, y, lo, 3 * (t - 1) + 2) == fadd(
            crate::poly::monomial_seg(sxs, y, lo, 3 * (t - 1) + 1),
            fmul(crate::poly::coeff_at(sxs, m_b), fpow(y, m_b as nat)),
        ));
        assert(crate::poly::monomial_seg(sxs, y, lo, 3 * t) == fadd(
            crate::poly::monomial_seg(sxs, y, lo, 3 * (t - 1) + 2),
            fmul(crate::poly::coeff_at(sxs, m_a), fpow(y, m_a as nat)),
        ));
    }
}


/// All three selector entry points agree, for every valid window and all
/// field points `x`, `y` and challenges `k`, including `x = 0` and `y = 0`:
/// the flat view evaluated at `y` and the structured view evaluated at `x`
/// both give the closed form `sxy(x, y, k)`.
pub proof fn lemma_selector_entry_points_agree(
    n: int,
    skip: int,
    size: int,
    x: int,
    y: int,
    k: int,
)
    requires
        0 <= skip,
        0 <= size,
        skip + size + 1 <= n,
        crate::field::in_field(x),
        crate::field::in_field(y),
        crate::field::in_field(k),
    ensures
        crate::poly::poly_eval(sx_coeff_seq(n, skip, size, x, k), y) == sxy_spec(
            n,
            skip,
            size,
            x,
            y,
            k,
        ),
        crate::poly::struct_eval_prefix(
            sy_a_seq(n, skip, size, y, k),
            sy_b_seq(n, skip, size, y, k),
            sy_c_seq(n, skip, size, y, k),
            x,
            n,
            n,
        ) == sxy_spec(n, skip, size, x, y, k),
{
    lemma_selector_transpose(n, skip, size, x, y, k);

    let sxs = sx_coeff_seq(n, skip, size, x, k);
    let q = sel_q(n, size);
    let reserved = n - skip - size - 1;

    // Horner evaluation is the monomial sum over all coefficients.
    crate::poly::lemma_poly_eval_is_monomial_sum(sxs, y, 0);
    crate::field::lemma_fpow_zero(y);
    crate::poly::lemma_poly_eval_in_field(sxs, y);
    crate::field::lemma_fmul_one(crate::poly::poly_eval(sxs, y));
    assert(crate::poly::poly_eval(sxs, y) == crate::poly::monomial_sum(sxs, y, 0, q + 2));

    if x == 0 {
        assert forall|m: int| 0 <= m < q + 2 implies crate::poly::coeff_at(sxs, m) == 0 by {
            let p = q + 1 - m;
            if p == 0 {
                crate::field::lemma_fpow_zero_base((2 * n - 1) as nat);
                crate::field::lemma_fpow_zero_base((4 * n - 1) as nat);
                crate::field::lemma_fmul_zero(k);
            } else if p <= 3 * skip {
                let g = 1 + (p - 1) / 3;
                vstd::arithmetic::div_mod::lemma_div_is_ordered(p - 1, 3 * skip - 1, 3);
                vstd::arithmetic::div_mod::lemma_fundamental_div_mod_converse(
                    3 * skip - 1,
                    3,
                    skip - 1,
                    2,
                );
                vstd::arithmetic::div_mod::lemma_div_pos_is_pos(p - 1, 3);
                assert(1 <= g <= skip);
                crate::field::lemma_fpow_zero_base((2 * n - 1 - g) as nat);
                crate::field::lemma_fpow_zero_base((2 * n + g) as nat);
                crate::field::lemma_fpow_zero_base((4 * n - 1 - g) as nat);
            } else if p <= q {
                let g = 1 + skip + size + (p - 1 - 3 * skip) / 3;
                vstd::arithmetic::div_mod::lemma_div_is_ordered(
                    p - 1 - 3 * skip,
                    3 * reserved - 1,
                    3,
                );
                vstd::arithmetic::div_mod::lemma_fundamental_div_mod_converse(
                    3 * reserved - 1,
                    3,
                    reserved - 1,
                    2,
                );
                vstd::arithmetic::div_mod::lemma_div_pos_is_pos(p - 1 - 3 * skip, 3);
                assert(1 <= g <= n - 1);
                crate::field::lemma_fpow_zero_base((2 * n - 1 - g) as nat);
                crate::field::lemma_fpow_zero_base((2 * n + g) as nat);
                crate::field::lemma_fpow_zero_base((4 * n - 1 - g) as nat);
            }
        }
        crate::poly::lemma_monomial_sum_zero_coeffs(sxs, y, q + 2);
    } else if y == 0 {
        assert(crate::poly::coeff_at(sxs, 0) == 0);
        crate::poly::lemma_monomial_sum_zero_point(sxs, q + 2);
    } else {
        let xi = crate::field::finv(x);
        crate::field::lemma_finv(x);

        // The two recorded regions, from the flat side and the structured
        // side.
        lemma_flat_reserved(n, skip, size, x, y, k, reserved);
        lemma_flat_skip(n, skip, size, x, y, k, skip);
        lemma_reserved_down(n, skip, size, x, xi, y, k);
        lemma_skip_down(n, skip, size, x, xi, y, k);
        crate::poly::lemma_monomial_sum_split(sxs, y, 1 + 3 * reserved, 3 * skip);
        assert(1 + 3 * reserved + 3 * skip == q + 1);

        // The placeholder coefficient tops the flat view.
        assert(crate::poly::monomial_sum(sxs, y, 0, q + 2) == fadd(
            crate::poly::monomial_sum(sxs, y, 0, q + 1),
            fmul(crate::poly::coeff_at(sxs, q + 1), fpow(y, (q + 1) as nat)),
        ));
        assert(crate::poly::coeff_at(sxs, q + 1) == fsub(
            fpow(x, (2 * n - 1) as nat),
            fmul(k, fpow(x, (4 * n - 1) as nat)),
        ));
        crate::field::lemma_fmul_comm(
            crate::poly::coeff_at(sxs, q + 1),
            fpow(y, (q + 1) as nat),
        );

        let placeholder = fmul(
            fpow(y, (q + 1) as nat),
            fsub(fpow(x, (2 * n - 1) as nat), fmul(k, fpow(x, (4 * n - 1) as nat))),
        );
        let c2 = sxy_block(n, x, xi, y, n - 2, reserved);
        let ds = fmul(fpow(y, (3 * reserved) as nat), sxy_block(n, x, xi, y, skip - 1, skip));
        if skip == 0 {
            lemma_sxy_block_empty(n, x, xi, y, skip - 1);
        }
        crate::field::lemma_fadd_comm3(c2, ds, placeholder);
    }
}


impl StageShape {
    /// Computes this stage's own-window revdot claim: the witness polynomial
    /// built from `values`, dotted in reversed order with the selector of the
    /// stage's window. The claim is zero for every witness, every evaluation
    /// point and every challenge — the stage touches only gates its selector
    /// leaves free.
    pub fn own_claim(&self, rank: Rank, values: &Vec<Fe>, y: Fe, k: Fe) -> (r: Fe)
        requires
            values@.len() == self.values,
            self.skip + stage_size(self.values as int) + 1 <= rank.n_spec(),
        ensures
            r.val() == 0,
    {
        let rx = self.rx(values);
        let object = match self.into_object(rank) {
            Ok(o) => o,
            Err(_) => {
                proof {
                    assert(false);
                }
                return Fe::zero();
            },
        };
        let sy = object.sy(y, k);
        let r = rx.revdot(&sy);
        proof {
            lemma_stage_revdot_zero(
                rx.av(),
                rx.bv(),
                rx.cv(),
                sy.av(),
                sy.bv(),
                sy.cv(),
                rank.n_spec(),
                self.skip as int,
                self.values as int,
                y.val(),
                k.val(),
            );
        }
        r
    }
}

} // verus!
