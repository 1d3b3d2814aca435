//! Reusable gadget components over the emulation drivers.
//!
//! An [`Element`] is the basic gadget: one wire together with the (possibly
//! erased) field value it stands for. [`Ky`] evaluates a polynomial `k(Y)` at
//! a point by Horner's method, streamed through the [`Buffer`] interface.
//! [`compute_c`] folds a matrix of revdot claims into a single claim, the
//! diagonal holding the claimed values and the off-diagonal entries the error
//! terms of the folding.

use vstd::prelude::*;

use crate::drivers::{Emulator, LinearCombination, MaybeValue, MaybeWired};
use crate::field::{fadd, finv, fmul, fpow, Fe};
use crate::Error;

verus! {

/// A gadget holding one wire and the value it stands for, the value present
/// exactly when the ambient execution carries a witness.
#[derive(Clone, Copy, Debug)]
pub struct Element {
    wire: MaybeWired,
    value: MaybeValue,
}

impl Element {
    /// The residue this element stands for, if present.
    pub closed spec fn value_spec(self) -> Option<int> {
        self.value.spec_value()
    }

    /// Allocates one wire for the given value.
    pub fn allocate(dr: &mut Emulator, v: MaybeValue) -> (r: Element)
        requires
            old(dr).allocations() < u64::MAX,
        ensures
            final(dr).allocations() == old(dr).allocations() + 1,
            final(dr).multiplications() == old(dr).multiplications(),
            final(dr).is_wired() == old(dr).is_wired(),
            final(dr).kind() == old(dr).kind(),
            r.value_spec() == v.spec_value(),
    {
        let wire = dr.allocate(v);
        Element { wire, value: v }
    }

    /// An element bound to a fixed value, with no allocation cost. The value
    /// is retained only when a witness is present.
    pub fn constant(dr: &mut Emulator, v: Fe) -> (r: Element)
        ensures
            *final(dr) == *old(dr),
            r.value_spec() == if old(dr).kind() == crate::drivers::MaybeKind::Always {
                Some(v.val())
            } else {
                None::<int>
            },
    {
        let wire = dr.constant(v);
        let value = if dr.has_witness() {
            MaybeValue::Known(v)
        } else {
            MaybeValue::Absent
        };
        Element { wire, value }
    }

    /// The additive identity as an element.
    pub fn zero(dr: &mut Emulator) -> (r: Element)
        ensures
            *final(dr) == *old(dr),
            r.value_spec() == if old(dr).kind() == crate::drivers::MaybeKind::Always {
                Some(0int)
            } else {
                None::<int>
            },
    {
        Element::constant(dr, Fe::zero())
    }

    /// The constant-one wire as an element.
    pub fn one() -> (r: Element)
        ensures
            r.value_spec() == Some(1int),
    {
        Element { wire: MaybeWired::One, value: MaybeValue::Known(Fe::one()) }
    }

    /// The value this element stands for.
    pub fn value(&self) -> (r: MaybeValue)
        ensures
            r.spec_value() == self.value_spec(),
    {
        self.value
    }

    /// Multiplies two elements, consuming one multiplication gate.
    pub fn mul(&self, dr: &mut Emulator, other: &Element) -> (r: Element)
        requires
            old(dr).multiplications() < u64::MAX,
        ensures
            final(dr).multiplications() == old(dr).multiplications() + 1,
            final(dr).allocations() == old(dr).allocations(),
            final(dr).is_wired() == old(dr).is_wired(),
            final(dr).kind() == old(dr).kind(),
            r.value_spec() == match (self.value_spec(), other.value_spec()) {
                (Some(a), Some(b)) => Some(fmul(a, b)),
                _ => None::<int>,
            },
    {
        let v = match (self.value, other.value) {
            (MaybeValue::Known(a), MaybeValue::Known(b)) => MaybeValue::Known(a.mul(b)),
            _ => MaybeValue::Absent,
        };
        let (_wa, _wb, wc) = dr.mul((self.value, other.value, v));
        Element { wire: wc, value: v }
    }

    /// Squares this element, consuming one multiplication gate.
    pub fn square(&self, dr: &mut Emulator) -> (r: Element)
        requires
            old(dr).multiplications() < u64::MAX,
        ensures
            final(dr).multiplications() == old(dr).multiplications() + 1,
            final(dr).allocations() == old(dr).allocations(),
            final(dr).is_wired() == old(dr).is_wired(),
            final(dr).kind() == old(dr).kind(),
            r.value_spec() == match self.value_spec() {
                Some(a) => Some(fmul(a, a)),
                _ => None::<int>,
            },
    {
        self.mul(dr, self)
    }

    /// Adds two elements as a linear combination: no multiplication gate is
    /// consumed.
    pub fn add(&self, dr: &mut Emulator, other: &Element) -> (r: Element)
        ensures
            *final(dr) == *old(dr),
            r.value_spec() == match (self.value_spec(), other.value_spec()) {
                (Some(a), Some(b)) => Some(fadd(a, b)),
                _ => None::<int>,
            },
    {
        let lc = LinearCombination::new().add(&self.wire).add(&other.wire);
        let wire = dr.add(&lc);
        let value = match (self.value, other.value) {
            (MaybeValue::Known(a), MaybeValue::Known(b)) => MaybeValue::Known(a.add(b)),
            _ => MaybeValue::Absent,
        };
        Element { wire, value }
    }

    /// The multiplicative inverse of this element, witnessed through one
    /// multiplication gate.
    pub fn invert(&self, dr: &mut Emulator) -> (r: Element)
        requires
            old(dr).multiplications() < u64::MAX,
            self.value_spec() is Some ==> self.value_spec().unwrap() != 0,
        ensures
            final(dr).multiplications() == old(dr).multiplications() + 1,
            final(dr).allocations() == old(dr).allocations(),
            final(dr).is_wired() == old(dr).is_wired(),
            final(dr).kind() == old(dr).kind(),
            r.value_spec() == match self.value_spec() {
                Some(a) => Some(finv(a)),
                _ => None::<int>,
            },
            self.value_spec() matches Some(a) ==> crate::field::in_field(finv(a)) && fmul(
                a,
                finv(a),
            ) == 1,
    {
        match self.value {
            MaybeValue::Known(v) => {
                let iv = v.invert();
                let (_wa, wb, _wc) = dr.mul(
                    (MaybeValue::Known(v), MaybeValue::Known(iv), MaybeValue::Known(Fe::one())),
                );
                Element { wire: wb, value: MaybeValue::Known(iv) }
            },
            MaybeValue::Absent => {
                let (_wa, wb, _wc) = dr.mul(
                    (MaybeValue::Absent, MaybeValue::Absent, MaybeValue::Absent),
                );
                Element { wire: wb, value: MaybeValue::Absent }
            },
        }
    }
}

/// A destination for elements produced during synthesis.
pub trait Buffer {
    /// Pushes one element into this buffer, using the driver to synthesize
    /// whatever the buffer needs.
    fn write(&mut self, dr: &mut Emulator, value: &Element) -> (r: Result<(), Error>)
        requires
            old(dr).multiplications() < u64::MAX,
    ;
}

/// A gadget that can be serialized into a sequence of elements written to a
/// buffer.
pub trait GadgetSerialize<B: Buffer> {
    /// Serializes this gadget into elements written to `buf`, using the
    /// driver to synthesize the elements if needed.
    fn serialize(&self, dr: &mut Emulator, buf: &mut B) -> (r: Result<(), Error>)
        requires
            old(dr).multiplications() < u64::MAX,
    ;
}

/// A buffer that evaluates `k(Y)` at a point `y` by Horner's method: each
/// written element becomes the next lower coefficient.
#[derive(Clone, Copy, Debug)]
pub struct Ky {
    y: Element,
    result: Element,
}

impl Ky {
    /// The evaluation point.
    pub closed spec fn y_spec(self) -> Option<int> {
        self.y.value_spec()
    }

    /// The running Horner accumulator.
    pub closed spec fn acc_spec(self) -> Option<int> {
        self.result.value_spec()
    }

    /// Starts an evaluation of `k(Y)` at the point `y`.
    pub fn new(dr: &mut Emulator, y: &Element) -> (r: Ky)
        ensures
            *final(dr) == *old(dr),
            r.y_spec() == y.value_spec(),
            r.acc_spec() == if old(dr).kind() == crate::drivers::MaybeKind::Always {
                Some(0int)
            } else {
                None::<int>
            },
    {
        Ky { y: *y, result: Element::zero(dr) }
    }

    /// Finishes the evaluation by adding the trailing constant (one) term,
    /// returning the final `k(y)` value.
    pub fn finish(self, dr: &mut Emulator) -> (r: Result<Element, Error>)
        requires
            old(dr).multiplications() < u64::MAX,
        ensures
            r is Ok,
            final(dr).multiplications() == old(dr).multiplications() + 1,
            final(dr).allocations() == old(dr).allocations(),
            final(dr).is_wired() == old(dr).is_wired(),
            final(dr).kind() == old(dr).kind(),
            r.unwrap().value_spec() == match (self.acc_spec(), self.y_spec()) {
                (Some(acc), Some(y)) => Some(fadd(fmul(acc, y), 1)),
                _ => None::<int>,
            },
    {
        Ok(self.result.mul(dr, &self.y).add(dr, &Element::one()))
    }
}

impl Buffer for Ky {
    /// One Horner step: the accumulator becomes `acc·y + value`.
    fn write(&mut self, dr: &mut Emulator, value: &Element) -> (r: Result<(), Error>)
        ensures
            r is Ok,
            final(dr).multiplications() == old(dr).multiplications() + 1,
            final(dr).allocations() == old(dr).allocations(),
            final(dr).is_wired() == old(dr).is_wired(),
            final(dr).kind() == old(dr).kind(),
            final(self).y_spec() == old(self).y_spec(),
            final(self).acc_spec() == match (old(self).acc_spec(), old(self).y_spec(), value.value_spec()) {
                (Some(acc), Some(y), Some(v)) => Some(fadd(fmul(acc, y), v)),
                _ => None::<int>,
            },
    {
        self.result = self.result.mul(dr, &self.y).add(dr, value);
        Ok(())
    }
}

impl GadgetSerialize<Ky> for Element {
    /// An element serializes as itself.
    fn serialize(&self, dr: &mut Emulator, buf: &mut Ky) -> (r: Result<(), Error>) {
        buf.write(dr, self)
    }
}

/// The parameters `(m, n)` of the multi-layer revdot reduction: a first layer
/// of `n` size-`m` reductions, then one size-`n` reduction over their
/// results.
pub trait Parameters {
    /// The size of the second-layer reduction.
    spec fn n_spec(&self) -> int;

    /// The size of each first-layer reduction.
    spec fn m_spec(&self) -> int;

    /// The size of the second-layer reduction.
    fn n(&self) -> (r: usize)
        ensures
            r == self.n_spec(),
    ;

    /// The size of each first-layer reduction.
    fn m(&self) -> (r: usize)
        ensures
            r == self.m_spec(),
    ;
}

/// The revdot folding parameters used by the native circuits.
#[derive(Clone, Copy, Debug, Default)]
pub struct NativeParameters;

impl Parameters for NativeParameters {
    open spec fn n_spec(&self) -> int {
        3
    }

    open spec fn m_spec(&self) -> int {
        1
    }

    fn n(&self) -> usize {
        3
    }

    fn m(&self) -> usize {
        1
    }
}

/// Revdot folding parameters chosen at run time.
#[derive(Clone, Copy, Debug, PartialEq, Eq, Structural)]
pub struct LayerParameters {
    /// The size of the second-layer reduction.
    pub n: usize,
    /// The size of each first-layer reduction.
    pub m: usize,
}

impl Parameters for LayerParameters {
    open spec fn n_spec(&self) -> int {
        self.n as int
    }

    open spec fn m_spec(&self) -> int {
        self.m as int
    }

    fn n(&self) -> usize {
        self.n
    }

    fn m(&self) -> usize {
        self.m
    }
}

/// The number of error terms a folding of `claims` revdot claims produces:
/// the off-diagonal entries of a `claims × claims` matrix.
#[derive(Clone, Copy, Debug, PartialEq, Eq, Structural)]
pub struct ErrorTermsLen {
    /// How many claims are folded.
    pub claims: usize,
}

impl ErrorTermsLen {
    /// The number of error terms: `claims² - claims`.
    pub fn len(&self) -> (r: usize)
        requires
            self.claims <= 0xffff,
        ensures
            r == self.claims * self.claims - self.claims,
    {
        proof {
            assert(self.claims * self.claims <= 0xffff * 0xffff && self.claims <= self.claims
                * self.claims) by (nonlinear_arith)
                requires
                    self.claims <= 0xffff,
            ;
        }
        self.claims * self.claims - self.claims
    }
}

/// Whether every element of a sequence carries a value.
pub open spec fn values_known(s: Seq<Element>) -> bool {
    forall|i: int| 0 <= i < s.len() ==> (#[trigger] s[i].value_spec()) is Some
}

/// The residues a sequence of elements stands for, where all are present.
pub open spec fn element_vals(s: Seq<Element>) -> Seq<int> {
    s.map_values(|e: Element| e.value_spec().unwrap())
}

/// The entry of the folding matrix at row `i`, column `j`: the claimed value
/// on the diagonal, the error terms row-major off the diagonal.
pub open spec fn fold_cell(n: int, err: Seq<int>, ky: Seq<int>, i: int, j: int) -> int {
    if i == j {
        ky[i]
    } else if j < i {
        err[i * (n - 1) + j]
    } else {
        err[i * (n - 1) + j - 1]
    }
}

/// The folded claim over the first `t` cells of the matrix in row-major
/// order: cell `(i, j)` enters with weight `minv^i · munu^j`.
pub open spec fn fold_prefix(
    n: int,
    minv: int,
    munu: int,
    err: Seq<int>,
    ky: Seq<int>,
    t: int,
) -> int
    decreases t,
{
    if t <= 0 {
        0
    } else {
        let i = (t - 1) / n;
        let j = (t - 1) % n;
        fadd(
            fold_prefix(n, minv, munu, err, ky, t - 1),
            fmul(fmul(fpow(minv, i as nat), fpow(munu, j as nat)), fold_cell(n, err, ky, i, j)),
        )
    }
}

/// Computes the folded revdot claim `c` from the error terms and the claimed
/// `k(y)` values: the weighted sum of the folding matrix, row weights the
/// inverse powers of `mu` and column weights the powers of `mu·nu`. Consumes
/// exactly `2n² + n + 2` multiplication gates.
pub fn compute_c<P: Parameters>(
    dr: &mut Emulator,
    params: &P,
    mu: &Element,
    nu: &Element,
    error_terms: &Vec<Element>,
    ky_values: &Vec<Element>,
) -> (r: Result<Element, Error>)
    requires
        0 < params.n_spec() <= 0xffff,
        error_terms@.len() == params.n_spec() * (params.n_spec() - 1),
        ky_values@.len() == params.n_spec(),
        old(dr).multiplications() + 2 * (params.n_spec() * params.n_spec()) + params.n_spec()
            + 2 <= u64::MAX,
        mu.value_spec() is Some ==> mu.value_spec().unwrap() != 0,
    ensures
        r is Ok,
        final(dr).multiplications() == old(dr).multiplications() + 2 * (params.n_spec()
            * params.n_spec()) + params.n_spec() + 2,
        final(dr).allocations() == old(dr).allocations(),
        final(dr).is_wired() == old(dr).is_wired(),
        final(dr).kind() == old(dr).kind(),
        (old(dr).kind() == crate::drivers::MaybeKind::Always && mu.value_spec() is Some
            && nu.value_spec() is Some && values_known(error_terms@) && values_known(ky_values@))
            ==> r.unwrap().value_spec() == Some(
            fold_prefix(
                params.n_spec(),
                finv(mu.value_spec().unwrap()),
                fmul(mu.value_spec().unwrap(), nu.value_spec().unwrap()),
                element_vals(error_terms@),
                element_vals(ky_values@),
                params.n_spec() * params.n_spec(),
            ),
        ),
{
    let ghost known = old(dr).kind() == crate::drivers::MaybeKind::Always && mu.value_spec()
        is Some && nu.value_spec() is Some && values_known(error_terms@) && values_known(
        ky_values@,
    );
    let ghost ni = params.n_spec();
    let ghost minv = if mu.value_spec() is Some {
        finv(mu.value_spec().unwrap())
    } else {
        0int
    };
    let ghost munuv = if known {
        fmul(mu.value_spec().unwrap(), nu.value_spec().unwrap())
    } else {
        0int
    };
    let ghost errv = element_vals(error_terms@);
    let ghost kyv = element_vals(ky_values@);

    let n = params.n();
    let munu = mu.mul(dr, nu);
    let mu_inv = mu.invert(dr);

    let mut result = Element::zero(dr);
    let mut row_power = Element::one();
    let mut idx: usize = 0;

    proof {
        if known {
            crate::field::lemma_ops_in_field(
                mu.value_spec().unwrap(),
                nu.value_spec().unwrap(),
            );
        }
        crate::field::lemma_fpow_zero(minv);
        crate::field::lemma_fpow_zero(munuv);
    }

    let mut i: usize = 0;
    while i < n
        invariant
            i <= n,
            n == ni,
            0 < ni <= 0xffff,
            errv == element_vals(error_terms@),
            kyv == element_vals(ky_values@),
            error_terms@.len() == ni * (ni - 1),
            ky_values@.len() == ni,
            known ==> dr.kind() == crate::drivers::MaybeKind::Always,
            known ==> mu.value_spec() is Some && nu.value_spec() is Some && values_known(
                error_terms@,
            ) && values_known(ky_values@),
            known ==> minv == finv(mu.value_spec().unwrap()) && munuv == fmul(
                mu.value_spec().unwrap(),
                nu.value_spec().unwrap(),
            ),
            known ==> munu.value_spec() == Some(munuv),
            known ==> mu_inv.value_spec() == Some(minv),
            known ==> crate::field::in_field(minv) && crate::field::in_field(munuv),
            known ==> row_power.value_spec() == Some(fpow(minv, i as nat)),
            known ==> result.value_spec() == Some(
                fold_prefix(ni, minv, munuv, errv, kyv, (i as int) * ni),
            ),
            idx == i * (ni - 1),
            dr.multiplications() == old(dr).multiplications() + 2 + 2 * ((i as int) * ni) + i,
            dr.allocations() == old(dr).allocations(),
            dr.is_wired() == old(dr).is_wired(),
            dr.kind() == old(dr).kind(),
            old(dr).multiplications() + 2 * (ni * ni) + ni + 2 <= u64::MAX,
        decreases n - i,
    {
        proof {
            assert((i as int) * ni <= ni * ni && (i as int + 1) * ni <= ni * ni && (i as int) * (ni
                - 1) <= ni * (ni - 1) && (i as int + 1) * (ni - 1) <= ni * (ni - 1))
                by (nonlinear_arith)
                requires
                    0 <= i < ni,
            ;
        }
        proof {
            if known {
                crate::field::lemma_fpow_zero(munuv);
                crate::field::lemma_ops_in_field(minv, i as int);
                crate::field::lemma_fmul_one(fpow(minv, i as nat));
            }
        }
        let mut col_power = row_power;
        let mut j: usize = 0;
        while j < n
            invariant
                j <= n,
                i < n,
                n == ni,
                0 < ni <= 0xffff,
                errv == element_vals(error_terms@),
                kyv == element_vals(ky_values@),
                error_terms@.len() == ni * (ni - 1),
                ky_values@.len() == ni,
                known ==> mu.value_spec() is Some && nu.value_spec() is Some && values_known(
                    error_terms@,
                ) && values_known(ky_values@),
                known ==> munu.value_spec() == Some(munuv),
                known ==> crate::field::in_field(minv) && crate::field::in_field(munuv),
                known ==> col_power.value_spec() == Some(
                    fmul(fpow(minv, i as nat), fpow(munuv, j as nat)),
                ),
                known ==> result.value_spec() == Some(
                    fold_prefix(ni, minv, munuv, errv, kyv, (i as int) * ni + j),
                ),
                idx == i * (ni - 1) + if j <= i {
                    j as int
                } else {
                    j - 1
                },
                (i as int) * ni <= ni * ni,
                (i as int + 1) * ni <= ni * ni,
                (i as int) * (ni - 1) <= ni * (ni - 1),
                (i as int + 1) * (ni - 1) <= ni * (ni - 1),
                dr.multiplications() == old(dr).multiplications() + 2 + 2 * ((i as int) * ni
                    + j) + i,
                dr.allocations() == old(dr).allocations(),
                dr.is_wired() == old(dr).is_wired(),
                dr.kind() == old(dr).kind(),
                old(dr).multiplications() + 2 * (ni * ni) + ni + 2 <= u64::MAX,
            decreases n - j,
        {
            proof {
                assert(2 * ((i as int) * ni + j) + 2 + i < 2 * (ni * ni) + ni) by (nonlinear_arith)
                    requires
                        0 <= i < ni,
                        0 <= j < ni,
                ;
            }
            let ghost old_idx = idx as int;
            let term: Element;
            if i == j {
                term = ky_values[i];
            } else {
                proof {
                    assert(idx < ni * (ni - 1)) by (nonlinear_arith)
                        requires
                            0 <= i < ni,
                            0 <= j < ni,
                            i != j,
                            idx == i * (ni - 1) + if j <= i {
                                j as int
                            } else {
                                j - 1
                            },
                    ;
                }
                proof {
                    assert(ni * (ni - 1) < 0xffff_ffff) by (nonlinear_arith)
                        requires
                            0 < ni <= 0xffff,
                    ;
                }
                term = error_terms[idx];
                idx = idx + 1;
            }
            let contribution = col_power.mul(dr, &term);
            result = result.add(dr, &contribution);
            proof {
                let t = (i as int) * ni + j;
                vstd::arithmetic::div_mod::lemma_fundamental_div_mod_converse(
                    t,
                    ni,
                    i as int,
                    j as int,
                );
                if known {
                    if i == j {
                        assert(term.value_spec() == Some(kyv[i as int]));
                    } else {
                        assert(term.value_spec() == Some(errv[old_idx]));
                        assert(fold_cell(ni, errv, kyv, i as int, j as int) == errv[old_idx]);
                    }
                }
                if known {
                    crate::field::lemma_fpow_adds(munuv, j as nat, 1);
                    crate::field::lemma_fpow_one(munuv);
                    crate::field::lemma_fmul_assoc(
                        fpow(minv, i as nat),
                        fpow(munuv, j as nat),
                        munuv,
                    );
                }
            }
            col_power = col_power.mul(dr, &munu);
            j = j + 1;
        }
        proof {
            if known {
                crate::field::lemma_fpow_adds(minv, i as nat, 1);
                crate::field::lemma_fpow_one(minv);
            }
            assert((i as int + 1) * ni == (i as int) * ni + ni) by (nonlinear_arith);
            assert((i as int + 1) * (ni - 1) == (i as int) * (ni - 1) + (ni - 1))
                by (nonlinear_arith);
        }
        row_power = row_power.mul(dr, &mu_inv);
        i = i + 1;
    }
    proof {
        assert((ni) * ni == ni * ni);
        assert(2 + 2 * ((ni) * ni) + ni == 2 * (ni * ni) + ni + 2);
    }
    Ok(result)
}

} // verus!
