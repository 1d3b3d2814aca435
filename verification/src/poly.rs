//! Polynomial representations over the coefficient domain of a rank.
//!
//! A [`Rank`] fixes the multiplication-gate budget `n` of a circuit and the
//! derived coefficient-domain size `4n`. A polynomial has two interconvertible
//! views: the structured view stores one `(a, b, c)` coefficient triple per
//! gate, and the unstructured view stores one flat coefficient sequence.
//!
//! The structured view of a polynomial `r` stands for
//! `sum over gates j of a[j]·x^(2n-1-j) + b[j]·x^(2n+j) + c[j]·x^(4n-1-j)`;
//! the flat view of a polynomial stands for `sum over m of coeffs[m]·x^m`.
//! [`StructuredPolynomial::revdot`] is the reversed-order dot product: the two
//! exponent maps of a witness polynomial and a selector polynomial mirror each
//! other, so extracting one fixed power of their product pairs the triples
//! gate by gate.

use vstd::prelude::*;

use crate::field::{fadd, fmul, fpow, in_field, Fe};

verus! {

/// Gate budget `n` of a circuit, with coefficient-domain size `4n`.
#[derive(Clone, Copy, Debug, PartialEq, Eq, Structural)]
pub struct Rank {
    n: usize,
}

impl Rank {
    /// The budget of multiplication gates.
    pub closed spec fn n_spec(self) -> int {
        self.n as int
    }

    /// The budget is positive (gate zero always exists) and small enough that
    /// every derived quantity fits a machine word.
    #[verifier::type_invariant]
    pub closed spec fn wf(self) -> bool {
        1 <= self.n <= 0x0fff_ffff
    }

    /// Builds the rank with gate budget `n`.
    pub fn new(n: usize) -> (r: Rank)
        requires
            1 <= n <= 0x0fff_ffff,
        ensures
            r.n_spec() == n,
    {
        Rank { n }
    }

    /// The budget of multiplication gates.
    pub fn n(self) -> (r: usize)
        ensures
            r == self.n_spec(),
            1 <= r <= 0x0fff_ffff,
    {
        proof {
            use_type_invariant(self);
        }
        self.n
    }

    /// The coefficient-domain size, `4n`.
    pub fn num_coeffs(self) -> (r: usize)
        ensures
            r == 4 * self.n_spec(),
    {
        proof {
            use_type_invariant(self);
        }
        4 * self.n
    }
}

/// The residues a sequence of field elements stands for.
pub open spec fn vals(s: Seq<Fe>) -> Seq<int> {
    s.map_values(|x: Fe| x.val())
}

/// The coefficient at position `j` of a sequence, zero once the sequence ends.
pub open spec fn coeff_at(s: Seq<int>, j: int) -> int {
    if 0 <= j < s.len() {
        s[j]
    } else {
        0
    }
}

/// The term that gate `j` of a structured polynomial contributes at `x`,
/// under gate budget `n`.
pub open spec fn gate_term(a: int, b: int, c: int, x: int, n: int, j: int) -> int {
    fadd(
        fadd(
            fmul(a, fpow(x, (2 * n - 1 - j) as nat)),
            fmul(b, fpow(x, (2 * n + j) as nat)),
        ),
        fmul(c, fpow(x, (4 * n - 1 - j) as nat)),
    )
}

/// The sum of the contributions of gates `0 .. j` of a structured polynomial
/// at `x`, under gate budget `n`.
pub open spec fn struct_eval_prefix(
    a: Seq<int>,
    b: Seq<int>,
    c: Seq<int>,
    x: int,
    n: int,
    j: int,
) -> int
    decreases j,
{
    if j <= 0 {
        0
    } else {
        fadd(
            struct_eval_prefix(a, b, c, x, n, j - 1),
            gate_term(coeff_at(a, j - 1), coeff_at(b, j - 1), coeff_at(c, j - 1), x, n, j - 1),
        )
    }
}

/// The reversed-order dot product of the first `j` gates of two structured
/// polynomials.
pub open spec fn revdot_prefix(
    ra: Seq<int>,
    rb: Seq<int>,
    rc: Seq<int>,
    sa: Seq<int>,
    sb: Seq<int>,
    sc: Seq<int>,
    j: int,
) -> int
    decreases j,
{
    if j <= 0 {
        0
    } else {
        fadd(
            revdot_prefix(ra, rb, rc, sa, sb, sc, j - 1),
            fadd(
                fadd(
                    fmul(coeff_at(ra, j - 1), coeff_at(sa, j - 1)),
                    fmul(coeff_at(rb, j - 1), coeff_at(sb, j - 1)),
                ),
                fmul(coeff_at(rc, j - 1), coeff_at(sc, j - 1)),
            ),
        )
    }
}

/// A polynomial in structured view: one `(a, b, c)` triple per gate, gates
/// stored in ascending order starting at gate zero.
#[derive(Debug)]
pub struct StructuredPolynomial {
    gates: Vec<(Fe, Fe, Fe)>,
}

impl StructuredPolynomial {
    /// The residues of the `a` slots, gate by gate.
    pub closed spec fn av(self) -> Seq<int> {
        self.gates@.map_values(|t: (Fe, Fe, Fe)| t.0.val())
    }

    /// The residues of the `b` slots, gate by gate.
    pub closed spec fn bv(self) -> Seq<int> {
        self.gates@.map_values(|t: (Fe, Fe, Fe)| t.1.val())
    }

    /// The residues of the `c` slots, gate by gate.
    pub closed spec fn cv(self) -> Seq<int> {
        self.gates@.map_values(|t: (Fe, Fe, Fe)| t.2.val())
    }

    /// The empty structured polynomial.
    pub fn new() -> (r: StructuredPolynomial)
        ensures
            r.av() == Seq::<int>::empty(),
            r.bv() == Seq::<int>::empty(),
            r.cv() == Seq::<int>::empty(),
    {
        let r = StructuredPolynomial { gates: Vec::new() };
        proof {
            assert(r.av() =~= Seq::<int>::empty());
            assert(r.bv() =~= Seq::<int>::empty());
            assert(r.cv() =~= Seq::<int>::empty());
        }
        r
    }

    /// How many gates have a stored triple.
    pub fn len(&self) -> (r: usize)
        ensures
            r == self.av().len(),
            self.bv().len() == r,
            self.cv().len() == r,
    {
        self.gates.len()
    }

    /// Appends the triple of the next gate.
    pub fn push_gate(&mut self, a: Fe, b: Fe, c: Fe)
        ensures
            final(self).av() == old(self).av().push(a.val()),
            final(self).bv() == old(self).bv().push(b.val()),
            final(self).cv() == old(self).cv().push(c.val()),
    {
        self.gates.push((a, b, c));
        proof {
            assert(self.av() =~= old(self).av().push(a.val()));
            assert(self.bv() =~= old(self).bv().push(b.val()));
            assert(self.cv() =~= old(self).cv().push(c.val()));
        }
    }

    /// The stored triple of gate `j`.
    pub fn gate(&self, j: usize) -> (r: (Fe, Fe, Fe))
        requires
            j < self.av().len(),
        ensures
            r.0.val() == self.av()[j as int],
            r.1.val() == self.bv()[j as int],
            r.2.val() == self.cv()[j as int],
    {
        self.gates[j]
    }
}

impl Clone for StructuredPolynomial {
    /// Clones keep every stored triple.
    fn clone(&self) -> (r: Self)
        ensures
            r.av() == self.av(),
            r.bv() == self.bv(),
            r.cv() == self.cv(),
    {
        let mut gates: Vec<(Fe, Fe, Fe)> = Vec::new();
        let mut i: usize = 0;
        while i < self.gates.len()
            invariant
                i <= self.gates.len(),
                gates@ =~= self.gates@.subrange(0, i as int),
            decreases self.gates.len() - i,
        {
            gates.push(self.gates[i]);
            i = i + 1;
        }
        proof {
            assert(gates@ =~= self.gates@);
        }
        StructuredPolynomial { gates }
    }
}


/// The reversed-order dot product of two structured polynomials, gates beyond
/// either polynomial's end contributing nothing.
pub open spec fn revdot_spec(
    ra: Seq<int>,
    rb: Seq<int>,
    rc: Seq<int>,
    sa: Seq<int>,
    sb: Seq<int>,
    sc: Seq<int>,
) -> int {
    revdot_prefix(
        ra,
        rb,
        rc,
        sa,
        sb,
        sc,
        if ra.len() >= sa.len() {
            ra.len() as int
        } else {
            sa.len() as int
        },
    )
}

/// Every partial reversed-order dot product is a residue.
pub proof fn lemma_revdot_prefix_in_field(
    ra: Seq<int>,
    rb: Seq<int>,
    rc: Seq<int>,
    sa: Seq<int>,
    sb: Seq<int>,
    sc: Seq<int>,
    j: int,
)
    ensures
        in_field(revdot_prefix(ra, rb, rc, sa, sb, sc, j)),
    decreases j,
{
    if j <= 0 {
    } else {
        lemma_revdot_prefix_in_field(ra, rb, rc, sa, sb, sc, j - 1);
        crate::field::lemma_ops_in_field(
            revdot_prefix(ra, rb, rc, sa, sb, sc, j - 1),
            fadd(
                fadd(
                    fmul(coeff_at(ra, j - 1), coeff_at(sa, j - 1)),
                    fmul(coeff_at(rb, j - 1), coeff_at(sb, j - 1)),
                ),
                fmul(coeff_at(rc, j - 1), coeff_at(sc, j - 1)),
            ),
        );
    }
}

/// Past the end of the shorter polynomial the partial reversed-order dot
/// product no longer changes.
pub proof fn lemma_revdot_prefix_stable(
    ra: Seq<int>,
    rb: Seq<int>,
    rc: Seq<int>,
    sa: Seq<int>,
    sb: Seq<int>,
    sc: Seq<int>,
    m: int,
    j: int,
)
    requires
        rb.len() == ra.len(),
        rc.len() == ra.len(),
        sb.len() == sa.len(),
        sc.len() == sa.len(),
        ra.len() <= m || sa.len() <= m,
        0 <= m <= j,
    ensures
        revdot_prefix(ra, rb, rc, sa, sb, sc, j) == revdot_prefix(ra, rb, rc, sa, sb, sc, m),
    decreases j,
{
    if j > m {
        lemma_revdot_prefix_stable(ra, rb, rc, sa, sb, sc, m, j - 1);
        crate::field::lemma_fmul_zero(coeff_at(ra, j - 1));
        crate::field::lemma_fmul_zero(coeff_at(rb, j - 1));
        crate::field::lemma_fmul_zero(coeff_at(rc, j - 1));
        crate::field::lemma_fmul_zero(coeff_at(sa, j - 1));
        crate::field::lemma_fmul_zero(coeff_at(sb, j - 1));
        crate::field::lemma_fmul_zero(coeff_at(sc, j - 1));
        lemma_revdot_prefix_in_field(ra, rb, rc, sa, sb, sc, j - 1);
        crate::field::lemma_residue(revdot_prefix(ra, rb, rc, sa, sb, sc, j - 1));
    }
}

impl StructuredPolynomial {
    /// Evaluates the structured view at `x` under gate budget `n`: the sum
    /// over stored gates `j` of
    /// `a[j]·x^(2n-1-j) + b[j]·x^(2n+j) + c[j]·x^(4n-1-j)`.
    pub fn eval(&self, rank: Rank, x: Fe) -> (r: Fe)
        requires
            self.av().len() <= rank.n_spec(),
        ensures
            r.val() == struct_eval_prefix(
                self.av(),
                self.bv(),
                self.cv(),
                x.val(),
                rank.n_spec(),
                self.av().len() as int,
            ),
            in_field(r.val()),
    {
        let n = rank.n();
        let len = self.gates.len();
        let mut acc = Fe::zero();
        let mut j: usize = 0;
        while j < len
            invariant
                j <= len,
                len == self.av().len(),
                len <= n,
                n == rank.n_spec(),
                1 <= n <= 0x0fff_ffff,
                acc.val() == struct_eval_prefix(
                    self.av(),
                    self.bv(),
                    self.cv(),
                    x.val(),
                    n as int,
                    j as int,
                ),
            decreases len - j,
        {
            let (a, b, c) = self.gate(j);
            let xa = x.pow((2 * n - 1 - j) as u64);
            let xb = x.pow((2 * n + j) as u64);
            let xc = x.pow((4 * n - 1 - j) as u64);
            let term = a.mul(xa).add(b.mul(xb)).add(c.mul(xc));
            proof {
                assert(coeff_at(self.av(), j as int) == self.av()[j as int]);
                assert(fadd(
                    fadd(fmul(a.val(), xa.val()), fmul(b.val(), xb.val())),
                    fmul(c.val(), xc.val()),
                ) == gate_term(
                    self.av()[j as int],
                    self.bv()[j as int],
                    self.cv()[j as int],
                    x.val(),
                    n as int,
                    j as int,
                ));
            }
            acc = acc.add(term);
            j = j + 1;
        }
        acc
    }

    /// The reversed-order dot product of this polynomial with `other`.
    pub fn revdot(&self, other: &StructuredPolynomial) -> (r: Fe)
        ensures
            r.val() == revdot_spec(
                self.av(),
                self.bv(),
                self.cv(),
                other.av(),
                other.bv(),
                other.cv(),
            ),
            in_field(r.val()),
    {
        let l1 = self.gates.len();
        let l2 = other.gates.len();
        let m = if l1 <= l2 {
            l1
        } else {
            l2
        };
        let mut acc = Fe::zero();
        let mut j: usize = 0;
        while j < m
            invariant
                j <= m,
                m <= self.av().len(),
                m <= other.av().len(),
                m == self.av().len() || m == other.av().len(),
                acc.val() == revdot_prefix(
                    self.av(),
                    self.bv(),
                    self.cv(),
                    other.av(),
                    other.bv(),
                    other.cv(),
                    j as int,
                ),
            decreases m - j,
        {
            let (ra, rb, rc) = self.gate(j);
            let (sa, sb, sc) = other.gate(j);
            let term = ra.mul(sa).add(rb.mul(sb)).add(rc.mul(sc));
            acc = acc.add(term);
            j = j + 1;
        }
        proof {
            let top = if self.av().len() >= other.av().len() {
                self.av().len() as int
            } else {
                other.av().len() as int
            };
            lemma_revdot_prefix_stable(
                self.av(),
                self.bv(),
                self.cv(),
                other.av(),
                other.bv(),
                other.cv(),
                m as int,
                top,
            );
        }
        acc
    }

    /// Scales every coefficient by `z`.
    pub fn scale(&mut self, z: Fe)
        ensures
            final(self).av().len() == old(self).av().len(),
            forall|j: int| #![trigger final(self).av()[j]] 0 <= j < old(self).av().len() ==> {
                &&& final(self).av()[j] == fmul(old(self).av()[j], z.val())
                &&& final(self).bv()[j] == fmul(old(self).bv()[j], z.val())
                &&& final(self).cv()[j] == fmul(old(self).cv()[j], z.val())
            },
    {
        let len = self.gates.len();
        let mut gates: Vec<(Fe, Fe, Fe)> = Vec::new();
        let mut j: usize = 0;
        while j < len
            invariant
                j <= len,
                len == old(self).av().len(),
                *self == *old(self),
                gates@.len() == j,
                forall|i: int| #![trigger gates@[i]] 0 <= i < j ==> {
                    &&& gates@[i].0.val() == fmul(old(self).av()[i], z.val())
                    &&& gates@[i].1.val() == fmul(old(self).bv()[i], z.val())
                    &&& gates@[i].2.val() == fmul(old(self).cv()[i], z.val())
                },
            decreases len - j,
        {
            let (a, b, c) = self.gate(j);
            gates.push((a.mul(z), b.mul(z), c.mul(z)));
            j = j + 1;
        }
        self.gates = gates;
    }

    /// Scales the coefficients of gate `j` by `z^j`, for every gate.
    pub fn dilate(&mut self, z: Fe)
        ensures
            final(self).av().len() == old(self).av().len(),
            forall|j: int| #![trigger final(self).av()[j]] 0 <= j < old(self).av().len() ==> {
                &&& final(self).av()[j] == fmul(old(self).av()[j], fpow(z.val(), j as nat))
                &&& final(self).bv()[j] == fmul(old(self).bv()[j], fpow(z.val(), j as nat))
                &&& final(self).cv()[j] == fmul(old(self).cv()[j], fpow(z.val(), j as nat))
            },
    {
        let len = self.gates.len();
        let mut gates: Vec<(Fe, Fe, Fe)> = Vec::new();
        let mut pw = Fe::one();
        let mut j: usize = 0;
        proof {
            crate::field::lemma_fpow_zero(z.val());
        }
        while j < len
            invariant
                j <= len,
                len == old(self).av().len(),
                *self == *old(self),
                gates@.len() == j,
                pw.val() == fpow(z.val(), j as nat),
                forall|i: int| #![trigger gates@[i]] 0 <= i < j ==> {
                    &&& gates@[i].0.val() == fmul(old(self).av()[i], fpow(z.val(), i as nat))
                    &&& gates@[i].1.val() == fmul(old(self).bv()[i], fpow(z.val(), i as nat))
                    &&& gates@[i].2.val() == fmul(old(self).cv()[i], fpow(z.val(), i as nat))
                },
            decreases len - j,
        {
            let (a, b, c) = self.gate(j);
            gates.push((a.mul(pw), b.mul(pw), c.mul(pw)));
            proof {
                crate::field::lemma_fpow_unfold_top(z.val(), (j + 1) as nat);
                crate::field::lemma_fmul_comm(z.val(), fpow(z.val(), j as nat));
            }
            pw = pw.mul(z);
            j = j + 1;
        }
        self.gates = gates;
    }

    /// Adds `other` coefficient-wise, extending this polynomial with zero
    /// gates first if `other` stores more gates.
    pub fn add_assign(&mut self, other: &StructuredPolynomial)
        ensures
            final(self).av().len() == if old(self).av().len() >= other.av().len() {
                old(self).av().len()
            } else {
                other.av().len()
            },
            forall|j: int| #![trigger final(self).av()[j]] 0 <= j < final(self).av().len() ==> {
                &&& final(self).av()[j] == fadd(coeff_at(old(self).av(), j), coeff_at(other.av(), j))
                &&& final(self).bv()[j] == fadd(coeff_at(old(self).bv(), j), coeff_at(other.bv(), j))
                &&& final(self).cv()[j] == fadd(coeff_at(old(self).cv(), j), coeff_at(other.cv(), j))
            },
    {
        let l1 = self.gates.len();
        let l2 = other.gates.len();
        let len = if l1 >= l2 {
            l1
        } else {
            l2
        };
        let mut gates: Vec<(Fe, Fe, Fe)> = Vec::new();
        let mut j: usize = 0;
        while j < len
            invariant
                j <= len,
                l1 == old(self).av().len(),
                l2 == other.av().len(),
                len == if l1 >= l2 { l1 as int } else { l2 as int },
                *self == *old(self),
                gates@.len() == j,
                forall|i: int| #![trigger gates@[i]] 0 <= i < j ==> {
                    &&& gates@[i].0.val() == fadd(coeff_at(old(self).av(), i), coeff_at(other.av(), i))
                    &&& gates@[i].1.val() == fadd(coeff_at(old(self).bv(), i), coeff_at(other.bv(), i))
                    &&& gates@[i].2.val() == fadd(coeff_at(old(self).cv(), i), coeff_at(other.cv(), i))
                },
            decreases len - j,
        {
            let mine = if j < l1 {
                self.gate(j)
            } else {
                (Fe::zero(), Fe::zero(), Fe::zero())
            };
            let theirs = if j < l2 {
                other.gate(j)
            } else {
                (Fe::zero(), Fe::zero(), Fe::zero())
            };
            gates.push((mine.0.add(theirs.0), mine.1.add(theirs.1), mine.2.add(theirs.2)));
            j = j + 1;
        }
        self.gates = gates;
    }
}

/// The value of a flat coefficient sequence at `y`:
/// `s[0] + y·(s[1] + y·(...))`.
pub open spec fn poly_eval(s: Seq<int>, y: int) -> int
    decreases s.len(),
{
    if s.len() == 0 {
        0
    } else {
        fadd(s[0], fmul(y, poly_eval(s.drop_first(), y)))
    }
}

/// A polynomial in unstructured view: one flat coefficient sequence, the
/// coefficient of `x^m` stored at index `m`.
#[derive(Debug)]
pub struct UnstructuredPolynomial {
    coeffs: Vec<Fe>,
}

impl UnstructuredPolynomial {
    /// The residues of the stored coefficients, constant term first.
    pub closed spec fn coeffs_spec(self) -> Seq<int> {
        vals(self.coeffs@)
    }

    /// The empty polynomial, which evaluates to zero everywhere.
    pub fn new() -> (r: UnstructuredPolynomial)
        ensures
            r.coeffs_spec() == Seq::<int>::empty(),
    {
        let r = UnstructuredPolynomial { coeffs: Vec::new() };
        proof {
            assert(r.coeffs_spec() =~= Seq::<int>::empty());
        }
        r
    }

    /// Wraps a flat coefficient vector, constant term first.
    pub fn from_coeffs(coeffs: Vec<Fe>) -> (r: UnstructuredPolynomial)
        ensures
            r.coeffs_spec() == vals(coeffs@),
    {
        UnstructuredPolynomial { coeffs }
    }

    /// How many coefficients are stored.
    pub fn len(&self) -> (r: usize)
        ensures
            r == self.coeffs_spec().len(),
    {
        self.coeffs.len()
    }

    /// The stored coefficient of `x^m`.
    pub fn coeff(&self, m: usize) -> (r: Fe)
        requires
            m < self.coeffs_spec().len(),
        ensures
            r.val() == self.coeffs_spec()[m as int],
    {
        self.coeffs[m]
    }

    /// Evaluates the polynomial at `y` by Horner's method.
    pub fn eval(&self, y: Fe) -> (r: Fe)
        ensures
            r.val() == poly_eval(self.coeffs_spec(), y.val()),
            in_field(r.val()),
    {
        let len = self.coeffs.len();
        let mut acc = Fe::zero();
        let mut m: usize = len;
        proof {
            assert(self.coeffs_spec().subrange(len as int, len as int) =~= Seq::<int>::empty());
        }
        while m > 0
            invariant
                m <= len,
                len == self.coeffs_spec().len(),
                acc.val() == poly_eval(self.coeffs_spec().subrange(m as int, len as int), y.val()),
                in_field(acc.val()),
            decreases m,
        {
            m = m - 1;
            let c = self.coeffs[m];
            proof {
                let s = self.coeffs_spec();
                let tail = s.subrange(m + 1, len as int);
                let here = s.subrange(m as int, len as int);
                assert(here.drop_first() =~= tail);
                assert(here[0] == s[m as int]);
                crate::field::lemma_fmul_comm(y.val(), acc.val());
            }
            acc = acc.mul(y).add(c);
            proof {
                crate::field::lemma_ops_in_field(0, acc.val());
            }
        }
        proof {
            assert(self.coeffs_spec().subrange(0, len as int) =~= self.coeffs_spec());
        }
        acc
    }
}

impl Clone for UnstructuredPolynomial {
    /// Clones keep every coefficient.
    fn clone(&self) -> (r: Self)
        ensures
            r.coeffs_spec() == self.coeffs_spec(),
    {
        let mut coeffs: Vec<Fe> = Vec::new();
        let mut i: usize = 0;
        while i < self.coeffs.len()
            invariant
                i <= self.coeffs.len(),
                coeffs@ =~= self.coeffs@.subrange(0, i as int),
            decreases self.coeffs.len() - i,
        {
            coeffs.push(self.coeffs[i]);
            i = i + 1;
        }
        proof {
            assert(coeffs@ =~= self.coeffs@);
        }
        UnstructuredPolynomial { coeffs }
    }
}


/// Every coefficient outside `[lo, hi)` is zero.
pub open spec fn supported_in(s: Seq<int>, lo: int, hi: int) -> bool {
    forall|j: int| 0 <= j < s.len() && !(lo <= j < hi) ==> #[trigger] s[j] == 0
}

/// Every coefficient inside `[lo, hi)` is zero.
pub open spec fn zero_on(s: Seq<int>, lo: int, hi: int) -> bool {
    forall|j: int| 0 <= j < s.len() && lo <= j < hi ==> #[trigger] s[j] == 0
}

/// The reversed-order dot product of two structured polynomials with disjoint
/// support is zero: at every gate, one side's whole triple is zero.
pub proof fn lemma_revdot_zero_of_disjoint(
    ra: Seq<int>,
    rb: Seq<int>,
    rc: Seq<int>,
    sa: Seq<int>,
    sb: Seq<int>,
    sc: Seq<int>,
    lo: int,
    hi: int,
)
    requires
        rb.len() == ra.len(),
        rc.len() == ra.len(),
        sb.len() == sa.len(),
        sc.len() == sa.len(),
        supported_in(ra, lo, hi),
        supported_in(rb, lo, hi),
        supported_in(rc, lo, hi),
        zero_on(sa, lo, hi),
        zero_on(sb, lo, hi),
        zero_on(sc, lo, hi),
    ensures
        revdot_spec(ra, rb, rc, sa, sb, sc) == 0,
{
    let top = if ra.len() >= sa.len() {
        ra.len() as int
    } else {
        sa.len() as int
    };
    lemma_revdot_prefix_zero_of_disjoint(ra, rb, rc, sa, sb, sc, lo, hi, top);
}

/// Every partial reversed-order dot product of two structured polynomials
/// with disjoint support is zero.
proof fn lemma_revdot_prefix_zero_of_disjoint(
    ra: Seq<int>,
    rb: Seq<int>,
    rc: Seq<int>,
    sa: Seq<int>,
    sb: Seq<int>,
    sc: Seq<int>,
    lo: int,
    hi: int,
    j: int,
)
    requires
        rb.len() == ra.len(),
        rc.len() == ra.len(),
        sb.len() == sa.len(),
        sc.len() == sa.len(),
        supported_in(ra, lo, hi),
        supported_in(rb, lo, hi),
        supported_in(rc, lo, hi),
        zero_on(sa, lo, hi),
        zero_on(sb, lo, hi),
        zero_on(sc, lo, hi),
    ensures
        revdot_prefix(ra, rb, rc, sa, sb, sc, j) == 0,
    decreases j,
{
    if j > 0 {
        lemma_revdot_prefix_zero_of_disjoint(ra, rb, rc, sa, sb, sc, lo, hi, j - 1);
        crate::field::lemma_fmul_zero(coeff_at(ra, j - 1));
        crate::field::lemma_fmul_zero(coeff_at(rb, j - 1));
        crate::field::lemma_fmul_zero(coeff_at(rc, j - 1));
        crate::field::lemma_fmul_zero(coeff_at(sa, j - 1));
        crate::field::lemma_fmul_zero(coeff_at(sb, j - 1));
        crate::field::lemma_fmul_zero(coeff_at(sc, j - 1));
    }
}

/// The sum of the terms of gates `hi - i + 1 ..= hi`, added from gate
/// `hi` downward.
pub open spec fn struct_eval_down(
    a: Seq<int>,
    b: Seq<int>,
    c: Seq<int>,
    x: int,
    n: int,
    hi: int,
    i: int,
) -> int
    decreases i,
{
    if i <= 0 {
        0
    } else {
        let g = hi - (i - 1);
        fadd(
            struct_eval_down(a, b, c, x, n, hi, i - 1),
            gate_term(coeff_at(a, g), coeff_at(b, g), coeff_at(c, g), x, n, g),
        )
    }
}

/// Every partial structured evaluation is a residue.
pub proof fn lemma_struct_eval_prefix_in_field(
    a: Seq<int>,
    b: Seq<int>,
    c: Seq<int>,
    x: int,
    n: int,
    j: int,
)
    ensures
        in_field(struct_eval_prefix(a, b, c, x, n, j)),
    decreases j,
{
    if j <= 0 {
    } else {
        lemma_struct_eval_prefix_in_field(a, b, c, x, n, j - 1);
        crate::field::lemma_ops_in_field(
            struct_eval_prefix(a, b, c, x, n, j - 1),
            gate_term(coeff_at(a, j - 1), coeff_at(b, j - 1), coeff_at(c, j - 1), x, n, j - 1),
        );
    }
}

/// A prefix sum extends by a downward-summed gate segment.
pub proof fn lemma_prefix_extends_down(
    a: Seq<int>,
    b: Seq<int>,
    c: Seq<int>,
    x: int,
    n: int,
    hi: int,
    i: int,
)
    requires
        0 <= i <= hi + 1,
    ensures
        struct_eval_prefix(a, b, c, x, n, hi + 1) == fadd(
            struct_eval_prefix(a, b, c, x, n, hi + 1 - i),
            struct_eval_down(a, b, c, x, n, hi, i),
        ),
    decreases i,
{
    if i == 0 {
        lemma_struct_eval_prefix_in_field(a, b, c, x, n, hi + 1);
        crate::field::lemma_fadd_zero(struct_eval_prefix(a, b, c, x, n, hi + 1));
    } else {
        lemma_prefix_extends_down(a, b, c, x, n, hi, i - 1);
        let g = hi - (i - 1);
        let p = struct_eval_prefix(a, b, c, x, n, g);
        let t = gate_term(coeff_at(a, g), coeff_at(b, g), coeff_at(c, g), x, n, g);
        let d = struct_eval_down(a, b, c, x, n, hi, i - 1);
        assert(struct_eval_prefix(a, b, c, x, n, g + 1) == fadd(p, t));
        crate::field::lemma_fadd_assoc(p, t, d);
        assert(fadd(t, d) == fadd(d, t));
        assert(struct_eval_down(a, b, c, x, n, hi, i) == fadd(d, t));
    }
}

/// A prefix sum does not change across a segment of all-zero gate triples.
pub proof fn lemma_prefix_zero_segment(
    a: Seq<int>,
    b: Seq<int>,
    c: Seq<int>,
    x: int,
    n: int,
    lo: int,
    hi: int,
)
    requires
        0 <= lo <= hi,
        forall|g: int| lo <= g < hi ==> coeff_at(a, g) == 0 && coeff_at(b, g) == 0 && coeff_at(
            c,
            g,
        ) == 0,
    ensures
        struct_eval_prefix(a, b, c, x, n, hi) == struct_eval_prefix(a, b, c, x, n, lo),
    decreases hi - lo,
{
    if hi > lo {
        lemma_prefix_zero_segment(a, b, c, x, n, lo, hi - 1);
        crate::field::lemma_fmul_zero(fpow(x, (2 * n - 1 - (hi - 1)) as nat));
        crate::field::lemma_fmul_zero(fpow(x, (2 * n + (hi - 1)) as nat));
        crate::field::lemma_fmul_zero(fpow(x, (4 * n - 1 - (hi - 1)) as nat));
        lemma_struct_eval_prefix_in_field(a, b, c, x, n, hi - 1);
        crate::field::lemma_fadd_zero(struct_eval_prefix(a, b, c, x, n, hi - 1));
    }
}


/// A structured polynomial evaluates to zero at the point zero: every slot's
/// power of `x` is positive, because staged witnesses never use the constant
/// term.
pub proof fn lemma_prefix_zero_x(a: Seq<int>, b: Seq<int>, c: Seq<int>, n: int, j: int)
    requires
        1 <= n,
        0 <= j <= n,
    ensures
        struct_eval_prefix(a, b, c, 0, n, j) == 0,
    decreases j,
{
    if j > 0 {
        lemma_prefix_zero_x(a, b, c, n, j - 1);
        crate::field::lemma_fpow_zero_base((2 * n - 1 - (j - 1)) as nat);
        crate::field::lemma_fpow_zero_base((2 * n + (j - 1)) as nat);
        crate::field::lemma_fpow_zero_base((4 * n - 1 - (j - 1)) as nat);
        crate::field::lemma_fmul_zero(coeff_at(a, j - 1));
        crate::field::lemma_fmul_zero(coeff_at(b, j - 1));
        crate::field::lemma_fmul_zero(coeff_at(c, j - 1));
    }
}


/// The monomial sum of the first `j` coefficients, the coefficient at index
/// `m` weighted by `y^(off + m)`.
pub open spec fn monomial_sum(s: Seq<int>, y: int, off: nat, j: int) -> int
    decreases j,
{
    if j <= 0 {
        0
    } else {
        fadd(
            monomial_sum(s, y, off, j - 1),
            fmul(coeff_at(s, j - 1), fpow(y, (off + j - 1) as nat)),
        )
    }
}

/// The monomial sum of `i` coefficients starting at index `lo`, each
/// weighted by `y` to its absolute index.
pub open spec fn monomial_seg(s: Seq<int>, y: int, lo: int, i: int) -> int
    decreases i,
{
    if i <= 0 {
        0
    } else {
        fadd(
            monomial_seg(s, y, lo, i - 1),
            fmul(coeff_at(s, lo + i - 1), fpow(y, (lo + i - 1) as nat)),
        )
    }
}

/// Every partial monomial sum is a residue.
pub proof fn lemma_monomial_sum_in_field(s: Seq<int>, y: int, off: nat, j: int)
    ensures
        in_field(monomial_sum(s, y, off, j)),
    decreases j,
{
    if j > 0 {
        lemma_monomial_sum_in_field(s, y, off, j - 1);
        crate::field::lemma_ops_in_field(
            monomial_sum(s, y, off, j - 1),
            fmul(coeff_at(s, j - 1), fpow(y, (off + j - 1) as nat)),
        );
    }
}

/// Every Horner evaluation is a residue.
pub proof fn lemma_poly_eval_in_field(s: Seq<int>, y: int)
    ensures
        in_field(poly_eval(s, y)),
    decreases s.len(),
{
    if s.len() > 0 {
        lemma_poly_eval_in_field(s.drop_first(), y);
        crate::field::lemma_ops_in_field(s[0], fmul(y, poly_eval(s.drop_first(), y)));
    }
}

/// The head coefficient splits off the front of a monomial sum.
proof fn lemma_monomial_sum_head(s: Seq<int>, y: int, off: nat, j: int)
    requires
        s.len() >= 1,
        0 <= j,
    ensures
        monomial_sum(s, y, off, j + 1) == fadd(
            fmul(coeff_at(s, 0), fpow(y, off)),
            monomial_sum(s.drop_first(), y, off + 1, j),
        ),
    decreases j,
{
    let t = s.drop_first();
    let h = fmul(coeff_at(s, 0), fpow(y, off));
    if j == 0 {
        assert(monomial_sum(s, y, off, 0) == 0);
        assert(monomial_sum(t, y, off + 1, 0) == 0);
        assert(monomial_sum(s, y, off, 1) == fadd(0, h));
        crate::field::lemma_ops_in_field(coeff_at(s, 0), fpow(y, off));
        crate::field::lemma_fadd_zero(h);
    } else {
        lemma_monomial_sum_head(s, y, off, j - 1);
        assert(coeff_at(t, j - 1) == coeff_at(s, j));
        assert((off + 1 + (j - 1)) as nat == (off + j) as nat);
        crate::field::lemma_fadd_assoc(
            h,
            monomial_sum(t, y, off + 1, j - 1),
            fmul(coeff_at(s, j), fpow(y, (off + j) as nat)),
        );
    }
}

/// Horner evaluation, weighted by `y^off`, is the offset monomial sum.
pub proof fn lemma_poly_eval_is_monomial_sum(s: Seq<int>, y: int, off: nat)
    requires
        in_field(y),
    ensures
        fmul(fpow(y, off), poly_eval(s, y)) == monomial_sum(s, y, off, s.len() as int),
    decreases s.len(),
{
    if s.len() == 0 {
        crate::field::lemma_fmul_zero(fpow(y, off));
    } else {
        let t = s.drop_first();
        lemma_poly_eval_is_monomial_sum(t, y, off + 1);
        crate::field::lemma_fmul_fadd(fpow(y, off), s[0], fmul(y, poly_eval(t, y)));
        crate::field::lemma_fmul_assoc(fpow(y, off), y, poly_eval(t, y));
        crate::field::lemma_fpow_adds(y, off, 1);
        crate::field::lemma_fpow_one(y);
        lemma_monomial_sum_head(s, y, off, t.len() as int);
        crate::field::lemma_fmul_comm(fpow(y, off), s[0]);
        assert(coeff_at(s, 0) == s[0]);
    }
}

/// A prefix monomial sum splits at any midpoint into a shorter prefix and a
/// segment.
pub proof fn lemma_monomial_sum_split(s: Seq<int>, y: int, lo: int, i: int)
    requires
        0 <= lo,
        0 <= i,
    ensures
        monomial_sum(s, y, 0, lo + i) == fadd(
            monomial_sum(s, y, 0, lo),
            monomial_seg(s, y, lo, i),
        ),
    decreases i,
{
    if i == 0 {
        lemma_monomial_sum_in_field(s, y, 0, lo);
        crate::field::lemma_fadd_zero(monomial_sum(s, y, 0, lo));
    } else {
        lemma_monomial_sum_split(s, y, lo, i - 1);
        crate::field::lemma_fadd_assoc(
            monomial_sum(s, y, 0, lo),
            monomial_seg(s, y, lo, i - 1),
            fmul(coeff_at(s, lo + i - 1), fpow(y, (lo + i - 1) as nat)),
        );
    }
}


/// A monomial sum over all-zero coefficients is zero.
pub proof fn lemma_monomial_sum_zero_coeffs(s: Seq<int>, y: int, j: int)
    requires
        forall|m: int| 0 <= m < j ==> coeff_at(s, m) == 0,
    ensures
        monomial_sum(s, y, 0, j) == 0,
    decreases j,
{
    if j > 0 {
        lemma_monomial_sum_zero_coeffs(s, y, j - 1);
        crate::field::lemma_fmul_zero(fpow(y, (j - 1) as nat));
    }
}

/// A monomial sum at the point zero is zero whenever the constant
/// coefficient is zero.
pub proof fn lemma_monomial_sum_zero_point(s: Seq<int>, j: int)
    requires
        coeff_at(s, 0) == 0,
    ensures
        monomial_sum(s, 0, 0, j) == 0,
    decreases j,
{
    if j > 0 {
        lemma_monomial_sum_zero_point(s, j - 1);
        if j - 1 == 0 {
            crate::field::lemma_fmul_zero(fpow(0, 0));
        } else {
            crate::field::lemma_fpow_zero_base((j - 1) as nat);
            crate::field::lemma_fmul_zero(coeff_at(s, j - 1));
        }
    }
}


/// The flat coefficient that position `m` of the coefficient domain holds
/// for a structured polynomial: gate `j`'s `c` slot at `x^j`, its `b` slot
/// at `x^(2n-1-j)`, its `a` slot at `x^(2n+j)`; the top quarter of the
/// domain is unused and zero.
pub open spec fn flat_of(a: Seq<int>, b: Seq<int>, c: Seq<int>, n: int, m: int) -> int {
    if m < n {
        coeff_at(c, m)
    } else if m < 2 * n {
        coeff_at(b, 2 * n - 1 - m)
    } else if m < 3 * n {
        coeff_at(a, m - 2 * n)
    } else {
        0
    }
}

impl StructuredPolynomial {
    /// Converts to the flat view over the rank's coefficient domain, without
    /// loss: each slot of each gate becomes one flat coefficient.
    pub fn unstructured(&self, rank: Rank) -> (r: UnstructuredPolynomial)
        requires
            self.av().len() <= rank.n_spec(),
        ensures
            r.coeffs_spec().len() == 4 * rank.n_spec(),
            forall|m: int| 0 <= m < 4 * rank.n_spec() ==> #[trigger] r.coeffs_spec()[m] == flat_of(
                self.av(),
                self.bv(),
                self.cv(),
                rank.n_spec(),
                m,
            ),
    {
        let n = rank.n();
        let len = self.gates.len();
        let zero = Fe::zero();
        let mut coeffs: Vec<Fe> = Vec::new();
        let mut m: usize = 0;
        while m < 4 * n
            invariant
                m <= 4 * n,
                n == rank.n_spec(),
                1 <= n <= 0x0fff_ffff,
                len == self.av().len(),
                len <= n,
                zero.val() == 0,
                coeffs@.len() == m,
                forall|i: int| 0 <= i < m ==> (#[trigger] coeffs@[i]).val() == flat_of(
                    self.av(),
                    self.bv(),
                    self.cv(),
                    n as int,
                    i,
                ),
            decreases 4 * n - m,
        {
            let v = if m < n {
                if m < len {
                    self.gate(m).2
                } else {
                    zero
                }
            } else if m < 2 * n {
                let j = 2 * n - 1 - m;
                if j < len {
                    self.gate(j).1
                } else {
                    zero
                }
            } else if m < 3 * n {
                let j = m - 2 * n;
                if j < len {
                    self.gate(j).0
                } else {
                    zero
                }
            } else {
                zero
            };
            coeffs.push(v);
            m = m + 1;
        }
        UnstructuredPolynomial::from_coeffs(coeffs)
    }
}

impl UnstructuredPolynomial {
    /// Recovers the structured view from a flat polynomial over the rank's
    /// whole coefficient domain, without loss: one gate per triple of flat
    /// coefficients.
    pub fn structured(&self, rank: Rank) -> (r: StructuredPolynomial)
        requires
            self.coeffs_spec().len() == 4 * rank.n_spec(),
        ensures
            r.av().len() == rank.n_spec(),
            r.bv().len() == rank.n_spec(),
            r.cv().len() == rank.n_spec(),
            forall|j: int| 0 <= j < rank.n_spec() ==> #[trigger] r.av()[j] == self.coeffs_spec()[2
                * rank.n_spec() + j],
            forall|j: int| 0 <= j < rank.n_spec() ==> #[trigger] r.bv()[j] == self.coeffs_spec()[2
                * rank.n_spec() - 1 - j],
            forall|j: int| 0 <= j < rank.n_spec() ==> #[trigger] r.cv()[j] == self.coeffs_spec()[j],
    {
        let n = rank.n();
        let mut r = StructuredPolynomial::new();
        let mut j: usize = 0;
        while j < n
            invariant
                j <= n,
                n == rank.n_spec(),
                1 <= n <= 0x0fff_ffff,
                self.coeffs_spec().len() == 4 * n,
                r.av().len() == j,
                r.bv().len() == j,
                r.cv().len() == j,
                forall|i: int| 0 <= i < j ==> #[trigger] r.av()[i] == self.coeffs_spec()[2 * n + i],
                forall|i: int| 0 <= i < j ==> #[trigger] r.bv()[i] == self.coeffs_spec()[2 * n - 1
                    - i],
                forall|i: int| 0 <= i < j ==> #[trigger] r.cv()[i] == self.coeffs_spec()[i],
            decreases n - j,
        {
            let a = self.coeff(2 * n + j);
            let b = self.coeff(2 * n - 1 - j);
            let c = self.coeff(j);
            r.push_gate(a, b, c);
            j = j + 1;
        }
        r
    }
}

} // verus!
