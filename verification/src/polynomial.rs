//! Secret polynomials over the scalar field, and their spec-level model.
//!
//! A polynomial `f(x) = a_0 + a_1 x + ... + a_{t-1} x^{t-1}` is a vector of
//! scalar coefficients, modeled as the sequence of their values. Evaluation
//! is specified as the power sum reduced in the scalar field.

use vstd::prelude::*;
use crate::fadd;
use crate::fmul;
use crate::group_order;
use crate::scalar::Scalar;
use crate::scalar::field_add;
use crate::scalar::field_mul;
use crate::scalar::scalar_from_u64;

verus! {

/// Every coefficient is reduced modulo the group order.
pub open spec fn wf_coeffs(f: Seq<nat>) -> bool {
    forall|k: int| 0 <= k < f.len() ==> #[trigger] f[k] < group_order()
}

/// `x^k` in the scalar field, built incrementally.
pub open spec fn pow_mod(x: nat, k: nat) -> nat
    decreases k,
{
    if k == 0 {
        1
    } else {
        fmul(pow_mod(x, (k - 1) as nat), x)
    }
}

/// The partial power sum `sum_{j < k} f[j] * x^j` in the scalar field.
pub open spec fn psum(f: Seq<nat>, x: nat, k: int) -> nat
    decreases k,
{
    if k <= 0 {
        0
    } else {
        fadd(psum(f, x, k - 1), fmul(f[k - 1], pow_mod(x, (k - 1) as nat)))
    }
}

/// Evaluation of the polynomial with coefficients `f` at `x`, in the
/// scalar field.
pub open spec fn peval(f: Seq<nat>, x: nat) -> nat {
    psum(f, x, f.len() as int)
}

/// Pointwise field addition of two coefficient sequences of equal length.
pub open spec fn padd(f: Seq<nat>, h: Seq<nat>) -> Seq<nat> {
    Seq::new(f.len(), |k: int| fadd(f[k], h[k]))
}

/// Every partial power sum is reduced modulo the group order.
pub proof fn lemma_psum_bound(f: Seq<nat>, x: nat, k: int)
    ensures
        psum(f, x, k) < group_order(),
{
    if k <= 0 {
        assert(psum(f, x, k) == 0);
    } else {
        assert(psum(f, x, k) == fadd(psum(f, x, k - 1), fmul(f[k - 1], pow_mod(x, (k - 1) as nat))));
    }
}

/// Evaluating the pointwise sum of two polynomials evaluates each and
/// adds the results in the scalar field.
pub proof fn lemma_psum_padd(f: Seq<nat>, h: Seq<nat>, x: nat, k: int)
    requires
        f.len() == h.len(),
        k <= f.len(),
    ensures
        psum(padd(f, h), x, k) == fadd(psum(f, x, k), psum(h, x, k)),
    decreases k,
{
    if k <= 0 {
        vstd::arithmetic::div_mod::lemma_small_mod(0, group_order());
    } else {
        lemma_psum_padd(f, h, x, k - 1);
        let p = pow_mod(x, (k - 1) as nat);
        assert(padd(f, h)[k - 1] == fadd(f[k - 1], h[k - 1]));
        crate::lemma_fmul_distrib(f[k - 1], h[k - 1], p);
        crate::lemma_fadd_rearrange(
            psum(f, x, k - 1),
            psum(h, x, k - 1),
            fmul(f[k - 1], p),
            fmul(h[k - 1], p),
        );
    }
}

/// Evaluation distributes over pointwise polynomial addition.
pub proof fn lemma_peval_padd(f: Seq<nat>, h: Seq<nat>, x: nat)
    requires
        f.len() == h.len(),
    ensures
        peval(padd(f, h), x) == fadd(peval(f, x), peval(h, x)),
{
    assert(padd(f, h).len() == f.len());
    lemma_psum_padd(f, h, x, f.len() as int);
}

/// Every positive power of zero is zero in the scalar field.
pub proof fn lemma_pow_mod_zero(j: nat)
    requires
        j >= 1,
    ensures
        pow_mod(0, j) == 0,
{
    assert(pow_mod(0, j) == fmul(pow_mod(0, (j - 1) as nat), 0));
    crate::lemma_fmul_zero(pow_mod(0, (j - 1) as nat));
}

/// The partial power sums at zero collapse to the constant term.
proof fn lemma_psum_at_zero(f: Seq<nat>, k: int)
    requires
        wf_coeffs(f),
        1 <= k <= f.len(),
    ensures
        psum(f, 0, k) == f[0],
    decreases k,
{
    if k == 1 {
        assert(psum(f, 0, 1) == fadd(psum(f, 0, 0), fmul(f[0], pow_mod(0, 0))));
        assert(pow_mod(0, 0) == 1);
        assert(psum(f, 0, 0) == 0);
        crate::lemma_fmul_one(f[0]);
        crate::lemma_fadd_zero(f[0]);
    } else {
        lemma_psum_at_zero(f, k - 1);
        lemma_pow_mod_zero((k - 1) as nat);
        crate::lemma_fmul_zero(f[k - 1]);
        crate::lemma_fadd_zero(f[0]);
        assert(psum(f, 0, k) == fadd(psum(f, 0, k - 1), fmul(f[k - 1], pow_mod(0, (k - 1) as nat))));
    }
}

/// A polynomial evaluates at zero to its constant term.
pub proof fn lemma_peval_at_zero(f: Seq<nat>)
    requires
        wf_coeffs(f),
        f.len() >= 1,
    ensures
        peval(f, 0) == f[0],
{
    lemma_psum_at_zero(f, f.len() as int);
}

/// A secret polynomial: the coefficients, constant term first.
#[derive(Debug)]
pub struct Polynomial {
    pub coefficients: Vec<Scalar>,
}

impl View for Polynomial {
    type V = Seq<nat>;

    open spec fn view(&self) -> Seq<nat> {
        Seq::new(self.coefficients@.len() as nat, |k: int| self.coefficients@[k]@)
    }
}

impl Polynomial {
    /// Every coefficient is a well-formed scalar.
    pub open spec fn wf(&self) -> bool {
        forall|k: int|
            0 <= k < self.coefficients@.len() ==> (#[trigger] self.coefficients@[k]).wf()
    }

    /// The zero polynomial, with no coefficients at all.
    pub fn zero() -> (r: Polynomial)
        ensures
            r@.len() == 0,
            r.wf(),
    {
        Polynomial { coefficients: Vec::new() }
    }

    /// Wrap a coefficient vector as a polynomial.
    pub fn from_coefficients(coefficients: Vec<Scalar>) -> (r: Polynomial)
        ensures
            r@ == Seq::new(coefficients@.len() as nat, |k: int| coefficients@[k]@),
            (forall|k: int| 0 <= k < coefficients@.len() ==> (#[trigger] coefficients@[k]).wf())
                ==> r.wf(),
    {
        Polynomial { coefficients }
    }

    /// Evaluate the polynomial at `x`, in the scalar field.
    pub fn evaluate(&self, x: &Scalar) -> (r: Scalar)
        requires
            self.wf(),
            x.wf(),
        ensures
            r@ == peval(self@, x@),
            r.wf(),
    {
        let mut acc = Scalar::zero();
        let mut pow = scalar_from_u64(1);
        let mut k: usize = 0;
        while k < self.coefficients.len()
            invariant
                self.wf(),
                x.wf(),
                k <= self.coefficients@.len(),
                acc@ == psum(self@, x@, k as int),
                acc.wf(),
                pow@ == pow_mod(x@, k as nat),
                pow.wf(),
            decreases self.coefficients@.len() - k,
        {
            let term = field_mul(&self.coefficients[k], &pow);
            acc = field_add(&acc, &term);
            pow = field_mul(&pow, x);
            k = k + 1;
        }
        acc
    }

    /// Add two polynomials of equal degree, coefficient by coefficient.
    pub fn add(&self, other: &Polynomial) -> (r: Polynomial)
        requires
            self.wf(),
            other.wf(),
            self@.len() == other@.len(),
        ensures
            r@ == padd(self@, other@),
            r.wf(),
    {
        let mut coefficients: Vec<Scalar> = Vec::new();
        let mut k: usize = 0;
        while k < self.coefficients.len()
            invariant
                self.wf(),
                other.wf(),
                self@.len() == other@.len(),
                k <= self.coefficients@.len(),
                coefficients@.len() == k,
                forall|j: int| 0 <= j < k ==> (#[trigger] coefficients@[j])@ == fadd(self@[j], other@[j]),
                forall|j: int| 0 <= j < k ==> (#[trigger] coefficients@[j]).wf(),
            decreases self.coefficients@.len() - k,
        {
            coefficients.push(field_add(&self.coefficients[k], &other.coefficients[k]));
            k = k + 1;
        }
        let r = Polynomial { coefficients };
        proof {
            assert(r@ =~= padd(self@, other@));
        }
        r
    }
}

} // verus!
