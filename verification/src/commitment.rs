//! Polynomial commitments: one group element per coefficient.
//!
//! Committing to `f(x) = a_0 + ... + a_{t-1} x^{t-1}` under a generator `g`
//! yields `[a_0 * g, ..., a_{t-1} * g]`. Commitments of equal length add
//! pointwise, which commits to the sum of the underlying polynomials, and a
//! commitment evaluates at a receiver index to that receiver's partial
//! public key.

use vstd::prelude::*;
use crate::fadd;
use crate::fmul;
use crate::group_order;
use crate::group::GroupElement;
use crate::group::ec_add;
use crate::group::ec_mul;
use crate::group::id_bytes;
use crate::group::in_group;
use crate::group::group_add;
use crate::group::group_mul;
use crate::polynomial::Polynomial;
use crate::polynomial::padd;
use crate::polynomial::peval;
use crate::polynomial::pow_mod;
use crate::polynomial::psum;
use crate::polynomial::wf_coeffs;
use crate::polynomial::lemma_psum_bound;
use crate::scalar::Scalar;
use crate::scalar::field_mul;
use crate::scalar::scalar_from_u64;
use vstd::arithmetic::div_mod::lemma_small_mod;

verus! {

/// The commitment to the coefficients `f` under the generator `g`.
pub open spec fn commit_spec(f: Seq<nat>, g: Seq<u8>) -> Seq<Seq<u8>> {
    Seq::new(f.len(), |k: int| ec_mul(g, f[k]))
}

/// Pointwise group addition of two commitments of equal length.
pub open spec fn combine_spec(a: Seq<Seq<u8>>, b: Seq<Seq<u8>>) -> Seq<Seq<u8>> {
    Seq::new(a.len(), |k: int| ec_add(a[k], b[k]))
}

/// The partial multi-scalar sum `sum_{j < k} x^j * c[j]`, accumulated from
/// the identity.
pub open spec fn eval_partial(c: Seq<Seq<u8>>, x: nat, k: int) -> Seq<u8>
    decreases k,
{
    if k <= 0 {
        id_bytes()
    } else {
        ec_add(eval_partial(c, x, k - 1), ec_mul(c[k - 1], pow_mod(x, (k - 1) as nat)))
    }
}

/// The evaluation of the commitment `c` at the point `x`:
/// `sum_k x^k * c[k]`.
pub open spec fn eval_commitment(c: Seq<Seq<u8>>, x: nat) -> Seq<u8> {
    eval_partial(c, x, c.len() as int)
}

/// Two commitments may only be combined when they commit to the same
/// threshold, that is, when their lengths agree.
#[derive(Debug)]
pub struct CommitmentLengthMismatch {
    pub left_len: usize,
    pub right_len: usize,
}

/// A dealer's public commitment to a secret polynomial.
#[derive(Debug)]
pub struct PolynomialCommitment {
    pub coefficients: Vec<GroupElement>,
}

impl View for PolynomialCommitment {
    type V = Seq<Seq<u8>>;

    open spec fn view(&self) -> Seq<Seq<u8>> {
        Seq::new(self.coefficients@.len() as nat, |k: int| self.coefficients@[k]@)
    }
}

impl PolynomialCommitment {
    /// Every element is a well-formed group element.
    pub open spec fn wf(&self) -> bool {
        forall|k: int|
            0 <= k < self.coefficients@.len() ==> (#[trigger] self.coefficients@[k]).wf()
    }

    /// The commitment to the zero polynomial: no coefficients at all. It
    /// is the neutral starting point of aggregation.
    pub fn zero() -> (r: PolynomialCommitment)
        ensures
            r@.len() == 0,
            r.wf(),
    {
        PolynomialCommitment { coefficients: Vec::new() }
    }

    /// A copy of the commitment.
    pub fn duplicate(&self) -> (r: PolynomialCommitment)
        requires
            self.wf(),
        ensures
            r@ == self@,
            r.wf(),
    {
        let mut coefficients: Vec<GroupElement> = Vec::new();
        let mut k: usize = 0;
        while k < self.coefficients.len()
            invariant
                self.wf(),
                k <= self.coefficients@.len(),
                coefficients@.len() == k,
                forall|j: int| 0 <= j < k ==> (#[trigger] coefficients@[j])@ == self@[j],
                forall|j: int| 0 <= j < k ==> (#[trigger] coefficients@[j]).wf(),
            decreases self.coefficients@.len() - k,
        {
            coefficients.push(self.coefficients[k].duplicate());
            k = k + 1;
        }
        let r = PolynomialCommitment { coefficients };
        proof {
            assert(r@ =~= self@);
        }
        r
    }

    /// Commit to every coefficient of `polynomial` under `generator`.
    pub fn from_polynomial(polynomial: &Polynomial, generator: &GroupElement) -> (r:
        PolynomialCommitment)
        requires
            polynomial.wf(),
            generator.wf(),
        ensures
            r@ == commit_spec(polynomial@, generator@),
            r.wf(),
    {
        let mut coefficients: Vec<GroupElement> = Vec::new();
        let mut k: usize = 0;
        while k < polynomial.coefficients.len()
            invariant
                polynomial.wf(),
                generator.wf(),
                k <= polynomial.coefficients@.len(),
                coefficients@.len() == k,
                forall|j: int|
                    0 <= j < k ==> (#[trigger] coefficients@[j])@ == ec_mul(
                        generator@,
                        polynomial@[j],
                    ),
                forall|j: int| 0 <= j < k ==> (#[trigger] coefficients@[j]).wf(),
            decreases polynomial.coefficients@.len() - k,
        {
            coefficients.push(group_mul(generator, &polynomial.coefficients[k]));
            k = k + 1;
        }
        let r = PolynomialCommitment { coefficients };
        proof {
            assert(r@ =~= commit_spec(polynomial@, generator@));
        }
        r
    }

    /// Pointwise group addition of two commitments.
    ///
    /// The last clause is the linearity of commitments: combining the
    /// commitments of two polynomials commits to their sum.
    pub fn combine(&self, other: &PolynomialCommitment) -> (r: Result<
        PolynomialCommitment,
        CommitmentLengthMismatch,
    >)
        requires
            self.wf(),
            other.wf(),
        ensures
            r is Ok <==> self@.len() == other@.len(),
            r matches Err(e) ==> e.left_len == self@.len() && e.right_len == other@.len(),
            r matches Ok(c) ==> c@ == combine_spec(self@, other@) && c.wf(),
            r matches Ok(c) ==> forall|f: Seq<nat>, h: Seq<nat>, gg: Seq<u8>|
                #![trigger commit_spec(f, gg), commit_spec(h, gg)]
                in_group(gg) && wf_coeffs(f) && wf_coeffs(h) && self@ == commit_spec(f, gg)
                    && other@ == commit_spec(h, gg) ==> c@ == commit_spec(padd(f, h), gg),
    {
        if self.coefficients.len() != other.coefficients.len() {
            return Result::Err(
                CommitmentLengthMismatch {
                    left_len: self.coefficients.len(),
                    right_len: other.coefficients.len(),
                },
            );
        }
        let mut coefficients: Vec<GroupElement> = Vec::new();
        let mut k: usize = 0;
        while k < self.coefficients.len()
            invariant
                self.wf(),
                other.wf(),
                self@.len() == other@.len(),
                k <= self.coefficients@.len(),
                coefficients@.len() == k,
                forall|j: int|
                    0 <= j < k ==> (#[trigger] coefficients@[j])@ == ec_add(self@[j], other@[j]),
                forall|j: int| 0 <= j < k ==> (#[trigger] coefficients@[j]).wf(),
                forall|f: Seq<nat>, h: Seq<nat>, gg: Seq<u8>|
                    #![trigger commit_spec(f, gg), commit_spec(h, gg)]
                    in_group(gg) && wf_coeffs(f) && wf_coeffs(h) && self@ == commit_spec(f, gg)
                        && other@ == commit_spec(h, gg) ==> forall|j: int|
                        0 <= j < k ==> (#[trigger] coefficients@[j])@ == ec_mul(
                            gg,
                            fadd(f[j], h[j]),
                        ),
            decreases self.coefficients@.len() - k,
        {
            let ghost prev = coefficients@;
            let next = group_add(&self.coefficients[k], &other.coefficients[k]);
            coefficients.push(next);
            proof {
                assert forall|f: Seq<nat>, h: Seq<nat>, gg: Seq<u8>|
                    #![trigger commit_spec(f, gg), commit_spec(h, gg)]
                    in_group(gg) && wf_coeffs(f) && wf_coeffs(h) && self@ == commit_spec(f, gg)
                        && other@ == commit_spec(h, gg) implies forall|j: int|
                    0 <= j < k + 1 ==> (#[trigger] coefficients@[j])@ == ec_mul(
                        gg,
                        fadd(f[j], h[j]),
                    ) by {
                    assert(self@[k as int] == ec_mul(gg, f[k as int]));
                    assert(other@[k as int] == ec_mul(gg, h[k as int]));
                    assert(next@ == ec_mul(gg, fadd(f[k as int], h[k as int])));
                    assert forall|j: int| 0 <= j < k + 1 implies (#[trigger] coefficients@[j])@
                        == ec_mul(gg, fadd(f[j], h[j])) by {
                        if j < k {
                            assert(prev[j]@ == ec_mul(gg, fadd(f[j], h[j])));
                        }
                    }
                }
            }
            k = k + 1;
        }
        let c = PolynomialCommitment { coefficients };
        proof {
            assert(c@ =~= combine_spec(self@, other@));
            assert forall|f: Seq<nat>, h: Seq<nat>, gg: Seq<u8>|
                #![trigger commit_spec(f, gg), commit_spec(h, gg)]
                in_group(gg) && wf_coeffs(f) && wf_coeffs(h) && self@ == commit_spec(f, gg)
                    && other@ == commit_spec(h, gg) implies c@ == commit_spec(padd(f, h), gg) by {
                assert(c@ =~= commit_spec(padd(f, h), gg));
            }
        }
        Result::Ok(c)
    }
}

/// Evaluate `public_coefficients` at every receiver index `1..=total_nodes`
/// to obtain each receiver's partial public key.
///
/// The third-from-last clause pins each entry to the multi-scalar sum
/// `sum_k i^k * c[k]`; the next states evaluation correctness on committed
/// polynomials (`i^k * (a_k * g)` sums to `f(i) * g`); the last states the
/// degenerate threshold `t = 1`, where every receiver's partial key is the
/// commitment's sole element.
pub fn pubcoeff_to_pks(public_coefficients: &PolynomialCommitment, total_nodes: usize) -> (r: Vec<
    GroupElement,
>)
    requires
        public_coefficients.wf(),
        total_nodes < usize::MAX,
    ensures
        r@.len() == total_nodes,
        forall|j: int|
            0 <= j < total_nodes ==> (#[trigger] r@[j])@ == eval_commitment(
                public_coefficients@,
                (j + 1) as nat,
            ),
        forall|j: int| 0 <= j < total_nodes ==> (#[trigger] r@[j]).wf(),
        forall|f: Seq<nat>, gg: Seq<u8>, j: int|
            #![trigger commit_spec(f, gg), r@[j]]
            in_group(gg) && wf_coeffs(f) && f.len() >= 1 && public_coefficients@ == commit_spec(
                f,
                gg,
            ) && 0 <= j < total_nodes ==> r@[j]@ == ec_mul(gg, peval(f, (j + 1) as nat)),
        public_coefficients@.len() == 1 ==> forall|j: int|
            0 <= j < total_nodes ==> (#[trigger] r@[j])@ == public_coefficients@[0],
{
    let ghost pc = public_coefficients@;
    let mut pks: Vec<GroupElement> = Vec::new();
    let mut i: usize = 1;
    while i <= total_nodes
        invariant
            public_coefficients.wf(),
            total_nodes < usize::MAX,
            1 <= i <= total_nodes + 1,
            pc == public_coefficients@,
            pks@.len() == i - 1,
            forall|j: int|
                0 <= j < i - 1 ==> (#[trigger] pks@[j])@ == eval_commitment(pc, (j + 1) as nat),
            forall|j: int| 0 <= j < i - 1 ==> (#[trigger] pks@[j]).wf(),
            forall|f: Seq<nat>, gg: Seq<u8>, j: int|
                #![trigger commit_spec(f, gg), pks@[j]]
                in_group(gg) && wf_coeffs(f) && f.len() >= 1 && pc == commit_spec(f, gg) && 0 <= j
                    < i - 1 ==> pks@[j]@ == ec_mul(gg, peval(f, (j + 1) as nat)),
            pc.len() == 1 ==> forall|j: int|
                0 <= j < i - 1 ==> (#[trigger] pks@[j])@ == pc[0],
        decreases total_nodes + 1 - i,
    {
        let xi = scalar_from_u64(i as u64);
        let mut pow = scalar_from_u64(1);
        let mut acc = GroupElement::identity();
        let mut k: usize = 0;
        while k < public_coefficients.coefficients.len()
            invariant
                public_coefficients.wf(),
                pc == public_coefficients@,
                xi.wf(),
                xi@ == i as nat,
                k <= pc.len(),
                pow.wf(),
                pow@ == pow_mod(i as nat, k as nat),
                acc.wf(),
                acc@ == eval_partial(pc, i as nat, k as int),
                k == 0 ==> acc@ == id_bytes(),
                pc.len() == 1 && k == 1 ==> acc@ == pc[0],
                forall|f: Seq<nat>, gg: Seq<u8>|
                    #![trigger commit_spec(f, gg)]
                    in_group(gg) && wf_coeffs(f) && pc == commit_spec(f, gg) && k >= 1 ==> acc@
                        == ec_mul(gg, psum(f, i as nat, k as int)),
            decreases pc.len() - k,
        {
            let ghost oldacc = acc@;
            let ghost oldpow = pow@;
            let term = group_mul(&public_coefficients.coefficients[k], &pow);
            acc = group_add(&acc, &term);
            pow = field_mul(&pow, &xi);
            proof {
                if pc.len() == 1 && k == 0 {
                    assert(term@ == pc[0]);
                }
                assert forall|f: Seq<nat>, gg: Seq<u8>|
                    #![trigger commit_spec(f, gg)]
                    in_group(gg) && wf_coeffs(f) && pc == commit_spec(f, gg) implies acc@ == ec_mul(
                    gg,
                    psum(f, i as nat, k + 1),
                ) by {
                    assert(pc[k as int] == ec_mul(gg, f[k as int]));
                    assert(f[k as int] < group_order());
                    assert(term@ == ec_mul(gg, fmul(f[k as int], pow_mod(i as nat, k as nat))));
                    let m = fmul(f[k as int], pow_mod(i as nat, k as nat));
                    assert(m < group_order());
                    if k == 0 {
                        assert(oldacc == id_bytes());
                        assert(acc@ == term@);
                        assert(psum(f, i as nat, 1) == fadd(0, m));
                        assert(fadd(0, m) == m) by {
                            lemma_small_mod(m, group_order());
                        }
                    } else {
                        let s = psum(f, i as nat, k as int);
                        lemma_psum_bound(f, i as nat, k as int);
                        assert(oldacc == ec_mul(gg, s));
                        assert(acc@ == ec_mul(gg, fadd(s, m)));
                    }
                }
            }
            k = k + 1;
        }
        let ghost prev_pks = pks@;
        pks.push(acc);
        proof {
            assert(acc@ == eval_commitment(pc, i as nat));
            assert forall|f: Seq<nat>, gg: Seq<u8>, j: int|
                #![trigger commit_spec(f, gg), pks@[j]]
                in_group(gg) && wf_coeffs(f) && f.len() >= 1 && pc == commit_spec(f, gg) && 0 <= j
                    < i implies pks@[j]@ == ec_mul(gg, peval(f, (j + 1) as nat)) by {
                assert(pc.len() == f.len());
                if j < i - 1 {
                    assert(pks@[j] == prev_pks[j]);
                } else {
                    assert(pks@[j] == acc);
                    assert(acc@ == ec_mul(gg, psum(f, i as nat, pc.len() as int)));
                }
            }
        }
        i = i + 1;
    }
    pks
}

} // verus!
