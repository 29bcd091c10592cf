//! Folding validated dealings into one receiver's final key material.

use vstd::prelude::*;
use crate::fadd;
use crate::group::GroupElement;
use crate::group::ec_mul;
use crate::group::id_bytes;
use crate::group::in_group;
use crate::commitment::PolynomialCommitment;
use crate::commitment::combine_spec;
use crate::commitment::commit_spec;
use crate::commitment::eval_commitment;
use crate::commitment::pubcoeff_to_pks;
use crate::dealing::Dealing;
use crate::polynomial::padd;
use crate::polynomial::peval;
use crate::polynomial::wf_coeffs;
use crate::polynomial::lemma_peval_at_zero;
use crate::polynomial::lemma_peval_padd;
use crate::polynomial::lemma_psum_bound;
use crate::scalar::Scalar;
use crate::scalar::field_add;

verus! {

/// The commitments the dealings carry, in dealing order.
pub open spec fn dealing_commitments(dealings: Seq<Dealing>) -> Seq<Seq<Seq<u8>>> {
    Seq::new(dealings.len(), |d: int| dealings[d].public_coefficients@)
}

/// The value of one supplied decryption result (zero where it failed;
/// a failed slot never reaches a sum).
pub open spec fn share_value(s: Option<Scalar>) -> nat {
    match s {
        Option::Some(v) => v@,
        Option::None => 0,
    }
}

/// A supplied decryption result is well formed when a successful one
/// carries a well-formed scalar.
pub open spec fn share_wf(s: Option<Scalar>) -> bool {
    match s {
        Option::Some(v) => v.wf(),
        Option::None => true,
    }
}

/// The values of the supplied decryption results, in dealing order.
pub open spec fn share_values(shares: Seq<Option<Scalar>>) -> Seq<nat> {
    Seq::new(shares.len(), |d: int| share_value(shares[d]))
}

/// The sum of the first `k` values in the scalar field, accumulated from
/// zero.
pub open spec fn sum_shares(vals: Seq<nat>, k: int) -> nat
    decreases k,
{
    if k <= 0 {
        0
    } else {
        fadd(sum_shares(vals, k - 1), vals[k - 1])
    }
}

/// The pointwise sum of the first `k` commitments, starting from the zero
/// commitment (which the first commitment replaces).
pub open spec fn sum_comms(cs: Seq<Seq<Seq<u8>>>, k: int) -> Seq<Seq<u8>>
    decreases k,
{
    if k <= 0 {
        Seq::empty()
    } else if k == 1 {
        cs[0]
    } else {
        combine_spec(sum_comms(cs, k - 1), cs[k - 1])
    }
}

/// The coefficient-wise sum of the first `k` secret polynomials.
pub open spec fn poly_sum(fs: Seq<Seq<nat>>, k: int) -> Seq<nat>
    decreases k,
{
    if k <= 0 {
        Seq::empty()
    } else if k == 1 {
        fs[0]
    } else {
        padd(poly_sum(fs, k - 1), fs[k - 1])
    }
}

/// All dealings commit with the same threshold.
pub open spec fn equal_commitment_lengths(cs: Seq<Seq<Seq<u8>>>) -> bool {
    forall|d: int| 0 <= d < cs.len() ==> #[trigger] cs[d].len() == cs[0].len()
}

/// Every dealing's ciphertext for this receiver was decrypted.
pub open spec fn all_decrypted(shares: Seq<Option<Scalar>>) -> bool {
    forall|d: int| 0 <= d < shares.len() ==> #[trigger] shares[d] is Some
}

/// Each commitment is the commitment of the corresponding secret
/// polynomial under the generator `gg`.
pub open spec fn all_committed(cs: Seq<Seq<Seq<u8>>>, fs: Seq<Seq<nat>>, gg: Seq<u8>) -> bool {
    &&& fs.len() == cs.len()
    &&& forall|d: int| 0 <= d < fs.len() ==> wf_coeffs(#[trigger] fs[d])
    &&& forall|d: int| 0 <= d < cs.len() ==> #[trigger] cs[d] == commit_spec(fs[d], gg)
}

/// Each supplied share is the evaluation of the corresponding secret
/// polynomial at the point `x`.
pub open spec fn all_shares_eval(shares: Seq<Option<Scalar>>, fs: Seq<Seq<nat>>, x: nat) -> bool {
    forall|d: int| 0 <= d < shares.len() ==> #[trigger] share_value(shares[d]) == peval(fs[d], x)
}

/// The first dealing whose commitment length differs from the first
/// dealing's.
pub open spec fn first_mismatched(cs: Seq<Seq<Seq<u8>>>) -> int {
    choose|d: int|
        0 <= d < cs.len() && #[trigger] cs[d].len() != cs[0].len() && forall|e: int|
            0 <= e < d ==> #[trigger] cs[e].len() == cs[0].len()
}

/// The first dealing whose ciphertext for this receiver failed to decrypt.
pub open spec fn first_undecrypted(shares: Seq<Option<Scalar>>) -> int {
    choose|d: int|
        0 <= d < shares.len() && !(#[trigger] shares[d] is Some) && forall|e: int|
            0 <= e < d ==> #[trigger] shares[e] is Some
}

/// Why an aggregation was rejected as a whole.
#[derive(Clone, Debug, PartialEq, Eq, Structural)]
pub enum AggregateDealingsError {
    /// Two dealings in the set commit with different thresholds.
    MismatchedCommitmentLength { dealing_index: usize },
    /// This receiver's ciphertext in one dealing failed to decrypt.
    CiphertextDecryptionFailed { dealing_index: usize },
}

/// One receiver's final output of combining a set of dealings.
#[derive(Debug)]
pub struct AggregationResult {
    pub secret_key_share: Scalar,
    pub group_public_key: GroupElement,
    pub partial_public_keys: Vec<GroupElement>,
    pub combined_commitment: PolynomialCommitment,
}

/// The sum of the first `k` secret polynomials has well-formed, equally
/// long coefficients.
proof fn lemma_poly_sum_wf(fs: Seq<Seq<nat>>, k: int)
    requires
        0 <= k <= fs.len(),
        forall|d: int| 0 <= d < k ==> wf_coeffs(#[trigger] fs[d]),
        forall|d: int| 0 <= d < k ==> (#[trigger] fs[d]).len() == fs[0].len(),
    ensures
        wf_coeffs(poly_sum(fs, k)),
        k >= 1 ==> poly_sum(fs, k).len() == fs[0].len(),
        k <= 0 ==> poly_sum(fs, k).len() == 0,
    decreases k,
{
    if k > 1 {
        lemma_poly_sum_wf(fs, k - 1);
        assert forall|j: int| 0 <= j < poly_sum(fs, k).len() implies #[trigger] poly_sum(fs, k)[j]
            < crate::group_order() by {
            assert(poly_sum(fs, k)[j] == fadd(poly_sum(fs, k - 1)[j], fs[k - 1][j]));
        }
    }
}

/// Summing the evaluations of the secret polynomials at one point equals
/// evaluating their sum there.
proof fn lemma_sum_shares_peval(fs: Seq<Seq<nat>>, vals: Seq<nat>, x: nat, k: int)
    requires
        0 <= k <= fs.len(),
        vals.len() == fs.len(),
        forall|d: int| 0 <= d < fs.len() ==> wf_coeffs(#[trigger] fs[d]),
        forall|d: int| 0 <= d < fs.len() ==> (#[trigger] fs[d]).len() == fs[0].len(),
        forall|d: int| 0 <= d < fs.len() ==> #[trigger] vals[d] == peval(fs[d], x),
    ensures
        sum_shares(vals, k) == peval(poly_sum(fs, k), x),
    decreases k,
{
    if k <= 0 {
        assert(peval(Seq::<nat>::empty(), x) == 0);
    } else if k == 1 {
        assert(vals[0] == peval(fs[0], x));
        assert(sum_shares(vals, 1) == fadd(sum_shares(vals, 0), vals[0]));
        lemma_psum_bound(fs[0], x, fs[0].len() as int);
        crate::lemma_fadd_zero(peval(fs[0], x));
    } else {
        lemma_sum_shares_peval(fs, vals, x, k - 1);
        lemma_poly_sum_wf(fs, k - 1);
        assert(poly_sum(fs, k - 1).len() == fs[0].len());
        assert(fs[k - 1].len() == fs[0].len());
        lemma_peval_padd(poly_sum(fs, k - 1), fs[k - 1], x);
        assert(vals[k - 1] == peval(fs[k - 1], x));
        assert(sum_shares(vals, k) == fadd(sum_shares(vals, k - 1), vals[k - 1]));
        assert(poly_sum(fs, k) == padd(poly_sum(fs, k - 1), fs[k - 1]));
    }
}

/// Fold a set of validated dealings into this receiver's secret key
/// share, the group public key, every receiver's partial public key, and
/// the combined commitment.
///
/// `decrypted_shares` carries, per dealing, the decryption of that
/// dealing's ciphertext addressed to this receiver (`None` where
/// decryption failed), as produced by the surrounding class-group
/// decryption layer. The fold is all or nothing: if any slot failed to
/// decrypt, or any two commitments disagree on the threshold, the whole
/// call fails and no partial result is returned. Aggregating no dealings
/// at all yields the zero commitment, the zero share, and the identity as
/// group public key.
///
/// The second-to-last clause is the consistency of aggregation: where
/// every dealing commits to a secret polynomial under one generator and
/// every supplied share is that polynomial's evaluation at this
/// receiver's point, the secret key share is the evaluation of the summed
/// polynomial there, and the group public key is the summed polynomial's
/// constant term behind the generator.
pub fn aggregate_dealings(
    dealings: &Vec<Dealing>,
    decrypted_shares: &Vec<Option<Scalar>>,
    total_nodes: usize,
) -> (r: Result<AggregationResult, AggregateDealingsError>)
    requires
        decrypted_shares@.len() == dealings@.len(),
        forall|d: int| 0 <= d < dealings@.len() ==> (#[trigger] dealings@[d]).wf(),
        forall|d: int|
            0 <= d < decrypted_shares@.len() ==> #[trigger] share_wf(decrypted_shares@[d]),
        total_nodes < usize::MAX,
    ensures
        r is Ok <==> (equal_commitment_lengths(dealing_commitments(dealings@)) && all_decrypted(
            decrypted_shares@,
        )),
        !all_decrypted(decrypted_shares@) ==> r == Result::<
            AggregationResult,
            AggregateDealingsError,
        >::Err(
            AggregateDealingsError::CiphertextDecryptionFailed {
                dealing_index: first_undecrypted(decrypted_shares@) as usize,
            },
        ),
        all_decrypted(decrypted_shares@) && !equal_commitment_lengths(
            dealing_commitments(dealings@),
        ) ==> r == Result::<AggregationResult, AggregateDealingsError>::Err(
            AggregateDealingsError::MismatchedCommitmentLength {
                dealing_index: first_mismatched(dealing_commitments(dealings@)) as usize,
            },
        ),
        r matches Ok(res) ==> {
            let cs = dealing_commitments(dealings@);
            &&& res.combined_commitment@ == sum_comms(cs, cs.len() as int)
            &&& res.combined_commitment.wf()
            &&& res.secret_key_share@ == sum_shares(
                share_values(decrypted_shares@),
                decrypted_shares@.len() as int,
            )
            &&& res.secret_key_share.wf()
            &&& res.group_public_key@ == (if sum_comms(cs, cs.len() as int).len() == 0 {
                id_bytes()
            } else {
                sum_comms(cs, cs.len() as int)[0]
            })
            &&& res.group_public_key.wf()
            &&& res.partial_public_keys@.len() == total_nodes
            &&& forall|j: int|
                0 <= j < total_nodes ==> (#[trigger] res.partial_public_keys@[j])@
                    == eval_commitment(sum_comms(cs, cs.len() as int), (j + 1) as nat)
            &&& forall|j: int|
                0 <= j < total_nodes ==> (#[trigger] res.partial_public_keys@[j]).wf()
        },
        r matches Ok(res) ==> forall|fs: Seq<Seq<nat>>, gg: Seq<u8>|
            #![trigger all_committed(dealing_commitments(dealings@), fs, gg)]
            in_group(gg) && all_committed(dealing_commitments(dealings@), fs, gg)
                && dealings@.len() >= 1 ==> {
                let fsum = poly_sum(fs, fs.len() as int);
                &&& res.combined_commitment@ == commit_spec(fsum, gg)
                &&& (fs[0].len() >= 1 ==> res.group_public_key@ == ec_mul(gg, peval(fsum, 0)))
                &&& (fs[0].len() >= 1 ==> forall|j: int|
                    0 <= j < total_nodes ==> (#[trigger] res.partial_public_keys@[j])@ == ec_mul(
                        gg,
                        peval(fsum, (j + 1) as nat),
                    ))
            },
        r matches Ok(res) ==> forall|fs: Seq<Seq<nat>>, gg: Seq<u8>, x: nat|
            #![trigger all_committed(dealing_commitments(dealings@), fs, gg), all_shares_eval(decrypted_shares@, fs, x)]
            in_group(gg) && all_committed(dealing_commitments(dealings@), fs, gg)
                && all_shares_eval(decrypted_shares@, fs, x) && dealings@.len() >= 1
                ==> res.secret_key_share@ == peval(poly_sum(fs, fs.len() as int), x),
        dealings@.len() == 0 ==> (r matches Ok(res) ==> res.secret_key_share@ == 0
            && res.group_public_key@ == id_bytes() && res.combined_commitment@.len() == 0),
{
    let ghost cs = dealing_commitments(dealings@);
    let ghost vals = share_values(decrypted_shares@);
    let mut acc = Scalar::zero();
    let mut s: usize = 0;
    while s < decrypted_shares.len()
        invariant
            decrypted_shares@.len() == dealings@.len(),
            vals == share_values(decrypted_shares@),
            forall|dd: int|
                0 <= dd < decrypted_shares@.len() ==> #[trigger] share_wf(decrypted_shares@[dd]),
            s <= decrypted_shares@.len(),
            forall|e: int| 0 <= e < s ==> #[trigger] decrypted_shares@[e] is Some,
            acc@ == sum_shares(vals, s as int),
            acc.wf(),
        decreases decrypted_shares@.len() - s,
    {
        match &decrypted_shares[s] {
            Option::Some(v) => {
                proof {
                    assert(share_wf(decrypted_shares@[s as int]));
                }
                acc = field_add(&acc, v);
                proof {
                    assert(vals[s as int] == v@);
                }
            },
            Option::None => {
                proof {
                    lemma_first_undecrypted_is(decrypted_shares@, s as int);
                }
                return Result::Err(
                    AggregateDealingsError::CiphertextDecryptionFailed { dealing_index: s },
                );
            },
        }
        s = s + 1;
    }
    let mut combined = PolynomialCommitment::zero();
    let mut d: usize = 0;
    while d < dealings.len()
        invariant
            decrypted_shares@.len() == dealings@.len(),
            forall|dd: int| 0 <= dd < dealings@.len() ==> (#[trigger] dealings@[dd]).wf(),
            cs == dealing_commitments(dealings@),
            vals == share_values(decrypted_shares@),
            all_decrypted(decrypted_shares@),
            acc@ == sum_shares(vals, vals.len() as int),
            acc.wf(),
            d <= dealings@.len(),
            forall|e: int| 0 <= e < d ==> #[trigger] cs[e].len() == cs[0].len(),
            combined@ == sum_comms(cs, d as int),
            combined.wf(),
            d >= 1 ==> combined@.len() == cs[0].len(),
            forall|fs: Seq<Seq<nat>>, gg: Seq<u8>|
                #![trigger all_committed(cs, fs, gg)]
                in_group(gg) && all_committed(cs, fs, gg) && d >= 1 ==> combined@ == commit_spec(
                    poly_sum(fs, d as int),
                    gg,
                ),
        decreases dealings@.len() - d,
    {
        proof {
            assert(cs[d as int] == dealings@[d as int].public_coefficients@);
        }
        let ghost prev = combined@;
        if d == 0 {
            combined = dealings[0].public_coefficients.duplicate();
            proof {
                assert forall|fs: Seq<Seq<nat>>, gg: Seq<u8>|
                    #![trigger all_committed(cs, fs, gg)]
                    in_group(gg) && all_committed(cs, fs, gg) implies combined@ == commit_spec(
                    poly_sum(fs, 1),
                    gg,
                ) by {
                    assert(cs[0] == commit_spec(fs[0], gg));
                }
            }
        } else {
            match combined.combine(&dealings[d].public_coefficients) {
                Result::Ok(c) => {
                    proof {
                        assert forall|fs: Seq<Seq<nat>>, gg: Seq<u8>|
                            #![trigger all_committed(cs, fs, gg)]
                            in_group(gg) && all_committed(cs, fs, gg) implies c@ == commit_spec(
                            poly_sum(fs, d as int + 1),
                            gg,
                        ) by {
                            assert(cs[d as int] == commit_spec(fs[d as int], gg));
                            assert(prev == commit_spec(poly_sum(fs, d as int), gg));
                            assert forall|e: int| 0 <= e < d implies (#[trigger] fs[e]).len()
                                == fs[0].len() by {
                                assert(cs[e] == commit_spec(fs[e], gg));
                                assert(cs[0] == commit_spec(fs[0], gg));
                                assert(cs[e].len() == cs[0].len());
                            }
                            lemma_poly_sum_wf(fs, d as int);
                            assert(wf_coeffs(poly_sum(fs, d as int)));
                            assert(wf_coeffs(fs[d as int]));
                            assert(c@ == commit_spec(
                                padd(poly_sum(fs, d as int), fs[d as int]),
                                gg,
                            ));
                        }
                    }
                    combined = c;
                },
                Result::Err(_) => {
                    proof {
                        lemma_first_mismatched_is(cs, d as int);
                    }
                    return Result::Err(
                        AggregateDealingsError::MismatchedCommitmentLength { dealing_index: d },
                    );
                },
            }
        }
        d = d + 1;
    }
    let partial_public_keys = pubcoeff_to_pks(&combined, total_nodes);
    let group_public_key = if combined.coefficients.len() == 0 {
        GroupElement::identity()
    } else {
        combined.coefficients[0].duplicate()
    };
    let res = AggregationResult {
        secret_key_share: acc,
        group_public_key,
        partial_public_keys,
        combined_commitment: combined,
    };
    proof {
        assert forall|fs: Seq<Seq<nat>>, gg: Seq<u8>|
            #![trigger all_committed(cs, fs, gg)]
            in_group(gg) && all_committed(cs, fs, gg) && dealings@.len() >= 1 implies {
            let fsum = poly_sum(fs, fs.len() as int);
            &&& res.combined_commitment@ == commit_spec(fsum, gg)
            &&& (fs[0].len() >= 1 ==> res.group_public_key@ == ec_mul(gg, peval(fsum, 0)))
            &&& (fs[0].len() >= 1 ==> forall|j: int|
                0 <= j < total_nodes ==> (#[trigger] res.partial_public_keys@[j])@ == ec_mul(
                    gg,
                    peval(fsum, (j + 1) as nat),
                ))
        } by {
            let fsum = poly_sum(fs, fs.len() as int);
            assert(res.combined_commitment@ == commit_spec(fsum, gg));
            assert forall|e: int| 0 <= e < fs.len() implies (#[trigger] fs[e]).len()
                == fs[0].len() by {
                assert(cs[e] == commit_spec(fs[e], gg));
                assert(cs[0] == commit_spec(fs[0], gg));
                assert(cs[e].len() == cs[0].len());
            }
            if fs[0].len() >= 1 {
                lemma_poly_sum_wf(fs, fs.len() as int);
                lemma_peval_at_zero(fsum);
                assert(commit_spec(fsum, gg)[0] == ec_mul(gg, fsum[0]));
                assert forall|j: int| 0 <= j < total_nodes implies (#[trigger] res
                    .partial_public_keys@[j])@ == ec_mul(gg, peval(fsum, (j + 1) as nat)) by {
                    assert(combined@ == commit_spec(fsum, gg));
                    assert(fsum.len() >= 1);
                }
            }
        }
        assert forall|fs: Seq<Seq<nat>>, gg: Seq<u8>, x: nat|
            #![trigger all_committed(cs, fs, gg), all_shares_eval(decrypted_shares@, fs, x)]
            in_group(gg) && all_committed(cs, fs, gg) && all_shares_eval(decrypted_shares@, fs, x)
                && dealings@.len() >= 1 implies res.secret_key_share@ == peval(
            poly_sum(fs, fs.len() as int),
            x,
        ) by {
            assert forall|e: int| 0 <= e < fs.len() implies (#[trigger] fs[e]).len()
                == fs[0].len() by {
                assert(cs[e] == commit_spec(fs[e], gg));
                assert(cs[0] == commit_spec(fs[0], gg));
                assert(cs[e].len() == cs[0].len());
            }
            assert forall|e: int| 0 <= e < fs.len() implies #[trigger] vals[e] == peval(
                fs[e],
                x,
            ) by {
                assert(share_value(decrypted_shares@[e]) == peval(fs[e], x));
            }
            lemma_sum_shares_peval(fs, vals, x, fs.len() as int);
        }
    }
    Result::Ok(res)
}

/// The coefficient sequence with `len` zero coefficients.
pub open spec fn zero_poly(len: nat) -> Seq<nat> {
    Seq::new(len, |k: int| 0nat)
}

/// A share sum only reads the first `k` values.
proof fn lemma_sum_shares_prefix(v: Seq<nat>, k: int)
    requires
        k <= v.len() - 1,
    ensures
        sum_shares(v, k) == sum_shares(v.drop_last(), k),
    decreases k,
{
    if k > 0 {
        lemma_sum_shares_prefix(v, k - 1);
        assert(v.drop_last()[k - 1] == v[k - 1]);
    }
}

/// The share sum is the left fold of field addition over the values.
proof fn lemma_sum_shares_is_fold(v: Seq<nat>)
    ensures
        sum_shares(v, v.len() as int) == v.fold_left(0nat, |b: nat, a: nat| fadd(b, a)),
    decreases v.len(),
{
    if v.len() > 0 {
        lemma_sum_shares_is_fold(v.drop_last());
        lemma_sum_shares_prefix(v, v.len() - 1);
    }
}

/// Order independence of the share sum: summing the decrypted shares in
/// any order yields the same secret key share.
pub proof fn lemma_sum_shares_order_independent(v1: Seq<nat>, v2: Seq<nat>)
    requires
        v1.to_multiset() == v2.to_multiset(),
    ensures
        sum_shares(v1, v1.len() as int) == sum_shares(v2, v2.len() as int),
{
    let f = |b: nat, a: nat| fadd(b, a);
    assert forall|x: nat, y: nat, v: nat| #[trigger] f(f(v, x), y) == f(f(v, y), x) by {
        crate::lemma_fadd_assoc(v, x, y);
        crate::lemma_fadd_assoc(v, y, x);
    }
    lemma_sum_shares_is_fold(v1);
    lemma_sum_shares_is_fold(v2);
    vstd::seq_lib::lemma_fold_left_permutation(v1, v2, f, 0nat);
}

/// A polynomial sum only reads the first `k` polynomials.
proof fn lemma_poly_sum_prefix(fs: Seq<Seq<nat>>, k: int)
    requires
        k <= fs.len() - 1,
    ensures
        poly_sum(fs, k) == poly_sum(fs.drop_last(), k),
    decreases k,
{
    if k > 0 {
        lemma_poly_sum_prefix(fs, k - 1);
        assert(fs.drop_last()[k - 1] == fs[k - 1]);
    }
}

/// The polynomial sum is the left fold of pointwise field addition over
/// the coefficient sequences, started from the zero polynomial.
proof fn lemma_poly_sum_is_fold(fs: Seq<Seq<nat>>, len: nat)
    requires
        fs.len() >= 1,
        forall|d: int| 0 <= d < fs.len() ==> wf_coeffs(#[trigger] fs[d]),
        forall|d: int| 0 <= d < fs.len() ==> (#[trigger] fs[d]).len() == len,
    ensures
        poly_sum(fs, fs.len() as int) == fs.fold_left(
            zero_poly(len),
            |b: Seq<nat>, a: Seq<nat>| padd(b, a),
        ),
    decreases fs.len(),
{
    let f = |b: Seq<nat>, a: Seq<nat>| padd(b, a);
    if fs.len() == 1 {
        assert(fs.drop_last().len() == 0);
        assert(fs.drop_last().fold_left(zero_poly(len), f) == zero_poly(len));
        assert(fs.fold_left(zero_poly(len), f) == f(
            fs.drop_last().fold_left(zero_poly(len), f),
            fs.last(),
        ));
        assert(fs.last() == fs[0]);
        assert(padd(zero_poly(len), fs[0]) =~= fs[0]) by {
            assert forall|k: int| 0 <= k < len implies padd(zero_poly(len), fs[0])[k]
                == fs[0][k] by {
                crate::lemma_fadd_zero(fs[0][k]);
            }
        }
    } else {
        lemma_poly_sum_is_fold(fs.drop_last(), len);
        lemma_poly_sum_prefix(fs, fs.len() - 1);
        assert(fs.fold_left(zero_poly(len), f) == f(
            fs.drop_last().fold_left(zero_poly(len), f),
            fs.last(),
        ));
    }
}

/// Order independence of the polynomial sum: the dealers' secret
/// polynomials sum to the same polynomial in any order, so the combined
/// commitment, the group public key and the partial public keys of an
/// aggregation over honestly committed dealings do not depend on the
/// order the dealings are folded in.
pub proof fn lemma_poly_sum_order_independent(fs1: Seq<Seq<nat>>, fs2: Seq<Seq<nat>>, len: nat)
    requires
        fs1.len() >= 1,
        fs2.len() >= 1,
        fs1.to_multiset() == fs2.to_multiset(),
        forall|d: int| 0 <= d < fs1.len() ==> wf_coeffs(#[trigger] fs1[d]),
        forall|d: int| 0 <= d < fs1.len() ==> (#[trigger] fs1[d]).len() == len,
        forall|d: int| 0 <= d < fs2.len() ==> wf_coeffs(#[trigger] fs2[d]),
        forall|d: int| 0 <= d < fs2.len() ==> (#[trigger] fs2[d]).len() == len,
    ensures
        poly_sum(fs1, fs1.len() as int) == poly_sum(fs2, fs2.len() as int),
{
    let f = |b: Seq<nat>, a: Seq<nat>| padd(b, a);
    assert forall|x: Seq<nat>, y: Seq<nat>, v: Seq<nat>| #[trigger] f(f(v, x), y) == f(
        f(v, y),
        x,
    ) by {
        assert(padd(padd(v, x), y) =~= padd(padd(v, y), x)) by {
            assert forall|k: int| 0 <= k < v.len() implies padd(padd(v, x), y)[k] == padd(
                padd(v, y),
                x,
            )[k] by {
                crate::lemma_fadd_assoc(v[k], x[k], y[k]);
                crate::lemma_fadd_assoc(v[k], y[k], x[k]);
            }
        }
    }
    lemma_poly_sum_is_fold(fs1, len);
    lemma_poly_sum_is_fold(fs2, len);
    vstd::seq_lib::lemma_fold_left_permutation(fs1, fs2, f, zero_poly(len));
}

/// If the first `d` commitment lengths all match the first commitment's
/// and the one at `d` does not, then `d` is the first mismatch.
proof fn lemma_first_mismatched_is(cs: Seq<Seq<Seq<u8>>>, d: int)
    requires
        0 <= d < cs.len(),
        cs[d].len() != cs[0].len(),
        forall|e: int| 0 <= e < d ==> #[trigger] cs[e].len() == cs[0].len(),
    ensures
        first_mismatched(cs) == d,
        !equal_commitment_lengths(cs),
{
    let w = first_mismatched(cs);
    assert(0 <= w < cs.len() && cs[w].len() != cs[0].len() && forall|e: int|
        0 <= e < w ==> #[trigger] cs[e].len() == cs[0].len()) by {
        assert(0 <= d < cs.len() && cs[d].len() != cs[0].len() && forall|e: int|
            0 <= e < d ==> #[trigger] cs[e].len() == cs[0].len());
    }
    if w < d {
        assert(cs[w].len() == cs[0].len());
    }
    if d < w {
        assert(cs[d].len() == cs[0].len());
    }
}

/// If the first `s` shares are all present and the one at `s` is not,
/// then `s` is the first failed slot.
proof fn lemma_first_undecrypted_is(shares: Seq<Option<Scalar>>, s: int)
    requires
        0 <= s < shares.len(),
        !(shares[s] is Some),
        forall|e: int| 0 <= e < s ==> #[trigger] shares[e] is Some,
    ensures
        first_undecrypted(shares) == s,
        !all_decrypted(shares),
{
    let w = first_undecrypted(shares);
    assert(0 <= w < shares.len() && !(shares[w] is Some) && forall|e: int|
        0 <= e < w ==> #[trigger] shares[e] is Some) by {
        assert(0 <= s < shares.len() && !(shares[s] is Some) && forall|e: int|
            0 <= e < s ==> #[trigger] shares[e] is Some);
    }
    if w < s {
        assert(shares[w] is Some);
    }
    if s < w {
        assert(shares[s] is Some);
    }
}

} // verus!
