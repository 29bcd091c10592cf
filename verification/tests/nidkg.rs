use classgroup::aggregate::aggregate_dealings;
use classgroup::aggregate::AggregateDealingsError;
use classgroup::commitment::pubcoeff_to_pks;
use classgroup::commitment::PolynomialCommitment;
use classgroup::dealing::validate_dealing;
use classgroup::dealing::Ciphertext;
use classgroup::dealing::Dealing;
use classgroup::dealing::MalformedPublicKeyError;
use classgroup::dealing::NiDkgCreateDealingError;
use classgroup::dealing::SharingProof;
use classgroup::group::derive_generator;
use classgroup::group::group_from_bytes;
use classgroup::group::group_mul;
use classgroup::group::GroupElement;
use classgroup::polynomial::Polynomial;
use classgroup::scalar::field_add;
use classgroup::scalar::scalar_from_be_bytes;
use classgroup::scalar::scalar_from_u64;
use classgroup::scalar::Scalar;

fn gen() -> GroupElement {
    derive_generator(&b"cgdkg".to_vec())
}

fn poly(coeffs: &[u64]) -> Polynomial {
    let mut v: Vec<Scalar> = Vec::new();
    for c in coeffs {
        v.push(scalar_from_u64(*c));
    }
    Polynomial::from_coefficients(v)
}

fn commitments_equal(a: &PolynomialCommitment, b: &PolynomialCommitment) -> bool {
    if a.coefficients.len() != b.coefficients.len() {
        return false;
    }
    for k in 0..a.coefficients.len() {
        if !a.coefficients[k].equals(&b.coefficients[k]) {
            return false;
        }
    }
    true
}

fn dealing_for(coeffs: &[u64], receivers: usize) -> Dealing {
    let mut cts: Vec<Ciphertext> = Vec::new();
    for i in 0..receivers {
        cts.push(Ciphertext { bytes: vec![i as u8] });
    }
    Dealing {
        public_coefficients: PolynomialCommitment::from_polynomial(&poly(coeffs), &gen()),
        ciphertexts: cts,
        zk_proof_correct_sharing: SharingProof { bytes: vec![0u8] },
    }
}

#[test]
fn commitment_linearity() {
    let g = gen();
    let f = poly(&[2, 3, 5]);
    let h = poly(&[7, 11, 13]);
    let cf = PolynomialCommitment::from_polynomial(&f, &g);
    let ch = PolynomialCommitment::from_polynomial(&h, &g);
    let combined = cf.combine(&ch).unwrap();
    let expected = PolynomialCommitment::from_polynomial(&f.add(&h), &g);
    assert!(commitments_equal(&combined, &expected));
}

#[test]
fn combine_rejects_length_mismatch() {
    let g = gen();
    let cf = PolynomialCommitment::from_polynomial(&poly(&[2, 3]), &g);
    let ch = PolynomialCommitment::from_polynomial(&poly(&[7, 11, 13]), &g);
    let e = cf.combine(&ch).unwrap_err();
    assert_eq!(e.left_len, 2);
    assert_eq!(e.right_len, 3);
}

#[test]
fn evaluation_correctness() {
    let g = gen();
    let f = poly(&[9, 4, 17]);
    let c = PolynomialCommitment::from_polynomial(&f, &g);
    let pks = pubcoeff_to_pks(&c, 5);
    assert_eq!(pks.len(), 5);
    for i in 1..=5u64 {
        let expected = group_mul(&g, &f.evaluate(&scalar_from_u64(i)));
        assert!(pks[(i - 1) as usize].equals(&expected));
    }
}

#[test]
fn degenerate_threshold_equal_partial_keys() {
    let g = gen();
    let c = PolynomialCommitment::from_polynomial(&poly(&[5]), &g);
    let pks = pubcoeff_to_pks(&c, 4);
    assert_eq!(pks.len(), 4);
    for pk in &pks {
        assert!(pk.equals(&c.coefficients[0]));
    }
}

#[test]
fn aggregation_consistency() {
    let g = gen();
    let f1 = [3u64, 8, 2];
    let f2 = [10u64, 1, 6];
    let dealings = vec![dealing_for(&f1, 5), dealing_for(&f2, 5)];
    let x = scalar_from_u64(2);
    let shares = vec![
        Some(poly(&f1).evaluate(&x)),
        Some(poly(&f2).evaluate(&x)),
    ];
    let res = aggregate_dealings(&dealings, &shares, 5).unwrap();
    let fsum = poly(&f1).add(&poly(&f2));
    let expected_share = fsum.evaluate(&x);
    assert!(res.secret_key_share.equals(&expected_share));
    let expected_gpk = group_mul(&g, &scalar_from_u64(13));
    assert!(res.group_public_key.equals(&expected_gpk));
    let expected_commitment = PolynomialCommitment::from_polynomial(&fsum, &g);
    assert!(commitments_equal(&res.combined_commitment, &expected_commitment));
    let expected_pks = pubcoeff_to_pks(&expected_commitment, 5);
    assert_eq!(res.partial_public_keys.len(), 5);
    for i in 0..5 {
        assert!(res.partial_public_keys[i].equals(&expected_pks[i]));
    }
}

#[test]
fn empty_input_identity() {
    let res = aggregate_dealings(&vec![], &vec![], 4).unwrap();
    assert!(res.secret_key_share.equals(&Scalar::zero()));
    assert!(res.group_public_key.equals(&GroupElement::identity()));
    assert_eq!(res.combined_commitment.coefficients.len(), 0);
    assert_eq!(res.partial_public_keys.len(), 4);
    for pk in &res.partial_public_keys {
        assert!(pk.equals(&GroupElement::identity()));
    }
}

#[test]
fn fail_fast_atomicity() {
    let dealings = vec![
        dealing_for(&[1, 2, 3], 5),
        dealing_for(&[4, 5, 6], 5),
        dealing_for(&[7, 8, 9], 5),
    ];
    let x = scalar_from_u64(3);
    let shares = vec![
        Some(poly(&[1, 2, 3]).evaluate(&x)),
        None,
        Some(poly(&[7, 8, 9]).evaluate(&x)),
    ];
    let err = aggregate_dealings(&dealings, &shares, 5).unwrap_err();
    assert_eq!(
        err,
        AggregateDealingsError::CiphertextDecryptionFailed { dealing_index: 1 }
    );
}

#[test]
fn aggregation_rejects_mismatched_thresholds() {
    let dealings = vec![dealing_for(&[1, 2], 4), dealing_for(&[3, 4, 5], 4)];
    let x = scalar_from_u64(1);
    let shares = vec![
        Some(poly(&[1, 2]).evaluate(&x)),
        Some(poly(&[3, 4, 5]).evaluate(&x)),
    ];
    let err = aggregate_dealings(&dealings, &shares, 4).unwrap_err();
    assert_eq!(
        err,
        AggregateDealingsError::MismatchedCommitmentLength { dealing_index: 1 }
    );
}

#[test]
fn order_independence() {
    let fa = [3u64, 8, 2];
    let fb = [10u64, 1, 6];
    let fc = [4u64, 9, 11];
    let x = scalar_from_u64(4);
    let share = |f: &[u64]| Some(poly(f).evaluate(&x));
    let first = aggregate_dealings(
        &vec![dealing_for(&fa, 5), dealing_for(&fb, 5), dealing_for(&fc, 5)],
        &vec![share(&fa), share(&fb), share(&fc)],
        5,
    )
    .unwrap();
    let second = aggregate_dealings(
        &vec![dealing_for(&fc, 5), dealing_for(&fa, 5), dealing_for(&fb, 5)],
        &vec![share(&fc), share(&fa), share(&fb)],
        5,
    )
    .unwrap();
    assert_eq!(
        first.secret_key_share.to_be_bytes(),
        second.secret_key_share.to_be_bytes()
    );
    assert_eq!(
        first.group_public_key.to_bytes(),
        second.group_public_key.to_bytes()
    );
    assert_eq!(
        first.partial_public_keys.len(),
        second.partial_public_keys.len()
    );
    for i in 0..first.partial_public_keys.len() {
        assert_eq!(
            first.partial_public_keys[i].to_bytes(),
            second.partial_public_keys[i].to_bytes()
        );
    }
    for k in 0..first.combined_commitment.coefficients.len() {
        assert_eq!(
            first.combined_commitment.coefficients[k].to_bytes(),
            second.combined_commitment.coefficients[k].to_bytes()
        );
    }
}

#[test]
fn degenerate_threshold_aggregation() {
    let g = gen();
    let dealings = vec![dealing_for(&[6], 3)];
    let shares = vec![Some(poly(&[6]).evaluate(&scalar_from_u64(1)))];
    let res = aggregate_dealings(&dealings, &shares, 3).unwrap();
    let expected = group_mul(&g, &scalar_from_u64(6));
    assert!(res.group_public_key.equals(&expected));
    for pk in &res.partial_public_keys {
        assert!(pk.equals(&expected));
    }
    assert!(res.secret_key_share.equals(&scalar_from_u64(6)));
}

#[test]
fn validation_accepts_well_formed_dealing() {
    let dealing = dealing_for(&[1, 2], 4);
    let flaws: Vec<Option<MalformedPublicKeyError>> = vec![None, None, None, None];
    assert!(validate_dealing(2, 4, &flaws, &dealing).is_ok());
}

#[test]
fn validation_rejects_bad_threshold() {
    let dealing = dealing_for(&[1, 2], 4);
    let flaws: Vec<Option<MalformedPublicKeyError>> = vec![None, None, None, None];
    assert!(matches!(
        validate_dealing(0, 4, &flaws, &dealing),
        Err(NiDkgCreateDealingError::InvalidThresholdError(_))
    ));
    assert!(matches!(
        validate_dealing(5, 4, &flaws, &dealing),
        Err(NiDkgCreateDealingError::InvalidThresholdError(_))
    ));
    assert!(matches!(
        validate_dealing(3, 4, &flaws, &dealing),
        Err(NiDkgCreateDealingError::InvalidThresholdError(_))
    ));
}

#[test]
fn receiver_index_contiguity() {
    let dealing = dealing_for(&[1, 2], 3);
    let flaws: Vec<Option<MalformedPublicKeyError>> = vec![None, None, None, None];
    match validate_dealing(2, 4, &flaws, &dealing) {
        Err(NiDkgCreateDealingError::MisnumberedReceiverError {
            receiver_index,
            number_of_receivers,
        }) => {
            assert_eq!(receiver_index, 3);
            assert_eq!(number_of_receivers, 4);
        }
        other => panic!("expected a misnumbered-receiver rejection, got {:?}", other),
    }
}

#[test]
fn validation_rejects_malformed_receiver_key() {
    let dealing = dealing_for(&[1, 2], 4);
    let flaws: Vec<Option<MalformedPublicKeyError>> = vec![
        None,
        None,
        Some(MalformedPublicKeyError {
            internal_error: "not in the expected subgroup".to_string(),
        }),
        None,
    ];
    match validate_dealing(2, 4, &flaws, &dealing) {
        Err(NiDkgCreateDealingError::MalformedFsPublicKeyError {
            receiver_index,
            error,
        }) => {
            assert_eq!(receiver_index, 2);
            assert_eq!(error.internal_error, "not in the expected subgroup");
        }
        other => panic!("expected a malformed-key rejection, got {:?}", other),
    }
}

#[test]
fn polynomial_evaluation_exact_value() {
    // 9 + 4 * 2 + 17 * 4 = 85
    let f = poly(&[9, 4, 17]);
    let value = f.evaluate(&scalar_from_u64(2));
    assert!(value.equals(&scalar_from_u64(85)));
    // A polynomial evaluates at zero to its constant term.
    assert!(f.evaluate(&Scalar::zero()).equals(&scalar_from_u64(9)));
}

#[test]
fn field_arithmetic_exact_values() {
    let three = scalar_from_u64(3);
    let four = scalar_from_u64(4);
    assert!(field_add(&three, &four).equals(&scalar_from_u64(7)));
    assert!(classgroup::scalar::field_mul(&three, &four).equals(&scalar_from_u64(12)));
}

#[test]
fn zero_polynomial_commits_to_nothing() {
    let c = PolynomialCommitment::from_polynomial(&Polynomial::zero(), &gen());
    assert_eq!(c.coefficients.len(), 0);
    assert!(commitments_equal(&c, &PolynomialCommitment::zero()));
}

#[test]
fn scalar_from_u64_matches_byte_decoding() {
    let mut bytes = vec![0u8; 40];
    bytes.extend_from_slice(&[0xffu8; 8]);
    let packed = scalar_from_u64(u64::MAX);
    let decoded = scalar_from_be_bytes(&bytes);
    assert!(packed.equals(&decoded));
}

#[test]
fn scalar_arithmetic_wraps_at_group_order() {
    // The group order minus one, big endian, left padded to 48 bytes.
    let mut order_minus_one = vec![0u8; 16];
    order_minus_one.extend_from_slice(&[
        0x73, 0xed, 0xa7, 0x53, 0x29, 0x9d, 0x7d, 0x48, 0x33, 0x39, 0xd8, 0x08, 0x09, 0xa1,
        0xd8, 0x05, 0x53, 0xbd, 0xa4, 0x02, 0xff, 0xfe, 0x5b, 0xfe, 0xff, 0xff, 0xff, 0xff,
        0x00, 0x00, 0x00, 0x00,
    ]);
    let r_minus_one = scalar_from_be_bytes(&order_minus_one);
    let one = scalar_from_u64(1);
    let sum = field_add(&r_minus_one, &one);
    assert!(sum.equals(&Scalar::zero()));
}

#[test]
fn group_element_round_trips_through_bytes() {
    let g = gen();
    let bytes = g.to_bytes();
    assert_eq!(bytes.len(), 49);
    let back = group_from_bytes(&bytes).unwrap();
    assert!(back.equals(&g));
    let id_bytes = GroupElement::identity().to_bytes();
    assert_eq!(id_bytes.len(), 0);
    let id_back = group_from_bytes(&id_bytes).unwrap();
    assert!(id_back.equals(&GroupElement::identity()));
    assert!(group_from_bytes(&vec![1u8, 2, 3]).is_none());
}

#[test]
fn derived_generators_are_real_points() {
    let g = gen();
    assert!(!g.equals(&GroupElement::identity()));
    let other = derive_generator(&b"another domain".to_vec());
    assert!(!other.equals(&GroupElement::identity()));
    assert!(!other.equals(&g));
}

#[test]
fn decoding_rejects_junk_bytes() {
    assert!(group_from_bytes(&vec![0xffu8; 49]).is_none());
    // An uncompressed-point marker on a 49-byte string is rejected up
    // front: only the compressed form is a canonical encoding here.
    let mut uncompressed_marker = vec![0u8; 49];
    uncompressed_marker[0] = 0x04;
    assert!(group_from_bytes(&uncompressed_marker).is_none());
    // A compressed marker whose x coordinate lies beyond the base field.
    let mut out_of_field = vec![0xffu8; 49];
    out_of_field[0] = 0x02;
    assert!(group_from_bytes(&out_of_field).is_none());
}

#[test]
fn scalar_multiples_of_generator() {
    let g = gen();
    let by_zero = group_mul(&g, &Scalar::zero());
    assert!(by_zero.equals(&GroupElement::identity()));
    let by_one = group_mul(&g, &scalar_from_u64(1));
    assert!(by_one.equals(&g));
}
