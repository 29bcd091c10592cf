//! The dealing data model: one dealer's full contribution, the error
//! taxonomy of dealing creation and validation, and the validator run
//! before a dealing is accepted.

use vstd::prelude::*;
use crate::commitment::PolynomialCommitment;

verus! {

/// An opaque class-group ciphertext, held in its canonical byte form. The
/// core never looks inside it; decryption is the surrounding process's
/// concern.
#[derive(Debug)]
pub struct Ciphertext {
    pub bytes: Vec<u8>,
}

/// An opaque non-interactive proof of correct sharing, held in its
/// canonical byte form. It must be verified against the commitment and
/// the ciphertexts before a dealing is trusted.
#[derive(Debug)]
pub struct SharingProof {
    pub bytes: Vec<u8>,
}

/// One dealer's contribution: the commitment to its secret polynomial,
/// one ciphertext per receiver in receiver-index order, and the proof of
/// correct sharing.
#[derive(Debug)]
pub struct Dealing {
    pub public_coefficients: PolynomialCommitment,
    pub ciphertexts: Vec<Ciphertext>,
    pub zk_proof_correct_sharing: SharingProof,
}

impl Dealing {
    pub open spec fn wf(&self) -> bool {
        self.public_coefficients.wf()
    }
}

/// An argument outside the scheme's supported range.
#[derive(Clone, Debug, PartialEq, Eq)]
pub struct InvalidArgumentError {
    pub message: String,
}

/// A receiver public key that fails its well-formedness check.
#[derive(Clone, Debug, PartialEq, Eq)]
pub struct MalformedPublicKeyError {
    pub internal_error: String,
}

/// A lower-layer fault not attributable to caller input.
#[derive(Clone, Debug, PartialEq, Eq)]
pub struct InternalError {
    pub internal_error: String,
}

#[derive(Clone, Debug, PartialEq, Eq)]
pub enum NiDkgCreateDealingError {
    /// The threshold scheme does not support the supplied parameters.
    InvalidThresholdError(InvalidArgumentError),
    /// Precondition error: The receiver indices are invalid.  The receiver indices SHOULD be 0..n-1.
    MisnumberedReceiverError { receiver_index: usize, number_of_receivers: usize },
    /// One of the receiver public keys is invalid.
    MalformedFsPublicKeyError { receiver_index: usize, error: MalformedPublicKeyError },
    /// An internal error, e.g. an RPC error.
    InternalError(InternalError),
}

/// The threshold `t` must support the receiver set: `1 <= t <= n`, and
/// the dealing's commitment must have exactly `t` coefficients.
pub open spec fn threshold_ok(threshold: usize, number_of_receivers: usize, dealing: Dealing) -> bool {
    1 <= threshold && threshold <= number_of_receivers && dealing.public_coefficients@.len()
        == threshold
}

/// The dealing must address exactly the receivers `0 .. n-1`: its
/// ciphertext array has one slot per receiver, in index order.
pub open spec fn receivers_ok(number_of_receivers: usize, dealing: Dealing) -> bool {
    dealing.ciphertexts@.len() == number_of_receivers
}

/// The first receiver index at which the addressed set `0 .. len-1`
/// differs from the expected set `0 .. n-1`.
pub open spec fn first_misnumbered_index(number_of_receivers: usize, dealing: Dealing) -> int {
    if dealing.ciphertexts@.len() < number_of_receivers {
        dealing.ciphertexts@.len() as int
    } else {
        number_of_receivers as int
    }
}

/// Whether some receiver key fails its well-formedness check.
pub open spec fn some_key_flawed(key_flaws: Seq<Option<MalformedPublicKeyError>>) -> bool {
    exists|d: int| 0 <= d < key_flaws.len() && #[trigger] key_flaws[d] is Some
}

/// The first receiver index whose key fails its well-formedness check.
pub open spec fn first_flawed_key(key_flaws: Seq<Option<MalformedPublicKeyError>>) -> int {
    choose|d: int|
        0 <= d < key_flaws.len() && #[trigger] key_flaws[d] is Some && forall|e: int|
            0 <= e < d ==> !(#[trigger] key_flaws[e] is Some)
}

/// Reject a malformed or inapplicable dealing before it reaches the
/// aggregator.
///
/// `receiver_key_flaws` carries, for each receiver index, the outcome of
/// the well-formedness check of that receiver's public key (`None` for a
/// sound key), as established by the surrounding key-handling layer.
/// Validation inspects structure and public values only; a dealing that
/// fails it must never be passed to aggregation. The `InternalError`
/// variant is reserved for lower-layer faults and is never produced here.
pub fn validate_dealing(
    threshold: usize,
    number_of_receivers: usize,
    receiver_key_flaws: &Vec<Option<MalformedPublicKeyError>>,
    dealing: &Dealing,
) -> (r: Result<(), NiDkgCreateDealingError>)
    requires
        receiver_key_flaws@.len() == number_of_receivers,
    ensures
        r is Ok <==> (threshold_ok(threshold, number_of_receivers, *dealing) && receivers_ok(
            number_of_receivers,
            *dealing,
        ) && !some_key_flawed(receiver_key_flaws@)),
        !threshold_ok(threshold, number_of_receivers, *dealing) ==> r matches Err(
            NiDkgCreateDealingError::InvalidThresholdError(_),
        ),
        threshold_ok(threshold, number_of_receivers, *dealing) && !receivers_ok(
            number_of_receivers,
            *dealing,
        ) ==> r == Result::<(), NiDkgCreateDealingError>::Err(
            NiDkgCreateDealingError::MisnumberedReceiverError {
                receiver_index: first_misnumbered_index(number_of_receivers, *dealing) as usize,
                number_of_receivers,
            },
        ),
        threshold_ok(threshold, number_of_receivers, *dealing) && receivers_ok(
            number_of_receivers,
            *dealing,
        ) && some_key_flawed(receiver_key_flaws@) ==> (r matches Err(
            NiDkgCreateDealingError::MalformedFsPublicKeyError { receiver_index, error }
        ) && receiver_index == first_flawed_key(receiver_key_flaws@)
            && receiver_key_flaws@[first_flawed_key(receiver_key_flaws@)] == Option::Some(error)),
{
    if threshold < 1 || threshold > number_of_receivers
        || dealing.public_coefficients.coefficients.len() != threshold {
        return Result::Err(
            NiDkgCreateDealingError::InvalidThresholdError(
                InvalidArgumentError {
                    message: "threshold outside the supported range".to_string(),
                },
            ),
        );
    }
    if dealing.ciphertexts.len() != number_of_receivers {
        let receiver_index = if dealing.ciphertexts.len() < number_of_receivers {
            dealing.ciphertexts.len()
        } else {
            number_of_receivers
        };
        return Result::Err(
            NiDkgCreateDealingError::MisnumberedReceiverError {
                receiver_index,
                number_of_receivers,
            },
        );
    }
    let mut d: usize = 0;
    while d < number_of_receivers
        invariant
            receiver_key_flaws@.len() == number_of_receivers,
            threshold_ok(threshold, number_of_receivers, *dealing),
            receivers_ok(number_of_receivers, *dealing),
            d <= number_of_receivers,
            forall|e: int| 0 <= e < d ==> !(#[trigger] receiver_key_flaws@[e] is Some),
        decreases number_of_receivers - d,
    {
        match &receiver_key_flaws[d] {
            Option::Some(error) => {
                proof {
                    assert(receiver_key_flaws@[d as int] is Some);
                    assert(first_flawed_key(receiver_key_flaws@) == d) by {
                        let w = first_flawed_key(receiver_key_flaws@);
                        assert(0 <= w < receiver_key_flaws@.len() && receiver_key_flaws@[w] is Some
                            && forall|e: int|
                            0 <= e < w ==> !(#[trigger] receiver_key_flaws@[e] is Some)) by {
                            let dd = d as int;
                            assert(0 <= dd < receiver_key_flaws@.len()
                                && receiver_key_flaws@[dd] is Some && forall|e: int|
                                0 <= e < dd ==> !(#[trigger] receiver_key_flaws@[e] is Some));
                        }
                    }
                }
                return Result::Err(
                    NiDkgCreateDealingError::MalformedFsPublicKeyError {
                        receiver_index: d,
                        error: MalformedPublicKeyError {
                            internal_error: error.internal_error.clone(),
                        },
                    },
                );
            },
            Option::None => {},
        }
        d = d + 1;
    }
    Result::Ok(())
}

} // verus!
