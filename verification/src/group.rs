//! Points of the prime-order commitment group.
//!
//! A `GroupElement` is held as the canonical 49-byte compressed encoding of
//! a curve point, or as nothing at all for the identity (the point at
//! infinity), whose spec-level encoding is the empty byte sequence. The
//! curve arithmetic is done by `miracl_core_bls12381`'s `ECP` routines
//! behind trusted wrappers. The results of the curve operations are named
//! by uninterpreted functions (`ec_add`, `ec_mul`, ...); the wrappers state
//! of them exactly the group laws that the curve arithmetic is documented
//! to satisfy.

use vstd::prelude::*;
use crate::fadd;
use crate::fmul;
use crate::group_order;
use crate::scalar::Scalar;
use miracl_core_bls12381::bls12381::big::BIG;
use miracl_core_bls12381::bls12381::bls;
use miracl_core_bls12381::bls12381::ecp::ECP;

verus! {

/// The spec-level encoding of the identity element (the point at infinity).
pub open spec fn id_bytes() -> Seq<u8> {
    Seq::empty()
}

/// The encoding of the sum of the points encoded by `a` and `b`
/// (the result of `ECP::add`).
pub uninterp spec fn ec_add(a: Seq<u8>, b: Seq<u8>) -> Seq<u8>;

/// The encoding of the scalar multiple `k` of the point encoded by `p`
/// (the result of `ECP::mul`).
pub uninterp spec fn ec_mul(p: Seq<u8>, k: nat) -> Seq<u8>;

/// Whether `p` encodes an element of the prime-order subgroup (or the
/// identity); every point the library derives as a generator satisfies it.
pub uninterp spec fn in_group(p: Seq<u8>) -> bool;

/// The encoding of the point obtained by hashing `domain` onto the curve
/// (the result of `bls_hash_to_point`).
pub uninterp spec fn generator_of(domain: Seq<u8>) -> Seq<u8>;

/// The canonical re-encoding of a byte string accepted by `ECP::frombytes`,
/// or `None` where the bytes encode no usable point.
pub uninterp spec fn point_decode(b: Seq<u8>) -> Option<Seq<u8>>;

/// A point in the commitment group.
#[derive(Debug)]
pub struct GroupElement {
    repr: Option<Vec<u8>>,
}

impl View for GroupElement {
    type V = Seq<u8>;

    closed spec fn view(&self) -> Seq<u8> {
        match self.repr {
            Option::None => id_bytes(),
            Option::Some(b) => b@,
        }
    }
}

impl GroupElement {
    /// A group element either is the identity or carries a full-length
    /// compressed point encoding.
    pub closed spec fn wf(&self) -> bool {
        match self.repr {
            Option::None => true,
            Option::Some(b) => b@.len() == 49,
        }
    }

    /// The identity element of the group.
    pub fn identity() -> (r: GroupElement)
        ensures
            r@ == id_bytes(),
            r.wf(),
    {
        GroupElement { repr: Option::None }
    }

    /// Byte-wise equality of the canonical encodings.
    pub fn equals(&self, other: &GroupElement) -> (r: bool)
        requires
            self.wf(),
            other.wf(),
        ensures
            r <==> self@ == other@,
    {
        match (&self.repr, &other.repr) {
            (Option::None, Option::None) => true,
            (Option::Some(a), Option::Some(b)) => {
                proof {
                    assert(self@ == a@);
                    assert(other@ == b@);
                }
                let mut i: usize = 0;
                while i < 49
                    invariant
                        self@ == a@,
                        other@ == b@,
                        a@.len() == 49,
                        b@.len() == 49,
                        i <= 49,
                        forall|j: int| 0 <= j < i ==> a@[j] == b@[j],
                    decreases 49 - i,
                {
                    if a[i] != b[i] {
                        proof {
                            assert(self@[i as int] != other@[i as int]);
                        }
                        return false;
                    }
                    i = i + 1;
                }
                proof {
                    assert(a@ =~= b@);
                }
                true
            },
            _ => {
                proof {
                    assert(self@.len() != other@.len());
                }
                false
            },
        }
    }

    /// A copy of the element.
    pub fn duplicate(&self) -> (r: GroupElement)
        ensures
            r@ == self@,
            self.wf() ==> r.wf(),
    {
        match &self.repr {
            Option::None => GroupElement { repr: Option::None },
            Option::Some(b) => {
                let mut out: Vec<u8> = Vec::new();
                let mut i: usize = 0;
                while i < b.len()
                    invariant
                        i <= b@.len(),
                        out@ == b@.take(i as int),
                    decreases b@.len() - i,
                {
                    out.push(b[i]);
                    i = i + 1;
                }
                proof {
                    assert(out@ =~= b@);
                }
                GroupElement { repr: Option::Some(out) }
            },
        }
    }

    /// The canonical serialized form: empty for the identity, the
    /// compressed point encoding otherwise.
    pub fn to_bytes(&self) -> (r: Vec<u8>)
        ensures
            r@ == self@,
    {
        match &self.repr {
            Option::None => Vec::new(),
            Option::Some(b) => {
                let mut out: Vec<u8> = Vec::new();
                let mut i: usize = 0;
                while i < b.len()
                    invariant
                        i <= b@.len(),
                        out@ == b@.take(i as int),
                    decreases b@.len() - i,
                {
                    out.push(b[i]);
                    i = i + 1;
                }
                proof {
                    assert(out@ =~= b@);
                }
                out
            },
        }
    }
}

/// Relies on `ECP::add` (with `ECP::frombytes`/`tobytes` converting the
/// canonical encodings): the result is the group sum of the two points.
/// The clauses state the documented group laws: the identity is neutral,
/// and adding two multiples of a common subgroup point yields the multiple
/// by the field sum of the two scalars.
#[verifier::external_body]
pub fn group_add(a: &GroupElement, b: &GroupElement) -> (r: GroupElement)
    requires
        a.wf(),
        b.wf(),
    ensures
        r@ == ec_add(a@, b@),
        r.wf(),
        a@ == id_bytes() ==> r@ == b@,
        b@ == id_bytes() ==> r@ == a@,
        forall|q: Seq<u8>, x: nat, y: nat|
            in_group(q) && x < group_order() && y < group_order() && a@ == #[trigger] ec_mul(q, x)
                && b@ == #[trigger] ec_mul(q, y) ==> r@ == ec_mul(q, fadd(x, y)),
{
    match (&a.repr, &b.repr) {
        (Option::None, _) => GroupElement { repr: b.repr.clone() },
        (_, Option::None) => GroupElement { repr: a.repr.clone() },
        (Option::Some(x), Option::Some(y)) => {
            let mut p = ECP::frombytes(x);
            p.add(&ECP::frombytes(y));
            if p.is_infinity() {
                return GroupElement { repr: Option::None };
            }
            let mut out = [0u8; 49];
            p.tobytes(&mut out, true);
            GroupElement { repr: Option::Some(out.to_vec()) }
        },
    }
}

/// Relies on `ECP::mul` (with `ECP::frombytes`/`tobytes` converting the
/// canonical encodings): the result is the scalar multiple `k` of `p`.
/// The clauses state the documented laws of scalar multiplication: `0`
/// yields the identity, `1` yields the point itself, the identity absorbs,
/// and a multiple of a multiple of a subgroup point is the multiple by the
/// field product of the two scalars.
#[verifier::external_body]
pub fn group_mul(p: &GroupElement, k: &Scalar) -> (r: GroupElement)
    requires
        p.wf(),
        k.wf(),
    ensures
        r@ == ec_mul(p@, k@),
        r.wf(),
        k@ == 0 ==> r@ == id_bytes(),
        k@ == 1 ==> r@ == p@,
        p@ == id_bytes() ==> r@ == id_bytes(),
        forall|q: Seq<u8>, x: nat|
            in_group(q) && x < group_order() && p@ == #[trigger] ec_mul(q, x) ==> r@ == ec_mul(
                q,
                fmul(x, k@),
            ),
{
    let e = BIG::frombytes(&k.to_be_bytes());
    match &p.repr {
        Option::None => GroupElement { repr: Option::None },
        Option::Some(x) => {
            let q = ECP::frombytes(x).mul(&e);
            if q.is_infinity() {
                return GroupElement { repr: Option::None };
            }
            let mut out = [0u8; 49];
            q.tobytes(&mut out, true);
            GroupElement { repr: Option::Some(out.to_vec()) }
        },
    }
}

/// Relies on `bls_hash_to_point` (with `ECP::tobytes` converting): the
/// domain bytes are hashed onto the curve, landing in the prime-order
/// subgroup (the hash clears the cofactor).
#[verifier::external_body]
pub fn derive_generator(domain: &Vec<u8>) -> (r: GroupElement)
    ensures
        r@ == generator_of(domain@),
        in_group(r@),
        r.wf(),
{
    let p = bls::bls_hash_to_point(domain);
    if p.is_infinity() {
        return GroupElement { repr: Option::None };
    }
    let mut out = [0u8; 49];
    p.tobytes(&mut out, true);
    GroupElement { repr: Option::Some(out.to_vec()) }
}

/// Relies on `ECP::frombytes` (with `ECP::tobytes` re-encoding
/// canonically): a 49-byte string starting with a compressed-point marker
/// (`0x02` or `0x03`) is decoded as a compressed point; `ECP::frombytes`
/// signals a string that encodes no point by returning the point at
/// infinity, which is reported as `None` here. The marker is required
/// because on any other first byte `ECP::frombytes` reads past the slice.
#[verifier::external_body]
fn decode_point(b: &Vec<u8>) -> (r: Option<GroupElement>)
    requires
        b@.len() == 49,
        b@[0] == 2 || b@[0] == 3,
    ensures
        match r {
            Option::Some(p) => point_decode(b@) == Option::Some(p@) && p.wf() && p@.len() == 49,
            Option::None => point_decode(b@) is None,
        },
{
    let p = ECP::frombytes(b);
    if p.is_infinity() {
        return Option::None;
    }
    let mut out = [0u8; 49];
    p.tobytes(&mut out, true);
    Option::Some(GroupElement { repr: Option::Some(out.to_vec()) })
}

/// Decode a group element from its canonical serialized form: the empty
/// string is the identity, a 49-byte string carrying the compressed-point
/// marker (`0x02` or `0x03`) is decoded as a compressed point, and
/// anything else is rejected.
pub fn group_from_bytes(b: &Vec<u8>) -> (r: Option<GroupElement>)
    ensures
        match r {
            Option::Some(p) => p.wf() && (if b@.len() == 0 {
                p@ == id_bytes()
            } else {
                b@.len() == 49 && point_decode(b@) == Option::Some(p@)
            }),
            Option::None => b@.len() != 0 && (b@.len() != 49 || !(b@[0] == 2 || b@[0] == 3)
                || point_decode(b@) is None),
        },
{
    if b.len() == 0 {
        Option::Some(GroupElement::identity())
    } else if b.len() == 49 && (b[0] == 2 || b[0] == 3) {
        decode_point(b)
    } else {
        Option::None
    }
}

} // verus!
