//! Elements of the commitment curve's prime scalar field.
//!
//! A `Scalar` is held as its canonical 48-byte big-endian encoding, always
//! reduced modulo [`crate::group_order`]. The arithmetic itself is done by
//! the `miracl_core_bls12381` big-integer routines behind trusted wrappers;
//! every wrapper's contract states the exact modular-arithmetic result.

use vstd::prelude::*;
use crate::fadd;
use crate::fmul;
use crate::group_order;
use miracl_core_bls12381::bls12381::big::BIG;
use miracl_core_bls12381::bls12381::rom;

verus! {

/// The value of a big-endian byte string.
pub open spec fn be_val(b: Seq<u8>) -> nat
    decreases b.len(),
{
    if b.len() == 0 {
        0
    } else {
        (be_val(b.drop_last()) * 256 + b.last()) as nat
    }
}

/// Number of bytes in a scalar's canonical encoding.
pub open spec fn scalar_bytes() -> nat {
    48
}

/// An element of the scalar field, reduced modulo the group order.
#[derive(Debug)]
pub struct Scalar {
    bytes: Vec<u8>,
}

impl View for Scalar {
    type V = nat;

    closed spec fn view(&self) -> nat {
        be_val(self.bytes@)
    }
}

impl Scalar {
    /// A scalar is well formed when its encoding has the canonical length
    /// and its value is reduced modulo the group order.
    pub closed spec fn wf(&self) -> bool {
        self.bytes@.len() == scalar_bytes() && be_val(self.bytes@) < group_order()
    }

    /// The canonical encoding, exposed for serialization.
    pub fn to_be_bytes(&self) -> (r: Vec<u8>)
        requires
            self.wf(),
        ensures
            be_val(r@) == self@,
            r@.len() == scalar_bytes(),
    {
        let mut out: Vec<u8> = Vec::new();
        let mut i: usize = 0;
        while i < self.bytes.len()
            invariant
                i <= self.bytes@.len(),
                out@ == self.bytes@.take(i as int),
            decreases self.bytes@.len() - i,
        {
            out.push(self.bytes[i]);
            i = i + 1;
        }
        proof {
            assert(out@ =~= self.bytes@);
        }
        out
    }

    /// The zero scalar.
    pub fn zero() -> (r: Scalar)
        ensures
            r@ == 0,
            r.wf(),
    {
        let mut bytes: Vec<u8> = Vec::new();
        let mut i: usize = 0;
        while i < 48
            invariant
                i <= 48,
                bytes@.len() == i,
                forall|j: int| 0 <= j < i ==> bytes@[j] == 0u8,
            decreases 48 - i,
        {
            bytes.push(0u8);
            i = i + 1;
        }
        proof {
            lemma_be_val_all_zero(bytes@);
        }
        Scalar { bytes }
    }

    /// Byte-wise equality, which by canonicality decides value equality.
    pub fn equals(&self, other: &Scalar) -> (r: bool)
        requires
            self.wf(),
            other.wf(),
        ensures
            r <==> self@ == other@,
    {
        let mut i: usize = 0;
        while i < 48
            invariant
                self.wf(),
                other.wf(),
                i <= 48,
                forall|j: int| 0 <= j < i ==> self.bytes@[j] == other.bytes@[j],
            decreases 48 - i,
        {
            if self.bytes[i] != other.bytes[i] {
                proof {
                    if be_val(self.bytes@) == be_val(other.bytes@) {
                        lemma_be_val_injective(self.bytes@, other.bytes@);
                        assert(self.bytes@[i as int] == other.bytes@[i as int]);
                    }
                }
                return false;
            }
            i = i + 1;
        }
        proof {
            assert(self.bytes@ =~= other.bytes@);
        }
        true
    }
}

/// If every byte is zero, the value is zero.
proof fn lemma_be_val_all_zero(b: Seq<u8>)
    requires
        forall|j: int| 0 <= j < b.len() ==> b[j] == 0u8,
    ensures
        be_val(b) == 0,
    decreases b.len(),
{
    if b.len() > 0 {
        lemma_be_val_all_zero(b.drop_last());
    }
}

/// Equal-length byte strings with the same value are identical.
proof fn lemma_be_val_injective(a: Seq<u8>, b: Seq<u8>)
    requires
        a.len() == b.len(),
        be_val(a) == be_val(b),
    ensures
        a =~= b,
    decreases a.len(),
{
    if a.len() > 0 {
        let va = be_val(a.drop_last());
        let vb = be_val(b.drop_last());
        assert(va * 256 + a.last() == vb * 256 + b.last());
        assert(a.last() < 256 && b.last() < 256);
        assert(va == vb && a.last() == b.last()) by (nonlinear_arith)
            requires
                va * 256 + a.last() == vb * 256 + b.last(),
                a.last() < 256,
                b.last() < 256,
        ;
        lemma_be_val_injective(a.drop_last(), b.drop_last());
        assert(a =~= a.drop_last().push(a.last()));
        assert(b =~= b.drop_last().push(b.last()));
    }
}

/// Relies on `BIG::modadd` (with `BIG::frombytes`/`tobytes` converting the
/// canonical encodings): the returned scalar is `(a + b) mod r` where `r`
/// is `rom::CURVE_ORDER`, the group order.
#[verifier::external_body]
pub fn field_add(a: &Scalar, b: &Scalar) -> (r: Scalar)
    requires
        a.wf(),
        b.wf(),
    ensures
        r@ == fadd(a@, b@),
        r.wf(),
{
    let x = BIG::frombytes(&a.bytes);
    let y = BIG::frombytes(&b.bytes);
    let m = BIG::new_ints(&rom::CURVE_ORDER);
    let z = BIG::modadd(&x, &y, &m);
    let mut out = [0u8; 48];
    z.tobytes(&mut out);
    Scalar { bytes: out.to_vec() }
}

/// Relies on `BIG::modmul` (with `BIG::frombytes`/`tobytes` converting the
/// canonical encodings): the returned scalar is `(a * b) mod r` where `r`
/// is `rom::CURVE_ORDER`, the group order.
#[verifier::external_body]
pub fn field_mul(a: &Scalar, b: &Scalar) -> (r: Scalar)
    requires
        a.wf(),
        b.wf(),
    ensures
        r@ == fmul(a@, b@),
        r.wf(),
{
    let x = BIG::frombytes(&a.bytes);
    let y = BIG::frombytes(&b.bytes);
    let m = BIG::new_ints(&rom::CURVE_ORDER);
    let z = BIG::modmul(&x, &y, &m);
    let mut out = [0u8; 48];
    z.tobytes(&mut out);
    Scalar { bytes: out.to_vec() }
}

/// Appending a byte multiplies the value by 256 and adds the byte.
proof fn lemma_be_val_push(s: Seq<u8>, b: u8)
    ensures
        be_val(s.push(b)) == be_val(s) * 256 + b,
{
    assert(s.push(b).drop_last() =~= s);
}

/// The scalar with the value of a machine integer (any `u64` value lies
/// below the group order).
pub fn scalar_from_u64(v: u64) -> (r: Scalar)
    ensures
        r@ == v,
        r.wf(),
{
    let mut bytes: Vec<u8> = Vec::new();
    let mut i: usize = 0;
    while i < 40
        invariant
            i <= 40,
            bytes@.len() == i,
            be_val(bytes@) == 0,
        decreases 40 - i,
    {
        let ghost prev = bytes@;
        bytes.push(0u8);
        proof {
            lemma_be_val_push(prev, 0u8);
        }
        i = i + 1;
    }
    let ghost p0 = bytes@;
    proof {
        assert(((v >> 56) & 0xff) < 256 && ((v >> 56) & 0xff) == v >> 56) by (bit_vector);
    }
    bytes.push(((v >> 56) & 0xff) as u8);
    proof {
        lemma_be_val_push(p0, ((v >> 56) & 0xff) as u8);
    }
    let ghost p1 = bytes@;
    proof {
        assert(((v >> 48) & 0xff) < 256 && (v >> 56) * 256 + ((v >> 48) & 0xff) == v >> 48)
            by (bit_vector);
    }
    bytes.push(((v >> 48) & 0xff) as u8);
    proof {
        lemma_be_val_push(p1, ((v >> 48) & 0xff) as u8);
    }
    let ghost p2 = bytes@;
    proof {
        assert(((v >> 40) & 0xff) < 256 && (v >> 48) * 256 + ((v >> 40) & 0xff) == v >> 40)
            by (bit_vector);
    }
    bytes.push(((v >> 40) & 0xff) as u8);
    proof {
        lemma_be_val_push(p2, ((v >> 40) & 0xff) as u8);
    }
    let ghost p3 = bytes@;
    proof {
        assert(((v >> 32) & 0xff) < 256 && (v >> 40) * 256 + ((v >> 32) & 0xff) == v >> 32)
            by (bit_vector);
    }
    bytes.push(((v >> 32) & 0xff) as u8);
    proof {
        lemma_be_val_push(p3, ((v >> 32) & 0xff) as u8);
    }
    let ghost p4 = bytes@;
    proof {
        assert(((v >> 24) & 0xff) < 256 && (v >> 32) * 256 + ((v >> 24) & 0xff) == v >> 24)
            by (bit_vector);
    }
    bytes.push(((v >> 24) & 0xff) as u8);
    proof {
        lemma_be_val_push(p4, ((v >> 24) & 0xff) as u8);
    }
    let ghost p5 = bytes@;
    proof {
        assert(((v >> 16) & 0xff) < 256 && (v >> 24) * 256 + ((v >> 16) & 0xff) == v >> 16)
            by (bit_vector);
    }
    bytes.push(((v >> 16) & 0xff) as u8);
    proof {
        lemma_be_val_push(p5, ((v >> 16) & 0xff) as u8);
    }
    let ghost p6 = bytes@;
    proof {
        assert(((v >> 8) & 0xff) < 256 && (v >> 16) * 256 + ((v >> 8) & 0xff) == v >> 8)
            by (bit_vector);
    }
    bytes.push(((v >> 8) & 0xff) as u8);
    proof {
        lemma_be_val_push(p6, ((v >> 8) & 0xff) as u8);
    }
    let ghost p7 = bytes@;
    proof {
        assert((v & 0xff) < 256 && (v >> 8) * 256 + (v & 0xff) == v) by (bit_vector);
    }
    bytes.push((v & 0xff) as u8);
    proof {
        lemma_be_val_push(p7, (v & 0xff) as u8);
        assert(be_val(bytes@) == v);
    }
    Scalar { bytes }
}

/// Relies on `BIG::frombytes` and `BIG::rmod`: a 48-byte big-endian string
/// is read as an integer and reduced modulo `rom::CURVE_ORDER`.
#[verifier::external_body]
pub fn scalar_from_be_bytes(b: &Vec<u8>) -> (r: Scalar)
    requires
        b@.len() == scalar_bytes(),
    ensures
        r@ == be_val(b@) % group_order(),
        r.wf(),
{
    let mut z = BIG::frombytes(b);
    let m = BIG::new_ints(&rom::CURVE_ORDER);
    z.rmod(&m);
    let mut out = [0u8; 48];
    z.tobytes(&mut out);
    Scalar { bytes: out.to_vec() }
}

} // verus!
