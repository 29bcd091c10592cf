use vstd::prelude::*;

pub mod aggregate;
pub mod commitment;
pub mod dealing;
pub mod group;
pub mod polynomial;
pub mod scalar;

verus! {

/// The order of the prime-order group in which polynomial commitments live,
/// i.e. the scalar field modulus of the commitment curve.
pub open spec fn group_order() -> nat {
    0x73eda753299d7d483339d80809a1d80553bda402fffe5bfeffffffff00000001nat
}

/// Addition in the scalar field.
pub open spec fn fadd(a: nat, b: nat) -> nat {
    (a + b) % group_order()
}

/// Multiplication in the scalar field.
pub open spec fn fmul(a: nat, b: nat) -> nat {
    (a * b) % group_order()
}

/// Field addition is associative.
pub proof fn lemma_fadd_assoc(a: nat, b: nat, c: nat)
    ensures
        fadd(fadd(a, b), c) == fadd(a, fadd(b, c)),
{
    let m = group_order() as int;
    vstd::arithmetic::div_mod::lemma_add_mod_noop_right(c as int, (a + b) as int, m);
    vstd::arithmetic::div_mod::lemma_add_mod_noop_right(a as int, (b + c) as int, m);
}

/// Two field sums of four terms may be regrouped pairwise.
pub proof fn lemma_fadd_rearrange(a: nat, b: nat, c: nat, d: nat)
    ensures
        fadd(fadd(a, b), fadd(c, d)) == fadd(fadd(a, c), fadd(b, d)),
{
    let m = group_order() as int;
    vstd::arithmetic::div_mod::lemma_add_mod_noop((a + b) as int, (c + d) as int, m);
    vstd::arithmetic::div_mod::lemma_add_mod_noop((a + c) as int, (b + d) as int, m);
}

/// Field multiplication distributes over field addition.
pub proof fn lemma_fmul_distrib(a: nat, b: nat, c: nat)
    ensures
        fmul(fadd(a, b), c) == fadd(fmul(a, c), fmul(b, c)),
{
    let m = group_order() as int;
    vstd::arithmetic::div_mod::lemma_mul_mod_noop_left((a + b) as int, c as int, m);
    vstd::arithmetic::mul::lemma_mul_is_distributive_add_other_way(c as int, a as int, b as int);
    vstd::arithmetic::div_mod::lemma_add_mod_noop((a * c) as int, (b * c) as int, m);
}

/// Multiplying by zero in the field yields zero.
pub proof fn lemma_fmul_zero(a: nat)
    ensures
        fmul(a, 0) == 0,
{
    assert(a * 0 == 0) by (nonlinear_arith);
    vstd::arithmetic::div_mod::lemma_small_mod(0, group_order());
}

/// A reduced value is fixed by field addition with zero.
pub proof fn lemma_fadd_zero(a: nat)
    requires
        a < group_order(),
    ensures
        fadd(a, 0) == a,
        fadd(0, a) == a,
{
    vstd::arithmetic::div_mod::lemma_small_mod(a, group_order());
}

/// A reduced value is fixed by field multiplication with one.
pub proof fn lemma_fmul_one(a: nat)
    requires
        a < group_order(),
    ensures
        fmul(a, 1) == a,
{
    assert(a * 1 == a) by (nonlinear_arith);
    vstd::arithmetic::div_mod::lemma_small_mod(a, group_order());
}

} // verus!
