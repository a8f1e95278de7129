//! 256-bit unsigned integers held as four little-endian 64-bit words.
//!
//! The arithmetic itself is done by `primitive_types::U256`; this module only
//! states, over the mathematical value of the words, what each operation returns.
use vstd::prelude::*;

verus! {

/// The weight of one 64-bit word.
pub open spec fn word() -> int {
    0x1_0000_0000_0000_0000
}

/// One past the largest 256-bit value.
pub open spec fn modulus() -> int {
    word() * word() * word() * word()
}

/// A 256-bit unsigned integer: `l0` is the least significant word.
#[derive(Clone, Copy, Debug, PartialEq, Eq, Structural)]
pub struct U256 {
    pub l0: u64,
    pub l1: u64,
    pub l2: u64,
    pub l3: u64,
}

impl U256 {
    /// The number that the four words stand for.
    pub open spec fn value(self) -> nat {
        (self.l0 + word() * (self.l1 + word() * (self.l2 + word() * self.l3))) as nat
    }

    pub fn zero() -> (r: U256)
        ensures
            r.value() == 0,
    {
        U256 { l0: 0, l1: 0, l2: 0, l3: 0 }
    }

    pub fn from_u64(v: u64) -> (r: U256)
        ensures
            r.value() == v,
    {
        U256 { l0: v, l1: 0, l2: 0, l3: 0 }
    }

    pub fn from_u128(v: u128) -> (r: U256)
        ensures
            r.value() == v,
    {
        let lo = v as u64;
        let hi = (v >> 64u128) as u64;
        assert(v == lo as u128 + hi as u128 * 0x1_0000_0000_0000_0000u128) by (bit_vector)
            requires lo == v as u64, hi == (v >> 64u128) as u64;
        U256 { l0: lo, l1: hi, l2: 0, l3: 0 }
    }

    pub fn is_zero(&self) -> (r: bool)
        ensures
            r == (self.value() == 0),
    {
        let r = self.l0 == 0 && self.l1 == 0 && self.l2 == 0 && self.l3 == 0;
        proof {
            lemma_value_zero(*self);
        }
        r
    }

    /// `self <= o` on the values.
    pub fn le(&self, o: &U256) -> (r: bool)
        ensures
            r == (self.value() <= o.value()),
    {
        outside_le(*self, *o)
    }

    /// Equality of the values.
    pub fn same_value(&self, o: &U256) -> (r: bool)
        ensures
            r == (self.value() == o.value()),
    {
        outside_le(*self, *o) && outside_le(*o, *self)
    }

    /// `None` exactly when the sum does not fit in 256 bits.
    pub fn checked_add(&self, o: &U256) -> (r: Option<U256>)
        ensures
            self.value() + o.value() < modulus() <==> r is Some,
            r matches Some(v) ==> v.value() == self.value() + o.value(),
    {
        outside_checked_add(*self, *o)
    }

    /// `None` exactly when the product does not fit in 256 bits.
    pub fn checked_mul(&self, o: &U256) -> (r: Option<U256>)
        ensures
            self.value() * o.value() < modulus() <==> r is Some,
            r matches Some(v) ==> v.value() == self.value() * o.value(),
    {
        outside_checked_mul(*self, *o)
    }

    /// The difference, or zero where `o` is the larger.
    pub fn saturating_sub(&self, o: &U256) -> (r: U256)
        ensures
            r.value() == if self.value() >= o.value() { self.value() - o.value() } else { 0 },
    {
        outside_saturating_sub(*self, *o)
    }

    /// The sum, or the largest value where it does not fit.
    pub fn saturating_add(&self, o: &U256) -> (r: U256)
        ensures
            r.value() == if self.value() + o.value() < modulus() {
                (self.value() + o.value()) as int
            } else {
                modulus() - 1
            },
    {
        outside_saturating_add(*self, *o)
    }

    /// The quotient rounded down; `None` for a zero divisor.
    pub fn checked_div(&self, o: &U256) -> (r: Option<U256>)
        ensures
            o.value() == 0 <==> r is None,
            r matches Some(v) ==> v.value() == self.value() / o.value(),
    {
        outside_checked_div(*self, *o)
    }
}

proof fn lemma_value_zero(a: U256)
    ensures
        (a.value() == 0) == (a.l0 == 0 && a.l1 == 0 && a.l2 == 0 && a.l3 == 0),
{
    let w = word();
    let x2 = a.l2 + w * a.l3;
    let x1 = a.l1 + w * x2;
    assert(w * a.l3 >= 0) by (nonlinear_arith)
        requires w > 0, a.l3 >= 0;
    assert(w * x2 >= 0) by (nonlinear_arith)
        requires w > 0, x2 >= 0;
    assert(w * x1 >= 0) by (nonlinear_arith)
        requires w > 0, x1 >= 0;
    assert(x1 == 0 ==> a.l1 == 0 && x2 == 0);
    assert(x2 == 0 ==> a.l2 == 0 && a.l3 == 0) by (nonlinear_arith)
        requires w > 0, a.l3 >= 0, a.l2 >= 0, x2 == a.l2 + w * a.l3;
    assert(x1 == 0 ==> a.l1 == 0 && x2 == 0) by (nonlinear_arith)
        requires w > 0, a.l1 >= 0, x2 >= 0, x1 == a.l1 + w * x2;
    assert(a.value() == 0 ==> a.l0 == 0 && x1 == 0) by (nonlinear_arith)
        requires w > 0, a.l0 >= 0, x1 >= 0, a.value() == a.l0 + w * x1;
}

/// Relies on `PartialOrd` of `primitive_types::U256`, which orders by value.
#[verifier::external_body]
fn outside_le(a: U256, b: U256) -> (r: bool)
    ensures
        r == (a.value() <= b.value()),
{
    primitive_types::U256([a.l0, a.l1, a.l2, a.l3]) <= primitive_types::U256([b.l0, b.l1, b.l2, b.l3])
}

/// Relies on `primitive_types::U256::checked_add`: `None` on overflow, else the sum.
#[verifier::external_body]
fn outside_checked_add(a: U256, b: U256) -> (r: Option<U256>)
    ensures
        a.value() + b.value() < modulus() <==> r is Some,
        r matches Some(v) ==> v.value() == a.value() + b.value(),
{
    let x = primitive_types::U256([a.l0, a.l1, a.l2, a.l3]);
    match x.checked_add(primitive_types::U256([b.l0, b.l1, b.l2, b.l3])) {
        Some(v) => Some(U256 { l0: v.0[0], l1: v.0[1], l2: v.0[2], l3: v.0[3] }),
        None => None,
    }
}

/// Relies on `primitive_types::U256::checked_mul`: `None` on overflow, else the product.
#[verifier::external_body]
fn outside_checked_mul(a: U256, b: U256) -> (r: Option<U256>)
    ensures
        a.value() * b.value() < modulus() <==> r is Some,
        r matches Some(v) ==> v.value() == a.value() * b.value(),
{
    let x = primitive_types::U256([a.l0, a.l1, a.l2, a.l3]);
    match x.checked_mul(primitive_types::U256([b.l0, b.l1, b.l2, b.l3])) {
        Some(v) => Some(U256 { l0: v.0[0], l1: v.0[1], l2: v.0[2], l3: v.0[3] }),
        None => None,
    }
}

/// Relies on `primitive_types::U256::saturating_sub`: zero where `b` exceeds `a`.
#[verifier::external_body]
fn outside_saturating_sub(a: U256, b: U256) -> (r: U256)
    ensures
        r.value() == if a.value() >= b.value() { a.value() - b.value() } else { 0 },
{
    let x = primitive_types::U256([a.l0, a.l1, a.l2, a.l3]);
    let v = x.saturating_sub(primitive_types::U256([b.l0, b.l1, b.l2, b.l3]));
    U256 { l0: v.0[0], l1: v.0[1], l2: v.0[2], l3: v.0[3] }
}

/// Relies on `primitive_types::U256::saturating_add`: `U256::MAX` on overflow.
#[verifier::external_body]
fn outside_saturating_add(a: U256, b: U256) -> (r: U256)
    ensures
        r.value() == if a.value() + b.value() < modulus() {
            (a.value() + b.value()) as int
        } else {
            modulus() - 1
        },
{
    let x = primitive_types::U256([a.l0, a.l1, a.l2, a.l3]);
    let v = x.saturating_add(primitive_types::U256([b.l0, b.l1, b.l2, b.l3]));
    U256 { l0: v.0[0], l1: v.0[1], l2: v.0[2], l3: v.0[3] }
}

/// Relies on `primitive_types::U256::checked_div`: `None` for a zero divisor, else the
/// quotient rounded down.
#[verifier::external_body]
fn outside_checked_div(a: U256, b: U256) -> (r: Option<U256>)
    ensures
        b.value() == 0 <==> r is None,
        r matches Some(v) ==> v.value() == a.value() / b.value(),
{
    let x = primitive_types::U256([a.l0, a.l1, a.l2, a.l3]);
    match x.checked_div(primitive_types::U256([b.l0, b.l1, b.l2, b.l3])) {
        Some(v) => Some(U256 { l0: v.0[0], l1: v.0[1], l2: v.0[2], l3: v.0[3] }),
        None => None,
    }
}

} // verus!
