//! Runtime values and the constant pool.
//!
//! A value is a 64-bit IEEE 754 binary64 number, carried everywhere as
//! its bit pattern so that the rest of the library can reason about it
//! as a plain integer. The arithmetic the virtual machine needs is
//! delegated to the `rustc_apfloat` soft-float library, which works
//! directly on bit patterns; each operation's result is named by an
//! uninterpreted spec function, since stating IEEE 754 rounding in full
//! is out of reach here.

use vstd::prelude::*;
use rustc_apfloat::Float;

verus! {

/// A runtime value: the bit pattern of an IEEE 754 binary64 number.
pub type Value = u64;

/// The bits of the IEEE 754 sum of two values given as bit patterns.
pub uninterp spec fn add_bits(a: u64, b: u64) -> u64;

/// The bits of the IEEE 754 difference of two values given as bit patterns.
pub uninterp spec fn sub_bits(a: u64, b: u64) -> u64;

/// The bits of the IEEE 754 product of two values given as bit patterns.
pub uninterp spec fn mul_bits(a: u64, b: u64) -> u64;

/// The bits of the IEEE 754 quotient of two values given as bit patterns.
pub uninterp spec fn div_bits(a: u64, b: u64) -> u64;

/// The bits of the IEEE 754 negation of a value given as a bit pattern.
pub uninterp spec fn neg_bits(a: u64) -> u64;

/// The decimal rendering of a value given as a bit pattern.
pub uninterp spec fn value_text(a: u64) -> Seq<char>;

/// Relies on rustc_apfloat's `Add` for `ieee::Double` (round to nearest,
/// ties to even): the sum depends on the two bit patterns alone.
#[verifier::external_body]
pub fn value_add(a: Value, b: Value) -> (r: Value)
    ensures
        r == add_bits(a, b),
{
    let x = rustc_apfloat::ieee::Double::from_bits(a as u128);
    let y = rustc_apfloat::ieee::Double::from_bits(b as u128);
    (x + y).value.to_bits() as u64
}

/// Relies on rustc_apfloat's `Sub` for `ieee::Double` (round to nearest,
/// ties to even): the difference depends on the two bit patterns alone.
#[verifier::external_body]
pub fn value_sub(a: Value, b: Value) -> (r: Value)
    ensures
        r == sub_bits(a, b),
{
    let x = rustc_apfloat::ieee::Double::from_bits(a as u128);
    let y = rustc_apfloat::ieee::Double::from_bits(b as u128);
    (x - y).value.to_bits() as u64
}

/// Relies on rustc_apfloat's `Mul` for `ieee::Double` (round to nearest,
/// ties to even): the product depends on the two bit patterns alone.
#[verifier::external_body]
pub fn value_mul(a: Value, b: Value) -> (r: Value)
    ensures
        r == mul_bits(a, b),
{
    let x = rustc_apfloat::ieee::Double::from_bits(a as u128);
    let y = rustc_apfloat::ieee::Double::from_bits(b as u128);
    (x * y).value.to_bits() as u64
}

/// Relies on rustc_apfloat's `Div` for `ieee::Double` (round to nearest,
/// ties to even; a zero divisor gives the IEEE infinity or NaN sentinel,
/// never a fault): the quotient depends on the two bit patterns alone.
#[verifier::external_body]
pub fn value_div(a: Value, b: Value) -> (r: Value)
    ensures
        r == div_bits(a, b),
{
    let x = rustc_apfloat::ieee::Double::from_bits(a as u128);
    let y = rustc_apfloat::ieee::Double::from_bits(b as u128);
    (x / y).value.to_bits() as u64
}

/// Relies on rustc_apfloat's `Neg` for `ieee::Double` (flips the sign
/// bit): the negation depends on the bit pattern alone.
#[verifier::external_body]
pub fn value_neg(a: Value) -> (r: Value)
    ensures
        r == neg_bits(a),
{
    let x = rustc_apfloat::ieee::Double::from_bits(a as u128);
    (-x).to_bits() as u64
}

/// Relies on rustc_apfloat's `Display` for `ieee::Double`: the decimal
/// rendering depends on the bit pattern alone.
#[verifier::external_body]
pub fn format_value(a: Value) -> (s: String)
    ensures
        s@ == value_text(a),
{
    format!("{}", rustc_apfloat::ieee::Double::from_bits(a as u128))
}

/// The constant pool: an append-only array of values.
pub struct ValueArray {
    pub values: Vec<Value>,
}

impl ValueArray {
    /// Creates an empty value array.
    pub fn new() -> (va: ValueArray)
        ensures
            va.values@ == Seq::<Value>::empty(),
    {
        ValueArray { values: vec![] }
    }

    /// Appends a value to the array; earlier entries keep their indices.
    pub fn write_value(&mut self, value: Value)
        ensures
            final(self).values@ == old(self).values@.push(value),
    {
        self.values.push(value);
    }
}

} // verus!
