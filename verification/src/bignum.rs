use vstd::prelude::*;

verus! {

/// An arbitrary-precision signed integer: a sign and little-endian
/// base-2^32 digits, the layout `num_bigint` exchanges through
/// `BigInt::new` and `BigInt::to_u32_digits`.
#[derive(Debug, PartialEq, Eq)]
pub struct Big {
    pub neg: bool,
    pub digits: Vec<u32>,
}

/// The non-negative integer denoted by little-endian base-2^32 digits.
pub open spec fn digits_value(s: Seq<u32>) -> nat
    decreases s.len(),
{
    if s.len() == 0 {
        0
    } else {
        (s[0] as nat) + 0x1_0000_0000 * digits_value(s.subrange(1, s.len() as int))
    }
}

/// Integer division truncating toward zero, the rounding `num_bigint`
/// (like Rust's primitive `/`) uses for signed division.
pub open spec fn div_trunc(a: int, b: int) -> int {
    let q = vstd::math::abs(a) / vstd::math::abs(b);
    if (a < 0) <==> (b < 0) {
        q as int
    } else {
        -(q as int)
    }
}

impl Big {
    /// The integer this value denotes.
    pub open spec fn value(self) -> int {
        if self.neg {
            -(digits_value(self.digits@) as int)
        } else {
            digits_value(self.digits@) as int
        }
    }

    pub fn from_u32(n: u32) -> (r: Big)
        ensures
            r.value() == n,
    {
        if n == 0 {
            let r = Big { neg: false, digits: Vec::new() };
            assert(digits_value(r.digits@) == 0);
            r
        } else {
            let mut digits: Vec<u32> = Vec::new();
            digits.push(n);
            let r = Big { neg: false, digits };
            assert(digits_value(r.digits@.subrange(1, 1)) == 0);
            r
        }
    }
}

/// A copy denoting the same integer.
pub fn big_dup(b: &Big) -> (r: Big)
    ensures
        r.value() == b.value(),
{
    let mut digits: Vec<u32> = Vec::new();
    let mut i: usize = 0;
    while i < b.digits.len()
        invariant
            0 <= i <= b.digits@.len(),
            digits@.len() == i,
            forall|j: int| 0 <= j < i ==> digits@[j] == b.digits@[j],
        decreases b.digits@.len() - i,
    {
        digits.push(b.digits[i]);
        i += 1;
    }
    assert(digits@ =~= b.digits@);
    Big { neg: b.neg, digits }
}

/// Relies on `num_bigint::BigInt`: `new` reads little-endian base-2^32
/// digits, `+` adds, `to_u32_digits` writes the digits back out.
#[verifier::external_body]
pub(crate) fn big_add(a: &Big, b: &Big) -> (r: Big)
    ensures
        r.value() == a.value() + b.value(),
{
    let sa = if a.neg { num_bigint::Sign::Minus } else { num_bigint::Sign::Plus };
    let sb = if b.neg { num_bigint::Sign::Minus } else { num_bigint::Sign::Plus };
    let x = num_bigint::BigInt::new(sa, a.digits.clone());
    let y = num_bigint::BigInt::new(sb, b.digits.clone());
    let (s, digits) = (x + y).to_u32_digits();
    Big { neg: matches!(s, num_bigint::Sign::Minus), digits }
}

/// Relies on `num_bigint::BigInt`: `-` subtracts; digit conversions as in `big_add`.
#[verifier::external_body]
pub(crate) fn big_sub(a: &Big, b: &Big) -> (r: Big)
    ensures
        r.value() == a.value() - b.value(),
{
    let sa = if a.neg { num_bigint::Sign::Minus } else { num_bigint::Sign::Plus };
    let sb = if b.neg { num_bigint::Sign::Minus } else { num_bigint::Sign::Plus };
    let x = num_bigint::BigInt::new(sa, a.digits.clone());
    let y = num_bigint::BigInt::new(sb, b.digits.clone());
    let (s, digits) = (x - y).to_u32_digits();
    Big { neg: matches!(s, num_bigint::Sign::Minus), digits }
}

/// Relies on `num_bigint::BigInt`: `*` multiplies; digit conversions as in `big_add`.
#[verifier::external_body]
pub(crate) fn big_mul(a: &Big, b: &Big) -> (r: Big)
    ensures
        r.value() == a.value() * b.value(),
{
    let sa = if a.neg { num_bigint::Sign::Minus } else { num_bigint::Sign::Plus };
    let sb = if b.neg { num_bigint::Sign::Minus } else { num_bigint::Sign::Plus };
    let x = num_bigint::BigInt::new(sa, a.digits.clone());
    let y = num_bigint::BigInt::new(sb, b.digits.clone());
    let (s, digits) = (x * y).to_u32_digits();
    Big { neg: matches!(s, num_bigint::Sign::Minus), digits }
}

/// Relies on `num_bigint::BigInt`: `/` divides, truncating toward zero,
/// and panics when the divisor is zero; digit conversions as in `big_add`.
#[verifier::external_body]
pub(crate) fn big_div(a: &Big, b: &Big) -> (r: Big)
    requires
        b.value() != 0,
    ensures
        r.value() == div_trunc(a.value(), b.value()),
{
    let sa = if a.neg { num_bigint::Sign::Minus } else { num_bigint::Sign::Plus };
    let sb = if b.neg { num_bigint::Sign::Minus } else { num_bigint::Sign::Plus };
    let x = num_bigint::BigInt::new(sa, a.digits.clone());
    let y = num_bigint::BigInt::new(sb, b.digits.clone());
    let (s, digits) = (x / y).to_u32_digits();
    Big { neg: matches!(s, num_bigint::Sign::Minus), digits }
}

/// Relies on `num_bigint::BigInt`: `<=` orders by the denoted integers.
#[verifier::external_body]
pub(crate) fn big_le(a: &Big, b: &Big) -> (r: bool)
    ensures
        r == (a.value() <= b.value()),
{
    let sa = if a.neg { num_bigint::Sign::Minus } else { num_bigint::Sign::Plus };
    let sb = if b.neg { num_bigint::Sign::Minus } else { num_bigint::Sign::Plus };
    let x = num_bigint::BigInt::new(sa, a.digits.clone());
    let y = num_bigint::BigInt::new(sb, b.digits.clone());
    x <= y
}

/// Whether the denoted integer is zero, read off the digits.
pub fn big_is_zero(a: &Big) -> (r: bool)
    ensures
        r == (a.value() == 0),
{
    let mut i: usize = 0;
    let mut all_zero: bool = true;
    while i < a.digits.len()
        invariant
            0 <= i <= a.digits@.len(),
            all_zero == forall|j: int| 0 <= j < i ==> a.digits@[j] == 0,
        decreases a.digits@.len() - i,
    {
        if a.digits[i] != 0 {
            all_zero = false;
        }
        i += 1;
    }
    proof {
        lemma_digits_value_zero(a.digits@);
    }
    all_zero
}

/// The digits denote zero exactly when every digit is zero.
proof fn lemma_digits_value_zero(s: Seq<u32>)
    ensures
        (digits_value(s) == 0) <==> (forall|j: int| 0 <= j < s.len() ==> s[j] == 0),
    decreases s.len(),
{
    if s.len() > 0 {
        let rest = s.subrange(1, s.len() as int);
        lemma_digits_value_zero(rest);
        if digits_value(s) == 0 {
            assert forall|j: int| 0 <= j < s.len() implies s[j] == 0 by {
                if j > 0 {
                    assert(rest[j - 1] == 0);
                }
            }
        }
        if forall|j: int| 0 <= j < s.len() ==> s[j] == 0 {
            assert forall|j: int| 0 <= j < rest.len() implies rest[j] == 0 by {
                assert(s[j + 1] == 0);
            }
            assert(digits_value(rest) == 0);
        }
    }
}

} // verus!
