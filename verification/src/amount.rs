//! Decimal money amounts.
//!
//! An [`Amount`] is a signed 96-bit mantissa together with a scale between 0
//! and 28: it stands for `mantissa / 10^scale`. The arithmetic itself is done
//! by `rust_decimal`; this module holds the representation, the contracts that
//! the rest of the library relies on, and the calls.

use rust_decimal::Decimal;
use vstd::arithmetic::power::{lemma_pow_adds, lemma_pow_positive, pow};
use vstd::prelude::*;
use vstd::std_specs::cmp::PartialEqSpecImpl;

verus! {

/// The largest scale an amount can carry.
pub const MAX_SCALE: u32 = 28;

/// The largest magnitude of a mantissa: `2^96 - 1`.
pub const MAX_MANTISSA: i128 = 0xFFFF_FFFF_FFFF_FFFF_FFFF_FFFF;

/// A decimal number `mantissa / 10^scale`.
#[derive(Clone, Copy, Debug)]
pub struct Amount {
    mantissa: i128,
    scale: u32,
}

/// The sum that `rust_decimal` computes for two decimals given by mantissa and
/// scale, or `None` where the sum overflows.
pub uninterp spec fn decimal_sum(
    a_mantissa: int,
    a_scale: nat,
    b_mantissa: int,
    b_scale: nat,
) -> Option<(int, nat)>;

/// The difference that `rust_decimal` computes for two decimals given by
/// mantissa and scale, or `None` where the difference overflows.
pub uninterp spec fn decimal_difference(
    a_mantissa: int,
    a_scale: nat,
    b_mantissa: int,
    b_scale: nat,
) -> Option<(int, nat)>;

/// The decimal that `rust_decimal` reads from a text, or `None` where it
/// rejects the text.
pub uninterp spec fn decimal_from_text(text: Seq<char>) -> Option<(int, nat)>;

/// Mantissa and scale of an optional amount.
pub open spec fn repr(a: Option<Amount>) -> Option<(int, nat)> {
    match a {
        Some(x) => Some((x.spec_mantissa(), x.spec_scale())),
        None => None,
    }
}

impl Amount {
    /// Every amount fits the decimal representation.
    #[verifier::type_invariant]
    pub closed spec fn in_range(self) -> bool {
        &&& -MAX_MANTISSA <= self.mantissa <= MAX_MANTISSA
        &&& self.scale <= MAX_SCALE
    }

    /// The mantissa as a number.
    pub closed spec fn spec_mantissa(self) -> int {
        self.mantissa as int
    }

    /// The scale as a number.
    pub closed spec fn spec_scale(self) -> nat {
        self.scale as nat
    }

    /// The amount with the given mantissa and scale.
    pub closed spec fn of(mantissa: int, scale: nat) -> Amount {
        Amount { mantissa: mantissa as i128, scale: scale as u32 }
    }

    /// Two amounts are the same value: `1.0` and `1.00` are.
    pub open spec fn same_value(self, other: Amount) -> bool {
        self.spec_mantissa() * pow(10, other.spec_scale()) == other.spec_mantissa() * pow(
            10,
            self.spec_scale(),
        )
    }

    /// The value of `self` is at most the value of `other`.
    pub open spec fn at_most(self, other: Amount) -> bool {
        self.spec_mantissa() * pow(10, other.spec_scale()) <= other.spec_mantissa() * pow(
            10,
            self.spec_scale(),
        )
    }

    /// The value in units so small that every amount is a whole number of
    /// them: `10^-4294967295`.
    pub open spec fn units(self) -> int {
        self.spec_mantissa() * pow(10, (u32::MAX - self.spec_scale()) as nat)
    }

    /// `self + other` as the decimal arithmetic gives it.
    pub open spec fn sum(self, other: Amount) -> Option<Amount> {
        match decimal_sum(
            self.spec_mantissa(),
            self.spec_scale(),
            other.spec_mantissa(),
            other.spec_scale(),
        ) {
            Some((m, s)) => Some(Amount::of(m, s)),
            None => None,
        }
    }

    /// `self - other` as the decimal arithmetic gives it.
    pub open spec fn difference(self, other: Amount) -> Option<Amount> {
        match decimal_difference(
            self.spec_mantissa(),
            self.spec_scale(),
            other.spec_mantissa(),
            other.spec_scale(),
        ) {
            Some((m, s)) => Some(Amount::of(m, s)),
            None => None,
        }
    }

    /// The amount that a text denotes, if it denotes one.
    pub open spec fn from_text_spec(text: Seq<char>) -> Option<Amount> {
        match decimal_from_text(text) {
            Some((m, s)) => Some(Amount::of(m, s)),
            None => None,
        }
    }

    /// Two amounts are the same value exactly when they are the same number of
    /// units.
    pub proof fn lemma_same_value_units(self, other: Amount)
        ensures
            self.same_value(other) <==> self.units() == other.units(),
    {
        let sa = self.scale as nat;
        let sb = other.scale as nat;
        let ra = (u32::MAX - sa) as nat;
        let rb = (u32::MAX - sb) as nat;
        let x = self.mantissa as int;
        let y = other.mantissa as int;
        let pa = pow(10, sa);
        let pb = pow(10, sb);
        let qa = pow(10, ra);
        let qb = pow(10, rb);
        let full = pow(10, u32::MAX as nat);
        lemma_pow_adds(10, sa, ra);
        lemma_pow_adds(10, sb, rb);
        lemma_pow_positive(10, sa);
        lemma_pow_positive(10, sb);
        lemma_pow_positive(10, ra);
        lemma_pow_positive(10, rb);
        lemma_pow_positive(10, u32::MAX as nat);
        assert(pa * qa == full && pb * qb == full);
        if x * pb == y * pa {
            assert((x * qa) * full == (y * qb) * full) by (nonlinear_arith)
                requires
                    x * pb == y * pa,
                    pa * qa == full,
                    pb * qb == full,
            {
                assert((x * qa) * (pb * qb) == (x * pb) * (qa * qb));
                assert((y * qb) * (pa * qa) == (y * pa) * (qa * qb));
            }
            assert(x * qa == y * qb) by (nonlinear_arith)
                requires
                    (x * qa) * full == (y * qb) * full,
                    full > 0,
            ;
        }
        if x * qa == y * qb {
            assert((x * pb) * full == (y * pa) * full) by (nonlinear_arith)
                requires
                    x * qa == y * qb,
                    pa * qa == full,
                    pb * qb == full,
            {
                assert((x * pb) * (pa * qa) == (x * qa) * (pa * pb));
                assert((y * pa) * (pb * qb) == (y * qb) * (pa * pb));
            }
            assert(x * pb == y * pa) by (nonlinear_arith)
                requires
                    (x * pb) * full == (y * pa) * full,
                    full > 0,
            ;
        }
    }

    /// The amount made of a mantissa and a scale has that mantissa and that
    /// scale, as far as the two fit their fields.
    pub proof fn lemma_parts_of(mantissa: int, scale: nat)
        requires
            i128::MIN <= mantissa <= i128::MAX,
            scale <= u32::MAX,
        ensures
            Amount::of(mantissa, scale).spec_mantissa() == mantissa,
            Amount::of(mantissa, scale).spec_scale() == scale,
    {
    }

    /// `num / 10^scale`.
    pub fn new(num: i64, scale: u32) -> (a: Amount)
        requires
            scale <= MAX_SCALE,
        ensures
            a.spec_mantissa() == num,
            a.spec_scale() == scale,
    {
        Amount { mantissa: num as i128, scale }
    }

    /// `mantissa / 10^scale`, where the representation can hold it.
    pub fn from_parts(mantissa: i128, scale: u32) -> (a: Option<Amount>)
        ensures
            a is Some <==> -MAX_MANTISSA <= mantissa <= MAX_MANTISSA && scale <= MAX_SCALE,
            a matches Some(x) ==> x.spec_mantissa() == mantissa && x.spec_scale() == scale,
    {
        if scale <= MAX_SCALE && -MAX_MANTISSA <= mantissa && mantissa <= MAX_MANTISSA {
            Some(Amount { mantissa, scale })
        } else {
            None
        }
    }

    /// Zero with one decimal place, the balance of a fresh account.
    pub fn zero() -> (a: Amount)
        ensures
            a == Amount::of(0, 1),
            a.spec_mantissa() == 0,
            a.spec_scale() == 1,
    {
        Amount { mantissa: 0, scale: 1 }
    }

    /// The mantissa.
    pub fn mantissa(&self) -> (m: i128)
        ensures
            m == self.spec_mantissa(),
            -MAX_MANTISSA <= m <= MAX_MANTISSA,
    {
        proof {
            use_type_invariant(self);
        }
        self.mantissa
    }

    /// The scale: the number of decimal places.
    pub fn scale(&self) -> (s: u32)
        ensures
            s == self.spec_scale(),
            s <= MAX_SCALE,
    {
        proof {
            use_type_invariant(self);
        }
        self.scale
    }

    /// `self + other`, or `None` where the sum overflows.
    pub fn checked_add(self, other: Amount) -> (r: Option<Amount>)
        ensures
            r == self.sum(other),
    {
        checked_sum(self, other)
    }

    /// `self - other`, or `None` where the difference overflows.
    pub fn checked_sub(self, other: Amount) -> (r: Option<Amount>)
        ensures
            r == self.difference(other),
    {
        checked_difference(self, other)
    }

    /// Whether the value of `self` is at most the value of `other`.
    pub fn le(&self, other: &Amount) -> (r: bool)
        ensures
            r == self.at_most(*other),
    {
        value_at_most(*self, *other)
    }

    /// Reads an amount from decimal text such as `-12.50`.
    pub fn from_text(text: &str) -> (r: Option<Amount>)
        ensures
            r == Amount::from_text_spec(text@),
    {
        parsed_decimal(text)
    }
}

/// Calls `Decimal::checked_add` of `rust_decimal` on the two amounts: the result
/// is the sum that the crate computes, and `None` where it reports overflow.
#[verifier::external_body]
fn checked_sum(a: Amount, b: Amount) -> (r: Option<Amount>)
    ensures
        repr(r) == decimal_sum(a.spec_mantissa(), a.spec_scale(), b.spec_mantissa(), b.spec_scale()),
{
    let x = Decimal::from_i128_with_scale(a.mantissa, a.scale);
    let y = Decimal::from_i128_with_scale(b.mantissa, b.scale);
    x.checked_add(y).map(|d| Amount { mantissa: d.mantissa(), scale: d.scale() })
}

/// Calls `Decimal::checked_sub` of `rust_decimal` on the two amounts: the result
/// is the difference that the crate computes, and `None` where it reports
/// overflow.
#[verifier::external_body]
fn checked_difference(a: Amount, b: Amount) -> (r: Option<Amount>)
    ensures
        repr(r) == decimal_difference(
            a.spec_mantissa(),
            a.spec_scale(),
            b.spec_mantissa(),
            b.spec_scale(),
        ),
{
    let x = Decimal::from_i128_with_scale(a.mantissa, a.scale);
    let y = Decimal::from_i128_with_scale(b.mantissa, b.scale);
    x.checked_sub(y).map(|d| Amount { mantissa: d.mantissa(), scale: d.scale() })
}

/// Compares two amounts with `<=` of `rust_decimal::Decimal`, which orders
/// decimals by their value, whatever their scales.
#[verifier::external_body]
fn value_at_most(a: Amount, b: Amount) -> (r: bool)
    ensures
        r == a.at_most(b),
{
    Decimal::from_i128_with_scale(a.mantissa, a.scale) <= Decimal::from_i128_with_scale(
        b.mantissa,
        b.scale,
    )
}

/// Compares two amounts with `==` of `rust_decimal::Decimal`, which holds of
/// two decimals exactly when their values are equal, whatever their scales.
#[verifier::external_body]
fn value_equal(a: Amount, b: Amount) -> (r: bool)
    ensures
        r == a.same_value(b),
{
    Decimal::from_i128_with_scale(a.mantissa, a.scale) == Decimal::from_i128_with_scale(
        b.mantissa,
        b.scale,
    )
}

/// Calls `Decimal::from_str` of `rust_decimal`: the result is the decimal that
/// the crate reads from the text, and `None` where it returns an error.
#[verifier::external_body]
fn parsed_decimal(text: &str) -> (r: Option<Amount>)
    ensures
        repr(r) == decimal_from_text(text@),
{
    match <Decimal as std::str::FromStr>::from_str(text) {
        Ok(d) => Some(Amount { mantissa: d.mantissa(), scale: d.scale() }),
        Err(_) => None,
    }
}

impl PartialEq for Amount {
    fn eq(&self, other: &Amount) -> (r: bool) {
        value_equal(*self, *other)
    }
}

impl PartialEqSpecImpl for Amount {
    open spec fn obeys_eq_spec() -> bool {
        true
    }

    open spec fn eq_spec(&self, other: &Amount) -> bool {
        self.same_value(*other)
    }
}

} // verus!
