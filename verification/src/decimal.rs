//! Amounts of money and of shares, as `rust_decimal` holds them.
use rust_decimal::Decimal;
use std::str::FromStr;
use vstd::prelude::*;

verus! {

/// The decimal number of `rust_decimal`, carried as an opaque value.
#[verifier::external_type_specification]
#[verifier::external_body]
pub struct ExDecimal(rust_decimal::Decimal);

/// What `Decimal::from_str` makes of a text; `None` where it reports an error.
pub uninterp spec fn parsed_decimal(text: Seq<char>) -> Option<Decimal>;

/// What `Decimal::to_string` writes for an amount.
pub uninterp spec fn decimal_text(amount: Decimal) -> Seq<char>;

/// `Decimal::new(mantissa, scale)`: the mantissa over ten to the scale.
pub uninterp spec fn decimal_parts(mantissa: i64, scale: u32) -> Decimal;

/// What `Decimal::mantissa` gives.
pub uninterp spec fn decimal_mantissa(amount: Decimal) -> i128;

/// What `Decimal::scale` gives.
pub uninterp spec fn decimal_scale(amount: Decimal) -> u32;

/// The amount zero, `Decimal::new(0, 0)`.
pub open spec fn decimal_zero() -> Decimal {
    decimal_parts(0, 0)
}

/// The amount one, `Decimal::new(1, 0)`.
pub open spec fn decimal_one() -> Decimal {
    decimal_parts(1, 0)
}

/// Calls `Decimal::from_str` and drops the error. The claim is only that the
/// result is determined by the characters of the text.
#[verifier::external_body]
pub(crate) fn parse_decimal(text: &str) -> (amount: Option<Decimal>)
    ensures
        amount == parsed_decimal(text@),
{
    Decimal::from_str(text).ok()
}

/// Calls `to_string` on the amount, which writes it out through `Display`. The
/// claim is only that the text is determined by the amount.
#[verifier::external_body]
pub(crate) fn write_decimal(amount: Decimal) -> (text: String)
    ensures
        text@ == decimal_text(amount),
{
    amount.to_string()
}

/// Calls `Decimal::new`, which panics on a scale above 28. The claim is that the
/// amount is determined by mantissa and scale, and that it has them.
#[verifier::external_body]
pub(crate) fn make_decimal(mantissa: i64, scale: u32) -> (amount: Decimal)
    requires
        scale <= 28,
    ensures
        amount == decimal_parts(mantissa, scale),
        decimal_mantissa(amount) == mantissa,
        decimal_scale(amount) == scale,
{
    Decimal::new(mantissa, scale)
}

/// Calls `Decimal::mantissa`: the amount times ten to its scale. The claim is that it
/// is determined by the amount and has 96 bits besides the sign.
#[verifier::external_body]
pub(crate) fn mantissa_of(amount: Decimal) -> (mantissa: i128)
    ensures
        mantissa == decimal_mantissa(amount),
        -79_228_162_514_264_337_593_543_950_336 < mantissa,
        mantissa < 79_228_162_514_264_337_593_543_950_336,
{
    amount.mantissa()
}

/// Calls `Decimal::scale`: the number of decimal places. The claim is only that it is
/// determined by the amount.
#[verifier::external_body]
pub(crate) fn scale_of(amount: Decimal) -> (scale: u32)
    ensures
        scale == decimal_scale(amount),
{
    amount.scale()
}

/// The parsed amount, or zero where the text is not a decimal number.
pub open spec fn decimal_or_zero(text: Seq<char>) -> Decimal {
    match parsed_decimal(text) {
        Some(amount) => amount,
        None => decimal_zero(),
    }
}

/// Reads an amount, taking text that is not a decimal number for zero.
pub fn parse_or_zero(text: &str) -> (amount: Decimal)
    ensures
        amount == decimal_or_zero(text@),
{
    match parse_decimal(text) {
        Some(amount) => amount,
        None => make_decimal(0, 0),
    }
}

} // verus!
