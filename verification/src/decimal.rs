use vstd::prelude::*;

use crate::types::ExchangeRate;

verus! {

/// The error of `rust_decimal`'s parser.
#[verifier::external_type_specification]
#[verifier::external_body]
pub struct ExDecimalError(rust_decimal::Error);

/// The `(mantissa, scale)` of the `rust_decimal::Decimal` that
/// `Decimal::from_str` makes of a text, or `None` where it returns an error.
pub uninterp spec fn decimal_from_str(text: Seq<char>) -> Option<(i128, u32)>;

/// The bounds that every `rust_decimal::Decimal` keeps: a mantissa of at most
/// 96 bits and a scale of at most 28.
pub open spec fn decimal_in_range(rate: ExchangeRate) -> bool {
    &&& -0x1_0000_0000_0000_0000_0000_0000 < rate.mantissa < 0x1_0000_0000_0000_0000_0000_0000
    &&& rate.scale <= 28
}

/// Calls `rust_decimal::Decimal::from_str` and takes the mantissa and scale of
/// the result. Claimed: the result is `decimal_from_str` of the text, and lies
/// in the range that `Decimal` documents.
#[verifier::external_body]
fn decimal_parse(text: &str) -> (parsed: Result<ExchangeRate, rust_decimal::Error>)
    ensures
        match parsed {
            Ok(rate) => decimal_from_str(text@) == Some((rate.mantissa, rate.scale))
                && decimal_in_range(rate),
            Err(_) => decimal_from_str(text@) is None,
        },
{
    match text.parse::<rust_decimal::Decimal>() {
        Ok(d) => Ok(ExchangeRate { mantissa: d.mantissa(), scale: d.scale() }),
        Err(e) => Err(e),
    }
}

/// The rate that a decimal text stands for, as `rust_decimal` reads it.
pub fn parse_rate(text: &str) -> (rate: Option<ExchangeRate>)
    ensures
        match rate {
            Some(r) => decimal_from_str(text@) == Some((r.mantissa, r.scale)) && decimal_in_range(r),
            None => decimal_from_str(text@) is None,
        },
{
    match decimal_parse(text) {
        Ok(r) => Some(r),
        Err(_) => None,
    }
}

} // verus!
