use serde_json::Number;
use vstd::prelude::*;

verus! {

/// `serde_json::Number`: a JSON number, which holds a signed or an unsigned
/// integer of 64 bits or a finite double. Nothing of it is read here but
/// through the functions below.
#[verifier::external_type_specification]
#[verifier::external_body]
pub struct ExNumber(Number);

/// The decimal text that `serde_json` prints for a number.
pub uninterp spec fn number_text(n: Number) -> Seq<char>;

/// The integer that a number holds, where it holds one that fits in 64 signed
/// bits.
pub uninterp spec fn number_integer(n: Number) -> Option<i64>;

/// The text of the finite double that `std` reads from `text`, as
/// `serde_json` prints that double; `None` where `std` reads no double from
/// `text`, or one that is not finite.
pub uninterp spec fn parsed_double(text: Seq<char>) -> Option<Seq<char>>;

/// `serde_json::Number::as_i64`: the integer behind the number, unless it is
/// a double or lies above `i64::MAX`.
#[verifier::external_body]
pub(crate) fn number_as_i64(n: &Number) -> (r: Option<i64>)
    ensures
        r == number_integer(*n),
{
    n.as_i64()
}

/// `From<i64>` of `serde_json::Number`: a number that holds `i`.
#[verifier::external_body]
pub(crate) fn number_from_i64(i: i64) -> (n: Number)
    ensures
        number_integer(n) == Some(i),
{
    Number::from(i)
}

/// `Display` of `serde_json::Number`.
#[verifier::external_body]
pub(crate) fn number_to_string(n: &Number) -> (s: String)
    ensures
        s@ == number_text(*n),
{
    n.to_string()
}

/// `str::parse` to a double, handed to `serde_json::Number::from_f64`, which
/// keeps a finite double and refuses the others. The number that comes back
/// holds a double, so no integer.
#[verifier::external_body]
pub(crate) fn parse_double(text: &str) -> (r: Option<Number>)
    ensures
        match r {
            Some(n) => parsed_double(text@) == Some(number_text(n)) && number_integer(n) is None,
            None => parsed_double(text@) is None,
        },
{
    text.parse().ok().and_then(Number::from_f64)
}

} // verus!
