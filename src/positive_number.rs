use vstd::prelude::*;

verus! {

/// The decimal digit `d`, for `d` below ten.
pub open spec fn digit_char(d: nat) -> char {
    seq!['0', '1', '2', '3', '4', '5', '6', '7', '8', '9'][d as int]
}

/// The decimal digits of `n`, most significant first, without leading zeros.
pub open spec fn digits(n: nat) -> Seq<char>
    decreases n,
{
    if n < 10 {
        seq![digit_char(n)]
    } else {
        digits(n / 10).push(digit_char(n % 10))
    }
}

/// `v` written in decimal, with a leading `-` when negative.
pub open spec fn decimal(v: int) -> Seq<char> {
    if v < 0 {
        seq!['-'] + digits((-v) as nat)
    } else {
        digits(v as nat)
    }
}

/// Relies on `format!` with `i32`'s `Display`: the value in decimal.
#[verifier::external_body]
fn decimal_text(value: i32) -> (r: String)
    ensures
        r@ == decimal(value as int),
{
    format!("{}", value)
}

/// A number known not to be negative.
#[derive(Debug, PartialEq, Eq)]
pub struct PositiveNumber(u32);

impl View for PositiveNumber {
    type V = nat;

    closed spec fn view(&self) -> nat {
        self.0 as nat
    }
}

impl PositiveNumber {
    /// The number held.
    pub fn get(&self) -> (r: u32)
        ensures
            r == self@,
    {
        self.0
    }

    /// Accepts `value` when it is zero or more; else an error that names it.
    pub fn try_from(value: i32) -> (r: Result<PositiveNumber, String>)
        ensures
            match r {
                Ok(n) => value >= 0 && n@ == value,
                Err(msg) => value < 0 && msg@ == decimal(value as int) + " is not positive"@,
            },
    {
        if value >= 0 {
            Ok(PositiveNumber(value as u32))
        } else {
            let text = decimal_text(value);
            Err(text.concat(" is not positive"))
        }
    }
}

} // verus!
