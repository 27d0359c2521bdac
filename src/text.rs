use vstd::prelude::*;
use vstd::string::*;

verus! {

/// The decimal digit character for `n` in [0, 10).
pub open spec fn digit_char(n: nat) -> char {
    (48 + n) as char
}

/// The decimal digits of `n`, without leading zeros.
pub open spec fn digits(n: nat) -> Seq<char>
    decreases n,
{
    if n < 10 {
        seq![digit_char(n)]
    } else {
        digits(n / 10).push(digit_char(n % 10))
    }
}

/// An integer written in decimal, with a leading '-' when negative.
pub open spec fn decimal(v: int) -> Seq<char> {
    if v < 0 {
        seq!['-'] + digits((-v) as nat)
    } else {
        digits(v as nat)
    }
}

/// Relies on `format!("{}", v)` for an `i32`: std's `Display` for integers
/// writes the value in decimal, with a leading '-' when it is negative.
#[verifier::external_body]
fn decimal_string(v: i32) -> (r: String)
    ensures
        r@ == decimal(v as int),
{
    format!("{}", v)
}

/// The values written in decimal and separated by commas.
pub open spec fn comma_joined(values: Seq<int>) -> Seq<char>
    decreases values.len(),
{
    if values.len() == 0 {
        Seq::empty()
    } else if values.len() == 1 {
        decimal(values[0])
    } else {
        comma_joined(values.drop_last()) + seq![','] + decimal(values.last())
    }
}

/// The values written in decimal and separated by commas.
pub fn join_decimal(values: &Vec<i32>) -> (r: String)
    ensures
        r@ == comma_joined(values@.map_values(|v: i32| v as int)),
{
    let mut r = String::new();
    let mut i: usize = 0;
    while i < values.len()
        invariant
            0 <= i <= values@.len(),
            r@ == comma_joined(values@.take(i as int).map_values(|v: i32| v as int)),
        decreases values@.len() - i,
    {
        let part = decimal_string(values[i]);
        let ghost before = values@.take(i as int).map_values(|v: i32| v as int);
        let ghost after = values@.take(i as int + 1).map_values(|v: i32| v as int);
        proof {
            assert(after.drop_last() == before);
            assert(after.last() == values@[i as int] as int);
        }
        if i > 0 {
            proof {
                reveal_strlit(",");
            }
            r.append(",");
        }
        r.append(part.as_str());
        i = i + 1;
    }
    proof {
        assert(values@.take(values@.len() as int) == values@);
    }
    r
}

} // verus!
