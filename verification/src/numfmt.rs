use vstd::prelude::*;
use vstd::string::StringExecFns;

verus! {

/// The decimal digit character for `d`.
pub open spec fn spec_digit_char(d: int) -> char
    recommends
        0 <= d < 10,
{
    if d == 0 { '0' }
    else if d == 1 { '1' }
    else if d == 2 { '2' }
    else if d == 3 { '3' }
    else if d == 4 { '4' }
    else if d == 5 { '5' }
    else if d == 6 { '6' }
    else if d == 7 { '7' }
    else if d == 8 { '8' }
    else { '9' }
}

/// The decimal rendering of a non-negative integer, most significant digit
/// first, without leading zeros (a single zero for 0).
pub open spec fn spec_dec_of(n: int) -> Seq<char>
    recommends
        n >= 0,
    decreases n,
{
    if n < 10 {
        seq![spec_digit_char(n)]
    } else {
        spec_dec_of(n / 10) + seq![spec_digit_char(n % 10)]
    }
}

/// One decimal digit as a string.
fn digit_str(d: u64) -> (r: String)
    requires
        d < 10,
    ensures
        r@ == seq![spec_digit_char(d as int)],
{
    proof {
        reveal_strlit("0");
        reveal_strlit("1");
        reveal_strlit("2");
        reveal_strlit("3");
        reveal_strlit("4");
        reveal_strlit("5");
        reveal_strlit("6");
        reveal_strlit("7");
        reveal_strlit("8");
        reveal_strlit("9");
    }
    let r = if d == 0 { String::from_str("0") }
    else if d == 1 { String::from_str("1") }
    else if d == 2 { String::from_str("2") }
    else if d == 3 { String::from_str("3") }
    else if d == 4 { String::from_str("4") }
    else if d == 5 { String::from_str("5") }
    else if d == 6 { String::from_str("6") }
    else if d == 7 { String::from_str("7") }
    else if d == 8 { String::from_str("8") }
    else { String::from_str("9") };
    proof {
        assert(r@ =~= seq![spec_digit_char(d as int)]);
    }
    r
}

/// Renders `n` in decimal.
pub fn u64_to_string(n: u64) -> (r: String)
    ensures
        r@ == spec_dec_of(n as int),
    decreases n,
{
    if n < 10 {
        digit_str(n)
    } else {
        let high = u64_to_string(n / 10);
        let low = digit_str(n % 10);
        let r = high.concat(low.as_str());
        proof {
            assert(r@ =~= spec_dec_of(n as int));
        }
        r
    }
}

} // verus!
