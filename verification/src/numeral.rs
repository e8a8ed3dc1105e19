//! Decimal numerals: the textual form of the array indices that the
//! evaluator reports in its trailing fragment.

use vstd::prelude::*;

verus! {

/// The character for one decimal digit value (`0 <= d <= 9`).
pub open spec fn digit_char(d: nat) -> char {
    ((48 + d) as u8) as char
}

/// The usual decimal numeral of `n`: most significant digit first, no sign,
/// and no leading zero except for `n == 0` itself.
pub open spec fn dec_digits(n: nat) -> Seq<char>
    decreases n,
{
    if n < 10 {
        seq![digit_char(n)]
    } else {
        dec_digits(n / 10).push(digit_char(n % 10))
    }
}

fn digit_to_char(d: usize) -> (c: char)
    requires
        d < 10,
    ensures
        c == digit_char(d as nat),
{
    (48 + d as u8) as char
}

/// Renders `n` as its decimal numeral.
pub fn usize_to_decimal(n: usize) -> (s: String)
    ensures
        s@ == dec_digits(n as nat),
    decreases n,
{
    if n < 10 {
        let mut s = String::new();
        s.push(digit_to_char(n));
        proof {
            assert(s@ =~= dec_digits(n as nat));
        }
        s
    } else {
        assert(n / 10 < n);
        let mut s = usize_to_decimal(n / 10);
        s.push(digit_to_char(n % 10));
        s
    }
}

} // verus!
