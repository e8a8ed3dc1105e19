//! Array-index detection: recognizing variable names of the shape
//! `base[digits]`.
//!
//! A name is an array access when it contains a `[`, ends with `]`, and the
//! text between the first `[` and the final `]` is a non-empty digit string
//! whose value fits in `usize`.  Anything else — a missing bracket, a
//! non-numeric index, an index too large for `usize` — is not an array
//! access, and the evaluator treats such a name as plain text.

use vstd::arithmetic::div_mod::{lemma_fundamental_div_mod, lemma_mod_bound};
use vstd::prelude::*;

verus! {

/// Whether `c` is a decimal digit.
pub open spec fn is_digit(c: char) -> bool {
    48 <= c as int && c as int <= 57
}

/// The numeric value of a digit character.
pub open spec fn digit_val(c: char) -> nat {
    (c as int - 48) as nat
}

/// Whether every character of `s` is a decimal digit.
pub open spec fn all_digits(s: Seq<char>) -> bool {
    forall|i: int| 0 <= i < s.len() ==> is_digit(#[trigger] s[i])
}

/// The number that the digit string `s` denotes, most significant digit
/// first.
pub open spec fn digits_val(s: Seq<char>) -> nat
    decreases s.len(),
{
    if s.len() == 0 {
        0
    } else {
        digits_val(s.drop_last()) * 10 + digit_val(s.last())
    }
}

/// The index that `s` denotes: `Some` exactly when `s` is a non-empty digit
/// string whose value fits in `usize`.
pub open spec fn parse_index(s: Seq<char>) -> Option<usize> {
    if s.len() > 0 && all_digits(s) && digits_val(s) <= usize::MAX as nat {
        Some(digits_val(s) as usize)
    } else {
        None
    }
}

/// The position of the first `[` in `name`; the length when none occurs.
pub open spec fn open_idx(name: Seq<char>) -> int {
    match name.index_of_first('[') {
        Some(i) => i,
        None => name.len() as int,
    }
}

/// The text between the first `[` and the final `]`.
pub open spec fn middle_of(name: Seq<char>) -> Seq<char> {
    name.subrange(open_idx(name) + 1, name.len() - 1)
}

/// Whether `name` has the shape `base[digits]`.
pub open spec fn is_array_access(name: Seq<char>) -> bool {
    &&& name.len() > 0
    &&& name.last() == ']'
    &&& name.contains('[')
    &&& parse_index(middle_of(name)) is Some
}

/// The base part of an array access: the text before the first `[`.
pub open spec fn array_base(name: Seq<char>) -> Seq<char> {
    name.subrange(0, open_idx(name))
}

/// The index part of an array access.
pub open spec fn array_index(name: Seq<char>) -> usize {
    match parse_index(middle_of(name)) {
        Some(i) => i,
        None => 0,
    }
}

/// The value of a digit string only grows as the string is extended.
proof fn lemma_digits_val_prefix_le(s: Seq<char>, i: int)
    requires
        0 <= i <= s.len(),
    ensures
        digits_val(s.take(i)) <= digits_val(s),
    decreases s.len() - i,
{
    if i == s.len() {
        assert(s.take(i) =~= s);
    } else {
        lemma_digits_val_prefix_le(s, i + 1);
        assert(s.take(i + 1).drop_last() =~= s.take(i));
        let x = digits_val(s.take(i));
        assert(x * 10 >= x) by (nonlinear_arith);
        assert(digits_val(s.take(i + 1)) >= x);
    }
}

/// Parses a non-empty digit string into a `usize`, per [`parse_index`].
fn parse_digits(m: &str) -> (r: Option<usize>)
    ensures
        r == parse_index(m@),
{
    let n = m.unicode_len();
    if n == 0 {
        return None;
    }
    let mut val: usize = 0;
    let mut i: usize = 0;
    while i < n
        invariant
            i <= n,
            n == m@.len(),
            all_digits(m@.take(i as int)),
            val == digits_val(m@.take(i as int)),
        decreases n - i,
    {
        let c = m.get_char(i);
        let u = c as u32;
        if u < 48 || u > 57 {
            proof {
                assert(!is_digit(m@[i as int]));
                assert(!all_digits(m@));
            }
            return None;
        }
        let d = (u - 48) as usize;
        proof {
            assert(m@.take(i as int + 1).drop_last() =~= m@.take(i as int));
            assert(m@.take(i as int + 1).last() == m@[i as int]);
            assert(digit_val(m@[i as int]) == d as nat);
            assert(digits_val(m@.take(i as int + 1)) == val * 10 + d);
        }
        if val > (usize::MAX - d) / 10 {
            proof {
                let md = (usize::MAX - d) as int;
                lemma_fundamental_div_mod(md, 10);
                lemma_mod_bound(md, 10);
                assert(10 * val >= 10 * (md / 10) + 10) by (nonlinear_arith)
                    requires
                        val as int >= md / 10 + 1,
                ;
                assert(val * 10 + d > usize::MAX);
                if all_digits(m@) {
                    lemma_digits_val_prefix_le(m@, i as int + 1);
                    assert(digits_val(m@) > usize::MAX as nat);
                }
            }
            return None;
        }
        proof {
            let md = (usize::MAX - d) as int;
            lemma_fundamental_div_mod(md, 10);
            lemma_mod_bound(md, 10);
            assert(10 * val <= 10 * (md / 10)) by (nonlinear_arith)
                requires
                    val as int <= md / 10,
            ;
            assert(val * 10 + d <= usize::MAX);
        }
        val = val * 10 + d;
        i += 1;
    }
    proof {
        assert(m@.take(n as int) =~= m@);
    }
    Some(val)
}

/// Recognizes `base[digits]`: returns the base and the index exactly when
/// [`is_array_access`] holds of `name`, and `None` otherwise.
pub fn split_array_access(name: &str) -> (r: Option<(String, usize)>)
    ensures
        match r {
            Some(p) => {
                &&& is_array_access(name@)
                &&& p.0@ == array_base(name@)
                &&& p.1 == array_index(name@)
            },
            None => !is_array_access(name@),
        },
{
    let n = name.unicode_len();
    if n == 0 {
        return None;
    }
    if name.get_char(n - 1) != ']' {
        return None;
    }
    let mut k: usize = 0;
    while k < n && name.get_char(k) != '['
        invariant
            k <= n,
            n == name@.len(),
            forall|j: int| 0 <= j < k ==> name@[j] != '[',
        decreases n - k,
    {
        k += 1;
    }
    if k == n {
        proof {
            assert(!name@.contains('['));
        }
        return None;
    }
    proof {
        name@.index_of_first_ensures('[');
        assert(name@.contains('[')) by {
            assert(name@[k as int] == '[');
        }
        assert(open_idx(name@) == k as int);
        assert(k as int != n - 1);
    }
    let middle = name.substring_char(k + 1, n - 1);
    proof {
        assert(middle@ == middle_of(name@));
    }
    match parse_digits(middle) {
        Some(ix) => {
            let base = name.substring_char(0, k);
            let base_string = base.to_owned();
            proof {
                assert(base_string@ == array_base(name@));
            }
            Some((base_string, ix))
        },
        None => None,
    }
}

} // verus!
