//! Small verified string helpers: concatenation and decimal rendering.

use vstd::prelude::*;
use vstd::string::*;

verus! {

/// Relies on str's PartialEq: string slices compare equal exactly when
/// their character sequences do.
#[verifier::external_body]
pub fn str_eq(a: &str, b: &str) -> (r: bool)
    ensures
        r == (a@ == b@),
{
    a == b
}

/// Concatenation of two string slices.
pub fn concat2(a: &str, b: &str) -> (r: String)
    ensures
        r@ == a@ + b@,
{
    let mut r = String::from_str(a);
    r.append(b);
    r
}

/// Concatenation of three string slices.
pub fn concat3(a: &str, b: &str, c: &str) -> (r: String)
    ensures
        r@ == a@ + b@ + c@,
{
    let mut r = String::from_str(a);
    r.append(b);
    r.append(c);
    r
}

/// Whether `c` occurs in `s`.
pub fn contains_char(s: &str, c: char) -> (r: bool)
    ensures
        r == s@.contains(c),
{
    let n = s.unicode_len();
    let mut i: usize = 0;
    while i < n
        invariant
            i <= n,
            n == s@.len(),
            forall |j: int| 0 <= j < i ==> s@[j] != c,
        decreases n - i,
    {
        if s.get_char(i) == c {
            proof {
                assert(s@[i as int] == c);
            }
            return true;
        }
        i = i + 1;
    }
    false
}

/// A string of nothing but spaces, tabs, carriage returns, line feeds and
/// form feeds (or nothing at all).
pub open spec fn spec_is_blank(s: Seq<char>) -> bool {
    forall |j: int| 0 <= j < s.len() ==> (s[j] == ' ' || s[j] == '\t' || s[j] == '\n' || (
    #[trigger] s[j]) == '\r' || s[j] == '\u{c}')
}

/// Whether `s` is blank: empty or all whitespace.
pub fn is_blank(s: &str) -> (r: bool)
    ensures
        r == spec_is_blank(s@),
{
    let n = s.unicode_len();
    let mut i: usize = 0;
    while i < n
        invariant
            i <= n,
            n == s@.len(),
            forall |j: int| 0 <= j < i ==> (s@[j] == ' ' || s@[j] == '\t' || s@[j] == '\n' || (
            #[trigger] s@[j]) == '\r' || s@[j] == '\u{c}'),
        decreases n - i,
    {
        let c = s.get_char(i);
        if !(c == ' ' || c == '\t' || c == '\n' || c == '\r' || c == '\u{c}') {
            proof {
                assert(!spec_is_blank(s@)) by {
                    assert(s@[i as int] == c);
                }
            }
            return false;
        }
        i = i + 1;
    }
    true
}

/// An element-for-element copy of a vector of strings.
pub fn clone_strings(v: &Vec<String>) -> (r: Vec<String>)
    ensures
        r@ == v@,
{
    let mut r: Vec<String> = Vec::new();
    let mut i: usize = 0;
    while i < v.len()
        invariant
            i <= v@.len(),
            r@ == v@.subrange(0, i as int),
        decreases v@.len() - i,
    {
        r.push(v[i].clone());
        proof {
            assert(r@ =~= v@.subrange(0, i as int + 1));
        }
        i = i + 1;
    }
    proof {
        assert(v@.subrange(0, v@.len() as int) =~= v@);
    }
    r
}

/// The decimal digits of `n`, most significant first; empty for zero.
pub open spec fn spec_decimal(n: int) -> Seq<char>
    decreases n,
{
    if n <= 0 {
        Seq::empty()
    } else {
        spec_decimal(n / 10).push(spec_digit(n % 10))
    }
}

/// The character for one decimal digit.
pub open spec fn spec_digit(d: int) -> char {
    if d == 0 { '0' }
    else if d == 1 { '1' }
    else if d == 2 { '2' }
    else if d == 3 { '3' }
    else if d == 4 { '4' }
    else if d == 5 { '5' }
    else if d == 6 { '6' }
    else if d == 7 { '7' }
    else if d == 8 { '8' }
    else { '9' }
}

/// The decimal rendering of `n`: "0" for zero, no leading zeroes otherwise.
pub open spec fn spec_decimal_string(n: int) -> Seq<char> {
    if n == 0 {
        seq!['0']
    } else {
        spec_decimal(n)
    }
}

/// One decimal digit as a string slice.
fn digit_str(d: u64) -> (s: &'static str)
    requires
        d < 10,
    ensures
        s@ == seq![spec_digit(d as int)],
{
    proof {
        reveal_strlit("0");
        reveal_strlit("1");
        reveal_strlit("2");
        reveal_strlit("3");
        reveal_strlit("4");
        reveal_strlit("5");
        reveal_strlit("6");
        reveal_strlit("7");
        reveal_strlit("8");
        reveal_strlit("9");
    }
    let s = if d == 0 { "0" }
    else if d == 1 { "1" }
    else if d == 2 { "2" }
    else if d == 3 { "3" }
    else if d == 4 { "4" }
    else if d == 5 { "5" }
    else if d == 6 { "6" }
    else if d == 7 { "7" }
    else if d == 8 { "8" }
    else { "9" };
    proof {
        assert(s@ =~= seq![spec_digit(d as int)]);
    }
    s
}

/// Renders `n` in decimal.
pub fn u128_to_string(n: u128) -> (r: String)
    ensures
        r@ == spec_decimal_string(n as int),
{
    if n == 0 {
        proof {
            reveal_strlit("0");
            assert("0"@ =~= seq!['0']);
        }
        return String::from_str("0");
    }
    let mut r = String::new();
    let mut rest: u128 = n;
    proof {
        assert(spec_decimal(n as int) =~= spec_decimal(n as int) + Seq::<char>::empty());
    }
    while rest > 0
        invariant
            spec_decimal(n as int) == spec_decimal(rest as int) + r@,
        decreases rest,
    {
        let ghost prefix = r@;
        let ds = digit_str((rest % 10) as u64);
        r = concat2(ds, r.as_str());
        proof {
            assert(spec_decimal(rest as int) == spec_decimal(rest as int / 10).push(
                spec_digit(rest as int % 10)));
            assert(spec_decimal(rest as int / 10) + r@ =~= spec_decimal(rest as int) + prefix);
        }
        rest = rest / 10;
    }
    proof {
        assert(spec_decimal(n as int) =~= r@);
    }
    r
}

/// Renders `n` in decimal.
pub fn u64_to_string(n: u64) -> (r: String)
    ensures
        r@ == spec_decimal_string(n as int),
{
    if n == 0 {
        proof {
            reveal_strlit("0");
            assert("0"@ =~= seq!['0']);
        }
        return String::from_str("0");
    }
    let mut r = String::new();
    let mut rest: u64 = n;
    proof {
        assert(spec_decimal(n as int) =~= spec_decimal(n as int) + Seq::<char>::empty());
    }
    while rest > 0
        invariant
            spec_decimal(n as int) == spec_decimal(rest as int) + r@,
        decreases rest,
    {
        let ghost prefix = r@;
        let ds = digit_str(rest % 10);
        r = concat2(ds, r.as_str());
        proof {
            assert(spec_decimal(rest as int) == spec_decimal(rest as int / 10).push(
                spec_digit(rest as int % 10)));
            assert(spec_decimal(rest as int / 10) + r@ =~= spec_decimal(rest as int) + prefix);
        }
        rest = rest / 10;
    }
    proof {
        assert(spec_decimal(n as int) =~= r@);
    }
    r
}

} // verus!
