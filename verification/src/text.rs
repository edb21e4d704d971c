//! Character-level helpers on strings, each with an exact contract.

use vstd::prelude::*;
use vstd::string::StrSliceExecFns;

verus! {

/// `String::push` appends one character at the end of the string.
pub assume_specification[ String::push ](s: &mut String, ch: char)
    ensures
        final(s)@ == old(s)@.push(ch),
;

/// Whether two strings hold the same characters.
pub fn str_eq(a: &str, b: &str) -> (r: bool)
    ensures
        r == (a@ == b@),
{
    let n = a.unicode_len();
    if n != b.unicode_len() {
        return false;
    }
    let mut i: usize = 0;
    while i < n
        invariant
            n == a@.len(),
            n == b@.len(),
            i <= n,
            forall|j: int| 0 <= j < i ==> a@[j] == b@[j],
        decreases n - i,
    {
        if a.get_char(i) != b.get_char(i) {
            return false;
        }
        i = i + 1;
    }
    assert(a@ =~= b@);
    true
}

/// `s` begins with the characters of `prefix`.
pub open spec fn has_prefix(s: Seq<char>, prefix: Seq<char>) -> bool {
    prefix.len() <= s.len() && s.take(prefix.len() as int) == prefix
}

/// Whether `s` begins with `prefix`.
pub fn starts_with(s: &str, prefix: &str) -> (r: bool)
    ensures
        r == has_prefix(s@, prefix@),
{
    let n = prefix.unicode_len();
    if n > s.unicode_len() {
        return false;
    }
    let mut i: usize = 0;
    while i < n
        invariant
            n == prefix@.len(),
            n <= s@.len(),
            i <= n,
            forall|j: int| 0 <= j < i ==> s@[j] == prefix@[j],
        decreases n - i,
    {
        if s.get_char(i) != prefix.get_char(i) {
            assert(s@.take(n as int)[i as int] != prefix@[i as int]);
            return false;
        }
        i = i + 1;
    }
    assert(s@.take(n as int) =~= prefix@);
    true
}

/// `k` is the position of the first occurrence of `c` in `s`.
pub open spec fn is_first_index(s: Seq<char>, c: char, k: int) -> bool {
    &&& 0 <= k < s.len()
    &&& s[k] == c
    &&& forall|j: int| 0 <= j < k ==> s[j] != c
}

/// The parts of `s` before and after the first occurrence of `c`, if `c` occurs.
pub open spec fn split_once_at(s: Seq<char>, c: char) -> Option<(Seq<char>, Seq<char>)> {
    if exists|k: int| is_first_index(s, c, k) {
        let k = choose|k: int| is_first_index(s, c, k);
        Some((s.take(k), s.skip(k + 1)))
    } else {
        None
    }
}

/// The position of the first occurrence of `c` in `s`, if any.
pub fn find_char(s: &str, c: char) -> (r: Option<usize>)
    ensures
        match r {
            Some(k) => is_first_index(s@, c, k as int),
            None => forall|j: int| 0 <= j < s@.len() ==> s@[j] != c,
        },
{
    let n = s.unicode_len();
    let mut i: usize = 0;
    while i < n
        invariant
            n == s@.len(),
            i <= n,
            forall|j: int| 0 <= j < i ==> s@[j] != c,
        decreases n - i,
    {
        if s.get_char(i) == c {
            return Some(i);
        }
        i = i + 1;
    }
    None
}

/// The character of a decimal digit.
pub open spec fn digit_char(d: int) -> char {
    (d + 48) as char
}

/// The decimal digits of a natural number, most significant first, without leading zeros.
pub open spec fn decimal_digits(n: nat) -> Seq<char>
    decreases n,
{
    if n < 10 {
        seq![digit_char(n as int)]
    } else {
        decimal_digits(n / 10).push(digit_char((n % 10) as int))
    }
}

/// The decimal text of an integer, with a leading `-` when it is negative.
pub open spec fn int_text(i: int) -> Seq<char> {
    if i < 0 {
        seq!['-'] + decimal_digits((-i) as nat)
    } else {
        decimal_digits(i as nat)
    }
}

/// Appends the decimal digits of `n`.
pub fn push_decimal_digits(out: &mut String, n: u64)
    ensures
        final(out)@ == old(out)@ + decimal_digits(n as nat),
    decreases n,
{
    if n >= 10 {
        push_decimal_digits(out, n / 10);
    }
    let d: u8 = (n % 10) as u8;
    let c: char = (d + 48) as char;
    out.push(c);
}

/// Appends the decimal text of `i`.
pub fn push_int_text(out: &mut String, i: i64)
    ensures
        final(out)@ == old(out)@ + int_text(i as int),
{
    if i < 0 {
        out.push('-');
        let magnitude: u64 = ((-(i + 1)) as u64) + 1;
        push_decimal_digits(out, magnitude);
    } else {
        push_decimal_digits(out, i as u64);
    }
}

} // verus!
