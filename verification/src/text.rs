//! Character-level text utilities: string comparison and the small
//! grammars (digit runs, decimal numerals) that the field rules test.

use vstd::prelude::*;
use vstd::string::StrSliceExecFns;

verus! {

pub open spec fn is_digit(c: char) -> bool {
    '0' <= c && c <= '9'
}

/// Every character of `s` in `[a, b)` is a decimal digit.
pub open spec fn digits_range(s: Seq<char>, a: int, b: int) -> bool {
    forall|i: int| a <= i < b ==> is_digit(s[i])
}

/// Index of the first `'.'` in `s` at or after `a`, or `s.len()` when
/// there is none.
pub open spec fn dot_from(s: Seq<char>, a: int) -> int
    decreases s.len() - a,
{
    if a < 0 || a >= s.len() {
        s.len() as int
    } else if s[a] == '.' {
        a
    } else {
        dot_from(s, a + 1)
    }
}

pub proof fn lemma_dot_from(s: Seq<char>, a: int)
    requires
        0 <= a <= s.len(),
    ensures
        a <= dot_from(s, a) <= s.len(),
        forall|i: int| a <= i < dot_from(s, a) ==> s[i] != '.',
        dot_from(s, a) < s.len() ==> s[dot_from(s, a)] == '.',
    decreases s.len() - a,
{
    if a < s.len() && s[a] != '.' {
        lemma_dot_from(s, a + 1);
    }
}

/// The characters of `s` from `a` to the end form an unsigned decimal
/// numeral: a nonempty digit run, optionally split once by `'.'` with a
/// nonempty digit run on each side.
pub open spec fn unsigned_decimal_from(s: Seq<char>, a: int) -> bool {
    let k = dot_from(s, a);
    if k == s.len() {
        a < s.len() && digits_range(s, a, s.len() as int)
    } else {
        a < k && digits_range(s, a, k) && k + 1 < s.len() && digits_range(
            s,
            k + 1,
            s.len() as int,
        )
    }
}

/// `s` is a decimal numeral with an optional leading minus sign.
pub open spec fn decimal_text(s: Seq<char>) -> bool {
    unsigned_decimal_from(s, 0) || (s.len() >= 1 && s[0] == '-' && unsigned_decimal_from(s, 1))
}

/// String equality on character content.
pub fn str_eq(a: &str, b: &str) -> (r: bool)
    ensures
        r == (a@ == b@),
{
    let la = a.unicode_len();
    let lb = b.unicode_len();
    if la != lb {
        return false;
    }
    let mut i: usize = 0;
    while i < la
        invariant
            la == a@.len(),
            la == b@.len(),
            0 <= i <= la,
            forall|j: int| 0 <= j < i ==> a@[j] == b@[j],
        decreases la - i,
    {
        if a.get_char(i) != b.get_char(i) {
            return false;
        }
        i = i + 1;
    }
    proof {
        assert(a@ =~= b@);
    }
    true
}

/// Whether every character of `s` in `[from, to)` is a decimal digit.
pub fn digits_in_range(s: &str, from: usize, to: usize) -> (r: bool)
    requires
        from <= to <= s@.len(),
    ensures
        r == digits_range(s@, from as int, to as int),
{
    let mut i: usize = from;
    while i < to
        invariant
            from <= i <= to <= s@.len(),
            forall|j: int| from <= j < i ==> is_digit(s@[j]),
        decreases to - i,
    {
        let c = s.get_char(i);
        if !(c >= '0' && c <= '9') {
            return false;
        }
        i = i + 1;
    }
    true
}

/// Index of the first `'.'` at or after `from`, or the length when none.
fn find_dot(s: &str, from: usize) -> (r: usize)
    requires
        from <= s@.len(),
    ensures
        r == dot_from(s@, from as int),
    decreases s@.len() - from,
{
    if from == s.unicode_len() {
        from
    } else if s.get_char(from) == '.' {
        from
    } else {
        find_dot(s, from + 1)
    }
}

/// Whether the characters of `s` from `from` to the end form an unsigned
/// decimal numeral.
fn unsigned_decimal_in(s: &str, from: usize) -> (r: bool)
    requires
        from <= s@.len(),
    ensures
        r == unsigned_decimal_from(s@, from as int),
{
    let len = s.unicode_len();
    let k = find_dot(s, from);
    proof {
        lemma_dot_from(s@, from as int);
    }
    if k == len {
        from < len && digits_in_range(s, from, k)
    } else {
        from < k && digits_in_range(s, from, k) && k + 1 < len && digits_in_range(s, k + 1, len)
    }
}

/// Whether `s` is a decimal numeral, optionally signed.
pub fn is_decimal_str(s: &str) -> (r: bool)
    ensures
        r == decimal_text(s@),
{
    let len = s.unicode_len();
    if len >= 1 && s.get_char(0) == '-' {
        unsigned_decimal_in(s, 1)
    } else {
        unsigned_decimal_in(s, 0)
    }
}

} // verus!
