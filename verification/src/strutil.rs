//! Small string helpers used for attribute and extension names.

use vstd::prelude::*;
use vstd::string::StrSliceExecFns;
use vstd::string::StringExecFns;

verus! {

/// Whether two string slices hold the same characters.
pub fn str_eq_str(a: &str, b: &str) -> (r: bool)
    ensures
        r == (a@ == b@),
{
    let x: String = a.to_owned();
    let y: String = b.to_owned();
    x == y
}

/// Whether a string slice holds the characters of `p` followed by anything.
pub fn str_starts_with(s: &str, p: &str) -> (r: bool)
    ensures
        r == (s@.len() >= p@.len() && s@.subrange(0, p@.len() as int) == p@),
{
    let n: usize = s.unicode_len();
    let k: usize = p.unicode_len();
    if n < k {
        return false;
    }
    let head = s.substring_char(0, k);
    str_eq_str(head, p)
}

/// The characters of `s` from position `k` on, as an owned string.
pub fn str_suffix_from(s: &str, k: usize) -> (r: String)
    requires
        k as int <= s@.len(),
    ensures
        r@ == s@.subrange(k as int, s@.len() as int),
{
    let n: usize = s.unicode_len();
    let tail = s.substring_char(k, n);
    tail.to_owned()
}

/// The concatenation of two string slices, as an owned string.
pub fn str_concat(a: &str, b: &str) -> (r: String)
    ensures
        r@ == a@ + b@,
{
    let mut out: String = a.to_owned();
    out.append(b);
    out
}

} // verus!
