//! Character-level glue over std's string types.
//!
//! The tokenizer works on a vector of characters; these functions move
//! between that form and `String`, and compare strings, through std.
use vstd::prelude::*;

verus! {

/// Relies on str's `PartialEq`: equal exactly when the character sequences
/// are equal.
#[verifier::external_body]
pub fn str_eq(a: &str, b: &str) -> (r: bool)
    ensures
        r == (a@ == b@),
{
    a == b
}

/// Relies on `str::chars`: the characters of the string, in order.
#[verifier::external_body]
pub fn str_to_chars(s: &str) -> (v: Vec<char>)
    ensures
        v@ == s@,
{
    s.chars().collect()
}

/// Relies on `String`'s `FromIterator`: the string of exactly these
/// characters, in order.
#[verifier::external_body]
pub fn chars_to_string(v: &Vec<char>) -> (s: String)
    ensures
        s@ == v@,
{
    v.iter().collect()
}

/// What `char::is_alphanumeric` returns: a function of the character alone.
pub uninterp spec fn alphanumeric_char(c: char) -> bool;

/// Relies on `char::is_alphanumeric`: a fixed classification of each
/// character; on the ASCII range it holds exactly of letters and digits.
#[verifier::external_body]
pub fn is_alphanumeric_char(c: char) -> (r: bool)
    ensures
        r == alphanumeric_char(c),
        (c as u32) < 128 ==> r == (('a' as u32 <= c as u32 && c as u32 <= 'z' as u32) || ('A'
            as u32 <= c as u32 && c as u32 <= 'Z' as u32) || ('0' as u32 <= c as u32 && c as u32
            <= '9' as u32)),
{
    c.is_alphanumeric()
}

/// The characters of `v` from `i` (inclusive) to `j` (exclusive), as a string.
pub fn string_of_range(v: &Vec<char>, i: usize, j: usize) -> (s: String)
    requires
        i <= j <= v@.len(),
    ensures
        s@ == v@.subrange(i as int, j as int),
{
    let mut out: Vec<char> = Vec::new();
    let mut k: usize = i;
    while k < j
        invariant
            i <= k <= j <= v@.len(),
            out@ == v@.subrange(i as int, k as int),
        decreases j - k,
    {
        out.push(v[k]);
        proof {
            assert(out@ =~= v@.subrange(i as int, k + 1 as int));
        }
        k = k + 1;
    }
    chars_to_string(&out)
}

} // verus!
