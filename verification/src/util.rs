//! Small conversions between strings and character vectors, and character
//! arithmetic that the wire codec needs.

use vstd::prelude::*;

verus! {

/// Relies on `str::chars`: yields exactly the characters of the string, in
/// order (the view of a `str` is that character sequence).
#[verifier::external_body]
pub fn chars_of(s: &str) -> (v: Vec<char>)
    ensures
        v@ == s@,
{
    s.chars().collect()
}

/// Relies on `String` as `FromIterator<char>`: builds the string whose
/// characters are exactly the elements of the vector, in order.
#[verifier::external_body]
pub fn string_from_chars(v: &Vec<char>) -> (s: String)
    ensures
        s@ == v@,
{
    v.iter().collect()
}

/// Character-for-character string equality.
pub fn str_eq(a: &str, b: &str) -> (r: bool)
    ensures
        r == (a@ == b@),
{
    let ac = chars_of(a);
    let bc = chars_of(b);
    if ac.len() != bc.len() {
        return false;
    }
    let mut i: usize = 0;
    while i < ac.len()
        invariant
            i <= ac.len(),
            ac.len() == bc.len(),
            ac@ == a@,
            bc@ == b@,
            forall|k: int| 0 <= k < i ==> a@[k] == b@[k],
        decreases ac.len() - i,
    {
        if ac[i] != bc[i] {
            return false;
        }
        i = i + 1;
    }
    proof {
        assert(a@ =~= b@);
    }
    true
}

/// Relies on `core::str::from_utf8`: succeeds exactly on valid UTF-8, and
/// then the characters are the decoded scalar values, as `vstd::utf8`
/// defines them.
#[verifier::external_body]
pub fn utf8_to_string(b: &[u8]) -> (r: Option<String>)
    ensures
        match r {
            Some(s) => vstd::utf8::valid_utf8(b@) && s@ == vstd::utf8::decode_utf8(b@),
            None => !vstd::utf8::valid_utf8(b@),
        },
{
    match core::str::from_utf8(b) {
        Ok(s) => Some(s.to_string()),
        Err(_) => None,
    }
}

/// A code point is a valid `char` when it is below the surrogate range or
/// between the surrogates and the top of the Unicode space.
pub open spec fn valid_code_point(n: u32) -> bool {
    n < 0xD800 || (0xE000 <= n && n < 0x110000)
}

/// Relies on `char::from_u32`: returns the character with this code point,
/// and `None` exactly on surrogates and out-of-range values.
#[verifier::external_body]
pub fn char_from_u32(n: u32) -> (r: Option<char>)
    ensures
        match r {
            Some(c) => c as u32 == n && valid_code_point(n),
            None => !valid_code_point(n),
        },
{
    char::from_u32(n)
}

} // verus!
