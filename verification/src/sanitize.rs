//! Preparing raw text for the cipher: everything but ASCII letters and
//! digits is dropped, and what is left is put in upper case.

use vstd::prelude::*;
use crate::sequence::string_to_vec;

verus! {

/// Whether `c` is an ASCII letter or an ASCII digit.
pub open spec fn is_alphanumeric(c: char) -> bool {
    '0' <= c <= '9' || 'A' <= c <= 'Z' || 'a' <= c <= 'z'
}

/// The characters of `text` that are ASCII letters or digits, in order.
pub open spec fn alphanumerics(text: Seq<char>) -> Seq<char> {
    text.filter(|c: char| is_alphanumeric(c))
}

/// The capital of a small ASCII letter; any other character unchanged.
pub open spec fn upper(c: char) -> char {
    if 'a' <= c <= 'z' {
        (c as int - 32) as char
    } else {
        c
    }
}

/// The ASCII letters and digits of `text`, in order, the letters in upper
/// case.
pub open spec fn sanitized(text: Seq<char>) -> Seq<char> {
    alphanumerics(text).map_values(|c: char| upper(c))
}

/// Compiles the character class `[^[:alnum:]]` with `regex::Regex::new` and
/// replaces each of its matches in `text` by nothing with
/// `regex::Regex::replace_all`. The class is the complement of the ASCII
/// class `[0-9A-Za-z]`, so each match is one character that is neither an
/// ASCII letter nor an ASCII digit, and every such character is a match:
/// trusted, not proved, is that what comes back is `text` without them.
#[verifier::external_body]
fn remove_non_alphanumerics(text: &str) -> (out: String)
    ensures
        out@ == alphanumerics(text@),
{
    regex::Regex::new("[^[:alnum:]]").unwrap().replace_all(text, "").into_owned()
}

/// The capital of a small ASCII letter; any other character unchanged.
pub fn to_upper(c: char) -> (r: char)
    ensures
        r == upper(c),
{
    if 'a' <= c && c <= 'z' {
        let code: u8 = c as u8;
        (code - 32) as char
    } else {
        c
    }
}

/// Drops every character of `text` that is not an ASCII letter or digit and
/// puts the letters that are left in upper case.
pub fn sanitize(text: &str) -> (out: String)
    ensures
        out@ == sanitized(text@),
{
    let kept = remove_non_alphanumerics(text);
    let chars = string_to_vec(&kept);
    let mut out = String::new();
    let mut i: usize = 0;
    while i < chars.len()
        invariant
            i <= chars.len(),
            out@.len() == i,
            forall|j: int| 0 <= j < i ==> out@[j] == upper(#[trigger] chars[j]),
        decreases chars.len() - i,
    {
        out.push(to_upper(chars[i]));
        i += 1;
    }
    proof {
        assert(out@ =~= sanitized(text@));
    }
    out
}

} // verus!
