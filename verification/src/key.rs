//! Fitting a key to the length of a text by repetition.

use vstd::prelude::*;
use vstd::arithmetic::div_mod::lemma_mod_bound;
use crate::error::CipherError;
use crate::sequence::{string_to_vec, text_outcome};

verus! {

/// The key repeated and cut to `length` characters: the character at index
/// `i` is the one at index `i` modulo the key's length in `key`.
pub open spec fn expanded(key: Seq<char>, length: nat) -> Seq<char> {
    Seq::new(length, |i: int| key[i % key.len() as int])
}

/// What fitting `key` to `length` characters gives: the repeated key, or
/// `EmptyKey` where there is nothing to repeat.
pub open spec fn expand_key(key: Seq<char>, length: nat) -> Result<Seq<char>, CipherError> {
    if key.len() == 0 {
        Err(CipherError::EmptyKey)
    } else {
        Ok(expanded(key, length))
    }
}

/// Repeats `key` as often as it takes to reach `length` characters and cuts
/// what is too much, so that the result has exactly `length` characters. A
/// key without characters is refused with `EmptyKey`, whatever `length` is.
pub fn match_key_length(key: &String, length: usize) -> (r: Result<String, CipherError>)
    ensures
        text_outcome(r) == expand_key(key@, length as nat),
{
    let chars = string_to_vec(key);
    let period = chars.len();
    if period == 0 {
        return Err(CipherError::EmptyKey);
    }
    let mut new_key = String::new();
    let mut i: usize = 0;
    while i < length
        invariant
            chars@ == key@,
            period == chars.len(),
            period > 0,
            i <= length,
            new_key@ == expanded(key@, i as nat),
        decreases length - i,
    {
        proof {
            lemma_mod_bound(i as int, period as int);
        }
        new_key.push(chars[i % period]);
        i += 1;
        proof {
            assert(new_key@ =~= expanded(key@, i as nat));
        }
    }
    Ok(new_key)
}

} // verus!
