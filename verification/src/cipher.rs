//! The cipher: a text is encoded by adding the repeated key to it letter by
//! letter, and decoded by subtracting the key again.

use vstd::prelude::*;
use vstd::arithmetic::div_mod::lemma_mod_bound;
use crate::alphabet::{
    is_letter,
    lemma_position_of_symbol,
    lemma_symbol_of_position,
    position,
    symbol,
};
use crate::error::CipherError;
use crate::key::{expanded, match_key_length};
use crate::modular::{
    add_mod,
    lemma_mod_results_in_range,
    lemma_sub_mod_inverts_add_mod,
    modulo_add,
    modulo_subtract,
    sub_mod,
};
use crate::sequence::{
    all_letters,
    first_non_letter,
    nums_to_string,
    string_to_nums,
    text_outcome,
};

verus! {

/// The letters of `text`, each moved forward by the letter of the repeated
/// `key` that stands at its place.
pub open spec fn encoded_text(text: Seq<char>, key: Seq<char>) -> Seq<char> {
    Seq::new(
        text.len(),
        |i: int| symbol(add_mod(position(text[i]), position(key[i % key.len() as int]), 26)),
    )
}

/// The letters of `text`, each moved back by the letter of the repeated
/// `key` that stands at its place.
pub open spec fn decoded_text(text: Seq<char>, key: Seq<char>) -> Seq<char> {
    Seq::new(
        text.len(),
        |i: int| symbol(sub_mod(position(text[i]), position(key[i % key.len() as int]), 26)),
    )
}

/// The error on which both directions of the cipher refuse `text` and `key`,
/// if any: an empty key, then a character of the text that is no letter,
/// then a character of the key, repeated to the text's length, that is no
/// letter.
pub open spec fn refusal(text: Seq<char>, key: Seq<char>) -> Option<CipherError> {
    if key.len() == 0 {
        Some(CipherError::EmptyKey)
    } else if !all_letters(text) {
        Some(CipherError::InvalidSymbol { symbol: first_non_letter(text) })
    } else if !all_letters(expanded(key, text.len())) {
        Some(CipherError::InvalidSymbol { symbol: first_non_letter(expanded(key, text.len())) })
    } else {
        None
    }
}

/// What encoding `text` under `key` gives.
pub open spec fn encoded(text: Seq<char>, key: Seq<char>) -> Result<Seq<char>, CipherError> {
    match refusal(text, key) {
        Some(e) => Err(e),
        None => Ok(encoded_text(text, key)),
    }
}

/// What decoding `text` under `key` gives.
pub open spec fn decoded(text: Seq<char>, key: Seq<char>) -> Result<Seq<char>, CipherError> {
    match refusal(text, key) {
        Some(e) => Err(e),
        None => Ok(decoded_text(text, key)),
    }
}

/// Encodes `input` under `key`: the key is repeated to the length of the
/// text, and each letter of the text is moved forward in the alphabet by the
/// position of the key's letter at its place, from `Z` on to `A`. An empty
/// key is refused with `EmptyKey`; a character that is no letter, in the
/// text or in the part of the key that is used, with `InvalidSymbol`.
pub fn encode(input: &String, key: &String) -> (r: Result<String, CipherError>)
    ensures
        text_outcome(r) == encoded(input@, key@),
{
    let new_key = match_key_length(key, input.as_str().unicode_len())?;
    let input_nums = string_to_nums(input)?;
    let key_nums = string_to_nums(&new_key)?;
    let out_nums = modulo_add(&input_nums, &key_nums, 26)?;
    proof {
        assert forall|i: int| 0 <= i < out_nums.len() implies 1 <= #[trigger] out_nums[i]
            <= 26 by {
            lemma_mod_results_in_range(input_nums[i] as int, key_nums[i] as int, 26);
        }
    }
    let out = nums_to_string(&out_nums)?;
    proof {
        assert(out@ =~= encoded_text(input@, key@));
    }
    Ok(out)
}

/// Decodes `input` under `key`: the key is repeated to the length of the
/// text, and each letter of the text is moved back in the alphabet by the
/// position of the key's letter at its place, from `A` back to `Z`. An
/// empty key is refused with `EmptyKey`; a character that is no letter, in
/// the text or in the part of the key that is used, with `InvalidSymbol`.
pub fn decode(input: &String, key: &String) -> (r: Result<String, CipherError>)
    ensures
        text_outcome(r) == decoded(input@, key@),
{
    let new_key = match_key_length(key, input.as_str().unicode_len())?;
    let input_nums = string_to_nums(input)?;
    let key_nums = string_to_nums(&new_key)?;
    let out_nums = modulo_subtract(&input_nums, &key_nums, 26)?;
    proof {
        assert forall|i: int| 0 <= i < out_nums.len() implies 1 <= #[trigger] out_nums[i]
            <= 26 by {
            lemma_mod_results_in_range(input_nums[i] as int, key_nums[i] as int, 26);
        }
    }
    let out = nums_to_string(&out_nums)?;
    proof {
        assert(out@ =~= decoded_text(input@, key@));
    }
    Ok(out)
}

/// Decoding undoes encoding: a text of letters, encoded under a nonempty key
/// of letters and decoded under the same key, is the text again.
pub proof fn lemma_decode_inverts_encode(text: Seq<char>, key: Seq<char>)
    requires
        key.len() > 0,
        all_letters(key),
        all_letters(text),
    ensures
        encoded(text, key) is Ok,
        decoded(encoded(text, key)->Ok_0, key) == Ok::<Seq<char>, CipherError>(text),
{
    let cipher = encoded_text(text, key);
    assert forall|i: int| 0 <= i < text.len() implies is_letter(
        #[trigger] expanded(key, text.len())[i],
    ) by {
        lemma_mod_bound(i, key.len() as int);
    }
    assert forall|i: int| 0 <= i < text.len() implies is_letter(#[trigger] cipher[i])
        && position(cipher[i]) == add_mod(
        position(text[i]),
        position(key[i % key.len() as int]),
        26,
    ) by {
        lemma_mod_results_in_range(position(text[i]), position(key[i % key.len() as int]), 26);
        lemma_position_of_symbol(
            add_mod(position(text[i]), position(key[i % key.len() as int]), 26),
        );
    }
    assert forall|i: int| 0 <= i < text.len() implies decoded_text(cipher, key)[i] == text[i] by {
        lemma_sub_mod_inverts_add_mod(
            position(text[i]),
            position(key[i % key.len() as int]),
            26,
        );
        lemma_symbol_of_position(text[i]);
    }
    assert(decoded_text(cipher, key) =~= text);
}

/// A text of one letter under a key of one letter is encoded to the letter at
/// the sum of the two positions modulo 26, and decoded to the letter at their
/// difference.
pub proof fn lemma_single_letter(c: char, k: char)
    requires
        is_letter(c),
        is_letter(k),
    ensures
        encoded(seq![c], seq![k]) == Ok::<Seq<char>, CipherError>(
            seq![symbol(add_mod(position(c), position(k), 26))],
        ),
        decoded(seq![c], seq![k]) == Ok::<Seq<char>, CipherError>(
            seq![symbol(sub_mod(position(c), position(k), 26))],
        ),
{
    assert(expanded(seq![k], 1) =~= seq![k]);
    assert(encoded_text(seq![c], seq![k]) =~= seq![
        symbol(add_mod(position(c), position(k), 26)),
    ]);
    assert(decoded_text(seq![c], seq![k]) =~= seq![
        symbol(sub_mod(position(c), position(k), 26)),
    ]);
}

} // verus!
