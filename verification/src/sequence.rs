//! Conversion between a text and the sequence of its letter positions.

use vstd::prelude::*;
use crate::alphabet::{
    char_to_num,
    is_letter,
    is_position,
    lemma_symbol_of_position,
    num_to_char,
    position,
    symbol,
};
use crate::error::CipherError;

verus! {

/// The standard library's `String::push`, taken on trust from its
/// documentation: it appends the character `ch` to the end of the string and
/// leaves what was there as it was.
pub assume_specification[ String::push ](s: &mut String, ch: char)
    ensures
        final(s)@ == old(s)@.push(ch),
;

/// Whether every character of `s` is a letter.
pub open spec fn all_letters(s: Seq<char>) -> bool {
    forall|i: int| 0 <= i < s.len() ==> is_letter(#[trigger] s[i])
}

/// Whether every element of `v` is the position of a letter.
pub open spec fn all_positions(v: Seq<usize>) -> bool {
    forall|i: int| 0 <= i < v.len() ==> is_position(#[trigger] v[i] as int)
}

/// Whether `s[i]` is the first character of `s` that is no letter.
pub open spec fn is_first_non_letter(s: Seq<char>, i: int) -> bool {
    &&& 0 <= i < s.len()
    &&& !is_letter(s[i])
    &&& forall|j: int| 0 <= j < i ==> is_letter(#[trigger] s[j])
}

/// Whether `v[i]` is the first element of `v` that is no position.
pub open spec fn is_first_non_position(v: Seq<usize>, i: int) -> bool {
    &&& 0 <= i < v.len()
    &&& !is_position(v[i] as int)
    &&& forall|j: int| 0 <= j < i ==> is_position(#[trigger] v[j] as int)
}

/// The first character of `s` that is no letter, where there is one.
pub open spec fn first_non_letter(s: Seq<char>) -> char {
    s[choose|i: int| is_first_non_letter(s, i)]
}

/// The first element of `v` that is no position, where there is one.
pub open spec fn first_non_position(v: Seq<usize>) -> usize {
    v[choose|i: int| is_first_non_position(v, i)]
}

/// The positions of the characters of `s`, one for one.
pub open spec fn positions(s: Seq<char>) -> Seq<usize> {
    s.map_values(|c: char| position(c) as usize)
}

/// The letters at the positions in `v`, one for one.
pub open spec fn symbols(v: Seq<usize>) -> Seq<char> {
    v.map_values(|n: usize| symbol(n as int))
}

/// What converting the text `s` to numbers gives: its positions, or the
/// first character that is no letter.
pub open spec fn text_to_positions(s: Seq<char>) -> Result<Seq<usize>, CipherError> {
    if all_letters(s) {
        Ok(positions(s))
    } else {
        Err(CipherError::InvalidSymbol { symbol: first_non_letter(s) })
    }
}

/// What converting the numbers `v` to a text gives: their letters, or the
/// first number that is no position.
pub open spec fn positions_to_text(v: Seq<usize>) -> Result<Seq<char>, CipherError> {
    if all_positions(v) {
        Ok(symbols(v))
    } else {
        Err(CipherError::OutOfRange { value: first_non_position(v) })
    }
}

/// The outcome of an operation that yields numbers, over sequences.
pub open spec fn nums_outcome(r: Result<Vec<usize>, CipherError>) -> Result<
    Seq<usize>,
    CipherError,
> {
    match r {
        Ok(v) => Ok(v@),
        Err(e) => Err(e),
    }
}

/// The outcome of an operation that yields a text, over characters.
pub open spec fn text_outcome(r: Result<String, CipherError>) -> Result<Seq<char>, CipherError> {
    match r {
        Ok(s) => Ok(s@),
        Err(e) => Err(e),
    }
}

/// The characters of `s`, in order.
pub fn string_to_vec(s: &String) -> (v: Vec<char>)
    ensures
        v@ == s@,
{
    let mut v: Vec<char> = Vec::new();
    for c in it: s.as_str().chars()
        invariant
            it.seq() == s@,
            v@ == it.seq().take(it.index()),
    {
        v.push(c);
    }
    v
}

/// The positions of the characters of `s`, in order. A text with a
/// character that is no letter is refused with `InvalidSymbol`, which names
/// the first such character.
pub fn string_to_nums(s: &String) -> (r: Result<Vec<usize>, CipherError>)
    ensures
        nums_outcome(r) == text_to_positions(s@),
{
    let chars = string_to_vec(s);
    let mut out: Vec<usize> = Vec::new();
    let mut i: usize = 0;
    while i < chars.len()
        invariant
            chars@ == s@,
            i <= chars.len(),
            out.len() == i,
            forall|j: int| 0 <= j < i ==> is_letter(#[trigger] s@[j]),
            forall|j: int| 0 <= j < i ==> out[j] as int == position(s@[j]),
        decreases chars.len() - i,
    {
        match char_to_num(chars[i]) {
            Ok(n) => out.push(n),
            Err(e) => {
                proof {
                    assert(is_first_non_letter(s@, i as int));
                }
                return Err(e);
            },
        }
        i += 1;
    }
    proof {
        assert(out@ =~= positions(s@));
    }
    Ok(out)
}

/// The text whose letters stand at the positions in `v`, in order. A
/// sequence with a number outside `1..=26` is refused with `OutOfRange`,
/// which names the first such number.
pub fn nums_to_string(v: &Vec<usize>) -> (r: Result<String, CipherError>)
    ensures
        text_outcome(r) == positions_to_text(v@),
{
    let mut out = String::new();
    let mut i: usize = 0;
    while i < v.len()
        invariant
            i <= v.len(),
            out@.len() == i,
            forall|j: int| 0 <= j < i ==> is_position(#[trigger] v[j] as int),
            forall|j: int| 0 <= j < i ==> out@[j] == symbol(v[j] as int),
        decreases v.len() - i,
    {
        match num_to_char(v[i]) {
            Ok(c) => out.push(c),
            Err(e) => {
                proof {
                    assert(is_first_non_position(v@, i as int));
                }
                return Err(e);
            },
        }
        i += 1;
    }
    proof {
        assert(out@ =~= symbols(v@));
    }
    Ok(out)
}

/// The round trip of the converter: a text of letters, converted to
/// numbers and back, is the text again.
pub proof fn lemma_text_round_trip(s: Seq<char>)
    requires
        all_letters(s),
    ensures
        text_to_positions(s) is Ok,
        positions_to_text(text_to_positions(s)->Ok_0) == Ok::<Seq<char>, CipherError>(s),
{
    assert forall|i: int| 0 <= i < s.len() implies is_position(#[trigger] positions(s)[i] as int)
        && symbol(positions(s)[i] as int) == s[i] by {
        lemma_symbol_of_position(s[i]);
    }
    assert(symbols(positions(s)) =~= s);
}

} // verus!
