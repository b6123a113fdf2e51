//! The alphabet: the letters `A` to `Z`, numbered from 1 to 26.

use vstd::prelude::*;
use crate::error::CipherError;

verus! {

/// Whether `c` is one of the letters `A` to `Z`.
pub open spec fn is_letter(c: char) -> bool {
    'A' <= c <= 'Z'
}

/// Whether `n` is the position of a letter.
pub open spec fn is_position(n: int) -> bool {
    1 <= n <= 26
}

/// The position of the letter `c`: 1 for `A`, 26 for `Z`.
pub open spec fn position(c: char) -> int {
    c as int - 'A' as int + 1
}

/// The letter at position `n`.
pub open spec fn symbol(n: int) -> char {
    (n - 1 + 'A' as int) as char
}

/// The position of `c` in the alphabet, or `InvalidSymbol` where `c` is no
/// letter.
pub fn char_to_num(c: char) -> (r: Result<usize, CipherError>)
    ensures
        match r {
            Ok(n) => is_letter(c) && n == position(c),
            Err(e) => !is_letter(c) && e == (CipherError::InvalidSymbol { symbol: c }),
        },
{
    if 'A' <= c && c <= 'Z' {
        let code: u32 = c as u32;
        Ok((code - 64) as usize)
    } else {
        Err(CipherError::InvalidSymbol { symbol: c })
    }
}

/// The letter at position `n`, or `OutOfRange` where `n` is not in `1..=26`.
pub fn num_to_char(n: usize) -> (r: Result<char, CipherError>)
    ensures
        match r {
            Ok(c) => is_position(n as int) && c == symbol(n as int),
            Err(e) => !is_position(n as int) && e == (CipherError::OutOfRange { value: n }),
        },
{
    if 1 <= n && n <= 26 {
        let code: u8 = (n + 64) as u8;
        Ok(code as char)
    } else {
        Err(CipherError::OutOfRange { value: n })
    }
}

/// The letter at the position of a letter is that letter.
pub proof fn lemma_symbol_of_position(c: char)
    requires
        is_letter(c),
    ensures
        is_position(position(c)),
        symbol(position(c)) == c,
{
}

/// The position of the letter at a position is that position.
pub proof fn lemma_position_of_symbol(n: int)
    requires
        is_position(n),
    ensures
        is_letter(symbol(n)),
        position(symbol(n)) == n,
{
}

} // verus!
