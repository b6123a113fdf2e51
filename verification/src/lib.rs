//! A Vigenère-style polyalphabetic substitution cipher over the 26 capital
//! Latin letters, with letters numbered from 1 to 26.
//!
//! A text is encoded by adding to each of its letters the letter of the
//! repeated key that stands at the same place, modulo 26, and decoded by
//! subtracting it again. Sums and differences that are multiples of 26 stand
//! for `Z`, so that no letter has position 0.

pub mod alphabet;
pub mod cipher;
pub mod error;
pub mod key;
pub mod modular;
pub mod sanitize;
pub mod sequence;

pub use crate::alphabet::{char_to_num, num_to_char};
pub use crate::cipher::{decode, encode};
pub use crate::error::CipherError;
pub use crate::key::match_key_length;
pub use crate::modular::{modulo_add, modulo_subtract};
pub use crate::sanitize::sanitize;
pub use crate::sequence::{nums_to_string, string_to_nums, string_to_vec};
