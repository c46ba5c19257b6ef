//! Token and position primitives.
use vstd::prelude::*;

use crate::text::{chars_to_string, nat_to_decimal, push_decimal, str_to_chars, append_str};

verus! {

/// A vocabulary token id (0-based index into the model's vocab).
#[derive(Debug, Clone, Copy, PartialEq, Eq, Structural, PartialOrd, Ord, Hash)]
pub struct TokenId(pub u32);

impl TokenId {
    /// The display text `#<id>`.
    pub fn to_string(&self) -> (s: String)
        ensures
            s@ == seq!['#'] + nat_to_decimal(self.0 as nat),
    {
        let mut v: Vec<char> = Vec::new();
        v.push('#');
        push_decimal(&mut v, self.0 as u128);
        chars_to_string(&v)
    }
}

/// A decoded token (string piece).
#[derive(Debug, Clone, PartialEq, Eq)]
pub struct Token {
    pub id: TokenId,
    pub text: String,
}

impl Token {
    pub fn new(id: TokenId, text: &str) -> (t: Token)
        ensures
            t.id == id,
            t.text@ == text@,
    {
        Token { id, text: chars_to_string(&str_to_chars(text)) }
    }
}

/// A position in the generated sequence (0-based).
#[derive(Debug, Clone, Copy, PartialEq, Eq, Structural, PartialOrd, Ord, Hash)]
pub struct Position(pub u32);

impl Position {
    /// The following position.
    pub fn next(self) -> (p: Position)
        requires
            self.0 < u32::MAX,
        ensures
            p.0 == self.0 + 1,
    {
        Position(self.0 + 1)
    }

    /// The position `n` steps earlier, stopping at 0.
    pub fn saturating_sub(self, n: u32) -> (p: Position)
        ensures
            p.0 == (if self.0 >= n { self.0 - n } else { 0 }),
    {
        Position(self.0.saturating_sub(n))
    }

    /// The display text `pos<n>`.
    pub fn to_string(&self) -> (s: String)
        ensures
            s@ == "pos"@ + nat_to_decimal(self.0 as nat),
    {
        let mut v: Vec<char> = Vec::new();
        append_str(&mut v, "pos");
        push_decimal(&mut v, self.0 as u128);
        chars_to_string(&v)
    }
}

} // verus!
