//! The byte that separates one path from the next in a stream, and the
//! grammar of the textual token it is chosen with.

use vstd::prelude::*;

verus! {

/// The line feed byte.
pub const NEWLINE: u8 = 0x0A;

/// The horizontal tab byte.
pub const TAB: u8 = 0x09;

/// The zero byte.
pub const NULL: u8 = 0x00;

/// The backslash, which opens an escape form.
pub const BACKSLASH: u8 = 0x5C;

/// The letter `n`.
pub const LOWER_N: u8 = 0x6E;

/// The letter `t`.
pub const LOWER_T: u8 = 0x74;

/// The digit `0`.
pub const DIGIT_ZERO: u8 = 0x30;

/// A record separator: one of three named bytes, or any other single byte.
#[derive(Copy, Clone, Debug, PartialEq, Eq, Structural)]
pub enum Split {
    Newline,
    Null,
    Tab,
    Other(u8),
}

/// The error of a token that names no delimiter.
#[derive(Copy, Clone, Debug, PartialEq, Eq, Structural)]
pub struct InvalidDelimiter;

/// The two bytes of an escape form: a backslash and then `letter`.
pub open spec fn escape(letter: u8) -> Seq<u8> {
    seq![BACKSLASH, letter]
}

impl Split {
    /// The byte that this delimiter stands for.
    pub open spec fn byte(self) -> u8 {
        match self {
            Split::Newline => NEWLINE,
            Split::Null => NULL,
            Split::Tab => TAB,
            Split::Other(x) => x,
        }
    }

    /// The delimiter that a byte is parsed to: the named variant where there
    /// is one for it.
    pub open spec fn of_byte(b: u8) -> Split {
        if b == NEWLINE {
            Split::Newline
        } else if b == NULL {
            Split::Null
        } else if b == TAB {
            Split::Tab
        } else {
            Split::Other(b)
        }
    }

    /// What a token parses to. The escape forms `\n`, `\t` and `\0`, written
    /// as a backslash and a letter, name their byte; any other token must be
    /// text of exactly one byte, so a single byte below 0x80.
    pub open spec fn parse(token: Seq<u8>) -> Result<Split, InvalidDelimiter> {
        if token == escape(LOWER_N) {
            Ok(Split::Newline)
        } else if token == escape(LOWER_T) {
            Ok(Split::Tab)
        } else if token == escape(DIGIT_ZERO) {
            Ok(Split::Null)
        } else if token.len() == 1 && token[0] < 0x80 {
            Ok(Split::of_byte(token[0]))
        } else {
            Err(InvalidDelimiter)
        }
    }
}

/// The byte that a delimiter stands for: `split.byte()`.
impl From<Split> for u8 {
    fn from(split: Split) -> (b: u8) {
        match split {
            Split::Newline => NEWLINE,
            Split::Null => NULL,
            Split::Tab => TAB,
            Split::Other(x) => x,
        }
    }
}

impl vstd::std_specs::convert::FromSpecImpl<Split> for u8 {
    open spec fn obeys_from_spec() -> bool {
        true
    }

    open spec fn from_spec(split: Split) -> u8 {
        split.byte()
    }
}

/// Parses the bytes of a token as `Split::parse` says.
impl TryFrom<Vec<u8>> for Split {
    type Error = InvalidDelimiter;

    fn try_from(s: Vec<u8>) -> (r: Result<Split, InvalidDelimiter>) {
        if s.len() == 2 && s[0] == BACKSLASH {
            let letter: u8 = s[1];
            assert(s@ =~= escape(letter));
            if letter == LOWER_N {
                return Ok(Split::Newline);
            } else if letter == LOWER_T {
                return Ok(Split::Tab);
            } else if letter == DIGIT_ZERO {
                return Ok(Split::Null);
            }
        }
        if s.len() != 1 || s[0] >= 0x80 {
            return Err(InvalidDelimiter);
        }
        let b: u8 = s[0];
        if b == NEWLINE {
            Ok(Split::Newline)
        } else if b == NULL {
            Ok(Split::Null)
        } else if b == TAB {
            Ok(Split::Tab)
        } else {
            Ok(Split::Other(b))
        }
    }
}

impl vstd::std_specs::convert::TryFromSpecImpl<Vec<u8>> for Split {
    open spec fn obeys_try_from_spec() -> bool {
        true
    }

    open spec fn try_from_spec(s: Vec<u8>) -> Result<Split, InvalidDelimiter> {
        Split::parse(s@)
    }
}

/// A token that is one byte of text, other than the line feed, the zero byte
/// and the tab, parses to `Other` of that byte, and the delimiter stands for
/// the byte it was parsed from.
pub proof fn lemma_plain_byte_round_trip(token: Seq<u8>)
    requires
        token.len() == 1,
        token[0] < 0x80,
        token[0] != NEWLINE,
        token[0] != NULL,
        token[0] != TAB,
    ensures
        Split::parse(token) == Ok::<Split, InvalidDelimiter>(Split::Other(token[0])),
        Split::parse(token).unwrap().byte() == token[0],
{
}

/// Every token that is one byte of text parses, and to a delimiter that
/// stands for that byte.
pub proof fn lemma_single_byte_round_trip(token: Seq<u8>)
    requires
        token.len() == 1,
        token[0] < 0x80,
    ensures
        Split::parse(token).is_ok(),
        Split::parse(token).unwrap().byte() == token[0],
{
}

/// The three escape forms parse to the named delimiters, which stand for the
/// line feed, the tab and the zero byte.
pub proof fn lemma_escape_forms()
    ensures
        Split::parse(escape(LOWER_N)) == Ok::<Split, InvalidDelimiter>(Split::Newline),
        Split::parse(escape(LOWER_T)) == Ok::<Split, InvalidDelimiter>(Split::Tab),
        Split::parse(escape(DIGIT_ZERO)) == Ok::<Split, InvalidDelimiter>(Split::Null),
        Split::Newline.byte() == 0x0A,
        Split::Tab.byte() == 0x09,
        Split::Null.byte() == 0x00,
{
}

/// A token of any other length than one is accepted only as one of the three
/// escape forms.
pub proof fn lemma_long_token_rejected(token: Seq<u8>)
    requires
        token.len() != 1,
        token != escape(LOWER_N),
        token != escape(LOWER_T),
        token != escape(DIGIT_ZERO),
    ensures
        Split::parse(token) == Err::<Split, InvalidDelimiter>(InvalidDelimiter),
{
}

/// A single byte that is no text on its own names no delimiter.
pub proof fn lemma_high_byte_rejected(token: Seq<u8>)
    requires
        token.len() == 1,
        token[0] >= 0x80,
    ensures
        Split::parse(token) == Err::<Split, InvalidDelimiter>(InvalidDelimiter),
{
}

} // verus!
