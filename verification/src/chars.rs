//! Character classes used by the tokenizer and the numeric parsers.

use vstd::prelude::*;

verus! {

/// A code letter: the ASCII alphabetic characters. A maximal run of these
/// forms a code token; every other character belongs to a value segment.
pub open spec fn is_letter(c: char) -> bool {
    ('A' <= c && c <= 'Z') || ('a' <= c && c <= 'z')
}

/// Whitespace tolerated around a numeric value text.
pub open spec fn is_space(c: char) -> bool {
    c == ' ' || c == '\t' || c == '\r' || c == '\n'
}

/// A decimal digit.
pub open spec fn is_digit(c: char) -> bool {
    '0' <= c && c <= '9'
}

/// Numeric value of a decimal digit.
pub open spec fn digit_val(c: char) -> int {
    c as int - '0' as int
}

/// The character classes the scanners recognize maximal runs of.
#[derive(Clone, Copy, PartialEq, Eq, Debug)]
pub enum CharClass {
    /// A code letter.
    Letter,
    /// Anything but a code letter: the characters of a value segment.
    NonLetter,
    /// A decimal digit.
    Digit,
    /// Whitespace around a numeric value text.
    Space,
    /// Anything but the comment opener `(`.
    NonComment,
    /// Anything but a line feed.
    NonNewline,
}

/// Membership of a character in a class.
pub open spec fn in_class(c: char, k: CharClass) -> bool {
    match k {
        CharClass::Letter => is_letter(c),
        CharClass::NonLetter => !is_letter(c),
        CharClass::Digit => is_digit(c),
        CharClass::Space => is_space(c),
        CharClass::NonComment => c != '(',
        CharClass::NonNewline => c != '\n',
    }
}

/// Decides `in_class`.
pub fn class_member(c: char, k: CharClass) -> (b: bool)
    ensures
        b == in_class(c, k),
{
    match k {
        CharClass::Letter => ('A' <= c && c <= 'Z') || ('a' <= c && c <= 'z'),
        CharClass::NonLetter => !(('A' <= c && c <= 'Z') || ('a' <= c && c <= 'z')),
        CharClass::Digit => '0' <= c && c <= '9',
        CharClass::Space => c == ' ' || c == '\t' || c == '\r' || c == '\n',
        CharClass::NonComment => c != '(',
        CharClass::NonNewline => c != '\n',
    }
}

} // verus!
