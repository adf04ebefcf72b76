//! Typed instructions and the decoding of one (code, value) token pair.

use crate::numbers::{
    float_text, is_float_text, parse_u32, trim, trim_spaces, u32_of_text,
};
use std::io::Write;
use vstd::prelude::*;

verus! {

/// A fatal decoding failure for one source line.
#[derive(Debug, PartialEq, Eq, Clone, Copy)]
pub enum DecodeError {
    /// A recognized code's value text failed numeric parsing.
    MalformedValue,
    /// The line's tokens do not pair up into (code, value) pairs: the line
    /// does not begin with a code letter.
    MalformedTokenStream,
}

impl View for DecodeError {
    type V = DecodeError;

    open spec fn view(&self) -> DecodeError {
        *self
    }
}

impl DeepView for DecodeError {
    type V = DecodeError;

    open spec fn deep_view(&self) -> DecodeError {
        *self
    }
}

/// One decoded instruction. The codes G, T, M and S carry an unsigned
/// integer payload; the axis and parameter codes carry the text of their
/// numeric value, trimmed of surrounding whitespace and validated against
/// the floating-point syntax. The code R is treated as an alias of F, so
/// the decoder never produces the `R` variant itself.
#[derive(Debug, PartialEq, Eq, Clone)]
pub enum Instruction {
    G(u32),
    T(u32),
    M(u32),
    S(u32),
    X(String),
    Y(String),
    Z(String),
    I(String),
    J(String),
    K(String),
    F(String),
    R(String),
}

/// The mathematical content of an `Instruction`: value texts as character
/// sequences.
pub enum InstrModel {
    G(u32),
    T(u32),
    M(u32),
    S(u32),
    X(Seq<char>),
    Y(Seq<char>),
    Z(Seq<char>),
    I(Seq<char>),
    J(Seq<char>),
    K(Seq<char>),
    F(Seq<char>),
    R(Seq<char>),
}

impl View for Instruction {
    type V = InstrModel;

    open spec fn view(&self) -> InstrModel {
        match self {
            Instruction::G(n) => InstrModel::G(*n),
            Instruction::T(n) => InstrModel::T(*n),
            Instruction::M(n) => InstrModel::M(*n),
            Instruction::S(n) => InstrModel::S(*n),
            Instruction::X(v) => InstrModel::X(v@),
            Instruction::Y(v) => InstrModel::Y(v@),
            Instruction::Z(v) => InstrModel::Z(v@),
            Instruction::I(v) => InstrModel::I(v@),
            Instruction::J(v) => InstrModel::J(v@),
            Instruction::K(v) => InstrModel::K(v@),
            Instruction::F(v) => InstrModel::F(v@),
            Instruction::R(v) => InstrModel::R(v@),
        }
    }
}

impl DeepView for Instruction {
    type V = InstrModel;

    open spec fn deep_view(&self) -> InstrModel {
        self.view()
    }
}

/// The decoding of one (code, value) token pair: a typed instruction, no
/// instruction for an unrecognized code, or the malformed-value error when
/// a recognized code's value text fails numeric parsing.
pub open spec fn decode_pair(code: Seq<char>, value: Seq<char>) -> Result<
    Option<InstrModel>,
    DecodeError,
> {
    if code.len() != 1 {
        Ok(None)
    } else {
        let c = code[0];
        if c == 'G' {
            match u32_of_text(value) {
                Some(n) => Ok(Some(InstrModel::G(n))),
                None => Err(DecodeError::MalformedValue),
            }
        } else if c == 'T' {
            match u32_of_text(value) {
                Some(n) => Ok(Some(InstrModel::T(n))),
                None => Err(DecodeError::MalformedValue),
            }
        } else if c == 'M' {
            match u32_of_text(value) {
                Some(n) => Ok(Some(InstrModel::M(n))),
                None => Err(DecodeError::MalformedValue),
            }
        } else if c == 'S' {
            match u32_of_text(value) {
                Some(n) => Ok(Some(InstrModel::S(n))),
                None => Err(DecodeError::MalformedValue),
            }
        } else if c == 'X' {
            if is_float_text(trim_spaces(value)) {
                Ok(Some(InstrModel::X(trim_spaces(value))))
            } else {
                Err(DecodeError::MalformedValue)
            }
        } else if c == 'Y' {
            if is_float_text(trim_spaces(value)) {
                Ok(Some(InstrModel::Y(trim_spaces(value))))
            } else {
                Err(DecodeError::MalformedValue)
            }
        } else if c == 'Z' {
            if is_float_text(trim_spaces(value)) {
                Ok(Some(InstrModel::Z(trim_spaces(value))))
            } else {
                Err(DecodeError::MalformedValue)
            }
        } else if c == 'I' {
            if is_float_text(trim_spaces(value)) {
                Ok(Some(InstrModel::I(trim_spaces(value))))
            } else {
                Err(DecodeError::MalformedValue)
            }
        } else if c == 'J' {
            if is_float_text(trim_spaces(value)) {
                Ok(Some(InstrModel::J(trim_spaces(value))))
            } else {
                Err(DecodeError::MalformedValue)
            }
        } else if c == 'K' {
            if is_float_text(trim_spaces(value)) {
                Ok(Some(InstrModel::K(trim_spaces(value))))
            } else {
                Err(DecodeError::MalformedValue)
            }
        } else if c == 'F' || c == 'R' {
            if is_float_text(trim_spaces(value)) {
                Ok(Some(InstrModel::F(trim_spaces(value))))
            } else {
                Err(DecodeError::MalformedValue)
            }
        } else {
            Ok(None)
        }
    }
}

/// Relies on std::io::Stderr::write_fmt: writes the unrecognized-code
/// diagnostic to the standard error stream; nothing the decoder reads
/// comes back.
#[verifier::external_body]
fn log_unknown_code(code: &str, value: &str) {
    let _ = writeln!(std::io::stderr(), "UNKNOWN CODE: {} => {}", code, value);
}

/// Validates a floating-point value text and returns it trimmed.
fn float_value(value: &str) -> (r: Result<String, DecodeError>)
    ensures
        match r {
            Ok(t) => is_float_text(trim_spaces(value@)) && t@ == trim_spaces(value@),
            Err(e) => !is_float_text(trim_spaces(value@)) && e == DecodeError::MalformedValue,
        },
{
    let t = trim(value);
    if float_text(t.as_str()) {
        Ok(t)
    } else {
        Err(DecodeError::MalformedValue)
    }
}

impl Instruction {
    /// Decodes one (code, value) token pair: a typed instruction, `None`
    /// for an unrecognized code (a diagnostic is written and the token is
    /// dropped), or the malformed-value error.
    pub fn from_pair(typ: &str, value: &str) -> (r: Result<Option<Instruction>, DecodeError>)
        ensures
            match r {
                Ok(Some(i)) => decode_pair(typ@, value@) == Ok::<Option<InstrModel>, DecodeError>(
                    Some(i@),
                ),
                Ok(None) => decode_pair(typ@, value@) == Ok::<Option<InstrModel>, DecodeError>(
                    None,
                ),
                Err(e) => decode_pair(typ@, value@) == Err::<Option<InstrModel>, DecodeError>(e),
            },
    {
        if typ.unicode_len() != 1 {
            log_unknown_code(typ, value);
            return Ok(None);
        }
        let c = typ.get_char(0);
        if c == 'G' {
            match parse_u32(value) {
                Some(n) => Ok(Some(Instruction::G(n))),
                None => Err(DecodeError::MalformedValue),
            }
        } else if c == 'T' {
            match parse_u32(value) {
                Some(n) => Ok(Some(Instruction::T(n))),
                None => Err(DecodeError::MalformedValue),
            }
        } else if c == 'M' {
            match parse_u32(value) {
                Some(n) => Ok(Some(Instruction::M(n))),
                None => Err(DecodeError::MalformedValue),
            }
        } else if c == 'S' {
            match parse_u32(value) {
                Some(n) => Ok(Some(Instruction::S(n))),
                None => Err(DecodeError::MalformedValue),
            }
        } else if c == 'X' {
            match float_value(value) {
                Ok(t) => Ok(Some(Instruction::X(t))),
                Err(e) => Err(e),
            }
        } else if c == 'Y' {
            match float_value(value) {
                Ok(t) => Ok(Some(Instruction::Y(t))),
                Err(e) => Err(e),
            }
        } else if c == 'Z' {
            match float_value(value) {
                Ok(t) => Ok(Some(Instruction::Z(t))),
                Err(e) => Err(e),
            }
        } else if c == 'I' {
            match float_value(value) {
                Ok(t) => Ok(Some(Instruction::I(t))),
                Err(e) => Err(e),
            }
        } else if c == 'J' {
            match float_value(value) {
                Ok(t) => Ok(Some(Instruction::J(t))),
                Err(e) => Err(e),
            }
        } else if c == 'K' {
            match float_value(value) {
                Ok(t) => Ok(Some(Instruction::K(t))),
                Err(e) => Err(e),
            }
        } else if c == 'F' || c == 'R' {
            match float_value(value) {
                Ok(t) => Ok(Some(Instruction::F(t))),
                Err(e) => Err(e),
            }
        } else {
            log_unknown_code(typ, value);
            Ok(None)
        }
    }
}

} // verus!
