//! Why an inequality could not be read.

use vstd::prelude::*;
use vstd::string::*;

verus! {

/// The grammar rule that did not match.
#[derive(Debug, PartialEq, Eq, Clone, Copy, Structural)]
pub enum ErrorKind {
    /// A digit was expected.
    TakeWhile1,
    /// A letter was expected: a term needs a coefficient or a variable.
    Alpha,
    /// One of the six relation tokens was expected.
    Tag,
}

/// Why an inequality could not be read.
#[derive(Debug, PartialEq)]
pub enum Error<'a> {
    /// The text is none of `<`, `<=`, `≤`, `>`, `>=`, `≥`.
    InvalidIneqSign(String),
    /// A term is neither `k·v²`, `k·v` nor a constant.
    InvalidQuadratic,
    /// Two terms of one side name different variables.
    InvalidCharacter { expected: String, found: String },
    /// The grammar did not match; holds the input that was left and the rule.
    Nom(&'a str, ErrorKind),
    /// A coefficient of the canonical form does not fit in 32 bits.
    Overflow,
}

/// The mathematical content of an [`Error`].
pub enum ErrorView {
    InvalidIneqSign(Seq<char>),
    InvalidQuadratic,
    InvalidCharacter { expected: Seq<char>, found: Seq<char> },
    Nom(Seq<char>, ErrorKind),
    Overflow,
}

impl<'a> View for Error<'a> {
    type V = ErrorView;

    open spec fn view(&self) -> ErrorView {
        match *self {
            Error::InvalidIneqSign(s) => ErrorView::InvalidIneqSign(s@),
            Error::InvalidQuadratic => ErrorView::InvalidQuadratic,
            Error::InvalidCharacter { expected, found } => ErrorView::InvalidCharacter {
                expected: expected@,
                found: found@,
            },
            Error::Nom(rest, kind) => ErrorView::Nom(rest@, kind),
            Error::Overflow => ErrorView::Overflow,
        }
    }
}

impl ErrorKind {
    /// The name of the rule.
    pub open spec fn name(self) -> Seq<char> {
        match self {
            ErrorKind::TakeWhile1 => "TakeWhile1"@,
            ErrorKind::Alpha => "Alpha"@,
            ErrorKind::Tag => "Tag"@,
        }
    }

    /// The name of the rule, as text.
    pub fn as_str(&self) -> (result: &'static str)
        ensures
            result@ == self.name(),
    {
        match self {
            ErrorKind::TakeWhile1 => "TakeWhile1",
            ErrorKind::Alpha => "Alpha",
            ErrorKind::Tag => "Tag",
        }
    }
}

impl ErrorView {
    /// The error in words.
    pub open spec fn message(self) -> Seq<char> {
        match self {
            ErrorView::InvalidIneqSign(s) => s + " is not an inequality sign"@,
            ErrorView::InvalidQuadratic => "invalid quadratic"@,
            ErrorView::InvalidCharacter { expected, found } => "invalid character: expected "@
                + expected + ", found "@ + found,
            ErrorView::Nom(rest, kind) => "parser error: input: "@ + rest + ", kind: "@
                + kind.name(),
            ErrorView::Overflow => "a coefficient does not fit in 32 bits"@,
        }
    }
}

impl<'a> Error<'a> {
    /// Writes the error out in words.
    pub fn message(&self) -> (result: String)
        ensures
            result@ == self@.message(),
    {
        match self {
            Error::InvalidIneqSign(s) => {
                let mut out = s.clone();
                out.append(" is not an inequality sign");
                out
            },
            Error::InvalidQuadratic => "invalid quadratic".to_owned(),
            Error::InvalidCharacter { expected, found } => {
                let mut out = "invalid character: expected ".to_owned();
                out.append(expected.as_str());
                out.append(", found ");
                out.append(found.as_str());
                out
            },
            Error::Nom(rest, kind) => {
                let mut out = "parser error: input: ".to_owned();
                out.append(rest);
                out.append(", kind: ");
                out.append(kind.as_str());
                out
            },
            Error::Overflow => "a coefficient does not fit in 32 bits".to_owned(),
        }
    }
}

/// A value, or the reason why there is none.
pub type Result<'a, T> = std::result::Result<T, Error<'a>>;

} // verus!
