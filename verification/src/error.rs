//! Errors raised by parsing, conditional evaluation and attribute access.

use vstd::prelude::*;

verus! {

/// The grammar violation behind a [`ParserError`].
#[derive(Debug, Clone, Copy, PartialEq, Eq, Structural)]
pub enum ParseErrorKind {
    /// A line's leading whitespace is not a multiple of the indentation unit.
    NonUnitIndentation,
    /// A line is indented more than one unit beyond its nearest eligible parent.
    ExcessiveIndentation,
    /// A second component appears at indentation depth zero.
    MultipleRoots,
    /// The document holds no component at all.
    MissingRoot,
    /// Two unconditional attributes in one block share a key.
    DuplicateKey,
    /// The document ends inside an attribute block.
    UnterminatedBlock,
    /// A line or the document ends inside a string literal.
    UnterminatedString,
    /// A malformed literal value, or one whose magnitude does not fit.
    InvalidLiteral,
    /// A character that no rule of the grammar allows at its position.
    UnexpectedCharacter,
}

/// A structural grammar error, fatal to the parse of the whole document,
/// identifying the offending source line (1-based).
#[derive(Debug, Clone, Copy, PartialEq, Eq, Structural)]
pub struct ParserError {
    pub kind: ParseErrorKind,
    pub line: usize,
}

/// Mathematical model of a [`ParserError`].
pub struct ParserErrorSpec {
    pub kind: ParseErrorKind,
    pub line: int,
}

impl ParserError {
    pub open spec fn view(self) -> ParserErrorSpec {
        ParserErrorSpec { kind: self.kind, line: self.line as int }
    }
}

/// An error of the library: a structural parse failure, a failed conditional
/// evaluation, or a failed typed read of a resolved attribute.
#[derive(Debug)]
pub enum Error {
    /// A grammar violation; aborts the parse of the whole document.
    Parser(ParserError),
    /// A conditional expression failed to evaluate; raised by the runtime
    /// and propagated unchanged.
    Script { message: String },
    /// A caller-supplied conversion failed; wraps the inner error with the
    /// consuming component's class, source line and field key.
    Attribute { component: String, line: usize, field: String, inner: Box<Error> },
}

} // verus!
