//! What the parsers report when a text is not what they expect.

use vstd::prelude::*;

verus! {

/// The ways in which a line can break the structure of a text.
#[derive(Clone, Copy, Debug, PartialEq, Eq, Structural)]
pub enum MalformedKind {
    /// An empty line, or a line that begins with nothing the format knows.
    UnexpectedToken,
    /// A table begins while another one is still open.
    NestedTable,
    /// A table is closed while none is open.
    StrayCommit,
    /// A chain declaration that is not a name, a policy and a counter.
    MalformedChain,
    /// A counter that is not of the form `[packets:bytes]`.
    MalformedCounter,
    /// A policy that is neither accept nor drop.
    InvalidPolicy,
    /// A chain is declared twice in one table.
    DuplicateChain,
    /// A rule line that does not append to a named chain.
    MalformedRule,
    /// A rule is appended to a chain that its table does not declare.
    UnknownChain,
    /// A set header without the separator between marker and name.
    MalformedSetName,
}

/// Why a text was refused as a whole.
#[derive(Clone, Copy, Debug, PartialEq, Eq, Structural)]
pub enum ParseError {
    /// The line with this number, counted from one, breaks the structure.
    MalformedInput { line: usize, kind: MalformedKind },
    /// The text ends while a table is still open.
    TruncatedInput,
}

/// A pattern that is no regular expression, or one too large to compile.
#[derive(Clone, Copy, Debug, PartialEq, Eq, Structural)]
pub struct InvalidPattern;

impl ParseError {
    /// The kind of structural violation, if this is one.
    pub fn kind(&self) -> (k: Option<MalformedKind>)
        ensures
            k == match *self {
                ParseError::MalformedInput { kind, .. } => Some(kind),
                ParseError::TruncatedInput => None,
            },
    {
        match self {
            ParseError::MalformedInput { kind, .. } => Some(*kind),
            ParseError::TruncatedInput => None,
        }
    }
}

} // verus!
