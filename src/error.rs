use vstd::prelude::*;

verus! {

/// Why a line could not be turned into an expression tree.
#[derive(Debug, Clone, Copy, PartialEq, Eq, Structural)]
pub enum CalcError {
    /// A character that starts no token, with its position (in characters).
    Lexical { ch: char, pos: usize },
    /// A numeric literal with more than one decimal point.
    MalformedNumber,
    /// An operator where a (sub)expression begins.
    LeadingOperator,
    /// An operator with no operand after it, or an empty group.
    MissingOperand,
    /// An operand followed directly by another operand.
    UnexpectedOperand,
    /// A `)` with no open group.
    UnmatchedRightParen,
    /// The line ended inside an open group.
    UnclosedGroup,
    /// The tree builder lost track of its position: a defect, not an input problem.
    Internal,
}

} // verus!
