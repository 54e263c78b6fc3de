use vstd::prelude::*;

verus! {

/// The kind of syntax error that the parser reports.
#[derive(Debug, Clone, Copy, PartialEq, Eq)]
pub enum ErrType {
    ExpectedColon,
    ExpectedCParen,
    ExpectedCSquare,
    ExpectedExpression,
    ExpectedId,
    UndeclaredId,
    ExpectedAssignment,
    ExpectedStatement,
    ExpectedCondition,
    ExpectedOSquare,
    ExpectedOParen,
    ExpectedCCurl,
    ExpectedOCurl,
    ExpectedStrLiteral,
    ExpectedType,
    ExpectedSemi,
    ExpectedEq,
    ExpectedNumLiteral,
    ExpectedCondExprOp,
    ExpectedCondTermOp,
    ExpectedArithExprOp,
    ExpectedArithTermOp,
    ExpectedComma,
}

/// A syntax error together with the (one-based) source line it was found on.
#[derive(Debug, Clone, Copy, PartialEq, Eq)]
pub struct RhErr {
    pub err: ErrType,
    pub line: usize,
}

/// Why the analysis of a syntax tree stopped.
#[derive(Debug, Clone, Copy, PartialEq, Eq)]
pub enum AnalysisErr {
    /// A variable is used before it is declared.
    UndeclaredVariable,
    /// A struct is used before it is defined.
    UndefinedStruct,
    /// A compound literal does not give one value per field.
    FieldCountMismatch,
    /// A dereference names no variable, or more than one.
    DerefTarget,
    /// A variable that holds no reference is written through.
    NotAPointer,
    /// More dereferences than the analysis follows.
    DerefDepth,
    /// A pointer is assigned something that takes no address.
    MissingAddress,
    /// An assignment has no right-hand side.
    MissingExpression,
    /// A construct the translation does not handle.
    Unsupported,
}

} // verus!
