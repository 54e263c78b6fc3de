use vstd::prelude::*;
use crate::data_model::VarData;
use crate::lexer::CType;

verus! {

/// Represents a single scope.
/// While Rust functions can be nested inside functions (allowing for currying of non-static
/// variables), C functions cannot, so this isn't represented.
pub struct ScopeContext {
    pub scope_type: ScopeType,
    pub variables: Vec<(String, VarData)>,
}

impl ScopeContext {
    /// A scope of the given kind with no variables yet.
    pub fn new(scope_type: ScopeType) -> (s: ScopeContext)
        ensures
            s.scope_type == scope_type,
            s.variables@.len() == 0,
    {
        ScopeContext { scope_type, variables: Vec::new() }
    }
}

/// The kinds of scope.
pub enum ScopeType {
    Function { name: String, ret: CType, args: Vec<String> },
    Loop,
    Top,
    Misc,
}

} // verus!
