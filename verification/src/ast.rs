use vstd::prelude::*;
use crate::annotater::AnnotatedNodeT;
use crate::lexer::{CType, Token};

verus! {

/// The kind of block a statement stands in.
#[derive(Debug)]
pub enum ScopeType {
    Function(CType),
    While,
    Program,
    If,
    Loop,
    _For,
}

impl ScopeType {
    /// `break` may stand directly in this block.
    pub fn allows_break(&self) -> (b: bool)
        ensures
            b == (*self is While || *self is Loop),
    {
        match self {
            ScopeType::While | ScopeType::Loop => true,
            _ => false,
        }
    }
}

// Valid Node Types
#[derive(Debug)]
pub enum NodeType {
    Program,
    Sub,
    Div,
    Eq,
    Id(String),
    EqCmp,
    NeqCmp,
    BOr,
    BAnd,
    BXor,
    BOrEq,
    BAndEq,
    BXorEq,
    SubEq,
    AddEq,
    DivEq,
    MulEq,
    Mul,
    AndCmp,
    OrCmp,
    NumLiteral(usize),
    Add,
    If,
    For,
    While,
    _Loop,
    Break,
    FunctionCall(String),
    /// anything that has {} is a scope
    Scope(Option<CType>),
    /// operator, id
    Assignment(AssignmentOpType, String),
    /// operator, dereferenced expression
    DerefAssignment(AssignmentOpType, Box<TokenNode>),
    /// id, type, additional_reserved_size (for arrays)
    Declaration(String, CType, usize),
    PtrDeclaration(String, CType, Box<TokenNode>),
    Asm(String),
    Adr(String),
    DeRef(Box<TokenNode>),
    /// id, type, count
    ArrayDeclaration(String, CType, usize),
    FunctionDeclaration(String, CType),
    Assert,
    Return,
    PutChar,
    StructDefinition {
        struct_id: String,
        /// id, ptr_count, underlying type
        field_definitions: Vec<(String, usize, CType)>,
    },
    StructDeclaration { var_id: String, struct_id: String, exprs: Vec<TokenNode> },
    StructFieldAssignment {
        var_id: String,
        field_id: String,
        assignment_op: AssignmentOpType,
        expr: Box<TokenNode>,
    },
    /// `var.field` read in an expression
    StructFieldId { var_id: String, field_id: String },
    /// `id[expr]` read in an expression
    IndexArray { id: String, expr: Box<TokenNode> },
    /// `id[lside] = rside`
    IndexArrayAssignment { id: String, lside: Box<TokenNode>, rside: Box<TokenNode> },
}

#[derive(Debug, Clone, Copy, PartialEq, Eq, Structural)]
pub enum AssignmentOpType {
    Eq,
    SubEq,
    AddEq,
    DivEq,
    MulEq,
    BOrEq,
    BAndEq,
    BXorEq,
    /// `++`
    AddO,
}

/// The assignment operator a token stands for.
pub open spec fn spec_assignment_op(tok: Token) -> Option<AssignmentOpType> {
    match tok {
        Token::Eq => Some(AssignmentOpType::Eq),
        Token::SubEq => Some(AssignmentOpType::SubEq),
        Token::AddEq => Some(AssignmentOpType::AddEq),
        Token::DivEq => Some(AssignmentOpType::DivEq),
        Token::MulEq => Some(AssignmentOpType::MulEq),
        Token::BOrEq => Some(AssignmentOpType::BOrEq),
        Token::BAndEq => Some(AssignmentOpType::BAndEq),
        Token::BXorEq => Some(AssignmentOpType::BXorEq),
        Token::AddO => Some(AssignmentOpType::AddO),
        _ => None,
    }
}

/// The Rust spelling of an assignment operator (`++` is written as `+= 1`).
pub open spec fn spec_op_str(op: AssignmentOpType) -> Seq<char> {
    match op {
        AssignmentOpType::Eq => "="@,
        AssignmentOpType::SubEq => "-="@,
        AssignmentOpType::DivEq => "/="@,
        AssignmentOpType::AddEq => "+="@,
        AssignmentOpType::MulEq => "*="@,
        AssignmentOpType::BOrEq => "|="@,
        AssignmentOpType::BXorEq => "^="@,
        AssignmentOpType::BAndEq => "&="@,
        AssignmentOpType::AddO => "+="@,
    }
}

impl AssignmentOpType {
    pub fn from_token(tok: &Token) -> (r: Result<AssignmentOpType, ()>)
        ensures
            r matches Ok(op) ==> spec_assignment_op(*tok) == Some(op),
            r is Err ==> spec_assignment_op(*tok) is None,
    {
        match tok {
            Token::Eq => Ok(AssignmentOpType::Eq),
            Token::SubEq => Ok(AssignmentOpType::SubEq),
            Token::AddEq => Ok(AssignmentOpType::AddEq),
            Token::DivEq => Ok(AssignmentOpType::DivEq),
            Token::MulEq => Ok(AssignmentOpType::MulEq),
            Token::BOrEq => Ok(AssignmentOpType::BOrEq),
            Token::BAndEq => Ok(AssignmentOpType::BAndEq),
            Token::BXorEq => Ok(AssignmentOpType::BXorEq),
            Token::AddO => Ok(AssignmentOpType::AddO),
            _ => Err(()),
        }
    }

    pub fn as_str(&self) -> (s: &'static str)
        ensures
            s@ == spec_op_str(*self),
    {
        match self {
            AssignmentOpType::Eq => "=",
            AssignmentOpType::SubEq => "-=",
            AssignmentOpType::DivEq => "/=",
            AssignmentOpType::AddEq => "+=",
            AssignmentOpType::MulEq => "*=",
            AssignmentOpType::BOrEq => "|=",
            AssignmentOpType::BXorEq => "^=",
            AssignmentOpType::BAndEq => "&=",
            AssignmentOpType::AddO => "+=",
        }
    }
}

/// The expression node a binary-operator or keyword token stands for.
pub open spec fn spec_node_from_token(tok: Token) -> Option<NodeType> {
    match tok {
        Token::Sub => Some(NodeType::Sub),
        Token::Div => Some(NodeType::Div),
        Token::Eq => Some(NodeType::Eq),
        Token::Id(s) => Some(NodeType::Id(s)),
        Token::EqCmp => Some(NodeType::EqCmp),
        Token::NeqCmp => Some(NodeType::NeqCmp),
        Token::OrCmp => Some(NodeType::OrCmp),
        Token::AndCmp => Some(NodeType::AndCmp),
        Token::BOr => Some(NodeType::BOr),
        Token::BAnd => Some(NodeType::BAnd),
        Token::BXor => Some(NodeType::BXor),
        Token::BOrEq => Some(NodeType::BOrEq),
        Token::BAndEq => Some(NodeType::BAndEq),
        Token::BXorEq => Some(NodeType::BXorEq),
        Token::SubEq => Some(NodeType::SubEq),
        Token::AddEq => Some(NodeType::AddEq),
        Token::DivEq => Some(NodeType::DivEq),
        Token::MulEq => Some(NodeType::MulEq),
        Token::Star => Some(NodeType::Mul),
        Token::NumLiteral(i) => Some(NodeType::NumLiteral(i)),
        Token::Add => Some(NodeType::Add),
        Token::For => Some(NodeType::For),
        Token::While => Some(NodeType::While),
        Token::If => Some(NodeType::If),
        Token::Break => Some(NodeType::Break),
        _ => None,
    }
}

/// The node kinds that stand for themselves once annotated.
pub open spec fn spec_to_annotated(n: NodeType) -> Option<AnnotatedNodeT> {
    match n {
        NodeType::Sub => Some(AnnotatedNodeT::Sub),
        NodeType::Div => Some(AnnotatedNodeT::Div),
        NodeType::Eq => Some(AnnotatedNodeT::Eq),
        NodeType::EqCmp => Some(AnnotatedNodeT::EqCmp),
        NodeType::NeqCmp => Some(AnnotatedNodeT::NeqCmp),
        NodeType::BOr => Some(AnnotatedNodeT::BOr),
        NodeType::BAnd => Some(AnnotatedNodeT::BAnd),
        NodeType::BXor => Some(AnnotatedNodeT::BXor),
        NodeType::BOrEq => Some(AnnotatedNodeT::BOrEq),
        NodeType::BAndEq => Some(AnnotatedNodeT::BAndEq),
        NodeType::BXorEq => Some(AnnotatedNodeT::BXorEq),
        NodeType::SubEq => Some(AnnotatedNodeT::SubEq),
        NodeType::AddEq => Some(AnnotatedNodeT::AddEq),
        NodeType::DivEq => Some(AnnotatedNodeT::DivEq),
        NodeType::MulEq => Some(AnnotatedNodeT::MulEq),
        NodeType::Mul => Some(AnnotatedNodeT::Mul),
        NodeType::AndCmp => Some(AnnotatedNodeT::AndCmp),
        NodeType::OrCmp => Some(AnnotatedNodeT::OrCmp),
        NodeType::NumLiteral(size) => Some(AnnotatedNodeT::NumLiteral(size)),
        NodeType::Add => Some(AnnotatedNodeT::Add),
        NodeType::If => Some(AnnotatedNodeT::If),
        NodeType::For => Some(AnnotatedNodeT::For),
        NodeType::While => Some(AnnotatedNodeT::While),
        NodeType::_Loop => Some(AnnotatedNodeT::_Loop),
        NodeType::Break => Some(AnnotatedNodeT::Break),
        NodeType::FunctionCall(s) => Some(AnnotatedNodeT::FunctionCall(s)),
        NodeType::Scope(s) => Some(AnnotatedNodeT::Scope(s)),
        NodeType::Asm(code) => Some(AnnotatedNodeT::Asm(code)),
        NodeType::FunctionDeclaration(id, t) => Some(AnnotatedNodeT::FunctionDeclaration { id, t }),
        NodeType::Assert => Some(AnnotatedNodeT::Assert),
        NodeType::PutChar => Some(AnnotatedNodeT::PutChar),
        _ => None,
    }
}

impl NodeType {
    pub fn from_token(tok: &Token) -> (r: Result<NodeType, ()>)
        ensures
            r matches Ok(n) ==> spec_node_from_token(*tok) == Some(n),
            r is Err ==> spec_node_from_token(*tok) is None,
    {
        match tok {
            Token::Sub => Ok(NodeType::Sub),
            Token::Div => Ok(NodeType::Div),
            Token::Eq => Ok(NodeType::Eq),
            Token::Id(str) => Ok(NodeType::Id(str.clone())),
            Token::EqCmp => Ok(NodeType::EqCmp),
            Token::NeqCmp => Ok(NodeType::NeqCmp),
            Token::OrCmp => Ok(NodeType::OrCmp),
            Token::AndCmp => Ok(NodeType::AndCmp),
            Token::BOr => Ok(NodeType::BOr),
            Token::BAnd => Ok(NodeType::BAnd),
            Token::BXor => Ok(NodeType::BXor),
            Token::BOrEq => Ok(NodeType::BOrEq),
            Token::BAndEq => Ok(NodeType::BAndEq),
            Token::BXorEq => Ok(NodeType::BXorEq),
            Token::SubEq => Ok(NodeType::SubEq),
            Token::AddEq => Ok(NodeType::AddEq),
            Token::DivEq => Ok(NodeType::DivEq),
            Token::MulEq => Ok(NodeType::MulEq),
            Token::Star => Ok(NodeType::Mul),  // exception for pointer
            Token::NumLiteral(i) => Ok(NodeType::NumLiteral(*i)),
            Token::Add => Ok(NodeType::Add),
            Token::For => Ok(NodeType::For),
            Token::While => Ok(NodeType::While),
            Token::If => Ok(NodeType::If),
            Token::Break => Ok(NodeType::Break),
            _ => Err(()),
        }
    }

    pub fn to_annotated_node(&self) -> (a: AnnotatedNodeT)
        requires
            spec_to_annotated(*self) is Some || *self is ArrayDeclaration,
        ensures
            !(*self is ArrayDeclaration) ==> Some(a) == spec_to_annotated(*self),
            *self matches NodeType::ArrayDeclaration(id, t, size) ==> a matches AnnotatedNodeT::ArrayDeclaration {
                id: id2,
                t: t2,
                size: size2,
                is_used,
                is_mut,
                items,
                init_value_unused,
            } && id2 == id && t2 == t && size2 == size && !is_used && !is_mut && items@.len() == 0
                && !init_value_unused,
    {
        match self {
            NodeType::Sub => AnnotatedNodeT::Sub,
            NodeType::Div => AnnotatedNodeT::Div,
            NodeType::Eq => AnnotatedNodeT::Eq,
            NodeType::EqCmp => AnnotatedNodeT::EqCmp,
            NodeType::NeqCmp => AnnotatedNodeT::NeqCmp,
            NodeType::BOr => AnnotatedNodeT::BOr,
            NodeType::BAnd => AnnotatedNodeT::BAnd,
            NodeType::BXor => AnnotatedNodeT::BXor,
            NodeType::BOrEq => AnnotatedNodeT::BOrEq,
            NodeType::BAndEq => AnnotatedNodeT::BAndEq,
            NodeType::BXorEq => AnnotatedNodeT::BXorEq,
            NodeType::SubEq => AnnotatedNodeT::SubEq,
            NodeType::AddEq => AnnotatedNodeT::AddEq,
            NodeType::DivEq => AnnotatedNodeT::DivEq,
            NodeType::MulEq => AnnotatedNodeT::MulEq,
            NodeType::Mul => AnnotatedNodeT::Mul,
            NodeType::AndCmp => AnnotatedNodeT::AndCmp,
            NodeType::OrCmp => AnnotatedNodeT::OrCmp,
            NodeType::NumLiteral(size) => AnnotatedNodeT::NumLiteral(*size),
            NodeType::Add => AnnotatedNodeT::Add,
            NodeType::If => AnnotatedNodeT::If,
            NodeType::For => AnnotatedNodeT::For,
            NodeType::While => AnnotatedNodeT::While,
            NodeType::_Loop => AnnotatedNodeT::_Loop,
            NodeType::Break => AnnotatedNodeT::Break,
            NodeType::FunctionCall(s) => AnnotatedNodeT::FunctionCall(s.clone()),
            NodeType::Scope(s) => AnnotatedNodeT::Scope(
                match s {
                    Some(t) => Some(t.duplicate()),
                    None => None,
                },
            ),
            NodeType::Asm(code) => AnnotatedNodeT::Asm(code.clone()),
            NodeType::ArrayDeclaration(id, t, size) => AnnotatedNodeT::ArrayDeclaration {
                id: id.clone(),
                t: t.duplicate(),
                size: *size,
                is_used: false,
                is_mut: false,
                items: Vec::new(),
                init_value_unused: false,
            },
            NodeType::FunctionDeclaration(id, t) => AnnotatedNodeT::FunctionDeclaration {
                id: id.clone(),
                t: t.duplicate(),
            },
            NodeType::Assert => AnnotatedNodeT::Assert,
            NodeType::PutChar => AnnotatedNodeT::PutChar,
            _ => {
                proof {
                    assert(false);
                }
                AnnotatedNodeT::Break
            },
        }
    }
}

/// A node of the syntax tree, with the (one-based) line it ends on.
#[derive(Debug)]
pub struct TokenNode {
    pub token: NodeType,
    pub line: usize,
    pub children: Option<Vec<TokenNode>>,
}

impl TokenNode {
    pub fn new(token: NodeType, children: Option<Vec<TokenNode>>, line: usize) -> (n: TokenNode)
        ensures
            n == (TokenNode { token, line, children }),
    {
        TokenNode { token, line, children }
    }

    /// The children of the node (none when it has no child list).
    pub open spec fn kids(&self) -> Seq<TokenNode> {
        match self.children {
            Some(c) => c@,
            None => seq![],
        }
    }
}

/// An assignment operator is printed as the operator it was written with: each compound
/// assignment token gives the operator whose Rust spelling is the same two characters, and
/// `=` stays `=` (`++` becomes `+= 1`'s `+=`).
pub proof fn lemma_assignment_operators_kept(t: Token)
    ensures
        t is Eq ==> (spec_assignment_op(t) matches Some(op) && spec_op_str(op) == seq!['=']),
        t is SubEq ==> (spec_assignment_op(t) matches Some(op) && spec_op_str(op) == seq!['-', '=']),
        t is AddEq ==> (spec_assignment_op(t) matches Some(op) && spec_op_str(op) == seq!['+', '=']),
        t is MulEq ==> (spec_assignment_op(t) matches Some(op) && spec_op_str(op) == seq!['*', '=']),
        t is DivEq ==> (spec_assignment_op(t) matches Some(op) && spec_op_str(op) == seq!['/', '=']),
        t is BOrEq ==> (spec_assignment_op(t) matches Some(op) && spec_op_str(op) == seq!['|', '=']),
        t is BAndEq ==> (spec_assignment_op(t) matches Some(op) && spec_op_str(op) == seq!['&', '=']),
        t is BXorEq ==> (spec_assignment_op(t) matches Some(op) && spec_op_str(op) == seq!['^', '=']),
        t is AddO ==> (spec_assignment_op(t) matches Some(op) && spec_op_str(op) == seq!['+', '=']),
{
    reveal_strlit("=");
    reveal_strlit("-=");
    reveal_strlit("+=");
    reveal_strlit("*=");
    reveal_strlit("/=");
    reveal_strlit("|=");
    reveal_strlit("&=");
    reveal_strlit("^=");
    assert("="@ =~= seq!['=']);
    assert("-="@ =~= seq!['-', '=']);
    assert("+="@ =~= seq!['+', '=']);
    assert("*="@ =~= seq!['*', '=']);
    assert("/="@ =~= seq!['/', '=']);
    assert("|="@ =~= seq!['|', '=']);
    assert("&="@ =~= seq!['&', '=']);
    assert("^="@ =~= seq!['^', '=']);
}

} // verus!
