use vstd::prelude::*;
use std::ops::Range;
use crate::ast::{spec_assignment_op, AssignmentOpType, NodeType, ScopeType, TokenNode};
use crate::error::{ErrType, RhErr};
use crate::lexer::{spec_kind, CType, Token, TokenKind};
use crate::token_handler::{spec_line, spec_line_end, spec_line_start, TokenHandler};

verus! {

/// The kind of a node of the syntax tree, with names as character sequences.
pub enum Kind {
    Program,
    Add,
    Sub,
    Mul,
    Div,
    EqCmp,
    NeqCmp,
    AndCmp,
    OrCmp,
    Id(Seq<char>),
    NumLiteral(usize),
    If,
    For,
    While,
    Break,
    FunctionCall(Seq<char>),
    Scope(Option<CType>),
    Assignment(AssignmentOpType, Seq<char>),
    DerefAssignment(AssignmentOpType, Box<Tree>),
    Declaration(Seq<char>, CType, usize),
    PtrDeclaration(Seq<char>, CType, Box<Tree>),
    Asm(Seq<char>),
    Adr(Seq<char>),
    DeRef(Box<Tree>),
    ArrayDeclaration(Seq<char>, CType, usize),
    FunctionDeclaration(Seq<char>, CType),
    Assert,
    Return,
    PutChar,
    /// struct name, then each field's name, number of stars and type
    StructDefinition(Seq<char>, Seq<(Seq<char>, usize, CType)>),
    /// variable name, struct name, field values
    StructDeclaration(Seq<char>, Seq<char>, Seq<Tree>),
    /// variable name, field name, operator, value
    StructFieldAssignment(Seq<char>, Seq<char>, AssignmentOpType, Box<Tree>),
    StructFieldId(Seq<char>, Seq<char>),
    IndexArray(Seq<char>, Box<Tree>),
    /// array name, index, value
    IndexArrayAssignment(Seq<char>, Box<Tree>, Box<Tree>),
    /// a node kind the parser never builds
    Other,
}

/// A syntax tree as the grammar describes it: the node's kind, the line it is given, and its
/// children.
pub struct Tree {
    pub kind: Kind,
    pub line: usize,
    pub kids: Option<Seq<Tree>>,
}

/// The kind of a node.
pub open spec fn kind_of(t: NodeType) -> Kind
    decreases t,
{
    match t {
        NodeType::Program => Kind::Program,
        NodeType::Add => Kind::Add,
        NodeType::Sub => Kind::Sub,
        NodeType::Mul => Kind::Mul,
        NodeType::Div => Kind::Div,
        NodeType::EqCmp => Kind::EqCmp,
        NodeType::NeqCmp => Kind::NeqCmp,
        NodeType::AndCmp => Kind::AndCmp,
        NodeType::OrCmp => Kind::OrCmp,
        NodeType::Id(s) => Kind::Id(s@),
        NodeType::NumLiteral(n) => Kind::NumLiteral(n),
        NodeType::If => Kind::If,
        NodeType::For => Kind::For,
        NodeType::While => Kind::While,
        NodeType::Break => Kind::Break,
        NodeType::FunctionCall(s) => Kind::FunctionCall(s@),
        NodeType::Scope(c) => Kind::Scope(c),
        NodeType::Assignment(o, s) => Kind::Assignment(o, s@),
        NodeType::DerefAssignment(o, b) => Kind::DerefAssignment(o, Box::new(tree_of(*b))),
        NodeType::Declaration(s, c, k) => Kind::Declaration(s@, c, k),
        NodeType::PtrDeclaration(s, c, b) => Kind::PtrDeclaration(s@, c, Box::new(tree_of(*b))),
        NodeType::Asm(s) => Kind::Asm(s@),
        NodeType::Adr(s) => Kind::Adr(s@),
        NodeType::DeRef(b) => Kind::DeRef(Box::new(tree_of(*b))),
        NodeType::ArrayDeclaration(s, c, k) => Kind::ArrayDeclaration(s@, c, k),
        NodeType::FunctionDeclaration(s, c) => Kind::FunctionDeclaration(s@, c),
        NodeType::Assert => Kind::Assert,
        NodeType::Return => Kind::Return,
        NodeType::PutChar => Kind::PutChar,
        NodeType::StructDefinition { struct_id, field_definitions } => Kind::StructDefinition(
            struct_id@,
            fields_view(field_definitions@),
        ),
        NodeType::StructDeclaration { var_id, struct_id, exprs } => Kind::StructDeclaration(
            var_id@,
            struct_id@,
            trees_of(exprs@),
        ),
        NodeType::StructFieldAssignment { var_id, field_id, assignment_op, expr } =>
            Kind::StructFieldAssignment(var_id@, field_id@, assignment_op, Box::new(tree_of(*expr))),
        NodeType::StructFieldId { var_id, field_id } => Kind::StructFieldId(var_id@, field_id@),
        NodeType::IndexArray { id, expr } => Kind::IndexArray(id@, Box::new(tree_of(*expr))),
        NodeType::IndexArrayAssignment { id, lside, rside } => Kind::IndexArrayAssignment(
            id@,
            Box::new(tree_of(*lside)),
            Box::new(tree_of(*rside)),
        ),
        _ => Kind::Other,
    }
}

/// The tree a node stands for.
pub open spec fn tree_of(n: TokenNode) -> Tree
    decreases n,
{
    Tree {
        kind: kind_of(n.token),
        line: n.line,
        kids: match n.children {
            Some(c) => Some(trees_of(c@)),
            None => None,
        },
    }
}

/// The trees a list of nodes stands for.
pub open spec fn trees_of(s: Seq<TokenNode>) -> Seq<Tree>
    decreases s,
{
    if s.len() == 0 {
        seq![]
    } else {
        trees_of(s.drop_last()).push(tree_of(s.last()))
    }
}

/// The field definitions of a struct with their names as character sequences.
pub open spec fn fields_view(f: Seq<(String, usize, CType)>) -> Seq<(Seq<char>, usize, CType)> {
    f.map_values(|d: (String, usize, CType)| (d.0@, d.1, d.2))
}

pub proof fn lemma_trees_of(s: Seq<TokenNode>)
    ensures
        trees_of(s).len() == s.len(),
        forall|i: int| 0 <= i < s.len() ==> #[trigger] trees_of(s)[i] == tree_of(s[i]),
    decreases s.len(),
{
    if s.len() > 0 {
        lemma_trees_of(s.drop_last());
        assert forall|i: int| 0 <= i < s.len() implies #[trigger] trees_of(s)[i] == tree_of(s[i]) by {
            if i < s.len() - 1 {
                assert(s.drop_last()[i] == s[i]);
            }
        }
    }
}

pub proof fn lemma_trees_of_push(s: Seq<TokenNode>, x: TokenNode)
    ensures
        trees_of(s.push(x)) == trees_of(s).push(tree_of(x)),
{
    assert(s.push(x).drop_last() =~= s);
}

/// The tokens and the token span of each line that a parse reads.
pub struct Src {
    pub ts: Seq<Token>,
    pub ls: Seq<Range<usize>>,
}

/// What a token handler reads: its tokens and line spans.
pub open spec fn src(th: TokenHandler) -> Src {
    Src { ts: th.tokens@, ls: th.token_lines@ }
}

/// The line spans a token handler builds from a line table over `n` tokens.
pub open spec fn spans_of(lines: Seq<usize>, n: nat) -> Seq<Range<usize>> {
    Seq::new(
        lines.len(),
        |j: int| Range { start: spec_line_start(lines, j) as usize, end: spec_line_end(lines, n, j) as usize },
    )
}

/// A parse result with the node as a tree.
pub open spec fn res_view(r: Result<TokenNode, RhErr>) -> Result<Tree, RhErr> {
    match r {
        Ok(n) => Ok(tree_of(n)),
        Err(e) => Err(e),
    }
}

/// A parse result with the nodes as trees.
pub open spec fn res_all(r: Result<Vec<TokenNode>, RhErr>) -> Result<Seq<Tree>, RhErr> {
    match r {
        Ok(v) => Ok(trees_of(v@)),
        Err(e) => Err(e),
    }
}

/// The token at position `p`, if there is one.
pub open spec fn tok(s: Src, p: int) -> Option<Token> {
    if 0 <= p < s.ts.len() {
        Some(s.ts[p])
    } else {
        None
    }
}

/// The kind of the token at position `p`, if there is one.
pub open spec fn kind_at(s: Src, p: int) -> Option<TokenKind> {
    match tok(s, p) {
        Some(t) => Some(spec_kind(t)),
        None => None,
    }
}

/// The token at position `p` is of kind `k`.
pub open spec fn at_kind(s: Src, p: int, k: TokenKind) -> bool {
    kind_at(s, p) == Some(k)
}

/// The position after `p`; the end stays the end.
pub open spec fn adv(s: Src, p: int) -> int {
    if p < s.ts.len() {
        p + 1
    } else {
        p
    }
}

/// The line reported at position `p`: that of the token there, the last line past the end.
pub open spec fn line_at(s: Src, p: int) -> usize {
    if p < s.ts.len() {
        spec_line(s.ls, p) as usize
    } else {
        s.ls.len() as usize
    }
}

/// `p` to `q` goes forwards and stays within the tokens.
pub open spec fn within(s: Src, p: int, q: int) -> bool {
    p <= q <= s.ts.len()
}

/// A syntax error `e` reported at position `p`, where the parse stops.
pub open spec fn fail<T>(s: Src, p: int, e: ErrType) -> (Result<T, RhErr>, int) {
    (Err(RhErr { err: e, line: line_at(s, p) }), p)
}

pub open spec fn leaf(k: Kind, line: usize) -> Tree {
    Tree { kind: k, line, kids: None }
}

pub open spec fn branch(k: Kind, line: usize, kids: Seq<Tree>) -> Tree {
    Tree { kind: k, line, kids: Some(kids) }
}

/// The operator that a token stands for in an assignment, if any.
pub open spec fn op_at(s: Src, p: int) -> Option<AssignmentOpType> {
    match tok(s, p) {
        Some(t) => spec_assignment_op(t),
        None => None,
    }
}

// ---- arithmetic expressions ----------------------------------------------------------

/// Ends a factor: the factor must not run past the last token, and the parse moves on past
/// it (errors found inside the factor are returned after that step too).
pub open spec fn factor_end(s: Src, r: Result<Tree, RhErr>, q: int) -> (Result<Tree, RhErr>, int) {
    if r is Ok && q >= s.ts.len() {
        fail(s, q, ErrType::ExpectedExpression)
    } else {
        (r, adv(s, q))
    }
}

/// A factor: a literal, a variable, a call, an indexing, an address, a dereference or a
/// bracketed expression.
pub open spec fn parse_factor(s: Src, p: int) -> (Result<Tree, RhErr>, int)
    decreases s.ts.len() - p, 9nat,
{
    match tok(s, p) {
        Some(Token::NumLiteral(num)) => factor_end(s, Ok(leaf(Kind::NumLiteral(num), line_at(s, p))), p),
        Some(Token::StructFieldId { struct_id, field_id }) => factor_end(
            s,
            Ok(leaf(Kind::StructFieldId(struct_id@, field_id@), line_at(s, p))),
            p,
        ),
        Some(Token::Id(id)) => if kind_at(s, p + 1) == Some(TokenKind::OParen) {
            let (c, q) = parse_call(s, p, id@);
            factor_end(s, c, q)
        } else if kind_at(s, p + 1) == Some(TokenKind::OSquare) {
            match parse_expr(s, p + 1) {
                (Err(x), q) => (Err(x), q),
                (Ok(e), q) => {
                    let q1 = adv(s, q);
                    if !at_kind(s, q1, TokenKind::CSquare) {
                        fail(s, q1, ErrType::ExpectedCSquare)
                    } else {
                        factor_end(s, Ok(leaf(Kind::IndexArray(id@, Box::new(e)), line_at(s, q1))), q1)
                    }
                },
            }
        } else {
            factor_end(s, Ok(leaf(Kind::Id(id@), line_at(s, p))), p)
        },
        Some(Token::BAnd) => match tok(s, p + 1) {
            Some(Token::Id(id)) => factor_end(s, Ok(leaf(Kind::Adr(id@), line_at(s, p + 1))), p + 1),
            _ => {
                let (e, q) = fail::<Tree>(s, p + 1, ErrType::ExpectedId);
                factor_end(s, e, q)
            },
        },
        Some(Token::Star) => match parse_factor(s, p + 1) {
            (Err(x), q) => (Err(x), q),
            (Ok(f), q) => factor_end(s, Ok(leaf(Kind::DeRef(Box::new(f)), line_at(s, q - 1))), q - 1),
        },
        Some(Token::OParen) => match parse_expr(s, p + 1) {
            (Ok(e), q) => if !at_kind(s, q, TokenKind::CParen) {
                let (x, q1) = fail::<Tree>(s, q, ErrType::ExpectedCParen);
                factor_end(s, x, q1)
            } else {
                factor_end(s, Ok(e), q)
            },
            (Err(x), q) => factor_end(s, Err(x), q),
        },
        _ => {
            let (x, q) = fail::<Tree>(s, p, ErrType::ExpectedExpression);
            factor_end(s, x, q)
        },
    }
}

/// `name(arg, ..)` from the name; ends on the closing bracket.
pub open spec fn parse_call(s: Src, p: int, name: Seq<char>) -> (Result<Tree, RhErr>, int)
    decreases s.ts.len() - p, 8nat,
{
    let p1 = adv(s, p);
    if !at_kind(s, p1, TokenKind::OParen) {
        fail(s, p1, ErrType::ExpectedOParen)
    } else {
        match call_args(s, p1 + 1, seq![]) {
            (Err(x), q) => (Err(x), q),
            (Ok(args), q) => if !at_kind(s, q, TokenKind::CParen) {
                fail(s, q, ErrType::ExpectedCParen)
            } else {
                (Ok(branch(Kind::FunctionCall(name), line_at(s, q), args)), q)
            },
        }
    }
}

/// The arguments of a call from position `q`, after those already read.
pub open spec fn call_args(s: Src, q: int, args: Seq<Tree>) -> (Result<Seq<Tree>, RhErr>, int)
    decreases s.ts.len() - q, 12nat,
{
    if at_kind(s, q, TokenKind::CParen) {
        (Ok(args), q)
    } else {
        match parse_expr(s, q) {
            (Err(x), q1) => (Err(x), q1),
            (Ok(a), q1) => if !at_kind(s, q1, TokenKind::Comma) || q1 < q {
                (Ok(args.push(a)), q1)
            } else {
                call_args(s, q1 + 1, args.push(a))
            },
        }
    }
}

/// Sums and differences of terms, left to right.
pub open spec fn parse_expr(s: Src, p: int) -> (Result<Tree, RhErr>, int)
    decreases s.ts.len() - p, 11nat,
{
    match parse_term(s, p) {
        (Err(x), q) => (Err(x), q),
        (Ok(l), q) => if within(s, p, q) {
            expr_rest(s, l, q)
        } else {
            (Ok(l), q)
        },
    }
}

/// The rest of a sum whose left part `l` ends at `q`.
pub open spec fn expr_rest(s: Src, l: Tree, q: int) -> (Result<Tree, RhErr>, int)
    decreases s.ts.len() - q, 10nat,
{
    let is_add = at_kind(s, q, TokenKind::Add);
    let is_sub = at_kind(s, q, TokenKind::Sub);
    if !is_add && !is_sub {
        (Ok(l), q)
    } else {
        match parse_term(s, q + 1) {
            (Err(x), q2) => (Err(x), q2),
            (Ok(r), q2) => {
                let l2 = branch(if is_add { Kind::Add } else { Kind::Sub }, line_at(s, q2), seq![l, r]);
                if within(s, q + 1, q2) {
                    expr_rest(s, l2, q2)
                } else {
                    (Ok(l2), q2)
                }
            },
        }
    }
}

/// Products and quotients of factors, left to right.
pub open spec fn parse_term(s: Src, p: int) -> (Result<Tree, RhErr>, int)
    decreases s.ts.len() - p, 10nat,
{
    match parse_factor(s, p) {
        (Err(x), q) => (Err(x), q),
        (Ok(l), q) => if within(s, p, q) {
            term_rest(s, l, q)
        } else {
            (Ok(l), q)
        },
    }
}

/// The rest of a product whose left part `l` ends at `q`.
pub open spec fn term_rest(s: Src, l: Tree, q: int) -> (Result<Tree, RhErr>, int)
    decreases s.ts.len() - q, 9nat,
{
    let is_mul = at_kind(s, q, TokenKind::Star);
    let is_div = at_kind(s, q, TokenKind::Div);
    if !is_mul && !is_div {
        (Ok(l), q)
    } else {
        match parse_factor(s, q + 1) {
            (Err(x), q2) => (Err(x), q2),
            (Ok(r), q2) => {
                let l2 = branch(if is_mul { Kind::Mul } else { Kind::Div }, line_at(s, q2), seq![l, r]);
                if within(s, q + 1, q2) {
                    term_rest(s, l2, q2)
                } else {
                    (Ok(l2), q2)
                }
            },
        }
    }
}

// ---- conditions ------------------------------------------------------------------------

/// `(condition)`: ends on the closing bracket.
pub open spec fn parse_condition(s: Src, p: int) -> (Result<Tree, RhErr>, int) {
    if at_kind(s, p, TokenKind::OParen) {
        match cond_expr(s, p + 1) {
            (c, q) => if at_kind(s, q, TokenKind::CParen) {
                (c, q)
            } else {
                fail(s, q, ErrType::ExpectedCParen)
            },
        }
    } else {
        fail(s, p, ErrType::ExpectedOParen)
    }
}

/// Conditions joined by `&&` and `||`, left to right.
pub open spec fn cond_expr(s: Src, p: int) -> (Result<Tree, RhErr>, int)
    decreases s.ts.len() - p, 14nat,
{
    match cond_term(s, p) {
        (Err(x), q) => (Err(x), q),
        (Ok(l), q) => if within(s, p, q) {
            cond_expr_rest(s, l, q)
        } else {
            (Ok(l), q)
        },
    }
}

/// The right operand of `&&` or `||` at `q`: a bracketed condition or a comparison.
pub open spec fn cond_operand(s: Src, q: int) -> (Result<Tree, RhErr>, int)
    decreases s.ts.len() - q, 15nat,
{
    if at_kind(s, q, TokenKind::OParen) {
        match cond_expr(s, q + 1) {
            (Err(x), q3) => (Err(x), q3),
            (Ok(e), q3) => if !at_kind(s, q3, TokenKind::CParen) {
                fail(s, q3, ErrType::ExpectedCParen)
            } else {
                (Ok(e), q3 + 1)
            },
        }
    } else {
        cond_term(s, q)
    }
}

/// The rest of a chain of `&&` and `||` whose left part `l` ends at `q`.
pub open spec fn cond_expr_rest(s: Src, l: Tree, q: int) -> (Result<Tree, RhErr>, int)
    decreases s.ts.len() - q, 13nat,
{
    let is_and = at_kind(s, q, TokenKind::AndCmp);
    let is_or = at_kind(s, q, TokenKind::OrCmp);
    if !is_and && !is_or {
        (Ok(l), q)
    } else {
        match cond_operand(s, q + 1) {
            (Err(x), q4) => (Err(x), q4),
            (Ok(r), q4) => {
                let l2 = branch(if is_and { Kind::AndCmp } else { Kind::OrCmp }, line_at(s, q4), seq![l, r]);
                if within(s, q + 1, q4) {
                    cond_expr_rest(s, l2, q4)
                } else {
                    (Ok(l2), q4)
                }
            },
        }
    }
}

/// Comparisons with `==` and `!=`, left to right.
pub open spec fn cond_term(s: Src, p: int) -> (Result<Tree, RhErr>, int)
    decreases s.ts.len() - p, 13nat,
{
    match parse_expr(s, p) {
        (Err(x), q) => (Err(x), q),
        (Ok(l), q) => if within(s, p, q) {
            cond_term_rest(s, l, q)
        } else {
            (Ok(l), q)
        },
    }
}

/// The rest of a chain of comparisons whose left part `l` ends at `q`.
pub open spec fn cond_term_rest(s: Src, l: Tree, q: int) -> (Result<Tree, RhErr>, int)
    decreases s.ts.len() - q, 12nat,
{
    let is_neq = at_kind(s, q, TokenKind::NeqCmp);
    let is_eq = at_kind(s, q, TokenKind::EqCmp);
    if !is_neq && !is_eq {
        (Ok(l), q)
    } else {
        match cond_factor(s, q + 1) {
            (Err(x), q2) => (Err(x), q2),
            (Ok(r), q2) => {
                let l2 = branch(if is_eq { Kind::EqCmp } else { Kind::NeqCmp }, line_at(s, q2), seq![l, r]);
                if within(s, q + 1, q2) {
                    cond_term_rest(s, l2, q2)
                } else {
                    (Ok(l2), q2)
                }
            },
        }
    }
}

/// A bracketed condition or an arithmetic expression.
pub open spec fn cond_factor(s: Src, p: int) -> (Result<Tree, RhErr>, int)
    decreases s.ts.len() - p, 12nat,
{
    if at_kind(s, p, TokenKind::OParen) {
        match cond_expr(s, p + 1) {
            (c, q) => if !at_kind(s, q, TokenKind::CParen) {
                fail(s, q, ErrType::ExpectedCParen)
            } else {
                (c, q)
            },
        }
    } else {
        parse_expr(s, p)
    }
}

// ---- statements --------------------------------------------------------------------------

/// A type name: a type keyword, or `struct` and the struct's name.
pub open spec fn parse_type_name(s: Src, p: int) -> (Result<CType, RhErr>, int) {
    match tok(s, p) {
        Some(Token::Struct) => {
            let p1 = adv(s, p);
            match tok(s, p1) {
                Some(Token::Id(id)) => (Ok(CType::Struct(id)), p1),
                _ => fail(s, p1, ErrType::ExpectedType),
            }
        },
        Some(Token::Type(t)) => (Ok(t), p),
        _ => fail(s, p, ErrType::ExpectedType),
    }
}

/// The stars of a pointer declaration from `q`, after `n` already read; more than 255 is an
/// error.
pub open spec fn star_run(s: Src, q: int, n: u8) -> (Result<u8, RhErr>, int)
    decreases s.ts.len() - q,
{
    if at_kind(s, q, TokenKind::Star) {
        if n == 255 {
            fail(s, q, ErrType::ExpectedId)
        } else {
            star_run(s, q + 1, (n + 1) as u8)
        }
    } else {
        (Ok(n), q)
    }
}

/// The stars of a field declaration from `q`, after `n` already read.
pub open spec fn star_count(s: Src, q: int, n: nat) -> (nat, int)
    decreases s.ts.len() - q,
{
    if at_kind(s, q, TokenKind::Star) {
        star_count(s, q + 1, n + 1)
    } else {
        (n, q)
    }
}

/// The statements of a block from `p`, after those already read, up to the closing curly
/// bracket (or the last token).
pub open spec fn parse_scope(s: Src, p: int, st: ScopeType, kids: Seq<Tree>) -> (Result<Seq<Tree>, RhErr>, int)
    decreases s.ts.len() - p, 20nat,
{
    if p >= s.ts.len() {
        fail(s, p, ErrType::ExpectedCCurl)
    } else if at_kind(s, p, TokenKind::CCurl) {
        (Ok(kids), p)
    } else {
        match parse_statement(s, p, st) {
            (Err(x), q) => (Err(x), q),
            (Ok(t), q) => if s.ts.len() - q == 1 {
                (Ok(kids.push(t)), q)
            } else if q >= s.ts.len() {
                fail(s, q, ErrType::ExpectedCCurl)
            } else if q < p {
                (Ok(kids.push(t)), q)
            } else {
                parse_scope(s, q + 1, st, kids.push(t))
            },
        }
    }
}

/// A block as a node.
pub open spec fn parse_scope_node(s: Src, p: int, st: ScopeType) -> (Result<Tree, RhErr>, int)
    decreases s.ts.len() - p, 21nat,
{
    match parse_scope(s, p, st, seq![]) {
        (Err(x), q) => (Err(x), q),
        (Ok(kids), q) => (Ok(branch(Kind::Scope(None), line_at(s, q), kids)), q),
    }
}

/// One statement, by its first token.
pub open spec fn parse_statement(s: Src, p: int, st: ScopeType) -> (Result<Tree, RhErr>, int)
    decreases s.ts.len() - p, 19nat,
{
    match tok(s, p) {
        Some(Token::Type(t)) => parse_type_statement(s, p, t),
        Some(Token::Id(name)) => parse_id_statement(s, p, name@),
        Some(Token::Star) => parse_deref_assignment(s, p),
        Some(Token::If) => parse_if(s, p),
        Some(Token::While) => parse_while(s, p),
        Some(Token::For) => parse_for(s, p),
        Some(Token::Break) => if st is While || st is Loop {
            (Ok(leaf(Kind::Break, line_at(s, p))), p)
        } else {
            fail(s, p, ErrType::ExpectedStatement)
        },
        Some(Token::Asm) => parse_asm(s, p),
        Some(Token::Assert) => parse_assert(s, p),
        Some(Token::Return) => parse_return(s, p),
        Some(Token::PutChar) => parse_putchar(s, p),
        Some(Token::Struct) => parse_struct_statement(s, p),
        Some(Token::StructFieldId { struct_id, field_id }) => parse_struct_field_assignment(
            s,
            p,
            struct_id@,
            field_id@,
        ),
        _ => fail(s, p, ErrType::ExpectedStatement),
    }
}

/// A statement that starts with a type: a function, an array or a scalar declaration.
pub open spec fn parse_type_statement(s: Src, p: int, t: CType) -> (Result<Tree, RhErr>, int)
    decreases s.ts.len() - p, 18nat,
{
    match star_run(s, adv(s, p), 0) {
        (Err(x), q) => (Err(x), q),
        (Ok(n), q) => match tok(s, q) {
            Some(Token::Id(id)) => {
                let q1 = q + 1;
                if !(p < q1 <= s.ts.len()) {
                    fail(s, q1, ErrType::ExpectedId)
                } else if at_kind(s, q1, TokenKind::OParen) {
                    parse_function_declaration(s, q1, t, id@)
                } else if at_kind(s, q1, TokenKind::OSquare) {
                    parse_array_declaration(s, q1, t, id@)
                } else {
                    parse_scalar_declaration(s, q1, t, id@, n)
                }
            },
            _ => fail(s, q, ErrType::ExpectedId),
        },
    }
}

/// `= expr;` after a declared name; pointers take an arithmetic expression.
pub open spec fn parse_scalar_declaration(s: Src, p: int, t: CType, id: Seq<char>, stars: u8) -> (
    Result<Tree, RhErr>,
    int,
) {
    if !at_kind(s, p, TokenKind::Eq) {
        fail(s, p, ErrType::ExpectedEq)
    } else {
        match if stars > 0 {
            parse_expr(s, p + 1)
        } else {
            cond_expr(s, p + 1)
        } {
            (Err(x), q) => (Err(x), q),
            (Ok(e), q) => if !at_kind(s, q, TokenKind::Semi) {
                fail(s, q, ErrType::ExpectedSemi)
            } else if stars > 0 {
                (Ok(leaf(Kind::PtrDeclaration(id, t, Box::new(e)), line_at(s, q))), q)
            } else {
                (Ok(branch(Kind::Declaration(id, t, 0), line_at(s, q), seq![e])), q)
            },
        }
    }
}

/// `[count]` after a declared name. The check for `=` or `;` is made on the closing bracket
/// itself, so a well-formed size always ends in a missing-semicolon error there.
pub open spec fn parse_array_declaration(s: Src, p: int, t: CType, id: Seq<char>) -> (
    Result<Tree, RhErr>,
    int,
) {
    let p1 = adv(s, p);
    match tok(s, p1) {
        Some(Token::NumLiteral(_)) => {
            let p2 = adv(s, p1);
            if !at_kind(s, p2, TokenKind::CSquare) {
                fail(s, p2, ErrType::ExpectedCSquare)
            } else {
                fail(s, p2, ErrType::ExpectedSemi)
            }
        },
        _ => fail(s, p1, ErrType::ExpectedNumLiteral),
    }
}

/// The typed arguments of a function declaration from `q`, after those already read.
pub open spec fn fn_args(s: Src, q: int, args: Seq<Tree>) -> (Result<Seq<Tree>, RhErr>, int)
    decreases s.ts.len() - q,
{
    match tok(s, q) {
        Some(Token::Type(at)) => match tok(s, q + 1) {
            Some(Token::Id(aid)) => {
                let q2 = adv(s, q + 1);
                let args2 = args.push(leaf(Kind::Declaration(aid@, at, 0), line_at(s, q2)));
                if !at_kind(s, q2, TokenKind::Comma) {
                    (Ok(args2), q2)
                } else {
                    fn_args(s, q2 + 1, args2)
                }
            },
            _ => fail(s, q + 1, ErrType::ExpectedId),
        },
        _ => (Ok(args), q),
    }
}

/// `(type id, ..) { .. }` after a function's name: the arguments as declarations, then the
/// body.
pub open spec fn parse_function_declaration(s: Src, p: int, t: CType, id: Seq<char>) -> (
    Result<Tree, RhErr>,
    int,
)
    decreases s.ts.len() - p, 17nat,
{
    match fn_args(s, adv(s, p), seq![]) {
        (Err(x), q) => (Err(x), q),
        (Ok(args), q) => if !at_kind(s, q, TokenKind::CParen) {
            fail(s, q, ErrType::ExpectedCParen)
        } else {
            let q2 = adv(s, q + 1);
            if !(p < q2 <= s.ts.len()) {
                fail(s, q2, ErrType::ExpectedCParen)
            } else {
                match parse_scope_node(s, q2, ScopeType::Function(t)) {
                    (Err(x), q3) => (Err(x), q3),
                    (Ok(body), q3) => (
                        Ok(branch(Kind::FunctionDeclaration(id, t), line_at(s, q3), args.push(body))),
                        q3,
                    ),
                }
            }
        },
    }
}

/// `while (condition) { .. }` or `if (condition) { .. }`.
pub open spec fn parse_guarded(s: Src, p: int, k: Kind, st: ScopeType) -> (Result<Tree, RhErr>, int)
    decreases s.ts.len() - p, 17nat,
{
    match parse_condition(s, adv(s, p)) {
        (Err(x), q) => (Err(x), q),
        (Ok(c), q) => {
            let q2 = adv(s, adv(s, q));
            if !(p < q2 <= s.ts.len()) {
                fail(s, q2, ErrType::ExpectedOCurl)
            } else {
                match parse_scope_node(s, q2, st) {
                    (Err(x), q3) => (Err(x), q3),
                    (Ok(body), q3) => (Ok(branch(k, line_at(s, q3), seq![c, body])), q3),
                }
            }
        },
    }
}

pub open spec fn parse_while(s: Src, p: int) -> (Result<Tree, RhErr>, int)
    decreases s.ts.len() - p, 18nat,
{
    parse_guarded(s, p, Kind::While, ScopeType::While)
}

pub open spec fn parse_if(s: Src, p: int) -> (Result<Tree, RhErr>, int)
    decreases s.ts.len() - p, 18nat,
{
    parse_guarded(s, p, Kind::If, ScopeType::If)
}

/// A statement that starts with a name: a call, an indexed assignment or an assignment.
pub open spec fn parse_id_statement(s: Src, p: int, name: Seq<char>) -> (Result<Tree, RhErr>, int) {
    if kind_at(s, p + 1) == Some(TokenKind::OParen) {
        match parse_call(s, p, name) {
            (Err(x), q) => (Err(x), q),
            (Ok(c), q) => {
                let q1 = adv(s, q);
                if !at_kind(s, q1, TokenKind::Semi) {
                    fail(s, q1, ErrType::ExpectedSemi)
                } else {
                    (Ok(c), q1)
                }
            },
        }
    } else if kind_at(s, p + 1) == Some(TokenKind::OSquare) {
        parse_index_assignment(s, p, name)
    } else {
        parse_assignment(s, p, name)
    }
}

/// `[lside] rside` one token after `p`: an assignment to an array element.
pub open spec fn parse_index_assignment(s: Src, p: int, id: Seq<char>) -> (Result<Tree, RhErr>, int) {
    match parse_expr(s, adv(s, p)) {
        (Err(x), q) => (Err(x), q),
        (Ok(l), q) => if !at_kind(s, q, TokenKind::CSquare) {
            fail(s, q, ErrType::ExpectedCSquare)
        } else {
            match cond_expr(s, q + 1) {
                (Err(x), q2) => (Err(x), q2),
                (Ok(r), q2) => if !at_kind(s, q2, TokenKind::CSquare) {
                    fail(s, q2, ErrType::ExpectedSemi)
                } else {
                    (Ok(leaf(Kind::IndexArrayAssignment(id, Box::new(l), Box::new(r)), line_at(s, q2))), q2)
                },
            }
        },
    }
}

/// `name op expr;` (or `name++;`) from the name, or an indexed assignment.
pub open spec fn parse_assignment(s: Src, p: int, name: Seq<char>) -> (Result<Tree, RhErr>, int) {
    if kind_at(s, p + 1) == Some(TokenKind::OSquare) {
        parse_index_assignment(s, adv(s, p), name)
    } else {
        let p1 = adv(s, p);
        match op_at(s, p1) {
            None => fail(s, p1, ErrType::ExpectedAssignment),
            Some(o) => {
                let p2 = adv(s, p1);
                match if o == AssignmentOpType::AddO {
                    (Ok(leaf(Kind::NumLiteral(1), line_at(s, p2))), p2)
                } else {
                    parse_expr(s, p2)
                } {
                    (Err(x), q) => (Err(x), q),
                    (Ok(e), q) => if !at_kind(s, q, TokenKind::Semi) {
                        fail(s, q, ErrType::ExpectedSemi)
                    } else {
                        let op = if o == AssignmentOpType::AddO { AssignmentOpType::AddEq } else { o };
                        (Ok(branch(Kind::Assignment(op, name), line_at(s, q), seq![e])), q)
                    },
                }
            },
        }
    }
}

/// `*expr op expr;` from the star: the left side is read as an expression and dereferenced.
pub open spec fn parse_deref_assignment(s: Src, p: int) -> (Result<Tree, RhErr>, int) {
    match parse_expr(s, p) {
        (Err(x), q) => (Err(x), q),
        (Ok(e), q) => {
            let d = leaf(Kind::DeRef(Box::new(e)), line_at(s, q));
            match op_at(s, q) {
                None => fail(s, q, ErrType::ExpectedAssignment),
                Some(o) => match parse_expr(s, adv(s, q)) {
                    (Err(x), q2) => (Err(x), q2),
                    (Ok(r), q2) => if !at_kind(s, q2, TokenKind::Semi) {
                        fail(s, q2, ErrType::ExpectedSemi)
                    } else {
                        (Ok(branch(Kind::DerefAssignment(o, Box::new(d)), line_at(s, q2), seq![r])), q2)
                    },
                },
            }
        },
    }
}

/// `for (init; condition; step)`: the header only.
pub open spec fn parse_for(s: Src, p: int) -> (Result<Tree, RhErr>, int) {
    let p1 = adv(s, p);
    if !at_kind(s, p1, TokenKind::OParen) {
        fail(s, p1, ErrType::ExpectedOParen)
    } else {
        let p2 = p1 + 1;
        match match tok(s, p2) {
            Some(Token::Type(t)) => match tok(s, adv(s, p2)) {
                Some(Token::Id(id)) => (
                    Ok(seq![leaf(Kind::Declaration(id@, t, 0), line_at(s, adv(s, p2)))]),
                    adv(s, p2),
                ),
                _ => fail(s, adv(s, p2), ErrType::ExpectedId),
            },
            Some(Token::Semi) => (Ok(seq![]), p2),
            _ => fail(s, p2, ErrType::ExpectedSemi),
        } {
            (Err(x), q) => (Err(x), q),
            (Ok(init), q) => {
                let p4 = adv(s, q);
                match if !at_kind(s, p4, TokenKind::Semi) {
                    match cond_expr(s, p4) {
                        (Err(x), q1) => (Err(x), q1),
                        (Ok(c), q1) => (Ok(init.push(c)), q1),
                    }
                } else {
                    (Ok(init), p4)
                } {
                    (Err(x), p5) => (Err(x), p5),
                    (Ok(kids), p5) => match tok(s, p5) {
                        Some(Token::Semi) => (Ok(branch(Kind::For, line_at(s, p5), kids)), p5),
                        Some(Token::Id(id)) => match parse_assignment(s, p5, id@) {
                            (Err(x), q2) => (Err(x), q2),
                            (Ok(a), q2) => (Ok(branch(Kind::For, line_at(s, q2), kids.push(a))), q2),
                        },
                        _ => fail(s, p5, ErrType::ExpectedSemi),
                    },
                }
            },
        }
    }
}

/// `asm("..");`
pub open spec fn parse_asm(s: Src, p: int) -> (Result<Tree, RhErr>, int) {
    let p1 = adv(s, p);
    if !at_kind(s, p1, TokenKind::OParen) {
        fail(s, p1, ErrType::ExpectedOParen)
    } else {
        let p2 = p1 + 1;
        match tok(s, p2) {
            Some(Token::StrLiteral(text)) => {
                let p3 = adv(s, p2);
                if !at_kind(s, p3, TokenKind::CParen) {
                    fail(s, p3, ErrType::ExpectedCParen)
                } else if !at_kind(s, p3 + 1, TokenKind::Semi) {
                    fail(s, adv(s, p3), ErrType::ExpectedSemi)
                } else {
                    (Ok(leaf(Kind::Asm(text@), line_at(s, p3 + 1))), p3 + 1)
                }
            },
            _ => fail(s, p2, ErrType::ExpectedStrLiteral),
        }
    }
}

/// `assert(condition);` The bracket check is inverted: a closing bracket right after the
/// condition is reported as missing, and any other token there is stepped over.
pub open spec fn parse_assert(s: Src, p: int) -> (Result<Tree, RhErr>, int) {
    let p1 = adv(s, p);
    if !at_kind(s, p1, TokenKind::OParen) {
        fail(s, p1, ErrType::ExpectedOParen)
    } else {
        match cond_expr(s, p1 + 1) {
            (Err(x), q) => (Err(x), q),
            (Ok(c), q) => if at_kind(s, q, TokenKind::CParen) {
                fail(s, q, ErrType::ExpectedCParen)
            } else {
                let q1 = adv(s, q);
                if !at_kind(s, q1, TokenKind::Semi) {
                    fail(s, q1, ErrType::ExpectedSemi)
                } else {
                    (Ok(branch(Kind::Assert, line_at(s, q), seq![c])), q1)
                }
            },
        }
    }
}

/// `putchar(expr);`
pub open spec fn parse_putchar(s: Src, p: int) -> (Result<Tree, RhErr>, int) {
    let p1 = adv(s, p);
    if !at_kind(s, p1, TokenKind::OParen) {
        fail(s, p1, ErrType::ExpectedOParen)
    } else {
        match parse_expr(s, p1 + 1) {
            (Err(x), q) => (Err(x), q),
            (Ok(e), q) => if !at_kind(s, q, TokenKind::CParen) {
                fail(s, q, ErrType::ExpectedCParen)
            } else if !at_kind(s, q + 1, TokenKind::Semi) {
                fail(s, adv(s, q), ErrType::ExpectedSemi)
            } else {
                (Ok(branch(Kind::PutChar, line_at(s, q), seq![e])), q + 1)
            },
        }
    }
}

/// `return expr;`
pub open spec fn parse_return(s: Src, p: int) -> (Result<Tree, RhErr>, int) {
    match cond_expr(s, adv(s, p)) {
        (Err(x), q) => (Err(x), q),
        (Ok(e), q) => if !at_kind(s, q, TokenKind::Semi) {
            fail(s, q, ErrType::ExpectedSemi)
        } else {
            (Ok(branch(Kind::Return, line_at(s, q), seq![e])), q)
        },
    }
}

/// The values of a compound literal from `q`, after those already read.
pub open spec fn literal_items(s: Src, q: int, items: Seq<Tree>) -> (Result<Seq<Tree>, RhErr>, int)
    decreases s.ts.len() - q,
{
    match cond_expr(s, q) {
        (Err(x), q1) => (Err(x), q1),
        (Ok(e), q1) => if !at_kind(s, q1, TokenKind::Comma) || q1 < q {
            (Ok(items.push(e)), q1)
        } else {
            literal_items(s, q1 + 1, items.push(e))
        },
    }
}

/// `= { expr, .. }` from the `=`; ends on the closing curly bracket.
pub open spec fn parse_compound_literal(s: Src, p: int) -> (Result<Seq<Tree>, RhErr>, int) {
    let p1 = adv(s, p);
    if !at_kind(s, p1, TokenKind::OCurl) {
        fail(s, p1, ErrType::ExpectedOCurl)
    } else {
        match literal_items(s, p1 + 1, seq![]) {
            (Err(x), q) => (Err(x), q),
            (Ok(items), q) => if !at_kind(s, q, TokenKind::CCurl) {
                fail(s, q, ErrType::ExpectedCCurl)
            } else {
                (Ok(items), q)
            },
        }
    }
}

/// `struct id { .. };` or `struct id var ..;`
pub open spec fn parse_struct_statement(s: Src, p: int) -> (Result<Tree, RhErr>, int) {
    let p1 = adv(s, p);
    match tok(s, p1) {
        Some(Token::Id(sid)) => {
            let p2 = adv(s, p1);
            match tok(s, p2) {
                Some(Token::OCurl) => parse_struct_definition(s, p2, sid@),
                Some(Token::Id(vid)) => parse_struct_variable(s, p2, sid@, vid@),
                _ => fail(s, p2, ErrType::ExpectedId),
            }
        },
        _ => fail(s, p1, ErrType::ExpectedId),
    }
}

/// `= { .. };` or `;` after the name of a struct variable. A `;` right after the name is
/// stepped over before the closing `;` is looked for.
pub open spec fn parse_struct_variable(s: Src, p: int, sid: Seq<char>, vid: Seq<char>) -> (
    Result<Tree, RhErr>,
    int,
) {
    let p1 = adv(s, p);
    match if at_kind(s, p1, TokenKind::Eq) {
        parse_compound_literal(s, p1)
    } else if at_kind(s, p1, TokenKind::Semi) {
        (Ok(seq![]), p1)
    } else {
        fail(s, p1, ErrType::ExpectedSemi)
    } {
        (Err(x), q) => (Err(x), q),
        (Ok(exprs), q) => {
            let q1 = adv(s, q);
            if !at_kind(s, q1, TokenKind::Semi) {
                fail(s, q1, ErrType::ExpectedSemi)
            } else {
                (Ok(leaf(Kind::StructDeclaration(vid, sid, exprs), line_at(s, q1))), q1)
            }
        },
    }
}

/// The fields of a struct definition from `q`, after those already read; the list ends at
/// the first token that does not start a type.
pub open spec fn field_defs(s: Src, q: int, fs: Seq<(Seq<char>, usize, CType)>) -> (
    Result<Seq<(Seq<char>, usize, CType)>, RhErr>,
    int,
)
    decreases s.ts.len() - q,
{
    match parse_type_name(s, q) {
        (Err(_), q1) => (Ok(fs), q1),
        (Ok(t), q1) => {
            let (n, q3) = star_count(s, adv(s, q1), 0);
            match tok(s, q3) {
                Some(Token::Id(fid)) => {
                    let q4 = adv(s, q3);
                    if !at_kind(s, q4, TokenKind::Semi) {
                        fail(s, q4, ErrType::ExpectedSemi)
                    } else if q4 < q {
                        (Ok(fs), q4)
                    } else {
                        field_defs(s, q4 + 1, fs.push((fid@, n as usize, t)))
                    }
                },
                _ => fail(s, q3, ErrType::ExpectedId),
            }
        },
    }
}

/// `{ type [*..] field; .. };` from the opening curly bracket.
pub open spec fn parse_struct_definition(s: Src, p: int, sid: Seq<char>) -> (Result<Tree, RhErr>, int) {
    match field_defs(s, adv(s, p), seq![]) {
        (Err(x), q) => (Err(x), q),
        (Ok(fs), q) => if !at_kind(s, q, TokenKind::CCurl) {
            fail(s, q, ErrType::ExpectedCCurl)
        } else if !at_kind(s, q + 1, TokenKind::Semi) {
            fail(s, adv(s, q), ErrType::ExpectedSemi)
        } else {
            (Ok(leaf(Kind::StructDefinition(sid, fs), line_at(s, q + 1))), q + 1)
        },
    }
}

/// `var.field op expr;` from the field.
pub open spec fn parse_struct_field_assignment(s: Src, p: int, vid: Seq<char>, fid: Seq<char>) -> (
    Result<Tree, RhErr>,
    int,
) {
    let p1 = adv(s, p);
    match op_at(s, p1) {
        None => fail(s, p1, ErrType::ExpectedAssignment),
        Some(o) => match cond_expr(s, adv(s, p1)) {
            (Err(x), q) => (Err(x), q),
            (Ok(e), q) => if !at_kind(s, q, TokenKind::Semi) {
                fail(s, q, ErrType::ExpectedSemi)
            } else {
                (Ok(leaf(Kind::StructFieldAssignment(vid, fid, o, Box::new(e)), line_at(s, q))), q)
            },
        },
    }
}

/// Some statement of the list declares `main` (returning `int` or nothing).
pub open spec fn declares_main(kids: Seq<Tree>) -> bool {
    exists|i: int| 0 <= i < kids.len() && is_main_kind(#[trigger] kids[i].kind)
}

/// The declaration of `main`, returning `int` or nothing.
pub open spec fn is_main_kind(k: Kind) -> bool {
    k matches Kind::FunctionDeclaration(id, t) && (id == "main"@ && (t is Int || t is Void))
}

/// A whole program: its top-level statements, with an empty `int main` added when none
/// declares `main`.
pub open spec fn parse_program(s: Src) -> Result<Tree, RhErr> {
    match parse_scope(s, 0, ScopeType::Program, seq![]) {
        (Err(x), _) => Err(x),
        (Ok(kids), q) => {
            let all = if declares_main(kids) {
                kids
            } else {
                kids.push(leaf(Kind::FunctionDeclaration("main"@, CType::Int), line_at(s, q)))
            };
            Ok(branch(Kind::Program, 0, all))
        },
    }
}

/// A product or quotient of two factors, `x * y` or `x / y`, is a `Mul` or `Div` node whose
/// children are the tree of `x` and the tree of `y`, in source order, and it ends where `y`
/// ends.
pub proof fn lemma_term_operands_in_source_order(s: Src, p: int, l: Tree, q: int, r: Tree, q2: int)
    requires
        parse_factor(s, p) == (Ok::<Tree, RhErr>(l), q),
        within(s, p, q),
        at_kind(s, q, TokenKind::Star) || at_kind(s, q, TokenKind::Div),
        parse_factor(s, q + 1) == (Ok::<Tree, RhErr>(r), q2),
        within(s, q + 1, q2),
        !at_kind(s, q2, TokenKind::Star),
        !at_kind(s, q2, TokenKind::Div),
    ensures
        parse_term(s, p).1 == q2,
        parse_term(s, p).0 matches Ok(t) && t.kids == Some(seq![l, r]) && (at_kind(s, q, TokenKind::Star)
            ==> t.kind == Kind::Mul) && (at_kind(s, q, TokenKind::Div) ==> t.kind == Kind::Div),
{
    let k = if at_kind(s, q, TokenKind::Star) { Kind::Mul } else { Kind::Div };
    let l2 = branch(k, line_at(s, q2), seq![l, r]);
    assert(term_rest(s, l2, q2) == (Ok::<Tree, RhErr>(l2), q2));
    assert(term_rest(s, l, q) == (Ok::<Tree, RhErr>(l2), q2));
}

/// A sum or difference of two terms, `x + y` or `x - y`, is an `Add` or `Sub` node whose
/// children are the tree of `x` and the tree of `y`, in source order, and it ends where `y`
/// ends.
pub proof fn lemma_expr_operands_in_source_order(s: Src, p: int, l: Tree, q: int, r: Tree, q2: int)
    requires
        parse_term(s, p) == (Ok::<Tree, RhErr>(l), q),
        within(s, p, q),
        at_kind(s, q, TokenKind::Add) || at_kind(s, q, TokenKind::Sub),
        parse_term(s, q + 1) == (Ok::<Tree, RhErr>(r), q2),
        within(s, q + 1, q2),
        !at_kind(s, q2, TokenKind::Add),
        !at_kind(s, q2, TokenKind::Sub),
    ensures
        parse_expr(s, p).1 == q2,
        parse_expr(s, p).0 matches Ok(t) && t.kids == Some(seq![l, r]) && (at_kind(s, q, TokenKind::Add)
            ==> t.kind == Kind::Add) && (at_kind(s, q, TokenKind::Sub) ==> t.kind == Kind::Sub),
{
    let k = if at_kind(s, q, TokenKind::Add) { Kind::Add } else { Kind::Sub };
    let l2 = branch(k, line_at(s, q2), seq![l, r]);
    assert(expr_rest(s, l2, q2) == (Ok::<Tree, RhErr>(l2), q2));
    assert(expr_rest(s, l, q) == (Ok::<Tree, RhErr>(l2), q2));
}

} // verus!
