use vstd::prelude::*;
use crate::ast::{AssignmentOpType, NodeType, ScopeType, TokenNode};
use crate::error::{ErrType as ET, RhErr};
use crate::grammar::{
    adv, at_kind, call_args, cond_expr, cond_expr_rest, cond_factor, cond_operand, cond_term,
    cond_term_rest, expr_rest, field_defs, fields_view, fn_args, kind_at, kind_of, lemma_trees_of,
    lemma_trees_of_push, line_at, literal_items, parse_array_declaration, parse_assert,
    parse_assignment, parse_asm, parse_call, parse_compound_literal, parse_condition,
    parse_deref_assignment, parse_expr, parse_factor, parse_for, parse_function_declaration,
    parse_id_statement, parse_if, parse_index_assignment, parse_program,
    parse_putchar, parse_return, parse_scalar_declaration, parse_scope, parse_scope_node,
    parse_statement, parse_struct_definition, parse_struct_field_assignment,
    parse_struct_statement, parse_struct_variable, parse_term, parse_type_name,
    parse_type_statement, parse_while, res_all, res_view, spans_of, src, star_count, star_run,
    term_rest, tok, tree_of, trees_of, Kind, Src, Tree,
};
use crate::lexer::{line_table_wf, CType, LineNumHandler, Token, TokenKind};
use crate::token_handler::TokenHandler;

verus! {

/// The cursor is well-formed and at most one past the last token.
pub open spec fn ready(th: TokenHandler) -> bool {
    th.wf() && th.curr_token <= th.tokens@.len()
}

/// `after` is `before` moved forwards (or left in place) over the same tokens.
pub open spec fn stepped(before: TokenHandler, after: TokenHandler) -> bool {
    &&& ready(after)
    &&& after.tokens == before.tokens
    &&& after.token_lines == before.token_lines
    &&& after.curr_token >= before.curr_token
}

/// The cursor's position.
pub open spec fn pos(th: TokenHandler) -> int {
    th.curr_token as int
}

fn current(th: &TokenHandler) -> (t: Option<Token>)
    ensures
        t == tok(src(*th), pos(*th)),
{
    if th.curr_token < th.tokens.len() {
        Some(th.get_token().duplicate())
    } else {
        None
    }
}

fn at(th: &TokenHandler, k: TokenKind) -> (b: bool)
    ensures
        b == at_kind(src(*th), pos(*th), k),
{
    th.curr_token < th.tokens.len() && th.get_token().kind() == k
}

/// The kind of the token `i` places after the cursor, if there is one.
fn peek_kind(th: &TokenHandler, i: usize) -> (k: Option<TokenKind>)
    requires
        ready(*th),
    ensures
        k == kind_at(src(*th), pos(*th) + i),
{
    if i < th.tokens.len() - th.curr_token {
        Some(th.peek(i).kind())
    } else {
        None
    }
}

/// Moves to the next token; stays put past the last one.
fn advance(th: &mut TokenHandler)
    requires
        ready(*old(th)),
    ensures
        stepped(*old(th), *final(th)),
        pos(*final(th)) == adv(src(*old(th)), pos(*old(th))),
{
    if th.curr_token < th.tokens.len() {
        th.next_token();
    }
}

/// The line of the current token; the last line once past the last token.
fn line_now(th: &TokenHandler) -> (l: usize)
    requires
        ready(*th),
    ensures
        l == line_at(src(*th), pos(*th)),
        1 <= l <= th.token_lines@.len(),
{
    if th.curr_token < th.tokens.len() {
        th.line()
    } else {
        th.token_lines.len()
    }
}

/// A syntax error at the current line.
fn err(th: &TokenHandler, e: ET) -> (r: RhErr)
    requires
        ready(*th),
    ensures
        r == (RhErr { err: e, line: line_at(src(*th), pos(*th)) }),
        1 <= r.line <= th.token_lines@.len(),
{
    RhErr { err: e, line: line_now(th) }
}

/// A node without children.
fn leaf_node(token: NodeType, line: usize) -> (n: TokenNode)
    ensures
        n.token == token,
        n.children is None,
        tree_of(n) == (Tree { kind: kind_of(token), line, kids: None }),
{
    TokenNode::new(token, None, line)
}

/// A node with one child.
fn unary(token: NodeType, child: TokenNode, line: usize) -> (n: TokenNode)
    ensures
        n.token == token,
        n.children matches Some(c) && c@.len() == 1,
        tree_of(n) == (Tree { kind: kind_of(token), line, kids: Some(seq![tree_of(child)]) }),
{
    let mut children = Vec::new();
    children.push(child);
    proof {
        lemma_trees_of(children@);
        assert(trees_of(children@) =~= seq![tree_of(child)]);
    }
    TokenNode::new(token, Some(children), line)
}

/// A node with two children.
fn binary(token: NodeType, left: TokenNode, right: TokenNode, line: usize) -> (n: TokenNode)
    ensures
        n.token == token,
        n.children matches Some(c) && c@.len() == 2,
        tree_of(n) == (Tree { kind: kind_of(token), line, kids: Some(seq![tree_of(left), tree_of(right)]) }),
{
    let mut children = Vec::new();
    children.push(left);
    children.push(right);
    proof {
        lemma_trees_of(children@);
        assert(trees_of(children@) =~= seq![tree_of(left), tree_of(right)]);
    }
    TokenNode::new(token, Some(children), line)
}

/// A node with the given children.
fn with_children(token: NodeType, children: Vec<TokenNode>, line: usize) -> (n: TokenNode)
    ensures
        n.token == token,
        n.children == Some(children),
        tree_of(n) == (Tree { kind: kind_of(token), line, kids: Some(trees_of(children@)) }),
{
    TokenNode::new(token, Some(children), line)
}

/// The node is `main`'s declaration.
pub open spec fn is_main_decl(n: NodeType) -> bool {
    n matches NodeType::FunctionDeclaration(id, t) && id@ == "main"@ && (t is Int || t is Void)
}

fn is_main(n: &TokenNode) -> (b: bool)
    ensures
        b == is_main_decl(n.token),
{
    match &n.token {
        NodeType::FunctionDeclaration(id, t) => {
            let main = String::from_str("main");
            proof {
                reveal_strlit("main");
            }
            *id == main && (match t {
                CType::Int | CType::Void => true,
                _ => false,
            })
        },
        _ => false,
    }
}

/// Sums and differences of terms, left to right.
pub fn arithmetic_expression(token_handler: &mut TokenHandler) -> (r: Result<TokenNode, RhErr>)
    requires
        ready(*old(token_handler)),
    ensures
        stepped(*old(token_handler), *final(token_handler)),
        res_view(r) == parse_expr(src(*old(token_handler)), pos(*old(token_handler))).0,
        pos(*final(token_handler)) == parse_expr(src(*old(token_handler)), pos(*old(token_handler))).1,
        r is Ok ==> final(token_handler).curr_token > old(token_handler).curr_token,
        r matches Err(e) ==> 1 <= e.line <= old(token_handler).token_lines@.len(),
    decreases old(token_handler).tokens@.len() - old(token_handler).curr_token, 11nat,
{
    let ghost start = *token_handler;
    let ghost s = src(start);
    let mut left = arithmetic_term(token_handler)?;
    loop
        invariant
            start == *old(token_handler),
            s == src(start),
            stepped(start, *token_handler),
            token_handler.curr_token > start.curr_token,
            parse_expr(s, pos(start)) == expr_rest(s, tree_of(left), pos(*token_handler)),
        ensures
            parse_expr(s, pos(start)) == (Ok::<Tree, RhErr>(tree_of(left)), pos(*token_handler)),
        decreases token_handler.tokens@.len() - token_handler.curr_token,
    {
        let ghost q = pos(*token_handler);
        let is_add = at(token_handler, TokenKind::Add);
        let is_sub = at(token_handler, TokenKind::Sub);
        if !is_add && !is_sub {
            break;
        }
        advance(token_handler);
        let right = arithmetic_term(token_handler)?;
        let op = if is_add {
            NodeType::Add
        } else {
            NodeType::Sub
        };
        left = binary(op, left, right, line_now(token_handler));
    }
    Ok(left)
}

/// Products and quotients of factors, left to right.
pub fn arithmetic_term(token_handler: &mut TokenHandler) -> (r: Result<TokenNode, RhErr>)
    requires
        ready(*old(token_handler)),
    ensures
        stepped(*old(token_handler), *final(token_handler)),
        res_view(r) == parse_term(src(*old(token_handler)), pos(*old(token_handler))).0,
        pos(*final(token_handler)) == parse_term(src(*old(token_handler)), pos(*old(token_handler))).1,
        r is Ok ==> final(token_handler).curr_token > old(token_handler).curr_token,
        r matches Err(e) ==> 1 <= e.line <= old(token_handler).token_lines@.len(),
    decreases old(token_handler).tokens@.len() - old(token_handler).curr_token, 10nat,
{
    let ghost start = *token_handler;
    let ghost s = src(start);
    let mut left = arithmetic_factor(token_handler)?;
    loop
        invariant
            start == *old(token_handler),
            s == src(start),
            stepped(start, *token_handler),
            token_handler.curr_token > start.curr_token,
            parse_term(s, pos(start)) == term_rest(s, tree_of(left), pos(*token_handler)),
        ensures
            parse_term(s, pos(start)) == (Ok::<Tree, RhErr>(tree_of(left)), pos(*token_handler)),
        decreases token_handler.tokens@.len() - token_handler.curr_token,
    {
        let is_mul = at(token_handler, TokenKind::Star);
        let is_div = at(token_handler, TokenKind::Div);
        if !is_mul && !is_div {
            break;
        }
        advance(token_handler);
        let right = arithmetic_factor(token_handler)?;
        let op = if is_mul {
            NodeType::Mul
        } else {
            NodeType::Div
        };
        left = binary(op, left, right, line_now(token_handler));
    }
    Ok(left)
}

/// A literal, a variable, a call, an indexing, an address, a dereference or a bracketed
/// expression. Ends on the token after the factor.
pub fn arithmetic_factor(token_handler: &mut TokenHandler) -> (r: Result<TokenNode, RhErr>)
    requires
        ready(*old(token_handler)),
    ensures
        stepped(*old(token_handler), *final(token_handler)),
        res_view(r) == parse_factor(src(*old(token_handler)), pos(*old(token_handler))).0,
        pos(*final(token_handler)) == parse_factor(src(*old(token_handler)), pos(*old(token_handler))).1,
        r is Ok ==> final(token_handler).curr_token > old(token_handler).curr_token,
        r matches Err(e) ==> 1 <= e.line <= old(token_handler).token_lines@.len(),
    decreases old(token_handler).tokens@.len() - old(token_handler).curr_token, 9nat,
{
    let ghost start = *token_handler;
    let ghost s = src(start);
    let ghost p = pos(start);
    let token = current(token_handler);
    let ret: Result<TokenNode, RhErr> = match token {
        Some(Token::NumLiteral(num)) => Ok(
            leaf_node(NodeType::NumLiteral(num), line_now(token_handler)),
        ),
        Some(Token::StructFieldId { struct_id, field_id }) => Ok(
            leaf_node(NodeType::StructFieldId { var_id: struct_id, field_id }, line_now(token_handler)),
        ),
        Some(Token::Id(id)) => {
            let next = peek_kind(token_handler, 1);
            if next == Some(TokenKind::OParen) {
                match function_call(token_handler, id) {
                    Ok(n) => Ok(n),
                    Err(e) => Err(e),
                }
            } else if next == Some(TokenKind::OSquare) {
                advance(token_handler);
                let expr = Box::new(arithmetic_expression(token_handler)?);
                advance(token_handler);
                if !at(token_handler, TokenKind::CSquare) {
                    return Err(err(token_handler, ET::ExpectedCSquare));
                }
                Ok(leaf_node(NodeType::IndexArray { id, expr }, line_now(token_handler)))
            } else {
                Ok(leaf_node(NodeType::Id(id), line_now(token_handler)))
            }
        },
        // Address of a variable
        Some(Token::BAnd) => {
            advance(token_handler);
            match current(token_handler) {
                Some(Token::Id(id)) => Ok(leaf_node(NodeType::Adr(id), line_now(token_handler))),
                _ => Err(err(token_handler, ET::ExpectedId)),
            }
        },
        Some(Token::Star) => {
            advance(token_handler);
            let factor = arithmetic_factor(token_handler)?;
            token_handler.prev_token();
            Ok(leaf_node(NodeType::DeRef(Box::new(factor)), line_now(token_handler)))
        },
        Some(Token::OParen) => {
            advance(token_handler);
            match arithmetic_expression(token_handler) {
                Ok(node) => {
                    if !at(token_handler, TokenKind::CParen) {
                        Err(err(token_handler, ET::ExpectedCParen))
                    } else {
                        Ok(node)
                    }
                },
                Err(e) => Err(e),
            }
        },
        _ => Err(err(token_handler, ET::ExpectedExpression)),
    };
    proof {
        assert(parse_factor(s, p) == crate::grammar::factor_end(s, res_view(ret), pos(*token_handler)));
    }
    if ret.is_ok() && token_handler.curr_token >= token_handler.len() {
        // the factor ran past the last token: nothing follows it
        return Err(err(token_handler, ET::ExpectedExpression));
    }
    advance(token_handler);
    return ret;
}

/// `name(arg, ..)` from the name; ends on the closing bracket.
fn function_call(token_handler: &mut TokenHandler, name: String) -> (r: Result<TokenNode, RhErr>)
    requires
        ready(*old(token_handler)),
    ensures
        stepped(*old(token_handler), *final(token_handler)),
        res_view(r) == parse_call(src(*old(token_handler)), pos(*old(token_handler)), name@).0,
        pos(*final(token_handler)) == parse_call(src(*old(token_handler)), pos(*old(token_handler)), name@).1,
        r is Ok ==> final(token_handler).curr_token > old(token_handler).curr_token
            && at_kind(src(*final(token_handler)), pos(*final(token_handler)), TokenKind::CParen),
        r matches Err(e) ==> 1 <= e.line <= old(token_handler).token_lines@.len(),
    decreases old(token_handler).tokens@.len() - old(token_handler).curr_token, 8nat,
{
    let ghost start = *token_handler;
    let ghost s = src(start);
    advance(token_handler);
    if !at(token_handler, TokenKind::OParen) {
        return Err(err(token_handler, ET::ExpectedOParen));
    }
    advance(token_handler);
    let mut args: Vec<TokenNode> = Vec::new();
    let ghost first = pos(*token_handler);
    loop
        invariant_except_break
            call_args(s, first, seq![]) == call_args(s, pos(*token_handler), trees_of(args@)),
        invariant
            start == *old(token_handler),
            s == src(start),
            stepped(start, *token_handler),
            token_handler.curr_token > start.curr_token,
            first == adv(s, pos(start)) + 1,
            at_kind(s, adv(s, pos(start)), TokenKind::OParen),
        ensures
            call_args(s, first, seq![]) == (Ok::<Seq<Tree>, RhErr>(trees_of(args@)), pos(*token_handler)),
        decreases token_handler.tokens@.len() - token_handler.curr_token,
    {
        if at(token_handler, TokenKind::CParen) {
            break;
        }
        let ghost before = args@;
        let arg_node = arithmetic_expression(token_handler)?;
        args.push(arg_node);
        proof {
            lemma_trees_of_push(before, arg_node);
        }
        if !at(token_handler, TokenKind::Comma) {
            break;
        }
        advance(token_handler);
    }
    if !at(token_handler, TokenKind::CParen) {
        return Err(err(token_handler, ET::ExpectedCParen));
    }
    Ok(with_children(NodeType::FunctionCall(name), args, line_now(token_handler)))
}

/// `(condition)`: ends on the closing bracket.
fn condition(token_handler: &mut TokenHandler) -> (r: Result<TokenNode, RhErr>)
    requires
        ready(*old(token_handler)),
    ensures
        stepped(*old(token_handler), *final(token_handler)),
        res_view(r) == parse_condition(src(*old(token_handler)), pos(*old(token_handler))).0,
        pos(*final(token_handler)) == parse_condition(src(*old(token_handler)), pos(*old(token_handler))).1,
        r is Ok ==> at_kind(src(*final(token_handler)), pos(*final(token_handler)), TokenKind::CParen),
        r matches Err(e) ==> 1 <= e.line <= old(token_handler).token_lines@.len(),
    decreases old(token_handler).tokens@.len() - old(token_handler).curr_token, 15nat,
{
    if at(token_handler, TokenKind::OParen) {
        advance(token_handler);
        let condition = condition_expr(token_handler);
        if at(token_handler, TokenKind::CParen) {
            condition
        } else {
            Err(err(token_handler, ET::ExpectedCParen))
        }
    } else {
        Err(err(token_handler, ET::ExpectedOParen))
    }
}

/// Conditions joined by `&&` and `||`, left to right.
/// Expression parsing always ends on the token after the expression, usually a semicolon
fn condition_expr(token_handler: &mut TokenHandler) -> (r: Result<TokenNode, RhErr>)
    requires
        ready(*old(token_handler)),
    ensures
        stepped(*old(token_handler), *final(token_handler)),
        res_view(r) == cond_expr(src(*old(token_handler)), pos(*old(token_handler))).0,
        pos(*final(token_handler)) == cond_expr(src(*old(token_handler)), pos(*old(token_handler))).1,
        r is Ok ==> final(token_handler).curr_token > old(token_handler).curr_token,
        r matches Err(e) ==> 1 <= e.line <= old(token_handler).token_lines@.len(),
    decreases old(token_handler).tokens@.len() - old(token_handler).curr_token, 14nat,
{
    let ghost start = *token_handler;
    let ghost s = src(start);
    let mut left = condition_term(token_handler)?;
    loop
        invariant
            start == *old(token_handler),
            s == src(start),
            stepped(start, *token_handler),
            token_handler.curr_token > start.curr_token,
            cond_expr(s, pos(start)) == cond_expr_rest(s, tree_of(left), pos(*token_handler)),
        ensures
            cond_expr(s, pos(start)) == (Ok::<Tree, RhErr>(tree_of(left)), pos(*token_handler)),
        decreases token_handler.tokens@.len() - token_handler.curr_token,
    {
        let ghost q = pos(*token_handler);
        let is_and = at(token_handler, TokenKind::AndCmp);
        let is_or = at(token_handler, TokenKind::OrCmp);
        if !is_and && !is_or {
            break;
        }
        advance(token_handler);
        let right = if at(token_handler, TokenKind::OParen) {
            advance(token_handler);
            let expr_r = condition_expr(token_handler);
            proof {
                if expr_r is Err {
                    assert(cond_operand(s, q + 1) == (res_view(expr_r), pos(*token_handler)));
                }
            }
            let expr = expr_r?;
            if !at(token_handler, TokenKind::CParen) {
                let e = err(token_handler, ET::ExpectedCParen);
                proof {
                    assert(cond_operand(s, q + 1) == (Err::<Tree, RhErr>(e), pos(*token_handler)));
                }
                return Err(e);
            }
            advance(token_handler);
            expr
        } else {
            let term_r = condition_term(token_handler);
            proof {
                if term_r is Err {
                    assert(cond_operand(s, q + 1) == (res_view(term_r), pos(*token_handler)));
                }
            }
            term_r?
        };
        proof {
            assert(cond_operand(s, q + 1) == (Ok::<Tree, RhErr>(tree_of(right)), pos(*token_handler)));
        }
        let op = if is_and {
            NodeType::AndCmp
        } else {
            NodeType::OrCmp
        };
        left = binary(op, left, right, line_now(token_handler));
    }
    Ok(left)
}

/// Comparisons with `==` and `!=`, left to right.
fn condition_term(token_handler: &mut TokenHandler) -> (r: Result<TokenNode, RhErr>)
    requires
        ready(*old(token_handler)),
    ensures
        stepped(*old(token_handler), *final(token_handler)),
        res_view(r) == cond_term(src(*old(token_handler)), pos(*old(token_handler))).0,
        pos(*final(token_handler)) == cond_term(src(*old(token_handler)), pos(*old(token_handler))).1,
        r is Ok ==> final(token_handler).curr_token > old(token_handler).curr_token,
        r matches Err(e) ==> 1 <= e.line <= old(token_handler).token_lines@.len(),
    decreases old(token_handler).tokens@.len() - old(token_handler).curr_token, 13nat,
{
    let ghost start = *token_handler;
    let ghost s = src(start);
    let mut left = arithmetic_expression(token_handler)?;
    loop
        invariant
            start == *old(token_handler),
            s == src(start),
            stepped(start, *token_handler),
            token_handler.curr_token > start.curr_token,
            cond_term(s, pos(start)) == cond_term_rest(s, tree_of(left), pos(*token_handler)),
        ensures
            cond_term(s, pos(start)) == (Ok::<Tree, RhErr>(tree_of(left)), pos(*token_handler)),
        decreases token_handler.tokens@.len() - token_handler.curr_token,
    {
        let is_neq = at(token_handler, TokenKind::NeqCmp);
        let is_eq = at(token_handler, TokenKind::EqCmp);
        if !is_neq && !is_eq {
            break;
        }
        advance(token_handler);
        let right = condition_factor(token_handler)?;
        let op = if is_eq {
            NodeType::EqCmp
        } else {
            NodeType::NeqCmp
        };
        left = binary(op, left, right, line_now(token_handler));
    }
    Ok(left)
}

/// A bracketed condition or an arithmetic expression.
fn condition_factor(token_handler: &mut TokenHandler) -> (r: Result<TokenNode, RhErr>)
    requires
        ready(*old(token_handler)),
    ensures
        stepped(*old(token_handler), *final(token_handler)),
        res_view(r) == cond_factor(src(*old(token_handler)), pos(*old(token_handler))).0,
        pos(*final(token_handler)) == cond_factor(src(*old(token_handler)), pos(*old(token_handler))).1,
        r is Ok ==> final(token_handler).curr_token > old(token_handler).curr_token,
        r matches Err(e) ==> 1 <= e.line <= old(token_handler).token_lines@.len(),
    decreases old(token_handler).tokens@.len() - old(token_handler).curr_token, 12nat,
{
    if at(token_handler, TokenKind::OParen) {
        advance(token_handler);
        let expr = condition_expr(token_handler);
        if !at(token_handler, TokenKind::CParen) {
            return Err(err(token_handler, ET::ExpectedCParen));
        }
        expr
    } else {
        arithmetic_expression(token_handler)
    }
}

/// Parses a whole program. A program without `main` gets an empty `int main`.
pub fn program(tokens: Vec<Token>, line_tracker: LineNumHandler, _debug: bool) -> (r: Result<
    TokenNode,
    RhErr,
>)
    requires
        line_table_wf(line_tracker.token_lines@, tokens@.len()),
        tokens@.len() >= 1,
    ensures
        res_view(r) == parse_program(
            Src { ts: tokens@, ls: spans_of(line_tracker.token_lines@, tokens@.len()) },
        ),
        r matches Ok(n) ==> (n.token is Program && n.line == 0 && (n.children matches Some(c)
            && exists|i: int| 0 <= i < c@.len() && is_main_decl(#[trigger] c@[i].token))),
        r matches Err(e) ==> 1 <= e.line <= line_tracker.token_lines@.len(),
{
    let mut token_handler = TokenHandler::new(tokens, line_tracker);
    let ghost s = src(token_handler);
    proof {
        assert(s == Src { ts: tokens@, ls: spans_of(line_tracker.token_lines@, tokens@.len()) }) by {
            assert(token_handler.token_lines@ =~= spans_of(line_tracker.token_lines@, tokens@.len()));
        }
    }
    let mut top_scope = scope(&mut token_handler, &ScopeType::Program)?;
    let ghost kids = trees_of(top_scope@);
    proof {
        lemma_trees_of(top_scope@);
    }
    let mut found = false;
    let mut i: usize = 0;
    while i < top_scope.len()
        invariant
            i <= top_scope@.len(),
            kids == trees_of(top_scope@),
            kids.len() == top_scope@.len(),
            forall|k: int| 0 <= k < kids.len() ==> #[trigger] kids[k] == tree_of(top_scope@[k]),
            found <==> exists|k: int| 0 <= k < i && is_main_decl(#[trigger] top_scope@[k].token),
        decreases top_scope.len() - i,
    {
        if is_main(&top_scope[i]) {
            found = true;
        }
        i = i + 1;
    }
    proof {
        assert(found <==> crate::grammar::declares_main(kids)) by {
            if found {
                let k = choose|k: int| 0 <= k < i && is_main_decl(#[trigger] top_scope@[k].token);
                assert(crate::grammar::is_main_kind(kids[k].kind));
            }
            if crate::grammar::declares_main(kids) {
                let k = choose|k: int| 0 <= k < kids.len() && crate::grammar::is_main_kind(#[trigger] kids[k].kind);
                assert(is_main_decl(top_scope@[k].token));
            }
        }
    }
    if !found {
        let main_node = leaf_node(
            NodeType::FunctionDeclaration(String::from_str("main"), CType::Int),
            line_now(&token_handler),
        );
        proof {
            reveal_strlit("main");
            lemma_trees_of_push(top_scope@, main_node);
        }
        top_scope.push(main_node);
        proof {
            assert(is_main_decl(top_scope@[top_scope@.len() - 1].token));
        }
    }
    let ghost k = choose|k: int| 0 <= k < top_scope@.len() && is_main_decl(#[trigger] top_scope@[k].token);
    let ghost main_decl = top_scope@[k];
    let program_node = with_children(NodeType::Program, top_scope, 0);
    proof {
        let c = program_node.children.unwrap();
        assert(c@[k] == main_decl);
        assert(is_main_decl(c@[k].token));
    }
    Ok(program_node)
}

/// Parses statements up to the closing curly bracket of the block (or the last token).
pub fn scope(token_handler: &mut TokenHandler, scope_type: &ScopeType) -> (r: Result<
    Vec<TokenNode>,
    RhErr,
>)
    requires
        ready(*old(token_handler)),
    ensures
        stepped(*old(token_handler), *final(token_handler)),
        res_all(r) == parse_scope(src(*old(token_handler)), pos(*old(token_handler)), *scope_type, seq![]).0,
        pos(*final(token_handler)) == parse_scope(src(*old(token_handler)), pos(*old(token_handler)), *scope_type, seq![]).1,
        r is Ok ==> final(token_handler).curr_token < final(token_handler).tokens@.len(),
        r matches Err(e) ==> 1 <= e.line <= old(token_handler).token_lines@.len(),
    decreases old(token_handler).tokens@.len() - old(token_handler).curr_token, 20nat,
{
    let mut scope_children: Vec<TokenNode> = Vec::new();
    let ghost start = *token_handler;
    let ghost s = src(start);
    loop
        invariant
            start == *old(token_handler),
            s == src(start),
            stepped(start, *token_handler),
            start.curr_token <= token_handler.curr_token,
            parse_scope(s, pos(start), *scope_type, seq![]) == parse_scope(
                s,
                pos(*token_handler),
                *scope_type,
                trees_of(scope_children@),
            ),
        decreases token_handler.tokens@.len() - token_handler.curr_token,
    {
        if token_handler.curr_token >= token_handler.len() {
            return Err(err(token_handler, ET::ExpectedCCurl));
        }
        if at(token_handler, TokenKind::CCurl) {
            return Ok(scope_children);
        }
        let ghost before = scope_children@;
        let s_node = statement(token_handler, scope_type)?;
        scope_children.push(s_node);
        proof {
            lemma_trees_of_push(before, s_node);
        }
        if token_handler.len() - token_handler.curr_token == 1 {
            return Ok(scope_children);
        }
        if token_handler.curr_token >= token_handler.len() {
            return Err(err(token_handler, ET::ExpectedCCurl));
        }
        advance(token_handler);
    }
}

fn scope_node(token_handler: &mut TokenHandler, scope_type: &ScopeType) -> (r: Result<TokenNode, RhErr>)
    requires
        ready(*old(token_handler)),
    ensures
        stepped(*old(token_handler), *final(token_handler)),
        res_view(r) == parse_scope_node(src(*old(token_handler)), pos(*old(token_handler)), *scope_type).0,
        pos(*final(token_handler)) == parse_scope_node(src(*old(token_handler)), pos(*old(token_handler)), *scope_type).1,
        r is Ok ==> final(token_handler).curr_token < final(token_handler).tokens@.len(),
        r matches Err(e) ==> 1 <= e.line <= old(token_handler).token_lines@.len(),
    decreases old(token_handler).tokens@.len() - old(token_handler).curr_token, 21nat,
{
    let children = scope(token_handler, scope_type)?;
    Ok(with_children(NodeType::Scope(None), children, line_now(token_handler)))
}

/// Parses one statement, dispatching on its first token.
pub fn statement(token_handler: &mut TokenHandler, scope_type: &ScopeType) -> (r: Result<
    TokenNode,
    RhErr,
>)
    requires
        ready(*old(token_handler)),
        old(token_handler).curr_token < old(token_handler).tokens@.len(),
    ensures
        stepped(*old(token_handler), *final(token_handler)),
        res_view(r) == parse_statement(src(*old(token_handler)), pos(*old(token_handler)), *scope_type).0,
        pos(*final(token_handler)) == parse_statement(src(*old(token_handler)), pos(*old(token_handler)), *scope_type).1,
        r matches Err(e) ==> 1 <= e.line <= old(token_handler).token_lines@.len(),
    decreases old(token_handler).tokens@.len() - old(token_handler).curr_token, 19nat,
{
    let tok = current(token_handler).unwrap();
    match tok {
        Token::Type(t) => type_statement(token_handler, t),
        Token::Id(name) => id_statement(token_handler, name),
        Token::Star => deref_assignment(token_handler),
        Token::If => if_statement(token_handler),
        Token::While => while_statement(token_handler),
        Token::For => for_statement(token_handler),
        Token::Break => {
            if scope_type.allows_break() {
                Ok(leaf_node(NodeType::Break, line_now(token_handler)))
            } else {
                Err(err(token_handler, ET::ExpectedStatement))
            }
        },
        Token::Asm => asm_statement(token_handler),
        Token::Assert => assert_statement(token_handler),
        Token::Return => return_statement(token_handler),
        Token::PutChar => putchar_statement(token_handler),
        Token::Struct => struct_statement(token_handler),
        Token::StructFieldId { struct_id, field_id } => struct_field_assignment(
            token_handler,
            struct_id,
            field_id,
        ),
        _ => Err(err(token_handler, ET::ExpectedStatement)),
    }
}

/// A statement that starts with a type: a function, an array or a scalar declaration.
fn type_statement(token_handler: &mut TokenHandler, t: CType) -> (r: Result<TokenNode, RhErr>)
    requires
        ready(*old(token_handler)),
        old(token_handler).curr_token < old(token_handler).tokens@.len(),
    ensures
        stepped(*old(token_handler), *final(token_handler)),
        res_view(r) == parse_type_statement(src(*old(token_handler)), pos(*old(token_handler)), t).0,
        pos(*final(token_handler)) == parse_type_statement(src(*old(token_handler)), pos(*old(token_handler)), t).1,
        r matches Err(e) ==> 1 <= e.line <= old(token_handler).token_lines@.len(),
    decreases old(token_handler).tokens@.len() - old(token_handler).curr_token, 18nat,
{
    let ghost start = *token_handler;
    let ghost s = src(start);
    advance(token_handler);
    let mut ptr_cnt: u8 = 0;
    let ghost first = pos(*token_handler);
    while at(token_handler, TokenKind::Star)
        invariant
            start == *old(token_handler),
            s == src(start),
            stepped(start, *token_handler),
            token_handler.curr_token > start.curr_token,
            first == adv(s, pos(start)),
            star_run(s, first, 0) == star_run(s, pos(*token_handler), ptr_cnt),
        decreases token_handler.tokens@.len() - token_handler.curr_token,
    {
        if ptr_cnt == u8::MAX {
            return Err(err(token_handler, ET::ExpectedId));
        }
        ptr_cnt = ptr_cnt + 1;
        advance(token_handler);
    }
    let id = match current(token_handler) {
        Some(Token::Id(id)) => id,
        _ => return Err(err(token_handler, ET::ExpectedId)),
    };
    advance(token_handler);
    if at(token_handler, TokenKind::OParen) {
        function_declare_statement(token_handler, t, id)
    } else if at(token_handler, TokenKind::OSquare) {
        array_declare_statement(token_handler, t, id)
    } else {
        scalar_declaration_statement(token_handler, t, id, ptr_cnt)
    }
}

/// `= expr;` after a declared name; pointers take an arithmetic expression.
pub fn scalar_declaration_statement(
    token_handler: &mut TokenHandler,
    t: CType,
    id: String,
    ptr_cnt: u8,
) -> (r: Result<TokenNode, RhErr>)
    requires
        ready(*old(token_handler)),
    ensures
        stepped(*old(token_handler), *final(token_handler)),
        res_view(r) == parse_scalar_declaration(src(*old(token_handler)), pos(*old(token_handler)), t, id@, ptr_cnt).0,
        pos(*final(token_handler)) == parse_scalar_declaration(src(*old(token_handler)), pos(*old(token_handler)), t, id@, ptr_cnt).1,
        r matches Err(e) ==> 1 <= e.line <= old(token_handler).token_lines@.len(),
{
    if !at(token_handler, TokenKind::Eq) {
        return Err(err(token_handler, ET::ExpectedEq));
    }
    advance(token_handler);
    let expr = if ptr_cnt > 0 {
        arithmetic_expression(token_handler)?
    } else {
        condition_expr(token_handler)?
    };
    if !at(token_handler, TokenKind::Semi) {
        return Err(err(token_handler, ET::ExpectedSemi));
    }
    let line = line_now(token_handler);
    if ptr_cnt > 0 {
        Ok(leaf_node(NodeType::PtrDeclaration(id, t, Box::new(expr)), line))
    } else {
        Ok(unary(NodeType::Declaration(id, t, 0), expr, line))
    }
}

/// `[count]` after a declared name. The check for `=` or `;` that follows is made on the
/// closing bracket itself, so a well-formed size always ends in a missing-semicolon error
/// there.
pub fn array_declare_statement(token_handler: &mut TokenHandler, t: CType, id: String) -> (r:
    Result<TokenNode, RhErr>)
    requires
        ready(*old(token_handler)),
    ensures
        stepped(*old(token_handler), *final(token_handler)),
        res_view(r) == parse_array_declaration(src(*old(token_handler)), pos(*old(token_handler)), t, id@).0,
        pos(*final(token_handler)) == parse_array_declaration(src(*old(token_handler)), pos(*old(token_handler)), t, id@).1,
        r matches Err(e) ==> 1 <= e.line <= old(token_handler).token_lines@.len(),
{
    advance(token_handler);  // Already checked open square bracket
    match current(token_handler) {
        Some(Token::NumLiteral(_)) => {},
        _ => return Err(err(token_handler, ET::ExpectedNumLiteral)),
    }
    advance(token_handler);
    if !at(token_handler, TokenKind::CSquare) {
        return Err(err(token_handler, ET::ExpectedCSquare));
    }
    Err(err(token_handler, ET::ExpectedSemi))
}

/// `(type id, ..) { .. }` from the opening bracket: the arguments are declarations,
/// followed by the body.
/// The typed arguments of a function declaration, each as a declaration.
fn function_arguments(token_handler: &mut TokenHandler) -> (r: Result<Vec<TokenNode>, RhErr>)
    requires
        ready(*old(token_handler)),
    ensures
        stepped(*old(token_handler), *final(token_handler)),
        res_all(r) == fn_args(src(*old(token_handler)), pos(*old(token_handler)), seq![]).0,
        pos(*final(token_handler)) == fn_args(src(*old(token_handler)), pos(*old(token_handler)), seq![]).1,
        r matches Err(e) ==> 1 <= e.line <= old(token_handler).token_lines@.len(),
{
    let ghost start = *token_handler;
    let ghost s = src(start);
    let mut args: Vec<TokenNode> = Vec::new();
    loop
        invariant_except_break
            fn_args(s, pos(start), seq![]) == fn_args(s, pos(*token_handler), trees_of(args@)),
        invariant
            start == *old(token_handler),
            s == src(start),
            stepped(start, *token_handler),
        ensures
            fn_args(s, pos(start), seq![]) == (Ok::<Seq<Tree>, RhErr>(trees_of(args@)), pos(*token_handler)),
        decreases token_handler.tokens@.len() - token_handler.curr_token,
    {
        let arg_t = match current(token_handler) {
            Some(Token::Type(t)) => t,
            _ => break,
        };
        advance(token_handler);
        let arg_id = match current(token_handler) {
            Some(Token::Id(id)) => id,
            _ => return Err(err(token_handler, ET::ExpectedId)),
        };
        advance(token_handler);
        let arg_node = leaf_node(NodeType::Declaration(arg_id, arg_t, 0), line_now(token_handler));
        let ghost before = args@;
        args.push(arg_node);
        proof {
            lemma_trees_of_push(before, arg_node);
        }
        if !at(token_handler, TokenKind::Comma) {
            break;
        }
        advance(token_handler);
    }
    Ok(args)
}

/// `(type id, ..) { .. }` from the opening bracket: the arguments are declarations,
/// followed by the body.
pub fn function_declare_statement(token_handler: &mut TokenHandler, t: CType, id: String) -> (r:
    Result<TokenNode, RhErr>)
    requires
        ready(*old(token_handler)),
        old(token_handler).curr_token < old(token_handler).tokens@.len(),
    ensures
        stepped(*old(token_handler), *final(token_handler)),
        res_view(r) == parse_function_declaration(src(*old(token_handler)), pos(*old(token_handler)), t, id@).0,
        pos(*final(token_handler)) == parse_function_declaration(src(*old(token_handler)), pos(*old(token_handler)), t, id@).1,
        r matches Err(e) ==> 1 <= e.line <= old(token_handler).token_lines@.len(),
    decreases old(token_handler).tokens@.len() - old(token_handler).curr_token, 17nat,
{
    let ghost s = src(*token_handler);
    let ghost p = pos(*token_handler);
    advance(token_handler);
    let mut args_scope = function_arguments(token_handler)?;
    let ghost q = pos(*token_handler);
    if !at(token_handler, TokenKind::CParen) {
        return Err(err(token_handler, ET::ExpectedCParen));
    }
    advance(token_handler);
    advance(token_handler);
    let ghost q2 = pos(*token_handler);
    assert(q2 == adv(s, q + 1) && p < q2 <= s.ts.len());
    let st = ScopeType::Function(t.duplicate());
    let body_r = scope_node(token_handler, &st);
    let ghost q3 = pos(*token_handler);
    assert(parse_function_declaration(s, p, t, id@) == match parse_scope_node(s, q2, st) {
        (Err(x), q3) => (Err(x), q3),
        (Ok(body), q3) => (
            Ok(crate::grammar::branch(Kind::FunctionDeclaration(id@, t), line_at(s, q3), trees_of(args_scope@).push(body))),
            q3,
        ),
    });
    let body = body_r?;
    let ghost before = args_scope@;
    args_scope.push(body);
    proof {
        lemma_trees_of_push(before, body);
    }
    Ok(with_children(NodeType::FunctionDeclaration(id, t), args_scope, line_now(token_handler)))
}

/// `while (condition) { .. }`
pub fn while_statement(token_handler: &mut TokenHandler) -> (r: Result<TokenNode, RhErr>)
    requires
        ready(*old(token_handler)),
        old(token_handler).curr_token < old(token_handler).tokens@.len(),
    ensures
        stepped(*old(token_handler), *final(token_handler)),
        res_view(r) == parse_while(src(*old(token_handler)), pos(*old(token_handler))).0,
        pos(*final(token_handler)) == parse_while(src(*old(token_handler)), pos(*old(token_handler))).1,
        r matches Err(e) ==> 1 <= e.line <= old(token_handler).token_lines@.len(),
    decreases old(token_handler).tokens@.len() - old(token_handler).curr_token, 18nat,
{
    advance(token_handler);
    let condition_node = condition(token_handler)?;
    advance(token_handler);
    advance(token_handler);
    let scope_node = scope_node(token_handler, &ScopeType::While)?;
    Ok(binary(NodeType::While, condition_node, scope_node, line_now(token_handler)))
}

/// `if (condition) { .. }`
pub fn if_statement(token_handler: &mut TokenHandler) -> (r: Result<TokenNode, RhErr>)
    requires
        ready(*old(token_handler)),
        old(token_handler).curr_token < old(token_handler).tokens@.len(),
    ensures
        stepped(*old(token_handler), *final(token_handler)),
        res_view(r) == parse_if(src(*old(token_handler)), pos(*old(token_handler))).0,
        pos(*final(token_handler)) == parse_if(src(*old(token_handler)), pos(*old(token_handler))).1,
        r matches Err(e) ==> 1 <= e.line <= old(token_handler).token_lines@.len(),
    decreases old(token_handler).tokens@.len() - old(token_handler).curr_token, 18nat,
{
    advance(token_handler);
    let condition_node = condition(token_handler)?;
    advance(token_handler);
    advance(token_handler);
    let scope_node = scope_node(token_handler, &ScopeType::If)?;
    Ok(binary(NodeType::If, condition_node, scope_node, line_now(token_handler)))
}

/// A statement that starts with an identifier: a call, an indexed assignment or an
/// assignment.
fn id_statement(token_handler: &mut TokenHandler, id: String) -> (r: Result<TokenNode, RhErr>)
    requires
        ready(*old(token_handler)),
    ensures
        stepped(*old(token_handler), *final(token_handler)),
        res_view(r) == parse_id_statement(src(*old(token_handler)), pos(*old(token_handler)), id@).0,
        pos(*final(token_handler)) == parse_id_statement(src(*old(token_handler)), pos(*old(token_handler)), id@).1,
        r matches Err(e) ==> 1 <= e.line <= old(token_handler).token_lines@.len(),
{
    match peek_kind(token_handler, 1) {
        Some(TokenKind::OParen) => function_call_statement(token_handler, id),
        Some(TokenKind::OSquare) => index_array_assignment(token_handler, id),
        _ => assignment(token_handler, id),
    }
}

/// `name(args);`
fn function_call_statement(token_handler: &mut TokenHandler, name: String) -> (r: Result<
    TokenNode,
    RhErr,
>)
    requires
        ready(*old(token_handler)),
        kind_at(src(*old(token_handler)), pos(*old(token_handler)) + 1) == Some(TokenKind::OParen),
    ensures
        stepped(*old(token_handler), *final(token_handler)),
        res_view(r) == parse_id_statement(src(*old(token_handler)), pos(*old(token_handler)), name@).0,
        pos(*final(token_handler)) == parse_id_statement(src(*old(token_handler)), pos(*old(token_handler)), name@).1,
        r matches Err(e) ==> 1 <= e.line <= old(token_handler).token_lines@.len(),
{
    let call_node = function_call(token_handler, name)?;
    advance(token_handler);
    if !at(token_handler, TokenKind::Semi) {
        return Err(err(token_handler, ET::ExpectedSemi));
    }
    Ok(call_node)
}

/// `[lside] rside` one token on: an assignment to an array element.
pub fn index_array_assignment(token_handler: &mut TokenHandler, id: String) -> (r: Result<
    TokenNode,
    RhErr,
>)
    requires
        ready(*old(token_handler)),
    ensures
        stepped(*old(token_handler), *final(token_handler)),
        res_view(r) == parse_index_assignment(src(*old(token_handler)), pos(*old(token_handler)), id@).0,
        pos(*final(token_handler)) == parse_index_assignment(src(*old(token_handler)), pos(*old(token_handler)), id@).1,
        r matches Err(e) ==> 1 <= e.line <= old(token_handler).token_lines@.len(),
{
    advance(token_handler);
    let lside = Box::new(arithmetic_expression(token_handler)?);
    if !at(token_handler, TokenKind::CSquare) {
        return Err(err(token_handler, ET::ExpectedCSquare));
    }
    advance(token_handler);
    let rside = Box::new(condition_expr(token_handler)?);
    if !at(token_handler, TokenKind::CSquare) {
        return Err(err(token_handler, ET::ExpectedSemi));
    }
    Ok(leaf_node(NodeType::IndexArrayAssignment { id, rside, lside }, line_now(token_handler)))
}

/// `id op expr;` (or `id++;`) from the name, or an indexed assignment.
fn assignment(token_handler: &mut TokenHandler, name: String) -> (r: Result<TokenNode, RhErr>)
    requires
        ready(*old(token_handler)),
    ensures
        stepped(*old(token_handler), *final(token_handler)),
        res_view(r) == parse_assignment(src(*old(token_handler)), pos(*old(token_handler)), name@).0,
        pos(*final(token_handler)) == parse_assignment(src(*old(token_handler)), pos(*old(token_handler)), name@).1,
        r matches Err(e) ==> 1 <= e.line <= old(token_handler).token_lines@.len(),
{
    if peek_kind(token_handler, 1) == Some(TokenKind::OSquare) {
        advance(token_handler);
        return index_array_assignment(token_handler, name);
    }
    advance(token_handler);
    let op = match current(token_handler) {
        Some(tok) => AssignmentOpType::from_token(&tok),
        None => Err(()),
    };
    let mut assignment_tok = match op {
        Ok(op) => op,
        Err(_) => return Err(err(token_handler, ET::ExpectedAssignment)),
    };
    let expr = if assignment_tok == AssignmentOpType::AddO {
        assignment_tok = AssignmentOpType::AddEq;
        advance(token_handler);
        leaf_node(NodeType::NumLiteral(1), line_now(token_handler))
    } else {
        advance(token_handler);
        arithmetic_expression(token_handler)?
    };
    let token = unary(NodeType::Assignment(assignment_tok, name), expr, line_now(token_handler));
    if !at(token_handler, TokenKind::Semi) {
        return Err(err(token_handler, ET::ExpectedSemi));
    }
    Ok(token)
}

/// `*expr op expr;` from the star.
fn deref_assignment(token_handler: &mut TokenHandler) -> (r: Result<TokenNode, RhErr>)
    requires
        ready(*old(token_handler)),
    ensures
        stepped(*old(token_handler), *final(token_handler)),
        res_view(r) == parse_deref_assignment(src(*old(token_handler)), pos(*old(token_handler))).0,
        pos(*final(token_handler)) == parse_deref_assignment(src(*old(token_handler)), pos(*old(token_handler))).1,
        r matches Err(e) ==> 1 <= e.line <= old(token_handler).token_lines@.len(),
{
    let expr_token = arithmetic_expression(token_handler)?;
    let deref_token = leaf_node(NodeType::DeRef(Box::new(expr_token)), line_now(token_handler));
    let op = match current(token_handler) {
        Some(tok) => AssignmentOpType::from_token(&tok),
        None => Err(()),
    };
    let assignment_tok = match op {
        Ok(op) => op,
        Err(_) => return Err(err(token_handler, ET::ExpectedAssignment)),
    };
    advance(token_handler);
    let rhs = arithmetic_expression(token_handler)?;
    let token = unary(
        NodeType::DerefAssignment(assignment_tok, Box::new(deref_token)),
        rhs,
        line_now(token_handler),
    );
    if !at(token_handler, TokenKind::Semi) {
        return Err(err(token_handler, ET::ExpectedSemi));
    }
    Ok(token)
}

/// `for (init; condition; step)`: the header only.
pub fn for_statement(token_handler: &mut TokenHandler) -> (r: Result<TokenNode, RhErr>)
    requires
        ready(*old(token_handler)),
    ensures
        stepped(*old(token_handler), *final(token_handler)),
        res_view(r) == parse_for(src(*old(token_handler)), pos(*old(token_handler))).0,
        pos(*final(token_handler)) == parse_for(src(*old(token_handler)), pos(*old(token_handler))).1,
        r matches Err(e) ==> 1 <= e.line <= old(token_handler).token_lines@.len(),
{
    advance(token_handler);
    if !at(token_handler, TokenKind::OParen) {
        return Err(err(token_handler, ET::ExpectedOParen));
    }
    advance(token_handler);
    let mut children: Vec<TokenNode> = Vec::new();
    match current(token_handler) {
        Some(Token::Type(t)) => {
            advance(token_handler);
            let id = match current(token_handler) {
                Some(Token::Id(id)) => id,
                _ => return Err(err(token_handler, ET::ExpectedId)),
            };
            let decl = leaf_node(NodeType::Declaration(id, t, 0), line_now(token_handler));
            children.push(decl);
            proof {
                lemma_trees_of_push(seq![], decl);
                assert(seq![].push(decl) =~= children@);
            }
        },
        Some(Token::Semi) => {},
        _ => return Err(err(token_handler, ET::ExpectedSemi)),
    }
    advance(token_handler);
    if !at(token_handler, TokenKind::Semi) {
        let c = condition_expr(token_handler)?;
        let ghost before = children@;
        children.push(c);
        proof {
            lemma_trees_of_push(before, c);
        }
    }
    match current(token_handler) {
        Some(Token::Semi) => {},
        Some(Token::Id(id)) => {
            let a = assignment(token_handler, id)?;
            let ghost before = children@;
            children.push(a);
            proof {
                lemma_trees_of_push(before, a);
            }
        },
        _ => return Err(err(token_handler, ET::ExpectedSemi)),
    }
    Ok(with_children(NodeType::For, children, line_now(token_handler)))
}

/// `asm("..");`
fn asm_statement(token_handler: &mut TokenHandler) -> (r: Result<TokenNode, RhErr>)
    requires
        ready(*old(token_handler)),
    ensures
        stepped(*old(token_handler), *final(token_handler)),
        res_view(r) == parse_asm(src(*old(token_handler)), pos(*old(token_handler))).0,
        pos(*final(token_handler)) == parse_asm(src(*old(token_handler)), pos(*old(token_handler))).1,
        r matches Err(e) ==> 1 <= e.line <= old(token_handler).token_lines@.len(),
{
    advance(token_handler);
    if !at(token_handler, TokenKind::OParen) {
        return Err(err(token_handler, ET::ExpectedOParen));
    }
    advance(token_handler);
    match current(token_handler) {
        Some(Token::StrLiteral(text)) => {
            advance(token_handler);
            if !at(token_handler, TokenKind::CParen) {
                return Err(err(token_handler, ET::ExpectedCParen));
            }
            advance(token_handler);
            if !at(token_handler, TokenKind::Semi) {
                return Err(err(token_handler, ET::ExpectedSemi));
            }
            Ok(leaf_node(NodeType::Asm(text), line_now(token_handler)))
        },
        _ => Err(err(token_handler, ET::ExpectedStrLiteral)),
    }
}

/// `assert(condition);`
pub fn assert_statement(token_handler: &mut TokenHandler) -> (r: Result<TokenNode, RhErr>)
    requires
        ready(*old(token_handler)),
    ensures
        stepped(*old(token_handler), *final(token_handler)),
        res_view(r) == parse_assert(src(*old(token_handler)), pos(*old(token_handler))).0,
        pos(*final(token_handler)) == parse_assert(src(*old(token_handler)), pos(*old(token_handler))).1,
        r matches Err(e) ==> 1 <= e.line <= old(token_handler).token_lines@.len(),
{
    advance(token_handler);
    if !at(token_handler, TokenKind::OParen) {
        return Err(err(token_handler, ET::ExpectedOParen));
    }
    advance(token_handler);
    let condition_node = condition_expr(token_handler)?;
    let node = unary(NodeType::Assert, condition_node, line_now(token_handler));
    if at(token_handler, TokenKind::CParen) {
        return Err(err(token_handler, ET::ExpectedCParen));
    }
    advance(token_handler);
    if !at(token_handler, TokenKind::Semi) {
        return Err(err(token_handler, ET::ExpectedSemi));
    }
    return Ok(node);
}

/// `putchar(expr);`
pub fn putchar_statement(token_handler: &mut TokenHandler) -> (r: Result<TokenNode, RhErr>)
    requires
        ready(*old(token_handler)),
    ensures
        stepped(*old(token_handler), *final(token_handler)),
        res_view(r) == parse_putchar(src(*old(token_handler)), pos(*old(token_handler))).0,
        pos(*final(token_handler)) == parse_putchar(src(*old(token_handler)), pos(*old(token_handler))).1,
        r matches Err(e) ==> 1 <= e.line <= old(token_handler).token_lines@.len(),
{
    advance(token_handler);
    if !at(token_handler, TokenKind::OParen) {
        return Err(err(token_handler, ET::ExpectedOParen));
    }
    advance(token_handler);
    let expr_node = arithmetic_expression(token_handler)?;
    let putchar_node = unary(NodeType::PutChar, expr_node, line_now(token_handler));
    if !at(token_handler, TokenKind::CParen) {
        return Err(err(token_handler, ET::ExpectedCParen));
    }
    advance(token_handler);
    if !at(token_handler, TokenKind::Semi) {
        return Err(err(token_handler, ET::ExpectedSemi));
    }
    return Ok(putchar_node);
}

/// `return expr;`
pub fn return_statement(token_handler: &mut TokenHandler) -> (r: Result<TokenNode, RhErr>)
    requires
        ready(*old(token_handler)),
    ensures
        stepped(*old(token_handler), *final(token_handler)),
        res_view(r) == parse_return(src(*old(token_handler)), pos(*old(token_handler))).0,
        pos(*final(token_handler)) == parse_return(src(*old(token_handler)), pos(*old(token_handler))).1,
        r matches Err(e) ==> 1 <= e.line <= old(token_handler).token_lines@.len(),
{
    advance(token_handler);
    let expr_node = condition_expr(token_handler)?;
    if !at(token_handler, TokenKind::Semi) {
        return Err(err(token_handler, ET::ExpectedSemi));
    }
    return Ok(unary(NodeType::Return, expr_node, line_now(token_handler)));
}

/// `= { expr, .. }` from the `=`; ends on the closing curly bracket.
pub fn compound_literal(token_handler: &mut TokenHandler) -> (r: Result<Vec<TokenNode>, RhErr>)
    requires
        ready(*old(token_handler)),
    ensures
        stepped(*old(token_handler), *final(token_handler)),
        res_all(r) == parse_compound_literal(src(*old(token_handler)), pos(*old(token_handler))).0,
        pos(*final(token_handler)) == parse_compound_literal(src(*old(token_handler)), pos(*old(token_handler))).1,
        r matches Err(e) ==> 1 <= e.line <= old(token_handler).token_lines@.len(),
{
    let ghost start = *token_handler;
    let ghost s = src(start);
    advance(token_handler);
    if !at(token_handler, TokenKind::OCurl) {
        return Err(err(token_handler, ET::ExpectedOCurl));
    }
    advance(token_handler);
    let ghost first = pos(*token_handler);
    let mut fields: Vec<TokenNode> = Vec::new();
    loop
        invariant_except_break
            literal_items(s, first, seq![]) == literal_items(s, pos(*token_handler), trees_of(fields@)),
        invariant
            start == *old(token_handler),
            s == src(start),
            stepped(start, *token_handler),
            token_handler.curr_token > start.curr_token,
            first == adv(s, pos(start)) + 1,
            at_kind(s, adv(s, pos(start)), TokenKind::OCurl),
        ensures
            literal_items(s, first, seq![]) == (Ok::<Seq<Tree>, RhErr>(trees_of(fields@)), pos(*token_handler)),
        decreases token_handler.tokens@.len() - token_handler.curr_token,
    {
        let expr = condition_expr(token_handler)?;
        let ghost before = fields@;
        fields.push(expr);
        proof {
            lemma_trees_of_push(before, expr);
        }
        if !at(token_handler, TokenKind::Comma) {
            break;
        }
        advance(token_handler);
    }
    if !at(token_handler, TokenKind::CCurl) {
        return Err(err(token_handler, ET::ExpectedCCurl));
    }
    Ok(fields)
}

/// `struct id { .. };` or `struct id var ..;`
pub fn struct_statement(token_handler: &mut TokenHandler) -> (r: Result<TokenNode, RhErr>)
    requires
        ready(*old(token_handler)),
    ensures
        stepped(*old(token_handler), *final(token_handler)),
        res_view(r) == parse_struct_statement(src(*old(token_handler)), pos(*old(token_handler))).0,
        pos(*final(token_handler)) == parse_struct_statement(src(*old(token_handler)), pos(*old(token_handler))).1,
        r matches Err(e) ==> 1 <= e.line <= old(token_handler).token_lines@.len(),
{
    advance(token_handler);
    let struct_id = match current(token_handler) {
        Some(Token::Id(struct_id)) => struct_id,
        _ => return Err(err(token_handler, ET::ExpectedId)),
    };
    advance(token_handler);
    match current(token_handler) {
        Some(Token::OCurl) => struct_definition(struct_id, token_handler),
        Some(Token::Id(var_id)) => struct_variable_declaration(struct_id, var_id, token_handler),
        _ => return Err(err(token_handler, ET::ExpectedId)),
    }
}

/// `= { .. };` or `;` after the name of a struct variable.
pub fn struct_variable_declaration(
    struct_id: String,
    var_id: String,
    token_handler: &mut TokenHandler,
) -> (r: Result<TokenNode, RhErr>)
    requires
        ready(*old(token_handler)),
    ensures
        stepped(*old(token_handler), *final(token_handler)),
        res_view(r) == parse_struct_variable(src(*old(token_handler)), pos(*old(token_handler)), struct_id@, var_id@).0,
        pos(*final(token_handler)) == parse_struct_variable(src(*old(token_handler)), pos(*old(token_handler)), struct_id@, var_id@).1,
        r matches Err(e) ==> 1 <= e.line <= old(token_handler).token_lines@.len(),
{
    advance(token_handler);
    let exprs = if at(token_handler, TokenKind::Eq) {
        compound_literal(token_handler)?
    } else if at(token_handler, TokenKind::Semi) {
        Vec::new()
    } else {
        return Err(err(token_handler, ET::ExpectedSemi));
    };
    advance(token_handler);
    if !at(token_handler, TokenKind::Semi) {
        return Err(err(token_handler, ET::ExpectedSemi));
    }
    Ok(leaf_node(NodeType::StructDeclaration { var_id, struct_id, exprs }, line_now(token_handler)))
}

/// `{ type [*..] field; .. };` from the opening curly bracket.
pub fn struct_definition(struct_id: String, token_handler: &mut TokenHandler) -> (r: Result<
    TokenNode,
    RhErr,
>)
    requires
        ready(*old(token_handler)),
    ensures
        stepped(*old(token_handler), *final(token_handler)),
        res_view(r) == parse_struct_definition(src(*old(token_handler)), pos(*old(token_handler)), struct_id@).0,
        pos(*final(token_handler)) == parse_struct_definition(src(*old(token_handler)), pos(*old(token_handler)), struct_id@).1,
        r matches Err(e) ==> 1 <= e.line <= old(token_handler).token_lines@.len(),
{
    let ghost start = *token_handler;
    let ghost s = src(start);
    let mut field_definitions: Vec<(String, usize, CType)> = Vec::new();
    advance(token_handler);
    let ghost first = pos(*token_handler);
    proof {
        assert(fields_view(field_definitions@) =~= seq![]);
    }
    loop
        invariant_except_break
            field_defs(s, first, seq![]) == field_defs(s, pos(*token_handler), fields_view(field_definitions@)),
        invariant
            start == *old(token_handler),
            s == src(start),
            stepped(start, *token_handler),
            first == adv(s, pos(start)),
        ensures
            field_defs(s, first, seq![]) == (
                Ok::<Seq<(Seq<char>, usize, CType)>, RhErr>(fields_view(field_definitions@)),
                pos(*token_handler),
            ),
        decreases token_handler.tokens@.len() - token_handler.curr_token,
    {
        let ghost before = *token_handler;
        let t = match get_type_name(token_handler) {
            Ok(t) => t,
            Err(_) => break,
        };
        advance(token_handler);
        let ghost stars_from = pos(*token_handler);
        let mut ptr_count: usize = 0;
        while at(token_handler, TokenKind::Star)
            invariant
                start == *old(token_handler),
                s == src(start),
                stepped(before, *token_handler),
                stepped(start, *token_handler),
                first == adv(s, pos(start)),
                field_defs(s, first, seq![]) == field_defs(s, pos(before), fields_view(field_definitions@)),
                parse_type_name(s, pos(before)) == (Ok::<CType, RhErr>(t), stars_from - 1),
                token_handler.curr_token > before.curr_token,
                ptr_count < token_handler.curr_token,
                star_count(s, stars_from, 0) == star_count(s, pos(*token_handler), ptr_count as nat),
            decreases token_handler.tokens@.len() - token_handler.curr_token,
        {
            ptr_count = ptr_count + 1;
            advance(token_handler);
        }
        let id = match current(token_handler) {
            Some(Token::Id(id)) => id,
            _ => return Err(err(token_handler, ET::ExpectedId)),
        };
        let ghost fs = field_definitions@;
        field_definitions.push((id, ptr_count, t));
        proof {
            assert(fields_view(field_definitions@) =~= fields_view(fs).push((id@, ptr_count, t)));
        }
        advance(token_handler);
        if !at(token_handler, TokenKind::Semi) {
            return Err(err(token_handler, ET::ExpectedSemi));
        }
        advance(token_handler);
    }
    if !at(token_handler, TokenKind::CCurl) {
        return Err(err(token_handler, ET::ExpectedCCurl));
    }
    advance(token_handler);
    if !at(token_handler, TokenKind::Semi) {
        return Err(err(token_handler, ET::ExpectedSemi));
    }
    Ok(leaf_node(NodeType::StructDefinition { struct_id, field_definitions }, line_now(token_handler)))
}

/// `var.field op expr;` from the field.
pub fn struct_field_assignment(
    token_handler: &mut TokenHandler,
    struct_var_id: String,
    field_id: String,
) -> (r: Result<TokenNode, RhErr>)
    requires
        ready(*old(token_handler)),
    ensures
        stepped(*old(token_handler), *final(token_handler)),
        res_view(r) == parse_struct_field_assignment(src(*old(token_handler)), pos(*old(token_handler)), struct_var_id@, field_id@).0,
        pos(*final(token_handler)) == parse_struct_field_assignment(src(*old(token_handler)), pos(*old(token_handler)), struct_var_id@, field_id@).1,
        r matches Err(e) ==> 1 <= e.line <= old(token_handler).token_lines@.len(),
{
    advance(token_handler);
    let op = match current(token_handler) {
        Some(tok) => AssignmentOpType::from_token(&tok),
        None => Err(()),
    };
    let assignment_op = match op {
        Ok(op) => op,
        Err(_) => return Err(err(token_handler, ET::ExpectedAssignment)),
    };
    advance(token_handler);
    let expr = Box::new(condition_expr(token_handler)?);
    if !at(token_handler, TokenKind::Semi) {
        return Err(err(token_handler, ET::ExpectedSemi));
    }
    Ok(leaf_node(
        NodeType::StructFieldAssignment { var_id: struct_var_id, field_id, assignment_op, expr },
        line_now(token_handler),
    ))
}

/// A type name: a type keyword, or `struct` and the struct's name.
pub fn get_type_name(token_handler: &mut TokenHandler) -> (r: Result<CType, RhErr>)
    requires
        ready(*old(token_handler)),
    ensures
        stepped(*old(token_handler), *final(token_handler)),
        r == parse_type_name(src(*old(token_handler)), pos(*old(token_handler))).0,
        pos(*final(token_handler)) == parse_type_name(src(*old(token_handler)), pos(*old(token_handler))).1,
        r matches Err(e) ==> 1 <= e.line <= old(token_handler).token_lines@.len(),
{
    match current(token_handler) {
        Some(Token::Struct) => {
            advance(token_handler);
            match current(token_handler) {
                Some(Token::Id(id)) => Ok(CType::Struct(id)),
                _ => return Err(err(token_handler, ET::ExpectedType)),
            }
        },
        Some(Token::Type(t)) => Ok(t),
        _ => return Err(err(token_handler, ET::ExpectedType)),
    }
}

} // verus!
