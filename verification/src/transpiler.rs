use vstd::prelude::*;
use crate::analysis_ctx::AnalysisContext;
use crate::analyzer::determine_var_mutability;
use crate::annotater::{annotates, AnnotatedNode};
use crate::ast::TokenNode;
use crate::adjuster::{adjusted, lemma_mut_mut_overlap_shared};
use crate::analyzer::{analyze, derefs_named};
use crate::checker::{
    all_errors, borrow_check, lemma_overlap_reported, refs_of, spec_init_value_unused,
    spec_ptr_range_overlap, usages_of_kind, BorrowErrorView, OverlapState,
};
use crate::analysis_ctx::lemma_key_index;
use crate::data_model::{var_refs_in, ReferenceType, UsageType, VarData};
use crate::model::{ctx_view, CtxV};
use crate::converter::{convertible, spec_convert};
use crate::error::{AnalysisErr, ErrType, RhErr};
use crate::grammar::{parse_program, res_view, spans_of, Src};
use crate::lexer::{newline_count, spec_lex, string_to_tokens, tokens_view, Token};
use crate::parser::{is_main_decl, program};

verus! {

/// Lexes and parses C source into a syntax tree whose root is the program; a program
/// without `main` gets an empty `int main`.
pub fn parse_c(contents: &str) -> (r: Result<TokenNode, RhErr>)
    ensures
        match spec_lex(contents@) {
            Err(e) => r == Err::<TokenNode, RhErr>(e),
            Ok((tv, lines)) => if tv.len() == 0 {
                r == Err::<TokenNode, RhErr>(RhErr { err: ErrType::ExpectedStatement, line: 1 })
            } else {
                exists|ts: Seq<Token>|
                    #[trigger] tokens_view(ts) == tv && res_view(r) == parse_program(
                        Src { ts, ls: spans_of(lines, ts.len()) },
                    )
            },
        },
        r matches Ok(n) ==> (n.token is Program && (n.children matches Some(c) && exists|i: int|
            0 <= i < c@.len() && is_main_decl(#[trigger] c@[i].token))),
        r matches Err(e) ==> 1 <= e.line <= newline_count(contents@) + 1,
{
    let (tokens, line_numbers) = string_to_tokens(contents)?;
    if tokens.len() == 0 {
        return Err(RhErr { err: ErrType::ExpectedStatement, line: 1 });
    }
    let ghost ts = tokens@;
    let r = program(tokens, line_numbers, true);
    proof {
        assert(tokens_view(ts) == tokens_view(ts));
    }
    r
}

/// The model of a context with no variables, structs or references.
pub open spec fn empty_model() -> CtxV {
    CtxV { vars: seq![], structs: seq![], refs: seq![] }
}

/// `c1` is `c0` after the borrow check, which marks the variables whose initial value is
/// overwritten before it is read.
pub open spec fn checked(c0: AnalysisContext, c1: AnalysisContext) -> bool {
    &&& c1.wf()
    &&& c1.references == c0.references
    &&& c1.structs == c0.structs
    &&& c1.variables@.len() == c0.variables@.len()
    &&& forall|i: int|
        0 <= i < c0.variables@.len() ==> #[trigger] c1.variables@[i] == (
            c0.variables@[i].0,
            VarData {
                init_value_unused: c0.variables@[i].1.init_value_unused || spec_init_value_unused(
                    c0.variables@[i].1.pointed_to@.len() == 0,
                    usages_of_kind(c0.variables@[i].1.usages@, UsageType::RValue),
                    usages_of_kind(c0.variables@[i].1.usages@, UsageType::LValue),
                ),
                ..c0.variables@[i].1
            },
        )
}

/// The context `c2` and the tree `t2` that the translation annotates for `ast`: the analysis
/// of `ast` from an empty context gives `c0`, the borrow check turns it into `c1` and reports
/// its errors, and fixing those errors in turn gives `c2` and `t2`.
pub open spec fn prepared(ast: TokenNode, c2: AnalysisContext, t2: TokenNode) -> bool {
    exists|c0: AnalysisContext, c1: AnalysisContext|
        {
            &&& analyze(ast, empty_model()) == Ok::<CtxV, AnalysisErr>(ctx_view(c0))
            &&& c0.wf()
            &&& #[trigger] checked(c0, c1)
            &&& adjusted(all_errors(c0.references@, c0.variables@), c1, ast, c2, t2)
        }
}

/// Translates a parsed C program into Rust: analyses how each variable is used, checks the
/// borrows the pointers would become, fixes the conflicts (by moving lines, by sharing the
/// value through `Rc<RefCell<..>>`, or by raw pointers), annotates the tree and prints it.
/// Every dereference must name one variable (`derefs_named`).
pub fn convert_to_rust_code(ast: TokenNode) -> (r: Result<String, AnalysisErr>)
    requires
        derefs_named(ast),
    ensures
        analyze(ast, empty_model()) matches Err(e) ==> r == Err::<String, AnalysisErr>(e),
        r matches Ok(s) ==> exists|c2: AnalysisContext, t2: TokenNode, a: AnnotatedNode|
            prepared(ast, c2, t2) && #[trigger] annotates(c2, t2, a) && convertible(a)
                && spec_convert(a) == s@,
        analyze(ast, empty_model()) is Ok && r is Err ==> exists|c2: AnalysisContext, t2: TokenNode|
            #[trigger] prepared(ast, c2, t2) && ((forall|a: AnnotatedNode| !annotates(c2, t2, a)) || (
            exists|a: AnnotatedNode| annotates(c2, t2, a) && !convertible(a) && r
                == Err::<String, AnalysisErr>(AnalysisErr::Unsupported))),
        r matches Ok(s) ==> exists|c2: AnalysisContext, t2: TokenNode, a: AnnotatedNode|
            c2.wf() && t2.token == ast.token && #[trigger] annotates(c2, t2, a) && convertible(a)
                && spec_convert(a) == s@,
{
    let ghost original = ast;
    let mut ast = ast;
    let mut ctx = AnalysisContext::new();
    proof {
        assert(ctx_view(ctx).vars =~= empty_model().vars);
        assert(ctx_view(ctx).structs =~= empty_model().structs);
        assert(ctx_view(ctx).refs =~= empty_model().refs);
        assert(ctx_view(ctx) == empty_model());
    }
    determine_var_mutability(&ast, &mut ctx)?;
    let ghost c0 = ctx;
    let errors = borrow_check(&mut ctx);
    let ghost before = ast;
    let ghost ctx_before = ctx;
    let ghost errors_v = crate::checker::errors_view(errors@);
    ctx.adjust_ptr_type(errors, &mut ast);
    proof {
        ctx_before.lemma_same_links_targets(&c0);
        crate::adjuster::lemma_adjusted_keeps_targets(errors_v, ctx_before, before, ctx, ast);
        crate::adjuster::lemma_adjusted_keeps_root(errors_v, ctx_before, before, ctx, ast);
        assert(checked(c0, ctx_before));
        assert(prepared(original, ctx, ast));
    }
    let annotated_r = ast.annotate(&ctx);
    let annotated_ast = match annotated_r {
        Ok(a) => a,
        Err(e) => {
            return Err(e);
        },
    };
    if !annotated_ast.can_convert() {
        return Err(AnalysisErr::Unsupported);
    }
    let converted_rust = annotated_ast.convert();
    Ok(converted_rust)
}

/// Two mutable borrows of one variable, held by different pointers, whose lines overlap:
/// once the borrows are checked and the errors fixed, the variable is shared through
/// `Rc<RefCell<..>>`.
pub proof fn lemma_overlapping_mut_borrows_shared(
    c0: AnalysisContext,
    c1: AnalysisContext,
    t0: TokenNode,
    c2: AnalysisContext,
    t2: TokenNode,
    i: int,
    a: int,
    b: int,
)
    requires
        c0.wf(),
        c0.refs_borrowed(),
        checked(c0, c1),
        adjusted(all_errors(c0.references@, c0.variables@), c1, t0, c2, t2),
        0 <= i < c0.variables@.len(),
        0 <= a < c0.variables@[i].1.pointed_to@.len(),
        0 <= b < c0.variables@[i].1.pointed_to@.len(),
        c0.references@[c0.variables@[i].1.pointed_to@[a] as int].kind() == ReferenceType::MutBorrowed,
        c0.references@[c0.variables@[i].1.pointed_to@[b] as int].kind() == ReferenceType::MutBorrowed,
        c0.references@[c0.variables@[i].1.pointed_to@[a] as int].borrower_id()
            != c0.references@[c0.variables@[i].1.pointed_to@[b] as int].borrower_id(),
        spec_ptr_range_overlap(
            c0.references@[c0.variables@[i].1.pointed_to@[a] as int].start_line() as int,
            c0.references@[c0.variables@[i].1.pointed_to@[a] as int].end_line() as int,
            c0.references@[c0.variables@[i].1.pointed_to@[b] as int].start_line() as int,
            c0.references@[c0.variables@[i].1.pointed_to@[b] as int].end_line() as int,
        ) == OverlapState::Overlap,
    ensures
        c2.var(c0.variables@[i].0@).rc,
{
    let refs = c0.references@;
    let vars = c0.variables@;
    let pts = vars[i].1.pointed_to@;
    let pointed = refs_of(refs, pts);
    assert(var_refs_in(vars[i].1, refs.len()));
    assert forall|k: int| 0 <= k < pointed.len() implies (#[trigger] pointed[k].kind()
        == ReferenceType::MutBorrowed || pointed[k].kind() == ReferenceType::ConstBorrowed) by {
        assert(pts[k] < refs.len());
    }
    assert(pointed[a] == refs[pts[a] as int]);
    assert(pointed[b] == refs[pts[b] as int]);
    lemma_overlap_reported(refs, vars, i, a, b);
    let e = BorrowErrorView::MutMutOverlap {
        first_ptr_id: pointed[a].borrower_id(),
        second_ptr_id: pointed[b].borrower_id(),
        value_id: vars[i].0@,
    };
    let es = all_errors(refs, vars);
    let j = choose|j: int| 0 <= j < es.len() && es[j] == e;
    assert(c1.variables@[i].0 == vars[i].0);
    lemma_key_index(c1.variables@, i);
    lemma_mut_mut_overlap_shared(es, c1, t0, c2, t2, j);
}

} // verus!
