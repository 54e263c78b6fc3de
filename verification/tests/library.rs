use sonder::adjuster::{move_node_before, rearrange_lines_ctx};
use sonder::analysis_ctx::AnalysisContext;
use sonder::analyzer::{check_derefs_named, determine_var_mutability};
use sonder::ast::{AssignmentOpType, NodeType, TokenNode};
use sonder::checker::{borrow_check, ptr_range_overlap, BorrowError, OverlapState};
use sonder::converter::{construct_ptr_type, dec_string, join_strings};
use sonder::cstring::{memcmp, memcpy, memmove};
use sonder::data_model::{ReferenceType, VarData};
use sonder::engine::{
    c_string_to_tokens, import_c_function_source, import_c_struct_source,
    import_function_from_declaration, import_struct_from_declaration, parse_c_function_declaration_to_rust,
    parse_c_struct_to_rust, try_c_string_to_tokens, ImportErr, Token,
};
use sonder::error::{AnalysisErr, ErrType};
use sonder::lexer::CType;
use sonder::scope::{ScopeContext, ScopeType};
use sonder::transpiler::{convert_to_rust_code, parse_c};

fn node(name: &str, line: usize) -> TokenNode {
    TokenNode::new(NodeType::Id(name.to_string()), None, line)
}

fn lines(nodes: &Vec<TokenNode>) -> Vec<usize> {
    nodes.iter().map(|n| n.line).collect()
}

#[test]
fn lex_struct_declaration() {
    let tokens = c_string_to_tokens("struct point { int x; char y; };").unwrap();
    assert_eq!(
        tokens,
        vec![
            Token::Struct,
            Token::Id("point".to_string()),
            Token::OCurl,
            Token::Int,
            Token::Id("x".to_string()),
            Token::Semi,
            Token::Char,
            Token::Id("y".to_string()),
            Token::Semi,
            Token::CCurl,
            Token::Semi,
        ]
    );
}

#[test]
fn lex_reads_past_the_end() {
    assert_eq!(try_c_string_to_tokens("int"), None);
    assert_eq!(try_c_string_to_tokens("x1"), None);
    assert_eq!(try_c_string_to_tokens("void* p"), Some(vec![Token::Void, Token::Star, Token::Id("p".to_string())]));
}

#[test]
fn struct_to_rust() {
    let tokens = c_string_to_tokens("struct point { int x; int y; };").unwrap();
    assert_eq!(parse_c_struct_to_rust(tokens), "struct point {\nx: i16,\ny: i16\n}");
}

#[test]
fn function_to_rust() {
    let tokens = c_string_to_tokens("int add(int a, char* b)").unwrap();
    assert_eq!(parse_c_function_declaration_to_rust(tokens), "extern \"C\" {\nfn add (a: i16) -> i16;\n}");
    let tokens = c_string_to_tokens("void reset(int *p, int q)").unwrap();
    assert_eq!(
        parse_c_function_declaration_to_rust(tokens),
        "extern \"C\" {\nfn reset (p: &i16, q: i16) ;\n}"
    );
}

#[test]
fn import_struct_from_source() {
    let source = "#include <stdio.h>\n\nstruct point {\n    int x;\n    int y;\n};\n\nint main() {}\n";
    assert_eq!(
        import_c_struct_source(source, "point"),
        Ok("struct point {\nx: i16,\ny: i16\n}".to_string())
    );
}

#[test]
fn import_function_from_source() {
    let source = "int add(int a, int b) {\n    return a + b;\n}\n";
    assert_eq!(
        import_c_function_source(source, "add"),
        Ok("extern \"C\" {\nfn add (a: i16, b: i16) -> i16;\n}".to_string())
    );
}

#[test]
fn import_errors() {
    assert_eq!(import_c_struct_source("int x;", "point"), Err(ImportErr::NoMatch));
    assert_eq!(import_c_struct_source("struct point { int x; };", "("), Err(ImportErr::InvalidPattern));
    assert_eq!(import_c_function_source("int f(int a)", "("), Err(ImportErr::InvalidPattern));
    assert_eq!(import_c_struct_source("struct pt { int x1; };", "pt"), Err(ImportErr::Lex));
    assert_eq!(import_struct_from_declaration("int x;"), Err(ImportErr::Parse));
    assert_eq!(import_function_from_declaration("int f(void x)"), Err(ImportErr::Parse));
}

#[test]
fn parse_error_reports_kind_and_line() {
    let e = parse_c("int main() {\n    int n = 0\n}").unwrap_err();
    assert_eq!(e.err, ErrType::ExpectedSemi);
    assert_eq!(e.line, 2);
}

#[test]
fn undeclared_variable_is_refused() {
    let ast = parse_c("int main() {\n    n = 2;\n}").unwrap();
    assert_eq!(convert_to_rust_code(ast), Err(AnalysisErr::UndeclaredVariable));
}

#[test]
fn field_count_mismatch_is_refused() {
    let ast = parse_c("struct T {\n    int m;\n    int j;\n};\nint main() {\n    struct T t = { 1 };\n}").unwrap();
    assert_eq!(convert_to_rust_code(ast), Err(AnalysisErr::FieldCountMismatch));
}

#[test]
fn overlap_of_two_mutable_borrows_is_reported() {
    let ast = parse_c(
        "int main() {\n    int n = 0;\n    int* g = &n;\n    int* p = &n;\n    *p = 1;\n    *g = 2;\n}",
    )
    .unwrap();
    let mut ctx = AnalysisContext::new();
    determine_var_mutability(&ast, &mut ctx).unwrap();
    for r in ctx.references.iter() {
        let k = r.get_reference_type();
        assert!(k == ReferenceType::MutBorrowed || k == ReferenceType::ConstBorrowed);
    }
    let errors = borrow_check(&mut ctx);
    assert!(errors.iter().any(|e| match e {
        BorrowError::MutMutOverlap { value_id, .. } => value_id == "n",
        _ => false,
    }));
    assert!(!ctx.get_var("n").rc);
    let mut tree = ast;
    ctx.adjust_ptr_type(errors, &mut tree);
    assert!(matches!(tree.token, NodeType::Program));
    assert!(ctx.get_var("n").rc);
}

#[test]
fn range_overlap_is_symmetric() {
    assert_eq!(ptr_range_overlap(1..4, 2..6), OverlapState::Overlap);
    assert_eq!(ptr_range_overlap(2..6, 1..4), OverlapState::Overlap);
    assert_eq!(ptr_range_overlap(1..3, 3..5), OverlapState::SameLine);
    assert_eq!(ptr_range_overlap(3..5, 1..3), OverlapState::SameLine);
    assert_eq!(ptr_range_overlap(1..2, 4..6), OverlapState::NoOverlap);
    assert_eq!(ptr_range_overlap(4..6, 1..2), OverlapState::NoOverlap);
}

#[test]
fn borrow_error_order() {
    let value_mut = BorrowError::ValueMutOverlap { ptr_id: "p".to_string(), value_id: "n".to_string() };
    let mut_const = BorrowError::MutConstOverlap {
        mut_ptr_id: "p".to_string(),
        const_ptr_id: "g".to_string(),
        value_id: "n".to_string(),
    };
    let other = BorrowError::ValueMutOverlap { ptr_id: "q".to_string(), value_id: "m".to_string() };
    assert_eq!(value_mut.compare(&mut_const), std::cmp::Ordering::Greater);
    assert_eq!(mut_const.compare(&value_mut), std::cmp::Ordering::Less);
    assert_eq!(value_mut.compare(&other), std::cmp::Ordering::Equal);
    assert!(value_mut.same_kind(&other));
    assert!(!value_mut.same_kind(&mut_const));
}

#[test]
fn moving_a_node_keeps_the_nodes() {
    let mut children = vec![node("a", 1), node("b", 2), node("c", 3)];
    move_node_before(&mut children, 2, 0);
    assert_eq!(lines(&children), vec![3, 1, 2]);
    move_node_before(&mut children, 1, 0);
    assert_eq!(lines(&children), vec![1, 3, 2]);
    move_node_before(&mut children, 0, 2);
    assert_eq!(lines(&children), vec![3, 1, 2]);
    move_node_before(&mut children, 1, 1);
    assert_eq!(lines(&children), vec![3, 1, 2]);
    move_node_before(&mut children, 5, 0);
    assert_eq!(lines(&children), vec![3, 1, 2]);
}

#[test]
fn pointer_types() {
    assert_eq!(construct_ptr_type(&vec![], "i32"), "i32");
    assert_eq!(construct_ptr_type(&vec![ReferenceType::MutBorrowed, ReferenceType::ConstBorrowed], "i32"), "&mut &i32 ");
    assert_eq!(construct_ptr_type(&vec![ReferenceType::RcRefClone], "i8"), "Rc<RefCell<i8>>");
    assert_eq!(construct_ptr_type(&vec![ReferenceType::MutPtr, ReferenceType::ConstPtr], "i32"), "*mut *const i32");
}

#[test]
fn decimal_and_join() {
    assert_eq!(dec_string(0), "0");
    assert_eq!(dec_string(7), "7");
    assert_eq!(dec_string(1204), "1204");
    assert_eq!(join_strings(&vec![], ", "), "");
    assert_eq!(join_strings(&vec!["a".to_string()], ", "), "a");
    assert_eq!(join_strings(&vec!["a".to_string(), "b".to_string(), "c".to_string()], ", "), "a, b, c");
}

#[test]
fn context_declaration_and_lookup() {
    let mut ctx = AnalysisContext::new();
    assert!(!ctx.has_variable("n"));
    assert!(ctx.mut_var("n").is_none());
    ctx.declaration("n".to_string(), VarData::new(CType::Int, false, None, None));
    assert!(ctx.has_variable("n"));
    ctx.mut_var("n").unwrap().is_mut = true;
    assert!(ctx.get_var("n").is_mut);
    assert!(ctx.mut_struct("T").is_none());
}

#[test]
fn new_scope_is_empty() {
    let s = ScopeContext::new(ScopeType::Loop);
    assert!(s.variables.is_empty());
    assert!(matches!(s.scope_type, ScopeType::Loop));
}

#[test]
fn byte_buffers() {
    assert!(memcmp(b"abcd", b"abxy", 2));
    assert!(!memcmp(b"abcd", b"abxy", 3));
    assert!(memcmp(b"", b"", 0));
    let mut dest = vec![9u8, 9, 9, 9];
    memcpy(&mut dest, b"xyz", 2);
    assert_eq!(dest, vec![b'x', b'y', 9, 9]);
    memmove(&mut dest, b"abcd", 4);
    assert_eq!(dest, b"abcd".to_vec());
}

#[test]
fn array_size_ends_in_missing_semicolon() {
    let e = parse_c("int main() { int a[2]; }").unwrap_err();
    assert_eq!(e.err, ErrType::ExpectedSemi);
    assert_eq!(e.line, 1);
}

#[test]
fn struct_variable_without_initializer() {
    let e = parse_c("struct T {\n    int m;\n};\nint main() {\n    struct T t;\n}").unwrap_err();
    assert_eq!(e.err, ErrType::ExpectedSemi);
    assert_eq!(e.line, 5);
}

#[test]
fn lexer_errors() {
    let e = parse_c("int main() { int n = 99999999999999999999999; }").unwrap_err();
    assert_eq!((e.err, e.line), (ErrType::ExpectedNumLiteral, 1));
    let e = parse_c("int main() {\n    asm(\"nop);\n}").unwrap_err();
    assert_eq!((e.err, e.line), (ErrType::ExpectedStrLiteral, 2));
    let e = parse_c("int main() { int n = 1 % 2; }").unwrap_err();
    assert_eq!((e.err, e.line), (ErrType::ExpectedExpression, 1));
    let e = parse_c("").unwrap_err();
    assert_eq!((e.err, e.line), (ErrType::ExpectedStatement, 1));
}

#[test]
fn program_without_main_gets_one() {
    let ast = parse_c("struct P {\n    int x;\n};").unwrap();
    let kids = ast.children.unwrap();
    assert_eq!(kids.len(), 2);
    assert!(matches!(&kids[1].token, NodeType::FunctionDeclaration(name, CType::Int) if name == "main"));
}

#[test]
fn pointer_chain_upwards_climbs_through_borrowers() {
    let mut ctx = AnalysisContext::new();
    for v in ["n", "g", "p", "m"] {
        ctx.declaration(v.to_string(), VarData::new(CType::Int, false, None, None));
    }
    ctx.ptr_assignment("n", "g", &vec![], 3);
    ctx.ptr_assignment("n", "p", &vec![], 4);
    ctx.ptr_assignment("p", "m", &vec![], 5);
    assert_eq!(ctx.construct_ptr_chain_upwards("p".to_string(), 0, u8::MAX), vec!["m", "p"]);
    assert_eq!(ctx.construct_ptr_chain_upwards("n".to_string(), 0, u8::MAX), vec!["m", "p", "n"]);
    assert_eq!(ctx.construct_ptr_chain_upwards("n".to_string(), 0, 1), vec!["n"]);
}

#[test]
fn usage_lines_follow_the_moved_statement() {
    let mut ctx = AnalysisContext::new();
    ctx.declaration("x".to_string(), VarData::new(CType::Int, false, None, None));
    for l in 1..=5 {
        ctx.new_usage("x", l);
    }
    rearrange_lines_ctx(2, 4, &mut ctx);
    let got: Vec<usize> = ctx.get_var("x").usages.iter().map(|u| u.get_line_number()).collect();
    assert_eq!(got, vec![1, 3, 4, 2, 5]);
}

#[test]
fn write_through_pointer_arithmetic_is_not_taken() {
    let sum = TokenNode::new(NodeType::Add, Some(vec![node("t", 4), node("s", 4)]), 4);
    let bad = TokenNode::new(
        NodeType::DerefAssignment(AssignmentOpType::Eq, Box::new(sum)),
        Some(vec![TokenNode::new(NodeType::NumLiteral(1), None, 4)]),
        4,
    );
    assert!(!check_derefs_named(&bad));
    let program = TokenNode::new(NodeType::Program, Some(vec![bad]), 0);
    assert!(!check_derefs_named(&program));
    let good = TokenNode::new(
        NodeType::DerefAssignment(AssignmentOpType::Eq, Box::new(node("p", 4))),
        Some(vec![TokenNode::new(NodeType::NumLiteral(1), None, 4)]),
        4,
    );
    assert!(check_derefs_named(&good));
    let ast = parse_c("int main() {\n    int n = 0;\n    int* g = &n;\n    *g = 1;\n}").unwrap();
    assert!(check_derefs_named(&ast));
}

#[test]
fn identifiers_advance_by_their_bytes() {
    assert_eq!(try_c_string_to_tokens("ab;"), Some(vec![Token::Id("ab".to_string()), Token::Semi]));
    assert_eq!(try_c_string_to_tokens("é;"), Some(vec![Token::Id("é".to_string())]));
}

#[test]
fn reference_to_an_undeclared_variable_is_still_held() {
    let mut ctx = AnalysisContext::new();
    ctx.declaration("g".to_string(), VarData::new(CType::Int, false, None, None));
    ctx.ptr_assignment("n", "g", &vec![], 3);
    assert_eq!(ctx.get_var("g").points_to, vec![0]);
    assert!(ctx.get_var("g").is_mut);
    assert!(!ctx.has_variable("n"));
    assert_eq!(ctx.references.len(), 1);
    assert_eq!(ctx.references[0].get_reference_to(), "n");
}

#[test]
fn downward_chain_needs_only_its_own_variables() {
    let mut ctx = AnalysisContext::new();
    for v in ["n", "g", "h"] {
        ctx.declaration(v.to_string(), VarData::new(CType::Int, false, None, None));
    }
    ctx.ptr_assignment("n", "g", &vec![], 2);
    ctx.ptr_assignment("undeclared", "h", &vec![], 3);
    assert_eq!(ctx.construct_ptr_chain_downwards("g".to_string(), 0, u8::MAX), vec!["n", "g"]);
    assert_eq!(ctx.construct_ptr_chain_downwards("g".to_string(), 0, 1), vec!["g"]);
    assert_eq!(ctx.construct_ptr_chain_downwards("g".to_string(), 3, 3), Vec::<String>::new());
}

#[test]
fn taking_a_reference_reads_the_value() {
    let ast = parse_c("int main() {\n    int n = 0;\n    int* g = &n;\n}").unwrap();
    let mut ctx = AnalysisContext::new();
    determine_var_mutability(&ast, &mut ctx).unwrap();
    let n = ctx.get_var("n");
    assert_eq!(n.usages.len(), 1);
    assert_eq!(n.usages[0].get_line_number(), 3);
    assert_eq!(ctx.get_var("g").points_to.len(), 1);
}
