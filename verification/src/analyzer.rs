use vstd::prelude::*;
use crate::analysis_ctx::{has_key, ids_view, key_index, lemma_key_index, AnalysisContext};
use crate::ast::{NodeType, TokenNode};
use crate::model::{
    assign, ctx_view, declare, define, deref_assign, lemma_named, named, pos_of, ptr_assign, var_of, with_mut,
    with_usage, fresh_var, CtxV, };
use crate::data_model::{
    var_refs_in, FieldDefinition, FieldInfo, LineNumber, ReferenceType, StructData, UsageType, VarData,
};
use crate::error::AnalysisErr;
use crate::lexer::CType;

verus! {

/// Each child of a node is smaller than the node.
pub proof fn lemma_child_smaller(n: TokenNode, i: int)
    requires
        n.children is Some,
        0 <= i < n.children->0@.len(),
    ensures
        decreases_to!(n => n.children->0@[i]),
{
    assert(decreases_to!(n => n.children));
    assert(decreases_to!(n.children => n.children->0));
    assert(decreases_to!(n.children->0 => n.children->0@));
    assert(decreases_to!(n.children->0@ => n.children->0@[i]));
}

/// Every write through a dereference (`*p = ..`) and every dereference (`*p`) reached
/// through the children of the tree, the initializers of a struct declaration and the
/// value of a field assignment names exactly one variable: `*(t + s)` is not
/// well-written C, and the analysis does not take it.
pub open spec fn derefs_named(n: TokenNode) -> bool
    decreases n, 1nat,
{
    &&& deref_named_here(n)
    &&& match n.children {
        Some(c) => derefs_named_seq(c@),
        None => true,
    }
    &&& match n.token {
        NodeType::StructDeclaration { exprs, .. } => derefs_named_seq(exprs@),
        NodeType::StructFieldAssignment { expr, .. } => derefs_named(*expr),
        _ => true,
    }
}

pub open spec fn derefs_named_seq(s: Seq<TokenNode>) -> bool
    decreases s, 0nat,
{
    s.len() > 0 ==> derefs_named_seq(s.drop_last()) && derefs_named(s.last())
}

/// The node itself, if it writes through or reads a dereference, names exactly one
/// variable there.
pub open spec fn deref_named_here(n: TokenNode) -> bool {
    match n.token {
        NodeType::DerefAssignment(_, l) => spec_find_ids(*l).len() == 1,
        NodeType::DeRef(e) => spec_find_ids(*e).len() == 1,
        _ => true,
    }
}

/// Each node of a sequence that passes `derefs_named_seq` passes `derefs_named`.
pub proof fn lemma_derefs_named_seq(s: Seq<TokenNode>, i: int)
    requires
        derefs_named_seq(s),
        0 <= i < s.len(),
    ensures
        derefs_named(s[i]),
    decreases s.len(),
{
    if i < s.len() - 1 {
        assert(s.drop_last()[i] == s[i]);
        lemma_derefs_named_seq(s.drop_last(), i);
    }
}

/// Tests `derefs_named_seq` on the initializers of the struct declaration `root`.
fn check_derefs_named_all(root: &TokenNode, exprs: &Vec<TokenNode>) -> (b: bool)
    requires
        root.token matches NodeType::StructDeclaration { exprs: e, .. } && e == *exprs,
    ensures
        b == derefs_named_seq(exprs@),
    decreases root, 0nat,
{
    let mut i: usize = 0;
    while i < exprs.len()
        invariant
            root.token matches NodeType::StructDeclaration { exprs: e, .. } && e == *exprs,
            i <= exprs@.len(),
            derefs_named_seq(exprs@.subrange(0, i as int)),
        decreases exprs.len() - i,
    {
        proof {
            assert(decreases_to!(root => root.token));
            assert(decreases_to!(root.token => root.token->StructDeclaration_exprs));
            assert(decreases_to!(root.token->StructDeclaration_exprs => exprs@));
            assert(decreases_to!(exprs@ => exprs@[i as int]));
        }
        if !check_derefs_named(&exprs[i]) {
            proof {
                if derefs_named_seq(exprs@) {
                    lemma_derefs_named_seq(exprs@, i as int);
                }
            }
            return false;
        }
        proof {
            let s = exprs@.subrange(0, i + 1);
            assert(s.drop_last() =~= exprs@.subrange(0, i as int));
            assert(s.last() == exprs@[i as int]);
        }
        i = i + 1;
    }
    proof {
        assert(exprs@.subrange(0, i as int) =~= exprs@);
    }
    true
}

/// Tests `derefs_named`.
pub fn check_derefs_named(root: &TokenNode) -> (b: bool)
    ensures
        b == derefs_named(*root),
    decreases root, 1nat,
{
    let own = match &root.token {
        NodeType::DerefAssignment(_, l) => find_ids(l).len() == 1,
        NodeType::DeRef(e) => find_ids(e).len() == 1,
        _ => true,
    };
    let inner = match &root.token {
        NodeType::StructDeclaration { exprs, .. } => check_derefs_named_all(root, exprs),
        NodeType::StructFieldAssignment { expr, .. } => {
            proof {
                assert(decreases_to!(root => root.token));
            }
            check_derefs_named(expr)
        },
        _ => true,
    };
    if !inner || !own {
        return false;
    }
    if let Some(children) = &root.children {
        let mut i: usize = 0;
        while i < children.len()
            invariant
                root.children == Some(*children),
                deref_named_here(*root),
                match root.token {
                    NodeType::StructDeclaration { exprs, .. } => derefs_named_seq(exprs@),
                    NodeType::StructFieldAssignment { expr, .. } => derefs_named(*expr),
                    _ => true,
                },
                i <= children@.len(),
                derefs_named_seq(children@.subrange(0, i as int)),
            decreases children.len() - i,
        {
            proof {
                lemma_child_smaller(*root, i as int);
            }
            if !check_derefs_named(&children[i]) {
                proof {
                    if derefs_named_seq(children@) {
                        lemma_derefs_named_seq(children@, i as int);
                    }
                }
                return false;
            }
            proof {
                let s = children@.subrange(0, i + 1);
                assert(s.drop_last() =~= children@.subrange(0, i as int));
                assert(s.last() == children@[i as int]);
            }
            i = i + 1;
        }
        proof {
            assert(children@.subrange(0, i as int) =~= children@);
        }
    }
    true
}

/// The name under which the analysis keeps the field `field` of the struct variable `var`.
pub open spec fn field_var_name(var: Seq<char>, field: Seq<char>) -> Seq<char> {
    var + seq!['.'] + field
}

/// `var.field`
pub fn field_var_id(var: &str, field: &str) -> (r: String)
    ensures
        r@ == field_var_name(var@, field@),
{
    let mut s = var.to_owned();
    s.append(".");
    proof {
        reveal_strlit(".");
    }
    s.append(field);
    s
}

/// The variables named in an expression, left to right: identifiers, variables whose
/// address is taken, struct fields, and those behind a dereference.
pub open spec fn spec_find_ids(n: TokenNode) -> Seq<Seq<char>>
    decreases n, 1nat,
{
    let kids = match n.children {
        Some(c) => spec_find_ids_seq(c@),
        None => seq![],
    };
    let own = match n.token {
        NodeType::Id(id) => seq![id@],
        NodeType::Adr(id) => seq![id@],
        NodeType::DeRef(e) => spec_find_ids(*e),
        NodeType::StructFieldId { var_id, field_id } => seq![field_var_name(var_id@, field_id@)],
        _ => seq![],
    };
    kids + own
}

pub open spec fn spec_find_ids_seq(s: Seq<TokenNode>) -> Seq<Seq<char>>
    decreases s, 0nat,
{
    if s.len() == 0 {
        seq![]
    } else {
        spec_find_ids_seq(s.drop_last()) + spec_find_ids(s.last())
    }
}

/// The variables whose address is taken among a node and its descendants, left to right.
pub open spec fn spec_find_addresses(n: TokenNode) -> Seq<Seq<char>>
    decreases n, 1nat,
{
    let kids = match n.children {
        Some(c) => spec_find_addresses_seq(c@),
        None => seq![],
    };
    match n.token {
        NodeType::Adr(id) => kids.push(id@),
        _ => kids,
    }
}

pub open spec fn spec_find_addresses_seq(s: Seq<TokenNode>) -> Seq<Seq<char>>
    decreases s, 0nat,
{
    if s.len() == 0 {
        seq![]
    } else {
        spec_find_addresses_seq(s.drop_last()) + spec_find_addresses(s.last())
    }
}

/// The declared variables and their types among a node and its descendants.
pub open spec fn spec_find_type_ids(n: TokenNode) -> Seq<(Seq<char>, CType)>
    decreases n, 1nat,
{
    let kids = match n.children {
        Some(c) => spec_find_type_ids_seq(c@),
        None => seq![],
    };
    match n.token {
        NodeType::Declaration(id, t, _) => kids.push((id@, t)),
        _ => kids,
    }
}

pub open spec fn spec_find_type_ids_seq(s: Seq<TokenNode>) -> Seq<(Seq<char>, CType)>
    decreases s, 0nat,
{
    if s.len() == 0 {
        seq![]
    } else {
        spec_find_type_ids_seq(s.drop_last()) + spec_find_type_ids(s.last())
    }
}

/// The number of pointer declarations among a node and its descendants.
pub open spec fn spec_ptr_declarations(n: TokenNode) -> nat
    decreases n, 1nat,
{
    let kids: nat = match n.children {
        Some(c) => spec_ptr_declarations_seq(c@),
        None => 0,
    };
    match n.token {
        NodeType::PtrDeclaration(..) => kids + 1,
        _ => kids,
    }
}

pub open spec fn spec_ptr_declarations_seq(s: Seq<TokenNode>) -> nat
    decreases s, 0nat,
{
    if s.len() == 0 {
        0
    } else {
        spec_ptr_declarations_seq(s.drop_last()) + spec_ptr_declarations(s.last())
    }
}

/// Finds the variables named in an expression.
pub fn find_ids(root: &TokenNode) -> (ids: Vec<String>)
    ensures
        crate::analysis_ctx::ids_view(ids@) == spec_find_ids(*root),
    decreases root,
{
    let mut ids: Vec<String> = Vec::new();
    if let Some(children) = &root.children {
        let mut i: usize = 0;
        while i < children.len()
            invariant
                root.children == Some(*children),
                i <= children@.len(),
                crate::analysis_ctx::ids_view(ids@) == spec_find_ids_seq(children@.subrange(0, i as int)),
            decreases children.len() - i,
        {
            proof {
                lemma_child_smaller(*root, i as int);
            }
            let mut sub = find_ids(&children[i]);
            let ghost before = ids@;
            let ghost sub_v = sub@;
            ids.append(&mut sub);
            proof {
                assert(children@.subrange(0, i + 1).drop_last() =~= children@.subrange(0, i as int));
                assert(crate::analysis_ctx::ids_view(ids@) =~= crate::analysis_ctx::ids_view(before) + crate::analysis_ctx::ids_view(sub_v));
            }
            i = i + 1;
        }
        assert(children@.subrange(0, children@.len() as int) =~= children@);
    }
    let ghost kids = ids@;
    match &root.token {
        NodeType::Id(id) => {
            ids.push(id.clone());
        },
        NodeType::Adr(id) => {
            ids.push(id.clone());
        },
        NodeType::DeRef(node) => {
            let mut sub = find_ids(node);
            let ghost sub_v = sub@;
            ids.append(&mut sub);
            proof {
                assert(crate::analysis_ctx::ids_view(ids@) =~= crate::analysis_ctx::ids_view(kids) + crate::analysis_ctx::ids_view(sub_v));
            }
        },
        NodeType::StructFieldId { var_id, field_id } => {
            ids.push(field_var_id(var_id.as_str(), field_id.as_str()));
        },
        _ => {},
    }
    proof {
        assert(crate::analysis_ctx::ids_view(ids@) =~= spec_find_ids(*root));
    }
    ids
}

/// Finds the addresses taken in an expression.
pub fn find_addresses(root: &TokenNode) -> (r: Vec<String>)
    ensures
        crate::analysis_ctx::ids_view(r@) == spec_find_addresses(*root),
    decreases root,
{
    let mut r: Vec<String> = Vec::new();
    if let Some(children) = &root.children {
        let mut i: usize = 0;
        while i < children.len()
            invariant
                root.children == Some(*children),
                i <= children@.len(),
                crate::analysis_ctx::ids_view(r@) == spec_find_addresses_seq(children@.subrange(0, i as int)),
            decreases children.len() - i,
        {
            proof {
                lemma_child_smaller(*root, i as int);
            }
            let mut sub = find_addresses(&children[i]);
            let ghost before = r@;
            let ghost sub_v = sub@;
            r.append(&mut sub);
            proof {
                assert(children@.subrange(0, i + 1).drop_last() =~= children@.subrange(0, i as int));
                assert(crate::analysis_ctx::ids_view(r@) =~= crate::analysis_ctx::ids_view(before) + crate::analysis_ctx::ids_view(sub_v));
            }
            i = i + 1;
        }
        assert(children@.subrange(0, children@.len() as int) =~= children@);
    }
    let ghost kids = r@;
    if let NodeType::Adr(id) = &root.token {
        r.push(id.clone());
        proof {
            assert(crate::analysis_ctx::ids_view(r@) =~= crate::analysis_ctx::ids_view(kids).push(id@));
        }
    }
    r
}

/// The view of a list of declared names with their types.
pub open spec fn type_ids_view(s: Seq<(String, CType)>) -> Seq<(Seq<char>, CType)> {
    s.map_values(|x: (String, CType)| (x.0@, x.1))
}

/// Finds the declared variables, with their types, in a tree.
pub fn find_type_ids(root: &TokenNode) -> (r: Vec<(String, CType)>)
    ensures
        type_ids_view(r@) == spec_find_type_ids(*root),
    decreases root,
{
    let mut r: Vec<(String, CType)> = Vec::new();
    if let Some(children) = &root.children {
        let mut i: usize = 0;
        while i < children.len()
            invariant
                root.children == Some(*children),
                i <= children@.len(),
                type_ids_view(r@) == spec_find_type_ids_seq(children@.subrange(0, i as int)),
            decreases children.len() - i,
        {
            proof {
                lemma_child_smaller(*root, i as int);
            }
            let mut sub = find_type_ids(&children[i]);
            let ghost before = r@;
            let ghost sub_v = sub@;
            r.append(&mut sub);
            proof {
                assert(children@.subrange(0, i + 1).drop_last() =~= children@.subrange(0, i as int));
                assert(type_ids_view(r@) =~= type_ids_view(before) + type_ids_view(sub_v));
            }
            i = i + 1;
        }
        assert(children@.subrange(0, children@.len() as int) =~= children@);
    }
    let ghost kids = r@;
    if let NodeType::Declaration(id, c_type, _size) = &root.token {
        r.push((id.clone(), c_type.duplicate()));
        proof {
            assert(type_ids_view(r@) =~= type_ids_view(kids).push((id@, *c_type)));
        }
    }
    r
}

/// One reference kind per pointer declaration in the tree; an empty list stands for a
/// non-pointer. Each starts as a shared borrow.
pub fn count_declaration_ref(root: &TokenNode) -> (r: Vec<ReferenceType>)
    ensures
        r@.len() == spec_ptr_declarations(*root),
        forall|i: int| 0 <= i < r@.len() ==> #[trigger] r@[i] == ReferenceType::ConstBorrowed,
    decreases root,
{
    let mut r: Vec<ReferenceType> = Vec::new();
    if let Some(children) = &root.children {
        let mut i: usize = 0;
        while i < children.len()
            invariant
                root.children == Some(*children),
                i <= children@.len(),
                r@.len() == spec_ptr_declarations_seq(children@.subrange(0, i as int)),
                forall|q: int| 0 <= q < r@.len() ==> #[trigger] r@[q] == ReferenceType::ConstBorrowed,
            decreases children.len() - i,
        {
            proof {
                lemma_child_smaller(*root, i as int);
            }
            let mut sub = count_declaration_ref(&children[i]);
            r.append(&mut sub);
            proof {
                assert(children@.subrange(0, i + 1).drop_last() =~= children@.subrange(0, i as int));
            }
            i = i + 1;
        }
        assert(children@.subrange(0, children@.len() as int) =~= children@);
    }
    if let NodeType::PtrDeclaration(..) = &root.token {
        r.push(ReferenceType::ConstBorrowed);
    }
    r
}

/// The number of dereferences in a tree.
pub fn count_derefs(root: &TokenNode) -> (r: u8)
    requires
        spec_count_derefs(*root) <= u8::MAX,
    ensures
        r == spec_count_derefs(*root),
{
    count_derefs_bounded(root).unwrap()
}

/// The number of dereferences in a tree: every `DeRef` node counts once, together with the
/// dereferences inside the expression it dereferences and inside its children.
pub open spec fn spec_count_derefs(n: TokenNode) -> nat
    decreases n, 1nat,
{
    let own: nat = match n.token {
        NodeType::DeRef(e) => spec_count_derefs(*e) + 1,
        _ => 0,
    };
    let kids: nat = match n.children {
        Some(c) => spec_count_derefs_seq(c@),
        None => 0,
    };
    kids + own
}

pub open spec fn spec_count_derefs_seq(s: Seq<TokenNode>) -> nat
    decreases s, 0nat,
{
    if s.len() == 0 {
        0
    } else {
        spec_count_derefs_seq(s.drop_last()) + spec_count_derefs(s.last())
    }
}

proof fn lemma_count_derefs_prefix(s: Seq<TokenNode>, i: int)
    requires
        0 <= i <= s.len(),
    ensures
        spec_count_derefs_seq(s.subrange(0, i)) <= spec_count_derefs_seq(s),
    decreases s.len(),
{
    if i < s.len() {
        assert(s.drop_last().subrange(0, i) =~= s.subrange(0, i));
        lemma_count_derefs_prefix(s.drop_last(), i);
    } else {
        assert(s.subrange(0, i) =~= s);
    }
}

/// The number of dereferences, or `None` when it exceeds `u8::MAX`.
pub fn count_derefs_bounded(root: &TokenNode) -> (r: Option<u8>)
    ensures
        spec_count_derefs(*root) <= u8::MAX ==> r == Some(spec_count_derefs(*root) as u8),
        spec_count_derefs(*root) > u8::MAX ==> r is None,
    decreases root,
{
    let mut count: u8 = 0;
    if let Some(children) = &root.children {
        let mut i: usize = 0;
        while i < children.len()
            invariant
                root.children == Some(*children),
                i <= children@.len(),
                count == spec_count_derefs_seq(children@.subrange(0, i as int)),
            decreases children.len() - i,
        {
            proof {
                assert(decreases_to!(root => root.children));
                assert(decreases_to!(root.children => root.children->0));
                assert(decreases_to!(children => children@));
                assert(decreases_to!(children@ => children@[i as int]));
            }
            let c = count_derefs_bounded(&children[i]);
            proof {
                assert(children@.subrange(0, i + 1).drop_last() =~= children@.subrange(0, i as int));
                lemma_count_derefs_prefix(children@, i + 1);
            }
            match c {
                Some(k) => {
                    if k > u8::MAX - count {
                        return None;
                    }
                    count = count + k;
                }
                None => {
                    return None;
                }
            }
            i = i + 1;
        }
        assert(children@.subrange(0, children@.len() as int) =~= children@);
    }
    if let NodeType::DeRef(expr) = &root.token {
        match count_derefs_bounded(expr) {
            Some(k) => {
                if count == u8::MAX || k > u8::MAX - count - 1 {
                    return None;
                }
                count = count + k + 1;
            }
            None => {
                return None;
            }
        }
    }
    Some(count)
}

/// Every name in the list is a declared variable.
pub open spec fn ids_declared(ctx: AnalysisContext, ids: Seq<Seq<char>>) -> bool {
    forall|i: int| 0 <= i < ids.len() ==> ctx.has_var(#[trigger] ids[i])
}

/// The kinds of reference that the right side of a pointer assignment is built from: as
/// many shared borrows as the chain below the single pointer it reads, one raw pointer when
/// it combines several pointers, and one shared borrow when it reads none.
pub fn ptr_type_chain(rvalue_ptrs: &Vec<String>, ctx: &AnalysisContext) -> (r: Vec<ReferenceType>)
    requires
        ctx.wf(),
        ctx.targets_declared(),
        rvalue_ptrs@.len() == 1 ==> ctx.has_var(rvalue_ptrs@[0]@),
    ensures
        rvalue_ptrs@.len() == 1 ==> r@ == Seq::new(
            ctx.chain_down(rvalue_ptrs@[0]@, 0, u8::MAX as int).len(),
            |i: int| ReferenceType::ConstBorrowed,
        ),
        rvalue_ptrs@.len() > 1 ==> r@ == seq![ReferenceType::ConstPtr],
        rvalue_ptrs@.len() == 0 ==> r@ == seq![ReferenceType::ConstBorrowed],
{
    if rvalue_ptrs.len() == 1 {
        proof {
            ctx.lemma_chain_declared(rvalue_ptrs@[0]@, 0, u8::MAX as int);
        }
        let chain = ctx.construct_ptr_chain_downwards(rvalue_ptrs[0].clone(), 0, u8::MAX);
        let mut r: Vec<ReferenceType> = Vec::new();
        let mut i: usize = 0;
        while i < chain.len()
            invariant
                i <= chain@.len(),
                r@ == Seq::new(i as nat, |q: int| ReferenceType::ConstBorrowed),
            decreases chain.len() - i,
        {
            r.push(ReferenceType::ConstBorrowed);
            i = i + 1;
            assert(r@ =~= Seq::new(i as nat, |q: int| ReferenceType::ConstBorrowed));
        }
        proof {
            assert(chain@.len() == ids_view(chain@).len());
        }
        r
    } else if rvalue_ptrs.len() > 1 {
        let mut r = Vec::new();
        r.push(ReferenceType::ConstPtr);
        assert(r@ =~= seq![ReferenceType::ConstPtr]);
        r
    } else {
        let mut r = Vec::new();
        r.push(ReferenceType::ConstBorrowed);
        assert(r@ =~= seq![ReferenceType::ConstBorrowed]);
        r
    }
}

/// The variable whose address a pointer is given by `expr`: the last address taken in it.
/// Every variable the expression names must be declared.
pub fn ptr_from_expression(expr: &TokenNode, ctx: &AnalysisContext) -> (r: Result<String, AnalysisErr>)
    requires
        ctx.wf(),
        ctx.targets_declared(),
    ensures
        !ids_declared(*ctx, spec_find_ids(*expr)) ==> r == Err::<String, AnalysisErr>(
            AnalysisErr::UndeclaredVariable,
        ),
        ids_declared(*ctx, spec_find_ids(*expr)) && spec_find_addresses(*expr).len() == 0 ==> r
            == Err::<String, AnalysisErr>(AnalysisErr::MissingAddress),
        ids_declared(*ctx, spec_find_ids(*expr)) && spec_find_addresses(*expr).len() > 0 ==> (
        if ctx.has_var(spec_find_addresses(*expr).last()) {
            r matches Ok(s) && s@ == spec_find_addresses(*expr).last()
        } else {
            r == Err::<String, AnalysisErr>(AnalysisErr::UndeclaredVariable)
        }),
        r matches Ok(s) ==> ptr_target(ctx_view(*ctx), *expr) == Ok::<Seq<char>, AnalysisErr>(s@),
        r matches Err(e) ==> ptr_target(ctx_view(*ctx), *expr) == Err::<Seq<char>, AnalysisErr>(e),
{
    proof {
        lemma_named_ctx(*ctx);
    }
    let rvalue_ids = find_ids(expr);
    let mut rvalue_ptrs: Vec<String> = Vec::new();
    let mut i: usize = 0;
    while i < rvalue_ids.len()
        invariant
            ctx.wf(),
            ids_view(rvalue_ids@) == spec_find_ids(*expr),
            i <= rvalue_ids@.len(),
            forall|q: int| 0 <= q < i ==> ctx.has_var(#[trigger] rvalue_ids@[q]@),
            forall|q: int| 0 <= q < rvalue_ptrs@.len() ==> ctx.has_var(#[trigger] rvalue_ptrs@[q]@),
        decreases rvalue_ids.len() - i,
    {
        if !ctx.has_variable(rvalue_ids[i].as_str()) {
            proof {
                assert(ids_view(rvalue_ids@)[i as int] == rvalue_ids@[i as int]@);
            }
            return Err(AnalysisErr::UndeclaredVariable);
        }
        if ctx.get_var(rvalue_ids[i].as_str()).is_ptr() {
            rvalue_ptrs.push(rvalue_ids[i].clone());
        }
        i = i + 1;
    }
    proof {
        assert forall|q: int| 0 <= q < spec_find_ids(*expr).len() implies ctx.has_var(
            #[trigger] spec_find_ids(*expr)[q],
        ) by {
            assert(ids_view(rvalue_ids@)[q] == rvalue_ids@[q]@);
        }
    }
    let _kinds = ptr_type_chain(&rvalue_ptrs, ctx);
    let addresses = find_addresses(expr);
    if addresses.len() == 0 {
        return Err(AnalysisErr::MissingAddress);
    }
    let last = addresses[addresses.len() - 1].clone();
    proof {
        assert(ids_view(addresses@)[addresses@.len() - 1] == addresses@[addresses@.len() - 1]@);
    }
    if !ctx.has_variable(last.as_str()) {
        return Err(AnalysisErr::UndeclaredVariable);
    }
    Ok(last)
}

/// The expression an assignment node assigns: a struct field assignment's value, otherwise
/// the node's first child.
pub open spec fn assigned_expr(n: TokenNode) -> Option<TokenNode> {
    match n.token {
        NodeType::StructFieldAssignment { expr, .. } => Some(*expr),
        _ => match n.children {
            Some(c) => if c@.len() > 0 {
                Some(c@[0])
            } else {
                None
            },
            None => None,
        },
    }
}

fn get_assigned_expr(root: &TokenNode) -> (r: Option<&TokenNode>)
    ensures
        r matches Some(e) ==> assigned_expr(*root) == Some(*e),
        r is None ==> assigned_expr(*root) is None,
{
    match &root.token {
        NodeType::StructFieldAssignment { expr, .. } => Some(expr),
        _ => match &root.children {
            Some(c) => if c.len() > 0 {
                Some(&c[0])
            } else {
                None
            },
            None => None,
        },
    }
}

/// An assignment to `id` on `root`'s line: a pointer takes a new reference to the variable
/// whose address the assigned expression takes; any other variable is written.
pub fn handle_assignment_analysis(ctx: &mut AnalysisContext, id: &str, root: &TokenNode) -> (r:
    Result<(), AnalysisErr>)
    requires
        old(ctx).wf(),
        old(ctx).refs_borrowed(),
        old(ctx).targets_declared(),
    ensures
        final(ctx).wf(),
        final(ctx).refs_borrowed(),
        final(ctx).targets_declared(),
        forall|k: Seq<char>| final(ctx).has_var(k) == old(ctx).has_var(k),
        !old(ctx).has_var(id@) ==> r == Err::<(), AnalysisErr>(AnalysisErr::UndeclaredVariable)
            && *final(ctx) == *old(ctx),
        old(ctx).has_var(id@) && old(ctx).var(id@).points_to@.len() == 0 ==> r is Ok
            && final(ctx).var(id@).is_mut && final(ctx).var(id@).usages@.last()
            == crate::data_model::Usage::spec_new(root.line, crate::data_model::UsageType::LValue),
        old(ctx).has_var(id@) && old(ctx).var(id@).points_to@.len() > 0 && r is Ok ==> (
        assigned_expr(*root) matches Some(e) && (spec_find_addresses(e).len() > 0
            && final(ctx).references@.len() == old(ctx).references@.len() + 1
            && final(ctx).references@.last().ref_to_id() == spec_find_addresses(e).last()
            && final(ctx).references@.last().borrower_id() == id@ && final(ctx).var(id@).is_mut)),
        match assign_to(ctx_view(*old(ctx)), id@, *root) {
            Ok(v) => r is Ok && ctx_view(*final(ctx)) == v,
            Err(e) => r == Err::<(), AnalysisErr>(e),
        },
{
    proof {
        lemma_named_ctx(*ctx);
    }
    if !ctx.has_variable(id) {
        return Err(AnalysisErr::UndeclaredVariable);
    }
    proof {
        ctx.lemma_var_of(id@);
    }
    let lvalue = ctx.get_var(id);
    let no_reads: Vec<String> = Vec::new();
    proof {
        assert(ids_view(no_reads@) =~= seq![]);
    }
    if lvalue.is_ptr() {
        let expr = match get_assigned_expr(root) {
            Some(e) => e,
            None => return Err(AnalysisErr::MissingExpression),
        };
        let points_to = ptr_from_expression(expr, ctx)?;
        ctx.ptr_assignment(points_to.as_str(), id, &no_reads, root.line);
    } else {
        let ghost before = *ctx;
        ctx.assignment(id, &no_reads, root.line);
        proof {
            ctx.lemma_same_links_targets(&before);
        }
    }
    Ok(())
}

/// Records a read of `id` on `line`.
fn use_var(ctx: &mut AnalysisContext, id: &str, line: LineNumber) -> (r: Result<(), AnalysisErr>)
    requires
        old(ctx).wf(),
        old(ctx).refs_borrowed(),
    ensures
        final(ctx).wf(),
        final(ctx).refs_borrowed(),
        old(ctx).targets_declared() ==> final(ctx).targets_declared(),
        forall|k: Seq<char>| final(ctx).has_var(k) == old(ctx).has_var(k),
        r is Ok <==> old(ctx).has_var(id@),
        r matches Err(e) ==> e == AnalysisErr::UndeclaredVariable,
        match use_name(ctx_view(*old(ctx)), id@, line) {
            Ok(v) => r is Ok && ctx_view(*final(ctx)) == v,
            Err(e) => r == Err::<(), AnalysisErr>(e),
        },
{
    proof {
        lemma_named_ctx(*ctx);
    }
    if !ctx.has_variable(id) {
        return Err(AnalysisErr::UndeclaredVariable);
    }
    let ghost before = *ctx;
    ctx.new_usage(id, line);
    proof {
        before.lemma_extends_borrowed(ctx, id@, line as int);
        if before.targets_declared() {
            ctx.lemma_same_links_targets(&before);
        }
    }
    Ok(())
}

/// The struct variable whose field is reached through the dereferences of `n`, if any.
pub open spec fn field_owner(n: TokenNode) -> Option<Seq<char>>
    decreases n,
{
    match n.token {
        NodeType::DeRef(e) => field_owner(*e),
        NodeType::StructFieldId { var_id, .. } => Some(var_id@),
        _ => None,
    }
}

fn get_field_owner(n: &TokenNode) -> (r: Option<String>)
    ensures
        r matches Some(s) ==> field_owner(*n) == Some(s@),
        r is None ==> field_owner(*n) is None,
    decreases n,
{
    match &n.token {
        NodeType::DeRef(e) => get_field_owner(e),
        NodeType::StructFieldId { var_id, .. } => Some(var_id.clone()),
        _ => None,
    }
}

/// The list in reverse order.
fn reversed(v: Vec<String>) -> (r: Vec<String>)
    ensures
        r@ == v@.reverse(),
{
    let mut r: Vec<String> = Vec::new();
    let mut i: usize = v.len();
    while i > 0
        invariant
            i <= v@.len(),
            r@ == v@.subrange(i as int, v@.len() as int).reverse(),
        decreases i,
    {
        i = i - 1;
        r.push(v[i].clone());
        assert(r@ =~= v@.subrange(i as int, v@.len() as int).reverse());
    }
    assert(v@.subrange(0, v@.len() as int) =~= v@);
    r
}

/// One shared borrow per level of a pointer field.
fn shared_borrows(n: usize) -> (r: Vec<ReferenceType>)
    ensures
        r@ == Seq::new(n as nat, |i: int| ReferenceType::ConstBorrowed),
{
    let mut r: Vec<ReferenceType> = Vec::new();
    let mut i: usize = 0;
    while i < n
        invariant
            i <= n,
            r@ == Seq::new(i as nat, |q: int| ReferenceType::ConstBorrowed),
        decreases n - i,
    {
        r.push(ReferenceType::ConstBorrowed);
        i = i + 1;
        assert(r@ =~= Seq::new(i as nat, |q: int| ReferenceType::ConstBorrowed));
    }
    r
}

/// The struct a variable of this type is an instance of.
fn instance_of(t: &CType) -> (r: Option<String>)
    ensures
        *t matches CType::Struct(s) ==> r == Some(s),
        !(t is Struct) ==> r is None,
{
    match t {
        CType::Struct(s) => Some(s.clone()),
        _ => None,
    }
}

/// The struct a variable of type `t` is an instance of.
pub open spec fn instance_name(t: CType) -> Option<String> {
    match t {
        CType::Struct(s) => Some(s),
        _ => None,
    }
}

/// The field definitions of a struct definition node: a shared borrow per star.
pub open spec fn field_defs_view(fd: Seq<(String, usize, CType)>) -> Seq<(Seq<char>, CType, Seq<ReferenceType>)> {
    fd.map_values(
        |f: (String, usize, CType)| (f.0@, f.2, Seq::new(f.1 as nat, |k: int| ReferenceType::ConstBorrowed)),
    )
}

/// The variable whose address the expression `e` gives a pointer in context `c`: the last
/// address taken in it; every variable it names must be declared.
pub open spec fn ptr_target(c: CtxV, e: TokenNode) -> Result<Seq<char>, AnalysisErr> {
    let ids = spec_find_ids(e);
    let adrs = spec_find_addresses(e);
    if !(forall|i: int| 0 <= i < ids.len() ==> named(c.vars, #[trigger] ids[i])) {
        Err(AnalysisErr::UndeclaredVariable)
    } else if adrs.len() == 0 {
        Err(AnalysisErr::MissingAddress)
    } else if named(c.vars, adrs.last()) {
        Ok(adrs.last())
    } else {
        Err(AnalysisErr::UndeclaredVariable)
    }
}

/// A read of `id` on `line`, which must be declared.
pub open spec fn use_name(c: CtxV, id: Seq<char>, line: LineNumber) -> Result<CtxV, AnalysisErr> {
    if named(c.vars, id) {
        Ok(with_usage(c, id, line, UsageType::RValue))
    } else {
        Err(AnalysisErr::UndeclaredVariable)
    }
}

/// The assignment node `n` to `id`: a pointer takes a new reference, any other variable is
/// written.
pub open spec fn assign_to(c: CtxV, id: Seq<char>, n: TokenNode) -> Result<CtxV, AnalysisErr> {
    if !named(c.vars, id) {
        Err(AnalysisErr::UndeclaredVariable)
    } else if var_of(c, id).points_to.len() > 0 {
        match assigned_expr(n) {
            None => Err(AnalysisErr::MissingExpression),
            Some(e) => match ptr_target(c, e) {
                Err(x) => Err(x),
                Ok(b) => Ok(ptr_assign(c, b, id, seq![], n.line)),
            },
        }
    } else {
        Ok(assign(c, id, seq![], n.line))
    }
}

/// Follows, from `root`, the last reference each variable holds, for at most `max - total`
/// steps; the variables met, the last one first.
pub open spec fn chain_down_v(c: CtxV, root: Seq<char>, total: int, max: int) -> Seq<Seq<char>>
    decreases max - total,
{
    if total >= max {
        seq![]
    } else {
        let v = var_of(c, root);
        if v.points_to.len() == 0 {
            seq![root]
        } else {
            chain_down_v(c, c.refs[v.points_to.last() as int].ref_to, total + 1, max).push(root)
        }
    }
}

/// A write through the dereferenced expression `l` on `line`.
pub open spec fn deref_write(c: CtxV, l: TokenNode, line: LineNumber) -> Result<CtxV, AnalysisErr> {
    let ids = spec_find_ids(l);
    if ids.len() != 1 {
        Err(AnalysisErr::DerefTarget)
    } else if !named(c.vars, ids[0]) {
        Err(AnalysisErr::UndeclaredVariable)
    } else if spec_count_derefs(l) >= u8::MAX {
        Err(AnalysisErr::DerefDepth)
    } else {
        let chain = chain_down_v(c, ids[0], 0, (spec_count_derefs(l) + 1) as int).reverse();
        if chain.len() == 0 || var_of(c, chain[0]).points_to.len() == 0 {
            Err(AnalysisErr::NotAPointer)
        } else {
            let c1 = deref_assign(c, chain, line);
            match field_owner(l) {
                Some(o) => use_name(c1, o, line),
                None => Ok(c1),
            }
        }
    }
}

/// What the analysis records of a node and its descendants, children first, starting from
/// context `c`; the first error stops it.
pub open spec fn analyze(n: TokenNode, c: CtxV) -> Result<CtxV, AnalysisErr>
    decreases n, 1nat,
{
    match n.children {
        Some(ch) => match analyze_from(ch@, 0, c) {
            Err(x) => Err(x),
            Ok(c1) => analyze_node(n, c1),
        },
        None => analyze_node(n, c),
    }
}

/// The analysis of the nodes of `s` from position `i` on, in order.
pub open spec fn analyze_from(s: Seq<TokenNode>, i: int, c: CtxV) -> Result<CtxV, AnalysisErr>
    decreases s, s.len() - i,
{
    if i < 0 || i >= s.len() {
        Ok(c)
    } else {
        match analyze(s[i], c) {
            Err(x) => Err(x),
            Ok(c1) => analyze_from(s, i + 1, c1),
        }
    }
}

/// The values of a struct variable's fields from position `i` on: each is analysed, its
/// field becomes a variable of its own, and a pointer field takes a reference.
pub open spec fn analyze_fields(
    exprs: Seq<TokenNode>,
    fields: Seq<(Seq<char>, CType, Seq<ReferenceType>)>,
    i: int,
    var_id: Seq<char>,
    struct_id: Seq<char>,
    line: LineNumber,
    c: CtxV,
) -> Result<CtxV, AnalysisErr>
    decreases exprs, exprs.len() - i,
{
    if i < 0 || i >= exprs.len() || i >= fields.len() {
        Ok(c)
    } else {
        match analyze(exprs[i], c) {
            Err(x) => Err(x),
            Ok(c1) => {
                let name = field_var_name(var_id, fields[i].0);
                let c2 = declare(c1, name, fresh_var(fields[i].1, None, Some((struct_id, fields[i].0))));
                if fields[i].2.len() > 0 {
                    match ptr_target(c2, exprs[i]) {
                        Err(x) => Err(x),
                        Ok(b) => analyze_fields(
                            exprs,
                            fields,
                            i + 1,
                            var_id,
                            struct_id,
                            line,
                            ptr_assign(c2, b, name, seq![], line),
                        ),
                    }
                } else {
                    analyze_fields(exprs, fields, i + 1, var_id, struct_id, line, c2)
                }
            },
        }
    }
}

/// What the analysis records of node `n` itself, once its children are done.
pub open spec fn analyze_node(n: TokenNode, c: CtxV) -> Result<CtxV, AnalysisErr>
    decreases n, 0nat,
{
    let line = n.line;
    match n.token {
        NodeType::Declaration(id, t, _) => Ok(declare(c, id@, fresh_var(t, instance_name(t), None))),
        NodeType::Assignment(_, id) => assign_to(c, id@, n),
        NodeType::PtrDeclaration(id, t, e) => match ptr_target(c, *e) {
            Err(x) => Err(x),
            Ok(b) => {
                let c1 = declare(c, id@, fresh_var(t, instance_name(t), None));
                if !named(c1.vars, b) {
                    Err(AnalysisErr::UndeclaredVariable)
                } else {
                    Ok(ptr_assign(c1, b, id@, spec_find_ids(*e), line))
                }
            },
        },
        NodeType::DerefAssignment(_, l) => deref_write(c, *l, line),
        NodeType::Id(id) => use_name(c, id@, line),
        NodeType::Adr(id) => use_name(c, id@, line),
        NodeType::StructFieldId { var_id, field_id } => match use_name(
            c,
            field_var_name(var_id@, field_id@),
            line,
        ) {
            Err(x) => Err(x),
            Ok(c1) => use_name(c1, var_id@, line),
        },
        NodeType::DeRef(e) => {
            let ids = spec_find_ids(*e);
            if ids.len() != 1 {
                Err(AnalysisErr::DerefTarget)
            } else {
                match use_name(c, ids[0], line) {
                    Err(x) => Err(x),
                    Ok(c1) => match field_owner(*e) {
                        Some(o) => use_name(c1, o, line),
                        None => Ok(c1),
                    },
                }
            }
        },
        NodeType::StructDefinition { struct_id, field_definitions } => Ok(
            define(c, struct_id@, field_defs_view(field_definitions@)),
        ),
        NodeType::StructDeclaration { var_id, struct_id, exprs } => if !named(c.structs, struct_id@) {
            Err(AnalysisErr::UndefinedStruct)
        } else {
            let fields = c.structs[pos_of(c.structs, struct_id@)].1;
            if exprs@.len() != fields.len() {
                Err(AnalysisErr::FieldCountMismatch)
            } else {
                match analyze_fields(exprs@, fields, 0, var_id@, struct_id@, line, c) {
                    Err(x) => Err(x),
                    Ok(c1) => Ok(
                        declare(c1, var_id@, fresh_var(CType::Struct(struct_id), Some(struct_id), None)),
                    ),
                }
            }
        },
        NodeType::StructFieldAssignment { var_id, field_id, expr, .. } => match analyze(*expr, c) {
            Err(x) => Err(x),
            Ok(c1) => {
                let fv = field_var_name(var_id@, field_id@);
                match assign_to(c1, fv, n) {
                    Err(x) => Err(x),
                    Ok(c2) => if !named(c2.vars, var_id@) {
                        Err(AnalysisErr::UndeclaredVariable)
                    } else {
                        let c3 = with_mut(c2, var_id@, var_of(c2, var_id@).is_mut || var_of(c2, fv).is_mut);
                        use_name(c3, var_id@, line)
                    },
                }
            },
        },
        _ => Ok(c),
    }
}

/// The names of a context are those of its model.
pub proof fn lemma_named_ctx(ctx: AnalysisContext)
    ensures
        forall|k: Seq<char>| #[trigger] named(ctx_view(ctx).vars, k) == ctx.has_var(k),
        forall|k: Seq<char>| #[trigger] named(ctx_view(ctx).structs, k) == ctx.has_struct(k),
{
    assert forall|k: Seq<char>| #[trigger] named(ctx_view(ctx).vars, k) == ctx.has_var(k) by {
        lemma_named(ctx.variables@, ctx_view(ctx).vars, k);
    }
    assert forall|k: Seq<char>| #[trigger] named(ctx_view(ctx).structs, k) == ctx.has_struct(k) by {
        lemma_named(ctx.structs@, ctx_view(ctx).structs, k);
    }
}

/// Following the references of a context is following those of its model.
pub proof fn lemma_chain_down(ctx: AnalysisContext, root: Seq<char>, total: int, max: int)
    requires
        ctx.wf(),
        ctx.targets_declared(),
        ctx.has_var(root),
    ensures
        ctx.chain_down(root, total, max) == chain_down_v(ctx_view(ctx), root, total, max),
    decreases max - total,
{
    if total < max {
        ctx.lemma_var_of(root);
        let v = ctx.var(root);
        if v.points_to@.len() > 0 {
            let k = v.points_to@.last() as int;
            let i = key_index(ctx.variables@, root);
            lemma_key_index(ctx.variables@, i);
            assert(var_refs_in(ctx.variables@[i].1, ctx.references@.len()));
            assert(v.points_to@[v.points_to@.len() - 1] < ctx.references@.len());
            let next = ctx.references@[k].ref_to_id();
            assert(has_key(ctx.variables@, next));
            lemma_chain_down(ctx, next, total + 1, max);
        }
    }
}

/// Walks the tree, children first, and records in `ctx` what each statement does to the
/// variables: declarations, reads, writes, the references pointers take, and the structs
/// defined. A pointer declaration reads the variables its expression names, so taking
/// `&n` records a read of `n` on that line. Stops at the first variable or struct used before it is declared, and at a
/// dereference it cannot follow. A write through an expression that names no variable or
/// several (`*(t + s) = 1;`) is not taken: see `derefs_named`, and `check_derefs_named` to
/// test it.
#[verifier::rlimit(80)]
pub fn determine_var_mutability(root: &TokenNode, ctx: &mut AnalysisContext) -> (r: Result<
    (),
    AnalysisErr,
>)
    requires
        old(ctx).wf(),
        old(ctx).refs_borrowed(),
        old(ctx).targets_declared(),
        derefs_named(*root),
    ensures
        final(ctx).wf(),
        final(ctx).refs_borrowed(),
        final(ctx).targets_declared(),
        match analyze(*root, ctx_view(*old(ctx))) {
            Ok(v) => r is Ok && ctx_view(*final(ctx)) == v,
            Err(e) => r == Err::<(), AnalysisErr>(e),
        },
        forall|k: Seq<char>| old(ctx).has_var(k) ==> final(ctx).has_var(k),
    decreases root,
{
    let ghost start = *ctx;
    if let Some(children) = &root.children {
        let mut i: usize = 0;
        while i < children.len()
            invariant
                root.children == Some(*children),
                i <= children@.len(),
                ctx.wf(),
                ctx.refs_borrowed(),
                ctx.targets_declared(),
                start == *old(ctx),
                derefs_named(*root),
                forall|k: Seq<char>| start.has_var(k) ==> ctx.has_var(k),
                analyze(*root, ctx_view(start)) == match analyze_from(children@, i as int, ctx_view(*ctx)) {
                    Err(x) => Err(x),
                    Ok(c1) => analyze_node(*root, c1),
                },
            decreases children.len() - i,
        {
            proof {
                lemma_child_smaller(*root, i as int);
                lemma_derefs_named_seq(children@, i as int);
            }
            determine_var_mutability(&children[i], ctx)?;
            i = i + 1;
        }
    }
    let ghost mid = ctx_view(*ctx);
    let ghost mid_ctx = *ctx;
    assert(analyze(*root, ctx_view(start)) == analyze_node(*root, mid));
    proof {
        lemma_named_ctx(*ctx);
    }
    let no_reads: Vec<String> = Vec::new();
    proof {
        assert(ids_view(no_reads@) =~= seq![]);
    }
    let line = root.line;
    match &root.token {
        NodeType::Declaration(id, c_type, _) => {
            let variable = VarData::new(c_type.duplicate(), false, instance_of(c_type), None);
            ctx.declaration(id.clone(), variable);
            Ok(())
        },
        NodeType::Assignment(_, id) => handle_assignment_analysis(ctx, id.as_str(), root),
        NodeType::PtrDeclaration(id, c_type, expr) => {
            let borrowed = ptr_from_expression(expr, ctx)?;
            let reads = find_ids(expr);
            let ghost before = *ctx;
            let v = VarData::new(c_type.duplicate(), false, instance_of(c_type), None);
            ctx.declaration(id.clone(), v);
            proof {
                lemma_named_ctx(*ctx);
                assert forall|q: int| 0 <= q < reads@.len() implies ctx.has_var(#[trigger] reads@[q]@) by {
                    assert(ids_view(reads@)[q] == reads@[q]@);
                    assert(before.has_var(spec_find_ids(**expr)[q]));
                }
            }
            if !ctx.has_variable(borrowed.as_str()) {
                return Err(AnalysisErr::UndeclaredVariable);
            }
            ctx.ptr_assignment(borrowed.as_str(), id.as_str(), &reads, line);
            Ok(())
        },
        NodeType::DerefAssignment(_, l_side) => {
            let deref_ids = find_ids(l_side);
            if deref_ids.len() != 1 {
                return Err(AnalysisErr::DerefTarget);
            }
            let top = deref_ids[0].clone();
            proof {
                assert(ids_view(deref_ids@)[0] == top@);
            }
            if !ctx.has_variable(top.as_str()) {
                return Err(AnalysisErr::UndeclaredVariable);
            }
            let number_of_derefs = match count_derefs_bounded(l_side) {
                Some(k) => {
                    if k == u8::MAX {
                        return Err(AnalysisErr::DerefDepth);
                    }
                    k + 1
                },
                None => return Err(AnalysisErr::DerefDepth),
            };
            let ghost top_v = top@;
            proof {
                ctx.lemma_chain_declared(top@, 0, number_of_derefs as int);
            }
            let chain = ctx.construct_ptr_chain_downwards(top, 0, number_of_derefs);
            let ghost chain_v = chain@;
            proof {
                lemma_chain_down(*ctx, top_v, 0, number_of_derefs as int);
            }
            let ptr_chain = reversed(chain);
            proof {
                assert(ids_view(ptr_chain@) =~= ids_view(chain_v).reverse());
            }
            if ptr_chain.len() == 0 {
                return Err(AnalysisErr::NotAPointer);
            }
            proof {
                assert forall|q: int| 0 <= q < ptr_chain@.len() implies ctx.has_var(
                    #[trigger] ptr_chain@[q]@,
                ) by {
                    assert(ptr_chain@[q] == chain_v[chain_v.len() - 1 - q]);
                }
                ctx.lemma_var_of(ptr_chain@[0]@);
                assert(ids_view(ptr_chain@)[0] == ptr_chain@[0]@);
            }
            if !ctx.get_var(ptr_chain[0].as_str()).is_ptr() {
                return Err(AnalysisErr::NotAPointer);
            }
            let ghost before = *ctx;
            ctx.deref_assignment(&ptr_chain, line);
            proof {
                assert forall|k: Seq<char>| start.has_var(k) implies ctx.has_var(k) by {
                    assert(before.has_var(k));
                }
                ctx.lemma_same_links_targets(&before);
            }
            match get_field_owner(l_side) {
                Some(owner) => use_var(ctx, owner.as_str(), line),
                None => Ok(()),
            }
        },
        NodeType::Id(id) => use_var(ctx, id.as_str(), line),
        NodeType::Adr(id) => use_var(ctx, id.as_str(), line),
        NodeType::StructFieldId { var_id, field_id } => {
            let name = field_var_id(var_id.as_str(), field_id.as_str());
            use_var(ctx, name.as_str(), line)?;
            use_var(ctx, var_id.as_str(), line)
        },
        NodeType::DeRef(expr) => {
            let ids = find_ids(expr);
            if ids.len() != 1 {
                return Err(AnalysisErr::DerefTarget);
            }
            proof {
                assert(ids_view(ids@)[0] == ids@[0]@);
            }
            use_var(ctx, ids[0].as_str(), line)?;
            match get_field_owner(expr) {
                Some(owner) => use_var(ctx, owner.as_str(), line),
                None => Ok(()),
            }
        },
        NodeType::StructDefinition { struct_id, field_definitions } => {
            let mut defs: Vec<FieldDefinition> = Vec::new();
            let mut i: usize = 0;
            while i < field_definitions.len()
                invariant
                    i <= field_definitions@.len(),
                    defs@.len() == i,
                    forall|q: int|
                        0 <= q < i ==> {
                            &&& (#[trigger] defs@[q]).id@ == field_definitions@[q].0@
                            &&& defs@[q].c_type == field_definitions@[q].2
                            &&& defs@[q].ptr_type@ == Seq::new(
                                field_definitions@[q].1 as nat,
                                |k: int| ReferenceType::ConstBorrowed,
                            )
                        },
                decreases field_definitions.len() - i,
            {
                let (id, ptr_count, c_type) = &field_definitions[i];
                defs.push(
                    FieldDefinition {
                        id: id.clone(),
                        c_type: c_type.duplicate(),
                        ptr_type: shared_borrows(*ptr_count),
                    },
                );
                i = i + 1;
            }
            let data = StructData { field_definitions: defs };
            proof {
                assert(crate::model::struct_view(data) =~= field_defs_view(field_definitions@));
            }
            ctx.new_struct(struct_id.clone(), data);
            Ok(())
        },
        NodeType::StructDeclaration { var_id, struct_id, exprs } => {
            if !ctx.has_struct_named(struct_id.as_str()) {
                return Err(AnalysisErr::UndefinedStruct);
            }
            let data = ctx.get_struct(struct_id.as_str());
            let ghost fv = crate::model::struct_view(*data);
            proof {
                let ki = key_index(ctx.structs@, struct_id@);
                lemma_key_index(ctx.structs@, ki);
                crate::model::lemma_pos_of(ctx.structs@, mid.structs, ki);
                assert(mid.structs[pos_of(mid.structs, struct_id@)].1 == fv);
            }
            let mut fields: Vec<FieldDefinition> = Vec::new();
            let mut j: usize = 0;
            while j < data.field_definitions.len()
                invariant
                    j <= data.field_definitions@.len(),
                    fields@.len() == j,
                    fv == crate::model::struct_view(*data),
                    forall|q: int| 0 <= q < j ==> #[trigger] crate::model::field_view(fields@[q]) == fv[q],
                decreases data.field_definitions.len() - j,
            {
                fields.push(data.field_definitions[j].duplicate());
                j = j + 1;
            }
            if exprs.len() != fields.len() {
                return Err(AnalysisErr::FieldCountMismatch);
            }
            let mut i: usize = 0;
            while i < fields.len()
                invariant
                    derefs_named_seq(exprs@),
                    ctx.targets_declared(),
                    root.token == (NodeType::StructDeclaration {
                        var_id: *var_id,
                        struct_id: *struct_id,
                        exprs: *exprs,
                    }),
                    exprs@.len() == fields@.len(),
                    fields@.len() == fv.len(),
                    forall|q: int| 0 <= q < fields@.len() ==> #[trigger] crate::model::field_view(fields@[q]) == fv[q],
                    i <= fields@.len(),
                    ctx.wf(),
                    ctx.refs_borrowed(),
                    start == *old(ctx),
                    forall|k: Seq<char>| start.has_var(k) ==> ctx.has_var(k),
                    ids_view(no_reads@) == Seq::<Seq<char>>::empty(),
                    analyze(*root, ctx_view(start)) == analyze_node(*root, mid),
                    named(mid.structs, struct_id@),
                    mid.structs[pos_of(mid.structs, struct_id@)].1 == fv,
                    line == root.line,
                    analyze_fields(exprs@, fv, 0, var_id@, struct_id@, line, mid) == analyze_fields(
                        exprs@,
                        fv,
                        i as int,
                        var_id@,
                        struct_id@,
                        line,
                        ctx_view(*ctx),
                    ),
                decreases fields.len() - i,
            {
                proof {
                    assert(decreases_to!(root => root.token));
                    assert(decreases_to!(root.token => root.token->StructDeclaration_exprs));
                    assert(decreases_to!(root.token->StructDeclaration_exprs => exprs@));
                    assert(decreases_to!(exprs@ => exprs@[i as int]));
                    assert(crate::model::field_view(fields@[i as int]) == fv[i as int]);
                    lemma_derefs_named_seq(exprs@, i as int);
                }
                determine_var_mutability(&exprs[i], ctx)?;
                let name = field_var_id(var_id.as_str(), fields[i].id.as_str());
                let info = FieldInfo { struct_id: struct_id.clone(), field_id: fields[i].id.clone() };
                let v = VarData::new(fields[i].c_type.duplicate(), false, None, Some(info));
                ctx.declaration(name.clone(), v);
                proof {
                    lemma_named_ctx(*ctx);
                }
                if fields[i].ptr_type.len() > 0 {
                    let borrowed = ptr_from_expression(&exprs[i], ctx)?;
                    ctx.ptr_assignment(borrowed.as_str(), name.as_str(), &no_reads, line);
                }
                i = i + 1;
            }
            let var_data = VarData::new(
                CType::Struct(struct_id.clone()),
                false,
                Some(struct_id.clone()),
                None,
            );
            ctx.declaration(var_id.clone(), var_data);
            Ok(())
        },
        NodeType::StructFieldAssignment { var_id, field_id, expr, .. } => {
            proof {
                assert(decreases_to!(root => root.token));
            }
            determine_var_mutability(expr, ctx)?;
            let field_var = field_var_id(var_id.as_str(), field_id.as_str());
            handle_assignment_analysis(ctx, field_var.as_str(), root)?;
            proof {
                lemma_named_ctx(*ctx);
            }
            if !ctx.has_variable(var_id.as_str()) {
                return Err(AnalysisErr::UndeclaredVariable);
            }
            proof {
                ctx.lemma_var_of(field_var@);
                ctx.lemma_var_of(var_id@);
            }
            let field_mut = ctx.get_var(field_var.as_str()).is_mut;
            let var_mut = ctx.get_var(var_id.as_str()).is_mut;
            let ghost before = *ctx;
            ctx.set_var_mut(var_id.as_str(), var_mut || field_mut);
            proof {
                ctx.lemma_same_links_targets(&before);
            }
            use_var(ctx, var_id.as_str(), line)
        },
        _ => Ok(()),
    }
}

} // verus!
