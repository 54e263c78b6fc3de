use vstd::prelude::*;
use crate::analysis_ctx::AnalysisContext;
use crate::analyzer::{
    count_derefs_bounded, field_var_id, field_var_name, find_ids, spec_count_derefs, spec_find_ids,
};
use crate::ast::{spec_to_annotated, AssignmentOpType, NodeType, TokenNode};
use crate::data_model::{first_ref_at_line, FieldDefinition, Reference, ReferenceType, VarData};
use crate::error::AnalysisErr;
use crate::lexer::CType;

verus! {

/// A node of the Rust-like tree: the syntax tree with what the analysis found out.
#[derive(Debug)]
pub struct AnnotatedNode {
    pub token: AnnotatedNodeT,
    pub children: Vec<AnnotatedNode>,
}

#[derive(Debug)]
pub enum AnnotatedNodeT {
    Program { imports: Vec<String> },
    Sub,
    Div,
    Eq,
    Id { id: String, rc: bool },
    EqCmp,
    NeqCmp,
    BOr,
    BAnd,
    BXor,
    BOrEq,
    BAndEq,
    BXorEq,
    SubEq,
    AddEq,
    DivEq,
    MulEq,
    Mul,
    _MNeg,
    AndCmp,
    OrCmp,
    NumLiteral(usize),
    Add,
    If,
    For,
    While,
    _Loop,
    Break,
    FunctionCall(String),
    Scope(Option<CType>),
    Assignment { op: AssignmentOpType, id: String, rc: bool },
    DerefAssignment {
        op: AssignmentOpType,
        id: String,
        rc: bool,
        /// This is the type of each reference being dereferenced, not in total
        ref_types: Vec<ReferenceType>,
    },
    Declaration {
        id: String,
        is_mut: bool,
        t: CType,
        rc: bool,
        is_used: bool,
        init_value_unused: bool,
    },
    PtrDeclaration {
        id: String,
        is_mut: bool,
        /// The kinds of the references the pointer holds, first taken first
        points_to: Vec<ReferenceType>,
        t: CType,
        adr: Box<AnnotatedNode>,
        ref_type: Vec<ReferenceType>,
        /// Refers to it being an rc_ptr itself
        rc: bool,
        is_used: bool,
        init_value_unused: bool,
    },
    Asm(String),
    // This is handled by the ptr declaration for now
    Adr { id: String },
    DeRef { id: String, rc: bool, count: u8 },
    ArrayDeclaration {
        id: String,
        t: CType,
        size: usize,
        is_used: bool,
        is_mut: bool,
        items: Vec<AnnotatedNode>,
        init_value_unused: bool,
    },
    FunctionDeclaration { id: String, t: CType },
    Assert,
    Return { expr: Box<AnnotatedNode> },
    PutChar,
    StructDefinition { struct_id: String, field_definitions: Vec<FieldDefinition>, has_ref: bool },
    StructDeclaration {
        var_id: String,
        struct_id: String,
        is_mut: bool,
        fields: Vec<(FieldDefinition, AnnotatedNode)>,
        is_used: bool,
        init_value_unused: bool,
    },
    StructFieldAssignment {
        var_id: String,
        field_id: String,
        op: AssignmentOpType,
        expr: Box<AnnotatedNode>,
    },
    StructFieldId { var_id: String, field_id: String },
}

/// A variable counts as used when it is read or written (taking a reference to it reads it).
pub open spec fn used(v: VarData) -> bool {
    v.usages@.len() > 0
}

/// The kinds of a list of references.
pub open spec fn kinds(rs: Seq<Reference>) -> Seq<ReferenceType> {
    rs.map_values(|r: Reference| r.kind())
}

/// The first `n` elements, or all of them when there are fewer.
pub open spec fn truncated<T>(s: Seq<T>, n: int) -> Seq<T> {
    if s.len() > n {
        s.take(n)
    } else {
        s
    }
}

/// The references a dereference through reference `r` passes on `line`.
pub open spec fn chain_of(ctx: AnalysisContext, r: Reference, line: int) -> Seq<Reference> {
    seq![r] + ctx.ref_walk(ctx.next_ref(r.ref_to_id(), line, true), line, ctx.references@.len())
}

/// The kinds of the references the variable holds, first taken first.
pub open spec fn held_kinds(ctx: AnalysisContext, v: VarData) -> Seq<ReferenceType> {
    v.points_to@.map_values(|i: usize| ctx.references@[i as int].kind())
}

/// Some variable holds a reference that became an `Rc` clone.
pub open spec fn uses_rc(ctx: AnalysisContext) -> bool {
    exists|i: int, k: int|
        0 <= i < ctx.variables@.len() && 0 <= k < ctx.variables@[i].1.points_to@.len()
            && #[trigger] ctx.references@[ctx.variables@[i].1.points_to@[k] as int].kind()
            == ReferenceType::RcRefClone
}

/// The import line the program needs.
pub open spec fn rc_import() -> Seq<char> {
    "use std::{cell::RefCell, rc::Rc};"@
}

/// The pointer kinds of a struct field, as the variable that holds the field of one
/// instance shows them: the references its first reference leads through, on the line it
/// was taken, as many as the field declares.
pub open spec fn instance_kinds(ctx: AnalysisContext, v: VarData, declared: Seq<ReferenceType>) -> Seq<
    ReferenceType,
> {
    if declared.len() == 0 || v.points_to@.len() == 0 || v.points_to@[0] >= ctx.references@.len() {
        declared
    } else {
        let r = ctx.references@[v.points_to@[0] as int];
        truncated(kinds(chain_of(ctx, r, r.start_line() as int)), declared.len() as int)
    }
}

/// The position of the first variable that holds field `field` of an instance of struct
/// `struct_id`, or -1.
pub open spec fn first_instance(
    vars: Seq<(String, VarData)>,
    struct_id: Seq<char>,
    field: Seq<char>,
) -> int
    decreases vars.len(),
{
    if vars.len() == 0 {
        -1
    } else if vars[0].1.fieldof_struct matches Some(info) && info.struct_id@ == struct_id
        && info.field_id@ == field {
        0
    } else {
        let r = first_instance(vars.drop_first(), struct_id, field);
        if r < 0 {
            -1
        } else {
            r + 1
        }
    }
}

/// The pointer kinds of a field in the definition of struct `struct_id`: those of the first
/// instance's field, or the declared ones when there is none.
pub open spec fn definition_kinds(ctx: AnalysisContext, struct_id: Seq<char>, f: FieldDefinition) -> Seq<
    ReferenceType,
> {
    let k = first_instance(ctx.variables@, struct_id, f.id@);
    if f.ptr_type@.len() == 0 || k < 0 {
        f.ptr_type@
    } else {
        instance_kinds(ctx, ctx.variables@[k].1, f.ptr_type@)
    }
}

/// The pointer kinds of field `f` of the struct variable `var`.
pub open spec fn declaration_kinds(ctx: AnalysisContext, var: Seq<char>, f: FieldDefinition) -> Seq<
    ReferenceType,
> {
    let name = field_var_name(var, f.id@);
    if ctx.has_var(name) {
        instance_kinds(ctx, ctx.var(name), f.ptr_type@)
    } else {
        f.ptr_type@
    }
}

/// `a` is the field `f` with the given pointer kinds.
pub open spec fn field_with(a: FieldDefinition, f: FieldDefinition, k: Seq<ReferenceType>) -> bool {
    a.id == f.id && a.c_type == f.c_type && a.ptr_type@ == k
}

/// `a` is the annotation of the node `n` in the analysis `ctx`.
pub open spec fn annotates(ctx: AnalysisContext, n: TokenNode, a: AnnotatedNode) -> bool
    decreases n, 2nat,
{
    &&& token_annotation(ctx, n, a.token)
    &&& match n.children {
        Some(c) => {
            &&& annotates_seq(ctx, c@, a.children@)
            &&& a.token matches AnnotatedNodeT::ArrayDeclaration { items, .. } ==> annotates_seq(
                ctx,
                c@,
                items@,
            )
        },
        None => {
            &&& a.children@.len() == 0
            &&& a.token matches AnnotatedNodeT::ArrayDeclaration { items, .. } ==> items@.len() == 0
        },
    }
}

pub open spec fn annotates_seq(ctx: AnalysisContext, ns: Seq<TokenNode>, as_: Seq<AnnotatedNode>) -> bool
    decreases ns, 0nat,
{
    &&& ns.len() == as_.len()
    &&& ns.len() > 0 ==> {
        &&& annotates_seq(ctx, ns.drop_last(), as_.drop_last())
        &&& annotates(ctx, ns.last(), as_.last())
    }
}

/// Every declaration, of a value or of a pointer, is annotated with whether its variable is
/// mutable and whether it is shared through `Rc`, as the analysis found it.
pub proof fn lemma_declarations_carry_mutability(ctx: AnalysisContext, n: TokenNode, a: AnnotatedNode)
    requires
        annotates(ctx, n, a),
    ensures
        n.token matches NodeType::Declaration(id, _, _) ==> (a.token matches AnnotatedNodeT::Declaration {
            is_mut,
            rc,
            ..
        } && is_mut == ctx.var(id@).is_mut && rc == ctx.var(id@).rc),
        n.token matches NodeType::PtrDeclaration(id, _, _) ==> (a.token matches AnnotatedNodeT::PtrDeclaration {
            is_mut,
            rc,
            ..
        } && is_mut == ctx.var(id@).is_mut && rc == ctx.var(id@).rc),
{
}

/// The annotation of one node's own token; the expressions a node holds outside its
/// children are annotated too.
pub open spec fn token_annotation(ctx: AnalysisContext, n: TokenNode, t: AnnotatedNodeT) -> bool
    decreases n, 1nat,
{
    match n.token {
        NodeType::Declaration(id, c_type, _) => {
            let v = ctx.var(id@);
            &&& ctx.has_var(id@)
            &&& t == AnnotatedNodeT::Declaration {
                id,
                is_mut: v.is_mut,
                t: c_type,
                rc: v.rc,
                is_used: used(v),
                init_value_unused: v.init_value_unused,
            }
        },
        NodeType::PtrDeclaration(id, c_type, adr) => {
            let v = ctx.var(id@);
            &&& ctx.has_var(id@)
            &&& v.points_to@.len() > 0
            &&& t matches AnnotatedNodeT::PtrDeclaration {
                id: i,
                is_mut,
                points_to,
                t: tt,
                adr: aa,
                ref_type,
                rc,
                is_used,
                init_value_unused,
            } && i == id && is_mut == v.is_mut && points_to@ == held_kinds(ctx, v) && tt == c_type
                && annotates(ctx, *adr, *aa) && ref_type@ == kinds(
                chain_of(ctx, ctx.references@[v.points_to@[0] as int], n.line as int),
            ) && rc == v.rc && is_used == used(v) && init_value_unused == v.init_value_unused
        },
        NodeType::Adr(id) => t == AnnotatedNodeT::Adr { id },
        NodeType::DerefAssignment(op, l_side) => {
            let ids = spec_find_ids(*l_side);
            let v = ctx.var(ids[0]);
            let f = first_ref_at_line(v.points_to@, ctx.references@, n.line as int);
            &&& ids.len() >= 1
            &&& ctx.has_var(ids[0])
            &&& spec_count_derefs(*l_side) <= u8::MAX
            &&& f >= 0
            &&& t matches AnnotatedNodeT::DerefAssignment { op: o, id, rc, ref_types } && o == op && id@
                == ids[0] && rc == v.rc && ref_types@ == truncated(
                kinds(chain_of(ctx, ctx.references@[v.points_to@[f] as int], n.line as int)),
                spec_count_derefs(*l_side) as int,
            )
        },
        NodeType::DeRef(expr) => {
            let ids = spec_find_ids(*expr);
            let v = ctx.var(ids[0]);
            let f = first_ref_at_line(v.points_to@, ctx.references@, n.line as int);
            let sub = ctx.references@[v.points_to@[f] as int].ref_to_id();
            &&& ids.len() >= 1
            &&& ctx.has_var(ids[0])
            &&& spec_count_derefs(*expr) < u8::MAX
            &&& f >= 0
            &&& t matches AnnotatedNodeT::DeRef { id, rc, count } && id@ == ids[0] && rc == ctx.var(
                sub,
            ).rc && count == spec_count_derefs(*expr) + 1
        },
        NodeType::Id(id) => ctx.has_var(id@) && t == AnnotatedNodeT::Id { id, rc: ctx.var(id@).rc },
        NodeType::Program => t matches AnnotatedNodeT::Program { imports } && if uses_rc(ctx) {
            imports@.len() == 1 && imports@[0]@ == rc_import()
        } else {
            imports@.len() == 0
        },
        NodeType::Assignment(op, id) => ctx.has_var(id@) && t == AnnotatedNodeT::Assignment {
            op,
            id,
            rc: ctx.var(id@).rc,
        },
        NodeType::StructDefinition { struct_id, .. } => {
            let defs = ctx.struct_of(struct_id@).field_definitions@;
            &&& ctx.has_struct(struct_id@)
            &&& t matches AnnotatedNodeT::StructDefinition { struct_id: s, field_definitions, has_ref }
                && s == struct_id && field_definitions@.len() == defs.len() && (forall|i: int|
                0 <= i < defs.len() ==> field_with(
                    #[trigger] field_definitions@[i],
                    defs[i],
                    definition_kinds(ctx, struct_id@, defs[i]),
                )) && has_ref == (exists|i: int|
                0 <= i < defs.len() && #[trigger] field_definitions@[i].ptr_type@.len() > 0)
        },
        NodeType::StructDeclaration { var_id, struct_id, exprs } => {
            let v = ctx.var(var_id@);
            let defs = ctx.struct_of(struct_id@).field_definitions@;
            &&& ctx.has_var(var_id@)
            &&& ctx.has_struct(struct_id@)
            &&& exprs@.len() == defs.len()
            &&& t matches AnnotatedNodeT::StructDeclaration {
                var_id: vi,
                struct_id: si,
                is_mut,
                fields,
                is_used,
                init_value_unused,
            } && vi == var_id && si == struct_id && is_mut == v.is_mut && is_used == used(v)
                && init_value_unused == v.init_value_unused && fields@.len() == defs.len()
                && annotates_fields(ctx, var_id@, defs, exprs@, fields@)
        },
        NodeType::ArrayDeclaration(id, c_type, count) => {
            let v = ctx.var(id@);
            &&& ctx.has_var(id@)
            &&& t matches AnnotatedNodeT::ArrayDeclaration {
                id: i,
                t: tt,
                size,
                is_used,
                is_mut,
                items,
                init_value_unused,
            } && i == id && tt == c_type && size == count && is_used == (v.usages@.len() != 0)
                && is_mut == v.is_mut && init_value_unused == v.init_value_unused
        },
        NodeType::StructFieldAssignment { var_id, field_id, assignment_op, expr } => t matches AnnotatedNodeT::StructFieldAssignment {
            var_id: vi,
            field_id: fi,
            op,
            expr: e,
        } && vi == var_id && fi == field_id && op == assignment_op && annotates(ctx, *expr, *e),
        NodeType::Return => n.children matches Some(c) && (c@.len() > 0
            && (t matches AnnotatedNodeT::Return { expr } && annotates(ctx, c@[0], *expr))),
        NodeType::StructFieldId { var_id, field_id } => t == AnnotatedNodeT::StructFieldId {
            var_id,
            field_id,
        },
        NodeType::IndexArray { .. } => false,
        NodeType::IndexArrayAssignment { .. } => false,
        _ => Some(t) == spec_to_annotated(n.token),
    }
}

/// The fields of a struct literal: each field of the struct, with the pointer kinds of this
/// variable's field, and the annotation of the expression given for it.
pub open spec fn annotates_fields(
    ctx: AnalysisContext,
    var: Seq<char>,
    defs: Seq<FieldDefinition>,
    exprs: Seq<TokenNode>,
    fields: Seq<(FieldDefinition, AnnotatedNode)>,
) -> bool
    decreases exprs, 0nat,
{
    &&& fields.len() == exprs.len()
    &&& defs.len() == exprs.len()
    &&& exprs.len() > 0 ==> {
        &&& annotates_fields(ctx, var, defs.drop_last(), exprs.drop_last(), fields.drop_last())
        &&& field_with(fields.last().0, defs.last(), declaration_kinds(ctx, var, defs.last()))
        &&& annotates(ctx, exprs.last(), fields.last().1)
    }
}

/// The kinds of a list of references.
fn reference_kinds(rs: &Vec<Reference>) -> (r: Vec<ReferenceType>)
    ensures
        r@ == kinds(rs@),
{
    let mut r: Vec<ReferenceType> = Vec::new();
    let mut i: usize = 0;
    while i < rs.len()
        invariant
            i <= rs@.len(),
            r@ == kinds(rs@.subrange(0, i as int)),
        decreases rs.len() - i,
    {
        r.push(rs[i].get_reference_type());
        i = i + 1;
        assert(r@ =~= kinds(rs@.subrange(0, i as int)));
    }
    assert(rs@.subrange(0, rs@.len() as int) =~= rs@);
    r
}

/// The kinds of the references a variable holds.
fn held_reference_kinds(ctx: &AnalysisContext, v: &VarData) -> (r: Vec<ReferenceType>)
    requires
        crate::data_model::var_refs_in(*v, ctx.references@.len()),
    ensures
        r@ == held_kinds(*ctx, *v),
{
    let mut r: Vec<ReferenceType> = Vec::new();
    let mut i: usize = 0;
    while i < v.points_to.len()
        invariant
            crate::data_model::var_refs_in(*v, ctx.references@.len()),
            i <= v.points_to@.len(),
            r@ == held_kinds(*ctx, *v).subrange(0, i as int),
        decreases v.points_to.len() - i,
    {
        r.push(ctx.references[v.points_to[i]].get_reference_type());
        i = i + 1;
        assert(r@ =~= held_kinds(*ctx, *v).subrange(0, i as int));
    }
    assert(held_kinds(*ctx, *v).subrange(0, v.points_to@.len() as int) =~= held_kinds(*ctx, *v));
    r
}

/// Some variable holds a reference that became an `Rc` clone.
fn any_rc(ctx: &AnalysisContext) -> (b: bool)
    requires
        ctx.wf(),
        ctx.targets_declared(),
    ensures
        b == uses_rc(*ctx),
{
    let mut i: usize = 0;
    while i < ctx.variables.len()
        invariant
            ctx.wf(),
            ctx.targets_declared(),
            i <= ctx.variables@.len(),
            forall|a: int, k: int|
                0 <= a < i && 0 <= k < ctx.variables@[a].1.points_to@.len() ==> #[trigger] ctx.references@[ctx.variables@[a].1.points_to@[k] as int].kind()
                    != ReferenceType::RcRefClone,
        decreases ctx.variables.len() - i,
    {
        let v = &ctx.variables[i].1;
        proof {
            assert(crate::data_model::var_refs_in(ctx.variables@[i as int].1, ctx.references@.len()));
        }
        let mut k: usize = 0;
        while k < v.points_to.len()
            invariant
                ctx.wf(),
                ctx.targets_declared(),
                i < ctx.variables@.len(),
                *v == ctx.variables@[i as int].1,
                crate::data_model::var_refs_in(*v, ctx.references@.len()),
                k <= v.points_to@.len(),
                forall|q: int| 0 <= q < k ==> #[trigger] ctx.references@[v.points_to@[q] as int].kind()
                    != ReferenceType::RcRefClone,
            decreases v.points_to.len() - k,
        {
            if ctx.references[v.points_to[k]].get_reference_type() == ReferenceType::RcRefClone {
                return true;
            }
            k = k + 1;
        }
        i = i + 1;
    }
    false
}

/// The pointer kinds of an instance's field; see `instance_kinds`.
fn instance_field_kinds(ctx: &AnalysisContext, v: &VarData, declared: &Vec<ReferenceType>) -> (r: Vec<
    ReferenceType,
>)
    requires
        ctx.wf(),
        ctx.targets_declared(),
    ensures
        r@ == instance_kinds(*ctx, *v, declared@),
{
    if declared.len() == 0 || v.points_to.len() == 0 || v.points_to[0] >= ctx.references.len() {
        return declared.clone();
    }
    let r = &ctx.references[v.points_to[0]];
    proof {
        assert(crate::analysis_ctx::has_key(ctx.variables@, ctx.references@[v.points_to@[0] as int].ref_to_id()));
    }
    let chain = r.construct_reference_chain(ctx, r.get_range().start);
    let mut k = reference_kinds(&chain);
    k.truncate(declared.len());
    proof {
        assert(k@ =~= truncated(kinds(chain@), declared@.len() as int));
    }
    k
}

/// The position of the first variable that holds the given field of an instance.
fn find_instance(ctx: &AnalysisContext, struct_id: &String, field: &String) -> (r: Option<usize>)
    ensures
        r matches Some(i) ==> i == first_instance(ctx.variables@, struct_id@, field@) && i
            < ctx.variables@.len(),
        r is None <==> first_instance(ctx.variables@, struct_id@, field@) < 0,
{
    let ghost vars = ctx.variables@;
    assert(vars.subrange(0, vars.len() as int) =~= vars);
    let mut i: usize = 0;
    while i < ctx.variables.len()
        invariant
            vars == ctx.variables@,
            i <= vars.len(),
            first_instance(vars, struct_id@, field@) == if first_instance(
                vars.subrange(i as int, vars.len() as int),
                struct_id@,
                field@,
            ) < 0 {
                -1
            } else {
                first_instance(vars.subrange(i as int, vars.len() as int), struct_id@, field@) + i
            },
        decreases ctx.variables.len() - i,
    {
        let ghost rest = vars.subrange(i as int, vars.len() as int);
        proof {
            assert(rest.drop_first() =~= vars.subrange(i + 1, vars.len() as int));
            assert(rest[0] == vars[i as int]);
        }
        match &ctx.variables[i].1.fieldof_struct {
            Some(info) => {
                if info.struct_id == *struct_id && info.field_id == *field {
                    return Some(i);
                }
            },
            None => {},
        }
        i = i + 1;
    }
    None
}

/// The fields of the definition of `struct_id`, with the pointer kinds of its first instance.
fn definition_fields(ctx: &AnalysisContext, struct_id: &String) -> (r: Vec<FieldDefinition>)
    requires
        ctx.wf(),
        ctx.targets_declared(),
        ctx.has_struct(struct_id@),
    ensures
        r@.len() == ctx.struct_of(struct_id@).field_definitions@.len(),
        forall|i: int|
            0 <= i < r@.len() ==> field_with(
                #[trigger] r@[i],
                ctx.struct_of(struct_id@).field_definitions@[i],
                definition_kinds(*ctx, struct_id@, ctx.struct_of(struct_id@).field_definitions@[i]),
            ),
{
    let defs = &ctx.get_struct(struct_id.as_str()).field_definitions;
    let mut r: Vec<FieldDefinition> = Vec::new();
    let mut i: usize = 0;
    while i < defs.len()
        invariant
            ctx.wf(),
            ctx.targets_declared(),
            *defs == ctx.struct_of(struct_id@).field_definitions,
            i <= defs@.len(),
            r@.len() == i,
            forall|q: int|
                0 <= q < i ==> field_with(
                    #[trigger] r@[q],
                    defs@[q],
                    definition_kinds(*ctx, struct_id@, defs@[q]),
                ),
        decreases defs.len() - i,
    {
        let f = &defs[i];
        let k = if f.ptr_type.len() == 0 {
            f.ptr_type.clone()
        } else {
            match find_instance(ctx, struct_id, &f.id) {
                Some(j) => instance_field_kinds(ctx, &ctx.variables[j].1, &f.ptr_type),
                None => f.ptr_type.clone(),
            }
        };
        r.push(FieldDefinition { id: f.id.clone(), c_type: f.c_type.duplicate(), ptr_type: k });
        i = i + 1;
    }
    r
}

pub(crate) proof fn lemma_annotates_seq_index(ctx: AnalysisContext, ns: Seq<TokenNode>, as_: Seq<AnnotatedNode>, i: int)
    requires
        annotates_seq(ctx, ns, as_),
        0 <= i < ns.len(),
    ensures
        annotates(ctx, ns[i], as_[i]),
    decreases ns.len(),
{
    if i < ns.len() - 1 {
        lemma_annotates_seq_index(ctx, ns.drop_last(), as_.drop_last(), i);
        assert(ns.drop_last()[i] == ns[i]);
        assert(as_.drop_last()[i] == as_[i]);
    }
}

/// Annotates the children of `parent`, in order.
fn annotate_all(ctx: &AnalysisContext, parent: &TokenNode, ns: &Vec<TokenNode>) -> (r: Result<
    Vec<AnnotatedNode>,
    AnalysisErr,
>)
    requires
        ctx.wf(),
        ctx.targets_declared(),
        parent.children == Some(*ns),
    ensures
        r matches Ok(v) ==> annotates_seq(*ctx, ns@, v@),
        r is Err ==> forall|v: Seq<AnnotatedNode>| !annotates_seq(*ctx, ns@, v),
    decreases parent, 0nat,
{
    let mut out: Vec<AnnotatedNode> = Vec::new();
    let mut i: usize = 0;
    while i < ns.len()
        invariant
            ctx.wf(),
            ctx.targets_declared(),
            parent.children == Some(*ns),
            i <= ns@.len(),
            annotates_seq(*ctx, ns@.subrange(0, i as int), out@),
        decreases ns.len() - i,
    {
        proof {
            crate::analyzer::lemma_child_smaller(*parent, i as int);
        }
        match ns[i].annotate(ctx) {
            Ok(a) => {
                let ghost before = out@;
                out.push(a);
                proof {
                    let s = ns@.subrange(0, i + 1);
                    assert(s.drop_last() =~= ns@.subrange(0, i as int));
                    assert(out@.drop_last() =~= before);
                }
            },
            Err(e) => {
                proof {
                    assert forall|v: Seq<AnnotatedNode>| !annotates_seq(*ctx, ns@, v) by {
                        if annotates_seq(*ctx, ns@, v) {
                            lemma_annotates_seq_index(*ctx, ns@, v, i as int);
                        }
                    }
                }
                return Err(e);
            },
        }
        i = i + 1;
    }
    assert(ns@.subrange(0, ns@.len() as int) =~= ns@);
    Ok(out)
}

impl TokenNode {
    /// Annotates the tree with what the analysis found out about its variables: whether each
    /// is mutable, used, shared through `Rc`, and which kinds of reference each pointer
    /// holds and each dereference passes. Fails where the tree names a variable or struct the
    /// analysis does not know, or a construct the translation does not handle.
    pub fn annotate(&self, ctx: &AnalysisContext) -> (r: Result<AnnotatedNode, AnalysisErr>)
        requires
            ctx.wf(),
            ctx.targets_declared(),
        ensures
            r matches Ok(a) ==> annotates(*ctx, *self, a),
            r is Err ==> forall|a: AnnotatedNode| !annotates(*ctx, *self, a),
        decreases self, 2nat,
    {
        let token = match self.annotate_token(ctx) {
            Ok(t) => t,
            Err(e) => {
                proof {
                    assert forall|a: AnnotatedNode| !annotates(*ctx, *self, a) by {
                        if annotates(*ctx, *self, a) {
                            assert(token_annotation(*ctx, *self, a.token));
                        }
                    }
                }
                return Err(e);
            },
        };
        let children = match &self.children {
            Some(c) => match annotate_all(ctx, self, c) {
                Ok(v) => v,
                Err(e) => {
                    proof {
                        assert forall|a: AnnotatedNode| !annotates(*ctx, *self, a) by {
                            if annotates(*ctx, *self, a) {
                                assert(annotates_seq(*ctx, c@, a.children@));
                            }
                        }
                    }
                    return Err(e);
                },
            },
            None => Vec::new(),
        };
        let token = match token {
            AnnotatedNodeT::ArrayDeclaration { id, t, size, is_used, is_mut, items: _, init_value_unused } => {
                let items = match &self.children {
                    Some(c) => match annotate_all(ctx, self, c) {
                        Ok(v) => v,
                        Err(e) => {
                            proof {
                                assert forall|a: AnnotatedNode| !annotates(*ctx, *self, a) by {
                                    if annotates(*ctx, *self, a) {
                                        assert(annotates_seq(*ctx, c@, a.children@));
                                    }
                                }
                            }
                            return Err(e);
                        },
                    },
                    None => Vec::new(),
                };
                AnnotatedNodeT::ArrayDeclaration { id, t, size, is_used, is_mut, items, init_value_unused }
            },
            t => t,
        };
        Ok(AnnotatedNode { token, children })
    }

    /// The annotation of this node's own token.
    fn annotate_token(&self, ctx: &AnalysisContext) -> (r: Result<AnnotatedNodeT, AnalysisErr>)
        requires
            ctx.wf(),
            ctx.targets_declared(),
        ensures
            r matches Ok(t) ==> token_annotation(*ctx, *self, t),
            r is Err ==> forall|t: AnnotatedNodeT| !token_annotation(*ctx, *self, t),
        decreases self, 1nat,
    {
        proof {
            assert(decreases_to!(self => self.token));
        }
        match &self.token {
            NodeType::Declaration(id, t, _) => {
                if !ctx.has_variable(id.as_str()) {
                    return Err(AnalysisErr::UndeclaredVariable);
                }
                let v = ctx.get_var(id.as_str());
                Ok(AnnotatedNodeT::Declaration {
                    id: id.clone(),
                    is_mut: v.is_mut,
                    t: t.duplicate(),
                    rc: v.rc,
                    is_used: v.usages.len() > 0,
                    init_value_unused: v.init_value_unused,
                })
            },
            NodeType::PtrDeclaration(..) => self.annotate_ptr_declaration(ctx),
            NodeType::Adr(id) => Ok(AnnotatedNodeT::Adr { id: id.clone() }),
            NodeType::DerefAssignment(..) => self.annotate_deref_assignment(ctx),
            NodeType::DeRef(..) => self.annotate_deref(ctx),
            NodeType::Id(id) => {
                if !ctx.has_variable(id.as_str()) {
                    return Err(AnalysisErr::UndeclaredVariable);
                }
                Ok(AnnotatedNodeT::Id { id: id.clone(), rc: ctx.get_var(id.as_str()).rc })
            },
            NodeType::Program => {
                let mut imports: Vec<String> = Vec::new();
                if any_rc(ctx) {
                    imports.push(String::from_str("use std::{cell::RefCell, rc::Rc};"));
                }
                Ok(AnnotatedNodeT::Program { imports })
            },
            NodeType::Assignment(op, id) => {
                if !ctx.has_variable(id.as_str()) {
                    return Err(AnalysisErr::UndeclaredVariable);
                }
                Ok(AnnotatedNodeT::Assignment { op: *op, id: id.clone(), rc: ctx.get_var(id.as_str()).rc })
            },
            NodeType::StructDefinition { .. } => self.annotate_struct_definition(ctx),
            NodeType::StructDeclaration { .. } => self.annotate_struct_declaration(ctx),
            NodeType::ArrayDeclaration(id, t, count) => {
                if !ctx.has_variable(id.as_str()) {
                    return Err(AnalysisErr::UndeclaredVariable);
                }
                let v = ctx.get_var(id.as_str());
                Ok(AnnotatedNodeT::ArrayDeclaration {
                    id: id.clone(),
                    t: t.duplicate(),
                    size: *count,
                    is_used: v.usages.len() != 0,
                    is_mut: v.is_mut,
                    items: Vec::new(),
                    init_value_unused: v.init_value_unused,
                })
            },
            NodeType::StructFieldAssignment { var_id, field_id, assignment_op, expr } => {
                let e = match expr.annotate(ctx) {
                    Ok(a) => a,
                    Err(err) => {
                        proof {
                            assert forall|t: AnnotatedNodeT| !token_annotation(*ctx, *self, t) by {
                                if token_annotation(*ctx, *self, t) {
                                    let ee = t->StructFieldAssignment_expr;
                                    assert(annotates(*ctx, **expr, *ee));
                                }
                            }
                        }
                        return Err(err);
                    },
                };
                Ok(AnnotatedNodeT::StructFieldAssignment {
                    var_id: var_id.clone(),
                    field_id: field_id.clone(),
                    op: *assignment_op,
                    expr: Box::new(e),
                })
            },
            NodeType::Return => self.annotate_return(ctx),
            NodeType::StructFieldId { var_id, field_id } => Ok(
                AnnotatedNodeT::StructFieldId { var_id: var_id.clone(), field_id: field_id.clone() },
            ),
            NodeType::IndexArray { .. } => Err(AnalysisErr::Unsupported),
            NodeType::IndexArrayAssignment { .. } => Err(AnalysisErr::Unsupported),
            _ => Ok(self.token.to_annotated_node()),
        }
    }

    fn annotate_ptr_declaration(&self, ctx: &AnalysisContext) -> (r: Result<AnnotatedNodeT, AnalysisErr>)
        requires
            ctx.wf(),
            ctx.targets_declared(),
            self.token is PtrDeclaration,
        ensures
            r matches Ok(t) ==> token_annotation(*ctx, *self, t),
            r is Err ==> forall|t: AnnotatedNodeT| !token_annotation(*ctx, *self, t),
        decreases self, 0nat,
    {
        proof {
            assert(decreases_to!(self => self.token));
        }
        match &self.token {
            NodeType::PtrDeclaration(id, t, adr) => {
        if !ctx.has_variable(id.as_str()) {
            return Err(AnalysisErr::UndeclaredVariable);
        }
        let v = ctx.get_var(id.as_str());
        if v.points_to.len() == 0 {
            return Err(AnalysisErr::NotAPointer);
        }
        let annotated_adr = match adr.annotate(ctx) {
            Ok(a) => a,
            Err(e) => {
                proof {
                    assert forall|t: AnnotatedNodeT| !token_annotation(*ctx, *self, t) by {
                        if token_annotation(*ctx, *self, t) {
                            let aa = t->PtrDeclaration_adr;
                            assert(annotates(*ctx, **adr, *aa));
                        }
                    }
                }
                return Err(e);
            },
        };
        proof {
            lemma_var_refs(*ctx, id@);
        }
        let points_to = held_reference_kinds(ctx, v);
        let reference = &ctx.references[v.points_to[0]];
        proof {
            assert(crate::analysis_ctx::has_key(ctx.variables@, reference.ref_to_id()));
        }
        let chain = reference.construct_reference_chain(ctx, self.line);
        let ref_type = reference_kinds(&chain);
        Ok(AnnotatedNodeT::PtrDeclaration {
            id: id.clone(),
            is_mut: v.is_mut,
            points_to,
            t: t.duplicate(),
            adr: Box::new(annotated_adr),
            ref_type,
            rc: v.rc,
            is_used: v.usages.len() > 0,
            init_value_unused: v.init_value_unused,
        })
            },
            _ => Err(AnalysisErr::Unsupported),
        }
    }

    fn annotate_deref_assignment(&self, ctx: &AnalysisContext) -> (r: Result<AnnotatedNodeT, AnalysisErr>)
        requires
            ctx.wf(),
            ctx.targets_declared(),
            self.token is DerefAssignment,
        ensures
            r matches Ok(t) ==> token_annotation(*ctx, *self, t),
            r is Err ==> forall|t: AnnotatedNodeT| !token_annotation(*ctx, *self, t),
        decreases self, 0nat,
    {
        proof {
            assert(decreases_to!(self => self.token));
        }
        match &self.token {
            NodeType::DerefAssignment(op, adr) => {
        let count = match count_derefs_bounded(adr) {
            Some(c) => c,
            None => {
                return Err(AnalysisErr::DerefDepth);
            },
        };
        let ids = find_ids(adr);
        if ids.len() == 0 {
            return Err(AnalysisErr::DerefTarget);
        }
        proof {
            assert(crate::analysis_ctx::ids_view(ids@)[0] == ids@[0]@);
        }
        let derefed_id = ids[0].clone();
        if !ctx.has_variable(derefed_id.as_str()) {
            return Err(AnalysisErr::UndeclaredVariable);
        }
        let v = ctx.get_var(derefed_id.as_str());
        proof {
            lemma_var_refs(*ctx, derefed_id@);
        }
        let reference = match v.reference_at_line(&ctx.references, self.line) {
            Some(r) => r,
            None => {
                return Err(AnalysisErr::NotAPointer);
            },
        };
        proof {
            crate::data_model::lemma_first_ref_at_line_bounds(
                v.points_to@,
                ctx.references@,
                self.line as int,
            );
            assert(crate::analysis_ctx::has_key(
                ctx.variables@,
                ctx.references@[reference as int].ref_to_id(),
            ));
        }
        let chain = ctx.references[reference].construct_reference_chain(ctx, self.line);
        let mut ref_types = reference_kinds(&chain);
        ref_types.truncate(count as usize);
        proof {
            assert(ref_types@ =~= truncated(kinds(chain@), count as int));
        }
        Ok(AnnotatedNodeT::DerefAssignment { op: *op, id: derefed_id, rc: v.rc, ref_types })
            },
            _ => Err(AnalysisErr::Unsupported),
        }
    }

    fn annotate_deref(&self, ctx: &AnalysisContext) -> (r: Result<AnnotatedNodeT, AnalysisErr>)
        requires
            ctx.wf(),
            ctx.targets_declared(),
            self.token is DeRef,
        ensures
            r matches Ok(t) ==> token_annotation(*ctx, *self, t),
            r is Err ==> forall|t: AnnotatedNodeT| !token_annotation(*ctx, *self, t),
        decreases self, 0nat,
    {
        proof {
            assert(decreases_to!(self => self.token));
        }
        match &self.token {
            NodeType::DeRef(expr) => {
        let count = match count_derefs_bounded(expr) {
            Some(c) => {
                if c == u8::MAX {
                    return Err(AnalysisErr::DerefDepth);
                }
                c + 1
            },
            None => {
                return Err(AnalysisErr::DerefDepth);
            },
        };
        let ids = find_ids(expr);
        if ids.len() == 0 {
            return Err(AnalysisErr::DerefTarget);
        }
        proof {
            assert(crate::analysis_ctx::ids_view(ids@)[0] == ids@[0]@);
        }
        let derefed_id = ids[0].clone();
        if !ctx.has_variable(derefed_id.as_str()) {
            return Err(AnalysisErr::UndeclaredVariable);
        }
        let v = ctx.get_var(derefed_id.as_str());
        proof {
            lemma_var_refs(*ctx, derefed_id@);
        }
        let reference = match v.reference_at_line(&ctx.references, self.line) {
            Some(r) => r,
            None => {
                return Err(AnalysisErr::NotAPointer);
            },
        };
        proof {
            crate::data_model::lemma_first_ref_at_line_bounds(
                v.points_to@,
                ctx.references@,
                self.line as int,
            );
            assert(crate::analysis_ctx::has_key(
                ctx.variables@,
                ctx.references@[reference as int].ref_to_id(),
            ));
        }
        let sub_id = ctx.references[reference].get_reference_to();
        let rc = ctx.get_var(sub_id).rc;
        Ok(AnnotatedNodeT::DeRef { id: derefed_id, rc, count })
            },
            _ => Err(AnalysisErr::Unsupported),
        }
    }

    fn annotate_struct_definition(&self, ctx: &AnalysisContext) -> (r: Result<AnnotatedNodeT, AnalysisErr>)
        requires
            ctx.wf(),
            ctx.targets_declared(),
            self.token is StructDefinition,
        ensures
            r matches Ok(t) ==> token_annotation(*ctx, *self, t),
            r is Err ==> forall|t: AnnotatedNodeT| !token_annotation(*ctx, *self, t),
        decreases self, 0nat,
    {
        proof {
            assert(decreases_to!(self => self.token));
        }
        match &self.token {
            NodeType::StructDefinition { struct_id, .. } => {
        if !ctx.has_struct_named(struct_id.as_str()) {
            return Err(AnalysisErr::UndefinedStruct);
        }
        let field_definitions = definition_fields(ctx, struct_id);
        let mut has_ref = false;
        let mut i: usize = 0;
        while i < field_definitions.len()
            invariant
                i <= field_definitions@.len(),
                has_ref == exists|q: int|
                    0 <= q < i && #[trigger] field_definitions@[q].ptr_type@.len() > 0,
            decreases field_definitions.len() - i,
        {
            if field_definitions[i].ptr_type.len() > 0 {
                has_ref = true;
            }
            i = i + 1;
        }
        Ok(AnnotatedNodeT::StructDefinition {
            struct_id: struct_id.clone(),
            field_definitions,
            has_ref,
        })
            },
            _ => Err(AnalysisErr::Unsupported),
        }
    }

    fn annotate_struct_declaration(&self, ctx: &AnalysisContext) -> (r: Result<AnnotatedNodeT, AnalysisErr>)
        requires
            ctx.wf(),
            ctx.targets_declared(),
            self.token is StructDeclaration,
        ensures
            r matches Ok(t) ==> token_annotation(*ctx, *self, t),
            r is Err ==> forall|t: AnnotatedNodeT| !token_annotation(*ctx, *self, t),
        decreases self, 0nat,
    {
        proof {
            assert(decreases_to!(self => self.token));
        }
        match &self.token {
            NodeType::StructDeclaration { var_id, struct_id, exprs } => {
        if !ctx.has_variable(var_id.as_str()) {
            return Err(AnalysisErr::UndeclaredVariable);
        }
        if !ctx.has_struct_named(struct_id.as_str()) {
            return Err(AnalysisErr::UndefinedStruct);
        }
        let defs = &ctx.get_struct(struct_id.as_str()).field_definitions;
        if exprs.len() != defs.len() {
            return Err(AnalysisErr::FieldCountMismatch);
        }
        let mut fields: Vec<(FieldDefinition, AnnotatedNode)> = Vec::new();
        let mut i: usize = 0;
        while i < defs.len()
            invariant
                ctx.wf(),
                ctx.targets_declared(),
                self.token == (NodeType::StructDeclaration {
                    var_id: *var_id,
                    struct_id: *struct_id,
                    exprs: *exprs,
                }),
                *defs == ctx.struct_of(struct_id@).field_definitions,
                exprs@.len() == defs@.len(),
                i <= defs@.len(),
                annotates_fields(
                    *ctx,
                    var_id@,
                    defs@.subrange(0, i as int),
                    exprs@.subrange(0, i as int),
                    fields@,
                ),
            decreases defs.len() - i,
        {
            let f = &defs[i];
            let name = field_var_id(var_id.as_str(), f.id.as_str());
            let k = if ctx.has_variable(name.as_str()) {
                instance_field_kinds(ctx, ctx.get_var(name.as_str()), &f.ptr_type)
            } else {
                f.ptr_type.clone()
            };
            proof {
                assert(decreases_to!(self => self.token));
                assert(decreases_to!(self.token => self.token->StructDeclaration_exprs));
                assert(decreases_to!(self.token->StructDeclaration_exprs => exprs@));
                assert(decreases_to!(exprs@ => exprs@[i as int]));
            }
            let e = match exprs[i].annotate(ctx) {
                Ok(a) => a,
                Err(err) => {
                    proof {
                        assert forall|t: AnnotatedNodeT| !token_annotation(*ctx, *self, t) by {
                            if token_annotation(*ctx, *self, t) {
                                let fs = t->StructDeclaration_fields@;
                                lemma_annotates_fields_index(
                                    *ctx,
                                    var_id@,
                                    defs@,
                                    exprs@,
                                    fs,
                                    i as int,
                                );
                            }
                        }
                    }
                    return Err(err);
                },
            };
            let ghost before = fields@;
            fields.push(
                (FieldDefinition { id: f.id.clone(), c_type: f.c_type.duplicate(), ptr_type: k }, e),
            );
            proof {
                assert(defs@.subrange(0, i + 1).drop_last() =~= defs@.subrange(0, i as int));
                assert(exprs@.subrange(0, i + 1).drop_last() =~= exprs@.subrange(0, i as int));
                assert(fields@.drop_last() =~= before);
            }
            i = i + 1;
        }
        proof {
            assert(defs@.subrange(0, defs@.len() as int) =~= defs@);
            assert(exprs@.subrange(0, exprs@.len() as int) =~= exprs@);
        }
        let v = ctx.get_var(var_id.as_str());
        Ok(AnnotatedNodeT::StructDeclaration {
            var_id: var_id.clone(),
            struct_id: struct_id.clone(),
            is_mut: v.is_mut,
            fields,
            is_used: v.usages.len() > 0,
            init_value_unused: v.init_value_unused,
        })
            },
            _ => Err(AnalysisErr::Unsupported),
        }
    }

    fn annotate_return(&self, ctx: &AnalysisContext) -> (r: Result<AnnotatedNodeT, AnalysisErr>)
        requires
            ctx.wf(),
            ctx.targets_declared(),
            self.token is Return,
        ensures
            r matches Ok(t) ==> token_annotation(*ctx, *self, t),
            r is Err ==> forall|t: AnnotatedNodeT| !token_annotation(*ctx, *self, t),
        decreases self, 0nat,
    {
        proof {
            assert(decreases_to!(self => self.token));
        }
        match &self.token {
            NodeType::Return => {
        match &self.children {
            Some(c) => {
                if c.len() == 0 {
                    return Err(AnalysisErr::MissingExpression);
                }
                proof {
                    crate::analyzer::lemma_child_smaller(*self, 0);
                }
                let e = match c[0].annotate(ctx) {
                    Ok(a) => a,
                    Err(err) => {
                        proof {
                            assert forall|t: AnnotatedNodeT| !token_annotation(*ctx, *self, t) by {
                                if token_annotation(*ctx, *self, t) {
                                    let ee = t->Return_expr;
                                    assert(annotates(*ctx, c@[0], *ee));
                                }
                            }
                        }
                        return Err(err);
                    },
                };
                Ok(AnnotatedNodeT::Return { expr: Box::new(e) })
            },
            None => Err(AnalysisErr::MissingExpression),
        }
            },
            _ => Err(AnalysisErr::Unsupported),
        }
    }
}

proof fn lemma_var_refs(ctx: AnalysisContext, id: Seq<char>)
    requires
        ctx.wf(),
        ctx.targets_declared(),
        ctx.has_var(id),
    ensures
        crate::data_model::var_refs_in(ctx.var(id), ctx.references@.len()),
{
    let i = crate::analysis_ctx::key_index(ctx.variables@, id);
    crate::analysis_ctx::lemma_key_index(ctx.variables@, i);
    assert(crate::data_model::var_refs_in(ctx.variables@[i].1, ctx.references@.len()));
}

proof fn lemma_annotates_fields_index(
    ctx: AnalysisContext,
    var: Seq<char>,
    defs: Seq<FieldDefinition>,
    exprs: Seq<TokenNode>,
    fields: Seq<(FieldDefinition, AnnotatedNode)>,
    i: int,
)
    requires
        annotates_fields(ctx, var, defs, exprs, fields),
        0 <= i < exprs.len(),
    ensures
        annotates(ctx, exprs[i], fields[i].1),
    decreases exprs.len(),
{
    if i < exprs.len() - 1 {
        lemma_annotates_fields_index(ctx, var, defs.drop_last(), exprs.drop_last(), fields.drop_last(), i);
        assert(exprs.drop_last()[i] == exprs[i]);
        assert(fields.drop_last()[i] == fields[i]);
    }
}

} // verus!
