use vstd::prelude::*;
use crate::analysis_ctx::{has_key, names_unique, AnalysisContext};
use crate::data_model::{
    FieldDefinition, LineNumber, Reference, ReferenceType, StructData, Usage,
    UsageType, VarData,
};
use crate::lexer::CType;

verus! {

/// A variable's data with its lists as sequences.
pub struct VarV {
    pub pointed_to: Seq<usize>,
    pub usages: Seq<Usage>,
    pub var_type: CType,
    pub points_to: Seq<usize>,
    pub rc: bool,
    pub clone: bool,
    pub is_mut: bool,
    pub init_value_unused: bool,
    pub instanceof_struct: Option<String>,
    /// the struct and the field this variable stands for
    pub fieldof_struct: Option<(Seq<char>, Seq<char>)>,
}

pub open spec fn var_view(v: VarData) -> VarV {
    VarV {
        pointed_to: v.pointed_to@,
        usages: v.usages@,
        var_type: v.var_type,
        points_to: v.points_to@,
        rc: v.rc,
        clone: v.clone,
        is_mut: v.is_mut,
        init_value_unused: v.init_value_unused,
        instanceof_struct: v.instanceof_struct,
        fieldof_struct: match v.fieldof_struct {
            Some(f) => Some((f.struct_id@, f.field_id@)),
            None => None,
        },
    }
}

/// The data of a variable as it is declared: no usages, no references, not mutable.
pub open spec fn fresh_var(t: CType, inst: Option<String>, field: Option<(Seq<char>, Seq<char>)>) -> VarV {
    VarV {
        pointed_to: seq![],
        usages: seq![],
        var_type: t,
        points_to: seq![],
        rc: false,
        clone: false,
        is_mut: false,
        init_value_unused: false,
        instanceof_struct: inst,
        fieldof_struct: field,
    }
}

/// A reference with the names it links as character sequences.
pub struct RefV {
    pub kind: ReferenceType,
    pub ref_to: Seq<char>,
    pub borrower: Seq<char>,
    pub start: LineNumber,
    pub end: LineNumber,
}

pub open spec fn ref_view(r: Reference) -> RefV {
    RefV {
        kind: r.kind(),
        ref_to: r.ref_to_id(),
        borrower: r.borrower_id(),
        start: r.start_line(),
        end: r.end_line(),
    }
}

/// A field definition: name, type and the kinds of its references.
pub open spec fn field_view(f: FieldDefinition) -> (Seq<char>, CType, Seq<ReferenceType>) {
    (f.id@, f.c_type, f.ptr_type@)
}

pub open spec fn struct_view(s: StructData) -> Seq<(Seq<char>, CType, Seq<ReferenceType>)> {
    s.field_definitions@.map_values(|f: FieldDefinition| field_view(f))
}

/// The analysis context as sequences: the variables and the structs in order, with their
/// names, and the references taken.
pub struct CtxV {
    pub vars: Seq<(Seq<char>, VarV)>,
    pub structs: Seq<(Seq<char>, Seq<(Seq<char>, CType, Seq<ReferenceType>)>)>,
    pub refs: Seq<RefV>,
}

pub open spec fn ctx_view(c: AnalysisContext) -> CtxV {
    CtxV {
        vars: c.variables@.map_values(|e: (String, VarData)| (e.0@, var_view(e.1))),
        structs: c.structs@.map_values(|e: (String, StructData)| (e.0@, struct_view(e.1))),
        refs: c.references@.map_values(|r: Reference| ref_view(r)),
    }
}

/// Some entry is named `id`.
pub open spec fn named<T>(s: Seq<(Seq<char>, T)>, id: Seq<char>) -> bool {
    exists|i: int| 0 <= i < s.len() && #[trigger] s[i].0 == id
}

/// The position of the entry named `id`.
pub open spec fn pos_of<T>(s: Seq<(Seq<char>, T)>, id: Seq<char>) -> int {
    choose|i: int| 0 <= i < s.len() && #[trigger] s[i].0 == id
}

/// The data of variable `id`.
pub open spec fn var_of(c: CtxV, id: Seq<char>) -> VarV {
    c.vars[pos_of(c.vars, id)].1
}

/// Variable `id` now has data `v`.
pub open spec fn set_var(c: CtxV, id: Seq<char>, v: VarV) -> CtxV {
    CtxV { vars: c.vars.update(pos_of(c.vars, id), (id, v)), ..c }
}

/// Declares `id` with data `v`: in place if it is declared already, otherwise at the end.
pub open spec fn declare(c: CtxV, id: Seq<char>, v: VarV) -> CtxV {
    if named(c.vars, id) {
        set_var(c, id, v)
    } else {
        CtxV { vars: c.vars.push((id, v)), ..c }
    }
}

/// Defines (or redefines) struct `id`.
pub open spec fn define(c: CtxV, id: Seq<char>, fields: Seq<(Seq<char>, CType, Seq<ReferenceType>)>) -> CtxV {
    if named(c.structs, id) {
        CtxV { structs: c.structs.update(pos_of(c.structs, id), (id, fields)), ..c }
    } else {
        CtxV { structs: c.structs.push((id, fields)), ..c }
    }
}

/// A usage of `id` of the given kind on `line`: recorded, and the reference `id` holds last
/// (if any) now ends on `line`.
pub open spec fn with_usage(c: CtxV, id: Seq<char>, line: LineNumber, kind: UsageType) -> CtxV {
    let v = var_of(c, id);
    let refs = if v.points_to.len() > 0 {
        let r = v.points_to.last() as int;
        c.refs.update(r, RefV { end: line, ..c.refs[r] })
    } else {
        c.refs
    };
    CtxV {
        vars: c.vars.update(
            pos_of(c.vars, id),
            (id, VarV { usages: v.usages.push(Usage::spec_new(line, kind)), ..v }),
        ),
        refs,
        ..c
    }
}

/// Variable `id` made mutable or not.
pub open spec fn with_mut(c: CtxV, id: Seq<char>, b: bool) -> CtxV {
    set_var(c, id, VarV { is_mut: b, ..var_of(c, id) })
}

/// Reference `r` of kind `k`.
pub open spec fn with_ref_kind(c: CtxV, r: int, k: ReferenceType) -> CtxV {
    CtxV { refs: c.refs.update(r, RefV { kind: k, ..c.refs[r] }), ..c }
}

/// Reference `r` lasting at least until `line`.
pub open spec fn with_ref_end(c: CtxV, r: int, line: LineNumber) -> CtxV {
    if c.refs[r].end < line {
        CtxV { refs: c.refs.update(r, RefV { end: line, ..c.refs[r] }), ..c }
    } else {
        c
    }
}

/// Reads of each of `ids` on `line`, in order.
pub open spec fn reads(c: CtxV, ids: Seq<Seq<char>>, line: LineNumber) -> CtxV
    decreases ids.len(),
{
    if ids.len() == 0 {
        c
    } else {
        with_usage(reads(c, ids.drop_last(), line), ids.last(), line, UsageType::RValue)
    }
}

/// An assignment to `to` on `line` that reads `rvals`.
pub open spec fn assign(c: CtxV, to: Seq<char>, rvals: Seq<Seq<char>>, line: LineNumber) -> CtxV {
    let c1 = reads(c, rvals, line);
    if named(c1.vars, to) {
        with_usage(with_mut(c1, to, true), to, line, UsageType::LValue)
    } else {
        c1
    }
}

/// `to` (after reading `rvals`) takes a new shared borrow of `borrowed` on `line`.
pub open spec fn ptr_assign(
    c: CtxV,
    borrowed: Seq<char>,
    to: Seq<char>,
    rvals: Seq<Seq<char>>,
    line: LineNumber,
) -> CtxV {
    take_ref(with_usage(with_mut(reads(c, rvals, line), to, true), to, line, UsageType::RValue), borrowed, to, line)
}

/// `to` takes a new shared reference to `borrowed` on `line`: `to` holds it, and
/// `borrowed`, if it is declared, lists it among the references held to it.
pub open spec fn take_ref(c1: CtxV, borrowed: Seq<char>, to: Seq<char>, line: LineNumber) -> CtxV {
    let n = c1.refs.len();
    let c2 = CtxV {
        refs: c1.refs.push(
            RefV { kind: ReferenceType::ConstBorrowed, ref_to: borrowed, borrower: to, start: line, end: line },
        ),
        ..c1
    };
    let vt = var_of(c2, to);
    let c3 = set_var(c2, to, VarV { points_to: vt.points_to.push(n as usize), ..vt });
    if named(c3.vars, borrowed) {
        let vb = var_of(c3, borrowed);
        set_var(c3, borrowed, VarV { pointed_to: vb.pointed_to.push(n as usize), ..vb })
    } else {
        c3
    }
}

/// The last reference `id` holds becomes a mutable borrow (if it holds one).
pub open spec fn held_mut(c: CtxV, id: Seq<char>) -> CtxV {
    let pt = var_of(c, id).points_to;
    if pt.len() > 0 {
        with_ref_kind(c, pt.last() as int, ReferenceType::MutBorrowed)
    } else {
        c
    }
}

/// A write through the pointer chain `[ptr_n, .., ptr_1, value]` on `line`.
pub open spec fn deref_assign(c: CtxV, chain: Seq<Seq<char>>, line: LineNumber) -> CtxV {
    let top = chain[0];
    let c1 = held_mut(with_usage(with_mut(c, top, true), top, line, UsageType::RValue), top);
    deref_rest(c1, chain, 1, line)
}

/// The rest of a write through a pointer chain, from position `j`: each variable becomes
/// mutable and the reference it holds a mutable borrow lasting until `line`.
pub open spec fn deref_rest(c: CtxV, chain: Seq<Seq<char>>, j: int, line: LineNumber) -> CtxV
    decreases chain.len() - j,
{
    if j < 1 || j >= chain.len() {
        c
    } else {
        let c1 = with_mut(c, chain[j], true);
        let pt = var_of(c1, chain[j]).points_to;
        let c2 = if pt.len() > 0 {
            with_ref_end(
                with_ref_kind(c1, pt.last() as int, ReferenceType::MutBorrowed),
                pt.last() as int,
                line,
            )
        } else {
            c1
        };
        deref_rest(c2, chain, j + 1, line)
    }
}

/// With unique names, the entry at `i` is the one found by its name.
pub proof fn lemma_pos_of<T, U>(s: Seq<(String, T)>, v: Seq<(Seq<char>, U)>, i: int)
    requires
        names_unique(s),
        v.len() == s.len(),
        forall|j: int| 0 <= j < s.len() ==> #[trigger] v[j].0 == s[j].0@,
        0 <= i < s.len(),
    ensures
        named(v, s[i].0@),
        pos_of(v, s[i].0@) == i,
{
    assert(v[i].0 == s[i].0@);
    let j = pos_of(v, s[i].0@);
    assert(v[j].0 == s[j].0@);
}

/// A name is in the view exactly when it is in the context.
pub proof fn lemma_named<T, U>(s: Seq<(String, T)>, v: Seq<(Seq<char>, U)>, id: Seq<char>)
    requires
        v.len() == s.len(),
        forall|j: int| 0 <= j < s.len() ==> #[trigger] v[j].0 == s[j].0@,
    ensures
        named(v, id) == has_key(s, id),
{
    if named(v, id) {
        let j = choose|j: int| 0 <= j < v.len() && #[trigger] v[j].0 == id;
        assert(s[j].0@ == id);
    }
    if has_key(s, id) {
        let j = choose|j: int| 0 <= j < s.len() && #[trigger] s[j].0@ == id;
        assert(v[j].0 == id);
    }
}

} // verus!
