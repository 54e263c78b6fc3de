use vstd::prelude::*;
use std::ops::Range;
use crate::lexer::CType;
use crate::model::{fresh_var, var_view};

verus! {

pub type LineNumber = usize;

/// What the analysis knows about one variable.
///
/// References are kept in one list owned by the analysis context; `pointed_to` and
/// `points_to` hold indices into that list.
pub struct VarData {
    // Usage / Block
    /// References held to this variable
    pub pointed_to: Vec<usize>,
    pub usages: Vec<Usage>,
    // General Information
    pub var_type: CType,
    /// References held by this variable
    pub points_to: Vec<usize>,
    pub rc: bool,
    /// Cloned value (generated by sonder)
    pub clone: bool,
    pub is_mut: bool,
    /// The value the variable is declared with is overwritten before it is ever read
    pub init_value_unused: bool,
    // Struct handling
    pub instanceof_struct: Option<String>,
    pub fieldof_struct: Option<FieldInfo>,
}

/// Every reference index the variable holds is an index into a list of `n` references.
pub open spec fn var_refs_in(v: VarData, n: nat) -> bool {
    &&& forall|i: int| 0 <= i < v.points_to@.len() ==> #[trigger] v.points_to@[i] < n
    &&& forall|i: int| 0 <= i < v.pointed_to@.len() ==> #[trigger] v.pointed_to@[i] < n
}

/// The position in `points_to` of the first reference whose range holds `line`.
pub open spec fn first_ref_at_line(points_to: Seq<usize>, refs: Seq<Reference>, line: int) -> int
    decreases points_to.len(),
{
    if points_to.len() == 0 {
        -1
    } else if refs[points_to[0] as int].in_range(line) {
        0
    } else {
        let r = first_ref_at_line(points_to.drop_first(), refs, line);
        if r < 0 {
            -1
        } else {
            r + 1
        }
    }
}

/// The position in `points_to` of the first reference to the variable named `id`.
pub open spec fn first_ref_to(points_to: Seq<usize>, refs: Seq<Reference>, id: Seq<char>) -> int
    decreases points_to.len(),
{
    if points_to.len() == 0 {
        -1
    } else if refs[points_to[0] as int].ref_to_id() == id {
        0
    } else {
        let r = first_ref_to(points_to.drop_first(), refs, id);
        if r < 0 {
            -1
        } else {
            r + 1
        }
    }
}

proof fn lemma_first_ref_at_line(points_to: Seq<usize>, refs: Seq<Reference>, line: int)
    ensures
        -1 <= first_ref_at_line(points_to, refs, line) < points_to.len(),
        first_ref_at_line(points_to, refs, line) >= 0 ==> refs[points_to[first_ref_at_line(
            points_to,
            refs,
            line,
        )] as int].in_range(line),
        forall|k: int|
            0 <= k < points_to.len() && (k < first_ref_at_line(points_to, refs, line)
                || first_ref_at_line(points_to, refs, line) < 0) ==> !refs[#[trigger] points_to[k] as int].in_range(line),
    decreases points_to.len(),
{
    if points_to.len() > 0 {
        lemma_first_ref_at_line(points_to.drop_first(), refs, line);
        assert forall|k: int|
            0 <= k < points_to.len() && (k < first_ref_at_line(points_to, refs, line)
                || first_ref_at_line(points_to, refs, line) < 0) implies !refs[#[trigger] points_to[k] as int].in_range(line) by {
            if k > 0 {
                assert(points_to[k] == points_to.drop_first()[k - 1]);
            }
        }
    }
}

pub proof fn lemma_first_ref_at_line_bounds(points_to: Seq<usize>, refs: Seq<Reference>, line: int)
    ensures
        -1 <= first_ref_at_line(points_to, refs, line) < points_to.len(),
{
    lemma_first_ref_at_line(points_to, refs, line);
}

pub proof fn lemma_first_ref_to(points_to: Seq<usize>, refs: Seq<Reference>, id: Seq<char>)
    ensures
        -1 <= first_ref_to(points_to, refs, id) < points_to.len(),
        first_ref_to(points_to, refs, id) >= 0 ==> refs[points_to[first_ref_to(
            points_to,
            refs,
            id,
        )] as int].ref_to_id() == id,
        forall|k: int|
            0 <= k < points_to.len() && (k < first_ref_to(points_to, refs, id)
                || first_ref_to(points_to, refs, id) < 0) ==> refs[#[trigger] points_to[k] as int].ref_to_id() != id,
    decreases points_to.len(),
{
    if points_to.len() > 0 {
        lemma_first_ref_to(points_to.drop_first(), refs, id);
        assert forall|k: int|
            0 <= k < points_to.len() && (k < first_ref_to(points_to, refs, id)
                || first_ref_to(points_to, refs, id) < 0) implies refs[#[trigger] points_to[k] as int].ref_to_id() != id by {
            if k > 0 {
                assert(points_to[k] == points_to.drop_first()[k - 1]);
            }
        }
    }
}

impl VarData {
    pub fn new(
        var_type: CType,
        clone: bool,
        instanceof_struct: Option<String>,
        fieldof_struct: Option<FieldInfo>,
    ) -> (v: Self)
        ensures
            v.usages@.len() == 0,
            v.points_to@.len() == 0,
            v.pointed_to@.len() == 0,
            v.var_type == var_type,
            v.clone == clone,
            !v.rc,
            !v.is_mut,
            !v.init_value_unused,
            v.instanceof_struct == instanceof_struct,
            v.fieldof_struct == fieldof_struct,
            !clone ==> var_view(v) == fresh_var(
                var_type,
                instanceof_struct,
                match fieldof_struct {
                    Some(f) => Some((f.struct_id@, f.field_id@)),
                    None => None,
                },
            ),
    {
        let v = VarData {
            usages: Vec::new(),
            var_type,
            points_to: Vec::new(),
            pointed_to: Vec::new(),
            rc: false,
            clone,
            is_mut: false,
            init_value_unused: false,
            instanceof_struct,
            fieldof_struct,
        };
        proof {
            assert(v.usages@ =~= seq![]);
            assert(v.points_to@ =~= seq![]);
            assert(v.pointed_to@ =~= seq![]);
        }
        v
    }

    /// Returns the outstanding reference held by this variable: the last one it took.
    pub fn current_reference_held(&self) -> (r: Option<usize>)
        ensures
            self.points_to@.len() == 0 ==> r is None,
            self.points_to@.len() > 0 ==> r == Some(self.points_to@.last()),
    {
        if self.points_to.len() == 0 {
            None
        } else {
            Some(self.points_to[self.points_to.len() - 1])
        }
    }

    /// The first reference held by this variable whose range holds `line`.
    pub fn reference_at_line(&self, refs: &Vec<Reference>, line: LineNumber) -> (r: Option<usize>)
        requires
            var_refs_in(*self, refs@.len()),
        ensures
            r is None <==> first_ref_at_line(self.points_to@, refs@, line as int) < 0,
            r matches Some(i) ==> i == self.points_to@[first_ref_at_line(
                self.points_to@,
                refs@,
                line as int,
            )],
    {
        proof {
            lemma_first_ref_at_line(self.points_to@, refs@, line as int);
        }
        let mut k: usize = 0;
        while k < self.points_to.len()
            invariant
                var_refs_in(*self, refs@.len()),
                k <= self.points_to@.len(),
                forall|q: int| 0 <= q < k ==> !refs@[#[trigger] self.points_to@[q] as int].in_range(
                    line as int,
                ),
            decreases self.points_to.len() - k,
        {
            let idx = self.points_to[k];
            if refs[idx].within_current_range(line) {
                proof {
                    lemma_first_ref_at_line(self.points_to@, refs@, line as int);
                }
                return Some(idx);
            }
            k = k + 1;
        }
        proof {
            lemma_first_ref_at_line(self.points_to@, refs@, line as int);
        }
        None
    }

    /// The first reference held by this variable to the variable named `var_id`.
    pub fn reference_to_var(&self, refs: &Vec<Reference>, var_id: &str) -> (r: Option<usize>)
        requires
            var_refs_in(*self, refs@.len()),
        ensures
            r is None <==> first_ref_to(self.points_to@, refs@, var_id@) < 0,
            r matches Some(i) ==> i == self.points_to@[first_ref_to(
                self.points_to@,
                refs@,
                var_id@,
            )],
    {
        proof {
            lemma_first_ref_to(self.points_to@, refs@, var_id@);
        }
        let mut k: usize = 0;
        while k < self.points_to.len()
            invariant
                var_refs_in(*self, refs@.len()),
                k <= self.points_to@.len(),
                forall|q: int| 0 <= q < k ==> refs@[#[trigger] self.points_to@[q] as int].ref_to_id()
                    != var_id@,
            decreases self.points_to.len() - k,
        {
            let idx = self.points_to[k];
            if refs[idx].refers_to(var_id) {
                proof {
                    lemma_first_ref_to(self.points_to@, refs@, var_id@);
                }
                return Some(idx);
            }
            k = k + 1;
        }
        proof {
            lemma_first_ref_to(self.points_to@, refs@, var_id@);
        }
        None
    }

    /// Records a read of the variable on `line`; the reference the variable holds now
    /// lasts until `line`.
    pub fn new_usage(&mut self, line: LineNumber, refs: &mut Vec<Reference>)
        requires
            var_refs_in(*old(self), old(refs)@.len()),
        ensures
            final(self).usages@ == old(self).usages@.push(Usage::spec_new(line, UsageType::RValue)),
            final(self).points_to == old(self).points_to,
            final(self).pointed_to == old(self).pointed_to,
            final(self).is_mut == old(self).is_mut,
            final(self).rc == old(self).rc,
            final(self).init_value_unused == old(self).init_value_unused,
            final(self).var_type == old(self).var_type,
            final(self).clone == old(self).clone,
            final(self).instanceof_struct == old(self).instanceof_struct,
            final(self).fieldof_struct == old(self).fieldof_struct,
            extends_current(old(self).points_to@, old(refs)@, final(refs)@, line as int),
    {
        self.add_usage(line, UsageType::RValue, refs);
    }

    /// Records a usage of the given kind on `line`; the reference the variable holds now
    /// lasts until `line`.
    pub fn add_usage(&mut self, line: LineNumber, usage_type: UsageType, refs: &mut Vec<Reference>)
        requires
            var_refs_in(*old(self), old(refs)@.len()),
        ensures
            final(self).usages@ == old(self).usages@.push(Usage::spec_new(line, usage_type)),
            final(self).points_to == old(self).points_to,
            final(self).pointed_to == old(self).pointed_to,
            final(self).is_mut == old(self).is_mut,
            final(self).rc == old(self).rc,
            final(self).init_value_unused == old(self).init_value_unused,
            final(self).var_type == old(self).var_type,
            final(self).clone == old(self).clone,
            final(self).instanceof_struct == old(self).instanceof_struct,
            final(self).fieldof_struct == old(self).fieldof_struct,
            extends_current(old(self).points_to@, old(refs)@, final(refs)@, line as int),
    {
        let usage = Usage::new(line, usage_type);
        self.usages.push(usage);
        if let Some(r) = self.current_reference_held() {
            refs[r].end = line;
        }
    }

    pub fn is_ptr(&self) -> (b: bool)
        ensures
            b == (self.points_to@.len() > 0),
    {
        self.points_to.len() > 0
    }
}

/// `after` is `before` with the last reference of `points_to` (if any) now ending on `line`.
pub open spec fn extends_current(
    points_to: Seq<usize>,
    before: Seq<Reference>,
    after: Seq<Reference>,
    line: int,
) -> bool {
    if points_to.len() == 0 {
        after == before
    } else {
        after == before.update(points_to.last() as int, before[points_to.last() as int].with_end(line))
    }
}

/// Represents a singlular usage of a variable, not including its reference being taken
pub struct Usage {
    line: LineNumber,
    usage_type: UsageType,
}

#[derive(Debug, Clone, Copy, PartialEq, Eq, Structural)]
pub enum UsageType {
    FunctionArg,
    RValue,
    LValue,
}

impl Usage {
    pub closed spec fn line_of(&self) -> LineNumber {
        self.line
    }

    pub closed spec fn kind_of(&self) -> UsageType {
        self.usage_type
    }

    pub closed spec fn spec_new(line: LineNumber, usage_type: UsageType) -> Usage {
        Usage { line, usage_type }
    }

    pub broadcast proof fn lemma_spec_new(line: LineNumber, usage_type: UsageType)
        ensures
            #[trigger] Usage::spec_new(line, usage_type).line_of() == line,
            Usage::spec_new(line, usage_type).kind_of() == usage_type,
    {
    }

    pub fn new(line: LineNumber, usage_type: UsageType) -> (u: Self)
        ensures
            u == Usage::spec_new(line, usage_type),
    {
        Usage { line, usage_type }
    }

    pub fn get_line_number(&self) -> (l: LineNumber)
        ensures
            l == self.line_of(),
    {
        self.line
    }

    pub fn get_usage_type(&self) -> (t: &UsageType)
        ensures
            *t == self.kind_of(),
    {
        &self.usage_type
    }

    pub fn set_line_number(&mut self, line: LineNumber)
        ensures
            *final(self) == Usage::spec_new(line, old(self).kind_of()),
    {
        self.line = line;
    }

    pub fn duplicate(&self) -> (u: Self)
        ensures
            u == *self,
    {
        Usage { line: self.line, usage_type: self.usage_type }
    }
}

/// Represents a span where a variable is behind a reference
/// A Reference is extended when the variable holding the reference is used
pub struct Reference {
    reference_type: ReferenceType,
    ref_to: String,
    borrower: String,
    start: LineNumber,
    end: LineNumber,
}

#[derive(Debug, Clone, Copy, PartialEq, Eq, Structural)]
pub enum ReferenceType {
    MutBorrowed,
    ConstBorrowed,
    MutPtr,
    ConstPtr,
    RcRefClone,
}

impl Reference {
    pub closed spec fn kind(&self) -> ReferenceType {
        self.reference_type
    }

    pub closed spec fn ref_to_id(&self) -> Seq<char> {
        self.ref_to@
    }

    pub closed spec fn borrower_id(&self) -> Seq<char> {
        self.borrower@
    }

    pub closed spec fn start_line(&self) -> LineNumber {
        self.start
    }

    pub closed spec fn end_line(&self) -> LineNumber {
        self.end
    }

    /// The lines `start..=end` (both ends included).
    pub open spec fn in_range(&self, line: int) -> bool {
        self.start_line() <= line <= self.end_line()
    }

    /// The same reference, ending on `line`.
    pub closed spec fn with_end(&self, line: int) -> Reference {
        Reference { end: line as usize, ..*self }
    }

    /// The same reference, of another kind.
    pub closed spec fn with_kind(&self, k: ReferenceType) -> Reference {
        Reference { reference_type: k, ..*self }
    }

    pub broadcast proof fn lemma_with_end(&self, line: int)
        requires
            0 <= line <= usize::MAX,
        ensures
            (#[trigger] self.with_end(line)).end_line() == line,
            self.with_end(line).start_line() == self.start_line(),
            self.with_end(line).kind() == self.kind(),
            self.with_end(line).ref_to_id() == self.ref_to_id(),
            self.with_end(line).borrower_id() == self.borrower_id(),
    {
    }

    pub broadcast proof fn lemma_with_kind_twice(&self, a: ReferenceType, b: ReferenceType)
        ensures
            #[trigger] self.with_kind(a).with_kind(b) == self.with_kind(b),
    {
    }

    pub broadcast proof fn lemma_with_kind(&self, k: ReferenceType)
        ensures
            (#[trigger] self.with_kind(k)).kind() == k,
            self.with_kind(k).end_line() == self.end_line(),
            self.with_kind(k).start_line() == self.start_line(),
            self.with_kind(k).ref_to_id() == self.ref_to_id(),
            self.with_kind(k).borrower_id() == self.borrower_id(),
    {
    }

    /// A constant borrow of `ref_to` by `borrower`, taken on `line`.
    pub fn new(ref_to: String, borrower: String, line: LineNumber) -> (r: Self)
        ensures
            r.kind() == ReferenceType::ConstBorrowed,
            r.ref_to_id() == ref_to@,
            r.borrower_id() == borrower@,
            r.start_line() == line,
            r.end_line() == line,
    {
        Reference {
            reference_type: ReferenceType::ConstBorrowed,
            ref_to,
            borrower,
            start: line,
            end: line,
        }
    }

    // Inclusive on either end
    pub fn within_current_range(&self, line: usize) -> (b: bool)
        ensures
            b == self.in_range(line as int),
    {
        self.start <= line && self.end >= line
    }

    /// `line` comes after the line the reference was taken on and no later than its end.
    pub fn contained_within_current_range(&self, line: usize) -> (b: bool)
        ensures
            b == (self.start_line() < line <= self.end_line()),
    {
        self.start < line && self.end >= line
    }

    pub fn set_mut(&mut self)
        ensures
            *final(self) == old(self).with_kind(ReferenceType::MutBorrowed),
    {
        self.reference_type = ReferenceType::MutBorrowed;
    }

    pub fn set_rc(&mut self)
        ensures
            *final(self) == old(self).with_kind(ReferenceType::RcRefClone),
    {
        self.reference_type = ReferenceType::RcRefClone;
    }

    /// Turns a borrow into the raw pointer of the same mutability.
    pub fn set_raw(&mut self)
        ensures
            *final(self) == old(self).with_kind(spec_raw_kind(old(self).kind())),
    {
        self.reference_type = match self.reference_type {
            ReferenceType::MutBorrowed => ReferenceType::MutPtr,
            ReferenceType::ConstBorrowed => ReferenceType::ConstPtr,
            k => k,
        };
    }

    pub fn set_kind(&mut self, k: ReferenceType)
        ensures
            *final(self) == old(self).with_kind(k),
    {
        self.reference_type = k;
    }

    pub fn set_end(&mut self, line: LineNumber)
        ensures
            *final(self) == old(self).with_end(line as int),
    {
        self.end = line;
    }

    pub fn refers_to(&self, var_id: &str) -> (b: bool)
        ensures
            b == (self.ref_to_id() == var_id@),
    {
        self.ref_to == var_id.to_owned()
    }

    pub fn get_reference_to(&self) -> (s: &str)
        ensures
            s@ == self.ref_to_id(),
    {
        self.ref_to.as_str()
    }

    pub fn get_borrower(&self) -> (s: &str)
        ensures
            s@ == self.borrower_id(),
    {
        self.borrower.as_str()
    }

    pub fn get_reference_type(&self) -> (t: ReferenceType)
        ensures
            t == self.kind(),
    {
        self.reference_type
    }

    pub fn get_range(&self) -> (r: Range<LineNumber>)
        ensures
            r.start == self.start_line(),
            r.end == self.end_line(),
    {
        Range { start: self.start, end: self.end }
    }

    pub fn duplicate(&self) -> (r: Self)
        ensures
            r == *self,
    {
        Reference {
            reference_type: self.reference_type,
            ref_to: self.ref_to.clone(),
            borrower: self.borrower.clone(),
            start: self.start,
            end: self.end,
        }
    }
}

/// The raw pointer kind of the same mutability as a borrow; other kinds stay.
pub open spec fn spec_raw_kind(k: ReferenceType) -> ReferenceType {
    match k {
        ReferenceType::MutBorrowed => ReferenceType::MutPtr,
        ReferenceType::ConstBorrowed => ReferenceType::ConstPtr,
        _ => k,
    }
}

pub struct StructData {
    pub field_definitions: Vec<FieldDefinition>,
}

/// Collected during declaration
pub struct FieldInfo {
    pub struct_id: String,
    pub field_id: String,
}

/// Collected during definition
#[derive(Debug)]
pub struct FieldDefinition {
    pub id: String,
    pub ptr_type: Vec<ReferenceType>,
    pub c_type: CType,
}

impl FieldInfo {
    pub fn duplicate(&self) -> (r: Self)
        ensures
            r == *self,
    {
        FieldInfo { struct_id: self.struct_id.clone(), field_id: self.field_id.clone() }
    }
}

impl FieldDefinition {
    pub fn duplicate(&self) -> (r: Self)
        ensures
            r.id == self.id,
            r.ptr_type@ == self.ptr_type@,
            r.c_type == self.c_type,
    {
        FieldDefinition {
            id: self.id.clone(),
            ptr_type: self.ptr_type.clone(),
            c_type: self.c_type.duplicate(),
        }
    }
}

impl StructData {
    /// The position of the first field named `field`.
    pub fn field_index(&self, field: &str) -> (r: Option<usize>)
        ensures
            r matches Some(i) ==> i < self.field_definitions@.len()
                && self.field_definitions@[i as int].id@ == field@
                && forall|k: int| 0 <= k < i ==> self.field_definitions@[k].id@ != field@,
            r is None ==> forall|k: int|
                0 <= k < self.field_definitions@.len() ==> self.field_definitions@[k].id@ != field@,
    {
        let mut k: usize = 0;
        while k < self.field_definitions.len()
            invariant
                k <= self.field_definitions@.len(),
                forall|q: int| 0 <= q < k ==> self.field_definitions@[q].id@ != field@,
            decreases self.field_definitions.len() - k,
        {
            if self.field_definitions[k].id == field.to_owned() {
                return Some(k);
            }
            k = k + 1;
        }
        None
    }

    /// Replaces the pointer kinds of the first field named `field`; the original applies a
    /// closure to that field and panics when there is none.
    pub fn mut_field(&mut self, field: String, ptr_type: Vec<ReferenceType>)
        requires
            exists|k: int|
                0 <= k < old(self).field_definitions@.len()
                    && #[trigger] old(self).field_definitions@[k].id@ == field@,
        ensures
            final(self).field_definitions@.len() == old(self).field_definitions@.len(),
            exists|k: int|
                0 <= k < old(self).field_definitions@.len()
                    && old(self).field_definitions@[k].id@ == field@
                    && (forall|q: int| 0 <= q < k ==> old(self).field_definitions@[q].id@ != field@)
                    && final(self).field_definitions@[k].ptr_type@ == ptr_type@
                    && final(self).field_definitions@[k].id == old(self).field_definitions@[k].id
                    && final(self).field_definitions@[k].c_type == old(self).field_definitions@[k].c_type
                    && forall|q: int|
                        0 <= q < old(self).field_definitions@.len() && q != k
                            ==> final(self).field_definitions@[q] == old(self).field_definitions@[q],
    {
        let i = self.field_index(field.as_str());
        match i {
            Some(i) => {
                self.field_definitions[i].ptr_type = ptr_type;
            },
            None => {},
        }
    }
}

} // verus!
