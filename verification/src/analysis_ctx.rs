use vstd::prelude::*;
use crate::model::{
    ctx_view, declare, define, deref_assign, take_ref, deref_rest, lemma_named, lemma_pos_of, named,
    ptr_assign, reads, struct_view, var_of, var_view, with_mut, with_ref_end,
    with_ref_kind, with_usage, assign, RefV, VarV,
};
use crate::data_model::{
    extends_current, first_ref_at_line, var_refs_in, LineNumber, Reference, ReferenceType,
    StructData, Usage, UsageType, VarData,
};

verus! {

broadcast use {Usage::lemma_spec_new, Reference::lemma_with_end, Reference::lemma_with_kind};

/// No two entries share a name.
pub open spec fn names_unique<T>(s: Seq<(String, T)>) -> bool {
    forall|i: int, j: int| 0 <= i < s.len() && 0 <= j < s.len() && i != j ==> s[i].0@ != s[j].0@
}

/// Some entry is named `id`.
pub open spec fn has_key<T>(s: Seq<(String, T)>, id: Seq<char>) -> bool {
    exists|i: int| 0 <= i < s.len() && #[trigger] s[i].0@ == id
}

/// The position of the entry named `id`.
pub open spec fn key_index<T>(s: Seq<(String, T)>, id: Seq<char>) -> int {
    choose|i: int| 0 <= i < s.len() && #[trigger] s[i].0@ == id
}

/// The value stored under `id`.
pub open spec fn value_of<T>(s: Seq<(String, T)>, id: Seq<char>) -> T {
    s[key_index(s, id)].1
}

/// With unique names, the entry named `id` is at `i`.
pub proof fn lemma_key_index<T>(s: Seq<(String, T)>, i: int)
    requires
        names_unique(s),
        0 <= i < s.len(),
    ensures
        has_key(s, s[i].0@),
        key_index(s, s[i].0@) == i,
        value_of(s, s[i].0@) == s[i].1,
{
    assert(s[i].0@ == s[i].0@);
}

/// Looks up the position of the entry named `id`.
pub fn find_key<T>(s: &Vec<(String, T)>, id: &str) -> (r: Option<usize>)
    requires
        names_unique(s@),
    ensures
        r matches Some(i) ==> i < s@.len() && s@[i as int].0@ == id@ && key_index(s@, id@) == i,
        r is None <==> !has_key(s@, id@),
{
    let mut k: usize = 0;
    while k < s.len()
        invariant
            names_unique(s@),
            k <= s@.len(),
            forall|q: int| 0 <= q < k ==> s@[q].0@ != id@,
        decreases s.len() - k,
    {
        if s[k].0 == id.to_owned() {
            proof {
                lemma_key_index(s@, k as int);
            }
            return Some(k);
        }
        k = k + 1;
    }
    None
}

/// Puts `value` under `id`, replacing an entry of that name or adding one at the end.
pub fn insert_key<T>(s: &mut Vec<(String, T)>, id: String, value: T)
    requires
        names_unique(old(s)@),
    ensures
        names_unique(final(s)@),
        has_key(final(s)@, id@),
        value_of(final(s)@, id@) == value,
        forall|k: Seq<char>| k != id@ ==> (has_key(final(s)@, k) == has_key(old(s)@, k)),
        forall|k: Seq<char>| k != id@ && has_key(old(s)@, k) ==> value_of(final(s)@, k) == value_of(old(s)@, k),
        has_key(old(s)@, id@) ==> final(s)@ == old(s)@.update(key_index(old(s)@, id@), (old(s)@[key_index(old(s)@, id@)].0, value)),
        !has_key(old(s)@, id@) ==> final(s)@ == old(s)@.push((id, value)),
        !has_key(old(s)@, id@) ==> final(s)@.len() == old(s)@.len() + 1,
        has_key(old(s)@, id@) ==> final(s)@.len() == old(s)@.len(),
{
    let ghost old_s = s@;
    match find_key(s, id.as_str()) {
        Some(i) => {
            s[i].1 = value;
            proof {
                assert(s@ =~= old_s.update(i as int, (old_s[i as int].0, value)));
                lemma_key_index(s@, i as int);
                assert forall|k: Seq<char>| k != id@ implies (has_key(s@, k) == has_key(old_s, k)) by {
                    if has_key(old_s, k) {
                        let j = choose|j: int| 0 <= j < old_s.len() && #[trigger] old_s[j].0@ == k;
                        assert(s@[j].0@ == k);
                    }
                    if has_key(s@, k) {
                        let j = choose|j: int| 0 <= j < s@.len() && #[trigger] s@[j].0@ == k;
                        assert(old_s[j].0@ == k);
                    }
                }
                assert forall|k: Seq<char>| k != id@ && has_key(old_s, k) implies value_of(s@, k) == value_of(old_s, k) by {
                    let j = choose|j: int| 0 <= j < old_s.len() && #[trigger] old_s[j].0@ == k;
                    lemma_key_index(old_s, j);
                    lemma_key_index(s@, j);
                }
            }
        },
        None => {
            s.push((id, value));
            proof {
                let n = old_s.len() as int;
                assert forall|i: int, j: int| 0 <= i < s@.len() && 0 <= j < s@.len() && i != j implies s@[i].0@ != s@[j].0@ by {
                    if i == n {
                        assert(old_s[j].0@ == s@[j].0@);
                    }
                    if j == n {
                        assert(old_s[i].0@ == s@[i].0@);
                    }
                }
                lemma_key_index(s@, n);
                assert forall|k: Seq<char>| k != id@ implies (has_key(s@, k) == has_key(old_s, k)) by {
                    if has_key(old_s, k) {
                        let j = choose|j: int| 0 <= j < old_s.len() && #[trigger] old_s[j].0@ == k;
                        assert(s@[j].0@ == k);
                    }
                    if has_key(s@, k) {
                        let j = choose|j: int| 0 <= j < s@.len() && #[trigger] s@[j].0@ == k;
                        assert(j != n);
                        assert(old_s[j].0@ == k);
                    }
                }
                assert forall|k: Seq<char>| k != id@ && has_key(old_s, k) implies value_of(s@, k) == value_of(old_s, k) by {
                    let j = choose|j: int| 0 <= j < old_s.len() && #[trigger] old_s[j].0@ == k;
                    lemma_key_index(old_s, j);
                    lemma_key_index(s@, j);
                }
            }
        },
    }
}

/// The top-level datastructure that stores data about all the variables and referencing.
/// Every reference taken is kept, in order, in `references`.
pub struct AnalysisContext {
    pub variables: Vec<(String, VarData)>,
    pub structs: Vec<(String, StructData)>,
    pub references: Vec<Reference>,
}

impl AnalysisContext {
    /// Names are unique; every variable's reference indices are valid; a reference that a
    /// variable holds is borrowed by it, and a reference held to a variable refers to it.
    pub open spec fn wf(&self) -> bool {
        let vars = self.variables@;
        let refs = self.references@;
        &&& names_unique(vars)
        &&& names_unique(self.structs@)
        &&& forall|i: int| 0 <= i < vars.len() ==> var_refs_in(#[trigger] vars[i].1, refs.len())
        &&& forall|i: int, k: int|
            0 <= i < vars.len() && 0 <= k < vars[i].1.points_to@.len()
                ==> #[trigger] refs[vars[i].1.points_to@[k] as int].borrower_id() == vars[i].0@
        &&& forall|i: int, k: int|
            0 <= i < vars.len() && 0 <= k < vars[i].1.pointed_to@.len()
                ==> #[trigger] refs[vars[i].1.pointed_to@[k] as int].ref_to_id() == vars[i].0@
    }

    /// Every reference refers to a declared variable.
    pub open spec fn targets_declared(&self) -> bool {
        forall|r: int|
            0 <= r < self.references@.len() ==> has_key(self.variables@, #[trigger] self.references@[r].ref_to_id())
    }

    /// Contexts with the same links refer to the same variables.
    pub proof fn lemma_same_links_targets(&self, other: &AnalysisContext)
        requires
            self.same_links(other),
            other.targets_declared(),
        ensures
            self.targets_declared(),
    {
        let vars = self.variables@;
        let ovars = other.variables@;
        assert forall|r: int| 0 <= r < self.references@.len() implies has_key(vars, #[trigger] self.references@[r].ref_to_id()) by {
            let id = other.references@[r].ref_to_id();
            assert(self.references@[r].ref_to_id() == id);
            assert(has_key(ovars, id));
            let q = choose|q: int| 0 <= q < ovars.len() && #[trigger] ovars[q].0@ == id;
            assert(vars[q].0@ == ovars[q].0@);
        }
    }

    /// Each reference held to a variable is held by its borrower: the borrower is declared
    /// and lists the reference among those it holds.
    pub open spec fn linked(&self) -> bool {
        let vars = self.variables@;
        let refs = self.references@;
        forall|i: int, k: int|
            0 <= i < vars.len() && 0 <= k < vars[i].1.pointed_to@.len() ==> {
                let p = #[trigger] vars[i].1.pointed_to@[k];
                &&& has_key(vars, refs[p as int].borrower_id())
                &&& value_of(vars, refs[p as int].borrower_id()).points_to@.contains(p)
            }
    }

    /// Every reference is still a plain borrow (before the checker's fixes are applied).
    pub open spec fn refs_borrowed(&self) -> bool {
        forall|r: int|
            0 <= r < self.references@.len() ==> (#[trigger] self.references@[r].kind()
                == ReferenceType::MutBorrowed || self.references@[r].kind()
                == ReferenceType::ConstBorrowed)
    }

    pub open spec fn has_var(&self, id: Seq<char>) -> bool {
        has_key(self.variables@, id)
    }

    pub open spec fn var(&self, id: Seq<char>) -> VarData {
        value_of(self.variables@, id)
    }

    pub open spec fn has_struct(&self, id: Seq<char>) -> bool {
        has_key(self.structs@, id)
    }

    pub open spec fn struct_of(&self, id: Seq<char>) -> StructData {
        value_of(self.structs@, id)
    }

    /// The same variables hold and are pointed to by the same references.
    pub open spec fn same_links(&self, other: &AnalysisContext) -> bool {
        &&& self.variables@.len() == other.variables@.len()
        &&& forall|i: int|
            0 <= i < self.variables@.len() ==> {
                &&& #[trigger] self.variables@[i].0@ == other.variables@[i].0@
                &&& self.variables@[i].1.points_to == other.variables@[i].1.points_to
                &&& self.variables@[i].1.pointed_to == other.variables@[i].1.pointed_to
            }
        &&& self.references@.len() == other.references@.len()
        &&& forall|r: int|
            0 <= r < self.references@.len() ==> {
                &&& #[trigger] self.references@[r].ref_to_id() == other.references@[r].ref_to_id()
                &&& self.references@[r].borrower_id() == other.references@[r].borrower_id()
            }
        &&& self.structs == other.structs
    }

    pub fn new() -> (ctx: AnalysisContext)
        ensures
            ctx.wf(),
            ctx.refs_borrowed(),
            ctx.variables@.len() == 0,
            ctx.structs@.len() == 0,
            ctx.references@.len() == 0,
    {
        AnalysisContext { variables: Vec::new(), structs: Vec::new(), references: Vec::new() }
    }

    /// The position of the variable named `id`.
    pub fn find_var(&self, id: &str) -> (r: Option<usize>)
        requires
            self.wf(),
        ensures
            r matches Some(i) ==> i < self.variables@.len() && self.variables@[i as int].0@ == id@
                && key_index(self.variables@, id@) == i,
            r is None <==> !self.has_var(id@),
    {
        find_key(&self.variables, id)
    }

    pub fn has_variable(&self, id: &str) -> (b: bool)
        requires
            self.wf(),
        ensures
            b == self.has_var(id@),
    {
        self.find_var(id).is_some()
    }

    /// Declares (or re-declares) the variable `id`. The references `data` lists are
    /// references of this context: those it holds are held by `id`, and those held to it
    /// refer to `id` (data from `VarData::new` lists none).
    pub fn declaration(&mut self, id: String, data: VarData)
        requires
            old(self).wf(),
            var_refs_in(data, old(self).references@.len()),
            forall|k: int|
                0 <= k < data.points_to@.len() ==> #[trigger] old(self).references@[data.points_to@[k] as int].borrower_id()
                    == id@,
            forall|k: int|
                0 <= k < data.pointed_to@.len() ==> #[trigger] old(self).references@[data.pointed_to@[k] as int].ref_to_id()
                    == id@,
        ensures
            final(self).wf(),
            final(self).has_var(id@),
            final(self).var(id@) == data,
            forall|k: Seq<char>| k != id@ ==> (final(self).has_var(k) == old(self).has_var(k)),
            forall|k: Seq<char>| k != id@ && old(self).has_var(k) ==> final(self).var(k) == old(self).var(k),
            final(self).references == old(self).references,
            final(self).structs == old(self).structs,
            ctx_view(*final(self)) == declare(ctx_view(*old(self)), id@, var_view(data)),
            old(self).targets_declared() ==> final(self).targets_declared(),
    {
        let ghost old_self = *self;
        let ghost old_vars = self.variables@;
        let ghost idv = id@;
        insert_key(&mut self.variables, id, data);
        proof {
            let ov = ctx_view(old_self);
            let nv = ctx_view(*self);
            lemma_named(old_vars, ov.vars, idv);
            if has_key(old_vars, idv) {
                let ki = key_index(old_vars, idv);
                lemma_pos_of(old_vars, ov.vars, ki);
                assert(nv.vars =~= ov.vars.update(ki, (idv, var_view(data))));
            } else {
                assert(nv.vars =~= ov.vars.push((idv, var_view(data))));
            }
            assert(nv.refs =~= ov.refs);
            assert(nv.structs =~= ov.structs);
            let vars = self.variables@;
            let refs = self.references@;
            assert forall|i: int| 0 <= i < vars.len() implies var_refs_in(#[trigger] vars[i].1, refs.len()) by {
                lemma_key_index(vars, i);
                if vars[i].0@ != id@ {
                    let j = key_index(old_vars, vars[i].0@);
                    lemma_key_index(old_vars, j);
                }
            }
            assert forall|i: int, k: int|
                0 <= i < vars.len() && 0 <= k < vars[i].1.points_to@.len()
                    implies #[trigger] refs[vars[i].1.points_to@[k] as int].borrower_id() == vars[i].0@ by {
                lemma_key_index(vars, i);
                if vars[i].0@ != id@ {
                    let j = key_index(old_vars, vars[i].0@);
                    lemma_key_index(old_vars, j);
                }
            }
            assert forall|i: int, k: int|
                0 <= i < vars.len() && 0 <= k < vars[i].1.pointed_to@.len()
                    implies #[trigger] refs[vars[i].1.pointed_to@[k] as int].ref_to_id() == vars[i].0@ by {
                lemma_key_index(vars, i);
                if vars[i].0@ != id@ {
                    let j = key_index(old_vars, vars[i].0@);
                    lemma_key_index(old_vars, j);
                }
            }
            if old_self.targets_declared() {
                assert forall|r: int| 0 <= r < refs.len() implies has_key(vars, #[trigger] refs[r].ref_to_id()) by {
                    let x = refs[r].ref_to_id();
                    assert(has_key(old_vars, x));
                    if x != id@ {
                        assert(old_self.has_var(x));
                    }
                }
            }
        }
    }

    pub fn get_var(&self, id: &str) -> (v: &VarData)
        requires
            self.wf(),
            self.has_var(id@),
        ensures
            *v == self.var(id@),
    {
        let i = self.find_var(id).unwrap();
        &self.variables[i].1
    }

    pub fn get_var_mut(&mut self, id: &str) -> (v: &mut VarData)
        requires
            old(self).wf(),
            old(self).has_var(id@),
        ensures
            *v == old(self).var(id@),
            final(self).variables@ == old(self).variables@.update(
                key_index(old(self).variables@, id@),
                (old(self).variables@[key_index(old(self).variables@, id@)].0, *final(v)),
            ),
            final(self).references == old(self).references,
            final(self).structs == old(self).structs,
    {
        let i = self.find_var(id).unwrap();
        &mut self.variables[i].1
    }

    /// The data of variable `id`, to change in place; `None` (and nothing changes) when there
    /// is no such variable.
    pub fn mut_var(&mut self, id: &str) -> (r: Option<&mut VarData>)
        requires
            old(self).wf(),
        ensures
            !old(self).has_var(id@) ==> r is None,
            old(self).has_var(id@) ==> r is Some && *r->0 == old(self).var(id@),
            old(self).has_var(id@) ==> final(self).variables@ == old(self).variables@.update(
                key_index(old(self).variables@, id@),
                (old(self).variables@[key_index(old(self).variables@, id@)].0, *final(r->0)),
            ),
            !old(self).has_var(id@) ==> *final(self) == *old(self),
            final(self).references == old(self).references,
            final(self).structs == old(self).structs,
    {
        match self.find_var(id) {
            Some(i) => Some(&mut self.variables[i].1),
            None => None,
        }
    }

    /// Records a read of `id` on `line`; the reference `id` holds now lasts until `line`.
    pub fn new_usage(&mut self, id: &str, line: LineNumber)
        requires
            old(self).wf(),
            old(self).has_var(id@),
        ensures
            final(self).wf(),
            final(self).same_links(old(self)),
            final(self).var(id@).usages@ == old(self).var(id@).usages@.push(
                Usage::spec_new(line, UsageType::RValue),
            ),
            extends_current(old(self).var(id@).points_to@, old(self).references@, final(self).references@, line as int),
            forall|k: Seq<char>| k != id@ && old(self).has_var(k) ==> final(self).var(k) == old(self).var(k),
            forall|k: Seq<char>| final(self).has_var(k) == old(self).has_var(k),
            final(self).var(id@).is_mut == old(self).var(id@).is_mut,
            ctx_view(*final(self)) == with_usage(ctx_view(*old(self)), id@, line, UsageType::RValue),
    {
        self.add_usage(id, line, UsageType::RValue);
    }

    /// Records a usage of `id` of the given kind on `line`; the reference `id` holds now
    /// lasts until `line`.
    pub fn add_usage(&mut self, id: &str, line: LineNumber, kind: UsageType)
        requires
            old(self).wf(),
            old(self).has_var(id@),
        ensures
            final(self).wf(),
            final(self).same_links(old(self)),
            final(self).var(id@).usages@ == old(self).var(id@).usages@.push(
                Usage::spec_new(line, kind),
            ),
            extends_current(old(self).var(id@).points_to@, old(self).references@, final(self).references@, line as int),
            forall|k: Seq<char>| k != id@ && old(self).has_var(k) ==> final(self).var(k) == old(self).var(k),
            forall|k: Seq<char>| final(self).has_var(k) == old(self).has_var(k),
            final(self).var(id@).is_mut == old(self).var(id@).is_mut,
            final(self).var(id@).rc == old(self).var(id@).rc,
            final(self).var(id@).points_to == old(self).var(id@).points_to,
            final(self).var(id@).pointed_to == old(self).var(id@).pointed_to,
            ctx_view(*final(self)) == with_usage(ctx_view(*old(self)), id@, line, kind),
    {
        let ghost old_self = *self;
        let i = self.find_var(id).unwrap();
        proof {
            lemma_key_index(self.variables@, i as int);
        }
        self.variables[i].1.add_usage(line, kind, &mut self.references);
        proof {
            let ov = ctx_view(old_self);
            let nv = ctx_view(*self);
            lemma_pos_of(old_self.variables@, ov.vars, i as int);
            let v = var_of(ov, id@);
            assert(v == var_view(old_self.variables@[i as int].1));
            assert(nv.vars =~= ov.vars.update(
                i as int,
                (id@, VarV { usages: v.usages.push(Usage::spec_new(line, kind)), ..v }),
            ));
            if v.points_to.len() > 0 {
                let r = v.points_to.last() as int;
                assert(var_refs_in(old_self.variables@[i as int].1, old_self.references@.len()));
                assert(v.points_to[v.points_to.len() - 1] < old_self.references@.len());
                assert(nv.refs =~= ov.refs.update(r, RefV { end: line, ..ov.refs[r] }));
            } else {
                assert(nv.refs =~= ov.refs);
            }
            assert(nv.structs =~= ov.structs);
            let ov = old_self.variables@[i as int].1;
            if ov.points_to@.len() > 0 {
                let last = ov.points_to@.last() as int;
                assert(var_refs_in(ov, old_self.references@.len()));
                assert(ov.points_to@[ov.points_to@.len() - 1] < old_self.references@.len());
                assert(extends_current(ov.points_to@, old_self.references@, self.references@, line as int));
                assert(self.references@ == old_self.references@.update(last, old_self.references@[last].with_end(line as int)));
                assert forall|r: int| 0 <= r < self.references@.len() implies {
                    &&& #[trigger] self.references@[r].ref_to_id() == old_self.references@[r].ref_to_id()
                    &&& self.references@[r].borrower_id() == old_self.references@[r].borrower_id()
                } by {
                    if r == last {
                        assert(self.references@[r] == old_self.references@[r].with_end(line as int));
                    }
                }
            }
            assert forall|j: int| 0 <= j < self.variables@.len() implies {
                &&& #[trigger] self.variables@[j].0@ == old_self.variables@[j].0@
                &&& self.variables@[j].1.points_to == old_self.variables@[j].1.points_to
                &&& self.variables@[j].1.pointed_to == old_self.variables@[j].1.pointed_to
            } by {}
            assert(self.same_links(&old_self));
            self.lemma_same_links_wf(&old_self, i as int);
        }
    }

    /// A context that differs from a well-formed one only in the data of variable `i`
    /// (not in its links) and in the lines and kinds of references is well-formed.
    pub proof fn lemma_same_links_wf(&self, old_self: &AnalysisContext, i: int)
        requires
            old_self.wf(),
            0 <= i < old_self.variables@.len(),
            self.same_links(old_self),
            forall|j: int| 0 <= j < self.variables@.len() && j != i ==> self.variables@[j] == old_self.variables@[j],
        ensures
            self.wf(),
            forall|k: Seq<char>| self.has_var(k) == old_self.has_var(k),
            forall|k: Seq<char>| k != self.variables@[i].0@ && old_self.has_var(k) ==> self.var(k) == old_self.var(k),
            self.has_var(self.variables@[i].0@),
            key_index(self.variables@, self.variables@[i].0@) == i,
    {
        let vars = self.variables@;
        let ovars = old_self.variables@;
        assert forall|a: int, b: int| 0 <= a < vars.len() && 0 <= b < vars.len() && a != b implies vars[a].0@ != vars[b].0@ by {
            assert(vars[a].0@ == ovars[a].0@);
            assert(vars[b].0@ == ovars[b].0@);
        }
        assert forall|a: int| 0 <= a < vars.len() implies var_refs_in(#[trigger] vars[a].1, self.references@.len()) by {
            assert(vars[a].0@ == ovars[a].0@);
            assert(var_refs_in(ovars[a].1, old_self.references@.len()));
        }
        assert forall|a: int, k: int|
            0 <= a < vars.len() && 0 <= k < vars[a].1.points_to@.len()
                implies #[trigger] self.references@[vars[a].1.points_to@[k] as int].borrower_id() == vars[a].0@ by {
            assert(vars[a].0@ == ovars[a].0@);
            let r = ovars[a].1.points_to@[k] as int;
            assert(old_self.references@[r].borrower_id() == ovars[a].0@);
            assert(self.references@[r].ref_to_id() == old_self.references@[r].ref_to_id());
        }
        assert forall|a: int, k: int|
            0 <= a < vars.len() && 0 <= k < vars[a].1.pointed_to@.len()
                implies #[trigger] self.references@[vars[a].1.pointed_to@[k] as int].ref_to_id() == vars[a].0@ by {
            assert(vars[a].0@ == ovars[a].0@);
            let r = ovars[a].1.pointed_to@[k] as int;
            assert(old_self.references@[r].ref_to_id() == ovars[a].0@);
            assert(self.references@[r].ref_to_id() == old_self.references@[r].ref_to_id());
        }
        assert forall|k: Seq<char>| self.has_var(k) == old_self.has_var(k) by {
            if has_key(ovars, k) {
                let j = choose|j: int| 0 <= j < ovars.len() && #[trigger] ovars[j].0@ == k;
                assert(vars[j].0@ == k);
            }
            if has_key(vars, k) {
                let j = choose|j: int| 0 <= j < vars.len() && #[trigger] vars[j].0@ == k;
                assert(ovars[j].0@ == k);
            }
        }
        assert forall|k: Seq<char>| k != vars[i].0@ && old_self.has_var(k) implies self.var(k) == old_self.var(k) by {
            let j = key_index(ovars, k);
            lemma_key_index(ovars, j);
            lemma_key_index(vars, j);
        }
        lemma_key_index(vars, i);
    }
}


impl AnalysisContext {
    /// Changes the kind of reference `r`.
    pub fn set_ref_kind(&mut self, r: usize, k: ReferenceType)
        requires
            old(self).wf(),
            r < old(self).references@.len(),
        ensures
            final(self).wf(),
            final(self).same_links(old(self)),
            final(self).variables == old(self).variables,
            final(self).references@ == old(self).references@.update(
                r as int,
                old(self).references@[r as int].with_kind(k),
            ),
            ctx_view(*final(self)) == with_ref_kind(ctx_view(*old(self)), r as int, k),
    {
        let ghost old_self = *self;
        match k {
            ReferenceType::MutBorrowed => self.references[r].set_mut(),
            ReferenceType::RcRefClone => self.references[r].set_rc(),
            _ => {
                self.references[r].set_kind(k);
            },
        }
        proof {
            self.lemma_refs_relabelled(&old_self, r as int);
            let ov = ctx_view(old_self);
            assert(ctx_view(*self).refs =~= ov.refs.update(r as int, RefV { kind: k, ..ov.refs[r as int] }));
            assert(ctx_view(*self).vars =~= ov.vars);
            assert(ctx_view(*self).structs =~= ov.structs);
        }
    }

    /// Makes reference `r` last at least until `line`.
    pub fn extend_ref(&mut self, r: usize, line: LineNumber)
        requires
            old(self).wf(),
            r < old(self).references@.len(),
        ensures
            final(self).wf(),
            final(self).same_links(old(self)),
            final(self).variables == old(self).variables,
            old(self).references@[r as int].end_line() < line ==> final(self).references@
                == old(self).references@.update(r as int, old(self).references@[r as int].with_end(line as int)),
            old(self).references@[r as int].end_line() >= line ==> final(self).references
                == old(self).references,
            ctx_view(*final(self)) == with_ref_end(ctx_view(*old(self)), r as int, line),
    {
        let ghost old_self = *self;
        if self.references[r].get_range().end < line {
            self.references[r].set_end(line);
            proof {
                self.lemma_refs_relabelled(&old_self, r as int);
                let ov = ctx_view(old_self);
                assert(ctx_view(*self).refs =~= ov.refs.update(r as int, RefV { end: line, ..ov.refs[r as int] }));
                assert(ctx_view(*self).vars =~= ov.vars);
                assert(ctx_view(*self).structs =~= ov.structs);
            }
        }
    }

    /// Only reference `r` changed, and not in what it links.
    proof fn lemma_refs_relabelled(&self, old_self: &AnalysisContext, r: int)
        requires
            old_self.wf(),
            0 <= r < old_self.references@.len(),
            self.variables == old_self.variables,
            self.structs == old_self.structs,
            self.references@.len() == old_self.references@.len(),
            forall|q: int| 0 <= q < self.references@.len() && q != r ==> self.references@[q] == old_self.references@[q],
            self.references@[r].ref_to_id() == old_self.references@[r].ref_to_id(),
            self.references@[r].borrower_id() == old_self.references@[r].borrower_id(),
        ensures
            self.wf(),
            self.same_links(old_self),
    {
        let vars = self.variables@;
        assert forall|i: int, k: int|
            0 <= i < vars.len() && 0 <= k < vars[i].1.points_to@.len()
                implies #[trigger] self.references@[vars[i].1.points_to@[k] as int].borrower_id() == vars[i].0@ by {
            let q = vars[i].1.points_to@[k] as int;
            assert(old_self.references@[q].borrower_id() == vars[i].0@);
        }
        assert forall|i: int, k: int|
            0 <= i < vars.len() && 0 <= k < vars[i].1.pointed_to@.len()
                implies #[trigger] self.references@[vars[i].1.pointed_to@[k] as int].ref_to_id() == vars[i].0@ by {
            let q = vars[i].1.pointed_to@[k] as int;
            assert(old_self.references@[q].ref_to_id() == vars[i].0@);
        }
    }

    /// Sets the mutability flag of variable `id`.
    pub fn set_var_mut(&mut self, id: &str, is_mut: bool)
        requires
            old(self).wf(),
            old(self).has_var(id@),
        ensures
            final(self).wf(),
            final(self).same_links(old(self)),
            final(self).references == old(self).references,
            final(self).var(id@) == (VarData { is_mut, ..old(self).var(id@) }),
            forall|k: Seq<char>| k != id@ && old(self).has_var(k) ==> final(self).var(k) == old(self).var(k),
            forall|k: Seq<char>| final(self).has_var(k) == old(self).has_var(k),
            ctx_view(*final(self)) == with_mut(ctx_view(*old(self)), id@, is_mut),
    {
        let ghost old_self = *self;
        let i = self.find_var(id).unwrap();
        self.variables[i].1.is_mut = is_mut;
        proof {
            let ov = ctx_view(old_self);
            lemma_pos_of(old_self.variables@, ov.vars, i as int);
            assert(ctx_view(*self).vars =~= ov.vars.update(
                i as int,
                (id@, VarV { is_mut, ..var_of(ov, id@) }),
            ));
            assert(ctx_view(*self).refs =~= ov.refs);
            assert(ctx_view(*self).structs =~= ov.structs);
            assert forall|j: int| 0 <= j < self.variables@.len() implies {
                &&& #[trigger] self.variables@[j].0@ == old_self.variables@[j].0@
                &&& self.variables@[j].1.points_to == old_self.variables@[j].1.points_to
                &&& self.variables@[j].1.pointed_to == old_self.variables@[j].1.pointed_to
            } by {}
            self.lemma_same_links_wf(&old_self, i as int);
        }
    }

    /// Sets the flags that the checker's fixes change on variable `id`.
    pub fn set_var_flags(&mut self, id: &str, rc: bool, is_mut: bool, init_value_unused: bool)
        requires
            old(self).wf(),
            old(self).has_var(id@),
        ensures
            final(self).wf(),
            final(self).same_links(old(self)),
            final(self).references == old(self).references,
            final(self).var(id@) == (VarData { rc, is_mut, init_value_unused, ..old(self).var(id@) }),
            forall|k: Seq<char>| k != id@ && old(self).has_var(k) ==> final(self).var(k) == old(self).var(k),
            forall|k: Seq<char>| final(self).has_var(k) == old(self).has_var(k),
    {
        let ghost old_self = *self;
        let i = self.find_var(id).unwrap();
        self.variables[i].1.is_mut = is_mut;
        self.variables[i].1.rc = rc;
        self.variables[i].1.init_value_unused = init_value_unused;
        proof {
            assert forall|j: int| 0 <= j < self.variables@.len() implies {
                &&& #[trigger] self.variables@[j].0@ == old_self.variables@[j].0@
                &&& self.variables@[j].1.points_to == old_self.variables@[j].1.points_to
                &&& self.variables@[j].1.pointed_to == old_self.variables@[j].1.pointed_to
            } by {}
            self.lemma_same_links_wf(&old_self, i as int);
        }
    }

    /// An assignment to `assigned_to` on `line` that reads `rvalue_ids`: each value read is
    /// used, and the variable assigned to becomes mutable and is written.
    pub fn assignment(&mut self, assigned_to: &str, rvalue_ids: &Vec<String>, line: LineNumber)
        requires
            old(self).wf(),
            forall|i: int| 0 <= i < rvalue_ids@.len() ==> old(self).has_var(#[trigger] rvalue_ids@[i]@),
        ensures
            final(self).wf(),
            final(self).same_links(old(self)),
            forall|k: Seq<char>| final(self).has_var(k) == old(self).has_var(k),
            old(self).refs_borrowed() ==> final(self).refs_borrowed(),
            old(self).has_var(assigned_to@) ==> final(self).var(assigned_to@).is_mut
                && final(self).var(assigned_to@).usages@.last() == Usage::spec_new(line, UsageType::LValue),
            forall|k: Seq<char>|
                old(self).has_var(k) && k != assigned_to@ && (forall|i: int| 0 <= i < rvalue_ids@.len() ==> rvalue_ids@[i]@ != k)
                    ==> #[trigger] final(self).var(k) == old(self).var(k),
            ctx_view(*final(self)) == assign(ctx_view(*old(self)), assigned_to@, ids_view(rvalue_ids@), line),
    {
        let ghost old_self = *self;
        let mut j: usize = 0;
        while j < rvalue_ids.len()
            invariant
                ctx_view(*self) == reads(ctx_view(old_self), ids_view(rvalue_ids@).subrange(0, j as int), line),
                self.wf(),
                self.same_links(&old_self),
                j <= rvalue_ids@.len(),
                forall|k: Seq<char>| self.has_var(k) == old_self.has_var(k),
                forall|i: int| 0 <= i < rvalue_ids@.len() ==> old_self.has_var(#[trigger] rvalue_ids@[i]@),
                old_self.refs_borrowed() ==> self.refs_borrowed(),
                forall|k: Seq<char>|
                    old_self.has_var(k) && (forall|i: int| 0 <= i < j ==> rvalue_ids@[i]@ != k)
                        ==> #[trigger] self.var(k) == old_self.var(k),
            decreases rvalue_ids.len() - j,
        {
            let ghost before = *self;
            assert(old_self.has_var(rvalue_ids@[j as int]@));
            self.new_usage(rvalue_ids[j].as_str(), line);
            proof {
                self.lemma_same_links_trans(&before, &old_self);
                before.lemma_extends_borrowed(self, rvalue_ids@[j as int]@, line as int);
                let ids = ids_view(rvalue_ids@);
                assert(ids.subrange(0, j + 1).drop_last() =~= ids.subrange(0, j as int));
                assert(ids.subrange(0, j + 1).last() == rvalue_ids@[j as int]@);
            }
            j = j + 1;
        }
        proof {
            assert(ids_view(rvalue_ids@).subrange(0, j as int) =~= ids_view(rvalue_ids@));
            lemma_named(self.variables@, ctx_view(*self).vars, assigned_to@);
        }
        if self.has_variable(assigned_to) {
            self.set_var_mut(assigned_to, true);
            let ghost before = *self;
            self.add_usage(assigned_to, line, UsageType::LValue);
            proof {
                self.lemma_same_links_trans(&before, &old_self);
                before.lemma_extends_borrowed(self, assigned_to@, line as int);
            }
        }
    }

    /// Changing only where references end keeps every reference a plain borrow.
    pub proof fn lemma_extends_borrowed(&self, after: &AnalysisContext, id: Seq<char>, line: int)
        requires
            self.wf(),
            self.has_var(id),
            0 <= line <= usize::MAX,
            extends_current(self.var(id).points_to@, self.references@, after.references@, line),
        ensures
            self.refs_borrowed() ==> after.refs_borrowed(),
    {
        let v = self.var(id);
        lemma_key_index(self.variables@, key_index(self.variables@, id));
        assert(var_refs_in(self.variables@[key_index(self.variables@, id)].1, self.references@.len()));
        if self.refs_borrowed() && v.points_to@.len() > 0 {
            let last = v.points_to@.last() as int;
            assert(v.points_to@[v.points_to@.len() - 1] < self.references@.len());
            assert forall|r: int| 0 <= r < after.references@.len() implies (#[trigger] after.references@[r].kind()
                == ReferenceType::MutBorrowed || after.references@[r].kind() == ReferenceType::ConstBorrowed) by {
                if r == last {
                    assert(after.references@[r] == self.references@[r].with_end(line));
                } else {
                    assert(after.references@[r] == self.references@[r]);
                }
            }
        }
    }

    /// The links, and so whether each borrower holds its references, carry over between
    /// contexts with the same links.
    pub proof fn lemma_same_links_linked(&self, other: &AnalysisContext)
        requires
            self.same_links(other),
            other.wf(),
            other.linked(),
        ensures
            self.linked(),
    {
        let vars = self.variables@;
        let ovars = other.variables@;
        assert forall|i: int, k: int|
            0 <= i < vars.len() && 0 <= k < vars[i].1.pointed_to@.len() implies {
                let p = #[trigger] vars[i].1.pointed_to@[k];
                &&& has_key(vars, self.references@[p as int].borrower_id())
                &&& value_of(vars, self.references@[p as int].borrower_id()).points_to@.contains(p)
            } by {
            assert(vars[i].0@ == ovars[i].0@);
            let p = vars[i].1.pointed_to@[k];
            assert(p == ovars[i].1.pointed_to@[k]);
            assert(var_refs_in(ovars[i].1, other.references@.len()));
            assert(p < other.references@.len());
            let b = other.references@[p as int].borrower_id();
            assert(self.references@[p as int].ref_to_id() == other.references@[p as int].ref_to_id());
            assert(self.references@[p as int].borrower_id() == b);
            assert(0 <= i < ovars.len() && 0 <= k < ovars[i].1.pointed_to@.len());
            assert(has_key(ovars, other.references@[ovars[i].1.pointed_to@[k] as int].borrower_id()));
            assert(has_key(ovars, b));
            let q = key_index(ovars, b);
            lemma_key_index(ovars, q);
            assert(vars[q].0@ == ovars[q].0@);
            assert(has_key(vars, b));
            let q2 = key_index(vars, b);
            assert(vars[q2].0@ == ovars[q2].0@);
            assert(q2 == q) by {
                if q2 != q {
                    assert(ovars[q2].0@ == ovars[q].0@);
                }
            }
            assert(vars[q].1.points_to == ovars[q].1.points_to);
        }
    }

    pub proof fn lemma_same_links_trans(&self, mid: &AnalysisContext, first: &AnalysisContext)
        requires
            self.same_links(mid),
            mid.same_links(first),
        ensures
            self.same_links(first),
    {
        assert forall|i: int| 0 <= i < self.variables@.len() implies {
            &&& #[trigger] self.variables@[i].0@ == first.variables@[i].0@
            &&& self.variables@[i].1.points_to == first.variables@[i].1.points_to
            &&& self.variables@[i].1.pointed_to == first.variables@[i].1.pointed_to
        } by {
            assert(self.variables@[i].0@ == mid.variables@[i].0@);
            assert(mid.variables@[i].0@ == first.variables@[i].0@);
        }
        assert forall|r: int| 0 <= r < self.references@.len() implies {
            &&& #[trigger] self.references@[r].ref_to_id() == first.references@[r].ref_to_id()
            &&& self.references@[r].borrower_id() == first.references@[r].borrower_id()
        } by {
            assert(self.references@[r].ref_to_id() == mid.references@[r].ref_to_id());
            assert(mid.references@[r].ref_to_id() == first.references@[r].ref_to_id());
            assert(self.references@[r].borrower_id() == mid.references@[r].borrower_id());
            assert(mid.references@[r].borrower_id() == first.references@[r].borrower_id());
        }
    }
}

impl AnalysisContext {
    /// `assigned_to` (after reading `rvalue_ids`) takes a new reference to `borrowed` on `line`;
    /// `borrowed`, when it is declared, lists the reference among those held to it.
    #[verifier::rlimit(40)]
    pub fn ptr_assignment(
        &mut self,
        borrowed: &str,
        assigned_to: &str,
        rvalue_ids: &Vec<String>,
        line: LineNumber,
    )
        requires
            old(self).wf(),
            old(self).has_var(assigned_to@),
            forall|i: int| 0 <= i < rvalue_ids@.len() ==> old(self).has_var(#[trigger] rvalue_ids@[i]@),
        ensures
            final(self).wf(),
            forall|k: Seq<char>| final(self).has_var(k) == old(self).has_var(k),
            old(self).refs_borrowed() ==> final(self).refs_borrowed(),
            old(self).linked() ==> final(self).linked(),
            old(self).targets_declared() && old(self).has_var(borrowed@) ==> final(self).targets_declared(),
            final(self).references@.len() == old(self).references@.len() + 1,
            ({
                let r = final(self).references@.last();
                &&& r.kind() == ReferenceType::ConstBorrowed
                &&& r.ref_to_id() == borrowed@
                &&& r.borrower_id() == assigned_to@
                &&& r.start_line() == line
                &&& r.end_line() == line
            }),
            final(self).var(assigned_to@).points_to@ == old(self).var(assigned_to@).points_to@.push(
                old(self).references@.len() as usize,
            ),
            borrowed@ != assigned_to@ && old(self).has_var(borrowed@) ==> final(self).var(
                borrowed@,
            ).pointed_to@ == old(self).var(borrowed@).pointed_to@.push(old(self).references@.len() as usize),
            final(self).var(assigned_to@).is_mut,
            final(self).var(assigned_to@).usages@.last() == Usage::spec_new(line, UsageType::RValue),
            final(self).structs == old(self).structs,
            ctx_view(*final(self)) == ptr_assign(
                ctx_view(*old(self)),
                borrowed@,
                assigned_to@,
                ids_view(rvalue_ids@),
                line,
            ),
    {
        let ghost old_self = *self;
        let mut j: usize = 0;
        while j < rvalue_ids.len()
            invariant
                ctx_view(*self) == reads(ctx_view(old_self), ids_view(rvalue_ids@).subrange(0, j as int), line),
                self.wf(),
                self.same_links(&old_self),
                j <= rvalue_ids@.len(),
                forall|k: Seq<char>| self.has_var(k) == old_self.has_var(k),
                forall|i: int| 0 <= i < rvalue_ids@.len() ==> old_self.has_var(#[trigger] rvalue_ids@[i]@),
                old_self.refs_borrowed() ==> self.refs_borrowed(),
            decreases rvalue_ids.len() - j,
        {
            let ghost before = *self;
            assert(old_self.has_var(rvalue_ids@[j as int]@));
            self.new_usage(rvalue_ids[j].as_str(), line);
            proof {
                self.lemma_same_links_trans(&before, &old_self);
                before.lemma_extends_borrowed(self, rvalue_ids@[j as int]@, line as int);
                let ids = ids_view(rvalue_ids@);
                assert(ids.subrange(0, j + 1).drop_last() =~= ids.subrange(0, j as int));
                assert(ids.subrange(0, j + 1).last() == rvalue_ids@[j as int]@);
            }
            j = j + 1;
        }
        proof {
            assert(ids_view(rvalue_ids@).subrange(0, j as int) =~= ids_view(rvalue_ids@));
        }
        self.set_var_mut(assigned_to, true);
        let ghost before = *self;
        self.new_usage(assigned_to, line);
        proof {
            self.lemma_same_links_trans(&before, &old_self);
            before.lemma_extends_borrowed(self, assigned_to@, line as int);
        }
        let ghost mid = *self;
        let n = self.references.len();
        self.references.push(Reference::new(borrowed.to_owned(), assigned_to.to_owned(), line));
        let ti = self.find_var_after_push(assigned_to);
        self.variables[ti].1.points_to.push(n);
        let ghost mid2 = *self;
        proof {
            let vars = self.variables@;
            let mvars = mid.variables@;
            assert forall|a: int, b: int| 0 <= a < vars.len() && 0 <= b < vars.len() && a != b implies vars[a].0@ != vars[b].0@ by {
                assert(vars[a].0@ == mvars[a].0@);
                assert(vars[b].0@ == mvars[b].0@);
            }
        }
        let found = find_key(&self.variables, borrowed);
        if found.is_none() {
            proof {
                self.lemma_pushed_ref_undeclared(&mid, &old_self, ti as int, borrowed@, assigned_to@, line);
            }
            return;
        }
        let bi = found.unwrap();
        proof {
            assert(mid.variables@[bi as int].0@ == self.variables@[bi as int].0@);
            assert(mid.has_var(borrowed@));
        }
        self.variables[bi].1.pointed_to.push(n);
        proof {
            let vars = self.variables@;
            let mvars = mid.variables@;
            let refs = self.references@;
            assert(names_unique(vars)) by {
                assert forall|a: int, b: int| 0 <= a < vars.len() && 0 <= b < vars.len() && a != b implies vars[a].0@ != vars[b].0@ by {
                    assert(vars[a].0@ == mvars[a].0@);
                    assert(vars[b].0@ == mvars[b].0@);
                }
            }
            assert forall|a: int| 0 <= a < vars.len() implies var_refs_in(#[trigger] vars[a].1, refs.len()) by {
                assert(var_refs_in(mvars[a].1, mid.references@.len()));
            }
            assert forall|a: int, k: int|
                0 <= a < vars.len() && 0 <= k < vars[a].1.points_to@.len()
                    implies #[trigger] refs[vars[a].1.points_to@[k] as int].borrower_id() == vars[a].0@ by {
                assert(vars[a].0@ == mvars[a].0@);
                if a == ti as int && k == vars[a].1.points_to@.len() - 1 {
                } else {
                    assert(vars[a].1.points_to@[k] == mvars[a].1.points_to@[k]);
                    assert(mid.references@[mvars[a].1.points_to@[k] as int].borrower_id() == mvars[a].0@);
                }
            }
            assert forall|a: int, k: int|
                0 <= a < vars.len() && 0 <= k < vars[a].1.pointed_to@.len()
                    implies #[trigger] refs[vars[a].1.pointed_to@[k] as int].ref_to_id() == vars[a].0@ by {
                assert(vars[a].0@ == mvars[a].0@);
                if a == bi as int && k == vars[a].1.pointed_to@.len() - 1 {
                } else {
                    assert(vars[a].1.pointed_to@[k] == mvars[a].1.pointed_to@[k]);
                    assert(mid.references@[mvars[a].1.pointed_to@[k] as int].ref_to_id() == mvars[a].0@);
                }
            }
            assert forall|k: Seq<char>| self.has_var(k) == mid.has_var(k) by {
                if has_key(mvars, k) {
                    let q = choose|q: int| 0 <= q < mvars.len() && #[trigger] mvars[q].0@ == k;
                    assert(vars[q].0@ == k);
                }
                if has_key(vars, k) {
                    let q = choose|q: int| 0 <= q < vars.len() && #[trigger] vars[q].0@ == k;
                    assert(mvars[q].0@ == k);
                }
            }
            assert(self.wf());
            if old_self.targets_declared() {
                mid.lemma_same_links_targets(&old_self);
                assert forall|q: int| 0 <= q < refs.len() implies has_key(vars, #[trigger] refs[q].ref_to_id()) by {
                    if q < n {
                        assert(has_key(mvars, mid.references@[q].ref_to_id()));
                        assert(self.has_var(refs[q].ref_to_id()) == mid.has_var(refs[q].ref_to_id()));
                    } else {
                        assert(has_key(mvars, borrowed@));
                        assert(self.has_var(borrowed@) == mid.has_var(borrowed@));
                    }
                }
            }
            if old_self.refs_borrowed() {
                assert forall|q: int| 0 <= q < refs.len() implies (#[trigger] refs[q].kind()
                    == ReferenceType::MutBorrowed || refs[q].kind() == ReferenceType::ConstBorrowed) by {
                    if q < n {
                        assert(refs[q] == mid.references@[q]);
                    }
                }
            }
            lemma_key_index(vars, ti as int);
            lemma_key_index(mvars, ti as int);
            lemma_key_index(vars, bi as int);
            lemma_key_index(mvars, bi as int);
            lemma_key_index(mid2.variables@, bi as int);
            lemma_key_index(mid2.variables@, ti as int);
            let c1 = ctx_view(mid);
            let mv = mid.variables@;
            let newref = RefV {
                kind: ReferenceType::ConstBorrowed,
                ref_to: borrowed@,
                borrower: assigned_to@,
                start: line,
                end: line,
            };
            assert(ctx_view(*self).refs =~= c1.refs.push(newref));
            lemma_pos_of(mv, c1.vars, ti as int);
            let vt = var_view(mv[ti as int].1);
            let e3 = c1.vars.update(ti as int, (assigned_to@, VarV { points_to: vt.points_to.push(n), ..vt }));
            assert(ctx_view(mid2).vars =~= e3);
            lemma_pos_of(mv, e3, bi as int);
            let vb = e3[bi as int].1;
            assert(ctx_view(*self).vars =~= e3.update(bi as int, (borrowed@, VarV { pointed_to: vb.pointed_to.push(n), ..vb })));
            assert(ctx_view(*self).structs =~= c1.structs);
        }
        proof {
            if old_self.linked() {
                mid.lemma_same_links_linked(&old_self);
                let vars = self.variables@;
                let mvars = mid.variables@;
                let refs = self.references@;
                assert forall|i: int, k: int|
                    0 <= i < vars.len() && 0 <= k < vars[i].1.pointed_to@.len() implies {
                        let p = #[trigger] vars[i].1.pointed_to@[k];
                        &&& has_key(vars, refs[p as int].borrower_id())
                        &&& value_of(vars, refs[p as int].borrower_id()).points_to@.contains(p)
                    } by {
                    let p = vars[i].1.pointed_to@[k];
                    lemma_key_index(vars, ti as int);
                    if i == bi as int && k == vars[i].1.pointed_to@.len() - 1 {
                        assert(p == n);
                        assert(refs[p as int].borrower_id() == assigned_to@);
                        assert(vars[ti as int].1.points_to@.last() == n);
                        assert(vars[ti as int].1.points_to@[vars[ti as int].1.points_to@.len() - 1] == p);
                    } else {
                        assert(p == mvars[i].1.pointed_to@[k]);
                        assert(var_refs_in(mvars[i].1, mid.references@.len()));
                        assert(p < n);
                        assert(refs[p as int] == mid.references@[p as int]);
                        let b = mid.references@[p as int].borrower_id();
                        assert(has_key(mvars, b));
                        let q = key_index(mvars, b);
                        lemma_key_index(mvars, q);
                        assert(vars[q].0@ == mvars[q].0@);
                        lemma_key_index(vars, q);
                        assert(mvars[q].1.points_to@.contains(p));
                        let j = choose|j: int| 0 <= j < mvars[q].1.points_to@.len() && mvars[q].1.points_to@[j] == p;
                        assert(vars[q].1.points_to@[j] == p);
                    }
                }
            }
        }
    }

    /// A new reference held by the variable at `ti`, to a variable that is not declared:
    /// the context stays well formed and the model takes the reference.
    proof fn lemma_pushed_ref_undeclared(
        &self,
        mid: &AnalysisContext,
        old_self: &AnalysisContext,
        ti: int,
        borrowed: Seq<char>,
        to: Seq<char>,
        line: LineNumber,
    )
        requires
            old_self.wf(),
            mid.wf(),
            mid.same_links(old_self),
            old_self.refs_borrowed() ==> mid.refs_borrowed(),
            mid.references@.len() <= usize::MAX,
            self.references@ == mid.references@.push(self.references@.last()),
            self.references@.last().kind() == ReferenceType::ConstBorrowed,
            self.references@.last().ref_to_id() == borrowed,
            self.references@.last().borrower_id() == to,
            self.references@.last().start_line() == line,
            self.references@.last().end_line() == line,
            0 <= ti < mid.variables@.len(),
            self.variables@.len() == mid.variables@.len(),
            mid.variables@[ti].0@ == to,
            forall|a: int| 0 <= a < mid.variables@.len() && a != ti ==> self.variables@[a] == mid.variables@[a],
            self.variables@[ti].0 == mid.variables@[ti].0,
            self.variables@[ti].1 == (VarData { points_to: self.variables@[ti].1.points_to, ..mid.variables@[ti].1 }),
            self.variables@[ti].1.points_to@ == mid.variables@[ti].1.points_to@.push(mid.references@.len() as usize),
            !has_key(self.variables@, borrowed),
            self.structs == mid.structs,
        ensures
            self.wf(),
            forall|k: Seq<char>| self.has_var(k) == mid.has_var(k),
            old_self.refs_borrowed() ==> self.refs_borrowed(),
            old_self.linked() ==> self.linked(),
            ctx_view(*self) == take_ref(ctx_view(*mid), borrowed, to, line),
            self.var(to) == self.variables@[ti].1,
            mid.var(to) == mid.variables@[ti].1,
    {
        let vars = self.variables@;
        let mvars = mid.variables@;
        let refs = self.references@;
        let n = mid.references@.len();
        assert forall|a: int| 0 <= a < vars.len() implies #[trigger] vars[a].0@ == mvars[a].0@ by {
            if a != ti {
                assert(vars[a] == mvars[a]);
            }
        }
        assert forall|a: int| 0 <= a < vars.len() implies {
            &&& #[trigger] vars[a].1.pointed_to == mvars[a].1.pointed_to
            &&& var_refs_in(vars[a].1, refs.len())
        } by {
            assert(var_refs_in(mvars[a].1, n));
            if a != ti {
                assert(vars[a] == mvars[a]);
            }
        }
        assert forall|q: int| 0 <= q < n implies #[trigger] refs[q] == mid.references@[q] by {}
        assert(names_unique(vars)) by {
            assert forall|a: int, b: int| 0 <= a < vars.len() && 0 <= b < vars.len() && a != b implies vars[a].0@ != vars[b].0@ by {
                assert(vars[a].0@ == mvars[a].0@);
                assert(vars[b].0@ == mvars[b].0@);
            }
        }
        assert forall|a: int, k: int|
            0 <= a < vars.len() && 0 <= k < vars[a].1.points_to@.len()
                implies #[trigger] refs[vars[a].1.points_to@[k] as int].borrower_id() == vars[a].0@ by {
            assert(vars[a].0@ == mvars[a].0@);
            if a == ti && k == vars[a].1.points_to@.len() - 1 {
                assert(vars[a].1.points_to@[k] as int == n);
                assert(refs[n as int] == refs.last());
            } else {
                if a != ti {
                    assert(vars[a] == mvars[a]);
                }
                assert(vars[a].1.points_to@[k] == mvars[a].1.points_to@[k]);
                assert(var_refs_in(mvars[a].1, n));
                assert(mid.references@[mvars[a].1.points_to@[k] as int].borrower_id() == mvars[a].0@);
            }
        }
        assert forall|a: int, k: int|
            0 <= a < vars.len() && 0 <= k < vars[a].1.pointed_to@.len()
                implies #[trigger] refs[vars[a].1.pointed_to@[k] as int].ref_to_id() == vars[a].0@ by {
            assert(vars[a].0@ == mvars[a].0@);
            assert(vars[a].1.pointed_to == mvars[a].1.pointed_to);
            assert(var_refs_in(mvars[a].1, n));
            assert(mid.references@[mvars[a].1.pointed_to@[k] as int].ref_to_id() == mvars[a].0@);
        }
        assert(self.wf());
        assert forall|k: Seq<char>| self.has_var(k) == mid.has_var(k) by {
            if has_key(mvars, k) {
                let q = choose|q: int| 0 <= q < mvars.len() && #[trigger] mvars[q].0@ == k;
                assert(vars[q].0@ == k);
            }
            if has_key(vars, k) {
                let q = choose|q: int| 0 <= q < vars.len() && #[trigger] vars[q].0@ == k;
                assert(mvars[q].0@ == k);
            }
        }
        if old_self.refs_borrowed() {
            assert forall|q: int| 0 <= q < refs.len() implies (#[trigger] refs[q].kind()
                == ReferenceType::MutBorrowed || refs[q].kind() == ReferenceType::ConstBorrowed) by {
                if q < n {
                    assert(refs[q] == mid.references@[q]);
                }
            }
        }
        lemma_key_index(vars, ti);
        lemma_key_index(mvars, ti);
        if old_self.linked() {
            mid.lemma_same_links_linked(old_self);
            assert forall|i: int, k: int|
                0 <= i < vars.len() && 0 <= k < vars[i].1.pointed_to@.len() implies {
                    let p = #[trigger] vars[i].1.pointed_to@[k];
                    &&& has_key(vars, refs[p as int].borrower_id())
                    &&& value_of(vars, refs[p as int].borrower_id()).points_to@.contains(p)
                } by {
                let p = vars[i].1.pointed_to@[k];
                assert(vars[i].1.pointed_to == mvars[i].1.pointed_to);
                assert(p == mvars[i].1.pointed_to@[k]);
                assert(var_refs_in(mvars[i].1, n));
                assert(p < n);
                assert(refs[p as int] == mid.references@[p as int]);
                let b = mid.references@[p as int].borrower_id();
                assert(0 <= i < mvars.len() && 0 <= k < mvars[i].1.pointed_to@.len());
                assert(has_key(mvars, mid.references@[mvars[i].1.pointed_to@[k] as int].borrower_id()));
                assert(has_key(mvars, b));
                let q = key_index(mvars, b);
                lemma_key_index(mvars, q);
                assert(vars[q].0@ == mvars[q].0@);
                lemma_key_index(vars, q);
                assert(mvars[q].1.points_to@.contains(p));
                let j = choose|j: int| 0 <= j < mvars[q].1.points_to@.len() && mvars[q].1.points_to@[j] == p;
                if q != ti {
                    assert(vars[q] == mvars[q]);
                }
                assert(vars[q].1.points_to@[j] == p);
            }
        }
        let c1 = ctx_view(*mid);
        let newref = RefV { kind: ReferenceType::ConstBorrowed, ref_to: borrowed, borrower: to, start: line, end: line };
        assert(ctx_view(*self).refs =~= c1.refs.push(newref));
        lemma_pos_of(mvars, c1.vars, ti);
        let vt = var_view(mvars[ti].1);
        let e3 = c1.vars.update(ti, (to, VarV { points_to: vt.points_to.push(n as usize), ..vt }));
        assert forall|a: int| 0 <= a < vars.len() implies #[trigger] ctx_view(*self).vars[a] == e3[a] by {
            if a != ti {
                assert(vars[a] == mvars[a]);
            }
        }
        assert(ctx_view(*self).vars =~= e3);
        lemma_named(vars, ctx_view(*self).vars, borrowed);
        assert(ctx_view(*self).structs =~= c1.structs);
    }

    /// The position of a declared variable.
    fn find_var_after_push(&self, id: &str) -> (i: usize)
        requires
            names_unique(self.variables@),
            has_key(self.variables@, id@),
        ensures
            i < self.variables@.len(),
            self.variables@[i as int].0@ == id@,
            key_index(self.variables@, id@) == i,
    {
        find_key(&self.variables, id).unwrap()
    }

    /// A write through the pointer chain `[ptr_n, .., ptr_1, value]` on `line`: every
    /// variable in the chain becomes mutable, the top pointer is used, and the reference each
    /// one holds becomes a mutable borrow lasting at least until `line`: the write goes
    /// through every borrow of the chain, so each of them is live on that line (after
    /// `int* g = &n; int* k = &n; int** h = &g;`, a write through `h` keeps `g`'s borrow of
    /// `n` live until then, and so it meets `k`'s).
    pub fn deref_assignment(&mut self, ptr_chain: &Vec<String>, line: LineNumber)
        requires
            old(self).wf(),
            ptr_chain@.len() >= 1,
            forall|i: int| 0 <= i < ptr_chain@.len() ==> old(self).has_var(#[trigger] ptr_chain@[i]@),
            old(self).var(ptr_chain@[0]@).points_to@.len() > 0,
        ensures
            final(self).wf(),
            final(self).same_links(old(self)),
            forall|k: Seq<char>| final(self).has_var(k) == old(self).has_var(k),
            old(self).refs_borrowed() ==> final(self).refs_borrowed(),
            forall|i: int| 0 <= i < ptr_chain@.len() ==> final(self).var(#[trigger] ptr_chain@[i]@).is_mut,
            forall|k: Seq<char>|
                old(self).has_var(k) && (forall|i: int| 0 <= i < ptr_chain@.len() ==> ptr_chain@[i]@ != k)
                    ==> #[trigger] final(self).var(k) == old(self).var(k),
            ctx_view(*final(self)) == deref_assign(ctx_view(*old(self)), ids_view(ptr_chain@), line),
    {
        let ghost old_self = *self;
        let top = ptr_chain[0].as_str();
        self.set_var_mut(top, true);
        let ghost b1 = *self;
        self.new_usage(top, line);
        proof {
            self.lemma_same_links_trans(&b1, &old_self);
            b1.lemma_extends_borrowed(self, top@, line as int);
        }
        let cur = self.get_var(top).current_reference_held();
        proof {
            self.lemma_var_of(top@);
        }
        if let Some(r) = cur {
            proof {
                let i = key_index(self.variables@, top@);
                lemma_key_index(self.variables@, i);
                assert(var_refs_in(self.variables@[i].1, self.references@.len()));
                assert(self.var(top@).points_to@[self.var(top@).points_to@.len() - 1] < self.references@.len());
            }
            let ghost b2 = *self;
            self.set_ref_kind(r, ReferenceType::MutBorrowed);
            proof {
                self.lemma_same_links_trans(&b2, &old_self);
                b2.lemma_kind_borrowed(self, r as int, ReferenceType::MutBorrowed);
            }
        }
        let mut j: usize = 1;
        proof {
            assert(ids_view(ptr_chain@)[0] == top@);
        }
        while j < ptr_chain.len()
            invariant
                deref_assign(ctx_view(old_self), ids_view(ptr_chain@), line) == deref_rest(
                    ctx_view(*self),
                    ids_view(ptr_chain@),
                    j as int,
                    line,
                ),
                self.wf(),
                self.same_links(&old_self),
                1 <= j <= ptr_chain@.len(),
                forall|k: Seq<char>| self.has_var(k) == old_self.has_var(k),
                forall|i: int| 0 <= i < ptr_chain@.len() ==> old_self.has_var(#[trigger] ptr_chain@[i]@),
                old_self.refs_borrowed() ==> self.refs_borrowed(),
                forall|i: int| 0 <= i < j ==> self.var(#[trigger] ptr_chain@[i]@).is_mut,
                forall|k: Seq<char>|
                    old_self.has_var(k) && (forall|i: int| 0 <= i < ptr_chain@.len() ==> ptr_chain@[i]@ != k)
                        ==> #[trigger] self.var(k) == old_self.var(k),
            decreases ptr_chain.len() - j,
        {
            let id = ptr_chain[j].as_str();
            assert(old_self.has_var(ptr_chain@[j as int]@));
            let ghost b3 = *self;
            self.set_var_mut(id, true);
            proof {
                self.lemma_same_links_trans(&b3, &old_self);
            }
            let cur = self.get_var(id).current_reference_held();
            proof {
                self.lemma_var_of(id@);
                assert(ids_view(ptr_chain@)[j as int] == id@);
            }
            if let Some(r) = cur {
                proof {
                    let i = key_index(self.variables@, id@);
                    lemma_key_index(self.variables@, i);
                    assert(var_refs_in(self.variables@[i].1, self.references@.len()));
                    assert(self.var(id@).points_to@[self.var(id@).points_to@.len() - 1] < self.references@.len());
                }
                let ghost b4 = *self;
                self.set_ref_kind(r, ReferenceType::MutBorrowed);
                proof {
                    self.lemma_same_links_trans(&b4, &old_self);
                    b4.lemma_kind_borrowed(self, r as int, ReferenceType::MutBorrowed);
                }
                let ghost b5 = *self;
                self.extend_ref(r, line);
                proof {
                    self.lemma_same_links_trans(&b5, &old_self);
                    if b5.refs_borrowed() {
                        assert forall|q: int| 0 <= q < self.references@.len() implies (#[trigger] self.references@[q].kind()
                            == ReferenceType::MutBorrowed || self.references@[q].kind() == ReferenceType::ConstBorrowed) by {
                            if q == r as int {
                            } else {
                                assert(self.references@[q] == b5.references@[q]);
                            }
                        }
                    }
                }
            }
            j = j + 1;
        }
    }

    /// The model's data of a declared variable is the view of its data.
    pub proof fn lemma_var_of(&self, id: Seq<char>)
        requires
            self.wf(),
            self.has_var(id),
        ensures
            named(ctx_view(*self).vars, id),
            var_of(ctx_view(*self), id) == var_view(self.var(id)),
    {
        let i = key_index(self.variables@, id);
        lemma_key_index(self.variables@, i);
        lemma_pos_of(self.variables@, ctx_view(*self).vars, i);
    }

    /// Changing a reference's kind to a borrow keeps every reference a borrow.
    proof fn lemma_kind_borrowed(&self, after: &AnalysisContext, r: int, k: ReferenceType)
        requires
            0 <= r < self.references@.len(),
            k == ReferenceType::MutBorrowed || k == ReferenceType::ConstBorrowed,
            after.references@ == self.references@.update(r, self.references@[r].with_kind(k)),
        ensures
            self.refs_borrowed() ==> after.refs_borrowed(),
    {
        if self.refs_borrowed() {
            assert forall|q: int| 0 <= q < after.references@.len() implies (#[trigger] after.references@[q].kind()
                == ReferenceType::MutBorrowed || after.references@[q].kind() == ReferenceType::ConstBorrowed) by {
                if q != r {
                    assert(after.references@[q] == self.references@[q]);
                }
            }
        }
    }

    /// Defines (or redefines) the struct `id`.
    pub fn struct_declaration(&mut self, id: String, struct_data: StructData)
        requires
            old(self).wf(),
        ensures
            final(self).wf(),
            final(self).has_struct(id@),
            final(self).struct_of(id@) == struct_data,
            forall|k: Seq<char>| k != id@ ==> (final(self).has_struct(k) == old(self).has_struct(k)),
            forall|k: Seq<char>| k != id@ && old(self).has_struct(k) ==> final(self).struct_of(k) == old(self).struct_of(k),
            final(self).variables == old(self).variables,
            final(self).references == old(self).references,
            ctx_view(*final(self)) == define(ctx_view(*old(self)), id@, struct_view(struct_data)),
    {
        let ghost old_structs = self.structs@;
        let ghost old_self = *self;
        let ghost idv = id@;
        let ghost sv = struct_view(struct_data);
        insert_key(&mut self.structs, id, struct_data);
        proof {
            let ov = ctx_view(old_self);
            let nv = ctx_view(*self);
            lemma_named(old_structs, ov.structs, idv);
            if has_key(old_structs, idv) {
                let ki = key_index(old_structs, idv);
                lemma_pos_of(old_structs, ov.structs, ki);
                assert(nv.structs =~= ov.structs.update(ki, (idv, sv)));
            } else {
                assert(nv.structs =~= ov.structs.push((idv, sv)));
            }
            assert(nv.refs =~= ov.refs);
            assert(nv.vars =~= ov.vars);
        }
    }

    /// Defines (or redefines) the struct `id`.
    pub fn new_struct(&mut self, id: String, data: StructData)
        requires
            old(self).wf(),
        ensures
            final(self).wf(),
            final(self).has_struct(id@),
            final(self).struct_of(id@) == data,
            forall|k: Seq<char>| k != id@ ==> (final(self).has_struct(k) == old(self).has_struct(k)),
            forall|k: Seq<char>| k != id@ && old(self).has_struct(k) ==> final(self).struct_of(k) == old(self).struct_of(k),
            final(self).variables == old(self).variables,
            final(self).references == old(self).references,
            ctx_view(*final(self)) == define(ctx_view(*old(self)), id@, struct_view(data)),
    {
        self.struct_declaration(id, data);
    }

    pub fn has_struct_named(&self, id: &str) -> (b: bool)
        requires
            self.wf(),
        ensures
            b == self.has_struct(id@),
    {
        find_key(&self.structs, id).is_some()
    }

    /// The data of struct `id`, to change in place; `None` (and nothing changes) when there is
    /// no such struct.
    pub fn mut_struct(&mut self, id: &str) -> (r: Option<&mut StructData>)
        requires
            old(self).wf(),
        ensures
            !old(self).has_struct(id@) ==> r is None,
            old(self).has_struct(id@) ==> r is Some && *r->0 == old(self).struct_of(id@),
            old(self).has_struct(id@) ==> final(self).structs@ == old(self).structs@.update(
                key_index(old(self).structs@, id@),
                (old(self).structs@[key_index(old(self).structs@, id@)].0, *final(r->0)),
            ),
            !old(self).has_struct(id@) ==> *final(self) == *old(self),
            final(self).references == old(self).references,
            final(self).variables == old(self).variables,
    {
        match find_key(&self.structs, id) {
            Some(i) => Some(&mut self.structs[i].1),
            None => None,
        }
    }

    pub fn get_struct(&self, id: &str) -> (s: &StructData)
        requires
            self.wf(),
            self.has_struct(id@),
        ensures
            *s == self.struct_of(id@),
    {
        let i = find_key(&self.structs, id).unwrap();
        &self.structs[i].1
    }
}

/// The views of a list of strings.
pub open spec fn ids_view(s: Seq<String>) -> Seq<Seq<char>> {
    s.map_values(|x: String| x@)
}

impl AnalysisContext {
    /// Follows the reference each variable last took, from `root`, for at most
    /// `max - total` steps; the result lists the variables from the deepest one to `root`.
    pub open spec fn chain_down(&self, root: Seq<char>, total: int, max: int) -> Seq<Seq<char>>
        decreases max - total,
    {
        if total >= max {
            seq![]
        } else {
            let v = self.var(root);
            if v.points_to@.len() == 0 {
                seq![root]
            } else {
                self.chain_down(
                    self.references@[v.points_to@.last() as int].ref_to_id(),
                    total + 1,
                    max,
                ).push(root)
            }
        }
    }

    /// The pointer chain upwards from `root`: the borrower of the last reference held to
    /// each variable, climbing for at most `max - total` steps; the topmost pointer comes
    /// first and `root` last.
    pub open spec fn chain_up(&self, root: Seq<char>, total: int, max: int) -> Seq<Seq<char>>
        decreases max - total,
    {
        if total >= max {
            seq![]
        } else {
            let v = self.var(root);
            if v.pointed_to@.len() == 0 {
                seq![root]
            } else {
                self.chain_up(
                    self.references@[v.pointed_to@.last() as int].borrower_id(),
                    total + 1,
                    max,
                ).push(root)
            }
        }
    }

    /// Constructs the pointer chain upwards: `[ptr_n, .., ptr_1, root]`, climbing through the
    /// borrower of the last reference held to each variable.
    pub fn construct_ptr_chain_upwards(&self, root: String, total_depth: u8, max_depth: u8) -> (r:
        Vec<String>)
        requires
            self.wf(),
            self.linked(),
            self.has_var(root@),
            total_depth <= max_depth,
        ensures
            ids_view(r@) == self.chain_up(root@, total_depth as int, max_depth as int),
        decreases max_depth - total_depth,
    {
        if total_depth == max_depth {
            return Vec::new();
        }
        let v = self.get_var(root.as_str());
        if v.pointed_to.len() == 0 {
            let mut chain = Vec::new();
            chain.push(root);
            proof {
                assert(ids_view(chain@) =~= seq![root@]);
            }
            chain
        } else {
            let last = v.pointed_to[v.pointed_to.len() - 1];
            proof {
                let i = key_index(self.variables@, root@);
                lemma_key_index(self.variables@, i);
                assert(var_refs_in(self.variables@[i].1, self.references@.len()));
                assert(v.pointed_to@[v.pointed_to@.len() - 1] < self.references@.len());
                let k = v.pointed_to@.len() - 1;
                assert(self.variables@[i].1.pointed_to@[k] == last);
                assert(has_key(self.variables@, self.references@[last as int].borrower_id()));
            }
            let next = self.references[last].get_borrower().to_owned();
            let mut chain = self.construct_ptr_chain_upwards(next, total_depth + 1, max_depth);
            let ghost before = chain@;
            chain.push(root);
            proof {
                assert(ids_view(chain@) =~= ids_view(before).push(chain@.last()@));
            }
            chain
        }
    }

    /// Every variable the downward chain from `root` visits within `max - total` steps is
    /// declared.
    pub open spec fn chain_declared(&self, root: Seq<char>, total: int, max: int) -> bool
        decreases max - total,
    {
        if total >= max {
            true
        } else {
            &&& self.has_var(root)
            &&& {
                let v = self.var(root);
                v.points_to@.len() == 0 || self.chain_declared(
                    self.references@[v.points_to@.last() as int].ref_to_id(),
                    total + 1,
                    max,
                )
            }
        }
    }

    /// When every reference refers to a declared variable, so does every chain.
    pub proof fn lemma_chain_declared(&self, root: Seq<char>, total: int, max: int)
        requires
            self.wf(),
            self.targets_declared(),
            self.has_var(root),
        ensures
            self.chain_declared(root, total, max),
        decreases max - total,
    {
        if total < max {
            let v = self.var(root);
            if v.points_to@.len() > 0 {
                let i = key_index(self.variables@, root);
                lemma_key_index(self.variables@, i);
                assert(var_refs_in(self.variables@[i].1, self.references@.len()));
                assert(v.points_to@[v.points_to@.len() - 1] < self.references@.len());
                let next = self.references@[v.points_to@.last() as int].ref_to_id();
                assert(has_key(self.variables@, next));
                self.lemma_chain_declared(next, total + 1, max);
            }
        }
    }

    /// Constructs a pointer chain downwards: `[value, .., ptr_1, root]`.
    pub fn construct_ptr_chain_downwards(&self, root: String, total_depth: u8, max_depth: u8) -> (r:
        Vec<String>)
        requires
            self.wf(),
            self.chain_declared(root@, total_depth as int, max_depth as int),
            total_depth <= max_depth,
        ensures
            ids_view(r@) == self.chain_down(root@, total_depth as int, max_depth as int),
            forall|i: int| 0 <= i < r@.len() ==> self.has_var(#[trigger] r@[i]@),
            r@.len() <= max_depth - total_depth,
        decreases max_depth - total_depth,
    {
        if total_depth == max_depth {
            return Vec::new();
        }
        let v = self.get_var(root.as_str());
        if v.points_to.len() == 0 {
            let mut chain = Vec::new();
            chain.push(root);
            proof {
                assert(ids_view(chain@) =~= seq![root@]);
            }
            chain
        } else {
            let last = v.points_to[v.points_to.len() - 1];
            proof {
                let i = key_index(self.variables@, root@);
                lemma_key_index(self.variables@, i);
                assert(var_refs_in(self.variables@[i].1, self.references@.len()));
                assert(v.points_to@[v.points_to@.len() - 1] < self.references@.len());
            }
            let next = self.references[last].get_reference_to().to_owned();
            let mut chain = self.construct_ptr_chain_downwards(next, total_depth + 1, max_depth);
            let ghost before = chain@;
            chain.push(root);
            proof {
                assert(ids_view(chain@) =~= ids_view(before).push(chain@.last()@));
            }
            chain
        }
    }
}

impl AnalysisContext {
    /// The reference that the walk of a reference chain takes next from variable `sub`: the
    /// first one `sub` holds over `line`, or (on the first step only) the last one it took;
    /// -1 when there is none.
    pub open spec fn next_ref(&self, sub: Seq<char>, line: int, first: bool) -> int {
        let v = self.var(sub);
        let f = first_ref_at_line(v.points_to@, self.references@, line);
        if f >= 0 {
            v.points_to@[f] as int
        } else if first && v.points_to@.len() > 0 {
            v.points_to@.last() as int
        } else {
            -1
        }
    }

    /// The references met walking from reference `start` for at most `fuel` steps.
    pub open spec fn ref_walk(&self, start: int, line: int, fuel: nat) -> Seq<Reference>
        decreases fuel,
    {
        if fuel == 0 || start < 0 || start >= self.references@.len() {
            seq![]
        } else {
            seq![self.references@[start]] + self.ref_walk(
                self.next_ref(self.references@[start].ref_to_id(), line, false),
                line,
                (fuel - 1) as nat,
            )
        }
    }

    /// The next reference of a walk, from variable `sub`, as an index (-1: none).
    fn next_ref_exec(&self, sub: &str, line: LineNumber, first: bool) -> (r: Option<usize>)
        requires
            self.wf(),
            self.has_var(sub@),
        ensures
            r matches Some(i) ==> i == self.next_ref(sub@, line as int, first) && i < self.references@.len(),
            r is None ==> self.next_ref(sub@, line as int, first) == -1,
    {
        let v = self.get_var(sub);
        proof {
            let i = key_index(self.variables@, sub@);
            lemma_key_index(self.variables@, i);
            assert(var_refs_in(self.variables@[i].1, self.references@.len()));
        }
        let at = v.reference_at_line(&self.references, line);
        match at {
            Some(r) => {
                proof {
                    crate::data_model::lemma_first_ref_at_line_bounds(v.points_to@, self.references@, line as int);
                }
                Some(r)
            },
            None => {
                if first {
                    let cur = v.current_reference_held();
                    proof {
                        if v.points_to@.len() > 0 {
                            assert(v.points_to@[v.points_to@.len() - 1] < self.references@.len());
                        }
                    }
                    cur
                } else {
                    None
                }
            },
        }
    }
}

impl Reference {
    /// The references a dereference through this reference passes, on `line`: this one, then
    /// the reference its target holds over that line (or the target's last reference on the
    /// first step), and so on. The walk stops after as many steps as there are references.
    pub fn construct_reference_chain(&self, ctx: &AnalysisContext, line: LineNumber) -> (r: Vec<
        Reference,
    >)
        requires
            ctx.wf(),
            ctx.targets_declared(),
            ctx.has_var(self.ref_to_id()),
        ensures
            r@ == seq![*self] + ctx.ref_walk(
                ctx.next_ref(self.ref_to_id(), line as int, true),
                line as int,
                ctx.references@.len(),
            ),
    {
        let mut points_to: Vec<Reference> = Vec::new();
        points_to.push(self.duplicate());
        let sub = self.get_reference_to();
        let mut maybe = ctx.next_ref_exec(sub, line, true);
        let mut fuel = ctx.references.len();
        let ghost target = seq![*self] + ctx.ref_walk(
            ctx.next_ref(self.ref_to_id(), line as int, true),
            line as int,
            ctx.references@.len(),
        );
        while fuel > 0 && maybe.is_some()
            invariant
                ctx.wf(),
                ctx.targets_declared(),
                maybe matches Some(i) ==> i < ctx.references@.len(),
                points_to@ + ctx.ref_walk(
                    match maybe {
                        Some(i) => i as int,
                        None => -1,
                    },
                    line as int,
                    fuel as nat,
                ) == target,
            decreases fuel,
        {
            let r = maybe.unwrap();
            let ghost before = points_to@;
            points_to.push(ctx.references[r].duplicate());
            let next = ctx.references[r].get_reference_to();
            assert(has_key(ctx.variables@, ctx.references@[r as int].ref_to_id()));
            maybe = ctx.next_ref_exec(next, line, false);
            proof {
                let rest = ctx.ref_walk(
                    ctx.next_ref(ctx.references@[r as int].ref_to_id(), line as int, false),
                    line as int,
                    (fuel - 1) as nat,
                );
                assert(ctx.ref_walk(r as int, line as int, fuel as nat) == seq![ctx.references@[r as int]] + rest);
                assert(points_to@ + rest =~= before + (seq![ctx.references@[r as int]] + rest));
            }
            fuel = fuel - 1;
        }
        proof {
            assert(ctx.ref_walk(
                match maybe {
                    Some(i) => i as int,
                    None => -1,
                },
                line as int,
                fuel as nat,
            ) == Seq::<Reference>::empty());
            assert(points_to@ + Seq::<Reference>::empty() =~= points_to@);
        }
        points_to
    }
}
} // verus!
