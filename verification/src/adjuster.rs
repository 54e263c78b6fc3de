use vstd::prelude::*;
use crate::analysis_ctx::AnalysisContext;
use crate::ast::TokenNode;
use crate::checker::{errors_view, BorrowError, BorrowErrorView};
use crate::data_model::{spec_raw_kind, LineNumber, ReferenceType, Usage, UsageType, VarData};

verus! {

broadcast use vstd::seq_lib::group_to_multiset_ensures;

/// `s` with the element at `from` taken out and put back just before the element that was
/// at `to`; unchanged when the two are the same or either is out of bounds.
pub open spec fn spec_move_before<T>(s: Seq<T>, from: int, to: int) -> Seq<T> {
    if from == to || from < 0 || to < 0 || from >= s.len() || to >= s.len() {
        s
    } else {
        s.remove(from).insert(
            if from < to {
                to - 1
            } else {
                to
            },
            s[from],
        )
    }
}

/// Moving a node only reorders the nodes: the same nodes, as often, are there afterwards.
pub proof fn lemma_move_before_permutes<T>(s: Seq<T>, from: int, to: int)
    ensures
        spec_move_before(s, from, to).to_multiset() =~= s.to_multiset(),
        spec_move_before(s, from, to).len() == s.len(),
{
    if !(from == to || from < 0 || to < 0 || from >= s.len() || to >= s.len()) {
        let a = s[from];
        let r = s.remove(from);
        let i = if from < to {
            to - 1
        } else {
            to
        };
        let t = r.insert(i, a);
        assert(t.remove(i) =~= r);
        assert(t[i] == a);
        assert(r.to_multiset() =~= s.to_multiset().remove(a));
        assert(r.to_multiset() =~= t.to_multiset().remove(a));
        assert(t.to_multiset().count(a) > 0) by {
            assert(t.contains(a));
        }
        assert(s.to_multiset().count(a) > 0) by {
            assert(s.contains(a));
        }
        assert(t.to_multiset() =~= s.to_multiset()) by {
            assert forall|x: T| t.to_multiset().count(x) == s.to_multiset().count(x) by {
                if x == a {
                    assert(t.to_multiset().remove(a).count(a) == t.to_multiset().count(a) - 1);
                    assert(s.to_multiset().remove(a).count(a) == s.to_multiset().count(a) - 1);
                } else {
                    assert(t.to_multiset().remove(a).count(x) == t.to_multiset().count(x));
                    assert(s.to_multiset().remove(a).count(x) == s.to_multiset().count(x));
                }
            }
        }
    }
}

/// Moves the node at `from_index` to just before the node at `to_index`; nothing happens
/// when the indices are equal or out of bounds.
pub fn move_node_before(children: &mut Vec<TokenNode>, from_index: usize, to_index: usize)
    ensures
        final(children)@ == spec_move_before(old(children)@, from_index as int, to_index as int),
{
    if from_index == to_index || from_index >= children.len() || to_index >= children.len() {
        return ;
    }
    let node = children.remove(from_index);
    let insert_index = if from_index < to_index {
        to_index - 1
    } else {
        to_index
    };
    children.insert(insert_index, node);
}

/// The position of the first node on `line`, or -1.
pub open spec fn line_pos(s: Seq<TokenNode>, line: int) -> int
    decreases s.len(),
{
    if s.len() == 0 {
        -1
    } else if s[0].line == line {
        0
    } else {
        let r = line_pos(s.drop_first(), line);
        if r < 0 {
            -1
        } else {
            r + 1
        }
    }
}

proof fn lemma_line_pos(s: Seq<TokenNode>, line: int)
    ensures
        -1 <= line_pos(s, line) < s.len(),
        line_pos(s, line) >= 0 ==> s[line_pos(s, line)].line == line,
        forall|k: int|
            0 <= k < s.len() && (k < line_pos(s, line) || line_pos(s, line) < 0) ==> #[trigger] s[k].line
                != line,
    decreases s.len(),
{
    if s.len() > 0 {
        lemma_line_pos(s.drop_first(), line);
        assert forall|k: int|
            0 <= k < s.len() && (k < line_pos(s, line) || line_pos(s, line) < 0) implies #[trigger] s[k].line
                != line by {
            if k > 0 {
                assert(s[k] == s.drop_first()[k - 1]);
            }
        }
    }
}

/// The position of the first node on `line`.
fn line_position(s: &Vec<TokenNode>, line: LineNumber) -> (r: Option<usize>)
    ensures
        r matches Some(i) ==> i == line_pos(s@, line as int),
        r is None <==> line_pos(s@, line as int) < 0,
{
    proof {
        lemma_line_pos(s@, line as int);
    }
    let mut k: usize = 0;
    while k < s.len()
        invariant
            k <= s@.len(),
            forall|q: int| 0 <= q < k ==> #[trigger] s@[q].line != line,
            -1 <= line_pos(s@, line as int) < s@.len(),
            line_pos(s@, line as int) >= 0 ==> s@[line_pos(s@, line as int)].line == line,
            forall|q: int|
                0 <= q < s@.len() && (q < line_pos(s@, line as int) || line_pos(s@, line as int) < 0)
                    ==> #[trigger] s@[q].line != line,
        decreases s.len() - k,
    {
        if s[k].line == line {
            return Some(k);
        }
        k = k + 1;
    }
    None
}

/// Both lines start a node among these siblings, and they are different lines.
pub open spec fn both_lines(s: Seq<TokenNode>, first: int, second: int) -> bool {
    first != second && line_pos(s, first) >= 0 && line_pos(s, second) >= 0
}

/// `after` is `before` with the lines rearranged: in the first list of siblings (searching
/// the tree from the top, each level before the next) that has a node on `first` and a
/// node on `second`, the node on `second` is moved just before the node on `first`.
pub open spec fn rearranged(first: int, second: int, before: TokenNode, after: TokenNode) -> bool
    decreases before, 1nat,
{
    &&& after.token == before.token
    &&& after.line == before.line
    &&& match before.children {
        None => after.children is None,
        Some(b) => after.children matches Some(a) && if both_lines(b@, first, second) {
            a@ == spec_move_before(b@, line_pos(b@, second), line_pos(b@, first))
        } else {
            rearranged_seq(first, second, b@, a@)
        },
    }
}

pub open spec fn rearranged_seq(first: int, second: int, before: Seq<TokenNode>, after: Seq<TokenNode>) -> bool
    decreases before, 0nat,
{
    &&& after.len() == before.len()
    &&& before.len() > 0 ==> {
        &&& rearranged_seq(first, second, before.drop_last(), after.drop_last())
        &&& rearranged(first, second, before.last(), after.last())
    }
}

proof fn lemma_rearranged_seq(first: int, second: int, before: Seq<TokenNode>, after: Seq<TokenNode>)
    requires
        after.len() == before.len(),
        forall|k: int| 0 <= k < before.len() ==> rearranged(first, second, #[trigger] before[k], after[k]),
    ensures
        rearranged_seq(first, second, before, after),
    decreases before.len(),
{
    if before.len() > 0 {
        let n = before.len() - 1;
        assert forall|k: int| 0 <= k < before.drop_last().len() implies rearranged(
            first,
            second,
            #[trigger] before.drop_last()[k],
            after.drop_last()[k],
        ) by {
            assert(before.drop_last()[k] == before[k]);
            assert(after.drop_last()[k] == after[k]);
        }
        lemma_rearranged_seq(first, second, before.drop_last(), after.drop_last());
        assert(rearranged(first, second, before[n], after[n]));
    }
}

/// Moves the node on `second_line` to just before the node on `first_line`, in the first
/// list of siblings (searching from the top) that has both.
pub fn rearrange_lines_tree(first_line: LineNumber, second_line: LineNumber, root: &mut TokenNode)
    ensures
        rearranged(first_line as int, second_line as int, *old(root), *final(root)),
    decreases *old(root),
{
    let ghost orig = *root;
    match &mut root.children {
        Some(children) => {
            let fi = line_position(children, first_line);
            let si = line_position(children, second_line);
            if first_line != second_line && fi.is_some() && si.is_some() {
                move_node_before(children, si.unwrap(), fi.unwrap());
                return ;
            }
            let ghost b = children@;
            let mut j: usize = 0;
            while j < children.len()
                invariant
                    orig == *old(root),
                    orig.children is Some && orig.children->0@ == b,
                    children@.len() == b.len(),
                    j <= b.len(),
                    forall|k: int| 0 <= k < j ==> rearranged(first_line as int, second_line as int, #[trigger] b[k], children@[k]),
                    forall|k: int| j <= k < b.len() ==> #[trigger] children@[k] == b[k],
                decreases b.len() - j,
            {
                proof {
                    crate::analyzer::lemma_child_smaller(orig, j as int);
                }
                rearrange_lines_tree(first_line, second_line, &mut children[j]);
                j = j + 1;
            }
            proof {
                lemma_rearranged_seq(first_line as int, second_line as int, b, children@);
            }
        },
        None => {},
    }
}

/// Reference `r` is one of the listed references.
pub open spec fn listed(s: Seq<usize>, r: int) -> bool {
    exists|w: int| 0 <= w < s.len() && #[trigger] s[w] as int == r
}

/// The raw pointer kind of the same mutability as a borrow; other kinds stay.
fn raw_kind(k: ReferenceType) -> (r: ReferenceType)
    ensures
        r == spec_raw_kind(k),
{
    match k {
        ReferenceType::MutBorrowed => ReferenceType::MutPtr,
        ReferenceType::ConstBorrowed => ReferenceType::ConstPtr,
        _ => k,
    }
}

/// `after` is `before` with every reference the pointer `ptr` holds turned into a raw
/// pointer of the same mutability, and nothing else changed.
pub open spec fn raw_set(before: AnalysisContext, ptr: Seq<char>, after: AnalysisContext) -> bool {
    &&& after.wf()
    &&& after.same_links(&before)
    &&& after.variables == before.variables
    &&& after.references@.len() == before.references@.len()
    &&& forall|r: int|
        0 <= r < before.references@.len() ==> #[trigger] after.references@[r] == if listed(
            before.var(ptr).points_to@,
            r,
        ) {
            before.references@[r].with_kind(spec_raw_kind(before.references@[r].kind()))
        } else {
            before.references@[r]
        }
}

/// Turns every reference the pointer `ptr_id` holds into a raw pointer of the same
/// mutability; nothing else changes.
pub fn set_ptr_raw(ptr_id: &str, ctx: &mut AnalysisContext)
    requires
        old(ctx).wf(),
        old(ctx).has_var(ptr_id@),
    ensures
        raw_set(*old(ctx), ptr_id@, *final(ctx)),
{
    let ghost old_ctx = *ctx;
    let held = ctx.get_var(ptr_id).points_to.clone();
    proof {
        let i = crate::analysis_ctx::key_index(old_ctx.variables@, ptr_id@);
        crate::analysis_ctx::lemma_key_index(old_ctx.variables@, i);
        assert(crate::data_model::var_refs_in(old_ctx.variables@[i].1, old_ctx.references@.len()));
    }
    let mut i: usize = 0;
    while i < held.len()
        invariant
            old_ctx.wf(),
            old_ctx.has_var(ptr_id@),
            held@ == old_ctx.var(ptr_id@).points_to@,
            forall|q: int| 0 <= q < held@.len() ==> #[trigger] held@[q] < old_ctx.references@.len(),
            i <= held@.len(),
            ctx.wf(),
            ctx.same_links(&old_ctx),
            ctx.variables == old_ctx.variables,
            forall|r: int|
                0 <= r < old_ctx.references@.len() ==> #[trigger] ctx.references@[r] == if listed(
                    held@.subrange(0, i as int),
                    r,
                ) {
                    old_ctx.references@[r].with_kind(spec_raw_kind(old_ctx.references@[r].kind()))
                } else {
                    old_ctx.references@[r]
                },
        decreases held.len() - i,
    {
        let r = held[i];
        let k = raw_kind(ctx.references[r].get_reference_type());
        let ghost before = *ctx;
        ctx.set_ref_kind(r, k);
        proof {
            ctx.lemma_same_links_trans(&before, &old_ctx);
            assert forall|q: int| 0 <= q < old_ctx.references@.len() implies #[trigger] ctx.references@[q]
                == if listed(held@.subrange(0, i + 1), q) {
                old_ctx.references@[q].with_kind(spec_raw_kind(old_ctx.references@[q].kind()))
            } else {
                old_ctx.references@[q]
            } by {
                assert(held@.subrange(0, i + 1)[i as int] == r);
                if q == r as int {
                    assert(held@.subrange(0, i + 1)[i as int] as int == q);
                    let o = old_ctx.references@[q];
                    let raw = spec_raw_kind(o.kind());
                    o.lemma_with_kind(raw);
                    o.lemma_with_kind_twice(raw, raw);
                    assert(k == spec_raw_kind(before.references@[q].kind()));
                    assert(ctx.references@[q] == before.references@[q].with_kind(k));
                    if listed(held@.subrange(0, i as int), q) {
                        assert(before.references@[q] == o.with_kind(raw));
                        assert(k == raw);
                    } else {
                        assert(before.references@[q] == o);
                    }
                } else {
                    assert(listed(held@.subrange(0, i + 1), q) == listed(held@.subrange(0, i as int), q)) by {
                        if listed(held@.subrange(0, i + 1), q) {
                            let w = choose|w: int| 0 <= w < i + 1 && #[trigger] held@.subrange(0, i + 1)[w] as int == q;
                            assert(w != i);
                            assert(held@.subrange(0, i as int)[w] as int == q);
                        }
                        if listed(held@.subrange(0, i as int), q) {
                            let w = choose|w: int| 0 <= w < i && #[trigger] held@.subrange(0, i as int)[w] as int == q;
                            assert(held@.subrange(0, i + 1)[w] as int == q);
                        }
                    }
                }
            }
        }
        i = i + 1;
    }
    proof {
        assert(held@.subrange(0, held@.len() as int) =~= held@);
    }
}

/// Some reference held to `k` is a mutable borrow.
pub open spec fn has_mut_borrower(ctx: AnalysisContext, k: Seq<char>) -> bool {
    exists|q: int|
        0 <= q < ctx.var(k).pointed_to@.len() && #[trigger] ctx.references@[ctx.var(
            k,
        ).pointed_to@[q] as int].kind() == ReferenceType::MutBorrowed
}

/// `k` holds one of the listed references.
pub open spec fn borrows_one_of(ctx: AnalysisContext, refs: Seq<usize>, k: Seq<char>) -> bool {
    exists|q: int|
        0 <= q < refs.len() && #[trigger] ctx.references@[refs[q] as int].borrower_id() == k
}

/// Some reference held to `k` is a mutable borrow.
fn any_mut_borrower(ctx: &AnalysisContext, k: &str) -> (b: bool)
    requires
        ctx.wf(),
        ctx.has_var(k@),
    ensures
        b == has_mut_borrower(*ctx, k@),
{
    let held = &ctx.get_var(k).pointed_to;
    proof {
        let i = crate::analysis_ctx::key_index(ctx.variables@, k@);
        crate::analysis_ctx::lemma_key_index(ctx.variables@, i);
        assert(crate::data_model::var_refs_in(ctx.variables@[i].1, ctx.references@.len()));
    }
    let mut j: usize = 0;
    while j < held.len()
        invariant
            ctx.wf(),
            *held == ctx.var(k@).pointed_to,
            forall|q: int| 0 <= q < held@.len() ==> #[trigger] held@[q] < ctx.references@.len(),
            j <= held@.len(),
            forall|q: int| 0 <= q < j ==> #[trigger] ctx.references@[held@[q] as int].kind() != ReferenceType::MutBorrowed,
        decreases held.len() - j,
    {
        if ctx.references[held[j]].get_reference_type() == ReferenceType::MutBorrowed {
            return true;
        }
        j = j + 1;
    }
    false
}

/// `after` is `before` with `value` shared through `Rc<RefCell<..>>`: see `set_ptr_rc`.
pub open spec fn rc_set(before: AnalysisContext, value: Seq<char>, after: AnalysisContext) -> bool {
    &&& after.wf()
    &&& after.same_links(&before)
    &&& forall|k: Seq<char>| after.has_var(k) == before.has_var(k)
    &&& after.references@.len() == before.references@.len()
    &&& forall|r: int|
        0 <= r < before.references@.len() ==> #[trigger] after.references@[r] == if listed(
            before.var(value).pointed_to@,
            r,
        ) {
            before.references@[r].with_kind(ReferenceType::RcRefClone)
        } else {
            before.references@[r]
        }
    &&& after.var(value) == (VarData { rc: true, is_mut: false, ..before.var(value) })
    &&& forall|k: Seq<char>|
        k != value && before.has_var(k) ==> #[trigger] after.var(k) == (VarData {
            is_mut: before.var(k).is_mut && !(borrows_one_of(before, before.var(value).pointed_to@, k)
                && !has_mut_borrower(before, k)),
            ..before.var(k)
        })
}

/// Shares `value_id` through `Rc<RefCell<..>>`: the value becomes reference counted and
/// immutable, every reference held to it becomes an `Rc` clone, and each variable that
/// holds one of those references stops being mutable unless some reference held to it is
/// a mutable borrow.
pub fn set_ptr_rc(value_id: &str, ctx: &mut AnalysisContext)
    requires
        old(ctx).wf(),
        old(ctx).has_var(value_id@),
    ensures
        rc_set(*old(ctx), value_id@, *final(ctx)),
{
    let ghost old_ctx = *ctx;
    let unused = ctx.get_var(value_id).init_value_unused;
    ctx.set_var_flags(value_id, true, false, unused);
    let ptrs = ctx.get_var(value_id).pointed_to.clone();
    proof {
        let i = crate::analysis_ctx::key_index(old_ctx.variables@, value_id@);
        crate::analysis_ctx::lemma_key_index(old_ctx.variables@, i);
        assert(crate::data_model::var_refs_in(old_ctx.variables@[i].1, old_ctx.references@.len()));
        assert(ptrs@ == old_ctx.var(value_id@).pointed_to@);
    }
    let mut i: usize = 0;
    while i < ptrs.len()
        invariant
            old_ctx.wf(),
            old_ctx.has_var(value_id@),
            ptrs@ == old_ctx.var(value_id@).pointed_to@,
            forall|q: int| 0 <= q < ptrs@.len() ==> #[trigger] ptrs@[q] < old_ctx.references@.len(),
            i <= ptrs@.len(),
            ctx.wf(),
            ctx.same_links(&old_ctx),
            forall|k: Seq<char>| ctx.has_var(k) == old_ctx.has_var(k),
            forall|r: int|
                0 <= r < old_ctx.references@.len() ==> #[trigger] ctx.references@[r] == if listed(
                    ptrs@.subrange(0, i as int),
                    r,
                ) {
                    old_ctx.references@[r].with_kind(ReferenceType::RcRefClone)
                } else {
                    old_ctx.references@[r]
                },
            ctx.var(value_id@) == (VarData { rc: true, is_mut: false, ..old_ctx.var(value_id@) }),
            forall|k: Seq<char>|
                k != value_id@ && old_ctx.has_var(k) ==> #[trigger] ctx.var(k) == (VarData {
                    is_mut: old_ctx.var(k).is_mut && !(borrows_one_of(
                        old_ctx,
                        ptrs@.subrange(0, i as int),
                        k,
                    ) && !has_mut_borrower(old_ctx, k)),
                    ..old_ctx.var(k)
                }),
        decreases ptrs.len() - i,
    {
        let r = ptrs[i];
        let ghost before = *ctx;
        let ghost pre = ptrs@.subrange(0, i as int);
        let ghost post = ptrs@.subrange(0, i + 1);
        ctx.set_ref_kind(r, ReferenceType::RcRefClone);
        proof {
            ctx.lemma_same_links_trans(&before, &old_ctx);
            assert(post[i as int] == r);
            assert forall|q: int| 0 <= q < old_ctx.references@.len() implies #[trigger] ctx.references@[q]
                == if listed(post, q) {
                old_ctx.references@[q].with_kind(ReferenceType::RcRefClone)
            } else {
                old_ctx.references@[q]
            } by {
                if q == r as int {
                    assert(post[i as int] as int == q);
                    let o = old_ctx.references@[q];
                    o.lemma_with_kind_twice(ReferenceType::RcRefClone, ReferenceType::RcRefClone);
                } else {
                    assert(listed(post, q) == listed(pre, q)) by {
                        if listed(post, q) {
                            let w = choose|w: int| 0 <= w < i + 1 && #[trigger] post[w] as int == q;
                            assert(w != i);
                            assert(pre[w] as int == q);
                        }
                        if listed(pre, q) {
                            let w = choose|w: int| 0 <= w < i && #[trigger] pre[w] as int == q;
                            assert(post[w] as int == q);
                        }
                    }
                }
            }
            assert(ctx.references@[r as int].borrower_id() == old_ctx.references@[r as int].borrower_id()) by {
                old_ctx.references@[r as int].lemma_with_kind(ReferenceType::RcRefClone);
            }
        }
        let borrower = ctx.references[r].get_borrower().to_owned();
        let ghost mid = *ctx;
        proof {
            // every reference held to another variable than the value is left as it was
            assert forall|k: Seq<char>| k != value_id@ && old_ctx.has_var(k) implies has_mut_borrower(mid, k)
                == has_mut_borrower(old_ctx, k) by {
                let ki = crate::analysis_ctx::key_index(old_ctx.variables@, k);
                crate::analysis_ctx::lemma_key_index(old_ctx.variables@, ki);
                let vi = crate::analysis_ctx::key_index(old_ctx.variables@, value_id@);
                crate::analysis_ctx::lemma_key_index(old_ctx.variables@, vi);
                assert(mid.var(k).pointed_to == old_ctx.var(k).pointed_to);
                let held = old_ctx.var(k).pointed_to@;
                assert forall|q: int| 0 <= q < held.len() implies #[trigger] mid.references@[held[q] as int]
                    == old_ctx.references@[held[q] as int] by {
                    let x = held[q] as int;
                    assert(old_ctx.references@[x].ref_to_id() == k);
                    if listed(post, x) {
                        let w = choose|w: int| 0 <= w < i + 1 && #[trigger] post[w] as int == x;
                        assert(ptrs@[w] as int == x);
                        assert(old_ctx.references@[ptrs@[w] as int].ref_to_id() == value_id@);
                    }
                }
                if has_mut_borrower(mid, k) {
                    let q = choose|q: int|
                        0 <= q < mid.var(k).pointed_to@.len() && #[trigger] mid.references@[mid.var(
                            k,
                        ).pointed_to@[q] as int].kind() == ReferenceType::MutBorrowed;
                    assert(old_ctx.references@[held[q] as int].kind() == ReferenceType::MutBorrowed);
                }
                if has_mut_borrower(old_ctx, k) {
                    let q = choose|q: int|
                        0 <= q < old_ctx.var(k).pointed_to@.len() && #[trigger] old_ctx.references@[old_ctx.var(
                            k,
                        ).pointed_to@[q] as int].kind() == ReferenceType::MutBorrowed;
                    assert(mid.references@[held[q] as int].kind() == ReferenceType::MutBorrowed);
                }
            }
            assert forall|k: Seq<char>| #[trigger] borrows_one_of(old_ctx, post, k) == (borrows_one_of(
                old_ctx,
                pre,
                k,
            ) || old_ctx.references@[r as int].borrower_id() == k) by {
                if borrows_one_of(old_ctx, post, k) {
                    let q = choose|q: int|
                        0 <= q < post.len() && #[trigger] old_ctx.references@[post[q] as int].borrower_id() == k;
                    if q < i {
                        assert(pre[q] == post[q]);
                    }
                }
                if borrows_one_of(old_ctx, pre, k) {
                    let q = choose|q: int|
                        0 <= q < pre.len() && #[trigger] old_ctx.references@[pre[q] as int].borrower_id() == k;
                    assert(pre[q] == post[q]);
                }
                if old_ctx.references@[r as int].borrower_id() == k {
                    assert(old_ctx.references@[post[i as int] as int].borrower_id() == k);
                }
            }
        }
        let ghost mut cleared = false;
        let ghost mut declared = false;
        let ghost mut found_mut = false;
        if ctx.has_variable(borrower.as_str()) {
            let any = any_mut_borrower(ctx, borrower.as_str());
            proof {
                declared = true;
                found_mut = any;
            }
            if !any {
                ctx.set_var_mut(borrower.as_str(), false);
                proof {
                    ctx.lemma_same_links_trans(&mid, &old_ctx);
                    cleared = true;
                }
            }
        }
        proof {
            assert forall|k: Seq<char>| k != value_id@ && old_ctx.has_var(k) implies #[trigger] ctx.var(k)
                == (VarData {
                is_mut: old_ctx.var(k).is_mut && !(borrows_one_of(old_ctx, post, k)
                    && !has_mut_borrower(old_ctx, k)),
                ..old_ctx.var(k)
            }) by {
                assert(mid.var(k) == before.var(k));
                assert(borrows_one_of(old_ctx, post, k) == (borrows_one_of(old_ctx, pre, k)
                    || old_ctx.references@[r as int].borrower_id() == k));
                if k == borrower@ {
                    assert(declared);
                    assert(found_mut == has_mut_borrower(old_ctx, k));
                }
            }
        }
        i = i + 1;
    }
    proof {
        assert(ptrs@.subrange(0, ptrs@.len() as int) =~= ptrs@);
    }
}

/// Where a usage on `line` lands when the statement on line `swing` is moved up to `pivot`:
/// the usage on `swing` goes to `pivot`, and those on `pivot` up to `swing` move down by one.
pub open spec fn moved_line(pivot: int, swing: int, line: int) -> int {
    if line == swing {
        pivot
    } else if pivot <= line < swing {
        line + 1
    } else {
        line
    }
}

/// Renumbers the usages of every variable after the line `swing` was moved to `pivot` in
/// the tree.
pub fn rearrange_lines_ctx(pivot: LineNumber, swing: LineNumber, ctx: &mut AnalysisContext)
    requires
        old(ctx).wf(),
    ensures
        final(ctx).wf(),
        final(ctx).same_links(old(ctx)),
        final(ctx).references == old(ctx).references,
        final(ctx).structs == old(ctx).structs,
        final(ctx).variables@.len() == old(ctx).variables@.len(),
        forall|i: int|
            0 <= i < old(ctx).variables@.len() ==> {
                &&& (#[trigger] final(ctx).variables@[i]).0 == old(ctx).variables@[i].0
                &&& final(ctx).variables@[i].1 == (VarData {
                    usages: final(ctx).variables@[i].1.usages,
                    ..old(ctx).variables@[i].1
                })
                &&& final(ctx).variables@[i].1.usages@.len() == old(ctx).variables@[i].1.usages@.len()
                &&& forall|j: int|
                    0 <= j < old(ctx).variables@[i].1.usages@.len()
                        ==> #[trigger] final(ctx).variables@[i].1.usages@[j] == Usage::spec_new(
                        moved_line(
                            pivot as int,
                            swing as int,
                            old(ctx).variables@[i].1.usages@[j].line_of() as int,
                        ) as usize,
                        old(ctx).variables@[i].1.usages@[j].kind_of(),
                    )
            },
{
    let ghost old_ctx = *ctx;
    let mut i: usize = 0;
    while i < ctx.variables.len()
        invariant
            old_ctx.wf(),
            ctx.wf(),
            ctx.same_links(&old_ctx),
            ctx.references == old_ctx.references,
            ctx.structs == old_ctx.structs,
            ctx.variables@.len() == old_ctx.variables@.len(),
            i <= ctx.variables@.len(),
            forall|q: int| i <= q < ctx.variables@.len() ==> #[trigger] ctx.variables@[q] == old_ctx.variables@[q],
            forall|q: int|
                0 <= q < i ==> {
                    &&& (#[trigger] ctx.variables@[q]).0 == old_ctx.variables@[q].0
                    &&& ctx.variables@[q].1 == (VarData {
                        usages: ctx.variables@[q].1.usages,
                        ..old_ctx.variables@[q].1
                    })
                    &&& ctx.variables@[q].1.usages@.len() == old_ctx.variables@[q].1.usages@.len()
                    &&& forall|j: int|
                        0 <= j < old_ctx.variables@[q].1.usages@.len() ==> #[trigger] ctx.variables@[q].1.usages@[j]
                            == Usage::spec_new(
                            moved_line(
                                pivot as int,
                                swing as int,
                                old_ctx.variables@[q].1.usages@[j].line_of() as int,
                            ) as usize,
                            old_ctx.variables@[q].1.usages@[j].kind_of(),
                        )
                },
        decreases ctx.variables.len() - i,
    {
        let mut usages: Vec<Usage> = Vec::new();
        let n = ctx.variables[i].1.usages.len();
        let mut j: usize = 0;
        while j < n
            invariant
                n == ctx.variables@[i as int].1.usages@.len(),
                i < ctx.variables@.len(),
                j <= n,
                usages@.len() == j,
                forall|p: int|
                    0 <= p < j ==> #[trigger] usages@[p] == Usage::spec_new(
                        moved_line(
                            pivot as int,
                            swing as int,
                            ctx.variables@[i as int].1.usages@[p].line_of() as int,
                        ) as usize,
                        ctx.variables@[i as int].1.usages@[p].kind_of(),
                    ),
            decreases n - j,
        {
            let u = &ctx.variables[i].1.usages[j];
            let line = u.get_line_number();
            let moved = if line == swing {
                pivot
            } else if pivot <= line && line < swing {
                line + 1
            } else {
                line
            };
            usages.push(Usage::new(moved, *u.get_usage_type()));
            j = j + 1;
        }
        let ghost before = *ctx;
        ctx.variables[i].1.usages = usages;
        proof {
            assert forall|q: int| 0 <= q < ctx.variables@.len() implies {
                &&& #[trigger] ctx.variables@[q].0@ == before.variables@[q].0@
                &&& ctx.variables@[q].1.points_to == before.variables@[q].1.points_to
                &&& ctx.variables@[q].1.pointed_to == before.variables@[q].1.pointed_to
            } by {}
            ctx.lemma_same_links_wf(&before, i as int);
            ctx.lemma_same_links_trans(&before, &old_ctx);
        }
        i = i + 1;
    }
}

/// The first reference the pointer `ptr` holds to `value`, or -1.
pub open spec fn ref_to_value(ctx: AnalysisContext, ptr: Seq<char>, value: Seq<char>) -> int {
    let p = ctx.var(ptr);
    let f = crate::data_model::first_ref_to(p.points_to@, ctx.references@, value);
    if f < 0 {
        -1
    } else {
        p.points_to@[f] as int
    }
}

fn find_ref(ctx: &AnalysisContext, ptr: &str, value: &str) -> (r: Option<usize>)
    requires
        ctx.wf(),
        ctx.has_var(ptr@),
    ensures
        r matches Some(i) ==> i == ref_to_value(*ctx, ptr@, value@) && i < ctx.references@.len(),
        r is None <==> ref_to_value(*ctx, ptr@, value@) < 0,
{
    let p = ctx.get_var(ptr);
    proof {
        let i = crate::analysis_ctx::key_index(ctx.variables@, ptr@);
        crate::analysis_ctx::lemma_key_index(ctx.variables@, i);
        assert(crate::data_model::var_refs_in(ctx.variables@[i].1, ctx.references@.len()));
        crate::data_model::lemma_first_ref_to(p.points_to@, ctx.references@, value@);
    }
    p.reference_to_var(&ctx.references, value)
}

/// The usage lies after `start` and no later than `end`.
pub open spec fn usage_within(u: Usage, start: int, end: int) -> bool {
    start < u.line_of() <= end
}

/// The position of the first usage that lies within `(start, end]`, or -1.
pub open spec fn first_usage_in(us: Seq<Usage>, start: int, end: int) -> int
    decreases us.len(),
{
    if us.len() == 0 {
        -1
    } else if usage_within(us[0], start, end) {
        0
    } else {
        let r = first_usage_in(us.drop_first(), start, end);
        if r < 0 {
            -1
        } else {
            r + 1
        }
    }
}

/// The position of the last usage that lies within `(start, end]`, or -1.
pub open spec fn last_usage_in(us: Seq<Usage>, start: int, end: int) -> int
    decreases us.len(),
{
    if us.len() == 0 {
        -1
    } else if usage_within(us.last(), start, end) {
        us.len() - 1
    } else {
        last_usage_in(us.drop_last(), start, end)
    }
}

proof fn lemma_first_usage_in(us: Seq<Usage>, start: int, end: int)
    ensures
        -1 <= first_usage_in(us, start, end) < us.len(),
        first_usage_in(us, start, end) >= 0 ==> usage_within(us[first_usage_in(us, start, end)], start, end),
        forall|k: int|
            0 <= k < us.len() && (k < first_usage_in(us, start, end) || first_usage_in(us, start, end) < 0)
                ==> !usage_within(#[trigger] us[k], start, end),
    decreases us.len(),
{
    if us.len() > 0 {
        lemma_first_usage_in(us.drop_first(), start, end);
        assert forall|k: int|
            0 <= k < us.len() && (k < first_usage_in(us, start, end) || first_usage_in(us, start, end) < 0)
                implies !usage_within(#[trigger] us[k], start, end) by {
            if k > 0 {
                assert(us[k] == us.drop_first()[k - 1]);
            }
        }
    }
}

proof fn lemma_last_usage_in(us: Seq<Usage>, start: int, end: int)
    ensures
        -1 <= last_usage_in(us, start, end) < us.len(),
        last_usage_in(us, start, end) >= 0 ==> usage_within(us[last_usage_in(us, start, end)], start, end),
        forall|k: int|
            0 <= k < us.len() && k > last_usage_in(us, start, end) ==> !usage_within(#[trigger] us[k], start, end),
    decreases us.len(),
{
    if us.len() > 0 {
        lemma_last_usage_in(us.drop_last(), start, end);
        assert forall|k: int|
            0 <= k < us.len() && k > last_usage_in(us, start, end) implies !usage_within(#[trigger] us[k], start, end) by {
            if k < us.len() - 1 {
                assert(us[k] == us.drop_last()[k]);
            }
        }
    }
}

fn first_usage_within(us: &Vec<Usage>, start: LineNumber, end: LineNumber) -> (r: Option<usize>)
    ensures
        r matches Some(i) ==> i == first_usage_in(us@, start as int, end as int) && i < us@.len(),
        r is None <==> first_usage_in(us@, start as int, end as int) < 0,
{
    proof {
        lemma_first_usage_in(us@, start as int, end as int);
    }
    let mut k: usize = 0;
    while k < us.len()
        invariant
            k <= us@.len(),
            forall|q: int| 0 <= q < k ==> !usage_within(#[trigger] us@[q], start as int, end as int),
            -1 <= first_usage_in(us@, start as int, end as int) < us@.len(),
            first_usage_in(us@, start as int, end as int) >= 0 ==> usage_within(
                us@[first_usage_in(us@, start as int, end as int)],
                start as int,
                end as int,
            ),
            forall|q: int|
                0 <= q < us@.len() && (q < first_usage_in(us@, start as int, end as int)
                    || first_usage_in(us@, start as int, end as int) < 0) ==> !usage_within(
                    #[trigger] us@[q],
                    start as int,
                    end as int,
                ),
        decreases us.len() - k,
    {
        let l = us[k].get_line_number();
        if start < l && l <= end {
            return Some(k);
        }
        k = k + 1;
    }
    None
}

fn last_usage_within(us: &Vec<Usage>, start: LineNumber, end: LineNumber) -> (r: Option<usize>)
    ensures
        r matches Some(i) ==> i == last_usage_in(us@, start as int, end as int) && i < us@.len(),
        r is None <==> last_usage_in(us@, start as int, end as int) < 0,
{
    proof {
        lemma_last_usage_in(us@, start as int, end as int);
    }
    let mut k: usize = us.len();
    while k > 0
        invariant
            k <= us@.len(),
            forall|q: int| k <= q < us@.len() ==> !usage_within(#[trigger] us@[q], start as int, end as int),
            -1 <= last_usage_in(us@, start as int, end as int) < us@.len(),
            last_usage_in(us@, start as int, end as int) >= 0 ==> usage_within(
                us@[last_usage_in(us@, start as int, end as int)],
                start as int,
                end as int,
            ),
            forall|q: int|
                0 <= q < us@.len() && q > last_usage_in(us@, start as int, end as int) ==> !usage_within(
                    #[trigger] us@[q],
                    start as int,
                    end as int,
                ),
        decreases k,
    {
        let l = us[k - 1].get_line_number();
        if start < l && l <= end {
            return Some(k - 1);
        }
        k = k - 1;
    }
    None
}

/// The lines of the usages that write the value (all usages unless `writes_only`), in order.
pub open spec fn value_lines(us: Seq<Usage>, writes_only: bool) -> Seq<LineNumber>
    decreases us.len(),
{
    if us.len() == 0 {
        seq![]
    } else if us.last().kind_of() == UsageType::LValue || !writes_only {
        value_lines(us.drop_last(), writes_only).push(us.last().line_of())
    } else {
        value_lines(us.drop_last(), writes_only)
    }
}

fn value_usage_lines(us: &Vec<Usage>, writes_only: bool) -> (r: Vec<LineNumber>)
    ensures
        r@ == value_lines(us@, writes_only),
{
    let mut r: Vec<LineNumber> = Vec::new();
    let mut k: usize = 0;
    while k < us.len()
        invariant
            k <= us@.len(),
            r@ == value_lines(us@.subrange(0, k as int), writes_only),
        decreases us.len() - k,
    {
        proof {
            assert(us@.subrange(0, k + 1).drop_last() =~= us@.subrange(0, k as int));
        }
        if *us[k].get_usage_type() == UsageType::LValue || !writes_only {
            r.push(us[k].get_line_number());
        }
        k = k + 1;
    }
    proof {
        assert(us@.subrange(0, us@.len() as int) =~= us@);
    }
    r
}

/// `after` is `before` with each listed line in turn moved before the line `first`.
pub open spec fn rearranged_all(first: int, lines: Seq<LineNumber>, before: TokenNode, after: TokenNode) -> bool
    decreases lines.len(),
{
    if lines.len() == 0 {
        after == before
    } else {
        exists|mid: TokenNode|
            rearranged_all(first, lines.drop_last(), before, mid) && #[trigger] rearranged(
                first,
                lines.last() as int,
                mid,
                after,
            )
    }
}

/// Moves each listed line in turn before the line `first`.
fn rearrange_all(first: LineNumber, lines: &Vec<LineNumber>, root: &mut TokenNode)
    ensures
        rearranged_all(first as int, lines@, *old(root), *final(root)),
{
    let ghost orig = *root;
    let mut k: usize = 0;
    while k < lines.len()
        invariant
            k <= lines@.len(),
            rearranged_all(first as int, lines@.subrange(0, k as int), orig, *root),
        decreases lines.len() - k,
    {
        let ghost mid = *root;
        rearrange_lines_tree(first, lines[k], root);
        proof {
            let next = lines@.subrange(0, k + 1);
            assert(next.drop_last() =~= lines@.subrange(0, k as int));
            assert(next.last() == lines@[k as int]);
            assert(rearranged(first as int, next.last() as int, mid, *root));
        }
        k = k + 1;
    }
    proof {
        assert(lines@.subrange(0, lines@.len() as int) =~= lines@);
    }
}

/// What `line_rearrangement_value_ptr_overlap` does: when every usage of the value that
/// matters (its writes, or all its usages for a mutable pointer) comes before the first
/// use of the pointer within its reference, those usages are moved, in order, before the
/// line the reference is taken on, and the answer is `true`; otherwise nothing changes.
pub open spec fn value_rearranged(
    ctx: AnalysisContext,
    value: Seq<char>,
    ptr: Seq<char>,
    writes_only: bool,
    before: TokenNode,
    after: TokenNode,
    result: bool,
) -> bool {
    let rf = ref_to_value(ctx, ptr, value);
    if rf < 0 {
        !result && after == before
    } else {
        let r = ctx.references@[rf];
        let lines = value_lines(ctx.var(value).usages@, writes_only);
        let us = ctx.var(ptr).usages@;
        let fp = first_usage_in(us, r.start_line() as int, r.end_line() as int);
        if lines.len() == 0 || fp < 0 {
            !result && after == before
        } else if lines.last() < us[fp].line_of() {
            result && rearranged_all(r.start_line() as int, lines, before, after)
        } else {
            !result && after == before
        }
    }
}

/// Checks if a simple rearrangement of lines could fix the borrow error between the value
/// and a pointer to it, and makes it.
///
/// A value can be used behind an immutable reference if it's an rvalue that implements
/// copy, which every non-struct, non-ptr Rust analog to a C variable does.
pub fn line_rearrangement_value_ptr_overlap(
    value_id: &str,
    ptr_id: &str,
    root: &mut TokenNode,
    ctx: &AnalysisContext,
    const_ptr: bool,
) -> (b: bool)
    requires
        ctx.wf(),
        ctx.has_var(value_id@),
        ctx.has_var(ptr_id@),
    ensures
        value_rearranged(*ctx, value_id@, ptr_id@, const_ptr, *old(root), *final(root), b),
{
    let reference = match find_ref(ctx, ptr_id, value_id) {
        Some(r) => r,
        None => return false,
    };
    let range = ctx.references[reference].get_range();
    let lines = value_usage_lines(&ctx.get_var(value_id).usages, const_ptr);
    let ptr_usages = &ctx.get_var(ptr_id).usages;
    let first_ptr_usage = match first_usage_within(ptr_usages, range.start, range.end) {
        Some(i) => i,
        None => return false,
    };
    if lines.len() == 0 {
        return false;
    }
    if lines[lines.len() - 1] < ptr_usages[first_ptr_usage].get_line_number() {
        rearrange_all(range.start, &lines, root);
        true
    } else {
        false
    }
}

/// What `line_rearrangement_mut_const_overlap` does; see there.
pub open spec fn mut_const_rearranged(
    ctx: AnalysisContext,
    mut_ptr: Seq<char>,
    const_ptr: Seq<char>,
    value: Seq<char>,
    before: TokenNode,
    after: TokenNode,
    result: bool,
) -> bool {
    let mr = ref_to_value(ctx, mut_ptr, value);
    let cr = ref_to_value(ctx, const_ptr, value);
    if mr < 0 || cr < 0 {
        !result && after == before
    } else {
        let m = ctx.references@[mr];
        let c = ctx.references@[cr];
        let mus = ctx.var(mut_ptr).usages@;
        let cus = ctx.var(const_ptr).usages@;
        if c.start_line() == c.end_line() {
            result && rearranged(m.start_line() as int, c.start_line() as int, before, after)
        } else if m.start_line() == m.end_line() {
            result && rearranged(c.start_line() as int, m.start_line() as int, before, after)
        } else if c.start_line() > m.start_line() {
            let fc = first_usage_in(cus, c.start_line() as int, c.end_line() as int);
            let lm = last_usage_in(mus, c.start_line() as int, c.end_line() as int);
            if fc < 0 || lm < 0 {
                !result && after == before
            } else if cus[fc].line_of() > mus[lm].line_of() {
                result && rearranged(m.start_line() as int, c.end_line() as int, before, after)
            } else {
                !result && after == before
            }
        } else {
            let lc = last_usage_in(cus, m.start_line() as int, m.end_line() as int);
            let fm = first_usage_in(mus, m.start_line() as int, m.end_line() as int);
            if lc < 0 || fm < 0 {
                !result && after == before
            } else if mus[fm].line_of() > cus[lc].line_of() {
                result && rearranged(m.start_line() as int, c.end_line() as int, before, after)
            } else {
                !result && after == before
            }
        }
    }
}

/// Tries to fix an overlap of a mutable and a shared reference to `value_id` by moving
/// lines. A reference that lasts a single line is moved past the other one. Otherwise, when
/// within the later reference every use of the later pointer comes after every use of the
/// earlier pointer, the statement on the last line of the shared reference is moved up to
/// the line the mutable reference is taken on. Returns whether a line was moved.
pub fn line_rearrangement_mut_const_overlap(
    mut_ptr_id: &str,
    const_ptr_id: &str,
    value_id: &str,
    root: &mut TokenNode,
    ctx: &AnalysisContext,
) -> (b: bool)
    requires
        ctx.wf(),
        ctx.has_var(mut_ptr_id@),
        ctx.has_var(const_ptr_id@),
    ensures
        mut_const_rearranged(*ctx, mut_ptr_id@, const_ptr_id@, value_id@, *old(root), *final(root), b),
{
    let mut_reference = match find_ref(ctx, mut_ptr_id, value_id) {
        Some(r) => r,
        None => return false,
    };
    let const_reference = match find_ref(ctx, const_ptr_id, value_id) {
        Some(r) => r,
        None => return false,
    };
    let mut_ptr_usages = &ctx.get_var(mut_ptr_id).usages;
    let const_ptr_usages = &ctx.get_var(const_ptr_id).usages;
    let const_range = ctx.references[const_reference].get_range();
    let mut_range = ctx.references[mut_reference].get_range();
    if const_range.start == const_range.end {
        rearrange_lines_tree(mut_range.start, const_range.start, root);
        return true;
    } else if mut_range.start == mut_range.end {
        rearrange_lines_tree(const_range.start, mut_range.start, root);
        return true;
    }
    if const_range.start > mut_range.start {
        let first_const = match first_usage_within(const_ptr_usages, const_range.start, const_range.end) {
            Some(i) => i,
            None => return false,
        };
        let last_mut = match last_usage_within(mut_ptr_usages, const_range.start, const_range.end) {
            Some(i) => i,
            None => return false,
        };
        if const_ptr_usages[first_const].get_line_number() > mut_ptr_usages[last_mut].get_line_number() {
            rearrange_lines_tree(mut_range.start, const_range.end, root);
            true
        } else {
            false
        }
    } else {
        let last_const = match last_usage_within(const_ptr_usages, mut_range.start, mut_range.end) {
            Some(i) => i,
            None => return false,
        };
        let first_mut = match first_usage_within(mut_ptr_usages, mut_range.start, mut_range.end) {
            Some(i) => i,
            None => return false,
        };
        if mut_ptr_usages[first_mut].get_line_number() > const_ptr_usages[last_const].get_line_number() {
            rearrange_lines_tree(mut_range.start, const_range.end, root);
            true
        } else {
            false
        }
    }
}

/// `after` is `before` with the references of `id` made raw; nothing changes when `id` is
/// not declared.
pub open spec fn raw_if_declared(before: AnalysisContext, id: Seq<char>, after: AnalysisContext) -> bool {
    if before.has_var(id) {
        raw_set(before, id, after)
    } else {
        after == before
    }
}

/// `after` is `before` with the references of `a` and then those of `b` made raw.
pub open spec fn raw_pair(before: AnalysisContext, a: Seq<char>, b: Seq<char>, after: AnalysisContext) -> bool {
    exists|mid: AnalysisContext| raw_if_declared(before, a, mid) && #[trigger] raw_if_declared(mid, b, after)
}

/// A fix that replaces `value` by a reference-counted value when no lines were moved.
pub open spec fn moved_or_rc(moved: bool, before: AnalysisContext, value: Seq<char>, after: AnalysisContext) -> bool {
    if moved {
        after == before
    } else {
        rc_set(before, value, after)
    }
}

/// What the adjuster does for one borrow error (an error that names an undeclared variable
/// changes nothing).
pub open spec fn fix_applied(
    e: BorrowErrorView,
    c0: AnalysisContext,
    t0: TokenNode,
    c1: AnalysisContext,
    t1: TokenNode,
) -> bool {
    match e {
        BorrowErrorView::MutMutOverlap { value_id, .. } => t1 == t0 && if c0.has_var(value_id) {
            rc_set(c0, value_id, c1)
        } else {
            c1 == c0
        },
        BorrowErrorView::MutConstOverlap { mut_ptr_id, const_ptr_id, value_id } => if c0.has_var(
            mut_ptr_id,
        ) && c0.has_var(const_ptr_id) && c0.has_var(value_id) {
            exists|moved: bool|
                #[trigger] mut_const_rearranged(c0, mut_ptr_id, const_ptr_id, value_id, t0, t1, moved)
                    && moved_or_rc(moved, c0, value_id, c1)
        } else {
            c1 == c0 && t1 == t0
        },
        BorrowErrorView::MutMutSameLine { first_ptr_id, second_ptr_id, .. } => t1 == t0 && raw_pair(
            c0,
            second_ptr_id,
            first_ptr_id,
            c1,
        ),
        BorrowErrorView::MutConstSameLine { mut_ptr_id, const_ptr_id, .. } => t1 == t0 && raw_pair(
            c0,
            mut_ptr_id,
            const_ptr_id,
            c1,
        ),
        BorrowErrorView::ValueMutOverlap { ptr_id, value_id } => if c0.has_var(ptr_id) && c0.has_var(
            value_id,
        ) {
            exists|moved: bool|
                #[trigger] value_rearranged(c0, value_id, ptr_id, false, t0, t1, moved) && moved_or_rc(
                    moved,
                    c0,
                    value_id,
                    c1,
                )
        } else {
            c1 == c0 && t1 == t0
        },
        BorrowErrorView::ValueMutSameLine { ptr_id, .. } => t1 == t0 && if c0.has_var(ptr_id) {
            raw_set(c0, ptr_id, c1)
        } else {
            c1 == c0
        },
        BorrowErrorView::ValueConstOverlap { ptr_id, value_id } => if c0.has_var(ptr_id) && c0.has_var(
            value_id,
        ) {
            exists|moved: bool|
                #[trigger] value_rearranged(c0, value_id, ptr_id, true, t0, t1, moved) && moved_or_rc(
                    moved,
                    c0,
                    value_id,
                    c1,
                )
        } else {
            c1 == c0 && t1 == t0
        },
        BorrowErrorView::ValueConstSameLine { .. } => c1 == c0 && t1 == t0,
    }
}

/// `c1`, `t1` are `c0`, `t0` after the fix of each error in turn.
pub open spec fn adjusted(
    es: Seq<BorrowErrorView>,
    c0: AnalysisContext,
    t0: TokenNode,
    c1: AnalysisContext,
    t1: TokenNode,
) -> bool
    decreases es.len(),
{
    if es.len() == 0 {
        c1 == c0 && t1 == t0
    } else {
        exists|cm: AnalysisContext, tm: TokenNode|
            adjusted(es.drop_last(), c0, t0, cm, tm) && #[trigger] fix_applied(es.last(), cm, tm, c1, t1)
    }
}

fn set_raw_if_declared(id: &str, ctx: &mut AnalysisContext)
    requires
        old(ctx).wf(),
    ensures
        final(ctx).wf(),
        raw_if_declared(*old(ctx), id@, *final(ctx)),
{
    if ctx.has_variable(id) {
        set_ptr_raw(id, ctx);
    }
}

/// Applies the fix for one borrow error.
fn apply_fix(error: &BorrowError, ctx: &mut AnalysisContext, root: &mut TokenNode)
    requires
        old(ctx).wf(),
    ensures
        final(ctx).wf(),
        fix_applied(error@, *old(ctx), *old(root), *final(ctx), *final(root)),
{
    let ghost c0 = *ctx;
    match error {
        BorrowError::MutMutOverlap { value_id, .. } => {
            if ctx.has_variable(value_id.as_str()) {
                set_ptr_rc(value_id.as_str(), ctx);
            }
        },
        BorrowError::MutConstOverlap { mut_ptr_id, const_ptr_id, value_id } => {
            if ctx.has_variable(mut_ptr_id.as_str()) && ctx.has_variable(const_ptr_id.as_str())
                && ctx.has_variable(value_id.as_str()) {
                let moved = line_rearrangement_mut_const_overlap(
                    mut_ptr_id.as_str(),
                    const_ptr_id.as_str(),
                    value_id.as_str(),
                    root,
                    ctx,
                );
                if !moved {
                    set_ptr_rc(value_id.as_str(), ctx);
                }
            }
        },
        BorrowError::MutMutSameLine { first_ptr_id, second_ptr_id, .. } => {
            set_raw_if_declared(second_ptr_id.as_str(), ctx);
            let ghost mid = *ctx;
            set_raw_if_declared(first_ptr_id.as_str(), ctx);
            assert(raw_if_declared(mid, first_ptr_id@, *ctx));
        },
        BorrowError::MutConstSameLine { mut_ptr_id, const_ptr_id, .. } => {
            set_raw_if_declared(mut_ptr_id.as_str(), ctx);
            let ghost mid = *ctx;
            set_raw_if_declared(const_ptr_id.as_str(), ctx);
            assert(raw_if_declared(mid, const_ptr_id@, *ctx));
        },
        BorrowError::ValueMutOverlap { ptr_id, value_id } => {
            if ctx.has_variable(ptr_id.as_str()) && ctx.has_variable(value_id.as_str()) {
                let moved = line_rearrangement_value_ptr_overlap(
                    value_id.as_str(),
                    ptr_id.as_str(),
                    root,
                    ctx,
                    false,
                );
                if !moved {
                    set_ptr_rc(value_id.as_str(), ctx);
                }
            }
        },
        BorrowError::ValueMutSameLine { ptr_id, .. } => {
            set_raw_if_declared(ptr_id.as_str(), ctx);
        },
        BorrowError::ValueConstOverlap { ptr_id, value_id } => {
            if ctx.has_variable(ptr_id.as_str()) && ctx.has_variable(value_id.as_str()) {
                let moved = line_rearrangement_value_ptr_overlap(
                    value_id.as_str(),
                    ptr_id.as_str(),
                    root,
                    ctx,
                    true,
                );
                if !moved {
                    set_ptr_rc(value_id.as_str(), ctx);
                }
            }
        },
        BorrowError::ValueConstSameLine { .. } => {},
    }
}

impl AnalysisContext {
    /// Applies, error by error, the fix the checker's errors call for: lines are moved where
    /// that is enough, and otherwise the value is shared through `Rc<RefCell<..>>` or the
    /// pointers become raw pointers.
    pub fn adjust_ptr_type(&mut self, errors: Vec<BorrowError>, root: &mut TokenNode)
        requires
            old(self).wf(),
        ensures
            final(self).wf(),
            adjusted(errors_view(errors@), *old(self), *old(root), *final(self), *final(root)),
    {
        let ghost c0 = *self;
        let ghost t0 = *root;
        let mut i: usize = 0;
        while i < errors.len()
            invariant
                i <= errors@.len(),
                self.wf(),
                adjusted(errors_view(errors@).subrange(0, i as int), c0, t0, *self, *root),
            decreases errors.len() - i,
        {
            let ghost cm = *self;
            let ghost tm = *root;
            apply_fix(&errors[i], self, root);
            proof {
                let es = errors_view(errors@).subrange(0, i + 1);
                assert(es.drop_last() =~= errors_view(errors@).subrange(0, i as int));
                assert(es.last() == errors@[i as int]@);
                assert(fix_applied(es.last(), cm, tm, *self, *root));
            }
            i = i + 1;
        }
        proof {
            assert(errors_view(errors@).subrange(0, errors@.len() as int) =~= errors_view(errors@));
        }
    }
}

proof fn lemma_rearranged_all_keeps_root(first: int, lines: Seq<LineNumber>, before: TokenNode, after: TokenNode)
    requires
        rearranged_all(first, lines, before, after),
    ensures
        after.token == before.token,
        after.line == before.line,
    decreases lines.len(),
{
    if lines.len() > 0 {
        let mid = choose|mid: TokenNode|
            rearranged_all(first, lines.drop_last(), before, mid) && #[trigger] rearranged(
                first,
                lines.last() as int,
                mid,
                after,
            );
        lemma_rearranged_all_keeps_root(first, lines.drop_last(), before, mid);
    }
}

proof fn lemma_fix_keeps_root(e: BorrowErrorView, c0: AnalysisContext, t0: TokenNode, c1: AnalysisContext, t1: TokenNode)
    requires
        fix_applied(e, c0, t0, c1, t1),
    ensures
        t1.token == t0.token,
        t1.line == t0.line,
{
    match e {
        BorrowErrorView::MutConstOverlap { mut_ptr_id, const_ptr_id, value_id } => {
            if c0.has_var(mut_ptr_id) && c0.has_var(const_ptr_id) && c0.has_var(value_id) {
                let moved = choose|moved: bool|
                    #[trigger] mut_const_rearranged(c0, mut_ptr_id, const_ptr_id, value_id, t0, t1, moved)
                        && moved_or_rc(moved, c0, value_id, c1);
            }
        },
        BorrowErrorView::ValueMutOverlap { ptr_id, value_id } => {
            if c0.has_var(ptr_id) && c0.has_var(value_id) {
                let moved = choose|moved: bool|
                    #[trigger] value_rearranged(c0, value_id, ptr_id, false, t0, t1, moved) && moved_or_rc(
                        moved,
                        c0,
                        value_id,
                        c1,
                    );
                let rf = ref_to_value(c0, ptr_id, value_id);
                if rf >= 0 {
                    let r = c0.references@[rf];
                    lemma_rearranged_all_keeps_root_if(
                        r.start_line() as int,
                        value_lines(c0.var(value_id).usages@, false),
                        t0,
                        t1,
                    );
                }
            }
        },
        BorrowErrorView::ValueConstOverlap { ptr_id, value_id } => {
            if c0.has_var(ptr_id) && c0.has_var(value_id) {
                let moved = choose|moved: bool|
                    #[trigger] value_rearranged(c0, value_id, ptr_id, true, t0, t1, moved) && moved_or_rc(
                        moved,
                        c0,
                        value_id,
                        c1,
                    );
                let rf = ref_to_value(c0, ptr_id, value_id);
                if rf >= 0 {
                    let r = c0.references@[rf];
                    lemma_rearranged_all_keeps_root_if(
                        r.start_line() as int,
                        value_lines(c0.var(value_id).usages@, true),
                        t0,
                        t1,
                    );
                }
            }
        },
        _ => {},
    }
}

proof fn lemma_rearranged_all_keeps_root_if(first: int, lines: Seq<LineNumber>, before: TokenNode, after: TokenNode)
    ensures
        rearranged_all(first, lines, before, after) ==> after.token == before.token && after.line
            == before.line,
{
    if rearranged_all(first, lines, before, after) {
        lemma_rearranged_all_keeps_root(first, lines, before, after);
    }
}

/// Fixing borrow errors only moves statements and changes how variables are declared: the
/// root of the tree stays the node it was, on the same line.
pub proof fn lemma_adjusted_keeps_root(
    es: Seq<BorrowErrorView>,
    c0: AnalysisContext,
    t0: TokenNode,
    c1: AnalysisContext,
    t1: TokenNode,
)
    requires
        adjusted(es, c0, t0, c1, t1),
    ensures
        t1.token == t0.token,
        t1.line == t0.line,
    decreases es.len(),
{
    if es.len() > 0 {
        let (cm, tm) = choose|cm: AnalysisContext, tm: TokenNode|
            adjusted(es.drop_last(), c0, t0, cm, tm) && #[trigger] fix_applied(es.last(), cm, tm, c1, t1);
        lemma_adjusted_keeps_root(es.drop_last(), c0, t0, cm, tm);
        lemma_fix_keeps_root(es.last(), cm, tm, c1, t1);
    }
}

proof fn lemma_fix_keeps_rc(
    e: BorrowErrorView,
    c0: AnalysisContext,
    t0: TokenNode,
    c1: AnalysisContext,
    t1: TokenNode,
    k: Seq<char>,
)
    requires
        fix_applied(e, c0, t0, c1, t1),
    ensures
        c0.has_var(k) ==> c1.has_var(k),
        c0.has_var(k) && c0.var(k).rc ==> c1.var(k).rc,
{
    match e {
        BorrowErrorView::MutConstOverlap { mut_ptr_id, const_ptr_id, value_id } => {
            if c0.has_var(mut_ptr_id) && c0.has_var(const_ptr_id) && c0.has_var(value_id) {
                let moved = choose|moved: bool|
                    #[trigger] mut_const_rearranged(c0, mut_ptr_id, const_ptr_id, value_id, t0, t1, moved)
                        && moved_or_rc(moved, c0, value_id, c1);
            }
        },
        BorrowErrorView::MutMutSameLine { first_ptr_id, second_ptr_id, .. } => {
            let mid = choose|mid: AnalysisContext|
                raw_if_declared(c0, second_ptr_id, mid) && #[trigger] raw_if_declared(mid, first_ptr_id, c1);
        },
        BorrowErrorView::MutConstSameLine { mut_ptr_id, const_ptr_id, .. } => {
            let mid = choose|mid: AnalysisContext|
                raw_if_declared(c0, mut_ptr_id, mid) && #[trigger] raw_if_declared(mid, const_ptr_id, c1);
        },
        BorrowErrorView::ValueMutOverlap { ptr_id, value_id } => {
            if c0.has_var(ptr_id) && c0.has_var(value_id) {
                let moved = choose|moved: bool|
                    #[trigger] value_rearranged(c0, value_id, ptr_id, false, t0, t1, moved) && moved_or_rc(
                        moved,
                        c0,
                        value_id,
                        c1,
                    );
            }
        },
        BorrowErrorView::ValueConstOverlap { ptr_id, value_id } => {
            if c0.has_var(ptr_id) && c0.has_var(value_id) {
                let moved = choose|moved: bool|
                    #[trigger] value_rearranged(c0, value_id, ptr_id, true, t0, t1, moved) && moved_or_rc(
                        moved,
                        c0,
                        value_id,
                        c1,
                    );
            }
        },
        _ => {},
    }
}

/// Fixing borrow errors never takes a variable away, and a value once shared through
/// `Rc<RefCell<..>>` stays shared whatever the later errors call for.
pub proof fn lemma_adjusted_keeps_rc(
    es: Seq<BorrowErrorView>,
    c0: AnalysisContext,
    t0: TokenNode,
    c1: AnalysisContext,
    t1: TokenNode,
    k: Seq<char>,
)
    requires
        adjusted(es, c0, t0, c1, t1),
    ensures
        c0.has_var(k) ==> c1.has_var(k),
        c0.has_var(k) && c0.var(k).rc ==> c1.var(k).rc,
    decreases es.len(),
{
    if es.len() > 0 {
        let (cm, tm) = choose|cm: AnalysisContext, tm: TokenNode|
            adjusted(es.drop_last(), c0, t0, cm, tm) && #[trigger] fix_applied(es.last(), cm, tm, c1, t1);
        lemma_adjusted_keeps_rc(es.drop_last(), c0, t0, cm, tm, k);
        lemma_fix_keeps_rc(es.last(), cm, tm, c1, t1, k);
    }
}

/// Two mutable borrows of one value that overlap: once the errors are fixed, the value is
/// shared through `Rc<RefCell<..>>`.
pub proof fn lemma_mut_mut_overlap_shared(
    es: Seq<BorrowErrorView>,
    c0: AnalysisContext,
    t0: TokenNode,
    c1: AnalysisContext,
    t1: TokenNode,
    i: int,
)
    requires
        adjusted(es, c0, t0, c1, t1),
        0 <= i < es.len(),
        es[i] is MutMutOverlap,
        c0.has_var(es[i]->MutMutOverlap_value_id),
    ensures
        c1.var(es[i]->MutMutOverlap_value_id).rc,
    decreases es.len(),
{
    let v = es[i]->MutMutOverlap_value_id;
    let (cm, tm) = choose|cm: AnalysisContext, tm: TokenNode|
        adjusted(es.drop_last(), c0, t0, cm, tm) && #[trigger] fix_applied(es.last(), cm, tm, c1, t1);
    if i == es.len() - 1 {
        lemma_adjusted_keeps_rc(es.drop_last(), c0, t0, cm, tm, v);
    } else {
        assert(es.drop_last()[i] == es[i]);
        lemma_mut_mut_overlap_shared(es.drop_last(), c0, t0, cm, tm, i);
        lemma_adjusted_keeps_rc(es.drop_last(), c0, t0, cm, tm, v);
        lemma_fix_keeps_rc(es.last(), cm, tm, c1, t1, v);
    }
}

proof fn lemma_raw_if_declared_targets(before: AnalysisContext, id: Seq<char>, after: AnalysisContext)
    requires
        raw_if_declared(before, id, after),
        before.targets_declared(),
    ensures
        after.targets_declared(),
{
    if before.has_var(id) {
        after.lemma_same_links_targets(&before);
    }
}

proof fn lemma_moved_or_rc_targets(moved: bool, before: AnalysisContext, value: Seq<char>, after: AnalysisContext)
    requires
        moved_or_rc(moved, before, value, after),
        before.targets_declared(),
    ensures
        after.targets_declared(),
{
    if !moved {
        after.lemma_same_links_targets(&before);
    }
}

proof fn lemma_fix_keeps_targets(
    e: BorrowErrorView,
    c0: AnalysisContext,
    t0: TokenNode,
    c1: AnalysisContext,
    t1: TokenNode,
)
    requires
        fix_applied(e, c0, t0, c1, t1),
        c0.targets_declared(),
    ensures
        c1.targets_declared(),
{
    match e {
        BorrowErrorView::MutMutOverlap { value_id, .. } => {
            if c0.has_var(value_id) {
                c1.lemma_same_links_targets(&c0);
            }
        },
        BorrowErrorView::MutConstOverlap { mut_ptr_id, const_ptr_id, value_id } => {
            if c0.has_var(mut_ptr_id) && c0.has_var(const_ptr_id) && c0.has_var(value_id) {
                let moved = choose|moved: bool|
                    #[trigger] mut_const_rearranged(c0, mut_ptr_id, const_ptr_id, value_id, t0, t1, moved)
                        && moved_or_rc(moved, c0, value_id, c1);
                lemma_moved_or_rc_targets(moved, c0, value_id, c1);
            }
        },
        BorrowErrorView::MutMutSameLine { first_ptr_id, second_ptr_id, .. } => {
            let mid = choose|mid: AnalysisContext|
                raw_if_declared(c0, second_ptr_id, mid) && #[trigger] raw_if_declared(mid, first_ptr_id, c1);
            lemma_raw_if_declared_targets(c0, second_ptr_id, mid);
            lemma_raw_if_declared_targets(mid, first_ptr_id, c1);
        },
        BorrowErrorView::MutConstSameLine { mut_ptr_id, const_ptr_id, .. } => {
            let mid = choose|mid: AnalysisContext|
                raw_if_declared(c0, mut_ptr_id, mid) && #[trigger] raw_if_declared(mid, const_ptr_id, c1);
            lemma_raw_if_declared_targets(c0, mut_ptr_id, mid);
            lemma_raw_if_declared_targets(mid, const_ptr_id, c1);
        },
        BorrowErrorView::ValueMutOverlap { ptr_id, value_id } => {
            if c0.has_var(ptr_id) && c0.has_var(value_id) {
                let moved = choose|moved: bool|
                    #[trigger] value_rearranged(c0, value_id, ptr_id, false, t0, t1, moved) && moved_or_rc(
                        moved,
                        c0,
                        value_id,
                        c1,
                    );
                lemma_moved_or_rc_targets(moved, c0, value_id, c1);
            }
        },
        BorrowErrorView::ValueMutSameLine { ptr_id, .. } => {
            lemma_raw_if_declared_targets(c0, ptr_id, c1);
        },
        BorrowErrorView::ValueConstOverlap { ptr_id, value_id } => {
            if c0.has_var(ptr_id) && c0.has_var(value_id) {
                let moved = choose|moved: bool|
                    #[trigger] value_rearranged(c0, value_id, ptr_id, true, t0, t1, moved) && moved_or_rc(
                        moved,
                        c0,
                        value_id,
                        c1,
                    );
                lemma_moved_or_rc_targets(moved, c0, value_id, c1);
            }
        },
        _ => {},
    }
}

/// Fixing borrow errors keeps every reference referring to a declared variable.
pub proof fn lemma_adjusted_keeps_targets(
    es: Seq<BorrowErrorView>,
    c0: AnalysisContext,
    t0: TokenNode,
    c1: AnalysisContext,
    t1: TokenNode,
)
    requires
        adjusted(es, c0, t0, c1, t1),
        c0.targets_declared(),
    ensures
        c1.targets_declared(),
    decreases es.len(),
{
    if es.len() > 0 {
        let (cm, tm) = choose|cm: AnalysisContext, tm: TokenNode|
            adjusted(es.drop_last(), c0, t0, cm, tm) && #[trigger] fix_applied(es.last(), cm, tm, c1, t1);
        lemma_adjusted_keeps_targets(es.drop_last(), c0, t0, cm, tm);
        lemma_fix_keeps_targets(es.last(), cm, tm, c1, t1);
    }
}

/// Renumbering the usages after a statement move is a permutation of the lines: no two
/// usages on different lines end on the same line, the moved line lands on `pivot`, every
/// line keeps its place relative to the others it did not jump over, and lines outside
/// `pivot..=swing` stay where they were.
pub proof fn lemma_moved_line_permutes(pivot: int, swing: int)
    requires
        pivot <= swing,
    ensures
        forall|a: int, b: int| a != b ==> #[trigger] moved_line(pivot, swing, a) != #[trigger] moved_line(
            pivot,
            swing,
            b,
        ),
        moved_line(pivot, swing, swing) == pivot,
        forall|a: int| (a < pivot || a > swing) ==> #[trigger] moved_line(pivot, swing, a) == a,
        forall|a: int| pivot <= a <= swing ==> pivot <= #[trigger] moved_line(pivot, swing, a) <= swing,
        forall|a: int, b: int|
            pivot <= a < b < swing ==> #[trigger] moved_line(pivot, swing, a) < #[trigger] moved_line(
                pivot,
                swing,
                b,
            ),
{
}

} // verus!
