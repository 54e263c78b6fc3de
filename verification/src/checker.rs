use vstd::prelude::*;
use std::ops::Range;
use crate::analysis_ctx::AnalysisContext;
use crate::data_model::{
    var_refs_in, LineNumber, Reference, ReferenceType, Usage, UsageType, VarData,
};

verus! {

broadcast use {Usage::lemma_spec_new, Reference::lemma_with_end, Reference::lemma_with_kind};

#[derive(Debug, Clone, Copy, PartialEq, Eq, Structural)]
pub enum OverlapState {
    Overlap,
    SameLine,
    NoOverlap,
}

/// How two reference ranges (both ends included) meet: they overlap when each starts
/// before the other ends; they touch on one line when an end or start is shared.
pub open spec fn spec_ptr_range_overlap(s1: int, e1: int, s2: int, e2: int) -> OverlapState {
    if s1 < e2 && e1 > s2 {
        OverlapState::Overlap
    } else if s1 == e2 || e1 == s2 || e1 == e2 || s1 == s2 {
        OverlapState::SameLine
    } else {
        OverlapState::NoOverlap
    }
}

pub fn ptr_range_overlap(l_1: Range<LineNumber>, l_2: Range<LineNumber>) -> (r: OverlapState)
    ensures
        r == spec_ptr_range_overlap(l_1.start as int, l_1.end as int, l_2.start as int, l_2.end as int),
{
    if l_1.start < l_2.end && l_1.end > l_2.start {
        OverlapState::Overlap
    } else if l_1.start == l_2.end || l_1.end == l_2.start || l_1.end == l_2.end || l_1.start
        == l_2.start {
        OverlapState::SameLine
    } else {
        OverlapState::NoOverlap
    }
}

/// Whether two ranges overlap does not depend on which one is named first.
pub proof fn lemma_ptr_range_overlap_symmetric(s1: int, e1: int, s2: int, e2: int)
    ensures
        spec_ptr_range_overlap(s1, e1, s2, e2) == spec_ptr_range_overlap(s2, e2, s1, e1),
{
}

/// How one use of a value on `usage` meets a reference over `start..=end`: a use strictly
/// inside overlaps; a use on the last line shares it. A use on the line the reference is
/// taken is fine, since that is where the reference is made.
pub open spec fn spec_usage_in_block(usage: int, start: int, end: int) -> OverlapState {
    if usage < end && start < usage {
        OverlapState::Overlap
    } else if usage == end {
        OverlapState::SameLine
    } else {
        OverlapState::NoOverlap
    }
}

/// How the uses of a value meet a reference: sharing a line wins over overlapping.
pub open spec fn spec_var_ptr_range_overlap(usages: Seq<Usage>, start: int, end: int) -> OverlapState {
    if exists|i: int|
        0 <= i < usages.len() && spec_usage_in_block(#[trigger] usages[i].line_of() as int, start, end)
            == OverlapState::SameLine {
        OverlapState::SameLine
    } else if exists|i: int|
        0 <= i < usages.len() && spec_usage_in_block(#[trigger] usages[i].line_of() as int, start, end)
            == OverlapState::Overlap {
        OverlapState::Overlap
    } else {
        OverlapState::NoOverlap
    }
}

pub fn var_ptr_range_overlap(value_usages: &Vec<Usage>, ptr_range: Range<LineNumber>) -> (r:
    OverlapState)
    ensures
        r == spec_var_ptr_range_overlap(value_usages@, ptr_range.start as int, ptr_range.end as int),
{
    let mut same = false;
    let mut over = false;
    let mut i: usize = 0;
    while i < value_usages.len()
        invariant
            i <= value_usages@.len(),
            same <==> exists|k: int|
                0 <= k < i && spec_usage_in_block(
                    #[trigger] value_usages@[k].line_of() as int,
                    ptr_range.start as int,
                    ptr_range.end as int,
                ) == OverlapState::SameLine,
            over <==> exists|k: int|
                0 <= k < i && spec_usage_in_block(
                    #[trigger] value_usages@[k].line_of() as int,
                    ptr_range.start as int,
                    ptr_range.end as int,
                ) == OverlapState::Overlap,
        decreases value_usages.len() - i,
    {
        let usage = value_usages[i].get_line_number();
        if usage < ptr_range.end && ptr_range.start < usage {
            over = true;
        } else if usage == ptr_range.end {
            same = true;
        }
        i = i + 1;
    }
    if same {
        OverlapState::SameLine
    } else if over {
        OverlapState::Overlap
    } else {
        OverlapState::NoOverlap
    }
}

// If it doesn't mutate, clone the underlying value instead
pub enum BorrowError {
    MutMutOverlap { first_ptr_id: String, second_ptr_id: String, value_id: String },
    MutConstOverlap { mut_ptr_id: String, const_ptr_id: String, value_id: String },
    MutMutSameLine { first_ptr_id: String, second_ptr_id: String, value_id: String },
    MutConstSameLine { mut_ptr_id: String, const_ptr_id: String, value_id: String },
    ValueMutOverlap { ptr_id: String, value_id: String },
    ValueMutSameLine { ptr_id: String, value_id: String },
    ValueConstOverlap { ptr_id: String, value_id: String },
    ValueConstSameLine { ptr_id: String, value_id: String },
}

/// A borrow error with its names as character sequences.
pub enum BorrowErrorView {
    MutMutOverlap { first_ptr_id: Seq<char>, second_ptr_id: Seq<char>, value_id: Seq<char> },
    MutConstOverlap { mut_ptr_id: Seq<char>, const_ptr_id: Seq<char>, value_id: Seq<char> },
    MutMutSameLine { first_ptr_id: Seq<char>, second_ptr_id: Seq<char>, value_id: Seq<char> },
    MutConstSameLine { mut_ptr_id: Seq<char>, const_ptr_id: Seq<char>, value_id: Seq<char> },
    ValueMutOverlap { ptr_id: Seq<char>, value_id: Seq<char> },
    ValueMutSameLine { ptr_id: Seq<char>, value_id: Seq<char> },
    ValueConstOverlap { ptr_id: Seq<char>, value_id: Seq<char> },
    ValueConstSameLine { ptr_id: Seq<char>, value_id: Seq<char> },
}

impl View for BorrowError {
    type V = BorrowErrorView;

    open spec fn view(&self) -> BorrowErrorView {
        match self {
            BorrowError::MutMutOverlap { first_ptr_id, second_ptr_id, value_id } => BorrowErrorView::MutMutOverlap {
                first_ptr_id: first_ptr_id@,
                second_ptr_id: second_ptr_id@,
                value_id: value_id@,
            },
            BorrowError::MutConstOverlap { mut_ptr_id, const_ptr_id, value_id } => BorrowErrorView::MutConstOverlap {
                mut_ptr_id: mut_ptr_id@,
                const_ptr_id: const_ptr_id@,
                value_id: value_id@,
            },
            BorrowError::MutMutSameLine { first_ptr_id, second_ptr_id, value_id } => BorrowErrorView::MutMutSameLine {
                first_ptr_id: first_ptr_id@,
                second_ptr_id: second_ptr_id@,
                value_id: value_id@,
            },
            BorrowError::MutConstSameLine { mut_ptr_id, const_ptr_id, value_id } => BorrowErrorView::MutConstSameLine {
                mut_ptr_id: mut_ptr_id@,
                const_ptr_id: const_ptr_id@,
                value_id: value_id@,
            },
            BorrowError::ValueMutOverlap { ptr_id, value_id } => BorrowErrorView::ValueMutOverlap {
                ptr_id: ptr_id@,
                value_id: value_id@,
            },
            BorrowError::ValueMutSameLine { ptr_id, value_id } => BorrowErrorView::ValueMutSameLine {
                ptr_id: ptr_id@,
                value_id: value_id@,
            },
            BorrowError::ValueConstOverlap { ptr_id, value_id } => BorrowErrorView::ValueConstOverlap {
                ptr_id: ptr_id@,
                value_id: value_id@,
            },
            BorrowError::ValueConstSameLine { ptr_id, value_id } => BorrowErrorView::ValueConstSameLine {
                ptr_id: ptr_id@,
                value_id: value_id@,
            },
        }
    }
}

/// The position of an error's kind in the list of kinds.
pub open spec fn error_kind(e: BorrowErrorView) -> int {
    match e {
        BorrowErrorView::MutMutOverlap { .. } => 0,
        BorrowErrorView::MutConstOverlap { .. } => 1,
        BorrowErrorView::MutMutSameLine { .. } => 2,
        BorrowErrorView::MutConstSameLine { .. } => 3,
        BorrowErrorView::ValueMutOverlap { .. } => 4,
        BorrowErrorView::ValueMutSameLine { .. } => 5,
        BorrowErrorView::ValueConstOverlap { .. } => 6,
        BorrowErrorView::ValueConstSameLine { .. } => 7,
    }
}

impl BorrowError {
    fn kind_index(&self) -> (k: u8)
        ensures
            k == error_kind(self@),
    {
        match self {
            BorrowError::MutMutOverlap { .. } => 0,
            BorrowError::MutConstOverlap { .. } => 1,
            BorrowError::MutMutSameLine { .. } => 2,
            BorrowError::MutConstSameLine { .. } => 3,
            BorrowError::ValueMutOverlap { .. } => 4,
            BorrowError::ValueMutSameLine { .. } => 5,
            BorrowError::ValueConstOverlap { .. } => 6,
            BorrowError::ValueConstSameLine { .. } => 7,
        }
    }

    /// Two errors are alike when they are of the same kind, whatever names they carry.
    pub fn same_kind(&self, other: &BorrowError) -> (r: bool)
        ensures
            r == (error_kind(self@) == error_kind(other@)),
    {
        self.kind_index() == other.kind_index()
    }

    /// The order in which errors are fixed: an overlap of a mutable and a shared borrow
    /// comes before an overlap of a value with a mutable borrow; all other pairs are equal.
    pub fn compare(&self, other: &BorrowError) -> (o: std::cmp::Ordering)
        ensures
            (self@ is ValueMutOverlap && other@ is MutConstOverlap) ==> o == std::cmp::Ordering::Greater,
            (self@ is MutConstOverlap && other@ is ValueMutOverlap) ==> o == std::cmp::Ordering::Less,
            !(self@ is ValueMutOverlap && other@ is MutConstOverlap) && !(self@ is MutConstOverlap
                && other@ is ValueMutOverlap) ==> o == std::cmp::Ordering::Equal,
    {
        let a = self.kind_index();
        let b = other.kind_index();
        if a == 4 && b == 1 {
            std::cmp::Ordering::Greater
        } else if a == 1 && b == 4 {
            std::cmp::Ordering::Less
        } else {
            std::cmp::Ordering::Equal
        }
    }
}

/// The views of a list of errors.
pub open spec fn errors_view(s: Seq<BorrowError>) -> Seq<BorrowErrorView> {
    s.map_values(|e: BorrowError| e@)
}

/// The references of a list that are mutable borrows, in order.
pub open spec fn only_mut(rs: Seq<Reference>) -> Seq<Reference>
    decreases rs.len(),
{
    if rs.len() == 0 {
        seq![]
    } else if rs.last().kind() == ReferenceType::MutBorrowed {
        only_mut(rs.drop_last()).push(rs.last())
    } else {
        only_mut(rs.drop_last())
    }
}

/// The usages of one kind, in order.
pub open spec fn usages_of_kind(us: Seq<Usage>, k: UsageType) -> Seq<Usage>
    decreases us.len(),
{
    if us.len() == 0 {
        seq![]
    } else if us.last().kind_of() == k {
        usages_of_kind(us.drop_last(), k).push(us.last())
    } else {
        usages_of_kind(us.drop_last(), k)
    }
}

/// Errors for uses of the value `var_id` (its usages `us`) inside the mutable borrows `muts`.
pub open spec fn value_mut_errors(var_id: Seq<char>, us: Seq<Usage>, muts: Seq<Reference>) -> Seq<
    BorrowErrorView,
>
    decreases muts.len(),
{
    if muts.len() == 0 {
        seq![]
    } else {
        let rest = value_mut_errors(var_id, us, muts.drop_last());
        let r = muts.last();
        match spec_var_ptr_range_overlap(us, r.start_line() as int, r.end_line() as int) {
            OverlapState::Overlap => rest.push(
                BorrowErrorView::ValueMutOverlap { ptr_id: r.borrower_id(), value_id: var_id },
            ),
            OverlapState::SameLine => rest.push(
                BorrowErrorView::ValueMutSameLine { ptr_id: r.borrower_id(), value_id: var_id },
            ),
            OverlapState::NoOverlap => rest,
        }
    }
}

/// Errors for writes `lvals` of the value `var_id` inside the borrows `refs`.
pub open spec fn value_const_errors(var_id: Seq<char>, lvals: Seq<Usage>, refs: Seq<Reference>) -> Seq<
    BorrowErrorView,
>
    decreases refs.len(),
{
    if refs.len() == 0 {
        seq![]
    } else {
        let rest = value_const_errors(var_id, lvals, refs.drop_last());
        let r = refs.last();
        match spec_var_ptr_range_overlap(lvals, r.start_line() as int, r.end_line() as int) {
            OverlapState::Overlap => rest.push(
                BorrowErrorView::ValueConstOverlap { ptr_id: r.borrower_id(), value_id: var_id },
            ),
            OverlapState::SameLine => rest.push(
                BorrowErrorView::ValueConstSameLine { ptr_id: r.borrower_id(), value_id: var_id },
            ),
            OverlapState::NoOverlap => rest,
        }
    }
}

/// The error (if any) for the mutable borrow `m` of `var_id` meeting the borrow `o`.
pub open spec fn pair_error(var_id: Seq<char>, m: Reference, o: Reference) -> Option<BorrowErrorView> {
    if o.borrower_id() == m.borrower_id() {
        None
    } else {
        match (
            o.kind(),
            spec_ptr_range_overlap(
                m.start_line() as int,
                m.end_line() as int,
                o.start_line() as int,
                o.end_line() as int,
            ),
        ) {
            (ReferenceType::MutBorrowed, OverlapState::Overlap) => Some(
                BorrowErrorView::MutMutOverlap {
                    first_ptr_id: m.borrower_id(),
                    second_ptr_id: o.borrower_id(),
                    value_id: var_id,
                },
            ),
            (ReferenceType::ConstBorrowed, OverlapState::Overlap) => Some(
                BorrowErrorView::MutConstOverlap {
                    mut_ptr_id: m.borrower_id(),
                    const_ptr_id: o.borrower_id(),
                    value_id: var_id,
                },
            ),
            (ReferenceType::MutBorrowed, OverlapState::SameLine) => Some(
                BorrowErrorView::MutMutSameLine {
                    first_ptr_id: m.borrower_id(),
                    second_ptr_id: o.borrower_id(),
                    value_id: var_id,
                },
            ),
            (ReferenceType::ConstBorrowed, OverlapState::SameLine) => Some(
                BorrowErrorView::MutConstSameLine {
                    mut_ptr_id: m.borrower_id(),
                    const_ptr_id: o.borrower_id(),
                    value_id: var_id,
                },
            ),
            _ => None,
        }
    }
}

/// Errors for the mutable borrow `m` against each of `others`, in order.
pub open spec fn pair_errors(var_id: Seq<char>, m: Reference, others: Seq<Reference>) -> Seq<
    BorrowErrorView,
>
    decreases others.len(),
{
    if others.len() == 0 {
        seq![]
    } else {
        let rest = pair_errors(var_id, m, others.drop_last());
        match pair_error(var_id, m, others.last()) {
            Some(e) => rest.push(e),
            None => rest,
        }
    }
}

/// Errors for each mutable borrow in `muts` against all borrows `others`.
pub open spec fn mut_ref_errors(var_id: Seq<char>, muts: Seq<Reference>, others: Seq<Reference>) -> Seq<
    BorrowErrorView,
>
    decreases muts.len(),
{
    if muts.len() == 0 {
        seq![]
    } else {
        mut_ref_errors(var_id, muts.drop_last(), others) + pair_errors(var_id, muts.last(), others)
    }
}

/// Every reference of the list is a plain borrow.
pub open spec fn all_borrowed(rs: Seq<Reference>) -> bool {
    forall|i: int|
        0 <= i < rs.len() ==> (#[trigger] rs[i].kind() == ReferenceType::MutBorrowed
            || rs[i].kind() == ReferenceType::ConstBorrowed)
}

fn borrow_error_of(var_id: &str, ptr: &str, kind: u8) -> (e: BorrowError)
    ensures
        kind == 0 ==> e@ == (BorrowErrorView::ValueMutOverlap { ptr_id: ptr@, value_id: var_id@ }),
        kind == 1 ==> e@ == (BorrowErrorView::ValueMutSameLine { ptr_id: ptr@, value_id: var_id@ }),
        kind == 2 ==> e@ == (BorrowErrorView::ValueConstOverlap { ptr_id: ptr@, value_id: var_id@ }),
        kind != 0 && kind != 1 && kind != 2 ==> e@ == (BorrowErrorView::ValueConstSameLine {
            ptr_id: ptr@,
            value_id: var_id@,
        }),
{
    let p = ptr.to_owned();
    let v = var_id.to_owned();
    if kind == 0 {
        BorrowError::ValueMutOverlap { ptr_id: p, value_id: v }
    } else if kind == 1 {
        BorrowError::ValueMutSameLine { ptr_id: p, value_id: v }
    } else if kind == 2 {
        BorrowError::ValueConstOverlap { ptr_id: p, value_id: v }
    } else {
        BorrowError::ValueConstSameLine { ptr_id: p, value_id: v }
    }
}

/// Uses of the value that fall inside a mutable borrow of it.
pub fn check_value_overlaps_with_mut_ptr(
    var_id: &str,
    var_data: &VarData,
    pointed_to_by_mutably: &Vec<Reference>,
) -> (errs: Vec<BorrowError>)
    ensures
        errors_view(errs@) == value_mut_errors(var_id@, var_data.usages@, pointed_to_by_mutably@),
{
    let mut errs: Vec<BorrowError> = Vec::new();
    let mut i: usize = 0;
    while i < pointed_to_by_mutably.len()
        invariant
            i <= pointed_to_by_mutably@.len(),
            errors_view(errs@) == value_mut_errors(
                var_id@,
                var_data.usages@,
                pointed_to_by_mutably@.subrange(0, i as int),
            ),
        decreases pointed_to_by_mutably.len() - i,
    {
        let reference = &pointed_to_by_mutably[i];
        let state = var_ptr_range_overlap(&var_data.usages, reference.get_range());
        let ghost before = errs@;
        proof {
            assert(pointed_to_by_mutably@.subrange(0, i + 1).drop_last()
                =~= pointed_to_by_mutably@.subrange(0, i as int));
        }
        match state {
            OverlapState::Overlap => {
                errs.push(borrow_error_of(var_id, reference.get_borrower(), 0));
                proof {
                    assert(errors_view(errs@) =~= errors_view(before).push(errs@.last()@));
                }
            },
            OverlapState::SameLine => {
                errs.push(borrow_error_of(var_id, reference.get_borrower(), 1));
                proof {
                    assert(errors_view(errs@) =~= errors_view(before).push(errs@.last()@));
                }
            },
            OverlapState::NoOverlap => {},
        }
        i = i + 1;
    }
    proof {
        assert(pointed_to_by_mutably@.subrange(0, i as int) =~= pointed_to_by_mutably@);
    }
    errs
}

/// Writes of the value that fall inside a borrow of it.
pub fn check_value_overlaps_with_const_ptr(
    var_id: &str,
    lvalue_usages: &Vec<Usage>,
    pointed_to_by: &Vec<Reference>,
) -> (errs: Vec<BorrowError>)
    ensures
        errors_view(errs@) == value_const_errors(var_id@, lvalue_usages@, pointed_to_by@),
{
    let mut errs: Vec<BorrowError> = Vec::new();
    let mut i: usize = 0;
    while i < pointed_to_by.len()
        invariant
            i <= pointed_to_by@.len(),
            errors_view(errs@) == value_const_errors(
                var_id@,
                lvalue_usages@,
                pointed_to_by@.subrange(0, i as int),
            ),
        decreases pointed_to_by.len() - i,
    {
        let reference = &pointed_to_by[i];
        let state = var_ptr_range_overlap(lvalue_usages, reference.get_range());
        let ghost before = errs@;
        proof {
            assert(pointed_to_by@.subrange(0, i + 1).drop_last() =~= pointed_to_by@.subrange(
                0,
                i as int,
            ));
        }
        match state {
            OverlapState::Overlap => {
                errs.push(borrow_error_of(var_id, reference.get_borrower(), 2));
                proof {
                    assert(errors_view(errs@) =~= errors_view(before).push(errs@.last()@));
                }
            },
            OverlapState::SameLine => {
                errs.push(borrow_error_of(var_id, reference.get_borrower(), 3));
                proof {
                    assert(errors_view(errs@) =~= errors_view(before).push(errs@.last()@));
                }
            },
            OverlapState::NoOverlap => {},
        }
        i = i + 1;
    }
    proof {
        assert(pointed_to_by@.subrange(0, i as int) =~= pointed_to_by@);
    }
    errs
}

/// The error for the mutable borrow `m` meeting the borrow `o`.
fn pair_error_exec(var_id: &str, m: &Reference, o: &Reference) -> (e: Option<BorrowError>)
    requires
        pair_checkable(*m, *o),
    ensures
        e matches Some(x) ==> pair_error(var_id@, *m, *o) == Some(x@),
        e is None ==> pair_error(var_id@, *m, *o) is None,
{
    if m.get_borrower().to_owned() == o.get_borrower().to_owned() {
        return None;
    }
    let state = ptr_range_overlap(m.get_range(), o.get_range());
    let mid = m.get_borrower().to_owned();
    let oid = o.get_borrower().to_owned();
    let v = var_id.to_owned();
    match (o.get_reference_type(), state) {
        (ReferenceType::MutBorrowed, OverlapState::Overlap) => Some(
            BorrowError::MutMutOverlap { first_ptr_id: mid, second_ptr_id: oid, value_id: v },
        ),
        (ReferenceType::ConstBorrowed, OverlapState::Overlap) => Some(
            BorrowError::MutConstOverlap { mut_ptr_id: mid, const_ptr_id: oid, value_id: v },
        ),
        (ReferenceType::MutBorrowed, OverlapState::SameLine) => Some(
            BorrowError::MutMutSameLine { first_ptr_id: mid, second_ptr_id: oid, value_id: v },
        ),
        (ReferenceType::ConstBorrowed, OverlapState::SameLine) => Some(
            BorrowError::MutConstSameLine { mut_ptr_id: mid, const_ptr_id: oid, value_id: v },
        ),
        _ => None,
    }
}

/// A reference `o` held by another variable than `m`'s borrower, whose lines meet those
/// of `m`, is still a plain borrow (the check is made before any reference becomes an `Rc`
/// clone or a raw pointer).
pub open spec fn pair_checkable(m: Reference, o: Reference) -> bool {
    o.borrower_id() != m.borrower_id() && spec_ptr_range_overlap(
        m.start_line() as int,
        m.end_line() as int,
        o.start_line() as int,
        o.end_line() as int,
    ) != OverlapState::NoOverlap ==> (o.kind() == ReferenceType::MutBorrowed || o.kind()
        == ReferenceType::ConstBorrowed)
}

/// Mutable borrows that meet another borrow of the same value held by another variable.
pub fn check_mutable_ref_overlaps_with_ptr(
    var_id: &str,
    pointed_to_by_mutably: &Vec<Reference>,
    pointed_to_by: &Vec<Reference>,
) -> (errs: Vec<BorrowError>)
    requires
        forall|a: int, b: int|
            0 <= a < pointed_to_by_mutably@.len() && 0 <= b < pointed_to_by@.len() ==> pair_checkable(
                #[trigger] pointed_to_by_mutably@[a],
                #[trigger] pointed_to_by@[b],
            ),
    ensures
        errors_view(errs@) == mut_ref_errors(var_id@, pointed_to_by_mutably@, pointed_to_by@),
{
    let mut errs: Vec<BorrowError> = Vec::new();
    let mut i: usize = 0;
    while i < pointed_to_by_mutably.len()
        invariant
            forall|a: int, b: int|
                0 <= a < pointed_to_by_mutably@.len() && 0 <= b < pointed_to_by@.len() ==> pair_checkable(
                    #[trigger] pointed_to_by_mutably@[a],
                    #[trigger] pointed_to_by@[b],
                ),
            i <= pointed_to_by_mutably@.len(),
            errors_view(errs@) == mut_ref_errors(
                var_id@,
                pointed_to_by_mutably@.subrange(0, i as int),
                pointed_to_by@,
            ),
        decreases pointed_to_by_mutably.len() - i,
    {
        let m = &pointed_to_by_mutably[i];
        let ghost base = errs@;
        let mut j: usize = 0;
        while j < pointed_to_by.len()
            invariant
                forall|a: int, b: int|
                    0 <= a < pointed_to_by_mutably@.len() && 0 <= b < pointed_to_by@.len() ==> pair_checkable(
                        #[trigger] pointed_to_by_mutably@[a],
                        #[trigger] pointed_to_by@[b],
                    ),
                i < pointed_to_by_mutably@.len(),
                j <= pointed_to_by@.len(),
                *m == pointed_to_by_mutably@[i as int],
                errs@.len() >= base.len(),
                errs@.subrange(0, base.len() as int) == base,
                errors_view(errs@) == errors_view(base) + pair_errors(
                    var_id@,
                    *m,
                    pointed_to_by@.subrange(0, j as int),
                ),
            decreases pointed_to_by.len() - j,
        {
            let o = &pointed_to_by[j];
            let ghost before = errs@;
            proof {
                assert(pointed_to_by@.subrange(0, j + 1).drop_last() =~= pointed_to_by@.subrange(
                    0,
                    j as int,
                ));
            }
            match pair_error_exec(var_id, m, o) {
                Some(e) => {
                    errs.push(e);
                    proof {
                        assert(errors_view(errs@) =~= errors_view(before).push(errs@.last()@));
                        assert(errs@.subrange(0, base.len() as int) =~= before.subrange(
                            0,
                            base.len() as int,
                        ));
                    }
                },
                None => {},
            }
            j = j + 1;
        }
        proof {
            assert(pointed_to_by@.subrange(0, j as int) =~= pointed_to_by@);
            assert(pointed_to_by_mutably@.subrange(0, i + 1).drop_last()
                =~= pointed_to_by_mutably@.subrange(0, i as int));
        }
        i = i + 1;
    }
    proof {
        assert(pointed_to_by_mutably@.subrange(0, i as int) =~= pointed_to_by_mutably@);
    }
    errs
}

/// Whether the value a variable is declared with is never read: the variable is written
/// before it is first read (or never read), and no reference to it is ever taken (through
/// which the value could be read).
pub open spec fn spec_init_value_unused(
    pointed_to_empty: bool,
    rvals: Seq<Usage>,
    lvals: Seq<Usage>,
) -> bool {
    &&& pointed_to_empty
    &&& lvals.len() > 0
    &&& (rvals.len() == 0 || rvals[0].line_of() > lvals[0].line_of())
}

/// Marks the variable's declared value as unused when it is overwritten before any read.
pub fn check_unused_init_value(var_data: &mut VarData, rvalue_usages: &Vec<Usage>, lvalue_usages: &Vec<Usage>)
    ensures
        *final(var_data) == (VarData {
            init_value_unused: old(var_data).init_value_unused || spec_init_value_unused(
                old(var_data).pointed_to@.len() == 0,
                rvalue_usages@,
                lvalue_usages@,
            ),
            ..*old(var_data)
        }),
{
    if var_data.pointed_to.len() == 0 && lvalue_usages.len() > 0 {
        if rvalue_usages.len() == 0 || rvalue_usages[0].get_line_number()
            > lvalue_usages[0].get_line_number() {
            var_data.init_value_unused = true;
        }
    }
}


/// The references at the given positions.
pub open spec fn refs_of(refs: Seq<Reference>, idxs: Seq<usize>) -> Seq<Reference> {
    idxs.map_values(|i: usize| refs[i as int])
}

/// All errors reported for one variable.
pub open spec fn var_errors(refs: Seq<Reference>, name: Seq<char>, v: VarData) -> Seq<BorrowErrorView> {
    let pointed = refs_of(refs, v.pointed_to@);
    value_mut_errors(name, v.usages@, only_mut(pointed)) + value_const_errors(
        name,
        usages_of_kind(v.usages@, UsageType::LValue),
        pointed,
    ) + mut_ref_errors(name, only_mut(pointed), pointed)
}

/// All errors reported, variable after variable.
pub open spec fn all_errors(refs: Seq<Reference>, vars: Seq<(String, VarData)>) -> Seq<BorrowErrorView>
    decreases vars.len(),
{
    if vars.len() == 0 {
        seq![]
    } else {
        all_errors(refs, vars.drop_last()) + var_errors(refs, vars.last().0@, vars.last().1)
    }
}

fn collect_refs(refs: &Vec<Reference>, idxs: &Vec<usize>) -> (r: Vec<Reference>)
    requires
        forall|i: int| 0 <= i < idxs@.len() ==> #[trigger] idxs@[i] < refs@.len(),
    ensures
        r@ == refs_of(refs@, idxs@),
{
    let mut r: Vec<Reference> = Vec::new();
    let mut i: usize = 0;
    while i < idxs.len()
        invariant
            forall|q: int| 0 <= q < idxs@.len() ==> #[trigger] idxs@[q] < refs@.len(),
            i <= idxs@.len(),
            r@ == refs_of(refs@, idxs@.subrange(0, i as int)),
        decreases idxs.len() - i,
    {
        r.push(refs[idxs[i]].duplicate());
        proof {
            assert(refs_of(refs@, idxs@.subrange(0, i + 1)) =~= refs_of(
                refs@,
                idxs@.subrange(0, i as int),
            ).push(refs@[idxs@[i as int] as int]));
        }
        i = i + 1;
    }
    proof {
        assert(idxs@.subrange(0, i as int) =~= idxs@);
    }
    r
}

fn filter_mut(rs: &Vec<Reference>) -> (r: Vec<Reference>)
    ensures
        r@ == only_mut(rs@),
{
    let mut r: Vec<Reference> = Vec::new();
    let mut i: usize = 0;
    while i < rs.len()
        invariant
            i <= rs@.len(),
            r@ == only_mut(rs@.subrange(0, i as int)),
        decreases rs.len() - i,
    {
        proof {
            assert(rs@.subrange(0, i + 1).drop_last() =~= rs@.subrange(0, i as int));
        }
        if rs[i].get_reference_type() == ReferenceType::MutBorrowed {
            r.push(rs[i].duplicate());
        }
        i = i + 1;
    }
    proof {
        assert(rs@.subrange(0, i as int) =~= rs@);
    }
    r
}

fn filter_usages(us: &Vec<Usage>, k: UsageType) -> (r: Vec<Usage>)
    ensures
        r@ == usages_of_kind(us@, k),
{
    let mut r: Vec<Usage> = Vec::new();
    let mut i: usize = 0;
    while i < us.len()
        invariant
            i <= us@.len(),
            r@ == usages_of_kind(us@.subrange(0, i as int), k),
        decreases us.len() - i,
    {
        proof {
            assert(us@.subrange(0, i + 1).drop_last() =~= us@.subrange(0, i as int));
        }
        if *us[i].get_usage_type() == k {
            r.push(us[i].duplicate());
        }
        i = i + 1;
    }
    proof {
        assert(us@.subrange(0, i as int) =~= us@);
    }
    r
}

/// The kind of every reference in `refs_of(refs, idxs)` is one of those of `refs`.
proof fn lemma_refs_of_borrowed(refs: Seq<Reference>, idxs: Seq<usize>)
    requires
        all_borrowed(refs),
        forall|i: int| 0 <= i < idxs.len() ==> #[trigger] idxs[i] < refs.len(),
    ensures
        all_borrowed(refs_of(refs, idxs)),
{
    assert forall|i: int| 0 <= i < idxs.len() implies (#[trigger] refs_of(refs, idxs)[i].kind()
        == ReferenceType::MutBorrowed || refs_of(refs, idxs)[i].kind() == ReferenceType::ConstBorrowed) by {
        assert(refs_of(refs, idxs)[i] == refs[idxs[i] as int]);
    }
}

/// Lexical borrow checking: for every variable, the uses of its value inside a mutable
/// borrow of it, the writes to it inside any borrow of it, and the mutable borrows of it
/// that meet another variable's borrow of it. Also marks the variables whose declared value
/// is overwritten before it is read.
pub fn borrow_check(ctx: &mut AnalysisContext) -> (errors: Vec<BorrowError>)
    requires
        old(ctx).wf(),
        old(ctx).refs_borrowed(),
    ensures
        errors_view(errors@) == all_errors(old(ctx).references@, old(ctx).variables@),
        final(ctx).wf(),
        final(ctx).refs_borrowed(),
        final(ctx).same_links(old(ctx)),
        final(ctx).references == old(ctx).references,
        final(ctx).structs == old(ctx).structs,
        forall|i: int|
            0 <= i < old(ctx).variables@.len() ==> #[trigger] final(ctx).variables@[i] == (
            old(ctx).variables@[i].0,
            VarData {
                init_value_unused: old(ctx).variables@[i].1.init_value_unused
                    || spec_init_value_unused(
                    old(ctx).variables@[i].1.pointed_to@.len() == 0,
                    usages_of_kind(old(ctx).variables@[i].1.usages@, UsageType::RValue),
                    usages_of_kind(old(ctx).variables@[i].1.usages@, UsageType::LValue),
                ),
                ..old(ctx).variables@[i].1
            },
        ),
{
    let ghost old_ctx = *ctx;
    let mut errors: Vec<BorrowError> = Vec::new();
    let mut i: usize = 0;
    while i < ctx.variables.len()
        invariant
            old_ctx.wf(),
            old_ctx.refs_borrowed(),
            ctx.references == old_ctx.references,
            ctx.structs == old_ctx.structs,
            ctx.variables@.len() == old_ctx.variables@.len(),
            i <= ctx.variables@.len(),
            errors_view(errors@) == all_errors(old_ctx.references@, old_ctx.variables@.subrange(0, i as int)),
            forall|q: int|
                i <= q < old_ctx.variables@.len() ==> #[trigger] ctx.variables@[q] == old_ctx.variables@[q],
            forall|q: int|
                0 <= q < i ==> #[trigger] ctx.variables@[q] == (
                old_ctx.variables@[q].0,
                VarData {
                    init_value_unused: old_ctx.variables@[q].1.init_value_unused
                        || spec_init_value_unused(
                        old_ctx.variables@[q].1.pointed_to@.len() == 0,
                        usages_of_kind(old_ctx.variables@[q].1.usages@, UsageType::RValue),
                        usages_of_kind(old_ctx.variables@[q].1.usages@, UsageType::LValue),
                    ),
                    ..old_ctx.variables@[q].1
                },
            ),
        decreases ctx.variables.len() - i,
    {
        assert(ctx.variables@[i as int] == old_ctx.variables@[i as int]);
        assert(var_refs_in(old_ctx.variables@[i as int].1, old_ctx.references@.len()));
        let pointed_to_by = collect_refs(&ctx.references, &ctx.variables[i].1.pointed_to);
        let pointed_to_by_mutably = filter_mut(&pointed_to_by);
        let rvalue_usages = filter_usages(&ctx.variables[i].1.usages, UsageType::RValue);
        let lvalue_usages = filter_usages(&ctx.variables[i].1.usages, UsageType::LValue);
        let var_id = ctx.variables[i].0.as_str();
        let mut e1 = check_value_overlaps_with_mut_ptr(var_id, &ctx.variables[i].1, &pointed_to_by_mutably);
        let mut e2 = check_value_overlaps_with_const_ptr(var_id, &lvalue_usages, &pointed_to_by);
        proof {
            lemma_refs_of_borrowed(old_ctx.references@, old_ctx.variables@[i as int].1.pointed_to@);
        }
        let mut e3 = check_mutable_ref_overlaps_with_ptr(var_id, &pointed_to_by_mutably, &pointed_to_by);
        let ghost before = errors@;
        let ghost v1 = e1@;
        let ghost v2 = e2@;
        let ghost v3 = e3@;
        errors.append(&mut e1);
        errors.append(&mut e2);
        errors.append(&mut e3);
        proof {
            assert(old_ctx.variables@.subrange(0, i + 1).drop_last() =~= old_ctx.variables@.subrange(0, i as int));
            assert(errors@ =~= before + v1 + v2 + v3);
            assert(errors_view(errors@) =~= errors_view(before) + errors_view(v1) + errors_view(v2) + errors_view(v3));
        }
        check_unused_init_value(&mut ctx.variables[i].1, &rvalue_usages, &lvalue_usages);
        i = i + 1;
    }
    proof {
        assert(old_ctx.variables@.subrange(0, i as int) =~= old_ctx.variables@);
        let vars = ctx.variables@;
        let ovars = old_ctx.variables@;
        assert forall|q: int| 0 <= q < vars.len() implies {
            &&& #[trigger] vars[q].0@ == ovars[q].0@
            &&& vars[q].1.points_to == ovars[q].1.points_to
            &&& vars[q].1.pointed_to == ovars[q].1.pointed_to
        } by {
            assert(vars[q] == ovars[q] || q < i);
        }
        assert(ctx.same_links(&old_ctx));
        assert forall|a: int, b: int| 0 <= a < vars.len() && 0 <= b < vars.len() && a != b implies vars[a].0@ != vars[b].0@ by {
            assert(vars[a].0@ == ovars[a].0@);
            assert(vars[b].0@ == ovars[b].0@);
        }
        assert forall|a: int| 0 <= a < vars.len() implies var_refs_in(#[trigger] vars[a].1, ctx.references@.len()) by {
            assert(vars[a].0@ == ovars[a].0@);
            assert(var_refs_in(ovars[a].1, old_ctx.references@.len()));
        }
        assert forall|a: int, k: int|
            0 <= a < vars.len() && 0 <= k < vars[a].1.points_to@.len()
                implies #[trigger] ctx.references@[vars[a].1.points_to@[k] as int].borrower_id() == vars[a].0@ by {
            assert(vars[a].0@ == ovars[a].0@);
        }
        assert forall|a: int, k: int|
            0 <= a < vars.len() && 0 <= k < vars[a].1.pointed_to@.len()
                implies #[trigger] ctx.references@[vars[a].1.pointed_to@[k] as int].ref_to_id() == vars[a].0@ by {
            assert(vars[a].0@ == ovars[a].0@);
        }
    }
    errors
}
proof fn lemma_all_errors_contains(refs: Seq<Reference>, vars: Seq<(String, VarData)>, i: int, e: BorrowErrorView)
    requires
        0 <= i < vars.len(),
        var_errors(refs, vars[i].0@, vars[i].1).contains(e),
    ensures
        all_errors(refs, vars).contains(e),
    decreases vars.len(),
{
    let rest = all_errors(refs, vars.drop_last());
    let last = var_errors(refs, vars.last().0@, vars.last().1);
    if i == vars.len() - 1 {
        let k = choose|k: int| 0 <= k < last.len() && last[k] == e;
        assert((rest + last)[rest.len() + k] == e);
    } else {
        assert(vars.drop_last()[i] == vars[i]);
        lemma_all_errors_contains(refs, vars.drop_last(), i, e);
        let k = choose|k: int| 0 <= k < rest.len() && rest[k] == e;
        assert((rest + last)[k] == e);
    }
}

proof fn lemma_only_mut_contains(rs: Seq<Reference>, a: int)
    requires
        0 <= a < rs.len(),
        rs[a].kind() == ReferenceType::MutBorrowed,
    ensures
        only_mut(rs).contains(rs[a]),
    decreases rs.len(),
{
    if a == rs.len() - 1 {
        assert(only_mut(rs).last() == rs[a]);
    } else {
        assert(rs.drop_last()[a] == rs[a]);
        lemma_only_mut_contains(rs.drop_last(), a);
        let k = choose|k: int| 0 <= k < only_mut(rs.drop_last()).len() && only_mut(rs.drop_last())[k] == rs[a];
        if rs.last().kind() == ReferenceType::MutBorrowed {
            assert(only_mut(rs)[k] == rs[a]);
        }
    }
}

proof fn lemma_pair_errors_contains(var_id: Seq<char>, m: Reference, others: Seq<Reference>, b: int)
    requires
        0 <= b < others.len(),
        pair_error(var_id, m, others[b]) is Some,
    ensures
        pair_errors(var_id, m, others).contains(pair_error(var_id, m, others[b])->0),
    decreases others.len(),
{
    let rest = pair_errors(var_id, m, others.drop_last());
    if b == others.len() - 1 {
        assert(pair_errors(var_id, m, others).last() == pair_error(var_id, m, others[b])->0);
    } else {
        assert(others.drop_last()[b] == others[b]);
        lemma_pair_errors_contains(var_id, m, others.drop_last(), b);
        let e = pair_error(var_id, m, others[b])->0;
        let k = choose|k: int| 0 <= k < rest.len() && rest[k] == e;
        match pair_error(var_id, m, others.last()) {
            Some(x) => {
                assert(rest.push(x)[k] == e);
            },
            None => {},
        }
    }
}

proof fn lemma_mut_ref_errors_contains(
    var_id: Seq<char>,
    muts: Seq<Reference>,
    others: Seq<Reference>,
    m: Reference,
    e: BorrowErrorView,
)
    requires
        muts.contains(m),
        pair_errors(var_id, m, others).contains(e),
    ensures
        mut_ref_errors(var_id, muts, others).contains(e),
    decreases muts.len(),
{
    let rest = mut_ref_errors(var_id, muts.drop_last(), others);
    let last = pair_errors(var_id, muts.last(), others);
    if muts.last() == m {
        let k = choose|k: int| 0 <= k < last.len() && last[k] == e;
        assert((rest + last)[rest.len() + k] == e);
    } else {
        let j = choose|j: int| 0 <= j < muts.len() && muts[j] == m;
        assert(muts.drop_last()[j] == m);
        lemma_mut_ref_errors_contains(var_id, muts.drop_last(), others, m, e);
        let k = choose|k: int| 0 <= k < rest.len() && rest[k] == e;
        assert((rest + last)[k] == e);
    }
}

/// When a mutable borrow of a variable and another variable's borrow of it overlap, the
/// checker reports it: a mutable-mutable or mutable-shared overlap naming both pointers and
/// the variable.
pub proof fn lemma_overlap_reported(refs: Seq<Reference>, vars: Seq<(String, VarData)>, i: int, a: int, b: int)
    requires
        0 <= i < vars.len(),
        0 <= a < vars[i].1.pointed_to@.len(),
        0 <= b < vars[i].1.pointed_to@.len(),
        all_borrowed(refs_of(refs, vars[i].1.pointed_to@)),
        refs_of(refs, vars[i].1.pointed_to@)[a].kind() == ReferenceType::MutBorrowed,
        refs_of(refs, vars[i].1.pointed_to@)[a].borrower_id() != refs_of(refs, vars[i].1.pointed_to@)[b].borrower_id(),
        spec_ptr_range_overlap(
            refs_of(refs, vars[i].1.pointed_to@)[a].start_line() as int,
            refs_of(refs, vars[i].1.pointed_to@)[a].end_line() as int,
            refs_of(refs, vars[i].1.pointed_to@)[b].start_line() as int,
            refs_of(refs, vars[i].1.pointed_to@)[b].end_line() as int,
        ) == OverlapState::Overlap,
    ensures
        ({
            let m = refs_of(refs, vars[i].1.pointed_to@)[a];
            let o = refs_of(refs, vars[i].1.pointed_to@)[b];
            let e = if o.kind() == ReferenceType::MutBorrowed {
                BorrowErrorView::MutMutOverlap {
                    first_ptr_id: m.borrower_id(),
                    second_ptr_id: o.borrower_id(),
                    value_id: vars[i].0@,
                }
            } else {
                BorrowErrorView::MutConstOverlap {
                    mut_ptr_id: m.borrower_id(),
                    const_ptr_id: o.borrower_id(),
                    value_id: vars[i].0@,
                }
            };
            all_errors(refs, vars).contains(e)
        }),
{
    let name = vars[i].0@;
    let pointed = refs_of(refs, vars[i].1.pointed_to@);
    let m = pointed[a];
    let o = pointed[b];
    assert(o.kind() == ReferenceType::MutBorrowed || o.kind() == ReferenceType::ConstBorrowed);
    let e = pair_error(name, m, o)->0;
    lemma_pair_errors_contains(name, m, pointed, b);
    lemma_only_mut_contains(pointed, a);
    lemma_mut_ref_errors_contains(name, only_mut(pointed), pointed, m, e);
    let ve = var_errors(refs, name, vars[i].1);
    let front = value_mut_errors(name, vars[i].1.usages@, only_mut(pointed)) + value_const_errors(
        name,
        usages_of_kind(vars[i].1.usages@, UsageType::LValue),
        pointed,
    );
    let tail = mut_ref_errors(name, only_mut(pointed), pointed);
    let k = choose|k: int| 0 <= k < tail.len() && tail[k] == e;
    assert(ve == front + tail);
    assert(ve[front.len() + k] == e);
    lemma_all_errors_contains(refs, vars, i, e);
}


/// The error the mutable borrow `r` of `var_id` gets from the uses `us` of the value, if any.
pub open spec fn value_mut_error(var_id: Seq<char>, us: Seq<Usage>, r: Reference) -> Option<BorrowErrorView> {
    match spec_var_ptr_range_overlap(us, r.start_line() as int, r.end_line() as int) {
        OverlapState::Overlap => Some(
            BorrowErrorView::ValueMutOverlap { ptr_id: r.borrower_id(), value_id: var_id },
        ),
        OverlapState::SameLine => Some(
            BorrowErrorView::ValueMutSameLine { ptr_id: r.borrower_id(), value_id: var_id },
        ),
        OverlapState::NoOverlap => None,
    }
}

proof fn lemma_value_mut_errors_contains(var_id: Seq<char>, us: Seq<Usage>, muts: Seq<Reference>, m: Reference)
    requires
        muts.contains(m),
        value_mut_error(var_id, us, m) is Some,
    ensures
        value_mut_errors(var_id, us, muts).contains(value_mut_error(var_id, us, m)->0),
    decreases muts.len(),
{
    let e = value_mut_error(var_id, us, m)->0;
    let rest = value_mut_errors(var_id, us, muts.drop_last());
    if muts.last() == m {
        assert(value_mut_errors(var_id, us, muts).last() == e);
    } else {
        let j = choose|j: int| 0 <= j < muts.len() && muts[j] == m;
        assert(muts.drop_last()[j] == m);
        lemma_value_mut_errors_contains(var_id, us, muts.drop_last(), m);
        let k = choose|k: int| 0 <= k < rest.len() && rest[k] == e;
        match value_mut_error(var_id, us, muts.last()) {
            Some(x) => {
                assert(rest.push(x)[k] == e);
            },
            None => {},
        }
    }
}

/// When the value of a variable is used strictly inside one of its mutable borrows, the
/// checker reports it for that pointer: as a value/mutable overlap, or as a same-line
/// conflict when some use of the value falls on the borrow's last line.
pub proof fn lemma_value_use_reported(refs: Seq<Reference>, vars: Seq<(String, VarData)>, i: int, a: int, u: int)
    requires
        0 <= i < vars.len(),
        0 <= a < vars[i].1.pointed_to@.len(),
        0 <= u < vars[i].1.usages@.len(),
        refs_of(refs, vars[i].1.pointed_to@)[a].kind() == ReferenceType::MutBorrowed,
        spec_usage_in_block(
            vars[i].1.usages@[u].line_of() as int,
            refs_of(refs, vars[i].1.pointed_to@)[a].start_line() as int,
            refs_of(refs, vars[i].1.pointed_to@)[a].end_line() as int,
        ) == OverlapState::Overlap,
    ensures
        ({
            let m = refs_of(refs, vars[i].1.pointed_to@)[a];
            all_errors(refs, vars).contains(
                BorrowErrorView::ValueMutOverlap { ptr_id: m.borrower_id(), value_id: vars[i].0@ },
            ) || all_errors(refs, vars).contains(
                BorrowErrorView::ValueMutSameLine { ptr_id: m.borrower_id(), value_id: vars[i].0@ },
            )
        }),
{
    let name = vars[i].0@;
    let us = vars[i].1.usages@;
    let pointed = refs_of(refs, vars[i].1.pointed_to@);
    let m = pointed[a];
    assert(spec_usage_in_block(us[u].line_of() as int, m.start_line() as int, m.end_line() as int)
        == OverlapState::Overlap);
    assert(value_mut_error(name, us, m) is Some);
    let e = value_mut_error(name, us, m)->0;
    lemma_only_mut_contains(pointed, a);
    lemma_value_mut_errors_contains(name, us, only_mut(pointed), m);
    let front = value_mut_errors(name, us, only_mut(pointed));
    let ve = var_errors(refs, name, vars[i].1);
    let k = choose|k: int| 0 <= k < front.len() && front[k] == e;
    assert(ve[k] == e);
    lemma_all_errors_contains(refs, vars, i, e);
}

/// A declared value is marked unused only when the variable is written and no read comes on
/// or before the line of its first write: with the reads in line order, every read is on a
/// line strictly after the first write.
pub proof fn lemma_unused_value_read_only_after_first_write(
    pointed_to_empty: bool,
    rvals: Seq<Usage>,
    lvals: Seq<Usage>,
)
    requires
        forall|a: int, b: int| 0 <= a <= b < rvals.len() ==> rvals[a].line_of() <= rvals[b].line_of(),
    ensures
        spec_init_value_unused(pointed_to_empty, rvals, lvals) ==> lvals.len() > 0 && forall|i: int|
            0 <= i < rvals.len() ==> #[trigger] rvals[i].line_of() > lvals[0].line_of(),
        forall|i: int|
            0 <= i < rvals.len() && lvals.len() > 0 && #[trigger] rvals[i].line_of() <= lvals[0].line_of()
                ==> !spec_init_value_unused(pointed_to_empty, rvals, lvals),
{
    assert forall|i: int| 0 <= i < rvals.len() implies rvals[0].line_of() <= #[trigger] rvals[i].line_of() by {}
}

} // verus!
