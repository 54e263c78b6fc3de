use vstd::prelude::*;
use crate::analysis_ctx::AnalysisContext;
use crate::annotater::{annotates, lemma_annotates_seq_index, AnnotatedNode, AnnotatedNodeT};
use crate::ast::{NodeType, TokenNode};
use crate::ast::spec_op_str;
use crate::data_model::{FieldDefinition, ReferenceType};
use crate::lexer::spec_rust_type;

verus! {

/// The decimal spelling of one digit.
pub open spec fn digit_str(d: nat) -> Seq<char> {
    if d == 0 {
        "0"@
    } else if d == 1 {
        "1"@
    } else if d == 2 {
        "2"@
    } else if d == 3 {
        "3"@
    } else if d == 4 {
        "4"@
    } else if d == 5 {
        "5"@
    } else if d == 6 {
        "6"@
    } else if d == 7 {
        "7"@
    } else if d == 8 {
        "8"@
    } else {
        "9"@
    }
}

/// The decimal spelling of a number.
pub open spec fn dec_str(n: nat) -> Seq<char>
    decreases n,
{
    if n < 10 {
        digit_str(n)
    } else {
        dec_str(n / 10) + digit_str(n % 10)
    }
}

/// The strings, with `sep` between each two.
pub open spec fn join(strs: Seq<Seq<char>>, sep: Seq<char>) -> Seq<char>
    decreases strs.len(),
{
    if strs.len() == 0 {
        seq![]
    } else if strs.len() == 1 {
        strs[0]
    } else {
        join(strs.drop_last(), sep) + sep + strs.last()
    }
}

/// The Rust type of a pointer whose references are of the given kinds (outermost first)
/// to a value of type `rust_t`.
pub open spec fn spec_ptr_type(kinds: Seq<ReferenceType>, rust_t: Seq<char>) -> Seq<char>
    decreases kinds.len(),
{
    if kinds.len() == 0 {
        rust_t
    } else {
        let rest = spec_ptr_type(kinds.drop_first(), rust_t);
        match kinds[0] {
            ReferenceType::MutBorrowed => "&mut "@ + rest + " "@,
            ReferenceType::ConstBorrowed => "&"@ + rest,
            ReferenceType::RcRefClone => "Rc<RefCell<"@ + rest + ">>"@,
            ReferenceType::MutPtr => "*mut "@ + rest,
            ReferenceType::ConstPtr => "*const "@ + rest,
        }
    }
}

/// The type of a struct field: its kinds applied from the innermost out, with the struct's
/// lifetime on borrows when the struct holds any.
pub open spec fn spec_field_type(kinds: Seq<ReferenceType>, rust_t: Seq<char>, has_ref: bool) -> Seq<char>
    decreases kinds.len(),
{
    if kinds.len() == 0 {
        rust_t
    } else {
        let inner = spec_field_type(kinds.drop_first(), rust_t, has_ref);
        match kinds[0] {
            ReferenceType::MutBorrowed => if has_ref {
                "&'a mut "@ + inner
            } else {
                "&mut "@ + inner
            },
            ReferenceType::ConstBorrowed => if has_ref {
                "&'a "@ + inner
            } else {
                "&"@ + inner
            },
            ReferenceType::RcRefClone => "Rc<RefCell<"@ + inner + ">>"@,
            ReferenceType::MutPtr => "*mut "@ + inner,
            ReferenceType::ConstPtr => "*const "@ + inner,
        }
    }
}

/// The `*` for each dereference.
pub open spec fn stars(n: nat) -> Seq<char>
    decreases n,
{
    if n == 0 {
        seq![]
    } else {
        stars((n - 1) as nat) + "*"@
    }
}

pub open spec fn pick(b: bool, yes: Seq<char>, no: Seq<char>) -> Seq<char> {
    if b {
        yes
    } else {
        no
    }
}

/// The left side of a write through a pointer, before the `unsafe` closers are added:
/// `id` with each kind of reference applied in turn.
pub open spec fn deref_lside(kinds: Seq<ReferenceType>, id: Seq<char>, rc: bool) -> Seq<char>
    decreases kinds.len(),
{
    if kinds.len() == 0 {
        id
    } else {
        let l = deref_lside(kinds.drop_last(), id, rc);
        match kinds.last() {
            ReferenceType::RcRefClone => l + ".borrow_mut()"@,
            ReferenceType::MutBorrowed => if rc {
                l
            } else {
                "*"@ + l
            },
            ReferenceType::MutPtr => "unsafe { *"@ + l,
            _ => l,
        }
    }
}

/// The number of raw pointers among the kinds.
pub open spec fn raw_count(kinds: Seq<ReferenceType>) -> nat
    decreases kinds.len(),
{
    if kinds.len() == 0 {
        0
    } else {
        raw_count(kinds.drop_last()) + if kinds.last() == ReferenceType::MutPtr {
            1nat
        } else {
            0nat
        }
    }
}

/// ` }` once for each raw pointer.
pub open spec fn closers(n: nat) -> Seq<char>
    decreases n,
{
    if n == 0 {
        seq![]
    } else {
        closers((n - 1) as nat) + " }"@
    }
}

/// A write through a pointer may go through borrows, `Rc` clones and mutable raw
/// pointers only.
pub open spec fn writable_kinds(kinds: Seq<ReferenceType>) -> bool {
    forall|i: int|
        0 <= i < kinds.len() ==> (#[trigger] kinds[i] == ReferenceType::RcRefClone || kinds[i]
            == ReferenceType::MutBorrowed || kinds[i] == ReferenceType::MutPtr)
}

/// The kinds of the reference a pointer declaration writes on its right side.
pub open spec fn spec_reference(k: ReferenceType, adr: Seq<char>, ptr_type: Seq<char>) -> Seq<char> {
    match k {
        ReferenceType::MutBorrowed => "&mut "@ + adr,
        ReferenceType::ConstBorrowed => "&"@ + adr,
        ReferenceType::RcRefClone => adr + ".clone()"@,
        ReferenceType::MutPtr => "&mut "@ + adr + " as "@ + ptr_type,
        ReferenceType::ConstPtr => "&"@ + adr + " as "@ + ptr_type,
    }
}

/// The field of a struct literal: `id: value,` with the value borrowed as the field's
/// outer reference asks.
pub open spec fn spec_field_literal(f: FieldDefinition, value: Seq<char>) -> Seq<char> {
    let v = if f.ptr_type@.len() == 0 {
        value
    } else {
        match f.ptr_type@[0] {
            ReferenceType::MutBorrowed => "&mut "@ + value,
            ReferenceType::ConstBorrowed => "&"@ + value,
            _ => value + ".clone()"@,
        }
    };
    f.id@ + ": "@ + v + ","@
}

/// A function argument.
pub open spec fn spec_argument(n: AnnotatedNode) -> Seq<char> {
    match n.token {
        AnnotatedNodeT::Declaration { id, is_mut, t, .. } => pick(is_mut, "mut "@, ""@) + id@
            + ": "@ + spec_rust_type(t),
        AnnotatedNodeT::PtrDeclaration { id, is_mut, t, ref_type, .. } => pick(is_mut, "mut "@, ""@)
            + id@ + ": "@ + spec_ptr_type(ref_type@, spec_rust_type(t)),
        _ => seq![],
    }
}

pub open spec fn is_argument(n: AnnotatedNode) -> bool {
    n.token is Declaration || n.token is PtrDeclaration
}

/// The nodes can be converted: each node's kind is one the conversion handles, with the
/// children and parts it needs.
pub open spec fn convertible(n: AnnotatedNode) -> bool
    decreases n, 1nat,
{
    let c = n.children@;
    match n.token {
        AnnotatedNodeT::PtrDeclaration { points_to, adr, .. } => points_to@.len() > 0 && convertible(
            *adr,
        ),
        AnnotatedNodeT::DerefAssignment { ref_types, .. } => c.len() >= 1 && convertible_seq(c)
            && writable_kinds(ref_types@),
        AnnotatedNodeT::Declaration { .. } => convertible_seq(c),
        AnnotatedNodeT::DeRef { .. } => true,
        AnnotatedNodeT::Adr { .. } => true,
        AnnotatedNodeT::NumLiteral(_) => true,
        AnnotatedNodeT::ArrayDeclaration { items, .. } => convertible_seq(items@),
        AnnotatedNodeT::Assignment { .. } => c.len() >= 1 && convertible(c[0]),
        AnnotatedNodeT::FunctionDeclaration { .. } => c.len() > 0 ==> (arguments_ok(c.drop_last())
            && convertible(c.last())),
        AnnotatedNodeT::FunctionCall(_) => convertible_seq(c),
        AnnotatedNodeT::If => c.len() >= 2 && convertible(c[0]) && convertible(c[1]),
        AnnotatedNodeT::Program { .. } => convertible_seq(c),
        AnnotatedNodeT::StructDeclaration { fields, .. } => fields_ok(fields@),
        _ => {
            &&& c.len() > 1 ==> convertible(c[0]) && convertible(c[1])
            &&& match n.token {
                AnnotatedNodeT::Add => c.len() > 1,
                AnnotatedNodeT::Sub => c.len() > 1,
                AnnotatedNodeT::Mul => c.len() > 1,
                AnnotatedNodeT::Div => c.len() > 1,
                AnnotatedNodeT::EqCmp => c.len() > 1,
                AnnotatedNodeT::While => c.len() > 1,
                AnnotatedNodeT::Eq => true,
                AnnotatedNodeT::Id { .. } => true,
                AnnotatedNodeT::StructDefinition { .. } => true,
                AnnotatedNodeT::StructFieldAssignment { expr, .. } => convertible(*expr),
                AnnotatedNodeT::Scope(_) => convertible_seq(c),
                AnnotatedNodeT::Return { expr } => convertible(*expr),
                AnnotatedNodeT::StructFieldId { .. } => true,
                _ => false,
            }
        },
    }
}

pub open spec fn convertible_seq(s: Seq<AnnotatedNode>) -> bool
    decreases s, 0nat,
{
    s.len() > 0 ==> convertible_seq(s.drop_last()) && convertible(s.last())
}

/// Each node is a function argument.
pub open spec fn arguments_ok(s: Seq<AnnotatedNode>) -> bool {
    forall|i: int| 0 <= i < s.len() ==> is_argument(#[trigger] s[i])
}

/// The fields of a struct literal can be converted: each value can, and no field is a
/// raw pointer.
pub open spec fn fields_ok(fs: Seq<(FieldDefinition, AnnotatedNode)>) -> bool
    decreases fs, 0nat,
{
    fs.len() > 0 ==> {
        &&& fields_ok(fs.drop_last())
        &&& convertible(fs.last().1)
        &&& fs.last().0.ptr_type@.len() > 0 ==> (fs.last().0.ptr_type@[0] == ReferenceType::MutBorrowed
            || fs.last().0.ptr_type@[0] == ReferenceType::ConstBorrowed
            || fs.last().0.ptr_type@[0] == ReferenceType::RcRefClone)
    }
}

/// The Rust code a node converts to.
pub open spec fn spec_convert(n: AnnotatedNode) -> Seq<char>
    decreases n, 1nat,
{
    let c = n.children@;
    match n.token {
        AnnotatedNodeT::PtrDeclaration {
            id,
            is_mut,
            points_to,
            t,
            adr,
            ref_type,
            is_used,
            init_value_unused,
            ..
        } => {
            let pt = spec_ptr_type(ref_type@, spec_rust_type(t));
            let l = if init_value_unused {
                ""@
            } else {
                " = "@ + spec_reference(points_to@[0], spec_convert(*adr), pt)
            };
            "let "@ + pick(is_mut, "mut "@, ""@) + pick(is_used, ""@, "_"@) + id@ + ": "@ + pt + l
                + ";"@
        },
        AnnotatedNodeT::DerefAssignment { op, id, ref_types, .. } => {
            let e = convert_seq(c)[0];
            let rcc = ref_types@.contains(ReferenceType::RcRefClone);
            let l = deref_lside(ref_types@, id@, rcc);
            pick(rcc, "*"@, ""@) + l + " "@ + spec_op_str(op) + " "@ + e + closers(
                raw_count(ref_types@),
            ) + ";"@
        },
        AnnotatedNodeT::Declaration { id, is_mut, t, rc, is_used, init_value_unused } => {
            let cs = convert_seq(c);
            let rust_t = spec_rust_type(t);
            if cs.len() > 0 {
                let l = if init_value_unused {
                    ""@
                } else {
                    " = "@ + cs[0]
                };
                if rc {
                    "let "@ + pick(is_used, ""@, "_"@) + id@ + ": Rc<RefCell<"@ + rust_t
                        + ">> = Rc::new(RefCell::new("@ + cs[0] + "));"@
                } else {
                    "let "@ + pick(is_mut, "mut "@, ""@) + pick(is_used, ""@, "_"@) + id@ + ": "@
                        + rust_t + l + ";"@
                }
            } else {
                "let "@ + id@ + ": "@ + rust_t + ";"@
            }
        },
        AnnotatedNodeT::DeRef { id, rc, count } => stars(count as nat) + id@ + pick(
            rc,
            ".borrow()"@,
            ""@,
        ),
        AnnotatedNodeT::Adr { id } => id@,
        AnnotatedNodeT::ArrayDeclaration { id, t, size, is_used, is_mut, items, init_value_unused } => {
            let l = if init_value_unused {
                ""@
            } else {
                " = &["@ + dec_str(size as nat) + "; "@ + join(convert_seq(items@), ", "@) + "]"@
            };
            "let "@ + pick(is_mut, "mut "@, ""@) + pick(is_used, ""@, "_"@) + id@ + ": "@
                + spec_rust_type(t) + l + ";"@
        },
        AnnotatedNodeT::NumLiteral(k) => dec_str(k as nat),
        AnnotatedNodeT::Assignment { op, id, rc } => {
            let e = if c.len() > 0 {
                spec_convert(c[0])
            } else {
                seq![]
            };
            if rc {
                "*"@ + id@ + ".borrow_mut() "@ + spec_op_str(op) + " "@ + e + ";"@
            } else {
                id@ + " "@ + spec_op_str(op) + " "@ + e + ";"@
            }
        },
        AnnotatedNodeT::FunctionDeclaration { id, t } => {
            let rust_t = if id@ == "main"@ {
                "()"@
            } else {
                spec_rust_type(t)
            };
            let args = if c.len() > 0 {
                join(arguments(c.drop_last()), ", "@)
            } else {
                ""@
            };
            let scope = if c.len() > 0 {
                spec_convert(c.last())
            } else {
                ""@
            };
            "fn "@ + id@ + "("@ + args + ") -> "@ + rust_t + " {\n"@ + scope + "\n}"@
        },
        AnnotatedNodeT::FunctionCall(id) => id@ + "("@ + join(convert_seq(c), ", "@) + ")"@,
        AnnotatedNodeT::If => if c.len() > 1 {
            "if "@ + spec_convert(c[0]) + " {\n"@ + spec_convert(c[1]) + "\n}"@
        } else {
            seq![]
        },
        AnnotatedNodeT::Program { imports } => join(
            imports@.map_values(|s: String| s@).push(join(convert_seq(c), "\n"@)),
            "\n"@,
        ),
        AnnotatedNodeT::StructDeclaration { var_id, struct_id, is_mut, fields, is_used, init_value_unused } => {
            let l = if init_value_unused {
                ""@
            } else {
                " = "@ + struct_id@ + " {"@ + fields_literal(fields@) + "}"@
            };
            "let "@ + pick(is_mut, "mut "@, ""@) + pick(is_used, ""@, "_"@) + var_id@ + l + ";"@
        },
        AnnotatedNodeT::Add => if c.len() > 1 {
            spec_convert(c[0]) + " + "@ + spec_convert(c[1])
        } else {
            seq![]
        },
        AnnotatedNodeT::Sub => if c.len() > 1 {
            spec_convert(c[0]) + " - "@ + spec_convert(c[1])
        } else {
            seq![]
        },
        AnnotatedNodeT::Mul => if c.len() > 1 {
            spec_convert(c[0]) + " * "@ + spec_convert(c[1])
        } else {
            seq![]
        },
        AnnotatedNodeT::Div => if c.len() > 1 {
            spec_convert(c[0]) + " / "@ + spec_convert(c[1])
        } else {
            seq![]
        },
        AnnotatedNodeT::Eq => "="@,
        AnnotatedNodeT::EqCmp => if c.len() > 1 {
            spec_convert(c[0]) + " == "@ + spec_convert(c[1])
        } else {
            seq![]
        },
        AnnotatedNodeT::Id { id, rc } => if rc {
            "*"@ + id@ + ".borrow()"@
        } else {
            id@
        },
        AnnotatedNodeT::StructDefinition { struct_id, field_definitions, has_ref } => "struct "@
            + struct_id@ + pick(has_ref, "<'a>"@, ""@) + " {\n"@ + field_lines(
            field_definitions@,
            has_ref,
        ) + "}"@,
        AnnotatedNodeT::StructFieldAssignment { var_id, field_id, op, expr } => var_id@ + "."@
            + field_id@ + " "@ + spec_op_str(op) + " "@ + spec_convert(*expr) + ";"@,
        AnnotatedNodeT::While => if c.len() > 1 {
            "while "@ + spec_convert(c[0]) + " {\n\t\t"@ + spec_convert(c[1]) + "\n\t}"@
        } else {
            seq![]
        },
        AnnotatedNodeT::Scope(_) => join(convert_seq(c), "\n\t"@),
        AnnotatedNodeT::Return { expr } => "return("@ + spec_convert(*expr) + ");"@,
        AnnotatedNodeT::StructFieldId { var_id, field_id } => var_id@ + "."@ + field_id@,
        _ => seq![],
    }
}

pub open spec fn convert_seq(s: Seq<AnnotatedNode>) -> Seq<Seq<char>>
    decreases s, 0nat,
{
    if s.len() == 0 {
        seq![]
    } else {
        convert_seq(s.drop_last()).push(spec_convert(s.last()))
    }
}

/// The fields of a struct literal, one after the other.
pub open spec fn fields_literal(fs: Seq<(FieldDefinition, AnnotatedNode)>) -> Seq<char>
    decreases fs, 0nat,
{
    if fs.len() == 0 {
        seq![]
    } else {
        fields_literal(fs.drop_last()) + spec_field_literal(fs.last().0, spec_convert(fs.last().1))
    }
}

/// The arguments of a function declaration.
pub open spec fn arguments(s: Seq<AnnotatedNode>) -> Seq<Seq<char>> {
    s.map_values(|n: AnnotatedNode| spec_argument(n))
}

/// The lines of a struct definition, one per field.
pub open spec fn field_lines(fs: Seq<FieldDefinition>, has_ref: bool) -> Seq<char>
    decreases fs.len(),
{
    if fs.len() == 0 {
        seq![]
    } else {
        field_lines(fs.drop_last(), has_ref) + "\t"@ + fs.last().id@ + ": "@ + spec_field_type(
            fs.last().ptr_type@,
            spec_rust_type(fs.last().c_type),
            has_ref,
        ) + ",\n"@
    }
}

/// `a` followed by `b`.
fn cat(a: String, b: &str) -> (r: String)
    ensures
        r@ == a@ + b@,
{
    let mut a = a;
    a.append(b);
    a
}

fn pick_str(b: bool, yes: &'static str, no: &'static str) -> (r: &'static str)
    ensures
        r@ == pick(b, yes@, no@),
{
    if b {
        yes
    } else {
        no
    }
}

fn digit(d: usize) -> (r: &'static str)
    requires
        d < 10,
    ensures
        r@ == digit_str(d as nat),
{
    if d == 0 {
        "0"
    } else if d == 1 {
        "1"
    } else if d == 2 {
        "2"
    } else if d == 3 {
        "3"
    } else if d == 4 {
        "4"
    } else if d == 5 {
        "5"
    } else if d == 6 {
        "6"
    } else if d == 7 {
        "7"
    } else if d == 8 {
        "8"
    } else {
        "9"
    }
}

/// The decimal spelling of a number.
pub fn dec_string(n: usize) -> (r: String)
    ensures
        r@ == dec_str(n as nat),
    decreases n,
{
    if n < 10 {
        String::from_str(digit(n))
    } else {
        cat(dec_string(n / 10), digit(n % 10))
    }
}

/// The views of a list of strings.
pub open spec fn strings_view(s: Seq<String>) -> Seq<Seq<char>> {
    s.map_values(|x: String| x@)
}

/// The strings, with `sep` between each two.
pub fn join_strings(strs: &Vec<String>, sep: &str) -> (r: String)
    ensures
        r@ == join(strings_view(strs@), sep@),
{
    if strs.len() == 0 {
        return String::new();
    }
    let mut r = strs[0].clone();
    let mut i: usize = 1;
    proof {
        assert(strings_view(strs@).subrange(0, 1).drop_last().len() == 0);
    }
    while i < strs.len()
        invariant
            1 <= i <= strs@.len(),
            r@ == join(strings_view(strs@).subrange(0, i as int), sep@),
        decreases strs.len() - i,
    {
        let ghost before = r@;
        r.append(sep);
        r.append(strs[i].as_str());
        proof {
            let v = strings_view(strs@).subrange(0, i + 1);
            assert(v.drop_last() =~= strings_view(strs@).subrange(0, i as int));
            assert(v.last() == strs@[i as int]@);
        }
        i = i + 1;
    }
    proof {
        assert(strings_view(strs@).subrange(0, strs@.len() as int) =~= strings_view(strs@));
    }
    r
}

/// The Rust type of a pointer whose references are of the given kinds (outermost first).
pub fn construct_ptr_type(points_to: &Vec<ReferenceType>, rust_t: &str) -> (r: String)
    ensures
        r@ == spec_ptr_type(points_to@, rust_t@),
{
    let mut acc = rust_t.to_owned();
    let mut i: usize = points_to.len();
    proof {
        assert(points_to@.subrange(points_to@.len() as int, points_to@.len() as int).len() == 0);
    }
    while i > 0
        invariant
            i <= points_to@.len(),
            acc@ == spec_ptr_type(points_to@.subrange(i as int, points_to@.len() as int), rust_t@),
        decreases i,
    {
        i = i - 1;
        proof {
            let s = points_to@.subrange(i as int, points_to@.len() as int);
            assert(s.drop_first() =~= points_to@.subrange(i + 1, points_to@.len() as int));
            assert(s[0] == points_to@[i as int]);
        }
        acc = match points_to[i] {
            ReferenceType::MutBorrowed => cat(cat(String::from_str("&mut "), acc.as_str()), " "),
            ReferenceType::ConstBorrowed => cat(String::from_str("&"), acc.as_str()),
            ReferenceType::RcRefClone => cat(cat(String::from_str("Rc<RefCell<"), acc.as_str()), ">>"),
            ReferenceType::MutPtr => cat(String::from_str("*mut "), acc.as_str()),
            ReferenceType::ConstPtr => cat(String::from_str("*const "), acc.as_str()),
        };
    }
    proof {
        assert(points_to@.subrange(0, points_to@.len() as int) =~= points_to@);
    }
    acc
}

/// The type of a struct field; see `spec_field_type`.
fn field_type(kinds: &Vec<ReferenceType>, rust_t: &str, has_ref: bool) -> (r: String)
    ensures
        r@ == spec_field_type(kinds@, rust_t@, has_ref),
{
    let mut acc = rust_t.to_owned();
    let mut i: usize = kinds.len();
    while i > 0
        invariant
            i <= kinds@.len(),
            acc@ == spec_field_type(kinds@.subrange(i as int, kinds@.len() as int), rust_t@, has_ref),
        decreases i,
    {
        i = i - 1;
        proof {
            let s = kinds@.subrange(i as int, kinds@.len() as int);
            assert(s.drop_first() =~= kinds@.subrange(i + 1, kinds@.len() as int));
            assert(s[0] == kinds@[i as int]);
        }
        acc = match kinds[i] {
            ReferenceType::MutBorrowed => if has_ref {
                cat(String::from_str("&'a mut "), acc.as_str())
            } else {
                cat(String::from_str("&mut "), acc.as_str())
            },
            ReferenceType::ConstBorrowed => if has_ref {
                cat(String::from_str("&'a "), acc.as_str())
            } else {
                cat(String::from_str("&"), acc.as_str())
            },
            ReferenceType::RcRefClone => cat(cat(String::from_str("Rc<RefCell<"), acc.as_str()), ">>"),
            ReferenceType::MutPtr => cat(String::from_str("*mut "), acc.as_str()),
            ReferenceType::ConstPtr => cat(String::from_str("*const "), acc.as_str()),
        };
    }
    proof {
        assert(kinds@.subrange(0, kinds@.len() as int) =~= kinds@);
    }
    acc
}

/// One `*` per dereference.
fn star_string(n: u8) -> (r: String)
    ensures
        r@ == stars(n as nat),
{
    let mut r = String::new();
    let mut i: u8 = 0;
    proof {
        assert(r@ =~= stars(0));
    }
    while i < n
        invariant
            i <= n,
            r@ == stars(i as nat),
        decreases n - i,
    {
        r.append("*");
        i = i + 1;
    }
    r
}

/// ` }` once for each raw pointer.
fn closer_string(n: usize) -> (r: String)
    ensures
        r@ == closers(n as nat),
{
    let mut r = String::new();
    let mut i: usize = 0;
    proof {
        assert(r@ =~= closers(0));
    }
    while i < n
        invariant
            i <= n,
            r@ == closers(i as nat),
        decreases n - i,
    {
        r.append(" }");
        i = i + 1;
    }
    r
}

/// Converts each node, in order.
fn convert_all(nodes: &Vec<AnnotatedNode>) -> (r: Vec<String>)
    requires
        convertible_seq(nodes@),
    ensures
        strings_view(r@) == convert_seq(nodes@),
    decreases nodes@, 0nat,
{
    let mut r: Vec<String> = Vec::new();
    let mut i: usize = 0;
    while i < nodes.len()
        invariant
            i <= nodes@.len(),
            convertible_seq(nodes@),
            strings_view(r@) == convert_seq(nodes@.subrange(0, i as int)),
        decreases nodes.len() - i,
    {
        proof {
            lemma_convertible_seq_index(nodes@, i as int);
            assert(decreases_to!(nodes@ => nodes@[i as int]));
        }
        let c = nodes[i].convert();
        r.push(c);
        proof {
            let v = nodes@.subrange(0, i + 1);
            assert(v.drop_last() =~= nodes@.subrange(0, i as int));
            assert(strings_view(r@) =~= convert_seq(nodes@.subrange(0, i as int)).push(c@));
        }
        i = i + 1;
    }
    proof {
        assert(nodes@.subrange(0, nodes@.len() as int) =~= nodes@);
    }
    r
}

proof fn lemma_convertible_seq_index(s: Seq<AnnotatedNode>, i: int)
    requires
        convertible_seq(s),
        0 <= i < s.len(),
    ensures
        convertible(s[i]),
    decreases s.len(),
{
    if i < s.len() - 1 {
        lemma_convertible_seq_index(s.drop_last(), i);
        assert(s.drop_last()[i] == s[i]);
    }
}

proof fn lemma_convertible_seq_all(s: Seq<AnnotatedNode>)
    requires
        forall|i: int| 0 <= i < s.len() ==> convertible(#[trigger] s[i]),
    ensures
        convertible_seq(s),
    decreases s.len(),
{
    if s.len() > 0 {
        assert forall|i: int| 0 <= i < s.drop_last().len() implies convertible(#[trigger] s.drop_last()[i]) by {
            assert(s.drop_last()[i] == s[i]);
        }
        lemma_convertible_seq_all(s.drop_last());
        assert(convertible(s[s.len() - 1]));
    }
}

proof fn lemma_convert_seq_len(s: Seq<AnnotatedNode>)
    ensures
        convert_seq(s).len() == s.len(),
    decreases s.len(),
{
    if s.len() > 0 {
        lemma_convert_seq_len(s.drop_last());
    }
}

proof fn lemma_convert_seq_index(s: Seq<AnnotatedNode>, i: int)
    requires
        0 <= i < s.len(),
    ensures
        convert_seq(s)[i] == spec_convert(s[i]),
    decreases s.len(),
{
    lemma_convert_seq_len(s.drop_last());
    if i < s.len() - 1 {
        lemma_convert_seq_index(s.drop_last(), i);
        assert(s.drop_last()[i] == s[i]);
    }
}

/// A function argument.
fn convert_argument(expr: &AnnotatedNode) -> (r: String)
    requires
        is_argument(*expr),
    ensures
        r@ == spec_argument(*expr),
{
    match &expr.token {
        AnnotatedNodeT::Declaration { id, is_mut, t, .. } => {
            let rust_t = t.to_rust_type();
            cat(cat(cat(String::from_str(pick_str(*is_mut, "mut ", "")), id.as_str()), ": "), rust_t.as_str())
        },
        AnnotatedNodeT::PtrDeclaration { id, is_mut, t, ref_type, .. } => {
            let rust_t = t.to_rust_type();
            let ptr_type = construct_ptr_type(ref_type, rust_t.as_str());
            cat(cat(cat(String::from_str(pick_str(*is_mut, "mut ", "")), id.as_str()), ": "), ptr_type.as_str())
        },
        _ => String::new(),
    }
}

impl AnnotatedNode {
    /// The Rust code for the node and what it holds.
    pub fn convert(&self) -> (r: String)
        requires
            convertible(*self),
        ensures
            r@ == spec_convert(*self),
        decreases self, 2nat,
    {
        proof {
            assert(decreases_to!(self => self.children));
            assert(decreases_to!(self.children => self.children@));
        }
        match &self.token {
            AnnotatedNodeT::PtrDeclaration { .. } => self.convert_ptr_declaration(),
            AnnotatedNodeT::DerefAssignment { .. } => self.convert_deref_assignment(),
            AnnotatedNodeT::Declaration { .. } => self.convert_declaration(),
            AnnotatedNodeT::DeRef { id, rc, count } => cat(
                cat(star_string(*count), id.as_str()),
                pick_str(*rc, ".borrow()", ""),
            ),
            AnnotatedNodeT::Adr { id } => id.clone(),
            AnnotatedNodeT::ArrayDeclaration { .. } => self.convert_array_declaration(),
            AnnotatedNodeT::NumLiteral(n) => dec_string(*n),
            AnnotatedNodeT::Assignment { op, id, rc } => {
                proof {
                    assert(decreases_to!(self.children@ => self.children@[0]));
                }
                let rust_expr = self.children[0].convert();
                if *rc {
                    cat(
                        cat(cat(cat(cat(String::from_str("*"), id.as_str()), ".borrow_mut() "), op.as_str()), " "),
                        cat(rust_expr, ";").as_str(),
                    )
                } else {
                    cat(cat(cat(cat(cat(id.clone(), " "), op.as_str()), " "), rust_expr.as_str()), ";")
                }
            },
            AnnotatedNodeT::FunctionDeclaration { .. } => self.convert_function_declaration(),
            AnnotatedNodeT::FunctionCall(id) => {
                let args = join_strings(&convert_all(&self.children), ", ");
                cat(cat(cat(id.clone(), "("), args.as_str()), ")")
            },
            AnnotatedNodeT::If => {
                proof {
                    assert(decreases_to!(self.children@ => self.children@[0]));
                    assert(decreases_to!(self.children@ => self.children@[1]));
                }
                let condition = self.children[0].convert();
                let scope = self.children[1].convert();
                cat(cat(cat(cat(String::from_str("if "), condition.as_str()), " {\n"), scope.as_str()), "\n}")
            },
            AnnotatedNodeT::Program { imports } => {
                let body = join_strings(&convert_all(&self.children), "\n");
                let mut all: Vec<String> = Vec::new();
                let mut i: usize = 0;
                while i < imports.len()
                    invariant
                        i <= imports@.len(),
                        all@ == imports@.subrange(0, i as int),
                    decreases imports.len() - i,
                {
                    all.push(imports[i].clone());
                    i = i + 1;
                    assert(all@ =~= imports@.subrange(0, i as int));
                }
                proof {
                    assert(imports@.subrange(0, imports@.len() as int) =~= imports@);
                }
                let ghost before = all@;
                all.push(body);
                proof {
                    assert(all@ == imports@.push(body));
                    assert(strings_view(all@) =~= imports@.map_values(|s: String| s@).push(body@));
                }
                join_strings(&all, "\n")
            },
            AnnotatedNodeT::StructDeclaration { .. } => self.convert_struct_declaration(),
            _ => self.non_ptr_conversion(),
        }
    }

    fn convert_ptr_declaration(&self) -> (r: String)
        requires
            convertible(*self),
            self.token is PtrDeclaration,
        ensures
            r@ == spec_convert(*self),
        decreases self, 1nat,
    {
        match &self.token {
            AnnotatedNodeT::PtrDeclaration {
                id,
                is_mut,
                points_to,
                t,
                adr,
                ref_type,
                is_used,
                init_value_unused,
                ..
            } => {
                proof {
                    assert(decreases_to!(self => self.token));
                }
                let rust_t = t.to_rust_type();
                let rust_adr = adr.convert();
                let rust_ref_type = construct_ptr_type(ref_type, rust_t.as_str());
                let rust_reference = match points_to[0] {
                    ReferenceType::MutBorrowed => cat(String::from_str("&mut "), rust_adr.as_str()),
                    ReferenceType::ConstBorrowed => cat(String::from_str("&"), rust_adr.as_str()),
                    ReferenceType::RcRefClone => cat(rust_adr, ".clone()"),
                    ReferenceType::MutPtr => cat(
                        cat(cat(String::from_str("&mut "), rust_adr.as_str()), " as "),
                        rust_ref_type.as_str(),
                    ),
                    ReferenceType::ConstPtr => cat(
                        cat(cat(String::from_str("&"), rust_adr.as_str()), " as "),
                        rust_ref_type.as_str(),
                    ),
                };
                let l_side = if *init_value_unused {
                    String::new()
                } else {
                    cat(String::from_str(" = "), rust_reference.as_str())
                };
                proof {
                    assert(*init_value_unused ==> l_side@ =~= ""@) by {
                        reveal_strlit("");
                    }
                }
                cat(
                    cat(
                        cat(
                            cat(
                                cat(
                                    cat(String::from_str("let "), pick_str(*is_mut, "mut ", "")),
                                    pick_str(*is_used, "", "_"),
                                ),
                                id.as_str(),
                            ),
                            ": ",
                        ),
                        rust_ref_type.as_str(),
                    ),
                    cat(l_side, ";").as_str(),
                )
            },
            _ => String::new(),
        }
    }

    fn convert_deref_assignment(&self) -> (r: String)
        requires
            convertible(*self),
            self.token is DerefAssignment,
        ensures
            r@ == spec_convert(*self),
        decreases self, 1nat,
    {
        match &self.token {
            AnnotatedNodeT::DerefAssignment { op, id, ref_types, .. } => {
                proof {
                    assert(decreases_to!(self => self.children));
                    assert(decreases_to!(self.children => self.children@));
                }
                let exprs = convert_all(&self.children);
                proof {
                    lemma_convert_seq_len(self.children@);
                    assert(strings_view(exprs@)[0] == exprs@[0]@);
                }
                let expr_child = exprs[0].clone();
                let mut is_rc_clone = false;
                let mut k: usize = 0;
                while k < ref_types.len()
                    invariant
                        k <= ref_types@.len(),
                        is_rc_clone == exists|q: int|
                            0 <= q < k && #[trigger] ref_types@[q] == ReferenceType::RcRefClone,
                    decreases ref_types.len() - k,
                {
                    if ref_types[k] == ReferenceType::RcRefClone {
                        is_rc_clone = true;
                    }
                    k = k + 1;
                }
                proof {
                    if is_rc_clone {
                        let q = choose|q: int|
                            0 <= q < ref_types@.len() && #[trigger] ref_types@[q] == ReferenceType::RcRefClone;
                        assert(ref_types@.contains(ReferenceType::RcRefClone));
                    }
                    if ref_types@.contains(ReferenceType::RcRefClone) {
                        let q = choose|q: int|
                            0 <= q < ref_types@.len() && ref_types@[q] == ReferenceType::RcRefClone;
                        assert(ref_types@[q] == ReferenceType::RcRefClone);
                    }
                }
                let mut l_side = id.clone();
                let mut raw: usize = 0;
                let mut i: usize = 0;
                while i < ref_types.len()
                    invariant
                        i <= ref_types@.len(),
                        raw <= i,
                        l_side@ == deref_lside(ref_types@.subrange(0, i as int), id@, is_rc_clone),
                        raw == raw_count(ref_types@.subrange(0, i as int)),
                    decreases ref_types.len() - i,
                {
                    proof {
                        let v = ref_types@.subrange(0, i + 1);
                        assert(v.drop_last() =~= ref_types@.subrange(0, i as int));
                        assert(v.last() == ref_types@[i as int]);
                    }
                    match ref_types[i] {
                        ReferenceType::RcRefClone => {
                            l_side = cat(l_side, ".borrow_mut()");
                        },
                        ReferenceType::MutBorrowed => {
                            if !is_rc_clone {
                                l_side = cat(String::from_str("*"), l_side.as_str());
                            }
                        },
                        ReferenceType::MutPtr => {
                            l_side = cat(String::from_str("unsafe { *"), l_side.as_str());
                            raw = raw + 1;
                        },
                        _ => {},
                    }
                    i = i + 1;
                }
                proof {
                    assert(ref_types@.subrange(0, ref_types@.len() as int) =~= ref_types@);
                }
                let closers = closer_string(raw);
                cat(
                    cat(
                        cat(
                            cat(
                                cat(cat(String::from_str(pick_str(is_rc_clone, "*", "")), l_side.as_str()), " "),
                                op.as_str(),
                            ),
                            " ",
                        ),
                        expr_child.as_str(),
                    ),
                    cat(closers, ";").as_str(),
                )
            },
            _ => String::new(),
        }
    }

    fn convert_declaration(&self) -> (r: String)
        requires
            convertible(*self),
            self.token is Declaration,
        ensures
            r@ == spec_convert(*self),
        decreases self, 1nat,
    {
        match &self.token {
            AnnotatedNodeT::Declaration { id, is_mut, t, rc, is_used, init_value_unused } => {
                proof {
                    assert(decreases_to!(self => self.children));
                    assert(decreases_to!(self.children => self.children@));
                }
                let rust_t = t.to_rust_type();
                let exprs = convert_all(&self.children);
                proof {
                    lemma_convert_seq_len(self.children@);
                }
                if exprs.len() > 0 {
                    proof {
                        assert(strings_view(exprs@)[0] == exprs@[0]@);
                    }
                    let expr_child = exprs[0].clone();
                    if *rc {
                        cat(
                            cat(
                                cat(
                                    cat(
                                        cat(cat(String::from_str("let "), pick_str(*is_used, "", "_")), id.as_str()),
                                        ": Rc<RefCell<",
                                    ),
                                    rust_t.as_str(),
                                ),
                                ">> = Rc::new(RefCell::new(",
                            ),
                            cat(expr_child, "));").as_str(),
                        )
                    } else {
                        let l_side = if *init_value_unused {
                            String::new()
                        } else {
                            cat(String::from_str(" = "), expr_child.as_str())
                        };
                        proof {
                            assert(*init_value_unused ==> l_side@ =~= ""@) by {
                                reveal_strlit("");
                            }
                        }
                        cat(
                            cat(
                                cat(
                                    cat(
                                        cat(
                                            cat(String::from_str("let "), pick_str(*is_mut, "mut ", "")),
                                            pick_str(*is_used, "", "_"),
                                        ),
                                        id.as_str(),
                                    ),
                                    ": ",
                                ),
                                rust_t.as_str(),
                            ),
                            cat(l_side, ";").as_str(),
                        )
                    }
                } else {
                    cat(cat(cat(cat(String::from_str("let "), id.as_str()), ": "), rust_t.as_str()), ";")
                }
            },
            _ => String::new(),
        }
    }

    fn convert_array_declaration(&self) -> (r: String)
        requires
            convertible(*self),
            self.token is ArrayDeclaration,
        ensures
            r@ == spec_convert(*self),
        decreases self, 1nat,
    {
        match &self.token {
            AnnotatedNodeT::ArrayDeclaration { id, t, size, is_used, is_mut, items, init_value_unused } => {
                proof {
                    assert(decreases_to!(self => self.token));
                    assert(decreases_to!(self.token => self.token->ArrayDeclaration_items));
                    assert(decreases_to!(self.token->ArrayDeclaration_items => items@));
                }
                let rust_t = t.to_rust_type();
                let items_str = join_strings(&convert_all(items), ", ");
                let l_side = if *init_value_unused {
                    String::new()
                } else {
                    cat(cat(cat(cat(String::from_str(" = &["), dec_string(*size).as_str()), "; "), items_str.as_str()), "]")
                };
                proof {
                    assert(*init_value_unused ==> l_side@ =~= ""@) by {
                        reveal_strlit("");
                    }
                }
                cat(
                    cat(
                        cat(
                            cat(
                                cat(
                                    cat(String::from_str("let "), pick_str(*is_mut, "mut ", "")),
                                    pick_str(*is_used, "", "_"),
                                ),
                                id.as_str(),
                            ),
                            ": ",
                        ),
                        rust_t.as_str(),
                    ),
                    cat(l_side, ";").as_str(),
                )
            },
            _ => String::new(),
        }
    }

    fn convert_function_declaration(&self) -> (r: String)
        requires
            convertible(*self),
            self.token is FunctionDeclaration,
        ensures
            r@ == spec_convert(*self),
        decreases self, 1nat,
    {
        match &self.token {
            AnnotatedNodeT::FunctionDeclaration { id, t } => {
                proof {
                    assert(decreases_to!(self => self.children));
                    assert(decreases_to!(self.children => self.children@));
                }
                let main = String::from_str("main");
                let rust_t = if *id == main {
                    String::from_str("()")
                } else {
                    t.to_rust_type()
                };
                let n = self.children.len();
                let mut args: Vec<String> = Vec::new();
                let mut i: usize = 0;
                while n > 0 && i < n - 1
                    invariant
                        n == self.children@.len(),
                        convertible(*self),
                        self.token is FunctionDeclaration,
                        n > 0 ==> i <= n - 1,
                        n == 0 ==> i == 0,
                        args@.len() == i,
                        forall|k: int| 0 <= k < i ==> (#[trigger] args@[k])@ == spec_argument(self.children@[k]),
                    decreases n - i,
                {
                    proof {
                        assert(is_argument(self.children@.drop_last()[i as int]));
                    }
                    args.push(convert_argument(&self.children[i]));
                    i = i + 1;
                }
                let args_str = join_strings(&args, ", ");
                let scope = if n > 0 {
                    proof {
                        assert(decreases_to!(self.children@ => self.children@[n - 1]));
                    }
                    self.children[n - 1].convert()
                } else {
                    String::new()
                };
                proof {
                    reveal_strlit("");
                    if n > 0 {
                        assert(strings_view(args@) =~= arguments(self.children@.drop_last()));
                    } else {
                        assert(strings_view(args@) =~= Seq::<Seq<char>>::empty());
                    }
                }
                cat(
                    cat(
                        cat(cat(cat(cat(cat(String::from_str("fn "), id.as_str()), "("), args_str.as_str()), ") -> "), rust_t.as_str()),
                        " {\n",
                    ),
                    cat(scope, "\n}").as_str(),
                )
            },
            _ => String::new(),
        }
    }

    fn convert_struct_declaration(&self) -> (r: String)
        requires
            convertible(*self),
            self.token is StructDeclaration,
        ensures
            r@ == spec_convert(*self),
        decreases self, 1nat,
    {
        match &self.token {
            AnnotatedNodeT::StructDeclaration { var_id, struct_id, is_mut, fields, is_used, init_value_unused } => {
                let l_side = if *init_value_unused {
                    proof {
                        reveal_strlit("");
                    }
                    String::new()
                } else {
                    let mut l = cat(cat(String::from_str(" = "), struct_id.as_str()), " {");
                    let ghost prefix = l@;
                    let mut i: usize = 0;
                    while i < fields.len()
                        invariant
                            i <= fields@.len(),
                            fields_ok(fields@),
                            self.token is StructDeclaration,
                            fields == self.token->StructDeclaration_fields,
                            l@ == prefix + fields_literal(fields@.subrange(0, i as int)),
                        decreases fields.len() - i,
                    {
                        proof {
                            lemma_fields_ok_index(fields@, i as int);
                            assert(decreases_to!(self => self.token));
                            assert(decreases_to!(self.token => self.token->StructDeclaration_fields));
                            assert(decreases_to!(self.token->StructDeclaration_fields => fields@));
                            assert(decreases_to!(fields@ => fields@[i as int]));
                            assert(decreases_to!(fields@[i as int] => fields@[i as int].1));
                        }
                        let (field, expr) = &fields[i];
                        let lit = expr.convert_field_literal(field);
                        let ghost before = l@;
                        l.append(lit.as_str());
                        proof {
                            let v = fields@.subrange(0, i + 1);
                            assert(v.drop_last() =~= fields@.subrange(0, i as int));
                        }
                        i = i + 1;
                    }
                    proof {
                        assert(fields@.subrange(0, fields@.len() as int) =~= fields@);
                    }
                    cat(l, "}")
                };
                cat(
                    cat(
                        cat(
                            cat(String::from_str("let "), pick_str(*is_mut, "mut ", "")),
                            pick_str(*is_used, "", "_"),
                        ),
                        var_id.as_str(),
                    ),
                    cat(l_side, ";").as_str(),
                )
            },
            _ => String::new(),
        }
    }

    /// The field of a struct literal with this value; see `spec_field_literal`.
    fn convert_field_literal(&self, field: &FieldDefinition) -> (r: String)
        requires
            convertible(*self),
            field.ptr_type@.len() > 0 ==> (field.ptr_type@[0] == ReferenceType::MutBorrowed
                || field.ptr_type@[0] == ReferenceType::ConstBorrowed || field.ptr_type@[0]
                == ReferenceType::RcRefClone),
        ensures
            r@ == spec_field_literal(*field, spec_convert(*self)),
        decreases self, 3nat,
    {
        let converted = self.convert();
        let value = if field.ptr_type.len() == 0 {
            converted
        } else {
            match field.ptr_type[0] {
                ReferenceType::MutBorrowed => cat(String::from_str("&mut "), converted.as_str()),
                ReferenceType::ConstBorrowed => cat(String::from_str("&"), converted.as_str()),
                _ => cat(converted, ".clone()"),
            }
        };
        cat(cat(cat(field.id.clone(), ": "), value.as_str()), ",")
    }

    fn non_ptr_conversion(&self) -> (r: String)
        requires
            convertible(*self),
            !(self.token is PtrDeclaration || self.token is DerefAssignment || self.token is Declaration
                || self.token is DeRef || self.token is Adr || self.token is ArrayDeclaration
                || self.token is NumLiteral || self.token is Assignment || self.token is FunctionDeclaration
                || self.token is FunctionCall || self.token is If || self.token is Program
                || self.token is StructDeclaration),
        ensures
            r@ == spec_convert(*self),
        decreases self, 1nat,
    {
        proof {
            assert(decreases_to!(self => self.children));
            assert(decreases_to!(self.children => self.children@));
            if self.children@.len() > 1 {
                assert(decreases_to!(self.children@ => self.children@[0]));
                assert(decreases_to!(self.children@ => self.children@[1]));
            }
            assert(decreases_to!(self => self.token));
        }
        match &self.token {
            AnnotatedNodeT::Add => cat(cat(self.children[0].convert(), " + "), self.children[1].convert().as_str()),
            AnnotatedNodeT::Sub => cat(cat(self.children[0].convert(), " - "), self.children[1].convert().as_str()),
            AnnotatedNodeT::Mul => cat(cat(self.children[0].convert(), " * "), self.children[1].convert().as_str()),
            AnnotatedNodeT::Div => cat(cat(self.children[0].convert(), " / "), self.children[1].convert().as_str()),
            AnnotatedNodeT::Eq => String::from_str("="),
            AnnotatedNodeT::EqCmp => cat(cat(self.children[0].convert(), " == "), self.children[1].convert().as_str()),
            AnnotatedNodeT::Id { id, rc } => {
                if *rc {
                    cat(cat(String::from_str("*"), id.as_str()), ".borrow()")
                } else {
                    id.clone()
                }
            },
            AnnotatedNodeT::StructDefinition { struct_id, field_definitions, has_ref } => {
                let mut ret = cat(
                    cat(cat(String::from_str("struct "), struct_id.as_str()), pick_str(*has_ref, "<'a>", "")),
                    " {\n",
                );
                let ghost prefix = ret@;
                let mut i: usize = 0;
                while i < field_definitions.len()
                    invariant
                        i <= field_definitions@.len(),
                        ret@ == prefix + field_lines(field_definitions@.subrange(0, i as int), *has_ref),
                    decreases field_definitions.len() - i,
                {
                    let field = &field_definitions[i];
                    let rust_t = field.c_type.to_rust_type();
                    let ft = field_type(&field.ptr_type, rust_t.as_str(), *has_ref);
                    ret = cat(cat(cat(cat(cat(ret, "\t"), field.id.as_str()), ": "), ft.as_str()), ",\n");
                    proof {
                        let v = field_definitions@.subrange(0, i + 1);
                        assert(v.drop_last() =~= field_definitions@.subrange(0, i as int));
                    }
                    i = i + 1;
                }
                proof {
                    assert(field_definitions@.subrange(0, field_definitions@.len() as int) =~= field_definitions@);
                }
                cat(ret, "}")
            },
            AnnotatedNodeT::StructFieldAssignment { var_id, field_id, op, expr } => {
                let rust_expr = expr.convert();
                cat(
                    cat(cat(cat(cat(cat(var_id.clone(), "."), field_id.as_str()), " "), op.as_str()), " "),
                    cat(rust_expr, ";").as_str(),
                )
            },
            AnnotatedNodeT::While => {
                let condition = self.children[0].convert();
                let scope = self.children[1].convert();
                cat(cat(cat(cat(String::from_str("while "), condition.as_str()), " {\n\t\t"), scope.as_str()), "\n\t}")
            },
            AnnotatedNodeT::Scope(_) => join_strings(&convert_all(&self.children), "\n\t"),
            AnnotatedNodeT::Return { expr } => cat(cat(String::from_str("return("), expr.convert().as_str()), ");"),
            AnnotatedNodeT::StructFieldId { var_id, field_id } => cat(cat(var_id.clone(), "."), field_id.as_str()),
            _ => String::new(),
        }
    }

    /// The node can be converted; see `convertible`.
    pub fn can_convert(&self) -> (b: bool)
        ensures
            b == convertible(*self),
        decreases self, 2nat,
    {
        proof {
            assert(decreases_to!(self => self.children));
            assert(decreases_to!(self.children => self.children@));
            assert(decreases_to!(self => self.token));
        }
        let c = &self.children;
        match &self.token {
            AnnotatedNodeT::PtrDeclaration { points_to, adr, .. } => points_to.len() > 0 && adr.can_convert(),
            AnnotatedNodeT::DerefAssignment { ref_types, .. } => {
                let mut ok = true;
                let mut k: usize = 0;
                while k < ref_types.len()
                    invariant
                        k <= ref_types@.len(),
                        ok == forall|q: int|
                            0 <= q < k ==> (#[trigger] ref_types@[q] == ReferenceType::RcRefClone
                                || ref_types@[q] == ReferenceType::MutBorrowed || ref_types@[q]
                                == ReferenceType::MutPtr),
                    decreases ref_types.len() - k,
                {
                    let t = ref_types[k];
                    if !(t == ReferenceType::RcRefClone || t == ReferenceType::MutBorrowed || t
                        == ReferenceType::MutPtr) {
                        ok = false;
                    }
                    k = k + 1;
                }
                c.len() >= 1 && can_convert_all(c) && ok
            },
            AnnotatedNodeT::Declaration { .. } => can_convert_all(c),
            AnnotatedNodeT::DeRef { .. } => true,
            AnnotatedNodeT::Adr { .. } => true,
            AnnotatedNodeT::NumLiteral(_) => true,
            AnnotatedNodeT::ArrayDeclaration { items, .. } => {
                proof {
                    assert(decreases_to!(self.token => self.token->ArrayDeclaration_items));
                    assert(decreases_to!(self.token->ArrayDeclaration_items => items@));
                }
                can_convert_all(items)
            },
            AnnotatedNodeT::Assignment { .. } => {
                if c.len() == 0 {
                    return false;
                }
                proof {
                    assert(decreases_to!(c@ => c@[0]));
                }
                c[0].can_convert()
            },
            AnnotatedNodeT::FunctionDeclaration { .. } => self.can_convert_function(),
            AnnotatedNodeT::FunctionCall(_) => can_convert_all(c),
            AnnotatedNodeT::If => {
                if c.len() < 2 {
                    return false;
                }
                proof {
                    assert(decreases_to!(c@ => c@[0]));
                    assert(decreases_to!(c@ => c@[1]));
                }
                c[0].can_convert() && c[1].can_convert()
            },
            AnnotatedNodeT::Program { .. } => can_convert_all(c),
            AnnotatedNodeT::StructDeclaration { fields, .. } => {
                let mut ok = true;
                let mut i: usize = 0;
                while i < fields.len()
                    invariant
                        i <= fields@.len(),
                        self.token is StructDeclaration,
                        fields == self.token->StructDeclaration_fields,
                        ok == fields_ok(fields@.subrange(0, i as int)),
                    decreases fields.len() - i,
                {
                    proof {
                        assert(decreases_to!(self.token => self.token->StructDeclaration_fields));
                        assert(decreases_to!(self.token->StructDeclaration_fields => fields@));
                        assert(decreases_to!(fields@ => fields@[i as int]));
                        assert(decreases_to!(fields@[i as int] => fields@[i as int].1));
                        let v = fields@.subrange(0, i + 1);
                        assert(v.drop_last() =~= fields@.subrange(0, i as int));
                    }
                    let (f, e) = &fields[i];
                    let kind_ok = f.ptr_type.len() == 0 || f.ptr_type[0] == ReferenceType::MutBorrowed
                        || f.ptr_type[0] == ReferenceType::ConstBorrowed || f.ptr_type[0]
                        == ReferenceType::RcRefClone;
                    let e_ok = e.can_convert();
                    ok = ok && e_ok && kind_ok;
                    i = i + 1;
                }
                proof {
                    assert(fields@.subrange(0, fields@.len() as int) =~= fields@);
                }
                ok
            },
            _ => self.can_convert_other(),
        }
    }

    fn can_convert_function(&self) -> (b: bool)
        requires
            self.token is FunctionDeclaration,
        ensures
            b == convertible(*self),
        decreases self, 1nat,
    {
        proof {
            assert(decreases_to!(self => self.children));
            assert(decreases_to!(self.children => self.children@));
        }
        let c = &self.children;
        let n = c.len();
        if n == 0 {
            return true;
        }
        let mut ok = true;
        let mut i: usize = 0;
        while i < n - 1
            invariant
                n == c@.len(),
                n > 0,
                i <= n - 1,
                ok == forall|k: int| 0 <= k < i ==> is_argument(#[trigger] c@[k]),
            decreases n - 1 - i,
        {
            match &c[i].token {
                AnnotatedNodeT::Declaration { .. } => {},
                AnnotatedNodeT::PtrDeclaration { .. } => {},
                _ => {
                    ok = false;
                },
            }
            i = i + 1;
        }
        proof {
            assert(decreases_to!(c@ => c@[n - 1]));
            assert(arguments_ok(c@.drop_last()) == ok) by {
                if ok {
                    assert forall|q: int| 0 <= q < c@.drop_last().len() implies is_argument(
                        #[trigger] c@.drop_last()[q],
                    ) by {
                        assert(c@.drop_last()[q] == c@[q]);
                    }
                }
                if arguments_ok(c@.drop_last()) {
                    assert forall|k: int| 0 <= k < n - 1 implies is_argument(#[trigger] c@[k]) by {
                        assert(c@.drop_last()[k] == c@[k]);
                    }
                }
            }
            assert(c@.last() == c@[n - 1]);
        }
        let last_ok = c[n - 1].can_convert();
        ok && last_ok
    
    }

    fn can_convert_other(&self) -> (b: bool)
        requires
            !(self.token is PtrDeclaration || self.token is DerefAssignment || self.token is Declaration
                || self.token is DeRef || self.token is Adr || self.token is ArrayDeclaration
                || self.token is NumLiteral || self.token is Assignment || self.token is FunctionDeclaration
                || self.token is FunctionCall || self.token is If || self.token is Program
                || self.token is StructDeclaration),
        ensures
            b == convertible(*self),
        decreases self, 1nat,
    {
        proof {
            assert(decreases_to!(self => self.children));
            assert(decreases_to!(self.children => self.children@));
            assert(decreases_to!(self => self.token));
        }
        let c = &self.children;
        let pair_ok = if c.len() > 1 {
            proof {
                assert(decreases_to!(c@ => c@[0]));
                assert(decreases_to!(c@ => c@[1]));
            }
            c[0].can_convert() && c[1].can_convert()
        } else {
            true
        };
        let own = match &self.token {
            AnnotatedNodeT::Add => c.len() > 1,
            AnnotatedNodeT::Sub => c.len() > 1,
            AnnotatedNodeT::Mul => c.len() > 1,
            AnnotatedNodeT::Div => c.len() > 1,
            AnnotatedNodeT::EqCmp => c.len() > 1,
            AnnotatedNodeT::While => c.len() > 1,
            AnnotatedNodeT::Eq => true,
            AnnotatedNodeT::Id { .. } => true,
            AnnotatedNodeT::StructDefinition { .. } => true,
            AnnotatedNodeT::StructFieldAssignment { expr, .. } => expr.can_convert(),
            AnnotatedNodeT::Scope(_) => can_convert_all(c),
            AnnotatedNodeT::Return { expr } => expr.can_convert(),
            AnnotatedNodeT::StructFieldId { .. } => true,
            _ => false,
        };
        pair_ok && own
    
    }
}

/// Every node can be converted.
fn can_convert_all(nodes: &Vec<AnnotatedNode>) -> (b: bool)
    ensures
        b == convertible_seq(nodes@),
    decreases nodes@, 0nat,
{
    let mut ok = true;
    let mut i: usize = 0;
    while i < nodes.len()
        invariant
            i <= nodes@.len(),
            ok == convertible_seq(nodes@.subrange(0, i as int)),
        decreases nodes.len() - i,
    {
        proof {
            assert(decreases_to!(nodes@ => nodes@[i as int]));
            let v = nodes@.subrange(0, i + 1);
            assert(v.drop_last() =~= nodes@.subrange(0, i as int));
        }
        let c = nodes[i].can_convert();
        ok = ok && c;
        i = i + 1;
    }
    proof {
        assert(nodes@.subrange(0, nodes@.len() as int) =~= nodes@);
    }
    ok
}

proof fn lemma_fields_ok_index(fs: Seq<(FieldDefinition, AnnotatedNode)>, i: int)
    requires
        fields_ok(fs),
        0 <= i < fs.len(),
    ensures
        convertible(fs[i].1),
        fs[i].0.ptr_type@.len() > 0 ==> (fs[i].0.ptr_type@[0] == ReferenceType::MutBorrowed
            || fs[i].0.ptr_type@[0] == ReferenceType::ConstBorrowed || fs[i].0.ptr_type@[0]
            == ReferenceType::RcRefClone),
    decreases fs.len(),
{
    if i < fs.len() - 1 {
        lemma_fields_ok_index(fs.drop_last(), i);
        assert(fs.drop_last()[i] == fs[i]);
    }
}

/// The Rust text of a C sum, difference, product, quotient or equality test is the text of its left
/// operand, the same operator between spaces, and the text of its right operand: each
/// operand is the annotation of the matching C operand, in source order.
pub proof fn lemma_arithmetic_keeps_operator(ctx: AnalysisContext, n: TokenNode, a: AnnotatedNode)
    requires
        annotates(ctx, n, a),
        n.token is Add || n.token is Sub || n.token is Mul || n.token is Div || n.token is EqCmp,
        n.children matches Some(c) && c@.len() > 1,
    ensures
        annotates(ctx, n.children->0@[0], a.children@[0]),
        annotates(ctx, n.children->0@[1], a.children@[1]),
        n.token is Add ==> spec_convert(a) == spec_convert(a.children@[0]) + seq![' ', '+', ' ']
            + spec_convert(a.children@[1]),
        n.token is Sub ==> spec_convert(a) == spec_convert(a.children@[0]) + seq![' ', '-', ' ']
            + spec_convert(a.children@[1]),
        n.token is Mul ==> spec_convert(a) == spec_convert(a.children@[0]) + seq![' ', '*', ' ']
            + spec_convert(a.children@[1]),
        n.token is Div ==> spec_convert(a) == spec_convert(a.children@[0]) + seq![' ', '/', ' ']
            + spec_convert(a.children@[1]),
        n.token is EqCmp ==> spec_convert(a) == spec_convert(a.children@[0]) + seq![' ', '=', '=', ' ']
            + spec_convert(a.children@[1]),
{
    reveal_strlit(" + ");
    reveal_strlit(" - ");
    reveal_strlit(" * ");
    reveal_strlit(" / ");
    let c = n.children->0@;
    lemma_annotates_seq_index(ctx, c, a.children@, 0);
    lemma_annotates_seq_index(ctx, c, a.children@, 1);
    assert(" + "@ =~= seq![' ', '+', ' ']);
    assert(" - "@ =~= seq![' ', '-', ' ']);
    assert(" * "@ =~= seq![' ', '*', ' ']);
    assert(" / "@ =~= seq![' ', '/', ' ']);
    reveal_strlit(" == ");
    assert(" == "@ =~= seq![' ', '=', '=', ' ']);
}

} // verus!
