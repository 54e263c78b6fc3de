use vstd::prelude::*;
use crate::converter::{join, join_strings, strings_view};

verus! {

#[verifier::external_type_specification]
#[verifier::external_body]
pub struct ExParseIntError(core::num::ParseIntError);

/// The tokens of the C declarations that are imported.
#[derive(Debug, PartialEq)]
pub enum Token {
    Struct,
    Semi,
    Star,
    Id(String),
    OParen,
    CParen,
    OSquare,
    CSquare,
    OCurl,
    CCurl,
    Dot,
    Comma,
    Dash,
    Char,
    Int,
    Void,
    Unsigned,
}

/// A token with its identifier as a character sequence.
pub enum TokenView {
    Struct,
    Semi,
    Star,
    Id(Seq<char>),
    OParen,
    CParen,
    OSquare,
    CSquare,
    OCurl,
    CCurl,
    Dot,
    Comma,
    Dash,
    Char,
    Int,
    Void,
    Unsigned,
}

impl View for Token {
    type V = TokenView;

    open spec fn view(&self) -> TokenView {
        match self {
            Token::Struct => TokenView::Struct,
            Token::Semi => TokenView::Semi,
            Token::Star => TokenView::Star,
            Token::Id(s) => TokenView::Id(s@),
            Token::OParen => TokenView::OParen,
            Token::CParen => TokenView::CParen,
            Token::OSquare => TokenView::OSquare,
            Token::CSquare => TokenView::CSquare,
            Token::OCurl => TokenView::OCurl,
            Token::CCurl => TokenView::CCurl,
            Token::Dot => TokenView::Dot,
            Token::Comma => TokenView::Comma,
            Token::Dash => TokenView::Dash,
            Token::Char => TokenView::Char,
            Token::Int => TokenView::Int,
            Token::Void => TokenView::Void,
            Token::Unsigned => TokenView::Unsigned,
        }
    }
}

/// The views of a list of tokens.
pub open spec fn tokens_view(ts: Seq<Token>) -> Seq<TokenView> {
    ts.map_values(|t: Token| t@)
}

/// Whether `char::is_alphabetic` holds of a character (the Unicode `Alphabetic` property).
pub uninterp spec fn char_is_alphabetic(c: char) -> bool;

/// An ASCII letter.
pub open spec fn ascii_letter(c: char) -> bool {
    ('a' <= c && c <= 'z') || ('A' <= c && c <= 'Z')
}

/// Whether a character is alphabetic: among ASCII characters exactly the letters, and
/// otherwise what `char::is_alphabetic` answers.
pub open spec fn alphabetic(c: char) -> bool {
    if (c as u32) < 128 {
        ascii_letter(c)
    } else {
        char_is_alphabetic(c)
    }
}

/// `char::is_alphabetic`: whether the character has the Unicode `Alphabetic` property. The
/// contract names the answer and adds what std documents of ASCII characters (the
/// alphabetic ones are the letters `a`-`z` and `A`-`Z`); which other characters have the
/// property is left unsaid.
#[verifier::external_body]
fn is_alphabetic(c: char) -> (b: bool)
    ensures
        b == char_is_alphabetic(c),
        (c as u32) < 128 ==> (b <==> ascii_letter(c)),
{
    c.is_alphabetic()
}

/// A character that continues an identifier.
pub open spec fn ident_char(c: char) -> bool {
    alphabetic(c) || c == '_'
}

/// The end of the identifier that starts at `i`.
pub open spec fn ident_end(chars: Seq<char>, i: int) -> int
    decreases chars.len() - i,
{
    if i < 0 || i >= chars.len() || !ident_char(chars[i]) {
        i
    } else {
        ident_end(chars, i + 1)
    }
}

/// Compares `chars[i + k..]` with `w[k..]` one character at a time, as `&&` does: `None`
/// when a character is missing before the first difference.
pub open spec fn lazy_match(chars: Seq<char>, i: int, w: Seq<char>, k: int) -> Option<bool>
    decreases w.len() - k,
{
    if k >= w.len() {
        Some(true)
    } else if i + k < 0 || i + k >= chars.len() {
        None
    } else if chars[i + k] != w[k] {
        Some(false)
    } else {
        lazy_match(chars, i, w, k + 1)
    }
}

/// `void`, followed by a space or a star, at `i`: `None` when a character is missing before
/// the answer is known.
pub open spec fn void_at(chars: Seq<char>, i: int) -> Option<bool> {
    match lazy_match(chars, i, "void"@, 1) {
        Some(true) => if i + 4 >= chars.len() {
            None
        } else {
            Some(chars[i + 4] == ' ' || chars[i + 4] == '*')
        },
        other => other,
    }
}

/// The number of bytes of a character in UTF-8.
pub open spec fn utf8_width(c: char) -> int {
    if (c as u32) < 0x80 {
        1
    } else if (c as u32) < 0x800 {
        2
    } else if (c as u32) < 0x10000 {
        3
    } else {
        4
    }
}

/// The number of bytes of a text in UTF-8.
pub open spec fn utf8_len(s: Seq<char>) -> int
    decreases s.len(),
{
    if s.len() == 0 {
        0
    } else {
        utf8_len(s.drop_last()) + utf8_width(s.last())
    }
}

proof fn lemma_utf8_len_prefix(s: Seq<char>, a: int)
    requires
        0 <= a <= s.len(),
    ensures
        utf8_len(s.subrange(0, a)) <= utf8_len(s),
    decreases s.len(),
{
    if a < s.len() {
        assert(s.drop_last().subrange(0, a) =~= s.subrange(0, a));
        lemma_utf8_len_prefix(s.drop_last(), a);
    } else {
        assert(s.subrange(0, a) =~= s);
    }
}

/// The identifier at `i`, and where lexing goes on: past as many characters as the
/// identifier has bytes in UTF-8 (the same position for an ASCII identifier). `None` when no
/// identifier starts there, or when that position does not fit in a `usize`.
pub open spec fn ident_step(chars: Seq<char>, i: int) -> Option<(Seq<TokenView>, int)> {
    let j = ident_end(chars, i);
    let next = i + utf8_len(chars.subrange(i, j));
    if j == i || next > usize::MAX {
        None
    } else {
        Some((seq![TokenView::Id(chars.subrange(i, j))], next))
    }
}

/// The tokens the character at `i` starts, and the position lexing goes on from; `None`
/// where the lexer reads past the end or finds no token.
pub open spec fn lex_step(chars: Seq<char>, i: int) -> Option<(Seq<TokenView>, int)> {
    let c = chars[i];
    if c == ' ' || c == '\t' || c == '\n' {
        Some((seq![], i + 1))
    } else if c == 'i' {
        match lazy_match(chars, i, "int "@, 1) {
            Some(true) => Some((seq![TokenView::Int], i + 3)),
            Some(false) => ident_step(chars, i),
            None => None,
        }
    } else if c == 'c' {
        match lazy_match(chars, i, "char "@, 1) {
            Some(true) => Some((seq![TokenView::Char], i + 4)),
            Some(false) => ident_step(chars, i),
            None => None,
        }
    } else if c == 's' {
        match lazy_match(chars, i, "struct"@, 1) {
            Some(true) => Some((seq![TokenView::Struct], i + 6)),
            Some(false) => Some((seq![], i + 1)),
            None => None,
        }
    } else if c == '-' {
        Some((seq![TokenView::Dash], i + 1))
    } else if c == '*' {
        Some((seq![TokenView::Star], i + 1))
    } else if c == '(' {
        Some((seq![TokenView::OParen], i + 1))
    } else if c == ')' {
        Some((seq![TokenView::CParen], i + 1))
    } else if c == '[' {
        Some((seq![TokenView::OSquare], i + 1))
    } else if c == ']' {
        Some((seq![TokenView::CSquare], i + 1))
    } else if c == '{' {
        Some((seq![TokenView::OCurl], i + 1))
    } else if c == '}' {
        Some((seq![TokenView::CCurl], i + 1))
    } else if c == ',' {
        Some((seq![TokenView::Comma], i + 1))
    } else if c == ';' {
        Some((seq![TokenView::Semi], i + 1))
    } else if c == 'v' {
        match void_at(chars, i) {
            Some(true) => Some((seq![TokenView::Void], i + 4)),
            Some(false) => ident_step(chars, i),
            None => None,
        }
    } else {
        ident_step(chars, i)
    }
}

/// The tokens of `chars[i..]`; `None` where the lexer fails.
pub open spec fn spec_lex(chars: Seq<char>, i: int) -> Option<Seq<TokenView>>
    decreases chars.len() - i,
{
    if i < 0 || i >= chars.len() {
        Some(seq![])
    } else {
        match lex_step(chars, i) {
            None => None,
            Some((toks, next)) => if next <= i {
                None
            } else if next >= chars.len() {
                Some(toks)
            } else {
                match spec_lex(chars, next) {
                    None => None,
                    Some(rest) => Some(toks + rest),
                }
            },
        }
    }
}

/// The tokens of `rest`, after `prefix`.
pub open spec fn prefixed(prefix: Seq<TokenView>, rest: Option<Seq<TokenView>>) -> Option<Seq<TokenView>> {
    match rest {
        None => None,
        Some(r) => Some(prefix + r),
    }
}

/// Compares `chars[i + k..]` with `w[k..]` from `k = 1`, as `lazy_match`.
proof fn lemma_lazy_match_len(chars: Seq<char>, i: int, w: Seq<char>, k: int)
    requires
        lazy_match(chars, i, w, k) == Some(true),
        0 <= k < w.len(),
    ensures
        i + w.len() - 1 < chars.len(),
    decreases w.len() - k,
{
    if k + 1 < w.len() {
        lemma_lazy_match_len(chars, i, w, k + 1);
    }
}

fn lazy_match_exec(chars: &Vec<char>, i: usize, w: &str) -> (r: Option<bool>)
    ensures
        r == lazy_match(chars@, i as int, w@, 1),
        r == Some(true) && 1 < w@.len() ==> i + w@.len() - 1 < chars@.len(),
{
    proof {
        if lazy_match(chars@, i as int, w@, 1) == Some(true) && 1 < w@.len() {
            lemma_lazy_match_len(chars@, i as int, w@, 1);
        }
    }
    let wl = w.unicode_len();
    let mut k: usize = 1;
    while k < wl
        invariant
            wl == w@.len(),
            1 <= k,
            lazy_match(chars@, i as int, w@, 1) == lazy_match(chars@, i as int, w@, k as int),
        decreases wl - k,
    {
        if i >= chars.len() || k >= chars.len() - i {
            return None;
        }
        if chars[i + k] != w.get_char(k) {
            return Some(false);
        }
        k = k + 1;
    }
    Some(true)
}

fn void_at_exec(chars: &Vec<char>, i: usize) -> (r: Option<bool>)
    ensures
        r == void_at(chars@, i as int),
{
    match lazy_match_exec(chars, i, "void") {
        Some(true) => {
            if i >= chars.len() || 4 >= chars.len() - i {
                None
            } else {
                Some(chars[i + 4] == ' ' || chars[i + 4] == '*')
            }
        },
        other => other,
    }
}

fn ident_step_exec(buff: &str, chars: &Vec<char>, i: usize) -> (r: Option<(Vec<Token>, usize)>)
    requires
        chars@ == buff@,
        i < chars@.len(),
    ensures
        match r {
            None => ident_step(chars@, i as int) is None,
            Some((v, next)) => ident_step(chars@, i as int) == Some((tokens_view(v@), next as int)),
        },
{
    let mut j = i;
    while j < chars.len() && (is_alphabetic(chars[j]) || chars[j] == '_')
        invariant
            i <= j <= chars@.len(),
            ident_end(chars@, i as int) == ident_end(chars@, j as int),
        decreases chars.len() - j,
    {
        j = j + 1;
    }
    if j == i {
        return None;
    }
    let ghost id = chars@.subrange(i as int, j as int);
    let mut k = i;
    let mut next: usize = i;
    while k < j
        invariant
            i <= k <= j <= chars@.len(),
            id == chars@.subrange(i as int, j as int),
            ident_end(chars@, i as int) == j as int,
            next == i + utf8_len(chars@.subrange(i as int, k as int)),
        decreases j - k,
    {
        let c = chars[k];
        let n = c as u32;
        let w: usize = if n < 0x80 {
            1
        } else if n < 0x800 {
            2
        } else if n < 0x10000 {
            3
        } else {
            4
        };
        proof {
            assert(w == utf8_width(c));
            let s = chars@.subrange(i as int, k + 1);
            assert(s.drop_last() =~= chars@.subrange(i as int, k as int));
            assert(s.last() == c);
        }
        if next > usize::MAX - w {
            proof {
                assert(id.subrange(0, k + 1 - i) =~= chars@.subrange(i as int, k + 1));
                lemma_utf8_len_prefix(id, k + 1 - i);
            }
            return None;
        }
        next = next + w;
        k = k + 1;
    }
    let mut v: Vec<Token> = Vec::new();
    v.push(Token::Id(buff.substring_char(i, j).to_owned()));
    proof {
        assert(tokens_view(v@) =~= seq![TokenView::Id(chars@.subrange(i as int, j as int))]);
    }
    Some((v, next))
}

fn single(t: Token) -> (v: Vec<Token>)
    ensures
        tokens_view(v@) == seq![t@],
{
    let mut v = Vec::new();
    v.push(t);
    proof {
        assert(tokens_view(v@) =~= seq![t@]);
    }
    v
}

/// One step of the lexer: see `lex_step`.
fn lex_step_exec(buff: &str, chars: &Vec<char>, i: usize) -> (r: Option<(Vec<Token>, usize)>)
    requires
        chars@ == buff@,
        i < chars.len(),
    ensures
        match r {
            None => lex_step(chars@, i as int) is None,
            Some((v, next)) => lex_step(chars@, i as int) == Some((tokens_view(v@), next as int)),
        },
{
    proof {
        reveal_strlit("int ");
        reveal_strlit("char ");
        reveal_strlit("struct");
        reveal_strlit("void");
    }
    let c = chars[i];
    if c == ' ' || c == '\t' || c == '\n' {
        let v: Vec<Token> = Vec::new();
        proof {
            assert(tokens_view(v@) =~= seq![]);
        }
        Some((v, i + 1))
    } else if c == 'i' {
        match lazy_match_exec(chars, i, "int ") {
            Some(true) => Some((single(Token::Int), i + 3)),
            Some(false) => ident_step_exec(buff, chars, i),
            None => None,
        }
    } else if c == 'c' {
        match lazy_match_exec(chars, i, "char ") {
            Some(true) => Some((single(Token::Char), i + 4)),
            Some(false) => ident_step_exec(buff, chars, i),
            None => None,
        }
    } else if c == 's' {
        match lazy_match_exec(chars, i, "struct") {
            Some(true) => Some((single(Token::Struct), i + 6)),
            Some(false) => {
                let v: Vec<Token> = Vec::new();
                proof {
                    assert(tokens_view(v@) =~= seq![]);
                }
                Some((v, i + 1))
            },
            None => None,
        }
    } else if c == '-' {
        Some((single(Token::Dash), i + 1))
    } else if c == '*' {
        Some((single(Token::Star), i + 1))
    } else if c == '(' {
        Some((single(Token::OParen), i + 1))
    } else if c == ')' {
        Some((single(Token::CParen), i + 1))
    } else if c == '[' {
        Some((single(Token::OSquare), i + 1))
    } else if c == ']' {
        Some((single(Token::CSquare), i + 1))
    } else if c == '{' {
        Some((single(Token::OCurl), i + 1))
    } else if c == '}' {
        Some((single(Token::CCurl), i + 1))
    } else if c == ',' {
        Some((single(Token::Comma), i + 1))
    } else if c == ';' {
        Some((single(Token::Semi), i + 1))
    } else if c == 'v' {
        match void_at_exec(chars, i) {
            Some(true) => Some((single(Token::Void), i + 4)),
            Some(false) => ident_step_exec(buff, chars, i),
            None => None,
        }
    } else {
        ident_step_exec(buff, chars, i)
    }
}

/// This is where the lexical analysis happens: the tokens of a C declaration, or `None`
/// where the lexer reads past the end of the text or meets a character no token starts
/// with.
pub fn try_c_string_to_tokens(buff: &str) -> (r: Option<Vec<Token>>)
    ensures
        r is None <==> spec_lex(buff@, 0) is None,
        r matches Some(v) ==> spec_lex(buff@, 0) == Some(tokens_view(v@)),
{
    let n = buff.unicode_len();
    let mut chars: Vec<char> = Vec::new();
    let mut k: usize = 0;
    while k < n
        invariant
            n == buff@.len(),
            k <= n,
            chars@ =~= buff@.subrange(0, k as int),
        decreases n - k,
    {
        chars.push(buff.get_char(k));
        k = k + 1;
    }
    assert(chars@ =~= buff@);
    let mut ret: Vec<Token> = Vec::new();
    let mut i: usize = 0;
    proof {
        assert(tokens_view(ret@) =~= seq![]);
        if n > 0 {
            match spec_lex(chars@, 0) {
                Some(t) => {
                    assert(seq![] + t =~= t);
                },
                None => {},
            }
        }
    }
    while i < n
        invariant
            chars@ == buff@,
            n == chars@.len(),
            spec_lex(chars@, 0) == prefixed(tokens_view(ret@), spec_lex(chars@, i as int)),
        decreases n - i,
    {
        match lex_step_exec(buff, &chars, i) {
            None => {
                return None;
            },
            Some((toks, next)) => {
                if next <= i {
                    return None;
                }
                let ghost before = tokens_view(ret@);
                let ghost tv = tokens_view(toks@);
                let mut toks = toks;
                ret.append(&mut toks);
                proof {
                    assert(tokens_view(ret@) =~= before + tv);
                    if next >= n {
                        assert(spec_lex(chars@, i as int) == Some(tv));
                        assert(spec_lex(chars@, next as int) == Some(Seq::<TokenView>::empty()));
                        assert(before + tv + Seq::<TokenView>::empty() =~= before + tv);
                    } else {
                        match spec_lex(chars@, next as int) {
                            Some(rest) => {
                                assert(before + (tv + rest) =~= before + tv + rest);
                            },
                            None => {},
                        }
                    }
                }
                i = if next > n {
                    n
                } else {
                    next
                };
            },
        }
    }
    proof {
        assert(spec_lex(chars@, i as int) == Some(Seq::<TokenView>::empty()));
        assert(tokens_view(ret@) + Seq::<TokenView>::empty() =~= tokens_view(ret@));
    }
    Some(ret)
}

/// The tokens of a C declaration; the lexer never fails with an error, and `buff` must be
/// text it can lex (see `try_c_string_to_tokens`).
pub fn c_string_to_tokens(buff: &str) -> (r: Result<Vec<Token>, core::num::ParseIntError>)
    requires
        spec_lex(buff@, 0) is Some,
    ensures
        r matches Ok(v) && Some(tokens_view(v@)) == spec_lex(buff@, 0),
{
    Ok(try_c_string_to_tokens(buff).unwrap())
}

/// A token that starts a type.
pub open spec fn is_type_token(t: TokenView) -> bool {
    t is Int || t is Char || t is Void
}

/// The Rust type a C type token stands for.
pub open spec fn ctype_name(t: TokenView) -> Seq<char> {
    match t {
        TokenView::Char => "i8"@,
        TokenView::Int => "i16"@,
        _ => "()"@,
    }
}

/// The strings of `rest`, after `first`.
pub open spec fn cons(first: Seq<char>, rest: Option<Seq<Seq<char>>>) -> Option<Seq<Seq<char>>> {
    match rest {
        None => None,
        Some(r) => Some(seq![first] + r),
    }
}

/// The fields `id: type` of a struct body whose current token is at `p`; `None` where the
/// declaration is malformed or ends early.
pub open spec fn struct_fields(tv: Seq<TokenView>, p: int) -> Option<Seq<Seq<char>>>
    decreases tv.len() - p,
{
    if p < 0 || p >= tv.len() {
        None
    } else if !is_type_token(tv[p]) {
        Some(seq![])
    } else if p + 1 >= tv.len() {
        None
    } else {
        let q = if tv[p + 1] is Star {
            p + 2
        } else {
            p + 1
        };
        if q + 1 >= tv.len() {
            None
        } else {
            match tv[q] {
                TokenView::Id(id) => {
                    let field = id + ": "@ + ctype_name(tv[p]);
                    match tv[q + 1] {
                        TokenView::Semi => cons(field, struct_fields(tv, q + 2)),
                        TokenView::CCurl => Some(seq![field]),
                        _ => None,
                    }
                },
                _ => None,
            }
        }
    }
}

/// The Rust struct a C struct declaration stands for; `None` where it is malformed.
pub open spec fn spec_parse_struct(tv: Seq<TokenView>) -> Option<Seq<char>> {
    if tv.len() < 4 || !(tv[0] is Struct) || !(tv[1] is Id) || !(tv[2] is OCurl) {
        None
    } else {
        match struct_fields(tv, 3) {
            None => None,
            Some(fs) => Some("struct "@ + tv[1]->Id_0 + " {\n"@ + join(fs, ",\n"@) + "\n}"@),
        }
    }
}

/// The arguments `id: type` of a function declaration whose current token is at `p`; `None`
/// where the declaration is malformed or ends early.
pub open spec fn fn_args(tv: Seq<TokenView>, p: int) -> Option<Seq<Seq<char>>>
    decreases tv.len() - p,
{
    if p < 0 || p >= tv.len() {
        None
    } else if !is_type_token(tv[p]) {
        Some(seq![])
    } else if p + 1 >= tv.len() {
        None
    } else if tv[p] is Void && !(tv[p + 1] is Star) {
        None
    } else {
        let q = if tv[p + 1] is Star {
            p + 2
        } else {
            p + 1
        };
        let sym = if tv[p + 1] is Star {
            "&"@
        } else {
            ""@
        };
        if q + 1 >= tv.len() {
            None
        } else {
            match tv[q] {
                TokenView::Id(id) => {
                    let arg = id + ": "@ + sym + ctype_name(tv[p]);
                    match tv[q + 1] {
                        TokenView::Comma => cons(arg, fn_args(tv, q + 2)),
                        TokenView::CParen => Some(seq![arg]),
                        _ => None,
                    }
                },
                _ => None,
            }
        }
    }
}

/// The return type a function declaration's first token gives.
pub open spec fn return_type(t: TokenView) -> Option<Seq<char>> {
    match t {
        TokenView::Char => Some(" -> i8"@),
        TokenView::Int => Some(" -> i16"@),
        TokenView::Void => Some(" "@),
        _ => None,
    }
}

/// The Rust `extern "C"` declaration a C function declaration stands for; `None` where it is
/// malformed.
pub open spec fn spec_parse_function(tv: Seq<TokenView>) -> Option<Seq<char>> {
    if tv.len() < 4 || return_type(tv[0]) is None || !(tv[1] is Id) || !(tv[2] is OParen) {
        None
    } else {
        match fn_args(tv, 3) {
            None => None,
            Some(args) => Some(
                "extern \"C\" {\nfn "@ + tv[1]->Id_0 + " ("@ + join(args, ", "@) + ")"@ + return_type(
                    tv[0],
                )->0 + ";\n}"@,
            ),
        }
    }
}

/// The strings of `rest`, after `prefix`.
pub open spec fn after(prefix: Seq<Seq<char>>, rest: Option<Seq<Seq<char>>>) -> Option<Seq<Seq<char>>> {
    match rest {
        None => None,
        Some(r) => Some(prefix + r),
    }
}

fn is_type_tok(t: &Token) -> (b: bool)
    ensures
        b == is_type_token(t@),
{
    match t {
        Token::Int | Token::Char | Token::Void => true,
        _ => false,
    }
}

fn is_star(t: &Token) -> (b: bool)
    ensures
        b == (t@ is Star),
{
    match t {
        Token::Star => true,
        _ => false,
    }
}

fn ctype_str(t: &Token) -> (r: &'static str)
    ensures
        r@ == ctype_name(t@),
{
    match t {
        Token::Char => "i8",
        Token::Int => "i16",
        _ => "()",
    }
}

fn cat(a: String, b: &str) -> (r: String)
    ensures
        r@ == a@ + b@,
{
    let mut a = a;
    a.append(b);
    a
}

proof fn lemma_after_cons(pre: Seq<Seq<char>>, f: Seq<char>, rest: Option<Seq<Seq<char>>>)
    ensures
        after(pre, cons(f, rest)) == after(pre.push(f), rest),
{
    match rest {
        Some(r) => {
            assert(pre + (seq![f] + r) =~= pre.push(f) + r);
        },
        None => {},
    }
}

/// The Rust struct for a C struct declaration, or `None` where the declaration is
/// malformed; see `spec_parse_struct`.
pub fn try_parse_c_struct_to_rust(tokens: &Vec<Token>) -> (r: Option<String>)
    ensures
        r is None <==> spec_parse_struct(tokens_view(tokens@)) is None,
        r matches Some(s) ==> Some(s@) == spec_parse_struct(tokens_view(tokens@)),
{
    let ghost tv = tokens_view(tokens@);
    let n = tokens.len();
    if n < 4 {
        return None;
    }
    match &tokens[0] {
        Token::Struct => {},
        _ => {
            return None;
        },
    }
    let id = match &tokens[1] {
        Token::Id(id) => id.clone(),
        _ => {
            return None;
        },
    };
    match &tokens[2] {
        Token::OCurl => {},
        _ => {
            return None;
        },
    }
    let mut fields: Vec<String> = Vec::new();
    let mut p: usize = 3;
    let mut done = false;
    proof {
        match struct_fields(tv, 3) {
            Some(r) => {
                assert(seq![] + r =~= r);
            },
            None => {},
        }
        assert(strings_view(fields@) =~= seq![]);
    }
    while !done
        invariant
            n == tokens@.len(),
            tv == tokens_view(tokens@),
            3 <= p,
            !done ==> struct_fields(tv, 3) == after(strings_view(fields@), struct_fields(tv, p as int)),
            done ==> struct_fields(tv, 3) == Some(strings_view(fields@)),
        decreases n - p, if done { 0nat } else { 1nat },
    {
        if p >= n {
            return None;
        }
        if !is_type_tok(&tokens[p]) {
            proof {
                assert(strings_view(fields@) + Seq::<Seq<char>>::empty() =~= strings_view(fields@));
            }
            done = true;
        } else {
            if p + 1 >= n {
                return None;
            }
            let q = if is_star(&tokens[p + 1]) {
                p + 2
            } else {
                p + 1
            };
            if n - q <= 1 {
                return None;
            }
            let fid = match &tokens[q] {
                Token::Id(fid) => fid,
                _ => {
                    return None;
                },
            };
            let field = cat(cat(fid.clone(), ": "), ctype_str(&tokens[p]));
            let ghost before = strings_view(fields@);
            match &tokens[q + 1] {
                Token::Semi => {
                    fields.push(field);
                    proof {
                        assert(strings_view(fields@) =~= before.push(field@));
                        lemma_after_cons(before, field@, struct_fields(tv, q + 2));
                    }
                    p = q + 2;
                },
                Token::CCurl => {
                    fields.push(field);
                    proof {
                        assert(strings_view(fields@) =~= before + seq![field@]);
                    }
                    done = true;
                },
                _ => {
                    return None;
                },
            }
        }
    }
    let body = join_strings(&fields, ",\n");
    Some(cat(cat(cat(cat(String::from_str("struct "), id.as_str()), " {\n"), body.as_str()), "\n}"))
}

/// The Rust struct for a C struct declaration; `tokens` must be well formed (see
/// `try_parse_c_struct_to_rust`).
pub fn parse_c_struct_to_rust(tokens: Vec<Token>) -> (r: String)
    requires
        spec_parse_struct(tokens_view(tokens@)) is Some,
    ensures
        Some(r@) == spec_parse_struct(tokens_view(tokens@)),
{
    try_parse_c_struct_to_rust(&tokens).unwrap()
}

/// The Rust `extern "C"` declaration for a C function declaration, or `None` where the
/// declaration is malformed; see `spec_parse_function`.
pub fn try_parse_c_function_declaration_to_rust(tokens: &Vec<Token>) -> (r: Option<String>)
    ensures
        r is None <==> spec_parse_function(tokens_view(tokens@)) is None,
        r matches Some(s) ==> Some(s@) == spec_parse_function(tokens_view(tokens@)),
{
    let ghost tv = tokens_view(tokens@);
    let n = tokens.len();
    if n < 4 {
        return None;
    }
    let return_type = match &tokens[0] {
        Token::Char => " -> i8",
        Token::Int => " -> i16",
        Token::Void => " ",
        _ => {
            return None;
        },
    };
    let id = match &tokens[1] {
        Token::Id(id) => id.clone(),
        _ => {
            return None;
        },
    };
    match &tokens[2] {
        Token::OParen => {},
        _ => {
            return None;
        },
    }
    let mut args: Vec<String> = Vec::new();
    let mut p: usize = 3;
    let mut done = false;
    proof {
        match fn_args(tv, 3) {
            Some(r) => {
                assert(seq![] + r =~= r);
            },
            None => {},
        }
        assert(strings_view(args@) =~= seq![]);
    }
    while !done
        invariant
            n == tokens@.len(),
            tv == tokens_view(tokens@),
            3 <= p,
            !done ==> fn_args(tv, 3) == after(strings_view(args@), fn_args(tv, p as int)),
            done ==> fn_args(tv, 3) == Some(strings_view(args@)),
        decreases n - p, if done { 0nat } else { 1nat },
    {
        if p >= n {
            return None;
        }
        if !is_type_tok(&tokens[p]) {
            proof {
                assert(strings_view(args@) + Seq::<Seq<char>>::empty() =~= strings_view(args@));
            }
            done = true;
        } else {
            if p + 1 >= n {
                return None;
            }
            let star = is_star(&tokens[p + 1]);
            let void = match &tokens[p] {
                Token::Void => true,
                _ => false,
            };
            if void && !star {
                return None;
            }
            let q = if star {
                p + 2
            } else {
                p + 1
            };
            let sym = if star {
                "&"
            } else {
                ""
            };
            if n - q <= 1 {
                return None;
            }
            let aid = match &tokens[q] {
                Token::Id(aid) => aid,
                _ => {
                    return None;
                },
            };
            let arg = cat(cat(cat(aid.clone(), ": "), sym), ctype_str(&tokens[p]));
            let ghost before = strings_view(args@);
            match &tokens[q + 1] {
                Token::Comma => {
                    args.push(arg);
                    proof {
                        assert(strings_view(args@) =~= before.push(arg@));
                        lemma_after_cons(before, arg@, fn_args(tv, q + 2));
                    }
                    p = q + 2;
                },
                Token::CParen => {
                    args.push(arg);
                    proof {
                        assert(strings_view(args@) =~= before + seq![arg@]);
                    }
                    done = true;
                },
                _ => {
                    return None;
                },
            }
        }
    }
    let formatted_args = join_strings(&args, ", ");
    Some(
        cat(
            cat(
                cat(cat(cat(String::from_str("extern \"C\" {\nfn "), id.as_str()), " ("), formatted_args.as_str()),
                ")",
            ),
            cat(String::from_str(return_type), ";\n}").as_str(),
        ),
    )
}

/// The Rust `extern "C"` declaration for a C function declaration; `tokens` must be well
/// formed (see `try_parse_c_function_declaration_to_rust`).
pub fn parse_c_function_declaration_to_rust(tokens: Vec<Token>) -> (r: String)
    requires
        spec_parse_function(tokens_view(tokens@)) is Some,
    ensures
        Some(r@) == spec_parse_function(tokens_view(tokens@)),
{
    try_parse_c_function_declaration_to_rust(&tokens).unwrap()
}

/// What compiling `pattern` with `regex::Regex::new` and calling `find` on `haystack` gives:
/// `None` when the pattern does not compile, otherwise the text of the first match, if any.
pub uninterp spec fn regex_first_match(pattern: Seq<char>, haystack: Seq<char>) -> Option<
    Option<Seq<char>>,
>;

/// `regex::Regex::new` followed by `Regex::find` and `Match::as_str`: the contract names the
/// answer and adds what the crate documents of a match, that its text is a substring of the
/// haystack. Which text matches a pattern is left unsaid.
#[verifier::external_body]
fn first_match(pattern: &str, haystack: &str) -> (r: Option<Option<String>>)
    ensures
        r is None <==> regex_first_match(pattern@, haystack@) is None,
        r == Some(None::<String>) <==> regex_first_match(pattern@, haystack@) == Some(
            None::<Seq<char>>,
        ),
        r matches Some(Some(s)) ==> regex_first_match(pattern@, haystack@) == Some(Some(s@)),
        r matches Some(Some(s)) ==> exists|i: int|
            0 <= i && i + s@.len() <= haystack@.len() && #[trigger] haystack@.subrange(
                i,
                i + s@.len(),
            ) == s@,
{
    match regex::Regex::new(pattern) {
        Ok(re) => match re.find(haystack) {
            Some(m) => Some(Some(m.as_str().to_string())),
            None => Some(None),
        },
        Err(_) => None,
    }
}

/// Why a C item could not be imported.
#[derive(Debug, Clone, Copy, PartialEq, Eq)]
pub enum ImportErr {
    /// The pattern built from the item's name is not a valid regular expression.
    InvalidPattern,
    /// No declaration of the item is found.
    NoMatch,
    /// The declaration found cannot be lexed.
    Lex,
    /// The declaration found is malformed.
    Parse,
}

/// The body of a struct declaration: fields of type `int`, `char` or a pointer.
pub open spec fn struct_body_pattern() -> Seq<char> {
    "\\{(\\s*((int|char)\\**|void\\*+)\\s+[a-zA-Z_][a-zA-Z0-9_]*\\s*;)*\\s*\\}"@
}

/// The pattern of the declaration of struct `item`.
pub open spec fn spec_struct_pattern(item: Seq<char>) -> Seq<char> {
    "struct\\s+"@ + item + "\\s*"@ + struct_body_pattern() + "\\s*;"@
}

/// The pattern of the declaration of function `item` (the last character of the name may
/// repeat, as the pattern `{item}*` has it).
pub open spec fn spec_function_pattern(item: Seq<char>) -> Seq<char> {
    "((int|char)\\s*(\\**\\s)*|void\\s*\\*+(\\s*\\*)*)\\s*("@ + item
        + "*)\\s*\\((((int|char)\\s*\\**|void\\s*\\*+)\\s*[a-zA-Z_][a-zA-Z0-9_]*\\s*,?\\s*)*\\s*\\)"@
}

/// The pattern of the declaration of struct `item`.
pub fn struct_pattern(item: &str) -> (r: String)
    ensures
        r@ == spec_struct_pattern(item@),
{
    let p = cat(String::from_str("struct\\s+"), item);
    let p = cat(p, "\\s*");
    let p = cat(p, "\\{(\\s*((int|char)\\**|void\\*+)\\s+[a-zA-Z_][a-zA-Z0-9_]*\\s*;)*\\s*\\}");
    cat(p, "\\s*;")
}

/// The pattern of the declaration of function `item`.
pub fn function_pattern(item: &str) -> (r: String)
    ensures
        r@ == spec_function_pattern(item@),
{
    let p = cat(String::from_str("((int|char)\\s*(\\**\\s)*|void\\s*\\*+(\\s*\\*)*)\\s*("), item);
    cat(p, "*)\\s*\\((((int|char)\\s*\\**|void\\s*\\*+)\\s*[a-zA-Z_][a-zA-Z0-9_]*\\s*,?\\s*)*\\s*\\)")
}

/// What importing a declaration gives once it is found: its tokens turned into Rust by
/// `parse`, or the stage that fails.
pub open spec fn imported(declaration: Seq<char>, parse: spec_fn(Seq<TokenView>) -> Option<Seq<char>>) -> Result<Seq<char>, ImportErr> {
    match spec_lex(declaration, 0) {
        None => Err(ImportErr::Lex),
        Some(tv) => match parse(tv) {
            None => Err(ImportErr::Parse),
            Some(s) => Ok(s),
        },
    }
}

/// The view of an import result.
pub open spec fn import_view(r: Result<String, ImportErr>) -> Result<Seq<char>, ImportErr> {
    match r {
        Ok(s) => Ok(s@),
        Err(e) => Err(e),
    }
}

/// The Rust struct for a C struct declaration that was found.
pub fn import_struct_from_declaration(declaration: &str) -> (r: Result<String, ImportErr>)
    ensures
        import_view(r) == imported(declaration@, |tv: Seq<TokenView>| spec_parse_struct(tv)),
{
    let tokens = match try_c_string_to_tokens(declaration) {
        Some(t) => t,
        None => {
            return Err(ImportErr::Lex);
        },
    };
    match try_parse_c_struct_to_rust(&tokens) {
        Some(s) => Ok(s),
        None => Err(ImportErr::Parse),
    }
}

/// The Rust `extern "C"` declaration for a C function declaration that was found.
pub fn import_function_from_declaration(declaration: &str) -> (r: Result<String, ImportErr>)
    ensures
        import_view(r) == imported(declaration@, |tv: Seq<TokenView>| spec_parse_function(tv)),
{
    let tokens = match try_c_string_to_tokens(declaration) {
        Some(t) => t,
        None => {
            return Err(ImportErr::Lex);
        },
    };
    match try_parse_c_function_declaration_to_rust(&tokens) {
        Some(s) => Ok(s),
        None => Err(ImportErr::Parse),
    }
}

/// What importing item `item` from a file gives, once the regex search gave `found`.
pub open spec fn import_result(
    found: Option<Option<Seq<char>>>,
    parse: spec_fn(Seq<TokenView>) -> Option<Seq<char>>,
) -> Result<Seq<char>, ImportErr> {
    match found {
        None => Err(ImportErr::InvalidPattern),
        Some(None) => Err(ImportErr::NoMatch),
        Some(Some(d)) => imported(d, parse),
    }
}

/// The Rust struct for the declaration of struct `item` in the C source `file_contents`:
/// the first declaration the struct pattern finds, lexed and parsed.
pub fn import_c_struct_source(file_contents: &str, item: &str) -> (r: Result<String, ImportErr>)
    ensures
        import_view(r) == import_result(
            regex_first_match(spec_struct_pattern(item@), file_contents@),
            |tv: Seq<TokenView>| spec_parse_struct(tv),
        ),
{
    let pattern = struct_pattern(item);
    match first_match(pattern.as_str(), file_contents) {
        None => Err(ImportErr::InvalidPattern),
        Some(None) => Err(ImportErr::NoMatch),
        Some(Some(declaration)) => import_struct_from_declaration(declaration.as_str()),
    }
}

/// The Rust `extern "C"` declaration for function `item` of the C source `file_contents`:
/// the first declaration the function pattern finds, lexed and parsed.
pub fn import_c_function_source(file_contents: &str, item: &str) -> (r: Result<String, ImportErr>)
    ensures
        import_view(r) == import_result(
            regex_first_match(spec_function_pattern(item@), file_contents@),
            |tv: Seq<TokenView>| spec_parse_function(tv),
        ),
{
    let pattern = function_pattern(item);
    match first_match(pattern.as_str(), file_contents) {
        None => Err(ImportErr::InvalidPattern),
        Some(None) => Err(ImportErr::NoMatch),
        Some(Some(declaration)) => import_function_from_declaration(declaration.as_str()),
    }
}

/// Each field of an imported struct gets the Rust integer of its C type's width: a `char`
/// field is an `i8` and an `int` field an `i16`, written `name: type`.
pub proof fn lemma_struct_field_types(tv: Seq<TokenView>, p: int)
    requires
        0 <= p < tv.len(),
        tv[p] is Char || tv[p] is Int,
        struct_fields(tv, p) is Some,
    ensures
        ({
            let q = if tv[p + 1] is Star { p + 2 } else { p + 1 };
            let fs = struct_fields(tv, p)->0;
            &&& fs.len() > 0
            &&& tv[q] is Id
            &&& tv[p] is Char ==> fs[0] == tv[q]->Id_0 + seq![':', ' ', 'i', '8']
            &&& tv[p] is Int ==> fs[0] == tv[q]->Id_0 + seq![':', ' ', 'i', '1', '6']
        }),
{
    reveal_strlit(": ");
    reveal_strlit("i8");
    reveal_strlit("i16");
    let q = if tv[p + 1] is Star { p + 2 } else { p + 1 };
    let id = tv[q]->Id_0;
    assert(id + ": "@ + "i8"@ =~= id + seq![':', ' ', 'i', '8']);
    assert(id + ": "@ + "i16"@ =~= id + seq![':', ' ', 'i', '1', '6']);
}

/// Each argument of an imported function gets the Rust integer of its C type's width: a
/// `char` argument is an `i8` (`&i8` behind a pointer) and an `int` one an `i16` (`&i16`).
pub proof fn lemma_function_argument_types(tv: Seq<TokenView>, p: int)
    requires
        0 <= p < tv.len(),
        tv[p] is Char || tv[p] is Int,
        fn_args(tv, p) is Some,
    ensures
        ({
            let star = tv[p + 1] is Star;
            let q = if star { p + 2 } else { p + 1 };
            let args = fn_args(tv, p)->0;
            let amp = if star { seq!['&'] } else { Seq::<char>::empty() };
            &&& args.len() > 0
            &&& tv[q] is Id
            &&& tv[p] is Char ==> args[0] == tv[q]->Id_0 + seq![':', ' '] + amp + seq!['i', '8']
            &&& tv[p] is Int ==> args[0] == tv[q]->Id_0 + seq![':', ' '] + amp + seq!['i', '1', '6']
        }),
{
    reveal_strlit(": ");
    reveal_strlit("i8");
    reveal_strlit("i16");
    reveal_strlit("&");
    reveal_strlit("");
    let star = tv[p + 1] is Star;
    let q = if star { p + 2 } else { p + 1 };
    let id = tv[q]->Id_0;
    let amp = if star { seq!['&'] } else { Seq::<char>::empty() };
    let sym = if star { "&"@ } else { ""@ };
    assert(sym =~= amp);
    assert(id + ": "@ + sym + "i8"@ =~= id + seq![':', ' '] + amp + seq!['i', '8']);
    assert(id + ": "@ + sym + "i16"@ =~= id + seq![':', ' '] + amp + seq!['i', '1', '6']);
}

/// An imported function returns the Rust integer of its C return type's width: a `char`
/// function returns `i8`, an `int` one `i16`, and a `void` one nothing.
pub proof fn lemma_function_return_type(tv: Seq<TokenView>)
    requires
        spec_parse_function(tv) is Some,
    ensures
        ({
            let out = spec_parse_function(tv)->0;
            let end = seq![';', '\n', '}'];
            &&& tv[0] is Char ==> out.subrange(out.len() - 9, out.len() as int) == seq![' ', '-', '>', ' ', 'i', '8'] + end
            &&& tv[0] is Int ==> out.subrange(out.len() - 10, out.len() as int) == seq![' ', '-', '>', ' ', 'i', '1', '6'] + end
            &&& tv[0] is Void ==> out.subrange(out.len() - 5, out.len() as int) == seq![')', ' '] + end
        }),
{
    reveal_strlit(" -> i8");
    reveal_strlit(" -> i16");
    reveal_strlit(" ");
    reveal_strlit(")");
    reveal_strlit(";\n}");
    let args = fn_args(tv, 3)->0;
    let head = "extern \"C\" {\nfn "@ + tv[1]->Id_0 + " ("@ + join(args, ", "@) + ")"@;
    let out = spec_parse_function(tv)->0;
    let rt = return_type(tv[0])->0;
    assert(out == head + rt + ";\n}"@);
    let end = seq![';', '\n', '}'];
    assert(";\n}"@ =~= end);
    if tv[0] is Char {
        assert(rt =~= seq![' ', '-', '>', ' ', 'i', '8']);
        assert(out.subrange(out.len() - 9, out.len() as int) =~= rt + end);
    }
    if tv[0] is Int {
        assert(rt =~= seq![' ', '-', '>', ' ', 'i', '1', '6']);
        assert(out.subrange(out.len() - 10, out.len() as int) =~= rt + end);
    }
    if tv[0] is Void {
        assert(rt =~= seq![' ']);
        assert(")"@ =~= seq![')']);
        assert(out.subrange(out.len() - 5, out.len() as int) =~= seq![')'] + rt + end);
    }
}

} // verus!
