use vstd::prelude::*;
use crate::error::{ErrType, RhErr};

verus! {

/// The C types the transpiler understands.
#[derive(Debug)]
pub enum CType {
    Void,
    Int,
    Char,
    Struct(String),
}

/// The Rust spelling of a C type.
pub open spec fn spec_rust_type(t: CType) -> Seq<char> {
    match t {
        CType::Void => "()"@,
        CType::Int => "i32"@,
        CType::Char => "i8"@,
        CType::Struct(id) => id@,
    }
}

impl CType {
    pub fn to_rust_type(&self) -> (r: String)
        ensures
            r@ == spec_rust_type(*self),
    {
        match self {
            CType::Void => String::from_str("()"),
            CType::Int => String::from_str("i32"),
            CType::Char => String::from_str("i8"),
            CType::Struct(id) => id.clone(),
        }
    }

    /// A copy of the type.
    pub fn duplicate(&self) -> (r: CType)
        ensures
            r == *self,
    {
        match self {
            CType::Void => CType::Void,
            CType::Int => CType::Int,
            CType::Char => CType::Char,
            CType::Struct(id) => CType::Struct(id.clone()),
        }
    }
}

/// A lexical token of the accepted C subset.
#[derive(Debug)]
pub enum Token {
    Type(CType),
    Id(String),
    NumLiteral(usize),
    StrLiteral(String),
    /// `var.field`
    StructFieldId { struct_id: String, field_id: String },
    If,
    While,
    For,
    Break,
    Asm,
    Assert,
    Return,
    PutChar,
    Struct,
    Eq,
    EqCmp,
    NeqCmp,
    AndCmp,
    OrCmp,
    Add,
    Sub,
    Star,
    Div,
    BAnd,
    BOr,
    BXor,
    AddEq,
    SubEq,
    MulEq,
    DivEq,
    BAndEq,
    BOrEq,
    BXorEq,
    /// `++`
    AddO,
    OParen,
    CParen,
    OSquare,
    CSquare,
    OCurl,
    CCurl,
    Semi,
    Comma,
}

/// The variant of a token, without the data it carries.
#[derive(Debug, Clone, Copy, PartialEq, Eq, Structural)]
pub enum TokenKind {
    Type,
    Id,
    NumLiteral,
    StrLiteral,
    StructFieldId,
    If,
    While,
    For,
    Break,
    Asm,
    Assert,
    Return,
    PutChar,
    Struct,
    Eq,
    EqCmp,
    NeqCmp,
    AndCmp,
    OrCmp,
    Add,
    Sub,
    Star,
    Div,
    BAnd,
    BOr,
    BXor,
    AddEq,
    SubEq,
    MulEq,
    DivEq,
    BAndEq,
    BOrEq,
    BXorEq,
    AddO,
    OParen,
    CParen,
    OSquare,
    CSquare,
    OCurl,
    CCurl,
    Semi,
    Comma,
}

pub open spec fn spec_kind(t: Token) -> TokenKind {
    match t {
        Token::Type(_) => TokenKind::Type,
        Token::Id(_) => TokenKind::Id,
        Token::NumLiteral(_) => TokenKind::NumLiteral,
        Token::StrLiteral(_) => TokenKind::StrLiteral,
        Token::StructFieldId { .. } => TokenKind::StructFieldId,
        Token::If => TokenKind::If,
        Token::While => TokenKind::While,
        Token::For => TokenKind::For,
        Token::Break => TokenKind::Break,
        Token::Asm => TokenKind::Asm,
        Token::Assert => TokenKind::Assert,
        Token::Return => TokenKind::Return,
        Token::PutChar => TokenKind::PutChar,
        Token::Struct => TokenKind::Struct,
        Token::Eq => TokenKind::Eq,
        Token::EqCmp => TokenKind::EqCmp,
        Token::NeqCmp => TokenKind::NeqCmp,
        Token::AndCmp => TokenKind::AndCmp,
        Token::OrCmp => TokenKind::OrCmp,
        Token::Add => TokenKind::Add,
        Token::Sub => TokenKind::Sub,
        Token::Star => TokenKind::Star,
        Token::Div => TokenKind::Div,
        Token::BAnd => TokenKind::BAnd,
        Token::BOr => TokenKind::BOr,
        Token::BXor => TokenKind::BXor,
        Token::AddEq => TokenKind::AddEq,
        Token::SubEq => TokenKind::SubEq,
        Token::MulEq => TokenKind::MulEq,
        Token::DivEq => TokenKind::DivEq,
        Token::BAndEq => TokenKind::BAndEq,
        Token::BOrEq => TokenKind::BOrEq,
        Token::BXorEq => TokenKind::BXorEq,
        Token::AddO => TokenKind::AddO,
        Token::OParen => TokenKind::OParen,
        Token::CParen => TokenKind::CParen,
        Token::OSquare => TokenKind::OSquare,
        Token::CSquare => TokenKind::CSquare,
        Token::OCurl => TokenKind::OCurl,
        Token::CCurl => TokenKind::CCurl,
        Token::Semi => TokenKind::Semi,
        Token::Comma => TokenKind::Comma,
    }
}

impl Token {
    pub fn kind(&self) -> (k: TokenKind)
        ensures
            k == spec_kind(*self),
    {
        match self {
            Token::Type(_) => TokenKind::Type,
            Token::Id(_) => TokenKind::Id,
            Token::NumLiteral(_) => TokenKind::NumLiteral,
            Token::StrLiteral(_) => TokenKind::StrLiteral,
            Token::StructFieldId { .. } => TokenKind::StructFieldId,
            Token::If => TokenKind::If,
            Token::While => TokenKind::While,
            Token::For => TokenKind::For,
            Token::Break => TokenKind::Break,
            Token::Asm => TokenKind::Asm,
            Token::Assert => TokenKind::Assert,
            Token::Return => TokenKind::Return,
            Token::PutChar => TokenKind::PutChar,
            Token::Struct => TokenKind::Struct,
            Token::Eq => TokenKind::Eq,
            Token::EqCmp => TokenKind::EqCmp,
            Token::NeqCmp => TokenKind::NeqCmp,
            Token::AndCmp => TokenKind::AndCmp,
            Token::OrCmp => TokenKind::OrCmp,
            Token::Add => TokenKind::Add,
            Token::Sub => TokenKind::Sub,
            Token::Star => TokenKind::Star,
            Token::Div => TokenKind::Div,
            Token::BAnd => TokenKind::BAnd,
            Token::BOr => TokenKind::BOr,
            Token::BXor => TokenKind::BXor,
            Token::AddEq => TokenKind::AddEq,
            Token::SubEq => TokenKind::SubEq,
            Token::MulEq => TokenKind::MulEq,
            Token::DivEq => TokenKind::DivEq,
            Token::BAndEq => TokenKind::BAndEq,
            Token::BOrEq => TokenKind::BOrEq,
            Token::BXorEq => TokenKind::BXorEq,
            Token::AddO => TokenKind::AddO,
            Token::OParen => TokenKind::OParen,
            Token::CParen => TokenKind::CParen,
            Token::OSquare => TokenKind::OSquare,
            Token::CSquare => TokenKind::CSquare,
            Token::OCurl => TokenKind::OCurl,
            Token::CCurl => TokenKind::CCurl,
            Token::Semi => TokenKind::Semi,
            Token::Comma => TokenKind::Comma,
        }
    }

    /// A copy of the token.
    pub fn duplicate(&self) -> (r: Token)
        ensures
            r == *self,
    {
        match self {
            Token::Type(t) => Token::Type(t.duplicate()),
            Token::Id(s) => Token::Id(s.clone()),
            Token::NumLiteral(n) => Token::NumLiteral(*n),
            Token::StrLiteral(s) => Token::StrLiteral(s.clone()),
            Token::StructFieldId { struct_id, field_id } => Token::StructFieldId {
                struct_id: struct_id.clone(),
                field_id: field_id.clone(),
            },
            Token::If => Token::If,
            Token::While => Token::While,
            Token::For => Token::For,
            Token::Break => Token::Break,
            Token::Asm => Token::Asm,
            Token::Assert => Token::Assert,
            Token::Return => Token::Return,
            Token::PutChar => Token::PutChar,
            Token::Struct => Token::Struct,
            Token::Eq => Token::Eq,
            Token::EqCmp => Token::EqCmp,
            Token::NeqCmp => Token::NeqCmp,
            Token::AndCmp => Token::AndCmp,
            Token::OrCmp => Token::OrCmp,
            Token::Add => Token::Add,
            Token::Sub => Token::Sub,
            Token::Star => Token::Star,
            Token::Div => Token::Div,
            Token::BAnd => Token::BAnd,
            Token::BOr => Token::BOr,
            Token::BXor => Token::BXor,
            Token::AddEq => Token::AddEq,
            Token::SubEq => Token::SubEq,
            Token::MulEq => Token::MulEq,
            Token::DivEq => Token::DivEq,
            Token::BAndEq => Token::BAndEq,
            Token::BOrEq => Token::BOrEq,
            Token::BXorEq => Token::BXorEq,
            Token::AddO => Token::AddO,
            Token::OParen => Token::OParen,
            Token::CParen => Token::CParen,
            Token::OSquare => Token::OSquare,
            Token::CSquare => Token::CSquare,
            Token::OCurl => Token::OCurl,
            Token::CCurl => Token::CCurl,
            Token::Semi => Token::Semi,
            Token::Comma => Token::Comma,
        }
    }
}

/// Records, for each source line, where its tokens begin: entry `j` is one more than the
/// number of tokens that come before line `j + 1`.
pub struct LineNumHandler {
    pub token_lines: Vec<usize>,
}

/// The line table fits a token list of length `n`: it has an entry per line, starts at 1,
/// never decreases and never points past one after the last token.
pub open spec fn line_table_wf(lines: Seq<usize>, n: nat) -> bool {
    &&& lines.len() >= 1
    &&& lines[0] == 1
    &&& forall|i: int, j: int| 0 <= i <= j < lines.len() ==> lines[i] <= lines[j]
    &&& forall|i: int| 0 <= i < lines.len() ==> 1 <= #[trigger] lines[i] <= n + 1
}

/// The number of newline characters in `s`.
pub open spec fn newline_count(s: Seq<char>) -> nat
    decreases s.len(),
{
    if s.len() == 0 {
        0
    } else {
        newline_count(s.drop_last()) + if s.last() == '\n' { 1nat } else { 0nat }
    }
}

pub open spec fn is_ident_start(c: char) -> bool {
    ('a' <= c <= 'z') || ('A' <= c <= 'Z') || c == '_'
}

pub open spec fn is_digit(c: char) -> bool {
    '0' <= c <= '9'
}

pub open spec fn is_ident_char(c: char) -> bool {
    is_ident_start(c) || is_digit(c)
}

/// A token with its text as character sequences; the tokens that carry nothing are known by
/// their kind.
pub enum LexTok {
    Type(CType),
    Id(Seq<char>),
    NumLiteral(usize),
    StrLiteral(Seq<char>),
    StructFieldId(Seq<char>, Seq<char>),
    Plain(TokenKind),
}

/// The token as the lexer describes it.
pub open spec fn token_view(t: Token) -> LexTok {
    match t {
        Token::Type(c) => LexTok::Type(c),
        Token::Id(s) => LexTok::Id(s@),
        Token::NumLiteral(n) => LexTok::NumLiteral(n),
        Token::StrLiteral(s) => LexTok::StrLiteral(s@),
        Token::StructFieldId { struct_id, field_id } => LexTok::StructFieldId(struct_id@, field_id@),
        _ => LexTok::Plain(spec_kind(t)),
    }
}

pub open spec fn tokens_view(ts: Seq<Token>) -> Seq<LexTok> {
    ts.map_values(|t: Token| token_view(t))
}

/// The token a word stands for: a type or keyword, otherwise an identifier.
pub open spec fn word_tok(w: Seq<char>) -> LexTok {
    if w == "int"@ {
        LexTok::Type(CType::Int)
    } else if w == "char"@ {
        LexTok::Type(CType::Char)
    } else if w == "void"@ {
        LexTok::Type(CType::Void)
    } else if w == "if"@ {
        LexTok::Plain(TokenKind::If)
    } else if w == "while"@ {
        LexTok::Plain(TokenKind::While)
    } else if w == "for"@ {
        LexTok::Plain(TokenKind::For)
    } else if w == "break"@ {
        LexTok::Plain(TokenKind::Break)
    } else if w == "asm"@ {
        LexTok::Plain(TokenKind::Asm)
    } else if w == "assert"@ {
        LexTok::Plain(TokenKind::Assert)
    } else if w == "return"@ {
        LexTok::Plain(TokenKind::Return)
    } else if w == "putchar"@ {
        LexTok::Plain(TokenKind::PutChar)
    } else if w == "struct"@ {
        LexTok::Plain(TokenKind::Struct)
    } else {
        LexTok::Id(w)
    }
}

/// The operator or bracket that `c` (followed by `next`) starts, and its width.
pub open spec fn punct(c: char, next: char) -> Option<(TokenKind, int)> {
    if c == '=' && next == '=' {
        Some((TokenKind::EqCmp, 2))
    } else if c == '=' {
        Some((TokenKind::Eq, 1))
    } else if c == '!' && next == '=' {
        Some((TokenKind::NeqCmp, 2))
    } else if c == '&' && next == '&' {
        Some((TokenKind::AndCmp, 2))
    } else if c == '|' && next == '|' {
        Some((TokenKind::OrCmp, 2))
    } else if c == '+' && next == '+' {
        Some((TokenKind::AddO, 2))
    } else if c == '+' && next == '=' {
        Some((TokenKind::AddEq, 2))
    } else if c == '-' && next == '=' {
        Some((TokenKind::SubEq, 2))
    } else if c == '*' && next == '=' {
        Some((TokenKind::MulEq, 2))
    } else if c == '/' && next == '=' {
        Some((TokenKind::DivEq, 2))
    } else if c == '&' && next == '=' {
        Some((TokenKind::BAndEq, 2))
    } else if c == '|' && next == '=' {
        Some((TokenKind::BOrEq, 2))
    } else if c == '^' && next == '=' {
        Some((TokenKind::BXorEq, 2))
    } else if c == '+' {
        Some((TokenKind::Add, 1))
    } else if c == '-' {
        Some((TokenKind::Sub, 1))
    } else if c == '*' {
        Some((TokenKind::Star, 1))
    } else if c == '/' {
        Some((TokenKind::Div, 1))
    } else if c == '&' {
        Some((TokenKind::BAnd, 1))
    } else if c == '|' {
        Some((TokenKind::BOr, 1))
    } else if c == '^' {
        Some((TokenKind::BXor, 1))
    } else if c == '(' {
        Some((TokenKind::OParen, 1))
    } else if c == ')' {
        Some((TokenKind::CParen, 1))
    } else if c == '[' {
        Some((TokenKind::OSquare, 1))
    } else if c == ']' {
        Some((TokenKind::CSquare, 1))
    } else if c == '{' {
        Some((TokenKind::OCurl, 1))
    } else if c == '}' {
        Some((TokenKind::CCurl, 1))
    } else if c == ';' {
        Some((TokenKind::Semi, 1))
    } else if c == ',' {
        Some((TokenKind::Comma, 1))
    } else {
        None
    }
}

/// The first position from `k` on that does not continue an identifier.
pub open spec fn ident_stop(cs: Seq<char>, k: int) -> int
    decreases cs.len() - k,
{
    if k < cs.len() && is_ident_char(cs[k]) {
        ident_stop(cs, k + 1)
    } else {
        k
    }
}

/// The first position from `k` on that holds a quote or a newline (or the end).
pub open spec fn quote_stop(cs: Seq<char>, k: int) -> int
    decreases cs.len() - k,
{
    if k < cs.len() && cs[k] != '"' && cs[k] != '\n' {
        quote_stop(cs, k + 1)
    } else {
        k
    }
}

/// The value of a decimal digit.
pub open spec fn digit_val(c: char) -> int {
    c as int - '0' as int
}

/// The number whose digits start at `k`, after the value `v` of those already read, and
/// where it ends; `None` once it no longer fits in a `usize`.
pub open spec fn number_from(cs: Seq<char>, k: int, v: nat) -> (Option<usize>, int)
    decreases cs.len() - k,
{
    if k < cs.len() && is_digit(cs[k]) {
        if v * 10 + digit_val(cs[k]) > usize::MAX {
            (None, k)
        } else {
            number_from(cs, k + 1, (v * 10 + digit_val(cs[k])) as nat)
        }
    } else {
        (Some(v as usize), k)
    }
}

/// Lexing from position `i`, with the tokens and the line table built so far.
pub open spec fn lex_from(cs: Seq<char>, i: int, toks: Seq<LexTok>, lines: Seq<usize>) -> Result<
    (Seq<LexTok>, Seq<usize>),
    RhErr,
>
    decreases cs.len() - i,
{
    if i < 0 || i >= cs.len() {
        Ok((toks, lines))
    } else {
        let c = cs[i];
        let line = lines.len() as usize;
        if c == '\n' {
            lex_from(cs, i + 1, toks, lines.push((toks.len() + 1) as usize))
        } else if c == ' ' || c == '\t' || c == '\r' {
            lex_from(cs, i + 1, toks, lines)
        } else if is_ident_start(c) {
            let end = ident_stop(cs, i + 1);
            let word = cs.subrange(i, end);
            if end + 1 < cs.len() && cs[end] == '.' && is_ident_start(cs[end + 1]) {
                let end2 = ident_stop(cs, end + 2);
                if !(i < end2 <= cs.len()) {
                    Ok((toks, lines))
                } else {
                    lex_from(
                        cs,
                        end2,
                        toks.push(LexTok::StructFieldId(word, cs.subrange(end + 1, end2))),
                        lines,
                    )
                }
            } else if !(i < end <= cs.len()) {
                Ok((toks, lines))
            } else {
                lex_from(cs, end, toks.push(word_tok(word)), lines)
            }
        } else if is_digit(c) {
            match number_from(cs, i, 0) {
                (None, _) => Err(RhErr { err: ErrType::ExpectedNumLiteral, line }),
                (Some(v), j) => if !(i < j <= cs.len()) {
                    Ok((toks, lines))
                } else {
                    lex_from(cs, j, toks.push(LexTok::NumLiteral(v)), lines)
                },
            }
        } else if c == '"' {
            let j = quote_stop(cs, i + 1);
            if j >= cs.len() || cs[j] != '"' {
                Err(RhErr { err: ErrType::ExpectedStrLiteral, line })
            } else if j < i {
                Ok((toks, lines))
            } else {
                lex_from(cs, j + 1, toks.push(LexTok::StrLiteral(cs.subrange(i + 1, j))), lines)
            }
        } else {
            let next = if i + 1 < cs.len() { cs[i + 1] } else { ' ' };
            match punct(c, next) {
                None => Err(RhErr { err: ErrType::ExpectedExpression, line }),
                Some((k, w)) => if !(0 < w && i + w <= cs.len()) {
                    Ok((toks, lines))
                } else {
                    lex_from(cs, i + w, toks.push(LexTok::Plain(k)), lines)
                },
            }
        }
    }
}

/// The tokens of a source text and, for each line, one more than the number of tokens
/// before it.
pub open spec fn spec_lex(cs: Seq<char>) -> Result<(Seq<LexTok>, Seq<usize>), RhErr> {
    lex_from(cs, 0, seq![], seq![1])
}

/// A lexer result as token views.
pub open spec fn lex_view(r: Result<(Vec<Token>, LineNumHandler), RhErr>) -> Result<
    (Seq<LexTok>, Seq<usize>),
    RhErr,
> {
    match r {
        Ok((ts, lines)) => Ok((tokens_view(ts@), lines.token_lines@)),
        Err(e) => Err(e),
    }
}

fn ident_start(c: char) -> (r: bool)
    ensures
        r == is_ident_start(c),
{
    ('a' <= c && c <= 'z') || ('A' <= c && c <= 'Z') || c == '_'
}

fn digit(c: char) -> (r: bool)
    ensures
        r == is_digit(c),
{
    '0' <= c && c <= '9'
}

fn ident_char(c: char) -> (r: bool)
    ensures
        r == is_ident_char(c),
{
    ident_start(c) || digit(c)
}

fn digit_value(c: char) -> (r: usize)
    requires
        is_digit(c),
    ensures
        r < 10,
        r == digit_val(c),
{
    let v = c as u32 - '0' as u32;
    v as usize
}

/// The keyword or identifier token for a word.
fn word_token(word: String) -> (t: Token)
    ensures
        token_view(t) == word_tok(word@),
{
    proof {
        reveal_strlit("int");
        reveal_strlit("char");
        reveal_strlit("void");
        reveal_strlit("if");
        reveal_strlit("while");
        reveal_strlit("for");
        reveal_strlit("break");
        reveal_strlit("asm");
        reveal_strlit("assert");
        reveal_strlit("return");
        reveal_strlit("putchar");
        reveal_strlit("struct");
    }
    if word == String::from_str("int") {
        Token::Type(CType::Int)
    } else if word == String::from_str("char") {
        Token::Type(CType::Char)
    } else if word == String::from_str("void") {
        Token::Type(CType::Void)
    } else if word == String::from_str("if") {
        Token::If
    } else if word == String::from_str("while") {
        Token::While
    } else if word == String::from_str("for") {
        Token::For
    } else if word == String::from_str("break") {
        Token::Break
    } else if word == String::from_str("asm") {
        Token::Asm
    } else if word == String::from_str("assert") {
        Token::Assert
    } else if word == String::from_str("return") {
        Token::Return
    } else if word == String::from_str("putchar") {
        Token::PutChar
    } else if word == String::from_str("struct") {
        Token::Struct
    } else {
        Token::Id(word)
    }
}

/// The end of the identifier that starts at `start`.
fn ident_end(chars: &Vec<char>, start: usize) -> (end: usize)
    requires
        start < chars.len(),
    ensures
        start < end <= chars.len(),
        forall|k: int| start < k < end ==> is_ident_char(#[trigger] chars@[k]),
        end == chars.len() || !is_ident_char(chars@[end as int]),
        end == ident_stop(chars@, start + 1),
{
    let mut end = start + 1;
    while end < chars.len() && ident_char(chars[end])
        invariant
            start < end <= chars.len(),
            forall|k: int| start < k < end ==> is_ident_char(#[trigger] chars@[k]),
            ident_stop(chars@, start + 1) == ident_stop(chars@, end as int),
        decreases chars.len() - end,
    {
        end = end + 1;
    }
    end
}

proof fn lemma_newline_count_push(s: Seq<char>, i: int)
    requires
        0 <= i < s.len(),
    ensures
        newline_count(s.subrange(0, i + 1)) == newline_count(s.subrange(0, i)) + if s[i] == '\n' {
            1nat
        } else {
            0nat
        },
{
    assert(s.subrange(0, i + 1).drop_last() =~= s.subrange(0, i));
}

/// The operator or bracket token that `c` (followed by `next`) starts, and its width.
fn punct_token(c: char, next: char) -> (r: Option<(Token, usize)>)
    ensures
        match punct(c, next) {
            None => r is None,
            Some((k, w)) => r matches Some((t, w2)) && token_view(t) == LexTok::Plain(k) && w2 == w,
        },
{
    if c == '=' && next == '=' {
        Some((Token::EqCmp, 2))
    } else if c == '=' {
        Some((Token::Eq, 1))
    } else if c == '!' && next == '=' {
        Some((Token::NeqCmp, 2))
    } else if c == '&' && next == '&' {
        Some((Token::AndCmp, 2))
    } else if c == '|' && next == '|' {
        Some((Token::OrCmp, 2))
    } else if c == '+' && next == '+' {
        Some((Token::AddO, 2))
    } else if c == '+' && next == '=' {
        Some((Token::AddEq, 2))
    } else if c == '-' && next == '=' {
        Some((Token::SubEq, 2))
    } else if c == '*' && next == '=' {
        Some((Token::MulEq, 2))
    } else if c == '/' && next == '=' {
        Some((Token::DivEq, 2))
    } else if c == '&' && next == '=' {
        Some((Token::BAndEq, 2))
    } else if c == '|' && next == '=' {
        Some((Token::BOrEq, 2))
    } else if c == '^' && next == '=' {
        Some((Token::BXorEq, 2))
    } else if c == '+' {
        Some((Token::Add, 1))
    } else if c == '-' {
        Some((Token::Sub, 1))
    } else if c == '*' {
        Some((Token::Star, 1))
    } else if c == '/' {
        Some((Token::Div, 1))
    } else if c == '&' {
        Some((Token::BAnd, 1))
    } else if c == '|' {
        Some((Token::BOr, 1))
    } else if c == '^' {
        Some((Token::BXor, 1))
    } else if c == '(' {
        Some((Token::OParen, 1))
    } else if c == ')' {
        Some((Token::CParen, 1))
    } else if c == '[' {
        Some((Token::OSquare, 1))
    } else if c == ']' {
        Some((Token::CSquare, 1))
    } else if c == '{' {
        Some((Token::OCurl, 1))
    } else if c == '}' {
        Some((Token::CCurl, 1))
    } else if c == ';' {
        Some((Token::Semi, 1))
    } else if c == ',' {
        Some((Token::Comma, 1))
    } else {
        None
    }
}

/// Splits C source text into tokens and records where each line's tokens begin.
///
/// Fails on a character that belongs to no token, on an unterminated string literal
/// and on a number that does not fit in a `usize`.
#[verifier::rlimit(60)]
pub fn string_to_tokens(contents: &str) -> (res: Result<(Vec<Token>, LineNumHandler), RhErr>)
    ensures
        res matches Ok((tokens, lines)) ==> {
            &&& line_table_wf(lines.token_lines@, tokens.len() as nat)
            &&& lines.token_lines@.len() == newline_count(contents@) + 1
        },
        res matches Err(e) ==> 1 <= e.line <= newline_count(contents@) + 1,
        lex_view(res) == spec_lex(contents@),
{
    let n = contents.unicode_len();
    let mut chars: Vec<char> = Vec::new();
    let mut k: usize = 0;
    while k < n
        invariant
            n == contents@.len(),
            k <= n,
            chars@ =~= contents@.subrange(0, k as int),
        decreases n - k,
    {
        chars.push(contents.get_char(k));
        k = k + 1;
    }
    assert(chars@ =~= contents@);
    let mut tokens: Vec<Token> = Vec::new();
    let mut token_lines: Vec<usize> = Vec::new();
    token_lines.push(1);
    let mut i: usize = 0;
    proof {
        assert(tokens_view(tokens@) =~= seq![]);
        assert(token_lines@ =~= seq![1usize]);
    }
    while i < n
        invariant
            n == chars.len(),
            chars@ == contents@,
            i <= n,
            line_table_wf(token_lines@, tokens.len() as nat),
            token_lines@.len() == newline_count(chars@.subrange(0, i as int)) + 1,
            token_lines@.len() <= i + 1,
            tokens.len() <= i,
            spec_lex(contents@) == lex_from(chars@, i as int, tokens_view(tokens@), token_lines@),
        decreases n - i,
    {
        let c = chars[i];
        let line = token_lines.len();
        proof {
            lemma_newline_count_mono(chars@, i as int);
            assert(chars@.subrange(0, n as int) =~= chars@);
            assert(1 <= line <= newline_count(contents@) + 1);
        }
        let ghost old_lines = token_lines@;
        let ghost old_len = tokens.len();
        let mut next = i + 1;
        let ghost before_tokens = tokens@;
        if c == '\n' {
            token_lines.push(tokens.len() + 1);
        } else if c == ' ' || c == '\t' || c == '\r' {
        } else if ident_start(c) {
            let end = ident_end(&chars, i);
            let word = contents.substring_char(i, end).to_owned();
            if end < n && end + 1 < n && chars[end] == '.' && ident_start(chars[end + 1]) {
                let end2 = ident_end(&chars, end + 1);
                let field = contents.substring_char(end + 1, end2).to_owned();
                let t = Token::StructFieldId { struct_id: word, field_id: field };
                tokens.push(t);
                proof {
                    assert(tokens_view(tokens@) =~= tokens_view(before_tokens).push(token_view(t)));
                }
                next = end2;
            } else {
                let t = word_token(word);
                tokens.push(t);
                proof {
                    assert(tokens_view(tokens@) =~= tokens_view(before_tokens).push(token_view(t)));
                }
                next = end;
            }
        } else if digit(c) {
            let mut value: usize = 0;
            let mut j = i;
            while j < n && digit(chars[j])
                invariant
                    n == chars.len(),
                    i <= j <= n,
                    forall|q: int| i <= q < j ==> is_digit(#[trigger] chars@[q]),
                    1 <= line <= newline_count(contents@) + 1,
                    number_from(chars@, i as int, 0) == number_from(chars@, j as int, value as nat),
                    chars@ == contents@,
                    i < n,
                    is_digit(chars@[i as int]),
                    line == token_lines@.len(),
                    spec_lex(contents@) == lex_from(chars@, i as int, tokens_view(tokens@), token_lines@),
                decreases n - j,
            {
                let d = digit_value(chars[j]);
                proof {
                    assert((value > (usize::MAX - d) / 10) == (value * 10 + d > usize::MAX))
                        by (nonlinear_arith)
                        requires
                            d < 10,
                    ;
                }
                if value > (usize::MAX - d) / 10 {
                    return Err(RhErr { err: ErrType::ExpectedNumLiteral, line });
                }
                value = value * 10 + d;
                j = j + 1;
            }
            let t = Token::NumLiteral(value);
            tokens.push(t);
            proof {
                assert(tokens_view(tokens@) =~= tokens_view(before_tokens).push(token_view(t)));
            }
            next = j;
        } else if c == '"' {
            let mut j = i + 1;
            while j < n && chars[j] != '"' && chars[j] != '\n'
                invariant
                    n == chars.len(),
                    i < j <= n,
                    forall|q: int| i < q < j ==> chars@[q] != '\n',
                    quote_stop(chars@, i + 1) == quote_stop(chars@, j as int),
                decreases n - j,
            {
                j = j + 1;
            }
            if j >= n || chars[j] != '"' {
                return Err(RhErr { err: ErrType::ExpectedStrLiteral, line });
            }
            let text = contents.substring_char(i + 1, j).to_owned();
            let t = Token::StrLiteral(text);
            tokens.push(t);
            proof {
                assert(tokens_view(tokens@) =~= tokens_view(before_tokens).push(token_view(t)));
            }
            next = j + 1;
        } else {
            let second = if i + 1 < n { chars[i + 1] } else { ' ' };
            match punct_token(c, second) {
                Some((tok, width)) => {
                    let ghost before = tokens@;
                    tokens.push(tok);
                    proof {
                        assert(tokens_view(tokens@) =~= tokens_view(before).push(token_view(tok)));
                    }
                    next = i + width;
                },
                None => {
                    return Err(RhErr { err: ErrType::ExpectedExpression, line });
                },
            }
        }
        proof {
            assert(lex_from(chars@, i as int, tokens_view(before_tokens), old_lines) == lex_from(
                chars@,
                next as int,
                tokens_view(tokens@),
                token_lines@,
            ));
            // every skipped character other than the first is not a newline
            assert forall|q: int| i < q < next implies chars@[q] != '\n' by {
            }
            lemma_newline_count_skip(chars@, i as int, next as int);
        }
        i = next;
    }
    assert(chars@.subrange(0, n as int) =~= chars@);
    Ok((tokens, LineNumHandler { token_lines }))
}

proof fn lemma_newline_count_mono(s: Seq<char>, i: int)
    requires
        0 <= i <= s.len(),
    ensures
        newline_count(s.subrange(0, i)) <= newline_count(s.subrange(0, s.len() as int)),
    decreases s.len() - i,
{
    if i < s.len() {
        lemma_newline_count_push(s, i);
        lemma_newline_count_mono(s, i + 1);
    }
}

proof fn lemma_newline_count_skip(s: Seq<char>, i: int, j: int)
    requires
        0 <= i < j <= s.len(),
        forall|q: int| i < q < j ==> s[q] != '\n',
    ensures
        newline_count(s.subrange(0, j)) == newline_count(s.subrange(0, i)) + if s[i] == '\n' {
            1nat
        } else {
            0nat
        },
    decreases j - i,
{
    if j == i + 1 {
        lemma_newline_count_push(s, i);
    } else {
        lemma_newline_count_skip(s, i, j - 1);
        lemma_newline_count_push(s, j - 1);
    }
}

/// On the source text, the two characters of a compound assignment or a comparison give its
/// token, and a lone operator gives its own: lexing goes on past them with that token added.
pub proof fn lemma_operator_tokens(cs: Seq<char>, i: int, toks: Seq<LexTok>, lines: Seq<usize>)
    requires
        0 <= i,
        i + 1 < cs.len(),
    ensures
        cs[i] == '-' && cs[i + 1] == '=' ==> lex_from(cs, i, toks, lines) == lex_from(
            cs,
            i + 2,
            toks.push(LexTok::Plain(TokenKind::SubEq)),
            lines,
        ),
        cs[i] == '+' && cs[i + 1] == '=' ==> lex_from(cs, i, toks, lines) == lex_from(
            cs,
            i + 2,
            toks.push(LexTok::Plain(TokenKind::AddEq)),
            lines,
        ),
        cs[i] == '*' && cs[i + 1] == '=' ==> lex_from(cs, i, toks, lines) == lex_from(
            cs,
            i + 2,
            toks.push(LexTok::Plain(TokenKind::MulEq)),
            lines,
        ),
        cs[i] == '/' && cs[i + 1] == '=' ==> lex_from(cs, i, toks, lines) == lex_from(
            cs,
            i + 2,
            toks.push(LexTok::Plain(TokenKind::DivEq)),
            lines,
        ),
        cs[i] == '=' && cs[i + 1] == '=' ==> lex_from(cs, i, toks, lines) == lex_from(
            cs,
            i + 2,
            toks.push(LexTok::Plain(TokenKind::EqCmp)),
            lines,
        ),
        cs[i] == '!' && cs[i + 1] == '=' ==> lex_from(cs, i, toks, lines) == lex_from(
            cs,
            i + 2,
            toks.push(LexTok::Plain(TokenKind::NeqCmp)),
            lines,
        ),
        cs[i] == '+' && cs[i + 1] == '+' ==> lex_from(cs, i, toks, lines) == lex_from(
            cs,
            i + 2,
            toks.push(LexTok::Plain(TokenKind::AddO)),
            lines,
        ),
        cs[i] == '&' && cs[i + 1] == '=' ==> lex_from(cs, i, toks, lines) == lex_from(
            cs,
            i + 2,
            toks.push(LexTok::Plain(TokenKind::BAndEq)),
            lines,
        ),
        cs[i] == '|' && cs[i + 1] == '=' ==> lex_from(cs, i, toks, lines) == lex_from(
            cs,
            i + 2,
            toks.push(LexTok::Plain(TokenKind::BOrEq)),
            lines,
        ),
        cs[i] == '^' && cs[i + 1] == '=' ==> lex_from(cs, i, toks, lines) == lex_from(
            cs,
            i + 2,
            toks.push(LexTok::Plain(TokenKind::BXorEq)),
            lines,
        ),
        cs[i] == '=' && cs[i + 1] != '=' ==> lex_from(cs, i, toks, lines) == lex_from(
            cs,
            i + 1,
            toks.push(LexTok::Plain(TokenKind::Eq)),
            lines,
        ),
        cs[i] == '-' && cs[i + 1] != '=' ==> lex_from(cs, i, toks, lines) == lex_from(
            cs,
            i + 1,
            toks.push(LexTok::Plain(TokenKind::Sub)),
            lines,
        ),
        cs[i] == '+' && cs[i + 1] != '=' && cs[i + 1] != '+' ==> lex_from(cs, i, toks, lines) == lex_from(
            cs,
            i + 1,
            toks.push(LexTok::Plain(TokenKind::Add)),
            lines,
        ),
        cs[i] == '*' && cs[i + 1] != '=' ==> lex_from(cs, i, toks, lines) == lex_from(
            cs,
            i + 1,
            toks.push(LexTok::Plain(TokenKind::Star)),
            lines,
        ),
        cs[i] == '/' && cs[i + 1] != '=' ==> lex_from(cs, i, toks, lines) == lex_from(
            cs,
            i + 1,
            toks.push(LexTok::Plain(TokenKind::Div)),
            lines,
        ),
{
    let c = cs[i];
    let ops = c == '-' || c == '+' || c == '*' || c == '/' || c == '=' || c == '!' || c == '&' || c == '|'
        || c == '^';
    assert(ops ==> !is_ident_start(c) && !is_digit(c));
}

} // verus!
