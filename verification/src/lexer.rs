//! The lexer of the `.gym` surface language: characters to tokens with
//! byte spans, and E001 to E003 diagnostics for what is not a token.
use vstd::prelude::*;
use vstd::utf8::{encode_scalar, encode_utf8};
use crate::diag::{Diagnostic, Severity};
use crate::sexpr_parse::{digits_value, is_digit};
use crate::span::Span;
use crate::text::{chars_of, owned, push_char, push_str};

verus! {

/// Token kinds.
#[derive(Debug, PartialEq)]
pub enum TokenKind {
    /// Identifier (lowercase_snake_case or PascalCase).
    Ident(String),
    /// Integer literal.
    Int(i64),
    /// String literal.
    Str(String),
    LParen,
    RParen,
    Comma,
    Semi,
    Colon,
    Eq,
    Bang,
    Dot,
    At,
    Slash,
    Lt,
    Le,
    Arrow,
    DotDot,
    Eof,
}

/// A token kind as plain values.
pub enum KindV {
    Ident(Seq<char>),
    Int(int),
    Str(Seq<char>),
    LParen,
    RParen,
    Comma,
    Semi,
    Colon,
    Eq,
    Bang,
    Dot,
    At,
    Slash,
    Lt,
    Le,
    Arrow,
    DotDot,
    Eof,
}

impl View for TokenKind {
    type V = KindV;

    open spec fn view(&self) -> KindV {
        match self {
            TokenKind::Ident(s) => KindV::Ident(s@),
            TokenKind::Int(i) => KindV::Int(*i as int),
            TokenKind::Str(s) => KindV::Str(s@),
            TokenKind::LParen => KindV::LParen,
            TokenKind::RParen => KindV::RParen,
            TokenKind::Comma => KindV::Comma,
            TokenKind::Semi => KindV::Semi,
            TokenKind::Colon => KindV::Colon,
            TokenKind::Eq => KindV::Eq,
            TokenKind::Bang => KindV::Bang,
            TokenKind::Dot => KindV::Dot,
            TokenKind::At => KindV::At,
            TokenKind::Slash => KindV::Slash,
            TokenKind::Lt => KindV::Lt,
            TokenKind::Le => KindV::Le,
            TokenKind::Arrow => KindV::Arrow,
            TokenKind::DotDot => KindV::DotDot,
            TokenKind::Eof => KindV::Eof,
        }
    }
}

impl Clone for TokenKind {
    fn clone(&self) -> (r: Self)
        ensures
            r@ == self@,
    {
        match self {
            TokenKind::Ident(s) => TokenKind::Ident(s.clone()),
            TokenKind::Int(i) => TokenKind::Int(*i),
            TokenKind::Str(s) => TokenKind::Str(s.clone()),
            TokenKind::LParen => TokenKind::LParen,
            TokenKind::RParen => TokenKind::RParen,
            TokenKind::Comma => TokenKind::Comma,
            TokenKind::Semi => TokenKind::Semi,
            TokenKind::Colon => TokenKind::Colon,
            TokenKind::Eq => TokenKind::Eq,
            TokenKind::Bang => TokenKind::Bang,
            TokenKind::Dot => TokenKind::Dot,
            TokenKind::At => TokenKind::At,
            TokenKind::Slash => TokenKind::Slash,
            TokenKind::Lt => TokenKind::Lt,
            TokenKind::Le => TokenKind::Le,
            TokenKind::Arrow => TokenKind::Arrow,
            TokenKind::DotDot => TokenKind::DotDot,
            TokenKind::Eof => TokenKind::Eof,
        }
    }
}

/// A token with its byte span.
#[derive(Debug)]
pub struct Token {
    pub kind: TokenKind,
    pub span: Span,
}

/// A token as plain values.
pub struct TokV {
    pub kind: KindV,
    pub start: int,
    pub end: int,
}

impl View for Token {
    type V = TokV;

    open spec fn view(&self) -> TokV {
        TokV { kind: self.kind@, start: self.span.start as int, end: self.span.end as int }
    }
}

impl Clone for Token {
    fn clone(&self) -> (r: Self)
        ensures
            r@ == self@,
    {
        Token { kind: self.kind.clone(), span: self.span }
    }
}

/// A diagnostic as plain values: severity, code, span, message.
pub struct DiagV {
    pub severity: Severity,
    pub code: Seq<char>,
    pub start: int,
    pub end: int,
    pub message: Seq<char>,
}

pub open spec fn diag_view(d: Diagnostic) -> DiagV {
    DiagV { severity: d.severity, code: d.code@, start: d.span.start as int, end: d.span.end as int, message: d.message@ }
}

// ---- the lexical grammar ----

/// The byte offset of character position `i`.
pub open spec fn bpos(cs: Seq<char>, i: int) -> int {
    encode_utf8(cs.take(i)).len() as int
}

/// Whitespace between tokens: tab, newline, vertical tab, form feed,
/// carriage return and space.
pub open spec fn is_ws(c: char) -> bool {
    c == '\t' || c == '\n' || c == '\x0B' || c == '\x0C' || c == '\r' || c == ' '
}

/// The position after the comment that starts at `i` (through the next
/// newline, or the end).
pub open spec fn comment_end(cs: Seq<char>, i: int) -> int
    decreases cs.len() - i,
{
    if i >= cs.len() {
        cs.len() as int
    } else if cs[i] == '\n' {
        i + 1
    } else {
        comment_end(cs, i + 1)
    }
}

pub proof fn lemma_comment_end(cs: Seq<char>, k: int)
    requires
        0 <= k <= cs.len(),
    ensures
        k <= comment_end(cs, k) <= cs.len(),
    decreases cs.len() - k,
{
    if k < cs.len() && cs[k] != '\n' {
        lemma_comment_end(cs, k + 1);
    }
}

/// The first position at or after `i` that is not whitespace or inside
/// a `#` comment.
pub open spec fn skip_ws(cs: Seq<char>, i: int) -> int
    decreases cs.len() - i,
{
    if i < 0 || i >= cs.len() {
        i
    } else if cs[i] == '#' {
        proof {
            lemma_comment_end(cs, i + 1);
        }
        skip_ws(cs, comment_end(cs, i + 1))
    } else if is_ws(cs[i]) {
        skip_ws(cs, i + 1)
    } else {
        i
    }
}

/// A string body from `k`: its text, the position after it, and whether
/// the closing quote was found.
pub open spec fn scan_str(cs: Seq<char>, k: int) -> (Seq<char>, int, bool)
    decreases cs.len() - k,
{
    if k < 0 || k >= cs.len() {
        (Seq::empty(), cs.len() as int, false)
    } else if cs[k] == '"' {
        (Seq::empty(), k + 1, true)
    } else if cs[k] == '\\' {
        if k + 1 >= cs.len() {
            (Seq::empty(), k + 1, false)
        } else {
            let e = cs[k + 1];
            let esc = if e == '"' { seq!['"'] } else if e == '\\' { seq!['\\'] } else { seq!['\\', e] };
            let r = scan_str(cs, k + 2);
            (esc + r.0, r.1, r.2)
        }
    } else {
        let r = scan_str(cs, k + 1);
        (seq![cs[k]] + r.0, r.1, r.2)
    }
}

pub open spec fn is_ident_char(c: char) -> bool {
    ('a' <= c && c <= 'z') || ('A' <= c && c <= 'Z') || ('0' <= c && c <= '9') || c == '_'
}

pub open spec fn is_ident_start(c: char) -> bool {
    ('a' <= c && c <= 'z') || ('A' <= c && c <= 'Z') || c == '_'
}

/// The end of the run of characters satisfying the digit (`digits`) or
/// identifier test from `k`.
pub open spec fn run_end(cs: Seq<char>, k: int, digits: bool) -> int
    decreases cs.len() - k,
{
    if k < 0 || k >= cs.len() {
        k
    } else if (digits && is_digit(cs[k])) || (!digits && is_ident_char(cs[k])) {
        run_end(cs, k + 1, digits)
    } else {
        k
    }
}

pub open spec fn hex_char(d: nat) -> char {
    if d < 10 { crate::text::digit_char(d) }
    else if d == 10 { 'a' } else if d == 11 { 'b' } else if d == 12 { 'c' }
    else if d == 13 { 'd' } else if d == 14 { 'e' } else { 'f' }
}

/// Lower-case hexadecimal digits, no leading zeros.
pub open spec fn hex_digits(n: nat) -> Seq<char>
    decreases n,
{
    if n < 16 {
        seq![hex_char(n)]
    } else {
        hex_digits(n / 16).push(hex_char(n % 16))
    }
}

/// `char::escape_default`: `\t`, `\r`, `\n`, `\'`, `\"` and `\\` for those
/// characters, printable ASCII as itself, everything else `\u{hex}`.
pub open spec fn escape_default_v(c: char) -> Seq<char> {
    if c == '\t' { seq!['\\', 't'] }
    else if c == '\r' { seq!['\\', 'r'] }
    else if c == '\n' { seq!['\\', 'n'] }
    else if c == '\'' { seq!['\\', '\''] }
    else if c == '"' { seq!['\\', '"'] }
    else if c == '\\' { seq!['\\', '\\'] }
    else if 0x20 <= (c as u32) && (c as u32) <= 0x7e { seq![c] }
    else { seq!['\\', 'u', '{'] + hex_digits(c as u32 as nat) + seq!['}'] }
}

pub open spec fn tok(kind: KindV, cs: Seq<char>, a: int, b: int) -> TokV {
    TokV { kind, start: bpos(cs, a), end: bpos(cs, b) }
}

pub open spec fn err(code: Seq<char>, cs: Seq<char>, a: int, b: int, message: Seq<char>) -> DiagV {
    DiagV { severity: Severity::Error, code, start: bpos(cs, a), end: bpos(cs, b), message }
}

/// The token kind of a one-character punctuation mark.
pub open spec fn punct(c: char) -> Option<KindV> {
    if c == '(' { Some(KindV::LParen) }
    else if c == ')' { Some(KindV::RParen) }
    else if c == ',' { Some(KindV::Comma) }
    else if c == ';' { Some(KindV::Semi) }
    else if c == ':' { Some(KindV::Colon) }
    else if c == '=' { Some(KindV::Eq) }
    else if c == '!' { Some(KindV::Bang) }
    else if c == '@' { Some(KindV::At) }
    else if c == '/' { Some(KindV::Slash) }
    else { None }
}

/// What one lexing step at the non-blank position `j` yields: an
/// optional token, an optional diagnostic, and the next position.
pub open spec fn step_v(cs: Seq<char>, j: int) -> (Option<TokV>, Option<DiagV>, int) {
    let c = cs[j];
    let next = if j + 1 < cs.len() { Some(cs[j + 1]) } else { None };
    if punct(c) is Some {
        (Some(tok(punct(c)->0, cs, j, j + 1)), None, j + 1)
    } else if c == '<' {
        if next == Some('=') { (Some(tok(KindV::Le, cs, j, j + 2)), None, j + 2) }
        else { (Some(tok(KindV::Lt, cs, j, j + 1)), None, j + 1) }
    } else if c == '-' {
        if next == Some('>') { (Some(tok(KindV::Arrow, cs, j, j + 2)), None, j + 2) }
        else { (None, Some(err("E001"@, cs, j, j + 1, "unexpected token `-`, expected `->`"@)), j + 1) }
    } else if c == '.' {
        if next == Some('.') { (Some(tok(KindV::DotDot, cs, j, j + 2)), None, j + 2) }
        else { (Some(tok(KindV::Dot, cs, j, j + 1)), None, j + 1) }
    } else if c == '"' {
        let r = scan_str(cs, j + 1);
        if r.2 { (Some(tok(KindV::Str(r.0), cs, j, r.1)), None, r.1) }
        else { (None, Some(err("E002"@, cs, j, r.1, "unterminated string literal"@)), r.1) }
    } else if is_digit(c) {
        let k = run_end(cs, j, true);
        let v = digits_value(cs.subrange(j, k));
        if v <= i64::MAX { (Some(tok(KindV::Int(v as int), cs, j, k)), None, k) }
        else { (None, Some(err("E003"@, cs, j, k, "integer literal out of range"@)), k) }
    } else if is_ident_start(c) {
        let k = run_end(cs, j, false);
        (Some(tok(KindV::Ident(cs.subrange(j, k)), cs, j, k)), None, k)
    } else {
        (None, Some(err("E001"@, cs, j, j + 1, "unexpected token `"@ + escape_default_v(c) + "`"@)), j + 1)
    }
}

pub open spec fn opt_seq<A>(o: Option<A>) -> Seq<A> {
    match o {
        Some(x) => seq![x],
        None => Seq::empty(),
    }
}

/// The tokens and diagnostics of `cs` from position `i`, ending with the
/// `Eof` token.
pub open spec fn lex_from(cs: Seq<char>, i: int) -> (Seq<TokV>, Seq<DiagV>)
    decreases cs.len() - i,
{
    let j = skip_ws(cs, i);
    if i < 0 || j >= cs.len() || j < i {
        (seq![tok(KindV::Eof, cs, j, j)], Seq::empty())
    } else {
        let s = step_v(cs, j);
        proof {
            lemma_step_advances(cs, j);
        }
        if s.2 <= j {
            (seq![tok(KindV::Eof, cs, j, j)], Seq::empty())
        } else {
            let r = lex_from(cs, s.2);
            (opt_seq(s.0) + r.0, opt_seq(s.1) + r.1)
        }
    }
}

/// The tokens and diagnostics of a source text.
pub open spec fn lex_v(src: Seq<char>) -> (Seq<TokV>, Seq<DiagV>) {
    lex_from(src, 0)
}


pub proof fn lemma_scan_str(cs: Seq<char>, k: int)
    requires
        0 <= k <= cs.len(),
    ensures
        scan_str(cs, k).1 <= cs.len(),
        k < cs.len() ==> scan_str(cs, k).1 > k,
        k == cs.len() ==> scan_str(cs, k).1 == cs.len(),
    decreases cs.len() - k,
{
    if k < cs.len() && cs[k] != '"' {
        if cs[k] == '\\' {
            if k + 1 < cs.len() {
                lemma_scan_str(cs, k + 2);
            }
        } else {
            lemma_scan_str(cs, k + 1);
        }
    }
}

pub proof fn lemma_run_end(cs: Seq<char>, k: int, digits: bool)
    requires
        0 <= k <= cs.len(),
    ensures
        k <= run_end(cs, k, digits) <= cs.len(),
    decreases cs.len() - k,
{
    if k < cs.len() && ((digits && is_digit(cs[k])) || (!digits && is_ident_char(cs[k]))) {
        lemma_run_end(cs, k + 1, digits);
    }
}

/// Every step consumes at least one character and stays in the text.
pub proof fn lemma_step_advances(cs: Seq<char>, j: int)
    requires
        0 <= j < cs.len(),
    ensures
        j < step_v(cs, j).2 <= cs.len(),
{
    lemma_scan_str(cs, j + 1);
    lemma_run_end(cs, j, true);
    lemma_run_end(cs, j, false);
    if is_digit(cs[j]) {
        lemma_run_end(cs, j + 1, true);
    }
    if is_ident_start(cs[j]) {
        lemma_run_end(cs, j + 1, false);
    }
}

// ---- byte offsets ----

proof fn lemma_encode_push(s: Seq<char>, c: char)
    ensures
        encode_utf8(s.push(c)) == encode_utf8(s) + encode_scalar(c as u32),
    decreases s.len(),
{
    if s.len() == 0 {
        assert(s.push(c).drop_first() =~= Seq::<char>::empty());
        assert(encode_utf8(Seq::<char>::empty()) =~= Seq::<u8>::empty());
        assert(encode_utf8(s.push(c)) =~= encode_scalar(c as u32) + encode_utf8(Seq::<char>::empty()));
        assert(encode_utf8(s) =~= Seq::<u8>::empty());
        assert(encode_utf8(s.push(c)) =~= encode_utf8(s) + encode_scalar(c as u32));
    } else {
        assert(s.push(c)[0] == s[0]);
        assert(s.push(c).drop_first() =~= s.drop_first().push(c));
        lemma_encode_push(s.drop_first(), c);
        assert(encode_utf8(s.push(c)) =~= encode_scalar(s[0] as u32) + encode_utf8(s.drop_first().push(c)));
        assert(encode_utf8(s.push(c)) =~= encode_utf8(s) + encode_scalar(c as u32));
    }
}

pub proof fn lemma_bpos_step(cs: Seq<char>, i: int)
    requires
        0 <= i < cs.len(),
    ensures
        bpos(cs, i + 1) == bpos(cs, i) + encode_scalar(cs[i] as u32).len(),
{
    assert(cs.take(i + 1) =~= cs.take(i).push(cs[i]));
    lemma_encode_push(cs.take(i), cs[i]);
}

pub proof fn lemma_bpos_mono(cs: Seq<char>, i: int, k: int)
    requires
        0 <= i <= k <= cs.len(),
    ensures
        bpos(cs, i) <= bpos(cs, k),
    decreases k - i,
{
    if i < k {
        lemma_bpos_step(cs, k - 1);
        lemma_bpos_mono(cs, i, k - 1);
    }
}

pub(crate) fn utf8_len(c: char) -> (r: usize)
    ensures
        r == encode_scalar(c as u32).len(),
        1 <= r <= 4,
{
    let v = c as u32;
    if v < 0x80 {
        1
    } else if v < 0x800 {
        2
    } else if v < 0x10000 {
        3
    } else {
        4
    }
}

/// `bpos(cs, k)` from a known `bpos(cs, i)`.
fn byte_at(cs: &Vec<char>, i: usize, b: usize, k: usize, total: usize) -> (r: usize)
    requires
        i <= k <= cs.len(),
        b == bpos(cs@, i as int),
        total == bpos(cs@, cs.len() as int),
    ensures
        r == bpos(cs@, k as int),
{
    let mut q = i;
    let mut bq = b;
    while q < k
        invariant
            i <= q <= k <= cs.len(),
            bq == bpos(cs@, q as int),
            total == bpos(cs@, cs.len() as int),
        decreases k - q,
    {
        proof {
            lemma_bpos_step(cs@, q as int);
            lemma_bpos_mono(cs@, q + 1, cs.len() as int);
        }
        bq = bq + utf8_len(cs[q]);
        q = q + 1;
    }
    bq
}

// ---- the lexer ----

/// The lexer of the `.gym` surface language.
pub struct Lexer<'a> {
    src: &'a str,
    chars: Vec<char>,
    pos: usize,
    byte_pos: usize,
    total: usize,
    tokens: Vec<Token>,
    diagnostics: Vec<Diagnostic>,
}

pub open spec fn toks_v(ts: Seq<Token>) -> Seq<TokV> {
    ts.map_values(|t: Token| t@)
}

pub open spec fn diags_v(ds: Seq<Diagnostic>) -> Seq<DiagV> {
    ds.map_values(|d: Diagnostic| diag_view(d))
}

fn comment_skip(cs: &Vec<char>, k: usize) -> (r: usize)
    requires
        k <= cs.len(),
    ensures
        r == comment_end(cs@, k as int),
{
    let mut q = k;
    while q < cs.len()
        invariant
            k <= q <= cs.len(),
            comment_end(cs@, k as int) == comment_end(cs@, q as int),
        decreases cs.len() - q,
    {
        if cs[q] == '\n' {
            return q + 1;
        }
        q = q + 1;
    }
    q
}

fn is_ws_exec(c: char) -> (r: bool)
    ensures
        r == is_ws(c),
{
    c == '\t' || c == '\n' || c == '\x0B' || c == '\x0C' || c == '\r' || c == ' '
}

fn skip_blank(cs: &Vec<char>, i: usize) -> (r: usize)
    requires
        i <= cs.len(),
    ensures
        r == skip_ws(cs@, i as int),
        i <= r <= cs.len(),
{
    let mut q = i;
    while q < cs.len()
        invariant
            i <= q <= cs.len(),
            skip_ws(cs@, i as int) == skip_ws(cs@, q as int),
        decreases cs.len() - q,
    {
        if cs[q] == '#' {
            proof {
                lemma_comment_end(cs@, q + 1);
            }
            q = comment_skip(cs, q + 1);
        } else if is_ws_exec(cs[q]) {
            q = q + 1;
        } else {
            return q;
        }
    }
    q
}

fn scan_string(cs: &Vec<char>, k0: usize) -> (r: (String, usize, bool))
    requires
        k0 <= cs.len(),
    ensures
        (r.0@, r.1 as int, r.2) == scan_str(cs@, k0 as int),
{
    let mut acc = String::new();
    let mut k = k0;
    proof {
        lemma_scan_str(cs@, k0 as int);
    }
    while k < cs.len()
        invariant
            k0 <= k <= cs.len(),
            scan_str(cs@, k0 as int) == (acc@ + scan_str(cs@, k as int).0, scan_str(cs@, k as int).1, scan_str(cs@, k as int).2),
        decreases cs.len() - k,
    {
        let c = cs[k];
        if c == '"' {
            assert(acc@ + Seq::<char>::empty() =~= acc@);
            return (acc, k + 1, true);
        } else if c == '\\' {
            if k + 1 >= cs.len() {
                assert(acc@ + Seq::<char>::empty() =~= acc@);
                return (acc, k + 1, false);
            }
            let e = cs[k + 1];
            let ghost before = acc@;
            if e == '"' {
                push_char(&mut acc, '"');
                assert(before + (seq!['"'] + scan_str(cs@, k + 2).0) =~= acc@ + scan_str(cs@, k + 2).0);
            } else if e == '\\' {
                push_char(&mut acc, '\\');
                assert(before + (seq!['\\'] + scan_str(cs@, k + 2).0) =~= acc@ + scan_str(cs@, k + 2).0);
            } else {
                push_char(&mut acc, '\\');
                push_char(&mut acc, e);
                assert(before + (seq!['\\', e] + scan_str(cs@, k + 2).0) =~= acc@ + scan_str(cs@, k + 2).0);
            }
            k = k + 2;
        } else {
            let ghost before = acc@;
            push_char(&mut acc, c);
            assert(before + (seq![c] + scan_str(cs@, k + 1).0) =~= acc@ + scan_str(cs@, k + 1).0);
            k = k + 1;
        }
    }
    assert(acc@ + Seq::<char>::empty() =~= acc@);
    (acc, cs.len(), false)
}

fn run_to(cs: &Vec<char>, k0: usize, digits: bool) -> (r: usize)
    requires
        k0 <= cs.len(),
    ensures
        r == run_end(cs@, k0 as int, digits),
        k0 <= r <= cs.len(),
{
    let mut k = k0;
    while k < cs.len()
        invariant
            k0 <= k <= cs.len(),
            run_end(cs@, k0 as int, digits) == run_end(cs@, k as int, digits),
        decreases cs.len() - k,
    {
        let c = cs[k];
        let ok = if digits {
            '0' <= c && c <= '9'
        } else {
            ('a' <= c && c <= 'z') || ('A' <= c && c <= 'Z') || ('0' <= c && c <= '9') || c == '_'
        };
        if !ok {
            return k;
        }
        k = k + 1;
    }
    k
}

/// The value of the digits `cs[j..k]`, or `None` past `i64::MAX`.
fn digits_to_i64(cs: &Vec<char>, j: usize, k: usize) -> (r: Option<i64>)
    requires
        j <= k <= cs.len(),
        forall|q: int| j <= q < k ==> is_digit(#[trigger] cs@[q]),
    ensures
        match r {
            Some(v) => v as int == digits_value(cs@.subrange(j as int, k as int)) && digits_value(cs@.subrange(j as int, k as int)) <= i64::MAX,
            None => digits_value(cs@.subrange(j as int, k as int)) > i64::MAX,
        },
{
    let mut v: u128 = 0;
    let mut over = false;
    let mut q = j;
    assert(cs@.subrange(j as int, j as int) =~= Seq::<char>::empty());
    while q < k
        invariant
            j <= q <= k <= cs.len(),
            forall|p: int| j <= p < k ==> is_digit(#[trigger] cs@[p]),
            !over ==> v == digits_value(cs@.subrange(j as int, q as int)) && v <= i64::MAX,
            over ==> digits_value(cs@.subrange(j as int, q as int)) > i64::MAX,
        decreases k - q,
    {
        let d = (cs[q] as u32 - '0' as u32) as u128;
        proof {
            assert(cs@.subrange(j as int, q + 1).drop_last() =~= cs@.subrange(j as int, q as int));
            assert(cs@.subrange(j as int, q + 1).last() == cs@[q as int]);
            assert(is_digit(cs@[q as int]));
        }
        if !over {
            assert(v * 10 <= 92233720368547758070) by (nonlinear_arith)
                requires v <= 9223372036854775807u128;
            let nv = v * 10 + d;
            if nv > 9223372036854775807u128 {
                over = true;
            } else {
                v = nv;
            }
        } else {
            let ghost pv = digits_value(cs@.subrange(j as int, q as int));
            assert(pv * 10 >= pv) by (nonlinear_arith)
                requires pv >= 0;
        }
        q = q + 1;
    }
    if over {
        None
    } else {
        Some(v as i64)
    }
}

fn push_hex(s: &mut String, n: u32)
    ensures
        final(s)@ == old(s)@ + hex_digits(n as nat),
    decreases n,
{
    if n >= 16 {
        push_hex(s, n / 16);
    }
    let d = n % 16;
    let c = if d < 10 {
        crate::text::digit_of_exec(d as u64)
    } else if d == 10 { 'a' } else if d == 11 { 'b' } else if d == 12 { 'c' } else if d == 13 { 'd' } else if d == 14 { 'e' } else { 'f' };
    push_char(s, c);
}

fn escape_default(c: char) -> (r: String)
    ensures
        r@ == escape_default_v(c),
{
    let mut s = String::new();
    if c == '\t' {
        push_str(&mut s, "\\t");
    } else if c == '\r' {
        push_str(&mut s, "\\r");
    } else if c == '\n' {
        push_str(&mut s, "\\n");
    } else if c == '\'' {
        push_str(&mut s, "\\'");
    } else if c == '"' {
        push_str(&mut s, "\\\"");
    } else if c == '\\' {
        push_str(&mut s, "\\\\");
    } else if 0x20 <= (c as u32) && (c as u32) <= 0x7e {
        push_char(&mut s, c);
    } else {
        push_str(&mut s, "\\u{");
        push_hex(&mut s, c as u32);
        push_char(&mut s, '}');
    }
    proof {
        reveal_strlit("\\t");
        reveal_strlit("\\r");
        reveal_strlit("\\n");
        reveal_strlit("\\'");
        reveal_strlit("\\\"");
        reveal_strlit("\\\\");
        reveal_strlit("\\u{");
    }
    assert(s@ =~= escape_default_v(c));
    s
}

fn punct_exec(c: char) -> (r: Option<TokenKind>)
    ensures
        match punct(c) {
            Some(k) => r is Some && r->0@ == k,
            None => r is None,
        },
{
    if c == '(' { Some(TokenKind::LParen) }
    else if c == ')' { Some(TokenKind::RParen) }
    else if c == ',' { Some(TokenKind::Comma) }
    else if c == ';' { Some(TokenKind::Semi) }
    else if c == ':' { Some(TokenKind::Colon) }
    else if c == '=' { Some(TokenKind::Eq) }
    else if c == '!' { Some(TokenKind::Bang) }
    else if c == '@' { Some(TokenKind::At) }
    else if c == '/' { Some(TokenKind::Slash) }
    else { None }
}

pub open spec fn opt_tok_v(o: Option<Token>) -> Option<TokV> {
    match o {
        Some(t) => Some(t@),
        None => None,
    }
}

pub open spec fn opt_diag_v(o: Option<Diagnostic>) -> Option<DiagV> {
    match o {
        Some(d) => Some(diag_view(d)),
        None => None,
    }
}

fn make_tok(kind: TokenKind, cs: &Vec<char>, j: usize, bj: usize, k: usize, total: usize) -> (r: Token)
    requires
        j <= k <= cs.len(),
        bj == bpos(cs@, j as int),
        total == bpos(cs@, cs.len() as int),
    ensures
        r@ == tok(kind@, cs@, j as int, k as int),
{
    let bk = byte_at(cs, j, bj, k, total);
    Token { kind, span: Span { start: bj, end: bk } }
}

fn make_err(code: &'static str, cs: &Vec<char>, j: usize, bj: usize, k: usize, total: usize, message: String) -> (r: Diagnostic)
    requires
        j <= k <= cs.len(),
        bj == bpos(cs@, j as int),
        total == bpos(cs@, cs.len() as int),
    ensures
        diag_view(r) == err(code@, cs@, j as int, k as int, message@),
{
    let bk = byte_at(cs, j, bj, k, total);
    Diagnostic { severity: Severity::Error, code, span: Span { start: bj, end: bk }, message }
}

/// One lexing step at the non-blank position `j` (see `step_v`).
fn step(cs: &Vec<char>, j: usize, bj: usize, total: usize) -> (r: (Option<Token>, Option<Diagnostic>, usize))
    requires
        j < cs.len(),
        bj == bpos(cs@, j as int),
        total == bpos(cs@, cs.len() as int),
    ensures
        (opt_tok_v(r.0), opt_diag_v(r.1), r.2 as int) == step_v(cs@, j as int),
{
    proof {
        lemma_step_advances(cs@, j as int);
        lemma_scan_str(cs@, j + 1);
    }
    let c = cs[j];
    let next: Option<char> = if j + 1 < cs.len() { Some(cs[j + 1]) } else { None };
    match punct_exec(c) {
        Some(kind) => {
            return (Some(make_tok(kind, cs, j, bj, j + 1, total)), None, j + 1);
        },
        None => {},
    }
    if c == '<' {
        if next == Some('=') {
            (Some(make_tok(TokenKind::Le, cs, j, bj, j + 2, total)), None, j + 2)
        } else {
            (Some(make_tok(TokenKind::Lt, cs, j, bj, j + 1, total)), None, j + 1)
        }
    } else if c == '-' {
        if next == Some('>') {
            (Some(make_tok(TokenKind::Arrow, cs, j, bj, j + 2, total)), None, j + 2)
        } else {
            (None, Some(make_err("E001", cs, j, bj, j + 1, total, owned("unexpected token `-`, expected `->`"))), j + 1)
        }
    } else if c == '.' {
        if next == Some('.') {
            (Some(make_tok(TokenKind::DotDot, cs, j, bj, j + 2, total)), None, j + 2)
        } else {
            (Some(make_tok(TokenKind::Dot, cs, j, bj, j + 1, total)), None, j + 1)
        }
    } else if c == '"' {
        let (text, end, closed) = scan_string(cs, j + 1);
        if closed {
            (Some(make_tok(TokenKind::Str(text), cs, j, bj, end, total)), None, end)
        } else {
            (None, Some(make_err("E002", cs, j, bj, end, total, owned("unterminated string literal"))), end)
        }
    } else if '0' <= c && c <= '9' {
        let k = run_to(cs, j, true);
        proof {
            assert forall|q: int| j <= q < k implies is_digit(#[trigger] cs@[q]) by {
                lemma_run_end_all(cs@, j as int, true, q);
            }
        }
        match digits_to_i64(cs, j, k) {
            Some(v) => (Some(make_tok(TokenKind::Int(v), cs, j, bj, k, total)), None, k),
            None => (None, Some(make_err("E003", cs, j, bj, k, total, owned("integer literal out of range"))), k),
        }
    } else if ('a' <= c && c <= 'z') || ('A' <= c && c <= 'Z') || c == '_' {
        let k = run_to(cs, j, false);
        let text = crate::text::string_of_range(cs, j, k);
        (Some(make_tok(TokenKind::Ident(text), cs, j, bj, k, total)), None, k)
    } else {
        let mut m = owned("unexpected token `");
        let e = escape_default(c);
        push_str(&mut m, e.as_str());
        push_str(&mut m, "`");
        (None, Some(make_err("E001", cs, j, bj, j + 1, total, m)), j + 1)
    }
}

proof fn lemma_run_end_all(cs: Seq<char>, k: int, digits: bool, q: int)
    requires
        0 <= k <= q < run_end(cs, k, digits),
        run_end(cs, k, digits) <= cs.len(),
    ensures
        (digits && is_digit(cs[q])) || (!digits && is_ident_char(cs[q])),
    decreases q - k,
{
    if k < q {
        lemma_run_end_all(cs, k + 1, digits, q);
    }
}

impl<'a> Lexer<'a> {
    /// A lexer at the start of `src`.
    pub fn new(src: &'a str) -> (r: Self)
        ensures
            r.wf(),
            r.source() == src@,
            r.fresh(),
    {
        let chars = chars_of(src);
        let total = src.as_bytes().len();
        proof {
            assert(chars@.take(chars@.len() as int) =~= chars@);
            assert(chars@.take(0) =~= Seq::<char>::empty());
            assert(encode_utf8(Seq::<char>::empty()) =~= Seq::<u8>::empty());
        }
        Lexer { src, chars, pos: 0, byte_pos: 0, total, tokens: Vec::new(), diagnostics: Vec::new() }
    }

    /// The characters being lexed.
    pub closed spec fn source(&self) -> Seq<char> {
        self.chars@
    }

    /// Nothing lexed yet.
    pub closed spec fn fresh(&self) -> bool {
        &&& self.pos == 0
        &&& self.tokens@.len() == 0
        &&& self.diagnostics@.len() == 0
    }

    pub closed spec fn wf(&self) -> bool {
        &&& self.pos <= self.chars@.len()
        &&& self.byte_pos == bpos(self.chars@, self.pos as int)
        &&& self.total == bpos(self.chars@, self.chars@.len() as int)
    }

    /// Tokenizes the source text: the tokens, ending with `Eof`, and the
    /// diagnostics (see `lex_v`).
    pub fn tokenize(src: &str) -> (r: (Vec<Token>, Vec<Diagnostic>))
        ensures
            toks_v(r.0@) == lex_v(src@).0,
            diags_v(r.1@) == lex_v(src@).1,
            r.0.len() > 0,
            r.0@.last().kind@ == KindV::Eof,
            r.0@.last().span.start == src.len(),
            r.0@.last().span.end == src.len(),
            forall|k: int| 0 <= k < r.0.len() ==> (#[trigger] r.0@[k]).span.start <= r.0@[k].span.end <= src.len(),
            forall|k: int| 0 <= k < r.0.len() - 1 ==> (#[trigger] r.0@[k]).span.start < r.0@[k].span.end,
            forall|k: int| 0 <= k < r.0.len() - 1 ==> (#[trigger] r.0@[k]).span.end <= r.0@[k + 1].span.start,
    {
        let mut lexer = Lexer::new(src);
        assert(toks_v(lexer.tokens@) =~= Seq::<TokV>::empty());
        assert(diags_v(lexer.diagnostics@) =~= Seq::<DiagV>::empty());
        lexer.run();
        proof {
            lemma_lex_ends_eof(src@, 0);
            lemma_lex_spans(src@, 0);
            assert(src@.take(src@.len() as int) =~= src@);
            assert(bpos(src@, src@.len() as int) == src.len());
            let tv = toks_v(lexer.tokens@);
            assert(tv.len() == lexer.tokens@.len());
            assert(tv.last() == lexer.tokens@.last()@);
            let lt = lex_from(src@, 0).0;
            assert(tv == lt);
            assert forall|k: int| 0 <= k < lexer.tokens@.len() implies (#[trigger] lexer.tokens@[k]).span.start <= lexer.tokens@[k].span.end <= src.len() by {
                assert(lexer.tokens@[k]@ == lt[k]);
            }
            assert forall|k: int| 0 <= k < lexer.tokens@.len() - 1 implies (#[trigger] lexer.tokens@[k]).span.start < lexer.tokens@[k].span.end by {
                assert(lexer.tokens@[k]@ == lt[k]);
            }
            assert forall|k: int| 0 <= k < lexer.tokens@.len() - 1 implies (#[trigger] lexer.tokens@[k]).span.end <= lexer.tokens@[k + 1].span.start by {
                assert(lexer.tokens@[k]@ == lt[k]);
                assert(lexer.tokens@[k + 1]@ == lt[k + 1]);
            }
        }
        (lexer.tokens, lexer.diagnostics)
    }

    fn run(&mut self)
        requires
            old(self).wf(),
        ensures
            toks_v(final(self).tokens@) == toks_v(old(self).tokens@) + lex_from(old(self).chars@, old(self).pos as int).0,
            diags_v(final(self).diagnostics@) == diags_v(old(self).diagnostics@) + lex_from(old(self).chars@, old(self).pos as int).1,
    {
        let ghost cs = self.chars@;
        let ghost t0 = toks_v(self.tokens@);
        let ghost d0 = diags_v(self.diagnostics@);
        let ghost p0 = self.pos as int;
        loop
            invariant
                self.wf(),
                self.chars@ == cs,
                cs == old(self).chars@,
                t0 == toks_v(old(self).tokens@),
                d0 == diags_v(old(self).diagnostics@),
                p0 == old(self).pos as int,
                p0 <= self.pos,
                t0 + lex_from(cs, p0).0 == toks_v(self.tokens@) + lex_from(cs, self.pos as int).0,
                d0 + lex_from(cs, p0).1 == diags_v(self.diagnostics@) + lex_from(cs, self.pos as int).1,
            ensures
                toks_v(self.tokens@) == t0 + lex_from(cs, p0).0,
                diags_v(self.diagnostics@) == d0 + lex_from(cs, p0).1,
            decreases cs.len() - self.pos,
        {
            let j = skip_blank(&self.chars, self.pos);
            proof {
                lemma_bpos_mono(cs, self.pos as int, j as int);
                lemma_bpos_mono(cs, j as int, cs.len() as int);
            }
            let bj = byte_at(&self.chars, self.pos, self.byte_pos, j, self.total);
            if j >= self.chars.len() {
                let ghost before = toks_v(self.tokens@);
                let t = Token { kind: TokenKind::Eof, span: Span { start: bj, end: bj } };
                self.tokens.push(t);
                assert(toks_v(self.tokens@) =~= before.push(tok(KindV::Eof, cs, j as int, j as int)));
                assert(lex_from(cs, self.pos as int).0 == seq![tok(KindV::Eof, cs, j as int, j as int)]);
                assert(toks_v(self.tokens@) =~= before + lex_from(cs, self.pos as int).0);
                assert(diags_v(self.diagnostics@) + lex_from(cs, self.pos as int).1 =~= diags_v(self.diagnostics@));
                self.pos = j;
                self.byte_pos = bj;
                return;
            }
            let (t, d, next) = step(&self.chars, j, bj, self.total);
            proof {
                lemma_step_advances(cs, j as int);
                lemma_bpos_mono(cs, next as int, cs.len() as int);
            }
            let ghost tb = toks_v(self.tokens@);
            let ghost db = diags_v(self.diagnostics@);
            match t {
                Some(tk) => {
                    self.tokens.push(tk);
                },
                None => {},
            }
            match d {
                Some(dg) => {
                    self.diagnostics.push(dg);
                },
                None => {},
            }
            proof {
                assert(toks_v(self.tokens@) =~= tb + opt_seq(step_v(cs, j as int).0));
                assert(diags_v(self.diagnostics@) =~= db + opt_seq(step_v(cs, j as int).1));
                assert(tb + lex_from(cs, self.pos as int).0 =~= toks_v(self.tokens@) + lex_from(cs, next as int).0);
                assert(db + lex_from(cs, self.pos as int).1 =~= diags_v(self.diagnostics@) + lex_from(cs, next as int).1);
            }
            let bn = byte_at(&self.chars, j, bj, next, self.total);
            self.pos = next;
            self.byte_pos = bn;
        }
    }
}
/// The tokens of any text are not empty and end with `Eof`.
pub proof fn lemma_lex_ends_eof(cs: Seq<char>, i: int)
    ensures
        lex_from(cs, i).0.len() > 0,
        lex_from(cs, i).0.last().kind == KindV::Eof,
    decreases cs.len() - i,
{
    let j = skip_ws(cs, i);
    if i < 0 || j >= cs.len() || j < i {
    } else {
        let s = step_v(cs, j);
        lemma_step_advances(cs, j);
        if s.2 <= j {
        } else {
            lemma_lex_ends_eof(cs, s.2);
            let r = lex_from(cs, s.2);
            assert((opt_seq(s.0) + r.0).last() == r.0.last());
        }
    }
}


/// The stream laws of lexing: the only `Eof` is the last token, and
/// every diagnostic is an error with code `E001`, `E002` or `E003`.
pub proof fn lemma_lex_stream(cs: Seq<char>, i: int)
    ensures
        forall|k: int| 0 <= k < lex_from(cs, i).0.len() - 1 ==> !((#[trigger] lex_from(cs, i).0[k]).kind is Eof),
        forall|k: int| 0 <= k < lex_from(cs, i).1.len() ==> {
            let d = #[trigger] lex_from(cs, i).1[k];
            &&& d.severity == Severity::Error
            &&& (d.code == "E001"@ || d.code == "E002"@ || d.code == "E003"@)
        },
    decreases cs.len() - i,
{
    let j = skip_ws(cs, i);
    if i < 0 || j >= cs.len() || j < i {
    } else {
        let s = step_v(cs, j);
        lemma_step_advances(cs, j);
        if s.2 <= j {
        } else {
            lemma_lex_stream(cs, s.2);
            lemma_lex_ends_eof(cs, s.2);
            let r = lex_from(cs, s.2);
            let ts = opt_seq(s.0) + r.0;
            let ds = opt_seq(s.1) + r.1;
            assert(s.0 is Some ==> !(s.0->0.kind is Eof));
            assert forall|k: int| 0 <= k < ts.len() - 1 implies !((#[trigger] ts[k]).kind is Eof) by {
                if s.0 is Some && k == 0 {
                } else {
                    let o = opt_seq(s.0).len() as int;
                    assert(ts[k] == r.0[k - o]);
                }
            }
            assert forall|k: int| 0 <= k < ds.len() implies {
                let d = #[trigger] ds[k];
                &&& d.severity == Severity::Error
                &&& (d.code == "E001"@ || d.code == "E002"@ || d.code == "E003"@)
            } by {
                if s.1 is Some && k == 0 {
                } else {
                    let o = opt_seq(s.1).len() as int;
                    assert(ds[k] == r.1[k - o]);
                }
            }
        }
    }
}


proof fn lemma_skip_ws(cs: Seq<char>, i: int)
    requires
        0 <= i <= cs.len(),
    ensures
        i <= skip_ws(cs, i) <= cs.len(),
    decreases cs.len() - i,
{
    if i < cs.len() {
        if cs[i] == '#' {
            lemma_comment_end(cs, i + 1);
            lemma_skip_ws(cs, comment_end(cs, i + 1));
        } else if is_ws(cs[i]) {
            lemma_skip_ws(cs, i + 1);
        }
    }
}

proof fn lemma_bpos_strict(cs: Seq<char>, i: int, k: int)
    requires
        0 <= i < k <= cs.len(),
    ensures
        bpos(cs, i) < bpos(cs, k),
{
    lemma_bpos_step(cs, i);
    lemma_bpos_mono(cs, i + 1, k);
}

/// A token made by a step spans exactly from the step's position to the
/// position after it.
proof fn lemma_step_token(cs: Seq<char>, j: int)
    requires
        0 <= j < cs.len(),
        step_v(cs, j).0 is Some,
    ensures
        step_v(cs, j).0->0.start == bpos(cs, j),
        step_v(cs, j).0->0.end == bpos(cs, step_v(cs, j).2),
{
}

/// The spans of lexing from `i`: every token lies between `bpos(cs, i)`
/// and the end of the text; every token but the last covers at least
/// one byte and ends at or before the next one starts; the last token
/// (`Eof`) is the empty span at the end of the text.
#[verifier::rlimit(40)]
#[verifier::spinoff_prover]
pub proof fn lemma_lex_spans(cs: Seq<char>, i: int)
    requires
        0 <= i <= cs.len(),
    ensures
        lex_from(cs, i).0.last().start == bpos(cs, cs.len() as int),
        lex_from(cs, i).0.last().end == bpos(cs, cs.len() as int),
        forall|k: int| 0 <= k < lex_from(cs, i).0.len() ==> {
            let t = #[trigger] lex_from(cs, i).0[k];
            bpos(cs, i) <= t.start <= t.end <= bpos(cs, cs.len() as int)
        },
        forall|k: int| 0 <= k < lex_from(cs, i).0.len() - 1 ==> (#[trigger] lex_from(cs, i).0[k]).start < lex_from(cs, i).0[k].end,
        forall|k: int| 0 <= k < lex_from(cs, i).0.len() - 1 ==> (#[trigger] lex_from(cs, i).0[k]).end <= lex_from(cs, i).0[k + 1].start,
    decreases cs.len() - i,
{
    lemma_skip_ws(cs, i);
    lemma_lex_ends_eof(cs, i);
    let j = skip_ws(cs, i);
    lemma_bpos_mono(cs, i, j);
    lemma_bpos_mono(cs, j, cs.len() as int);
    if j >= cs.len() {
        assert(j == cs.len());
    } else {
        let s = step_v(cs, j);
        lemma_step_advances(cs, j);
        lemma_lex_spans(cs, s.2);
        lemma_lex_ends_eof(cs, s.2);
        lemma_bpos_mono(cs, i, s.2);
        let r = lex_from(cs, s.2);
        let ts = opt_seq(s.0) + r.0;
        assert(lex_from(cs, i).0 == ts);
        let o = opt_seq(s.0).len() as int;
        assert(ts.last() == r.0.last());
        if s.0 is Some {
            lemma_step_token(cs, j);
            lemma_bpos_strict(cs, j, s.2);
            assert(ts[0] == s.0->0);
        }
        assert forall|k: int| 0 <= k < ts.len() implies {
            let t = #[trigger] ts[k];
            bpos(cs, i) <= t.start <= t.end <= bpos(cs, cs.len() as int)
        } by {
            if k >= o {
                assert(ts[k] == r.0[k - o]);
            }
        }
        assert forall|k: int| 0 <= k < ts.len() - 1 implies (#[trigger] ts[k]).start < ts[k].end by {
            if k >= o {
                assert(ts[k] == r.0[k - o]);
            }
        }
        assert forall|k: int| 0 <= k < ts.len() - 1 implies (#[trigger] ts[k]).end <= ts[k + 1].start by {
            assert(ts[k + 1] == r.0[k + 1 - o]);
            if k >= o {
                assert(ts[k] == r.0[k - o]);
            }
        }
    }
}

} // verus!
