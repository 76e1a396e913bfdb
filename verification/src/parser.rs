//! The recursive-descent parser of the `.gym` surface language. Every
//! parse function either succeeds, having consumed at least one token,
//! or fails having reported at least one error; diagnostics are only
//! ever appended; and every loop makes progress or stops.
use vstd::prelude::*;
use crate::ast::{AcceptanceBlock, AcceptanceDecl, ActorDecl, ApplicationDecl, BehaviorDecl, Clause, CmpOp, ComponentDecl, ConstraintDecl, Decl, Expr, Field, File, FlowDecl, Ident, InterfaceDecl, InvariantDecl, ModeDecl, ModeExpr, OpDecl, OpKind, Pack, PackItem, PackValue, Pred, SpecDecl, StateDecl, SynthesisDecl, UseDecl};
use crate::diag::{Diagnostic, Severity};
use crate::lexer::{DiagV, KindV, Lexer, Token, TokenKind, TokV, diags_v, lex_from, lex_v, toks_v};
use crate::span::Span;
use crate::text::{i64_to_string, owned, push_i64_decimal, push_str, str_eq, int_decimal};

verus! {

/// The text of a keyword that starts a top-level declaration.
pub open spec fn decl_keyword(t: Seq<char>) -> bool {
    t == "use"@ || t == "application"@ || t == "actor"@ || t == "mode"@ || t == "component"@ || t == "interface"@
        || t == "state"@ || t == "flow"@ || t == "behavior"@ || t == "inv"@ || t == "constraint"@ || t == "synthesis"@
        || t == "acceptance"@
}

/// The text of a keyword that starts a behavior clause.
pub open spec fn clause_keyword(t: Seq<char>) -> bool {
    t == "requires"@ || t == "ensures"@ || t == "returns"@ || t == "fails"@ || t == "emits"@
}

/// The text of a keyword that starts an acceptance block.
pub open spec fn block_keyword(t: Seq<char>) -> bool {
    t == "property"@ || t == "scenario"@ || t == "concurrency"@ || t == "fault"@ || t == "coverage"@ || t == "execution"@
}

/// Two kinds match: identifiers by their text, every other kind by
/// variant alone.
pub open spec fn same_kind(a: KindV, b: KindV) -> bool {
    match (a, b) {
        (KindV::Ident(x), KindV::Ident(y)) => x == y,
        (KindV::Int(_), KindV::Int(_)) => true,
        (KindV::Str(_), KindV::Str(_)) => true,
        (KindV::LParen, KindV::LParen) => true,
        (KindV::RParen, KindV::RParen) => true,
        (KindV::Comma, KindV::Comma) => true,
        (KindV::Semi, KindV::Semi) => true,
        (KindV::Colon, KindV::Colon) => true,
        (KindV::Eq, KindV::Eq) => true,
        (KindV::Bang, KindV::Bang) => true,
        (KindV::Dot, KindV::Dot) => true,
        (KindV::At, KindV::At) => true,
        (KindV::Slash, KindV::Slash) => true,
        (KindV::Lt, KindV::Lt) => true,
        (KindV::Le, KindV::Le) => true,
        (KindV::Arrow, KindV::Arrow) => true,
        (KindV::DotDot, KindV::DotDot) => true,
        (KindV::Eof, KindV::Eof) => true,
        _ => false,
    }
}

/// How a token is shown in a message.
pub open spec fn display_v(k: KindV) -> Seq<char> {
    match k {
        KindV::Ident(s) => s,
        KindV::Int(i) => int_decimal(i),
        KindV::Str(s) => "\""@ + s + "\""@,
        KindV::LParen => "("@,
        KindV::RParen => ")"@,
        KindV::Comma => ","@,
        KindV::Semi => ";"@,
        KindV::Colon => ":"@,
        KindV::Eq => "="@,
        KindV::Bang => "!"@,
        KindV::Dot => "."@,
        KindV::At => "@"@,
        KindV::Slash => "/"@,
        KindV::Lt => "<"@,
        KindV::Le => "<="@,
        KindV::Arrow => "->"@,
        KindV::DotDot => ".."@,
        KindV::Eof => "EOF"@,
    }
}

/// Whether `actual` matches `expected` (see `same_kind`).
fn match_token(actual: &TokenKind, expected: &TokenKind) -> (r: bool)
    ensures
        r == same_kind(actual@, expected@),
{
    match (actual, expected) {
        (TokenKind::Ident(a), TokenKind::Ident(b)) => str_eq(a.as_str(), b.as_str()),
        (TokenKind::Int(_), TokenKind::Int(_)) => true,
        (TokenKind::Str(_), TokenKind::Str(_)) => true,
        (TokenKind::LParen, TokenKind::LParen) => true,
        (TokenKind::RParen, TokenKind::RParen) => true,
        (TokenKind::Comma, TokenKind::Comma) => true,
        (TokenKind::Semi, TokenKind::Semi) => true,
        (TokenKind::Colon, TokenKind::Colon) => true,
        (TokenKind::Eq, TokenKind::Eq) => true,
        (TokenKind::Bang, TokenKind::Bang) => true,
        (TokenKind::Dot, TokenKind::Dot) => true,
        (TokenKind::At, TokenKind::At) => true,
        (TokenKind::Slash, TokenKind::Slash) => true,
        (TokenKind::Lt, TokenKind::Lt) => true,
        (TokenKind::Le, TokenKind::Le) => true,
        (TokenKind::Arrow, TokenKind::Arrow) => true,
        (TokenKind::DotDot, TokenKind::DotDot) => true,
        (TokenKind::Eof, TokenKind::Eof) => true,
        _ => false,
    }
}


// ===================================================================
// The expression and predicate grammars, over token values.
// ===================================================================

pub struct IdentV {
    pub text: Seq<char>,
    pub start: int,
    pub end: int,
}

pub open spec fn ident_v(i: Ident) -> IdentV {
    IdentV { text: i.text@, start: i.span.start as int, end: i.span.end as int }
}

pub open spec fn idents_v(is: Seq<Ident>) -> Seq<IdentV> {
    is.map_values(|i: Ident| ident_v(i))
}

pub enum ExprV {
    Int(int),
    Str(Seq<char>),
    Path(Seq<IdentV>),
    Call(IdentV, Seq<ExprV>),
}

pub open spec fn expr_v(e: Expr) -> ExprV
    decreases e,
{
    match e {
        Expr::Int(i) => ExprV::Int(i as int),
        Expr::Str(t) => ExprV::Str(t@),
        Expr::Path(p) => ExprV::Path(idents_v(p@)),
        Expr::Call { name, args } => ExprV::Call(ident_v(name), exprs_v(args@)),
    }
}

pub open spec fn exprs_v(es: Seq<Expr>) -> Seq<ExprV>
    decreases es,
{
    if es.len() == 0 {
        Seq::empty()
    } else {
        proof {
            assert(decreases_to!(es => es[es.len() - 1]));
        }
        exprs_v(es.drop_last()).push(expr_v(es.last()))
    }
}

pub enum PredV {
    And(Box<PredV>, Box<PredV>),
    Or(Box<PredV>, Box<PredV>),
    Not(Box<PredV>),
    Cmp(CmpOp, ExprV, ExprV),
    ForAll(IdentV, IdentV, Box<PredV>),
    Exists(IdentV, IdentV, Box<PredV>),
    Call(IdentV, Seq<ExprV>),
    Word(IdentV),
}

pub open spec fn pred_v(p: Pred) -> PredV
    decreases p,
{
    match p {
        Pred::And(a, b) => PredV::And(Box::new(pred_v(*a)), Box::new(pred_v(*b))),
        Pred::Or(a, b) => PredV::Or(Box::new(pred_v(*a)), Box::new(pred_v(*b))),
        Pred::Not(a) => PredV::Not(Box::new(pred_v(*a))),
        Pred::Cmp { op, lhs, rhs } => PredV::Cmp(op, expr_v(lhs), expr_v(rhs)),
        Pred::ForAll { mode, var, body } => PredV::ForAll(ident_v(mode), ident_v(var), Box::new(pred_v(*body))),
        Pred::Exists { mode, var, body } => PredV::Exists(ident_v(mode), ident_v(var), Box::new(pred_v(*body))),
        Pred::Call { name, args } => PredV::Call(ident_v(name), exprs_v(args@)),
        Pred::Word(w) => PredV::Word(ident_v(w)),
    }
}


// ---- mode expressions ----

pub enum ModeV {
    Opaque(Box<ModeV>),
    Enum(Seq<IdentV>),
    Union(Seq<(IdentV, ModeV)>),
    Struct(Seq<(ModeV, IdentV)>),
    Opt(Box<ModeV>),
    Row(Box<ModeV>),
    Named(IdentV, Seq<ModeV>),
    Refined(IdentV, Option<int>, Option<int>),
}

pub open spec fn opt_int(o: Option<i64>) -> Option<int> {
    match o {
        Some(i) => Some(i as int),
        None => None,
    }
}

pub open spec fn mode_v(m: ModeExpr) -> ModeV
    decreases m,
{
    match m {
        ModeExpr::Opaque(b) => ModeV::Opaque(Box::new(mode_v(*b))),
        ModeExpr::Enum(vs) => ModeV::Enum(idents_v(vs@)),
        ModeExpr::Union(vs) => ModeV::Union(variants_v(vs@)),
        ModeExpr::Struct(fs) => ModeV::Struct(fields_v(fs@)),
        ModeExpr::Opt(b) => ModeV::Opt(Box::new(mode_v(*b))),
        ModeExpr::Row(b) => ModeV::Row(Box::new(mode_v(*b))),
        ModeExpr::Named { name, args } => ModeV::Named(ident_v(name), modes_v(args@)),
        ModeExpr::Refined { name, lo, hi } => ModeV::Refined(ident_v(name), opt_int(lo), opt_int(hi)),
    }
}

pub open spec fn modes_v(ms: Seq<ModeExpr>) -> Seq<ModeV>
    decreases ms,
{
    if ms.len() == 0 {
        Seq::empty()
    } else {
        proof {
            assert(decreases_to!(ms => ms[ms.len() - 1]));
        }
        modes_v(ms.drop_last()).push(mode_v(ms.last()))
    }
}

pub open spec fn fields_v(fs: Seq<Field>) -> Seq<(ModeV, IdentV)>
    decreases fs,
{
    if fs.len() == 0 {
        Seq::empty()
    } else {
        proof {
            assert(decreases_to!(fs => fs[fs.len() - 1]));
            assert(decreases_to!(fs[fs.len() - 1] => fs[fs.len() - 1].mode));
        }
        fields_v(fs.drop_last()).push((mode_v(fs.last().mode), ident_v(fs.last().name)))
    }
}

pub open spec fn variants_v(vs: Seq<(Ident, ModeExpr)>) -> Seq<(IdentV, ModeV)>
    decreases vs,
{
    if vs.len() == 0 {
        Seq::empty()
    } else {
        proof {
            assert(decreases_to!(vs => vs[vs.len() - 1]));
            assert(decreases_to!(vs[vs.len() - 1] => vs[vs.len() - 1].1));
        }
        variants_v(vs.drop_last()).push((ident_v(vs.last().0), mode_v(vs.last().1)))
    }
}

/// The token at `p`; past either end, an `Eof` carrying the span of the
/// last token.
pub open spec fn tk(ts: Seq<TokV>, p: int) -> TokV {
    if 0 <= p < ts.len() {
        ts[p]
    } else if ts.len() > 0 {
        TokV { kind: KindV::Eof, start: ts.last().start, end: ts.last().end }
    } else {
        TokV { kind: KindV::Eof, start: 0, end: 0 }
    }
}

/// The identifier at `p`, if the token there is one.
pub open spec fn ident_at(ts: Seq<TokV>, p: int) -> Option<IdentV> {
    let t = tk(ts, p);
    match t.kind {
        KindV::Ident(x) => Some(IdentV { text: x, start: t.start, end: t.end }),
        _ => None,
    }
}

pub open spec fn is_word(ts: Seq<TokV>, p: int, w: Seq<char>) -> bool {
    tk(ts, p).kind == KindV::Ident(w)
}

/// `.x.y...` from `q`, appended to `acc`: the path and the position
/// after it, or `None` when a `.` is not followed by an identifier.
pub open spec fn path_from(ts: Seq<TokV>, q: int, acc: Seq<IdentV>) -> Option<(Seq<IdentV>, int)>
    decreases ts.len() - q,
{
    if tk(ts, q).kind is Dot {
        match ident_at(ts, q + 1) {
            Some(i) => path_from(ts, q + 2, acc.push(i)),
            None => None,
        }
    } else {
        Some((acc, q))
    }
}

/// An expression at `p`: an integer, a string, a dotted path, or a call
/// `name(e, ...)`; with the position after it.
pub open spec fn expr_at(ts: Seq<TokV>, p: int) -> Option<(ExprV, int)>
    decreases ts.len() - p, 0nat,
{
    let t = tk(ts, p);
    match t.kind {
        KindV::Int(v) => Some((ExprV::Int(v), p + 1)),
        KindV::Str(x) => Some((ExprV::Str(x), p + 1)),
        KindV::Ident(x) => {
            let first = IdentV { text: x, start: t.start, end: t.end };
            if tk(ts, p + 1).kind is Dot {
                match path_from(ts, p + 1, seq![first]) {
                    Some((path, e)) => Some((ExprV::Path(path), e)),
                    None => None,
                }
            } else if tk(ts, p + 1).kind is LParen {
                if tk(ts, p + 2).kind is RParen {
                    Some((ExprV::Call(first, Seq::empty()), p + 3))
                } else {
                    match args_from(ts, p + 2, Seq::empty()) {
                        Some((args, e)) => if tk(ts, e).kind is RParen {
                            Some((ExprV::Call(first, args), e + 1))
                        } else {
                            None
                        },
                        None => None,
                    }
                }
            } else {
                Some((ExprV::Path(seq![first]), p + 1))
            }
        },
        _ => None,
    }
}

/// Comma-separated expressions from `p`, appended to `acc`.
pub open spec fn args_from(ts: Seq<TokV>, p: int, acc: Seq<ExprV>) -> Option<(Seq<ExprV>, int)>
    decreases ts.len() - p, 1nat,
{
    if p < 0 || p > ts.len() {
        None
    } else {
        match expr_at(ts, p) {
            None => None,
            Some((e, q)) => if q <= p || q > ts.len() {
                None
            } else if tk(ts, q).kind is Comma {
                args_from(ts, q + 1, acc.push(e))
            } else {
                Some((acc.push(e), q))
            },
        }
    }
}


/// The `Int` at `p`, if the token there is one.
pub open spec fn int_at(ts: Seq<TokV>, p: int) -> Option<int> {
    match tk(ts, p).kind {
        KindV::Int(v) => Some(v),
        _ => None,
    }
}

/// A mode expression at `p`, with the position after it: `opaque m`,
/// `opt m`, `enum (a, ...)`, `union (tag m, ...)`, `struct (m name,
/// ...)` or `(m name, ...)`, `name(lo..hi)`, `name(..hi)`, `name..hi`,
/// or `name[(m, ...)]`. In `name(Int ...)` with no `..` after the
/// integer, the integer is passed over and the arguments follow it.
pub open spec fn mode_at(ts: Seq<TokV>, p: int) -> Option<(ModeV, int)>
    decreases ts.len() - p, 0nat,
{
    if p < 0 || p > ts.len() {
        None
    } else if is_word(ts, p, "opaque"@) {
        match mode_at(ts, p + 1) {
            Some((m, e)) => Some((ModeV::Opaque(Box::new(m)), e)),
            None => None,
        }
    } else if is_word(ts, p, "opt"@) {
        match mode_at(ts, p + 1) {
            Some((m, e)) => Some((ModeV::Opt(Box::new(m)), e)),
            None => None,
        }
    } else if is_word(ts, p, "enum"@) {
        if !(tk(ts, p + 1).kind is LParen) {
            None
        } else if tk(ts, p + 2).kind is RParen {
            Some((ModeV::Enum(Seq::empty()), p + 3))
        } else {
            match enum_items(ts, p + 2, Seq::empty()) {
                Some((vs, e)) => if tk(ts, e).kind is RParen { Some((ModeV::Enum(vs), e + 1)) } else { None },
                None => None,
            }
        }
    } else if is_word(ts, p, "union"@) {
        if !(tk(ts, p + 1).kind is LParen) {
            None
        } else if tk(ts, p + 2).kind is RParen {
            Some((ModeV::Union(Seq::empty()), p + 3))
        } else {
            match union_items(ts, p + 2, Seq::empty()) {
                Some((vs, e)) => if tk(ts, e).kind is RParen { Some((ModeV::Union(vs), e + 1)) } else { None },
                None => None,
            }
        }
    } else if is_word(ts, p, "struct"@) || tk(ts, p).kind is LParen {
        let b = if is_word(ts, p, "struct"@) { p + 2 } else { p + 1 };
        if is_word(ts, p, "struct"@) && !(tk(ts, p + 1).kind is LParen) {
            None
        } else if tk(ts, b).kind is RParen {
            Some((ModeV::Struct(Seq::empty()), b + 1))
        } else {
            match field_items(ts, b, Seq::empty()) {
                Some((fs, e)) => if tk(ts, e).kind is RParen { Some((ModeV::Struct(fs), e + 1)) } else { None },
                None => None,
            }
        }
    } else {
        match ident_at(ts, p) {
            None => None,
            Some(n) => {
                let q = p + 1;
                if tk(ts, q).kind is LParen {
                    let lo = int_at(ts, q + 1);
                    if lo is Some && tk(ts, q + 2).kind is DotDot {
                        let hi = int_at(ts, q + 3);
                        let e = if hi is Some { q + 4 } else { q + 3 };
                        if tk(ts, e).kind is RParen { Some((ModeV::Refined(n, lo, hi), e + 1)) } else { None }
                    } else if lo is None && tk(ts, q + 1).kind is DotDot {
                        let hi = int_at(ts, q + 2);
                        let e = if hi is Some { q + 3 } else { q + 2 };
                        if tk(ts, e).kind is RParen { Some((ModeV::Refined(n, None, hi), e + 1)) } else { None }
                    } else {
                        let a = if lo is Some { q + 2 } else { q + 1 };
                        if tk(ts, a).kind is RParen {
                            Some((ModeV::Named(n, Seq::empty()), a + 1))
                        } else {
                            match mode_list(ts, a, Seq::empty()) {
                                Some((ms, e)) => if tk(ts, e).kind is RParen { Some((ModeV::Named(n, ms), e + 1)) } else { None },
                                None => None,
                            }
                        }
                    }
                } else if tk(ts, q).kind is DotDot {
                    match int_at(ts, q + 1) {
                        Some(h) => Some((ModeV::Refined(n, None, Some(h)), q + 2)),
                        None => None,
                    }
                } else {
                    Some((ModeV::Named(n, Seq::empty()), q))
                }
            },
        }
    }
}

/// `a, b, ...` from `p` (a trailing comma allowed), appended to `acc`,
/// with the position where `)` is expected.
pub open spec fn enum_items(ts: Seq<TokV>, p: int, acc: Seq<IdentV>) -> Option<(Seq<IdentV>, int)>
    decreases ts.len() - p,
{
    if p < 0 || p > ts.len() {
        None
    } else {
        match ident_at(ts, p) {
            None => None,
            Some(i) => if tk(ts, p + 1).kind is Comma {
                if tk(ts, p + 2).kind is RParen {
                    Some((acc.push(i), p + 2))
                } else {
                    enum_items(ts, p + 2, acc.push(i))
                }
            } else {
                Some((acc.push(i), p + 1))
            },
        }
    }
}

/// `tag m, ...` from `p` (a trailing comma allowed), appended to `acc`.
pub open spec fn union_items(ts: Seq<TokV>, p: int, acc: Seq<(IdentV, ModeV)>) -> Option<(Seq<(IdentV, ModeV)>, int)>
    decreases ts.len() - p, 1nat,
{
    if p < 0 || p > ts.len() {
        None
    } else {
        match ident_at(ts, p) {
            None => None,
            Some(tag) => match mode_at(ts, p + 1) {
                None => None,
                Some((m, q)) => if q <= p + 1 || q > ts.len() {
                    None
                } else if tk(ts, q).kind is Comma {
                    if tk(ts, q + 1).kind is RParen {
                        Some((acc.push((tag, m)), q + 1))
                    } else {
                        union_items(ts, q + 1, acc.push((tag, m)))
                    }
                } else {
                    Some((acc.push((tag, m)), q))
                },
            },
        }
    }
}

/// `m name, ...` from `p` (a trailing comma allowed), appended to `acc`.
pub open spec fn field_items(ts: Seq<TokV>, p: int, acc: Seq<(ModeV, IdentV)>) -> Option<(Seq<(ModeV, IdentV)>, int)>
    decreases ts.len() - p, 1nat,
{
    if p < 0 || p > ts.len() {
        None
    } else {
        match mode_at(ts, p) {
            None => None,
            Some((m, q)) => if q <= p || q > ts.len() {
                None
            } else {
                match ident_at(ts, q) {
                    None => None,
                    Some(name) => if tk(ts, q + 1).kind is Comma {
                        if tk(ts, q + 2).kind is RParen {
                            Some((acc.push((m, name)), q + 2))
                        } else {
                            field_items(ts, q + 2, acc.push((m, name)))
                        }
                    } else {
                        Some((acc.push((m, name)), q + 1))
                    },
                }
            },
        }
    }
}

/// `m, m, ...` from `p` (no trailing comma), appended to `acc`.
pub open spec fn mode_list(ts: Seq<TokV>, p: int, acc: Seq<ModeV>) -> Option<(Seq<ModeV>, int)>
    decreases ts.len() - p, 1nat,
{
    if p < 0 || p > ts.len() {
        None
    } else {
        match mode_at(ts, p) {
            None => None,
            Some((m, q)) => if q <= p || q > ts.len() {
                None
            } else if tk(ts, q).kind is Comma {
                mode_list(ts, q + 1, acc.push(m))
            } else {
                Some((acc.push(m), q))
            },
        }
    }
}

// ---- where the expression and predicate parsers stop ----

/// The position the parser reaches reading an expression at `p`,
/// whether it succeeds (then the position `expr_at` gives) or fails.
pub open spec fn expr_end(ts: Seq<TokV>, p: int) -> int
    decreases ts.len() - p, 0nat,
{
    if p < 0 || p > ts.len() {
        p
    } else {
        match tk(ts, p).kind {
            KindV::Int(_) => p + 1,
            KindV::Str(_) => p + 1,
            KindV::Ident(_) => if tk(ts, p + 1).kind is Dot {
                path_end(ts, p + 1)
            } else if tk(ts, p + 1).kind is LParen {
                if tk(ts, p + 2).kind is RParen {
                    p + 3
                } else {
                    let e = args_end(ts, p + 2);
                    if args_from(ts, p + 2, Seq::empty()) is Some && tk(ts, e).kind is RParen { e + 1 } else { e }
                }
            } else {
                p + 1
            },
            _ => p,
        }
    }
}

/// Where reading `.x.y...` from `q` stops.
pub open spec fn path_end(ts: Seq<TokV>, q: int) -> int
    decreases ts.len() - q,
{
    if q < 0 || q > ts.len() {
        q
    } else if tk(ts, q).kind is Dot {
        if ident_at(ts, q + 1) is Some { path_end(ts, q + 2) } else { q + 1 }
    } else {
        q
    }
}

/// Where reading comma-separated expressions from `p` stops.
pub open spec fn args_end(ts: Seq<TokV>, p: int) -> int
    decreases ts.len() - p, 1nat,
{
    if p < 0 || p > ts.len() {
        p
    } else {
        let e = expr_end(ts, p);
        if expr_at(ts, p) is None || e <= p || e > ts.len() {
            e
        } else if tk(ts, e).kind is Comma {
            args_end(ts, e + 1)
        } else {
            e
        }
    }
}

/// Where reading a predicate at `p` stops.
pub open spec fn pred_or_end(ts: Seq<TokV>, p: int) -> int
    decreases ts.len() - p, 5nat,
{
    if p < 0 || p > ts.len() {
        p
    } else {
        match pred_and_at(ts, p) {
            None => pred_and_end(ts, p),
            Some((_, q)) => if q <= p || q > ts.len() { q } else { or_tail_end(ts, q) },
        }
    }
}

pub open spec fn or_tail_end(ts: Seq<TokV>, q: int) -> int
    decreases ts.len() - q, 4nat,
{
    if q < 0 || q > ts.len() {
        q
    } else if is_word(ts, q, "or"@) {
        match pred_and_at(ts, q + 1) {
            None => pred_and_end(ts, q + 1),
            Some((_, e)) => if e <= q + 1 || e > ts.len() { e } else { or_tail_end(ts, e) },
        }
    } else {
        q
    }
}

pub open spec fn pred_and_end(ts: Seq<TokV>, p: int) -> int
    decreases ts.len() - p, 3nat,
{
    if p < 0 || p > ts.len() {
        p
    } else {
        match pred_not_at(ts, p) {
            None => pred_not_end(ts, p),
            Some((_, q)) => if q <= p || q > ts.len() { q } else { and_tail_end(ts, q) },
        }
    }
}

pub open spec fn and_tail_end(ts: Seq<TokV>, q: int) -> int
    decreases ts.len() - q, 2nat,
{
    if q < 0 || q > ts.len() {
        q
    } else if is_word(ts, q, "and"@) {
        match pred_not_at(ts, q + 1) {
            None => pred_not_end(ts, q + 1),
            Some((_, e)) => if e <= q + 1 || e > ts.len() { e } else { and_tail_end(ts, e) },
        }
    } else {
        q
    }
}

pub open spec fn pred_not_end(ts: Seq<TokV>, p: int) -> int
    decreases ts.len() - p, 1nat,
{
    if p < 0 || p > ts.len() {
        p
    } else if is_word(ts, p, "not"@) {
        pred_not_end(ts, p + 1)
    } else {
        pred_atom_end(ts, p)
    }
}

pub open spec fn pred_atom_end(ts: Seq<TokV>, p: int) -> int
    decreases ts.len() - p, 0nat,
{
    if p < 0 || p > ts.len() {
        p
    } else if is_word(ts, p, "for"@) {
        if !is_word(ts, p + 1, "all"@) {
            p + 1
        } else if ident_at(ts, p + 2) is None {
            p + 2
        } else if ident_at(ts, p + 3) is None {
            p + 3
        } else if !(tk(ts, p + 4).kind is Colon) {
            p + 4
        } else {
            pred_or_end(ts, p + 5)
        }
    } else if is_word(ts, p, "exists"@) {
        if ident_at(ts, p + 1) is None {
            p + 1
        } else if ident_at(ts, p + 2) is None {
            p + 2
        } else if tk(ts, p + 3).kind is Colon {
            pred_or_end(ts, p + 4)
        } else if is_word(ts, p + 3, ":"@) {
            pred_or_end(ts, p + 3)
        } else {
            p + 3
        }
    } else {
        match expr_at(ts, p) {
            None => expr_end(ts, p),
            Some((_, q)) => {
                let k = tk(ts, q).kind;
                if k is Eq || k is Lt || k is Le { expr_end(ts, q + 1) } else { q }
            },
        }
    }
}

// ---- packs ----

pub enum PackV {
    Unit,
    Word(IdentV),
    Int(int),
    Str(Seq<char>),
    Quantity(int, IdentV),
    List(Seq<PackV>),
    Path(Seq<IdentV>),
    Call(IdentV, Seq<PackV>),
    Nested(Seq<(IdentV, PackV, int, int)>),
}

pub open spec fn pack_value_v(v: PackValue) -> PackV
    decreases v,
{
    match v {
        PackValue::Unit => PackV::Unit,
        PackValue::Word(w) => PackV::Word(ident_v(w)),
        PackValue::Int(i) => PackV::Int(i as int),
        PackValue::Str(t) => PackV::Str(t@),
        PackValue::Quantity { value, unit } => PackV::Quantity(value as int, ident_v(unit)),
        PackValue::List(vs) => PackV::List(pack_values_v(vs@)),
        PackValue::Path(ps) => PackV::Path(idents_v(ps@)),
        PackValue::Call { name, args } => PackV::Call(ident_v(name), pack_values_v(args@)),
        PackValue::Nested(items) => PackV::Nested(pack_items_v(items@)),
    }
}

pub open spec fn pack_values_v(vs: Seq<PackValue>) -> Seq<PackV>
    decreases vs,
{
    if vs.len() == 0 {
        Seq::empty()
    } else {
        proof {
            assert(decreases_to!(vs => vs[vs.len() - 1]));
        }
        pack_values_v(vs.drop_last()).push(pack_value_v(vs.last()))
    }
}

/// An item: its key, its value, and its span (the key's).
pub open spec fn pack_items_v(items: Seq<PackItem>) -> Seq<(IdentV, PackV, int, int)>
    decreases items,
{
    if items.len() == 0 {
        Seq::empty()
    } else {
        proof {
            assert(decreases_to!(items => items[items.len() - 1]));
            assert(decreases_to!(items[items.len() - 1] => items[items.len() - 1].value));
        }
        let it = items.last();
        pack_items_v(items.drop_last()).push(
            (ident_v(it.key), pack_value_v(it.value), it.span.start as int, it.span.end as int),
        )
    }
}

pub open spec fn pack_item_v(it: PackItem) -> (IdentV, PackV, int, int) {
    (ident_v(it.key), pack_value_v(it.value), it.span.start as int, it.span.end as int)
}

pub open spec fn opt_value_v(r: Option<PackValue>) -> Option<PackV> {
    match r {
        Some(v) => Some(pack_value_v(v)),
        None => None,
    }
}

pub open spec fn opt_pack_v(r: Option<Pack>) -> Option<Seq<(IdentV, PackV, int, int)>> {
    match r {
        Some(items) => Some(pack_items_v(items@)),
        None => None,
    }
}

pub open spec fn opt_item_v(r: Option<PackItem>) -> Option<(IdentV, PackV, int, int)> {
    match r {
        Some(it) => Some(pack_item_v(it)),
        None => None,
    }
}

/// The position after moving past the token at `p` (the parser never
/// moves past the end).
pub open spec fn step(ts: Seq<TokV>, p: int) -> int {
    if p < ts.len() { p + 1 } else { p }
}

/// A word that makes an integer before it a quantity.
pub open spec fn unit_word(k: KindV) -> bool {
    ||| k == KindV::Ident("min"@)
    ||| k == KindV::Ident("ms"@)
    ||| k == KindV::Ident("s"@)
    ||| k == KindV::Ident("sec"@)
}

pub open spec fn separator(k: KindV) -> bool {
    k is Comma || k is Semi
}

/// `.x.y...` from `q` in a pack, appended to `acc`; a `.` not followed
/// by an identifier fails just after the `.`.
pub open spec fn pack_path(ts: Seq<TokV>, q: int, acc: Seq<IdentV>) -> (Option<Seq<IdentV>>, int)
    decreases ts.len() - q,
{
    if q < 0 || q > ts.len() {
        (Some(acc), q)
    } else if tk(ts, q).kind is Dot {
        match ident_at(ts, q + 1) {
            Some(i) => pack_path(ts, q + 2, acc.push(i)),
            None => (None, q + 1),
        }
    } else {
        (Some(acc), q)
    }
}

/// Further words and dotted paths from `q`, after those in `acc`.
pub open spec fn word_run_at(ts: Seq<TokV>, q: int, acc: Seq<PackV>) -> (Option<PackV>, int)
    decreases ts.len() - q,
{
    if q < 0 || q > ts.len() {
        (Some(PackV::List(acc)), q)
    } else {
        match ident_at(ts, q) {
            None => (Some(PackV::List(acc)), q),
            Some(w) => if tk(ts, q + 1).kind is Dot {
                match pack_path(ts, q + 1, seq![w]) {
                    (Some(path), e) => if e <= q || e > ts.len() {
                        (Some(PackV::List(acc)), e)
                    } else {
                        word_run_at(ts, e, acc.push(PackV::Path(path)))
                    },
                    (None, e) => (None, e),
                }
            } else {
                word_run_at(ts, q + 1, acc.push(PackV::Word(w)))
            },
        }
    }
}

/// A pack value at `p` and the position after it, also where it fails:
/// an integer (with a unit word after it, a quantity), a string,
/// `( ... )` (see `paren_value_at`), a call `name(items)`, a dotted
/// path, a run of words and paths, or one word. Any other token fails,
/// and is passed over.
pub open spec fn pack_value_at(ts: Seq<TokV>, p: int) -> (Option<PackV>, int)
    decreases ts.len() - p, 0nat,
{
    if p < 0 || p > ts.len() {
        (None, p)
    } else {
        let t = tk(ts, p);
        match t.kind {
            KindV::Int(v) => if unit_word(tk(ts, p + 1).kind) {
                match ident_at(ts, p + 1) {
                    Some(u) => (Some(PackV::Quantity(v, u)), p + 2),
                    None => (None, p + 1),
                }
            } else {
                (Some(PackV::Int(v)), p + 1)
            },
            KindV::Str(x) => (Some(PackV::Str(x)), p + 1),
            KindV::LParen => paren_value_at(ts, p + 1),
            KindV::Ident(x) => {
                let first = IdentV { text: x, start: t.start, end: t.end };
                let q = p + 1;
                if tk(ts, q).kind is LParen {
                    if tk(ts, q + 1).kind is RParen {
                        (Some(PackV::Call(first, Seq::empty())), q + 2)
                    } else {
                        let (args, e) = call_args(ts, q + 1, 0, Seq::empty());
                        if tk(ts, e).kind is RParen {
                            (Some(PackV::Call(first, args)), e + 1)
                        } else {
                            (None, e)
                        }
                    }
                } else if tk(ts, q).kind is Dot {
                    match pack_path(ts, q, seq![first]) {
                        (Some(path), e) => if ident_at(ts, e) is Some {
                            word_run_at(ts, e, seq![PackV::Path(path)])
                        } else {
                            (Some(PackV::Path(path)), e)
                        },
                        (None, e) => (None, e),
                    }
                } else if ident_at(ts, q) is Some {
                    word_run_at(ts, q, seq![PackV::Word(first)])
                } else {
                    (Some(PackV::Word(first)), q)
                }
            },
            _ => (None, step(ts, p)),
        }
    }
}

/// After `(` at `q - 1`: `)` is an empty list; a first item with a
/// value makes a nested pack of items separated by `,` or `;` (at most
/// a thousand more); otherwise values separated by `,` (at most a
/// thousand) make a list. Then `)`.
pub open spec fn paren_value_at(ts: Seq<TokV>, q: int) -> (Option<PackV>, int)
    decreases ts.len() - q, 3nat,
{
    if q < 0 || q > ts.len() {
        (None, q)
    } else if tk(ts, q).kind is RParen {
        (Some(PackV::List(Seq::empty())), q + 1)
    } else {
        let keyed = if ident_at(ts, q) is Some {
            match pack_item_at(ts, q) {
                (Some(it), q2) => if !(it.1 is Unit) && q < q2 <= ts.len() {
                    Some(nested_items(ts, q2, 0, seq![it]))
                } else {
                    None
                },
                (None, _) => None,
            }
        } else {
            None
        };
        match keyed {
            Some((items, e)) => if tk(ts, e).kind is RParen {
                (Some(PackV::Nested(items)), e + 1)
            } else {
                (None, e)
            },
            None => {
                let (vs, e) = value_list(ts, q, 0, Seq::empty());
                if tk(ts, e).kind is RParen {
                    (Some(PackV::List(vs)), e + 1)
                } else {
                    (None, e)
                }
            },
        }
    }
}

/// `key [value]` at `p`: a bare key (before `,`, `)` or `;`), or a key
/// whose value fails, has the value `Unit`; the span is the key's.
pub open spec fn pack_item_at(ts: Seq<TokV>, p: int) -> (Option<(IdentV, PackV, int, int)>, int)
    decreases ts.len() - p, 1nat,
{
    if p < 0 || p > ts.len() {
        (None, p)
    } else {
        match ident_at(ts, p) {
            None => (None, p),
            Some(key) => {
                let k = tk(ts, p + 1).kind;
                if separator(k) || k is RParen {
                    (Some((key, PackV::Unit, key.start, key.end)), p + 1)
                } else {
                    let (v, e) = pack_value_at(ts, p + 1);
                    let value = match v {
                        Some(x) => x,
                        None => PackV::Unit,
                    };
                    (Some((key, value, key.start, key.end)), e)
                }
            },
        }
    }
}

/// The items of a nested pack after its first, from `pos`.
pub open spec fn nested_items(ts: Seq<TokV>, pos: int, k: int, acc: Seq<(IdentV, PackV, int, int)>) -> (Seq<(IdentV, PackV, int, int)>, int)
    decreases ts.len() - pos, 2nat,
{
    if pos < 0 || pos > ts.len() {
        (acc, pos)
    } else if separator(tk(ts, pos).kind) && k < 1000 {
        let s = pos + 1;
        if tk(ts, s).kind is RParen {
            (acc, s)
        } else {
            match pack_item_at(ts, s) {
                (Some(it), e) => if e <= s || e > ts.len() {
                    (acc, e)
                } else {
                    nested_items(ts, e, k + 1, acc.push(it))
                },
                (None, _) => nested_items(ts, step(ts, s), k + 1, acc),
            }
        }
    } else {
        (acc, pos)
    }
}

/// Values separated by `,` from `pos` (a trailing comma allowed), until
/// one fails or a thousand were read.
pub open spec fn value_list(ts: Seq<TokV>, pos: int, k: int, acc: Seq<PackV>) -> (Seq<PackV>, int)
    decreases ts.len() - pos, 2nat,
{
    if pos < 0 || pos > ts.len() || k >= 1000 {
        (acc, pos)
    } else {
        match pack_value_at(ts, pos) {
            (None, e) => (acc, e),
            (Some(v), e) => if e <= pos || e > ts.len() {
                (acc.push(v), e)
            } else if tk(ts, e).kind is Comma {
                if tk(ts, e + 1).kind is RParen {
                    (acc.push(v), e + 1)
                } else {
                    value_list(ts, e + 1, k + 1, acc.push(v))
                }
            } else {
                (acc.push(v), e)
            },
        }
    }
}

/// The arguments of a call from `pos`: items separated by `,` or `;`,
/// each one argument; a token where no item starts is passed over.
pub open spec fn call_args(ts: Seq<TokV>, pos: int, k: int, acc: Seq<PackV>) -> (Seq<PackV>, int)
    decreases ts.len() - pos, 2nat,
{
    if pos < 0 || pos > ts.len() || k >= 1000 {
        (acc, pos)
    } else {
        let (item, e) = match pack_item_at(ts, pos) {
            (Some(it), e) => (Some(it), e),
            (None, _) => (None, step(ts, pos)),
        };
        let acc2 = match item {
            Some(it) => acc.push(PackV::Nested(seq![it])),
            None => acc,
        };
        if e < pos || e > ts.len() {
            (acc2, e)
        } else if separator(tk(ts, e).kind) {
            call_args(ts, e + 1, k + 1, acc2)
        } else {
            (acc2, e)
        }
    }
}

/// Items separated by `,` or `;` from `pos` (a trailing separator
/// allowed); a position where no item starts adds none.
pub open spec fn pack_items_from(ts: Seq<TokV>, pos: int, acc: Seq<(IdentV, PackV, int, int)>) -> (Seq<(IdentV, PackV, int, int)>, int)
    decreases ts.len() - pos,
{
    if pos < 0 || pos > ts.len() {
        (acc, pos)
    } else {
        let (item, e) = pack_item_at(ts, pos);
        let acc2 = match item {
            Some(it) => acc.push(it),
            None => acc,
        };
        if e < pos || e > ts.len() {
            (acc2, e)
        } else if separator(tk(ts, e).kind) {
            if tk(ts, e + 1).kind is RParen {
                (acc2, e + 1)
            } else {
                pack_items_from(ts, e + 1, acc2)
            }
        } else {
            (acc2, e)
        }
    }
}

/// A pack `( items )` at `p`, and the position after it, also where it
/// fails.
pub open spec fn pack_at(ts: Seq<TokV>, p: int) -> (Option<Seq<(IdentV, PackV, int, int)>>, int) {
    if !(tk(ts, p).kind is LParen) {
        (None, p)
    } else if tk(ts, p + 1).kind is RParen {
        (Some(Seq::empty()), p + 2)
    } else {
        let (items, e) = pack_items_from(ts, p + 1, Seq::empty());
        if tk(ts, e).kind is RParen {
            (Some(items), e + 1)
        } else {
            (None, e)
        }
    }
}

// ---- declarations ----

/// `(attrs)` at `p` if a `(` is there, else no attributes.
pub open spec fn opt_pack_at(ts: Seq<TokV>, p: int) -> Option<(Seq<(IdentV, PackV, int, int)>, int)> {
    if tk(ts, p).kind is LParen {
        match pack_at(ts, p) {
            (Some(a), e) => Some((a, e)),
            (None, _) => None,
        }
    } else {
        Some((Seq::empty(), p))
    }
}

/// The pack `(attrs)` required at `p`.
pub open spec fn req_pack_at(ts: Seq<TokV>, p: int) -> Option<(Seq<(IdentV, PackV, int, int)>, int)> {
    match pack_at(ts, p) {
        (Some(a), e) => Some((a, e)),
        (None, _) => None,
    }
}

/// `actor name = kind [(attrs)]` at `p`.
pub open spec fn actor_at(ts: Seq<TokV>, p: int) -> Option<(IdentV, IdentV, Seq<(IdentV, PackV, int, int)>, int)> {
    match (ident_at(ts, p + 1), ident_at(ts, p + 3)) {
        (Some(name), Some(kind)) => if tk(ts, p + 2).kind is Eq {
            match opt_pack_at(ts, p + 4) {
                Some((attrs, e)) => Some((name, kind, attrs, e)),
                None => None,
            }
        } else {
            None
        },
        _ => None,
    }
}

/// `flow name = from -> to : kind (attrs)` at `p`.
pub open spec fn flow_at(ts: Seq<TokV>, p: int) -> Option<(Seq<IdentV>, Seq<(IdentV, PackV, int, int)>, int)> {
    match (ident_at(ts, p + 1), ident_at(ts, p + 3), ident_at(ts, p + 5), ident_at(ts, p + 7)) {
        (Some(name), Some(from), Some(to), Some(kind)) => if tk(ts, p + 2).kind is Eq && tk(ts, p + 4).kind is Arrow
            && tk(ts, p + 6).kind is Colon {
            match req_pack_at(ts, p + 8) {
                Some((attrs, e)) => Some((seq![name, from, to, kind], attrs, e)),
                None => None,
            }
        } else {
            None
        },
        _ => None,
    }
}

/// `synthesis name = target lang[/framework] (attrs)` at `p`.
pub open spec fn synthesis_at(ts: Seq<TokV>, p: int) -> Option<(IdentV, IdentV, Option<IdentV>, Seq<(IdentV, PackV, int, int)>, int)> {
    match (ident_at(ts, p + 1), ident_at(ts, p + 4)) {
        (Some(name), Some(lang)) => if tk(ts, p + 2).kind is Eq && is_word(ts, p + 3, "target"@) {
            if tk(ts, p + 5).kind is Slash {
                match (ident_at(ts, p + 6), req_pack_at(ts, p + 7)) {
                    (Some(fw), Some((attrs, e))) => Some((name, lang, Some(fw), attrs, e)),
                    _ => None,
                }
            } else {
                match req_pack_at(ts, p + 5) {
                    Some((attrs, e)) => Some((name, lang, None, attrs, e)),
                    None => None,
                }
            }
        } else {
            None
        },
        _ => None,
    }
}

/// `constraint name = class on scope under (pack) must pred` at `p`.
pub open spec fn constraint_at(ts: Seq<TokV>, p: int) -> Option<(Seq<IdentV>, Seq<(IdentV, PackV, int, int)>, PredV, int)> {
    match (ident_at(ts, p + 1), ident_at(ts, p + 3), ident_at(ts, p + 5)) {
        (Some(name), Some(class), Some(scope)) => if tk(ts, p + 2).kind is Eq && is_word(ts, p + 4, "on"@)
            && is_word(ts, p + 6, "under"@) {
            match req_pack_at(ts, p + 7) {
                Some((under, e)) => if is_word(ts, e, "must"@) {
                    match pred_or_at(ts, e + 1) {
                        Some((m, e2)) => Some((seq![name, class, scope], under, m, e2)),
                        None => None,
                    }
                } else {
                    None
                },
                None => None,
            }
        } else {
            None
        },
        _ => None,
    }
}

/// `/x/y...` from `q`, appended to `acc`.
pub open spec fn slash_path(ts: Seq<TokV>, q: int, acc: Seq<IdentV>) -> Option<(Seq<IdentV>, int)>
    decreases ts.len() - q,
{
    if q < 0 || q > ts.len() {
        None
    } else if tk(ts, q).kind is Slash {
        match ident_at(ts, q + 1) {
            Some(i) => slash_path(ts, q + 2, acc.push(i)),
            None => None,
        }
    } else {
        Some((acc, q))
    }
}

/// `major.minor` at `p`, as text.
pub open spec fn version_at(ts: Seq<TokV>, p: int) -> Option<Seq<char>> {
    let (a, d, b) = (tk(ts, p), tk(ts, p + 1), tk(ts, p + 2));
    if a.kind is Int && d.kind is Dot && b.kind is Int {
        Some(int_decimal(a.kind->Int_0) + "."@ + int_decimal(b.kind->Int_0))
    } else {
        None
    }
}

/// `use a/b/c @ major.minor [(args)]` at `p`.
pub open spec fn use_at(ts: Seq<TokV>, p: int) -> Option<(Seq<IdentV>, Seq<char>, Seq<(IdentV, PackV, int, int)>, int)> {
    match ident_at(ts, p + 1) {
        Some(first) => match slash_path(ts, p + 2, seq![first]) {
            Some((path, e)) => if tk(ts, e).kind is At {
                match (version_at(ts, e + 1), opt_pack_at(ts, e + 4)) {
                    (Some(v), Some((args, e2))) => Some((path, v, args, e2)),
                    _ => None,
                }
            } else {
                None
            },
            None => None,
        },
        None => None,
    }
}

/// `(mode name, ...)` at `p`, a trailing comma allowed.
pub open spec fn fields_at(ts: Seq<TokV>, p: int) -> Option<(Seq<(ModeV, IdentV)>, int)> {
    if !(tk(ts, p).kind is LParen) {
        None
    } else if tk(ts, p + 1).kind is RParen {
        Some((Seq::empty(), p + 2))
    } else {
        match field_items(ts, p + 1, Seq::empty()) {
            Some((fs, e)) => if tk(ts, e).kind is RParen { Some((fs, e + 1)) } else { None },
            None => None,
        }
    }
}

/// `a, b, ...` from `p` (no trailing comma), appended to `acc`.
pub open spec fn ident_list(ts: Seq<TokV>, p: int, acc: Seq<IdentV>) -> Option<(Seq<IdentV>, int)>
    decreases ts.len() - p,
{
    if p < 0 || p > ts.len() {
        None
    } else {
        match ident_at(ts, p) {
            None => None,
            Some(i) => if tk(ts, p + 1).kind is Comma {
                ident_list(ts, p + 2, acc.push(i))
            } else {
                Some((acc.push(i), p + 1))
            },
        }
    }
}

/// `cmd|qry name = (fields) output [! (error, ...)]` at `p`: whether it
/// is a command, the name, the parameters, the output mode, the errors.
pub open spec fn op_at(ts: Seq<TokV>, p: int) -> Option<(bool, IdentV, Seq<(ModeV, IdentV)>, ModeV, Seq<IdentV>, int)> {
    if !(is_word(ts, p, "cmd"@) || is_word(ts, p, "qry"@)) {
        None
    } else {
        match ident_at(ts, p + 1) {
            Some(name) => if tk(ts, p + 2).kind is Eq {
                match fields_at(ts, p + 3) {
                    Some((ps, e1)) => match mode_at(ts, e1) {
                        Some((out, e2)) => if tk(ts, e2).kind is Bang {
                            if tk(ts, e2 + 1).kind is LParen {
                                match ident_list(ts, e2 + 2, Seq::empty()) {
                                    Some((errs, e3)) => if tk(ts, e3).kind is RParen {
                                        Some((is_word(ts, p, "cmd"@), name, ps, out, errs, e3 + 1))
                                    } else {
                                        None
                                    },
                                    None => None,
                                }
                            } else {
                                None
                            }
                        } else {
                            Some((is_word(ts, p, "cmd"@), name, ps, out, Seq::empty(), e2))
                        },
                        None => None,
                    },
                    None => None,
                }
            } else {
                None
            },
            None => None,
        }
    }
}

// ---- clauses and acceptance blocks ----

pub enum ClauseV {
    Requires(PredV),
    Ensures(PredV),
    Returns(ExprV),
    Fails(IdentV, PredV, Option<IdentV>),
    Emits(IdentV, Seq<IdentV>),
}

pub open spec fn opt_ident_v(o: Option<Ident>) -> Option<IdentV> {
    match o {
        Some(i) => Some(ident_v(i)),
        None => None,
    }
}

pub open spec fn clause_v(c: Clause) -> ClauseV {
    match c {
        Clause::Requires(p) => ClauseV::Requires(pred_v(p)),
        Clause::Ensures(p) => ClauseV::Ensures(pred_v(p)),
        Clause::Returns(e) => ClauseV::Returns(expr_v(e)),
        Clause::Fails { error, when, preserves } => ClauseV::Fails(ident_v(error), pred_v(when), opt_ident_v(preserves)),
        Clause::Emits { event, qualifier } => ClauseV::Emits(ident_v(event), idents_v(qualifier@)),
    }
}

/// Where the qualifiers of an `emits` clause end.
pub open spec fn clause_stop(k: KindV) -> bool {
    ||| k is RParen
    ||| k is Semi
    ||| k is Eof
    ||| (k is Ident && clause_keyword(k->Ident_0))
}

/// The identifiers from `p` up to a clause stop or a token that is not
/// one, appended to `acc`.
pub open spec fn qualifiers(ts: Seq<TokV>, p: int, acc: Seq<IdentV>) -> (Seq<IdentV>, int)
    decreases ts.len() - p,
{
    if p < 0 || p > ts.len() || clause_stop(tk(ts, p).kind) {
        (acc, p)
    } else {
        match ident_at(ts, p) {
            Some(i) => qualifiers(ts, p + 1, acc.push(i)),
            None => (acc, p),
        }
    }
}

/// A clause at `p`: `requires pred`, `ensures pred`, `returns expr`,
/// `fails err [when pred] [preserves x]` (the condition `true`, at the
/// error's span, when none is given), or `emits event qualifier...`.
pub open spec fn clause_at(ts: Seq<TokV>, p: int) -> Option<(ClauseV, int)> {
    if is_word(ts, p, "requires"@) {
        match pred_or_at(ts, p + 1) {
            Some((a, e)) => Some((ClauseV::Requires(a), e)),
            None => None,
        }
    } else if is_word(ts, p, "ensures"@) {
        match pred_or_at(ts, p + 1) {
            Some((a, e)) => Some((ClauseV::Ensures(a), e)),
            None => None,
        }
    } else if is_word(ts, p, "returns"@) {
        match expr_at(ts, p + 1) {
            Some((x, e)) => Some((ClauseV::Returns(x), e)),
            None => None,
        }
    } else if is_word(ts, p, "fails"@) {
        match ident_at(ts, p + 1) {
            None => None,
            Some(err) => {
                let w = if is_word(ts, p + 2, "when"@) {
                    pred_or_at(ts, p + 3)
                } else {
                    Some((PredV::Word(IdentV { text: "true"@, start: err.start, end: err.end }), p + 2))
                };
                match w {
                    None => None,
                    Some((c, e)) => if is_word(ts, e, "preserves"@) {
                        match ident_at(ts, e + 1) {
                            Some(x) => Some((ClauseV::Fails(err, c, Some(x)), e + 2)),
                            None => None,
                        }
                    } else {
                        Some((ClauseV::Fails(err, c, None), e))
                    },
                }
            },
        }
    } else if is_word(ts, p, "emits"@) {
        match ident_at(ts, p + 1) {
            None => None,
            Some(ev) => {
                let (qs, e) = qualifiers(ts, p + 2, Seq::empty());
                Some((ClauseV::Emits(ev, qs), e))
            },
        }
    } else {
        None
    }
}

/// Where reading a clause at `p` stops.
pub open spec fn clause_end(ts: Seq<TokV>, p: int) -> int {
    if is_word(ts, p, "requires"@) || is_word(ts, p, "ensures"@) {
        pred_or_end(ts, p + 1)
    } else if is_word(ts, p, "returns"@) {
        expr_end(ts, p + 1)
    } else if is_word(ts, p, "fails"@) {
        if ident_at(ts, p + 1) is None {
            p + 1
        } else {
            let w = if is_word(ts, p + 2, "when"@) {
                match pred_or_at(ts, p + 3) {
                    Some((_, e)) => Some(e),
                    None => None,
                }
            } else {
                Some(p + 2)
            };
            match w {
                None => pred_or_end(ts, p + 3),
                Some(e) => if is_word(ts, e, "preserves"@) {
                    if ident_at(ts, e + 1) is Some { e + 2 } else { e + 1 }
                } else {
                    e
                },
            }
        }
    } else if is_word(ts, p, "emits"@) {
        if ident_at(ts, p + 1) is None { p + 1 } else { qualifiers(ts, p + 2, Seq::empty()).1 }
    } else {
        p
    }
}

/// The first position from `f` where a clause may end: `;`, `)`,
/// `Eof` or a clause keyword.
pub open spec fn to_clause_stop(ts: Seq<TokV>, f: int) -> int
    decreases ts.len() - f,
{
    if f < 0 || f >= ts.len() || clause_stop(tk(ts, f).kind) {
        f
    } else {
        to_clause_stop(ts, f + 1)
    }
}

/// Past a `;` at `e`, if there is one.
pub open spec fn past_semi(ts: Seq<TokV>, e: int) -> int {
    if tk(ts, e).kind is Semi { e + 1 } else { e }
}

/// One round of a behavior body at `pos`, its first half: unless
/// clauses have begun, a `;` begins them (and ends the round), a clause
/// keyword begins them, or a pack item is read (a `,` after it passed
/// over, a `;` after it passed over and beginning the clauses); a
/// token where no item starts is passed over. Whether clauses have
/// begun, whether the round ends here, the items, the position.
pub open spec fn behavior_items_step(
    ts: Seq<TokV>,
    pos: int,
    in_clauses: bool,
    attrs: Seq<(IdentV, PackV, int, int)>,
) -> (bool, bool, Seq<(IdentV, PackV, int, int)>, int) {
    let k = tk(ts, pos).kind;
    if in_clauses {
        (true, false, attrs, pos)
    } else if k is Ident && clause_keyword(k->Ident_0) {
        (true, false, attrs, pos)
    } else if k is Semi {
        (true, true, attrs, pos + 1)
    } else {
        match pack_item_at(ts, pos) {
            (Some(it), e) => if tk(ts, e).kind is Comma {
                (false, false, attrs.push(it), e + 1)
            } else if tk(ts, e).kind is Semi {
                (true, false, attrs.push(it), e + 1)
            } else {
                (false, false, attrs.push(it), e)
            },
            (None, _) => (false, false, attrs, pos + 1),
        }
    }
}

/// The second half of a round: once clauses have begun, a clause is
/// read, a `;` after it passed over; a clause that fails is passed over
/// up to the next `;` (itself passed over), `)`, `Eof` or clause
/// keyword.
pub open spec fn behavior_clause_step(ts: Seq<TokV>, p1: int, read: bool, clauses: Seq<ClauseV>) -> (Seq<ClauseV>, int) {
    if read {
        match clause_at(ts, p1) {
            Some((c, e)) => (clauses.push(c), past_semi(ts, e)),
            None => (clauses, past_semi(ts, to_clause_stop(ts, clause_end(ts, p1)))),
        }
    } else {
        (clauses, p1)
    }
}

/// The body of a behavior from `pos`, round by round; it ends at `)`,
/// at `Eof`, or after a round that read nothing.
pub open spec fn behavior_body(
    ts: Seq<TokV>,
    pos: int,
    in_clauses: bool,
    attrs: Seq<(IdentV, PackV, int, int)>,
    clauses: Seq<ClauseV>,
) -> (Seq<(IdentV, PackV, int, int)>, Seq<ClauseV>, int)
    decreases ts.len() - pos,
{
    let k = tk(ts, pos).kind;
    if pos < 0 || pos > ts.len() || k is RParen || k is Eof {
        (attrs, clauses, pos)
    } else {
        let (ic, skip_rest, attrs2, p1) = behavior_items_step(ts, pos, in_clauses, attrs);
        let (clauses2, p2) = behavior_clause_step(ts, p1, ic && !skip_rest, clauses);
        if p2 <= pos || p2 > ts.len() {
            (attrs2, clauses2, p2)
        } else {
            behavior_body(ts, p2, ic, attrs2, clauses2)
        }
    }
}

pub open spec fn clauses_v(cs: Seq<Clause>) -> Seq<ClauseV> {
    cs.map_values(|c: Clause| clause_v(c))
}

/// `behavior name = on iface.op (binders) (body)` at `p`: the name,
/// interface and operation, the binders, the body's items and clauses,
/// and the position after.
pub open spec fn behavior_at(ts: Seq<TokV>, p: int) -> Option<(Seq<IdentV>, Seq<IdentV>, Seq<(IdentV, PackV, int, int)>, Seq<ClauseV>, int)> {
    match (ident_at(ts, p + 1), ident_at(ts, p + 4), ident_at(ts, p + 6)) {
        (Some(name), Some(iface), Some(op)) => if tk(ts, p + 2).kind is Eq && is_word(ts, p + 3, "on"@)
            && tk(ts, p + 5).kind is Dot && tk(ts, p + 7).kind is LParen {
            match ident_list(ts, p + 8, Seq::empty()) {
                Some((bs, e1)) => if tk(ts, e1).kind is RParen && tk(ts, e1 + 1).kind is LParen {
                    let (attrs, cs, e2) = behavior_body(ts, e1 + 2, false, Seq::empty(), Seq::empty());
                    if tk(ts, e2).kind is RParen {
                        Some((seq![name, iface, op], bs, attrs, cs, e2 + 1))
                    } else {
                        None
                    }
                } else {
                    None
                },
                None => None,
            }
        } else {
            None
        },
        _ => None,
    }
}

pub enum BlockV {
    Property(IdentV, Seq<(IdentV, PackV, int, int)>),
    Scenario(IdentV, Seq<(IdentV, PackV, int, int)>),
    Concurrency(IdentV, Seq<(IdentV, PackV, int, int)>, PredV),
    Fault(IdentV, Seq<(IdentV, PackV, int, int)>, Option<PredV>),
    Coverage(Seq<IdentV>),
    Execution(Seq<(IdentV, PackV, int, int)>),
}

pub open spec fn opt_pred_v(o: Option<Pred>) -> Option<PredV> {
    match o {
        Some(p) => Some(pred_v(p)),
        None => None,
    }
}

pub open spec fn block_v(b: AcceptanceBlock) -> BlockV {
    match b {
        AcceptanceBlock::Property { name, body } => BlockV::Property(ident_v(name), pack_items_v(body@)),
        AcceptanceBlock::Scenario { name, steps } => BlockV::Scenario(ident_v(name), pack_items_v(steps@)),
        AcceptanceBlock::Concurrency { name, attrs, must } => BlockV::Concurrency(ident_v(name), pack_items_v(attrs@), pred_v(must)),
        AcceptanceBlock::Fault { name, body, must } => BlockV::Fault(ident_v(name), pack_items_v(body@), opt_pred_v(must)),
        AcceptanceBlock::Coverage(names) => BlockV::Coverage(idents_v(names@)),
        AcceptanceBlock::Execution(pack) => BlockV::Execution(pack_items_v(pack@)),
    }
}

/// Pack items from `pos` with no parentheses around them, up to `,`,
/// `)`, `Eof`, the keyword `must` (when `stop_at_must`) or a position
/// where no item starts.
pub open spec fn implicit_items(ts: Seq<TokV>, pos: int, stop_at_must: bool, acc: Seq<(IdentV, PackV, int, int)>) -> (Seq<(IdentV, PackV, int, int)>, int)
    decreases ts.len() - pos,
{
    let k = tk(ts, pos).kind;
    if pos < 0 || pos > ts.len() || (stop_at_must && is_word(ts, pos, "must"@)) || k is Comma || k is RParen || k is Eof {
        (acc, pos)
    } else {
        match pack_item_at(ts, pos) {
            (Some(it), e) => if e <= pos || e > ts.len() {
                (acc.push(it), e)
            } else {
                implicit_items(ts, e, stop_at_must, acc.push(it))
            },
            (None, e) => (acc, e),
        }
    }
}

/// The position after the `)` that closes `depth` open parentheses,
/// scanning from `pos`; the end if they are never closed.
pub open spec fn skip_balanced(ts: Seq<TokV>, pos: int, depth: int) -> int
    decreases ts.len() - pos,
{
    if pos < 0 || pos >= ts.len() || depth <= 0 {
        pos
    } else {
        let k = tk(ts, pos).kind;
        let d2 = if k is LParen { depth + 1 } else if k is RParen { depth - 1 } else { depth };
        if d2 > 0 { skip_balanced(ts, pos + 1, d2) } else { pos + 1 }
    }
}

/// A pack `(...)` at `p`, or items with no parentheses.
pub open spec fn body_at(ts: Seq<TokV>, p: int, stop_at_must: bool) -> Option<(Seq<(IdentV, PackV, int, int)>, int)> {
    if tk(ts, p).kind is LParen {
        req_pack_at(ts, p)
    } else {
        Some(implicit_items(ts, p, stop_at_must, Seq::empty()))
    }
}

/// An acceptance block at `p`: `property n = body`, `scenario n =
/// (...)` (its body passed over, read as empty), `concurrency n =
/// [(attrs)] must pred`, `fault n = body [must pred]`, `coverage
/// (names)` or `execution (pack)`.
pub open spec fn block_at(ts: Seq<TokV>, p: int) -> Option<(BlockV, int)> {
    let named = match ident_at(ts, p + 1) {
        Some(n) => if tk(ts, p + 2).kind is Eq { Some(n) } else { None },
        None => None,
    };
    if is_word(ts, p, "property"@) {
        match named {
            Some(n) => match body_at(ts, p + 3, false) {
                Some((b, e)) => Some((BlockV::Property(n, b), e)),
                None => None,
            },
            None => None,
        }
    } else if is_word(ts, p, "scenario"@) {
        match named {
            Some(n) => {
                let e = if tk(ts, p + 3).kind is LParen { skip_balanced(ts, p + 4, 1) } else { p + 3 };
                Some((BlockV::Scenario(n, Seq::empty()), e))
            },
            None => None,
        }
    } else if is_word(ts, p, "concurrency"@) {
        match named {
            Some(n) => match opt_pack_at(ts, p + 3) {
                Some((a, e)) => if is_word(ts, e, "must"@) {
                    match pred_or_at(ts, e + 1) {
                        Some((m, e2)) => Some((BlockV::Concurrency(n, a, m), e2)),
                        None => None,
                    }
                } else {
                    None
                },
                None => None,
            },
            None => None,
        }
    } else if is_word(ts, p, "fault"@) {
        match named {
            Some(n) => match body_at(ts, p + 3, true) {
                Some((b, e)) => if is_word(ts, e, "must"@) {
                    match pred_or_at(ts, e + 1) {
                        Some((m, e2)) => Some((BlockV::Fault(n, b, Some(m)), e2)),
                        None => None,
                    }
                } else {
                    Some((BlockV::Fault(n, b, None), e))
                },
                None => None,
            },
            None => None,
        }
    } else if is_word(ts, p, "coverage"@) {
        if tk(ts, p + 1).kind is LParen {
            match ident_list(ts, p + 2, Seq::empty()) {
                Some((ns, e)) => if tk(ts, e).kind is RParen { Some((BlockV::Coverage(ns), e + 1)) } else { None },
                None => None,
            }
        } else {
            None
        }
    } else if is_word(ts, p, "execution"@) {
        match req_pack_at(ts, p + 1) {
            Some((a, e)) => Some((BlockV::Execution(a), e)),
            None => None,
        }
    } else {
        None
    }
}

/// Where reading `a, b, ...` from `p` stops.
pub open spec fn ident_list_end(ts: Seq<TokV>, p: int) -> int
    decreases ts.len() - p,
{
    if p < 0 || p > ts.len() || ident_at(ts, p) is None {
        p
    } else if tk(ts, p + 1).kind is Comma {
        ident_list_end(ts, p + 2)
    } else {
        p + 1
    }
}

/// Where reading a block body at `p` stops.
pub open spec fn body_end(ts: Seq<TokV>, p: int, stop_at_must: bool) -> int {
    if tk(ts, p).kind is LParen { pack_at(ts, p).1 } else { implicit_items(ts, p, stop_at_must, Seq::empty()).1 }
}

/// Where reading an acceptance block at `p` stops.
pub open spec fn block_end(ts: Seq<TokV>, p: int) -> int {
    let named = is_word(ts, p, "property"@) || is_word(ts, p, "scenario"@) || is_word(ts, p, "concurrency"@)
        || is_word(ts, p, "fault"@);
    if named && ident_at(ts, p + 1) is None {
        p + 1
    } else if named && !(tk(ts, p + 2).kind is Eq) {
        p + 2
    } else if is_word(ts, p, "property"@) {
        body_end(ts, p + 3, false)
    } else if is_word(ts, p, "scenario"@) {
        if tk(ts, p + 3).kind is LParen { skip_balanced(ts, p + 4, 1) } else { p + 3 }
    } else if is_word(ts, p, "concurrency"@) {
        let e = if tk(ts, p + 3).kind is LParen { pack_at(ts, p + 3).1 } else { p + 3 };
        if tk(ts, p + 3).kind is LParen && pack_at(ts, p + 3).0 is None {
            e
        } else if is_word(ts, e, "must"@) {
            pred_or_end(ts, e + 1)
        } else {
            e
        }
    } else if is_word(ts, p, "fault"@) {
        let e = body_end(ts, p + 3, true);
        if tk(ts, p + 3).kind is LParen && pack_at(ts, p + 3).0 is None {
            e
        } else if is_word(ts, e, "must"@) {
            pred_or_end(ts, e + 1)
        } else {
            e
        }
    } else if is_word(ts, p, "coverage"@) {
        if !(tk(ts, p + 1).kind is LParen) {
            p + 1
        } else {
            let e = ident_list_end(ts, p + 2);
            if ident_list(ts, p + 2, Seq::empty()) is Some && tk(ts, e).kind is RParen { e + 1 } else { e }
        }
    } else if is_word(ts, p, "execution"@) {
        pack_at(ts, p + 1).1
    } else {
        p
    }
}

/// The first position from `f` where a block may begin or the list
/// ends: `)`, `Eof` or a block keyword.
pub open spec fn to_block_stop(ts: Seq<TokV>, f: int) -> int
    decreases ts.len() - f,
{
    let k = tk(ts, f).kind;
    if f < 0 || f >= ts.len() || k is RParen || k is Eof || (k is Ident && block_keyword(k->Ident_0)) {
        f
    } else {
        to_block_stop(ts, f + 1)
    }
}

/// Past a `,` at `e`, if there is one.
pub open spec fn past_comma(ts: Seq<TokV>, e: int) -> int {
    if tk(ts, e).kind is Comma { e + 1 } else { e }
}

/// The blocks of an acceptance declaration from `pos`, each optionally
/// followed by `,`; a block that fails is passed over up to the next
/// block keyword or `)` (a `,` there passed over too). They end at
/// `)`, at `Eof`, or after a round that read nothing.
pub open spec fn acceptance_blocks(ts: Seq<TokV>, pos: int, acc: Seq<BlockV>) -> (Seq<BlockV>, int)
    decreases ts.len() - pos,
{
    let k = tk(ts, pos).kind;
    if pos < 0 || pos > ts.len() || k is RParen || k is Eof {
        (acc, pos)
    } else {
        let (acc2, q) = match block_at(ts, pos) {
            Some((b, e)) => (acc.push(b), past_comma(ts, e)),
            None => (acc, past_comma(ts, to_block_stop(ts, block_end(ts, pos)))),
        };
        if q <= pos || q > ts.len() {
            (acc2, q)
        } else {
            acceptance_blocks(ts, q, acc2)
        }
    }
}

pub open spec fn blocks_v(bs: Seq<AcceptanceBlock>) -> Seq<BlockV> {
    bs.map_values(|b: AcceptanceBlock| block_v(b))
}

/// `acceptance name = of subject (blocks)` at `p`.
pub open spec fn acceptance_at(ts: Seq<TokV>, p: int) -> Option<(IdentV, IdentV, Seq<BlockV>, int)> {
    match (ident_at(ts, p + 1), ident_at(ts, p + 4)) {
        (Some(name), Some(subject)) => if tk(ts, p + 2).kind is Eq && is_word(ts, p + 3, "of"@)
            && tk(ts, p + 5).kind is LParen {
            let (bs, e) = acceptance_blocks(ts, p + 6, Seq::empty());
            if tk(ts, e).kind is RParen { Some((name, subject, bs, e + 1)) } else { None }
        } else {
            None
        },
        _ => None,
    }
}

/// Where reading `(mode name, ...)` at `p` stops.
pub open spec fn fields_end(ts: Seq<TokV>, p: int) -> int {
    if !(tk(ts, p).kind is LParen) {
        p
    } else if tk(ts, p + 1).kind is RParen {
        p + 2
    } else {
        match field_items(ts, p + 1, Seq::empty()) {
            Some((_, e)) => if tk(ts, e).kind is RParen { e + 1 } else { e },
            None => field_items_end(ts, p + 1),
        }
    }
}

/// Where reading an operation at `p` stops.
pub open spec fn op_end(ts: Seq<TokV>, p: int) -> int {
    if !(is_word(ts, p, "cmd"@) || is_word(ts, p, "qry"@)) {
        p
    } else if ident_at(ts, p + 1) is None {
        p + 1
    } else if !(tk(ts, p + 2).kind is Eq) {
        p + 2
    } else {
        match fields_at(ts, p + 3) {
            None => fields_end(ts, p + 3),
            Some((_, e1)) => match mode_at(ts, e1) {
                None => mode_end(ts, e1),
                Some((_, e2)) => if !(tk(ts, e2).kind is Bang) {
                    e2
                } else if !(tk(ts, e2 + 1).kind is LParen) {
                    e2 + 1
                } else {
                    match ident_list(ts, e2 + 2, Seq::empty()) {
                        None => ident_list_end(ts, e2 + 2),
                        Some((_, e3)) => if tk(ts, e3).kind is RParen { e3 + 1 } else { e3 },
                    }
                },
            },
        }
    }
}

/// An operation: whether it is a command, its name, parameters,
/// output, errors and span.
pub open spec fn op_v(o: OpDecl) -> (bool, IdentV, Seq<(ModeV, IdentV)>, ModeV, Seq<IdentV>, (int, int)) {
    (o.kind is Cmd, ident_v(o.name), fields_v(o.params@), mode_v(o.output), idents_v(o.errors@), span_v(o.span))
}

pub open spec fn ops_v(os: Seq<OpDecl>) -> Seq<(bool, IdentV, Seq<(ModeV, IdentV)>, ModeV, Seq<IdentV>, (int, int))> {
    os.map_values(|o: OpDecl| op_v(o))
}

/// The operations of an interface from `pos`, each optionally followed
/// by `,`; one that fails is dropped, reading going on where it stopped.
/// They end at `)`, at `Eof`, or after a round that read nothing.
pub open spec fn interface_ops(
    ts: Seq<TokV>,
    pos: int,
    acc: Seq<(bool, IdentV, Seq<(ModeV, IdentV)>, ModeV, Seq<IdentV>, (int, int))>,
) -> (Seq<(bool, IdentV, Seq<(ModeV, IdentV)>, ModeV, Seq<IdentV>, (int, int))>, int)
    decreases ts.len() - pos,
{
    let k = tk(ts, pos).kind;
    if pos < 0 || pos > ts.len() || k is RParen || k is Eof {
        (acc, pos)
    } else {
        let (acc2, q) = match op_at(ts, pos) {
            Some((c, n, ps, out, errs, e)) => (acc.push((c, n, ps, out, errs, covering(ts, pos, e))), past_comma(ts, e)),
            None => (acc, op_end(ts, pos)),
        };
        if q <= pos || q > ts.len() {
            (acc2, q)
        } else {
            interface_ops(ts, q, acc2)
        }
    }
}

/// `interface name = for actor (ops)` at `p`.
pub open spec fn interface_at(ts: Seq<TokV>, p: int) -> Option<(IdentV, IdentV, Seq<(bool, IdentV, Seq<(ModeV, IdentV)>, ModeV, Seq<IdentV>, (int, int))>, int)> {
    match (ident_at(ts, p + 1), ident_at(ts, p + 4)) {
        (Some(name), Some(actor)) => if tk(ts, p + 2).kind is Eq && is_word(ts, p + 3, "for"@)
            && tk(ts, p + 5).kind is LParen {
            let (ops, e) = interface_ops(ts, p + 6, Seq::empty());
            if tk(ts, e).kind is RParen { Some((name, actor, ops, e + 1)) } else { None }
        } else {
            None
        },
        _ => None,
    }
}

// ---- where declarations stop ----

/// Where reading `/x/y...` from `q` stops.
pub open spec fn slash_path_end(ts: Seq<TokV>, q: int) -> int
    decreases ts.len() - q,
{
    if q < 0 || q > ts.len() {
        q
    } else if tk(ts, q).kind is Slash {
        if ident_at(ts, q + 1) is Some { slash_path_end(ts, q + 2) } else { q + 1 }
    } else {
        q
    }
}

/// Where reading `major.minor` at `p` stops.
pub open spec fn version_end(ts: Seq<TokV>, p: int) -> int {
    if !(tk(ts, p).kind is Int) {
        p
    } else if !(tk(ts, p + 1).kind is Dot) {
        p + 1
    } else if !(tk(ts, p + 2).kind is Int) {
        p + 2
    } else {
        p + 3
    }
}

/// Where reading `(attrs)`, if a `(` is at `p`, stops.
pub open spec fn opt_pack_end(ts: Seq<TokV>, p: int) -> int {
    if tk(ts, p).kind is LParen { pack_at(ts, p).1 } else { p }
}

pub open spec fn use_end(ts: Seq<TokV>, p: int) -> int {
    if ident_at(ts, p + 1) is None {
        p + 1
    } else {
        match slash_path(ts, p + 2, seq![ident_at(ts, p + 1)->0]) {
            None => slash_path_end(ts, p + 2),
            Some((_, e)) => if !(tk(ts, e).kind is At) {
                e
            } else if version_at(ts, e + 1) is None {
                version_end(ts, e + 1)
            } else {
                opt_pack_end(ts, e + 4)
            },
        }
    }
}

/// `application`, `component` or `state`: `kw name = (attrs)`.
pub open spec fn named_pack_at(ts: Seq<TokV>, p: int) -> Option<(IdentV, Seq<(IdentV, PackV, int, int)>, int)> {
    match ident_at(ts, p + 1) {
        Some(name) => if tk(ts, p + 2).kind is Eq {
            match req_pack_at(ts, p + 3) {
                Some((a, e)) => Some((name, a, e)),
                None => None,
            }
        } else {
            None
        },
        None => None,
    }
}

pub open spec fn named_pack_end(ts: Seq<TokV>, p: int) -> int {
    if ident_at(ts, p + 1) is None {
        p + 1
    } else if !(tk(ts, p + 2).kind is Eq) {
        p + 2
    } else {
        pack_at(ts, p + 3).1
    }
}

pub open spec fn actor_end(ts: Seq<TokV>, p: int) -> int {
    if ident_at(ts, p + 1) is None {
        p + 1
    } else if !(tk(ts, p + 2).kind is Eq) {
        p + 2
    } else if ident_at(ts, p + 3) is None {
        p + 3
    } else {
        opt_pack_end(ts, p + 4)
    }
}

pub open spec fn mode_decl_end(ts: Seq<TokV>, p: int) -> int {
    if ident_at(ts, p + 1) is None {
        p + 1
    } else if !(tk(ts, p + 2).kind is Eq) {
        p + 2
    } else {
        mode_end(ts, p + 3)
    }
}

/// After `p + 1`: `name =`, then the word `w` at `p + 3` and an
/// identifier at `p + 4`; where reading stops when one is missing, or
/// `None` when all are there.
pub open spec fn header_end(ts: Seq<TokV>, p: int, w: Seq<char>) -> Option<int> {
    if ident_at(ts, p + 1) is None {
        Some(p + 1)
    } else if !(tk(ts, p + 2).kind is Eq) {
        Some(p + 2)
    } else if !is_word(ts, p + 3, w) {
        Some(p + 3)
    } else if ident_at(ts, p + 4) is None {
        Some(p + 4)
    } else {
        None
    }
}

pub open spec fn interface_end(ts: Seq<TokV>, p: int) -> int {
    match header_end(ts, p, "for"@) {
        Some(f) => f,
        None => if !(tk(ts, p + 5).kind is LParen) {
            p + 5
        } else {
            let e = interface_ops(ts, p + 6, Seq::empty()).1;
            if tk(ts, e).kind is RParen { e + 1 } else { e }
        },
    }
}

pub open spec fn acceptance_end(ts: Seq<TokV>, p: int) -> int {
    match header_end(ts, p, "of"@) {
        Some(f) => f,
        None => if !(tk(ts, p + 5).kind is LParen) {
            p + 5
        } else {
            let e = acceptance_blocks(ts, p + 6, Seq::empty()).1;
            if tk(ts, e).kind is RParen { e + 1 } else { e }
        },
    }
}

pub open spec fn invariant_end(ts: Seq<TokV>, p: int) -> int {
    match header_end(ts, p, "on"@) {
        Some(f) => f,
        None => if !is_word(ts, p + 5, "always"@) { p + 5 } else { pred_or_end(ts, p + 6) },
    }
}

pub open spec fn flow_end(ts: Seq<TokV>, p: int) -> int {
    if ident_at(ts, p + 1) is None {
        p + 1
    } else if !(tk(ts, p + 2).kind is Eq) {
        p + 2
    } else if ident_at(ts, p + 3) is None {
        p + 3
    } else if !(tk(ts, p + 4).kind is Arrow) {
        p + 4
    } else if ident_at(ts, p + 5) is None {
        p + 5
    } else if !(tk(ts, p + 6).kind is Colon) {
        p + 6
    } else if ident_at(ts, p + 7) is None {
        p + 7
    } else {
        pack_at(ts, p + 8).1
    }
}

pub open spec fn behavior_end(ts: Seq<TokV>, p: int) -> int {
    match header_end(ts, p, "on"@) {
        Some(f) => f,
        None => if !(tk(ts, p + 5).kind is Dot) {
            p + 5
        } else if ident_at(ts, p + 6) is None {
            p + 6
        } else if !(tk(ts, p + 7).kind is LParen) {
            p + 7
        } else {
            match ident_list(ts, p + 8, Seq::empty()) {
                None => ident_list_end(ts, p + 8),
                Some((_, e1)) => if !(tk(ts, e1).kind is RParen) {
                    e1
                } else if !(tk(ts, e1 + 1).kind is LParen) {
                    e1 + 1
                } else {
                    let e2 = behavior_body(ts, e1 + 2, false, Seq::empty(), Seq::empty()).2;
                    if tk(ts, e2).kind is RParen { e2 + 1 } else { e2 }
                },
            }
        },
    }
}

pub open spec fn constraint_end(ts: Seq<TokV>, p: int) -> int {
    if ident_at(ts, p + 1) is None {
        p + 1
    } else if !(tk(ts, p + 2).kind is Eq) {
        p + 2
    } else if ident_at(ts, p + 3) is None {
        p + 3
    } else if !is_word(ts, p + 4, "on"@) {
        p + 4
    } else if ident_at(ts, p + 5) is None {
        p + 5
    } else if !is_word(ts, p + 6, "under"@) {
        p + 6
    } else {
        match pack_at(ts, p + 7) {
            (None, e) => e,
            (Some(_), e) => if !is_word(ts, e, "must"@) { e } else { pred_or_end(ts, e + 1) },
        }
    }
}

pub open spec fn synthesis_end(ts: Seq<TokV>, p: int) -> int {
    match header_end(ts, p, "target"@) {
        Some(f) => f,
        None => if tk(ts, p + 5).kind is Slash {
            if ident_at(ts, p + 6) is None { p + 6 } else { pack_at(ts, p + 7).1 }
        } else {
            pack_at(ts, p + 5).1
        },
    }
}

// ---- declarations as values ----

pub enum DeclV {
    Use(Seq<IdentV>, Seq<char>, Seq<(IdentV, PackV, int, int)>, (int, int)),
    Application(IdentV, Seq<(IdentV, PackV, int, int)>, (int, int)),
    Actor(IdentV, IdentV, Seq<(IdentV, PackV, int, int)>, (int, int)),
    Mode(IdentV, ModeV, (int, int)),
    Component(IdentV, Seq<(IdentV, PackV, int, int)>, (int, int)),
    Interface(IdentV, IdentV, Seq<(bool, IdentV, Seq<(ModeV, IdentV)>, ModeV, Seq<IdentV>, (int, int))>, (int, int)),
    State(IdentV, Seq<(IdentV, PackV, int, int)>, (int, int)),
    Flow(Seq<IdentV>, Seq<(IdentV, PackV, int, int)>, (int, int)),
    Behavior(Seq<IdentV>, Seq<IdentV>, Seq<(IdentV, PackV, int, int)>, Seq<ClauseV>, (int, int)),
    Invariant(IdentV, IdentV, PredV, (int, int)),
    Constraint(Seq<IdentV>, Seq<(IdentV, PackV, int, int)>, PredV, (int, int)),
    Synthesis(IdentV, IdentV, Option<IdentV>, Seq<(IdentV, PackV, int, int)>, (int, int)),
    Acceptance(IdentV, IdentV, Seq<BlockV>, (int, int)),
}

pub open spec fn decl_v(d: Decl) -> DeclV {
    match d {
        Decl::Use(u) => DeclV::Use(idents_v(u.path@), u.version@, pack_items_v(u.args@), span_v(u.span)),
        Decl::Application(a) => DeclV::Application(ident_v(a.name), pack_items_v(a.attrs@), span_v(a.span)),
        Decl::Actor(a) => DeclV::Actor(ident_v(a.name), ident_v(a.kind), pack_items_v(a.attrs@), span_v(a.span)),
        Decl::Mode(m) => DeclV::Mode(ident_v(m.name), mode_v(m.expr), span_v(m.span)),
        Decl::Component(c) => DeclV::Component(ident_v(c.name), pack_items_v(c.attrs@), span_v(c.span)),
        Decl::Interface(i) => DeclV::Interface(ident_v(i.name), ident_v(i.default_actor), ops_v(i.ops@), span_v(i.span)),
        Decl::State(st) => DeclV::State(ident_v(st.name), pack_items_v(st.attrs@), span_v(st.span)),
        Decl::Flow(f) => DeclV::Flow(
            seq![ident_v(f.name), ident_v(f.from), ident_v(f.to), ident_v(f.kind)],
            pack_items_v(f.attrs@),
            span_v(f.span),
        ),
        Decl::Behavior(b) => DeclV::Behavior(
            seq![ident_v(b.name), ident_v(b.on_interface), ident_v(b.on_op)],
            idents_v(b.binders@),
            pack_items_v(b.attrs@),
            clauses_v(b.clauses@),
            span_v(b.span),
        ),
        Decl::Invariant(i) => DeclV::Invariant(ident_v(i.name), ident_v(i.scope), pred_v(i.always), span_v(i.span)),
        Decl::Constraint(c) => DeclV::Constraint(
            seq![ident_v(c.name), ident_v(c.class), ident_v(c.scope)],
            pack_items_v(c.under@),
            pred_v(c.must),
            span_v(c.span),
        ),
        Decl::Synthesis(x) => DeclV::Synthesis(
            ident_v(x.name),
            ident_v(x.target_lang),
            opt_ident_v(x.target_framework),
            pack_items_v(x.attrs@),
            span_v(x.span),
        ),
        Decl::Acceptance(a) => DeclV::Acceptance(ident_v(a.name), ident_v(a.subject), blocks_v(a.blocks@), span_v(a.span)),
    }
}

/// A declaration at `p`, chosen by its keyword, and the position after.
pub open spec fn decl_at(ts: Seq<TokV>, p: int) -> Option<(DeclV, int)> {
    match tk(ts, p).kind {
        KindV::Ident(w) => if w == "use"@ {
            match use_at(ts, p) {
                Some((path, v, args, e)) => Some((DeclV::Use(path, v, args, covering(ts, p, e)), e)),
                None => None,
            }
        } else if w == "application"@ || w == "component"@ || w == "state"@ {
            match named_pack_at(ts, p) {
                Some((n, a, e)) => {
                    let sp = covering(ts, p, e);
                    Some((
                        if w == "application"@ {
                            DeclV::Application(n, a, sp)
                        } else if w == "component"@ {
                            DeclV::Component(n, a, sp)
                        } else {
                            DeclV::State(n, a, sp)
                        },
                        e,
                    ))
                },
                None => None,
            }
        } else if w == "actor"@ {
            match actor_at(ts, p) {
                Some((n, k, a, e)) => Some((DeclV::Actor(n, k, a, covering(ts, p, e)), e)),
                None => None,
            }
        } else if w == "mode"@ {
            match mode_decl_at(ts, p) {
                Some((n, m, e)) => Some((DeclV::Mode(n, m, covering(ts, p, e)), e)),
                None => None,
            }
        } else if w == "interface"@ {
            match interface_at(ts, p) {
                Some((n, a, ops, e)) => Some((DeclV::Interface(n, a, ops, covering(ts, p, e)), e)),
                None => None,
            }
        } else if w == "flow"@ {
            match flow_at(ts, p) {
                Some((ns, a, e)) => Some((DeclV::Flow(ns, a, covering(ts, p, e)), e)),
                None => None,
            }
        } else if w == "behavior"@ {
            match behavior_at(ts, p) {
                Some((ns, bs, a, cs, e)) => Some((DeclV::Behavior(ns, bs, a, cs, covering(ts, p, e)), e)),
                None => None,
            }
        } else if w == "inv"@ {
            match invariant_at(ts, p) {
                Some((n, sc, x, e)) => Some((DeclV::Invariant(n, sc, x, covering(ts, p, e)), e)),
                None => None,
            }
        } else if w == "constraint"@ {
            match constraint_at(ts, p) {
                Some((ns, u, m, e)) => Some((DeclV::Constraint(ns, u, m, covering(ts, p, e)), e)),
                None => None,
            }
        } else if w == "synthesis"@ {
            match synthesis_at(ts, p) {
                Some((n, l, f, a, e)) => Some((DeclV::Synthesis(n, l, f, a, covering(ts, p, e)), e)),
                None => None,
            }
        } else if w == "acceptance"@ {
            match acceptance_at(ts, p) {
                Some((n, sub, bs, e)) => Some((DeclV::Acceptance(n, sub, bs, covering(ts, p, e)), e)),
                None => None,
            }
        } else {
            None
        },
        _ => None,
    }
}

/// Where reading a declaration at `p` stops.
pub open spec fn decl_end(ts: Seq<TokV>, p: int) -> int {
    match tk(ts, p).kind {
        KindV::Ident(w) => if w == "use"@ {
            use_end(ts, p)
        } else if w == "application"@ || w == "component"@ || w == "state"@ {
            named_pack_end(ts, p)
        } else if w == "actor"@ {
            actor_end(ts, p)
        } else if w == "mode"@ {
            mode_decl_end(ts, p)
        } else if w == "interface"@ {
            interface_end(ts, p)
        } else if w == "flow"@ {
            flow_end(ts, p)
        } else if w == "behavior"@ {
            behavior_end(ts, p)
        } else if w == "inv"@ {
            invariant_end(ts, p)
        } else if w == "constraint"@ {
            constraint_end(ts, p)
        } else if w == "synthesis"@ {
            synthesis_end(ts, p)
        } else if w == "acceptance"@ {
            acceptance_end(ts, p)
        } else {
            p
        },
        _ => p,
    }
}

// ---- the file ----

/// `(` minus `)` over the first `n` tokens, held within `i64`.
pub open spec fn depth_before(ts: Seq<TokV>, n: int) -> int
    decreases n,
{
    if n <= 0 {
        0
    } else {
        let d = depth_before(ts, n - 1);
        let k = tk(ts, n - 1).kind;
        if k is LParen {
            if d < i64::MAX { d + 1 } else { d }
        } else if k is RParen {
            if d > i64::MIN { d - 1 } else { d }
        } else {
            d
        }
    }
}

/// Recovery after a declaration that failed, from `pos` at parenthesis
/// depth `d`: at depth 0 it stops before a declaration keyword, and a
/// group `( ... )` is passed over whole; at depth 1 it stops past the
/// `)` that closes the group; it stops at `Eof`.
pub open spec fn skip_decl(ts: Seq<TokV>, pos: int, d: int) -> int
    decreases ts.len() - pos,
{
    let k = tk(ts, pos).kind;
    if pos < 0 || pos >= ts.len() || k is Eof {
        pos
    } else if k is LParen {
        if d == 0 {
            let q = skip_decl(ts, pos + 1, 1);
            if q <= pos || q > ts.len() { q } else { skip_decl(ts, q, d) }
        } else {
            skip_decl(ts, pos + 1, d)
        }
    } else if k is RParen {
        if d == 1 { pos + 1 } else { skip_decl(ts, pos + 1, d) }
    } else if k is Ident && d == 0 && decl_keyword(k->Ident_0) {
        pos
    } else {
        skip_decl(ts, pos + 1, d)
    }
}

/// The declarations of a file from `pos` up to `Eof`; after one that
/// fails, reading goes on where recovery stops (see `skip_decl`); it
/// ends after a round that read nothing.
pub open spec fn decls_from(ts: Seq<TokV>, pos: int, acc: Seq<DeclV>) -> (Seq<DeclV>, int)
    decreases ts.len() - pos,
{
    if pos < 0 || pos > ts.len() || tk(ts, pos).kind is Eof {
        (acc, pos)
    } else {
        let (acc2, q) = match decl_at(ts, pos) {
            Some((d, e)) => (acc.push(d), e),
            None => {
                let f = decl_end(ts, pos);
                (acc, skip_decl(ts, f, depth_before(ts, f)))
            },
        };
        if q <= pos || q > ts.len() {
            (acc2, q)
        } else {
            decls_from(ts, q, acc2)
        }
    }
}

/// `, x, y ...` from `q`, appended to `acc`; a `,` not followed by an
/// identifier ends them just after it.
pub open spec fn exports_from(ts: Seq<TokV>, q: int, acc: Seq<IdentV>) -> (Seq<IdentV>, int)
    decreases ts.len() - q,
{
    if q < 0 || q > ts.len() || !(tk(ts, q).kind is Comma) {
        (acc, q)
    } else {
        match ident_at(ts, q + 1) {
            Some(i) => exports_from(ts, q + 2, acc.push(i)),
            None => (acc, q + 1),
        }
    }
}

/// `spec name = v major.minor owner name exports name, ...` at `p`: the
/// name, the version text, the owner, the exports, and the position
/// after.
pub open spec fn spec_at(ts: Seq<TokV>, p: int) -> Option<(IdentV, Seq<char>, IdentV, Seq<IdentV>, int)> {
    match (ident_at(ts, p + 1), version_at(ts, p + 4), ident_at(ts, p + 8), ident_at(ts, p + 10)) {
        (Some(name), Some(v), Some(owner), Some(first)) => if is_word(ts, p, "spec"@) && tk(ts, p + 2).kind is Eq
            && is_word(ts, p + 3, "v"@) && is_word(ts, p + 7, "owner"@) && is_word(ts, p + 9, "exports"@) {
            let (ex, e) = exports_from(ts, p + 11, seq![first]);
            Some((name, v, owner, ex, e))
        } else {
            None
        },
        _ => None,
    }
}

pub open spec fn spec_decl_v(d: SpecDecl) -> (IdentV, Seq<char>, IdentV, Seq<IdentV>, (int, int)) {
    (ident_v(d.name), d.version@, ident_v(d.owner), idents_v(d.exports@), span_v(d.span))
}

pub open spec fn decls_v(ds: Seq<Decl>) -> Seq<DeclV> {
    ds.map_values(|d: Decl| decl_v(d))
}

/// A file at `p`: its spec declaration (with its span) and the
/// declarations after it; none when the tokens end at once or the spec
/// declaration fails.
pub open spec fn file_at(ts: Seq<TokV>, p: int) -> Option<((IdentV, Seq<char>, IdentV, Seq<IdentV>, (int, int)), Seq<DeclV>)> {
    if tk(ts, p).kind is Eof {
        None
    } else {
        match spec_at(ts, p) {
            Some((name, v, owner, ex, e)) => Some(((name, v, owner, ex, covering(ts, p, e)), decls_from(ts, e, Seq::empty()).0)),
            None => None,
        }
    }
}

// ---- reading without a diagnostic ----
//
// A parse is clean when it reports no diagnostic: every part of it is
// read, none through recovery.

/// A pack value at `p` is read cleanly.
pub open spec fn pack_value_clean(ts: Seq<TokV>, p: int) -> bool
    decreases ts.len() - p, 0nat,
{
    if p < 0 || p > ts.len() {
        false
    } else {
        pack_value_at(ts, p).0 is Some && match tk(ts, p).kind {
            KindV::LParen => paren_clean(ts, p + 1),
            KindV::Ident(_) => tk(ts, p + 1).kind is LParen && !(tk(ts, p + 2).kind is RParen) ==> call_args_clean(
                ts,
                p + 2,
                0,
            ),
            _ => true,
        }
    }
}

/// The inside of `( ... )` from `q` is read cleanly.
pub open spec fn paren_clean(ts: Seq<TokV>, q: int) -> bool
    decreases ts.len() - q, 3nat,
{
    if q < 0 || q > ts.len() {
        false
    } else if tk(ts, q).kind is RParen {
        true
    } else {
        let keyed = ident_at(ts, q) is Some && match pack_item_at(ts, q) {
            (Some(it), q2) => !(it.1 is Unit) && q < q2 <= ts.len(),
            (None, _) => false,
        };
        paren_value_at(ts, q).0 is Some && if keyed {
            item_clean(ts, q) && nested_clean(ts, pack_item_at(ts, q).1, 0)
        } else {
            (ident_at(ts, q) is Some ==> item_clean(ts, q)) && value_list_clean(ts, q, 0)
        }
    }
}

/// A pack item at `p` is read cleanly: its value, if it has one, is.
pub open spec fn item_clean(ts: Seq<TokV>, p: int) -> bool
    decreases ts.len() - p, 1nat,
{
    if p < 0 || p > ts.len() || ident_at(ts, p) is None {
        false
    } else {
        let k = tk(ts, p + 1).kind;
        separator(k) || k is RParen || pack_value_clean(ts, p + 1)
    }
}

pub open spec fn nested_clean(ts: Seq<TokV>, pos: int, k: int) -> bool
    decreases ts.len() - pos, 2nat,
{
    if pos < 0 || pos > ts.len() {
        true
    } else if separator(tk(ts, pos).kind) && k < 1000 {
        let s = pos + 1;
        if tk(ts, s).kind is RParen {
            true
        } else {
            match pack_item_at(ts, s) {
                (Some(_), e) => item_clean(ts, s) && (e <= s || e > ts.len() || nested_clean(ts, e, k + 1)),
                (None, _) => false,
            }
        }
    } else {
        true
    }
}

pub open spec fn value_list_clean(ts: Seq<TokV>, pos: int, k: int) -> bool
    decreases ts.len() - pos, 2nat,
{
    if pos < 0 || pos > ts.len() || k >= 1000 {
        true
    } else {
        match pack_value_at(ts, pos) {
            (None, _) => false,
            (Some(_), e) => pack_value_clean(ts, pos) && (e <= pos || e > ts.len() || !(tk(ts, e).kind is Comma)
                || tk(ts, e + 1).kind is RParen || value_list_clean(ts, e + 1, k + 1)),
        }
    }
}

pub open spec fn call_args_clean(ts: Seq<TokV>, pos: int, k: int) -> bool
    decreases ts.len() - pos, 2nat,
{
    if pos < 0 || pos > ts.len() || k >= 1000 {
        true
    } else {
        match pack_item_at(ts, pos) {
            (None, _) => false,
            (Some(_), e) => item_clean(ts, pos) && (e < pos || e > ts.len() || !separator(tk(ts, e).kind)
                || call_args_clean(ts, e + 1, k + 1)),
        }
    }
}

pub open spec fn pack_items_clean(ts: Seq<TokV>, pos: int) -> bool
    decreases ts.len() - pos,
{
    if pos < 0 || pos > ts.len() {
        true
    } else {
        match pack_item_at(ts, pos) {
            (None, _) => false,
            (Some(_), e) => item_clean(ts, pos) && (e < pos || e > ts.len() || !separator(tk(ts, e).kind)
                || tk(ts, e + 1).kind is RParen || pack_items_clean(ts, e + 1)),
        }
    }
}

/// A pack `( items )` at `p` is read cleanly.
pub open spec fn pack_clean(ts: Seq<TokV>, p: int) -> bool {
    pack_at(ts, p).0 is Some && (tk(ts, p + 1).kind is RParen || pack_items_clean(ts, p + 1))
}

pub open spec fn opt_pack_clean(ts: Seq<TokV>, p: int) -> bool {
    tk(ts, p).kind is LParen ==> pack_clean(ts, p)
}

pub open spec fn implicit_clean(ts: Seq<TokV>, pos: int, stop_at_must: bool) -> bool
    decreases ts.len() - pos,
{
    let k = tk(ts, pos).kind;
    if pos < 0 || pos > ts.len() || (stop_at_must && is_word(ts, pos, "must"@)) || k is Comma || k is RParen || k is Eof {
        true
    } else {
        match pack_item_at(ts, pos) {
            (None, _) => false,
            (Some(_), e) => item_clean(ts, pos) && (e <= pos || e > ts.len() || implicit_clean(ts, e, stop_at_must)),
        }
    }
}

pub open spec fn body_clean(ts: Seq<TokV>, p: int, stop_at_must: bool) -> bool {
    if tk(ts, p).kind is LParen { pack_clean(ts, p) } else { implicit_clean(ts, p, stop_at_must) }
}

/// A clause at `p` is read cleanly: the qualifiers of `emits` end at a
/// clause stop.
pub open spec fn clause_clean(ts: Seq<TokV>, p: int) -> bool {
    clause_at(ts, p) is Some && (is_word(ts, p, "requires"@) || is_word(ts, p, "ensures"@) || is_word(ts, p, "returns"@)
        || is_word(ts, p, "fails"@) || clause_stop(tk(ts, qualifiers(ts, p + 2, Seq::empty()).1).kind))
}

pub open spec fn items_step_clean(ts: Seq<TokV>, pos: int, in_clauses: bool) -> bool {
    let k = tk(ts, pos).kind;
    in_clauses || (k is Ident && clause_keyword(k->Ident_0)) || k is Semi || (pack_item_at(ts, pos).0 is Some
        && item_clean(ts, pos))
}

pub open spec fn behavior_body_clean(ts: Seq<TokV>, pos: int, in_clauses: bool) -> bool
    decreases ts.len() - pos,
{
    let k = tk(ts, pos).kind;
    if pos < 0 || pos > ts.len() || k is RParen || k is Eof {
        true
    } else {
        let (ic, skip_rest, _, p1) = behavior_items_step(ts, pos, in_clauses, Seq::empty());
        let p2 = behavior_clause_step(ts, p1, ic && !skip_rest, Seq::empty()).1;
        items_step_clean(ts, pos, in_clauses) && (!(ic && !skip_rest) || clause_clean(ts, p1)) && (p2 <= pos
            || p2 > ts.len() || behavior_body_clean(ts, p2, ic))
    }
}

pub open spec fn ops_clean(ts: Seq<TokV>, pos: int) -> bool
    decreases ts.len() - pos,
{
    let k = tk(ts, pos).kind;
    if pos < 0 || pos > ts.len() || k is RParen || k is Eof {
        true
    } else {
        match op_at(ts, pos) {
            None => false,
            Some((_, _, _, _, _, e)) => {
                let q = past_comma(ts, e);
                q <= pos || q > ts.len() || ops_clean(ts, q)
            },
        }
    }
}

pub open spec fn block_clean(ts: Seq<TokV>, p: int) -> bool {
    block_at(ts, p) is Some && if is_word(ts, p, "property"@) {
        body_clean(ts, p + 3, false)
    } else if is_word(ts, p, "scenario"@) {
        true
    } else if is_word(ts, p, "concurrency"@) {
        opt_pack_clean(ts, p + 3)
    } else if is_word(ts, p, "fault"@) {
        body_clean(ts, p + 3, true)
    } else if is_word(ts, p, "coverage"@) {
        true
    } else {
        pack_clean(ts, p + 1)
    }
}

pub open spec fn blocks_clean(ts: Seq<TokV>, pos: int) -> bool
    decreases ts.len() - pos,
{
    let k = tk(ts, pos).kind;
    if pos < 0 || pos > ts.len() || k is RParen || k is Eof {
        true
    } else {
        match block_at(ts, pos) {
            None => false,
            Some((_, e)) => {
                let q = past_comma(ts, e);
                block_clean(ts, pos) && (q <= pos || q > ts.len() || blocks_clean(ts, q))
            },
        }
    }
}

/// A declaration at `p` is read cleanly.
pub open spec fn decl_clean(ts: Seq<TokV>, p: int) -> bool {
    decl_at(ts, p) is Some && match tk(ts, p).kind {
        KindV::Ident(w) => if w == "use"@ {
            match slash_path(ts, p + 2, seq![ident_at(ts, p + 1)->0]) {
                Some((_, e)) => opt_pack_clean(ts, e + 4),
                None => false,
            }
        } else if w == "application"@ || w == "component"@ || w == "state"@ {
            pack_clean(ts, p + 3)
        } else if w == "actor"@ {
            opt_pack_clean(ts, p + 4)
        } else if w == "mode"@ {
            true
        } else if w == "interface"@ {
            ops_clean(ts, p + 6)
        } else if w == "flow"@ {
            pack_clean(ts, p + 8)
        } else if w == "behavior"@ {
            match ident_list(ts, p + 8, Seq::empty()) {
                Some((_, e1)) => behavior_body_clean(ts, e1 + 2, false),
                None => false,
            }
        } else if w == "inv"@ {
            true
        } else if w == "constraint"@ {
            pack_clean(ts, p + 7)
        } else if w == "synthesis"@ {
            if tk(ts, p + 5).kind is Slash { pack_clean(ts, p + 7) } else { pack_clean(ts, p + 5) }
        } else if w == "acceptance"@ {
            blocks_clean(ts, p + 6)
        } else {
            true
        },
        _ => true,
    }
}

pub open spec fn decls_clean(ts: Seq<TokV>, pos: int) -> bool
    decreases ts.len() - pos,
{
    if pos < 0 || pos > ts.len() || tk(ts, pos).kind is Eof {
        true
    } else {
        match decl_at(ts, pos) {
            None => false,
            Some((_, e)) => decl_clean(ts, pos) && (e <= pos || e > ts.len() || decls_clean(ts, e)),
        }
    }
}

pub open spec fn exports_clean(ts: Seq<TokV>, q: int) -> bool
    decreases ts.len() - q,
{
    if q < 0 || q > ts.len() || !(tk(ts, q).kind is Comma) {
        true
    } else {
        ident_at(ts, q + 1) is Some && exports_clean(ts, q + 2)
    }
}

pub open spec fn spec_clean(ts: Seq<TokV>, p: int) -> bool {
    spec_at(ts, p) is Some && exports_clean(ts, p + 11)
}

/// A file at `p` is read with no diagnostic: its spec declaration and
/// every declaration after it are read cleanly.
pub open spec fn file_clean(ts: Seq<TokV>, p: int) -> bool {
    !(tk(ts, p).kind is Eof) && match spec_at(ts, p) {
        Some((_, _, _, _, e)) => exports_clean(ts, p + 11) && decls_clean(ts, e),
        None => false,
    }
}

/// The span from the token at `p` to the one before `e`, as the
/// parser joins them for a declaration.
pub open spec fn covering(ts: Seq<TokV>, p: int, e: int) -> (int, int) {
    let a = tk(ts, p);
    let b = tk(ts, e - 1);
    (if a.start <= b.start { a.start } else { b.start }, if a.end >= b.end { a.end } else { b.end })
}

pub open spec fn span_v(s: Span) -> (int, int) {
    (s.start as int, s.end as int)
}

/// `mode name = m` at `p`: the name, the mode, and the position after.
pub open spec fn mode_decl_at(ts: Seq<TokV>, p: int) -> Option<(IdentV, ModeV, int)> {
    match ident_at(ts, p + 1) {
        Some(name) => if tk(ts, p + 2).kind is Eq {
            match mode_at(ts, p + 3) {
                Some((m, e)) => Some((name, m, e)),
                None => None,
            }
        } else {
            None
        },
        None => None,
    }
}

/// `inv name = on scope always pred` at `p`: the name, the scope, the
/// predicate, and the position after.
pub open spec fn invariant_at(ts: Seq<TokV>, p: int) -> Option<(IdentV, IdentV, PredV, int)> {
    match (ident_at(ts, p + 1), ident_at(ts, p + 4)) {
        (Some(name), Some(scope)) => if tk(ts, p + 2).kind is Eq && is_word(ts, p + 3, "on"@) && is_word(ts, p + 5, "always"@) {
            match pred_or_at(ts, p + 6) {
                Some((a, e)) => Some((name, scope, a, e)),
                None => None,
            }
        } else {
            None
        },
        _ => None,
    }
}

/// Where reading a mode expression at `p` stops, whether it is read
/// (then the position `mode_at` gives) or not.
pub open spec fn mode_end(ts: Seq<TokV>, p: int) -> int
    decreases ts.len() - p, 0nat,
{
    if p < 0 || p > ts.len() {
        p
    } else if is_word(ts, p, "opaque"@) || is_word(ts, p, "opt"@) {
        mode_end(ts, p + 1)
    } else if is_word(ts, p, "enum"@) || is_word(ts, p, "union"@) {
        if !(tk(ts, p + 1).kind is LParen) {
            p + 1
        } else if tk(ts, p + 2).kind is RParen {
            p + 3
        } else if is_word(ts, p, "enum"@) {
            match enum_items(ts, p + 2, Seq::empty()) {
                Some((_, e)) => if tk(ts, e).kind is RParen { e + 1 } else { e },
                None => enum_items_end(ts, p + 2),
            }
        } else {
            match union_items(ts, p + 2, Seq::empty()) {
                Some((_, e)) => if tk(ts, e).kind is RParen { e + 1 } else { e },
                None => union_items_end(ts, p + 2),
            }
        }
    } else if is_word(ts, p, "struct"@) || tk(ts, p).kind is LParen {
        let b = if is_word(ts, p, "struct"@) { p + 2 } else { p + 1 };
        if is_word(ts, p, "struct"@) && !(tk(ts, p + 1).kind is LParen) {
            p + 1
        } else if tk(ts, b).kind is RParen {
            b + 1
        } else {
            match field_items(ts, b, Seq::empty()) {
                Some((_, e)) => if tk(ts, e).kind is RParen { e + 1 } else { e },
                None => field_items_end(ts, b),
            }
        }
    } else if ident_at(ts, p) is None {
        p
    } else {
        let q = p + 1;
        if tk(ts, q).kind is LParen {
            let lo = int_at(ts, q + 1);
            if lo is Some && tk(ts, q + 2).kind is DotDot {
                let e = if int_at(ts, q + 3) is Some { q + 4 } else { q + 3 };
                if tk(ts, e).kind is RParen { e + 1 } else { e }
            } else if lo is None && tk(ts, q + 1).kind is DotDot {
                let e = if int_at(ts, q + 2) is Some { q + 3 } else { q + 2 };
                if tk(ts, e).kind is RParen { e + 1 } else { e }
            } else {
                let a = if lo is Some { q + 2 } else { q + 1 };
                if tk(ts, a).kind is RParen {
                    a + 1
                } else {
                    match mode_list(ts, a, Seq::empty()) {
                        Some((_, e)) => if tk(ts, e).kind is RParen { e + 1 } else { e },
                        None => mode_list_end(ts, a),
                    }
                }
            }
        } else if tk(ts, q).kind is DotDot {
            if int_at(ts, q + 1) is Some { q + 2 } else { q + 1 }
        } else {
            q
        }
    }
}

/// Where the items of an enum that fail to read stop: at the first
/// place an identifier is missing.
pub open spec fn enum_items_end(ts: Seq<TokV>, p: int) -> int
    decreases ts.len() - p,
{
    if p < 0 || p > ts.len() || ident_at(ts, p) is None {
        p
    } else if tk(ts, p + 1).kind is Comma && !(tk(ts, p + 2).kind is RParen) {
        enum_items_end(ts, p + 2)
    } else {
        p + 1
    }
}

/// Where the variants of a union that fail to read stop.
pub open spec fn union_items_end(ts: Seq<TokV>, p: int) -> int
    decreases ts.len() - p, 1nat,
{
    if p < 0 || p > ts.len() || ident_at(ts, p) is None {
        p
    } else {
        match mode_at(ts, p + 1) {
            None => mode_end(ts, p + 1),
            Some((_, q)) => if q <= p + 1 || q > ts.len() {
                q
            } else if tk(ts, q).kind is Comma && !(tk(ts, q + 1).kind is RParen) {
                union_items_end(ts, q + 1)
            } else {
                q
            },
        }
    }
}

/// Where fields that fail to read stop.
pub open spec fn field_items_end(ts: Seq<TokV>, p: int) -> int
    decreases ts.len() - p, 1nat,
{
    if p < 0 || p > ts.len() {
        p
    } else {
        match mode_at(ts, p) {
            None => mode_end(ts, p),
            Some((_, q)) => if q <= p || q > ts.len() || ident_at(ts, q) is None {
                q
            } else if tk(ts, q + 1).kind is Comma && !(tk(ts, q + 2).kind is RParen) {
                field_items_end(ts, q + 2)
            } else {
                q + 1
            },
        }
    }
}

/// Where mode arguments that fail to read stop.
pub open spec fn mode_list_end(ts: Seq<TokV>, p: int) -> int
    decreases ts.len() - p, 1nat,
{
    if p < 0 || p > ts.len() {
        p
    } else {
        match mode_at(ts, p) {
            None => mode_end(ts, p),
            Some((_, q)) => if q <= p || q > ts.len() {
                q
            } else if tk(ts, q).kind is Comma {
                mode_list_end(ts, q + 1)
            } else {
                q
            },
        }
    }
}

/// `p or p ...`, left-associated.
pub open spec fn pred_or_at(ts: Seq<TokV>, p: int) -> Option<(PredV, int)>
    decreases ts.len() - p, 5nat,
{
    if p < 0 || p > ts.len() {
        None
    } else {
        match pred_and_at(ts, p) {
            None => None,
            Some((l, q)) => if q <= p || q > ts.len() { None } else { or_tail(ts, q, l) },
        }
    }
}

pub open spec fn or_tail(ts: Seq<TokV>, q: int, l: PredV) -> Option<(PredV, int)>
    decreases ts.len() - q, 4nat,
{
    if q < 0 || q > ts.len() {
        None
    } else if is_word(ts, q, "or"@) {
        match pred_and_at(ts, q + 1) {
            None => None,
            Some((r, e)) => if e <= q + 1 || e > ts.len() {
                None
            } else {
                or_tail(ts, e, PredV::Or(Box::new(l), Box::new(r)))
            },
        }
    } else {
        Some((l, q))
    }
}

/// `p and p ...`, left-associated.
pub open spec fn pred_and_at(ts: Seq<TokV>, p: int) -> Option<(PredV, int)>
    decreases ts.len() - p, 3nat,
{
    if p < 0 || p > ts.len() {
        None
    } else {
        match pred_not_at(ts, p) {
            None => None,
            Some((l, q)) => if q <= p || q > ts.len() { None } else { and_tail(ts, q, l) },
        }
    }
}

pub open spec fn and_tail(ts: Seq<TokV>, q: int, l: PredV) -> Option<(PredV, int)>
    decreases ts.len() - q, 2nat,
{
    if q < 0 || q > ts.len() {
        None
    } else if is_word(ts, q, "and"@) {
        match pred_not_at(ts, q + 1) {
            None => None,
            Some((r, e)) => if e <= q + 1 || e > ts.len() {
                None
            } else {
                and_tail(ts, e, PredV::And(Box::new(l), Box::new(r)))
            },
        }
    } else {
        Some((l, q))
    }
}

/// `not p`, or an atom.
pub open spec fn pred_not_at(ts: Seq<TokV>, p: int) -> Option<(PredV, int)>
    decreases ts.len() - p, 1nat,
{
    if p < 0 || p > ts.len() {
        None
    } else if is_word(ts, p, "not"@) {
        match pred_not_at(ts, p + 1) {
            None => None,
            Some((x, e)) => Some((PredV::Not(Box::new(x)), e)),
        }
    } else {
        pred_atom_at(ts, p)
    }
}

/// `for all M x: p`, `exists M x [:] p`, a comparison, a call, or a
/// one-segment path read as a word.
pub open spec fn pred_atom_at(ts: Seq<TokV>, p: int) -> Option<(PredV, int)>
    decreases ts.len() - p, 0nat,
{
    if p < 0 || p > ts.len() {
        None
    } else if is_word(ts, p, "for"@) {
        if !is_word(ts, p + 1, "all"@) {
            None
        } else {
            match (ident_at(ts, p + 2), ident_at(ts, p + 3)) {
                (Some(m), Some(v)) => if tk(ts, p + 4).kind is Colon {
                    match pred_or_at(ts, p + 5) {
                        Some((b, e)) => Some((PredV::ForAll(m, v, Box::new(b)), e)),
                        None => None,
                    }
                } else {
                    None
                },
                _ => None,
            }
        }
    } else if is_word(ts, p, "exists"@) {
        match (ident_at(ts, p + 1), ident_at(ts, p + 2)) {
            (Some(m), Some(v)) => {
                let b = if tk(ts, p + 3).kind is Colon { p + 4 } else { p + 3 };
                if tk(ts, p + 3).kind is Colon || is_word(ts, p + 3, ":"@) {
                    match pred_or_at(ts, b) {
                        Some((x, e)) => Some((PredV::Exists(m, v, Box::new(x)), e)),
                        None => None,
                    }
                } else {
                    None
                }
            },
            _ => None,
        }
    } else {
        match expr_at(ts, p) {
            None => None,
            Some((lhs, q)) => {
                let k = tk(ts, q).kind;
                if k is Eq || k is Lt || k is Le {
                    let op = if k is Eq { CmpOp::Eq } else if k is Lt { CmpOp::Lt } else { CmpOp::Le };
                    match expr_at(ts, q + 1) {
                        Some((rhs, e)) => Some((PredV::Cmp(op, lhs, rhs), e)),
                        None => None,
                    }
                } else {
                    match lhs {
                        ExprV::Call(n, a) => Some((PredV::Call(n, a), q)),
                        ExprV::Path(ps) => if ps.len() == 1 { Some((PredV::Word(ps[0]), q)) } else { None },
                        _ => None,
                    }
                }
            },
        }
    }
}

/// The parser of the `.gym` surface language.
pub struct Parser {
    tokens: Vec<Token>,
    pos: usize,
    diags: Vec<Diagnostic>,
}

impl Parser {
    /// The tokens end with `Eof` and the position is within them.
    pub closed spec fn wf(&self) -> bool {
        &&& self.tokens.len() > 0
        &&& self.tokens@.last().kind@ == KindV::Eof
        &&& self.pos <= self.tokens.len()
    }

    /// The tokens, as plain values.
    pub closed spec fn toks(&self) -> Seq<TokV> {
        toks_v(self.tokens@)
    }

    /// The position of the next token.
    pub closed spec fn at(&self) -> int {
        self.pos as int
    }

    /// The diagnostics reported so far.
    pub closed spec fn reported(&self) -> Seq<DiagV> {
        diags_v(self.diags@)
    }

    /// The tokens left.
    pub closed spec fn remaining(&self) -> nat {
        if self.pos <= self.tokens.len() { (self.tokens.len() - self.pos) as nat } else { 0 }
    }

    /// The token the parser looks at: the one at the position, or the
    /// final `Eof` past the end.
    pub closed spec fn peek_v(&self) -> TokV {
        if self.pos < self.tokens.len() {
            self.tokens@[self.pos as int]@
        } else {
            self.tokens@.last()@
        }
    }

    /// The token at position `k`, or the final `Eof` past the end.
    pub closed spec fn tok(&self, k: int) -> TokV {
        if 0 <= k < self.tokens.len() {
            self.tokens@[k]@
        } else {
            self.tokens@.last()@
        }
    }

    /// `next` comes from `self` by parsing: the same tokens, a position
    /// no further back, and the diagnostics of `self` followed only by
    /// new errors.
    pub closed spec fn advanced(&self, next: Parser) -> bool {
        &&& next.wf()
        &&& next.tokens@ == self.tokens@
        &&& self.pos <= next.pos
        &&& self.diags.len() <= next.diags.len()
        &&& forall|i: int| 0 <= i < self.diags.len() ==> #[trigger] next.diags@[i] == self.diags@[i]
        &&& forall|i: int| self.diags.len() <= i < next.diags.len() ==> (#[trigger] next.diags@[i]).severity == Severity::Error
    }

    /// `next` comes from `self` by one parse step that succeeded
    /// (`ok`), having consumed at least one token, or failed, having
    /// reported at least one error.
    pub closed spec fn parsed(&self, next: Parser, ok: bool) -> bool {
        &&& self.advanced(next)
        &&& ok ==> next.pos > self.pos
        &&& !ok ==> next.diags.len() > self.diags.len()
    }

    /// `next` reported no diagnostic beyond those of `self`.
    pub closed spec fn quiet(&self, next: Parser) -> bool {
        next.diags.len() == self.diags.len()
    }

    /// `next` reported at least one more error than `self`.
    pub closed spec fn reported_more(&self, next: Parser) -> bool {
        next.diags.len() > self.diags.len()
    }

    /// `next` has consumed at least one more token than `self`.
    pub closed spec fn consumed(&self, next: Parser) -> bool {
        next.pos > self.pos
    }

    /// A parser at the first of `tokens`, with nothing reported.
    pub fn new(tokens: Vec<Token>) -> (r: Parser)
        requires
            tokens.len() > 0,
            tokens@.last().kind@ == KindV::Eof,
        ensures
            r.wf(),
            r.toks() == toks_v(tokens@),
            r.at() == 0,
            r.reported() == Seq::<DiagV>::empty(),
    {
        let r = Parser { tokens, pos: 0, diags: Vec::new() };
        assert(diags_v(r.diags@) =~= Seq::<DiagV>::empty());
        r
    }

    /// The diagnostics reported, in order.
    pub closed spec fn diagnostic_list(&self) -> Seq<Diagnostic> {
        self.diags@
    }

    /// The diagnostics reported, handed over.
    pub fn into_diagnostics(self) -> (r: Vec<Diagnostic>)
        ensures
            r@ == self.diagnostic_list(),
    {
        self.diags
    }

    /// Under `wf`, the token at each position is `tk` of the token values.
    proof fn lemma_tk(&self)
        requires
            self.wf(),
        ensures
            self.peek_v() == tk(self.toks(), self.at()),
            forall|k: int| #[trigger] self.tok(k) == tk(self.toks(), k),
            self.toks().len() == self.tokens.len(),
    {
        assert forall|k: int| #[trigger] self.tok(k) == tk(self.toks(), k) by {
            if 0 <= k < self.tokens.len() {
                assert(self.toks()[k] == self.tokens@[k]@);
            } else {
                assert(self.toks().last() == self.tokens@.last()@);
            }
        }
        assert(self.toks().last() == self.tokens@.last()@);
    }

    /// Past the last non-`Eof` token the parser sees `Eof`.
    proof fn lemma_not_eof(&self)
        requires
            self.wf(),
            self.peek_v().kind != KindV::Eof,
        ensures
            self.pos + 1 < self.tokens.len(),
    {
        if self.pos + 1 >= self.tokens.len() {
            if self.pos < self.tokens.len() {
                assert(self.pos == self.tokens.len() - 1);
            }
        }
    }

    /// The token the parser looks at.
    fn peek(&self) -> (r: &Token)
        requires
            self.wf(),
        ensures
            r@ == self.peek_v(),
    {
        if self.pos < self.tokens.len() {
            &self.tokens[self.pos]
        } else {
            &self.tokens[self.tokens.len() - 1]
        }
    }

    fn peek_kind(&self) -> (r: &TokenKind)
        requires
            self.wf(),
        ensures
            r@ == self.peek_v().kind,
    {
        &self.peek().kind
    }

    /// Moves past the token looked at (never past the end) and returns it.
    fn advance(&mut self) -> (r: Token)
        requires
            old(self).wf(),
        ensures
            r@ == old(self).peek_v(),
            old(self).advanced(*final(self)),
            final(self).diags@ == old(self).diags@,
            final(self).pos == if old(self).pos < old(self).tokens.len() { old(self).pos + 1 } else { old(self).pos as int },
    {
        let t = self.peek().clone();
        if self.pos < self.tokens.len() {
            self.pos = self.pos + 1;
        }
        t
    }

    /// Reports an error.
    fn error(&mut self, code: &'static str, span: Span, message: String)
        requires
            old(self).wf(),
        ensures
            old(self).advanced(*final(self)),
            old(self).reported_more(*final(self)),
            final(self).pos == old(self).pos,
            final(self).diags@ == old(self).diags@.push(Diagnostic { severity: Severity::Error, code, span, message }),
    {
        self.diags.push(Diagnostic { severity: Severity::Error, code, span, message });
    }

    /// Whether the token looked at is of kind `k` (see `same_kind`).
    fn peek_is(&self, k: &TokenKind) -> (r: bool)
        requires
            self.wf(),
        ensures
            r == same_kind(self.peek_v().kind, k@),
    {
        match_token(self.peek_kind(), k)
    }

    /// Whether the token looked at is the identifier `name`.
    fn check_ident(&self, name: &str) -> (r: bool)
        requires
            self.wf(),
        ensures
            r == (self.peek_v().kind == KindV::Ident(name@)),
    {
        match self.peek_kind() {
            TokenKind::Ident(s) => str_eq(s.as_str(), name),
            _ => false,
        }
    }

    /// How the token looked at is shown in messages.
    fn token_display(&self) -> (r: String)
        requires
            self.wf(),
        ensures
            r@ == display_v(self.peek_v().kind),
    {
        match self.peek_kind() {
            TokenKind::Ident(s) => s.clone(),
            TokenKind::Int(i) => i64_to_string(*i),
            TokenKind::Str(s) => {
                let mut r = owned("\"");
                push_str(&mut r, s.as_str());
                push_str(&mut r, "\"");
                r
            },
            TokenKind::LParen => owned("("),
            TokenKind::RParen => owned(")"),
            TokenKind::Comma => owned(","),
            TokenKind::Semi => owned(";"),
            TokenKind::Colon => owned(":"),
            TokenKind::Eq => owned("="),
            TokenKind::Bang => owned("!"),
            TokenKind::Dot => owned("."),
            TokenKind::At => owned("@"),
            TokenKind::Slash => owned("/"),
            TokenKind::Lt => owned("<"),
            TokenKind::Le => owned("<="),
            TokenKind::Arrow => owned("->"),
            TokenKind::DotDot => owned(".."),
            TokenKind::Eof => owned("EOF"),
        }
    }

    /// Consumes a token of kind `k`, or reports E101 naming `what` and
    /// fails.
    fn expect(&mut self, k: TokenKind, what: &str) -> (r: Option<Token>)
        requires
            old(self).wf(),
            !(k@ is Eof),
        ensures
            old(self).advanced(*final(self)),
            r is Some <==> same_kind(old(self).peek_v().kind, k@),
            r is Some ==> old(self).consumed(*final(self)) && r->0@ == old(self).peek_v() && final(self).pos == old(self).pos + 1,
            r is Some ==> old(self).quiet(*final(self)),
            r is None ==> old(self).reported_more(*final(self)) && final(self).pos == old(self).pos,
    {
        if self.peek_is(&k) {
            proof {
                self.lemma_not_eof();
            }
            Some(self.advance())
        } else {
            let span = self.peek().span;
            let mut message = owned("unexpected token `");
            let shown = self.token_display();
            push_str(&mut message, shown.as_str());
            push_str(&mut message, "`, expected ");
            push_str(&mut message, what);
            self.error("E101", span, message);
            None
        }
    }

    /// The span of the token before the position (of the first token at
    /// the start), or `default`.
    fn prev_span(&self, default: Span) -> (r: Span)
        requires
            self.wf(),
        ensures
            self.at() > 0 ==> r.start == self.tok(self.at() - 1).start && r.end == self.tok(self.at() - 1).end,
    {
        let i = if self.pos == 0 { 0 } else { self.pos - 1 };
        if i < self.tokens.len() {
            self.tokens[i].span
        } else {
            default
        }
    }

    /// An identifier, or E101 and failure.
    fn parse_ident(&mut self) -> (r: Option<Ident>)
        requires
            old(self).wf(),
        ensures
            old(self).advanced(*final(self)),
            r is Some <==> old(self).peek_v().kind is Ident,
            r is Some ==> old(self).consumed(*final(self)) && r->0.text@ == old(self).peek_v().kind->Ident_0
                && r->0.span.start == old(self).peek_v().start && r->0.span.end == old(self).peek_v().end
                && final(self).pos == old(self).pos + 1,
            r is None ==> old(self).reported_more(*final(self)) && final(self).pos == old(self).pos,
            r is Some ==> old(self).quiet(*final(self)),
    {
        let span = self.peek().span;
        match self.peek_kind() {
            TokenKind::Ident(text) => {
                let text = text.clone();
                proof {
                    self.lemma_not_eof();
                }
                self.advance();
                Some(Ident { text, span })
            },
            _ => {
                let mut message = owned("expected identifier, got `");
                let shown = self.token_display();
                push_str(&mut message, shown.as_str());
                push_str(&mut message, "`");
                self.error("E101", span, message);
                None
            },
        }
    }
}

impl Parser {
    /// `Int . Int`, as the text `major.minor`; E103 otherwise.
    fn parse_version(&mut self) -> (r: Option<String>)
        requires
            old(self).wf(),
        ensures
            old(self).parsed(*final(self), r is Some),
            r is Some ==> old(self).quiet(*final(self)),
            ({
                let (a, d, b) = (old(self).tok(old(self).at()), old(self).tok(old(self).at() + 1), old(self).tok(
                    old(self).at() + 2,
                ));
                &&& r is Some <==> (a.kind is Int && d.kind is Dot && b.kind is Int)
                &&& r is Some ==> r->0@ == int_decimal(a.kind->Int_0) + "."@ + int_decimal(b.kind->Int_0)
                    && final(self).at() == old(self).at() + 3
            }),
            final(self).at() == version_end(old(self).toks(), old(self).at()),
    {
        proof {
            reveal_strlit(".");
        }
        let major = match self.peek_kind() {
            TokenKind::Int(v) => *v,
            _ => {
                let span = self.peek().span;
                self.error("E103", span, owned("expected major version number"));
                return None;
            },
        };
        proof {
            self.lemma_not_eof();
        }
        self.advance();
        if !self.peek_is(&TokenKind::Dot) {
            let span = self.peek().span;
            self.error("E103", span, owned("expected `.` in version"));
            return None;
        }
        proof {
            self.lemma_not_eof();
        }
        self.advance();
        let minor = match self.peek_kind() {
            TokenKind::Int(v) => *v,
            _ => {
                let span = self.peek().span;
                self.error("E103", span, owned("expected minor version number"));
                return None;
            },
        };
        proof {
            self.lemma_not_eof();
        }
        self.advance();
        let mut text = i64_to_string(major);
        push_str(&mut text, ".");
        push_i64_decimal(&mut text, minor);
        Some(text)
    }

    /// Reports E101 with `message` at the token looked at.
    fn fail_here(&mut self, message: &str)
        requires
            old(self).wf(),
        ensures
            old(self).advanced(*final(self)),
            old(self).reported_more(*final(self)),
            final(self).pos == old(self).pos,
    {
        let span = self.peek().span;
        self.error("E101", span, owned(message));
    }

    /// Consumes the keyword `kw`, or reports E101 with `message`.
    fn keyword(&mut self, kw: &str, message: &str) -> (r: bool)
        requires
            old(self).wf(),
        ensures
            old(self).parsed(*final(self), r),
            r == (old(self).peek_v().kind == KindV::Ident(kw@)),
            r ==> final(self).pos == old(self).pos + 1,
            !r ==> final(self).pos == old(self).pos,
            r ==> old(self).quiet(*final(self)),
    {
        if self.check_ident(kw) {
            proof {
                self.lemma_not_eof();
            }
            self.advance();
            true
        } else {
            self.fail_here(message);
            false
        }
    }

    /// Consumes the token looked at when it is not `Eof`.
    fn skip_one(&mut self)
        requires
            old(self).wf(),
            old(self).peek_v().kind != KindV::Eof,
        ensures
            old(self).parsed(*final(self), true),
            final(self).diags@ == old(self).diags@,
            final(self).pos == old(self).pos + 1,
    {
        proof {
            self.lemma_not_eof();
        }
        self.advance();
    }

    /// Parses a whole file: the spec declaration, then declarations up
    /// to `Eof`, recovering from each failed declaration at the next
    /// declaration keyword.
    pub fn parse_file(&mut self) -> (r: Option<File>)
        requires
            old(self).wf(),
        ensures
            old(self).parsed(*final(self), r is Some),
            match file_at(old(self).toks(), old(self).at()) {
                Some((sv, ds)) => r is Some && spec_decl_v(r->0.spec) == sv && decls_v(r->0.decls@) == ds,
                None => r is None,
            },
            old(self).quiet(*final(self)) == file_clean(old(self).toks(), old(self).at()),
    {
        proof {
            self.lemma_tk();
        }
        let ghost ts = self.toks();
        let ghost p0 = self.at();
        if self.peek_is(&TokenKind::Eof) {
            self.error("E101", Span { start: 0, end: 0 }, owned("expected spec declaration"));
            return None;
        }
        let spec = self.parse_spec()?;
        proof {
            self.lemma_tk();
        }
        let ghost d0 = self.at();
        let ghost dd = self.diags.len();
        let mut decls: Vec<Decl> = Vec::new();
        proof {
            assert(decls_v(decls@) =~= Seq::<DeclV>::empty());
        }
        let ghost mid = *self;
        while !self.peek_is(&TokenKind::Eof)
            invariant_except_break
                decls_from(ts, d0, Seq::empty()) == decls_from(ts, self.at(), decls_v(decls@)),
                decls_clean(ts, d0) == (self.diags.len() == dd && decls_clean(ts, self.at())),
            invariant
                self.diags.len() >= dd,
                self.wf(),
                old(self).advanced(mid),
                mid.advanced(*self),
                mid.pos > old(self).pos,
                ts == self.toks(),
                self.at() <= ts.len(),
                self.peek_v() == tk(ts, self.at()),
            ensures
                decls_from(ts, d0, Seq::empty()).0 == decls_v(decls@),
                decls_clean(ts, d0) == (self.diags.len() == dd),
            decreases self.remaining(),
        {
            let before = self.pos;
            let ghost acc = decls_v(decls@);
            match self.parse_decl() {
                Some(d) => {
                    let ghost dv = decl_v(d);
                    decls.push(d);
                    proof {
                        assert(decls_v(decls@) =~= acc.push(dv));
                    }
                },
                None => {
                    let depth = self.paren_depth();
                    self.skip_to_next_decl(depth);
                },
            }
            proof {
                self.lemma_tk();
            }
            if self.pos == before {
                break;
            }
        }
        Some(File { spec, decls })
    }

    /// `spec name = v major.minor owner name exports name, ...`.
    pub fn parse_spec(&mut self) -> (r: Option<SpecDecl>)
        requires
            old(self).wf(),
        ensures
            old(self).parsed(*final(self), r is Some),
            match spec_at(old(self).toks(), old(self).at()) {
                Some((name, v, owner, ex, e)) => r is Some
                    && spec_decl_v(r->0) == (name, v, owner, ex, covering(old(self).toks(), old(self).at(), e))
                    && final(self).at() == e,
                None => r is None,
            },
            old(self).quiet(*final(self)) == spec_clean(old(self).toks(), old(self).at()),
    {
        proof {
            self.lemma_tk();
        }
        let ghost ts = self.toks();
        let ghost p0 = self.at();
        let start_span = self.peek().span;
        if !self.keyword("spec", "expected `spec` declaration") {
            return None;
        }
        proof {
            self.lemma_tk();
        }
        let name = self.parse_ident()?;
        proof {
            self.lemma_tk();
        }
        self.expect(TokenKind::Eq, "`=`")?;
        proof {
            self.lemma_tk();
        }
        if !self.keyword("v", "expected `v` for version") {
            return None;
        }
        proof {
            self.lemma_tk();
        }
        let version = self.parse_version()?;
        proof {
            self.lemma_tk();
        }
        if !self.keyword("owner", "expected `owner` keyword") {
            return None;
        }
        proof {
            self.lemma_tk();
        }
        let owner = self.parse_ident()?;
        proof {
            self.lemma_tk();
        }
        if !self.keyword("exports", "expected `exports` keyword") {
            return None;
        }
        proof {
            self.lemma_tk();
        }
        let first = self.parse_ident()?;
        let ghost fv = ident_v(first);
        let mut exports: Vec<Ident> = Vec::new();
        exports.push(first);
        proof {
            self.lemma_tk();
            assert(exports@.drop_last() =~= Seq::<Ident>::empty());
            assert(idents_v(exports@) =~= seq![fv]);
        }
        let ghost mid = *self;
        let ghost dx = self.diags.len();
        while self.peek_is(&TokenKind::Comma)
            invariant_except_break
                exports_from(ts, p0 + 11, seq![fv]) == exports_from(ts, self.at(), idents_v(exports@)),
                exports_clean(ts, p0 + 11) == (self.diags.len() == dx && exports_clean(ts, self.at())),
            invariant
                self.diags.len() >= dx,
                self.wf(),
                old(self).advanced(mid),
                mid.advanced(*self),
                mid.pos > old(self).pos,
                ts == self.toks(),
                self.at() <= ts.len(),
                self.peek_v() == tk(ts, self.at()),
            ensures
                exports_from(ts, p0 + 11, seq![fv]) == (idents_v(exports@), self.at()),
                exports_clean(ts, p0 + 11) == (self.diags.len() == dx),
            decreases self.remaining(),
        {
            let ghost q = self.at();
            let ghost acc = idents_v(exports@);
            self.skip_one();
            proof {
                self.lemma_tk();
            }
            match self.parse_ident() {
                Some(e) => {
                    proof {
                        assert(ident_at(ts, q + 1) == Some(ident_v(e)));
                        assert(idents_v(exports@.push(e)) =~= acc.push(ident_v(e)));
                    }
                    exports.push(e);
                },
                None => {
                    break;
                },
            }
            proof {
                self.lemma_tk();
            }
        }
        proof {
            self.lemma_tk();
        }
        let end_span = self.prev_span(start_span);
        Some(SpecDecl { name, version, owner, exports, span: start_span.join(end_span) })
    }

    /// `application`, `component` or `state`: `kw name = (attrs)`.
    #[verifier::rlimit(60)]
    fn parse_named_pack_decl(&mut self, k: &str) -> (r: Option<Decl>)
        requires
            old(self).wf(),
            old(self).peek_v().kind == KindV::Ident(k@),
            k@ != "use"@,
            k@ == "application"@ || k@ == "component"@ || k@ == "state"@,
        ensures
            old(self).parsed(*final(self), r is Some),
            match decl_at(old(self).toks(), old(self).at()) {
                Some((d, e)) => r is Some && decl_v(r->0) == d && final(self).at() == e,
                None => r is None,
            },
            final(self).at() == decl_end(old(self).toks(), old(self).at()),
            old(self).quiet(*final(self)) == decl_clean(old(self).toks(), old(self).at()),
    {
        proof {
            self.lemma_tk();
        }
        let ghost ts = self.toks();
        let ghost p0 = self.at();
        let start_span = self.peek().span;
        self.skip_one();
        proof {
            self.lemma_tk();
        }
        let name = self.parse_ident()?;
        proof {
            self.lemma_tk();
        }
        self.expect(TokenKind::Eq, "`=`")?;
        proof {
            self.lemma_tk();
        }
        let attrs = self.parse_pack()?;
        proof {
            self.lemma_tk();
        }
        let end_span = self.prev_span(start_span);
        let span = start_span.join(end_span);
        if str_eq(k, "application") {
            Some(Decl::Application(ApplicationDecl { name, attrs, span }))
        } else if str_eq(k, "component") {
            Some(Decl::Component(ComponentDecl { name, attrs, span }))
        } else {
            Some(Decl::State(StateDecl { name, attrs, span }))
        }
    }

    /// One declaration, chosen by its keyword; E104 for an unknown
    /// keyword, E101 when no identifier starts it.
    #[verifier::rlimit(60)]
    pub fn parse_decl(&mut self) -> (r: Option<Decl>)
        requires
            old(self).wf(),
        ensures
            old(self).parsed(*final(self), r is Some),
            match decl_at(old(self).toks(), old(self).at()) {
                Some((d, e)) => r is Some && decl_v(r->0) == d && final(self).at() == e,
                None => r is None,
            },
            final(self).at() == decl_end(old(self).toks(), old(self).at()),
            old(self).quiet(*final(self)) == decl_clean(old(self).toks(), old(self).at()),
    {
        proof {
            self.lemma_tk();
        }
        let kw = match self.peek_kind() {
            TokenKind::Ident(name) => name.clone(),
            _ => {
                self.fail_here("expected declaration");
                return None;
            },
        };
        let k = kw.as_str();
        if str_eq(k, "use") {
            match self.parse_use() {
                Some(d) => Some(Decl::Use(d)),
                None => None,
            }
        } else if str_eq(k, "application") || str_eq(k, "component") || str_eq(k, "state") {
            self.parse_named_pack_decl(k)
        } else if str_eq(k, "actor") {
            match self.parse_actor() {
                Some(d) => Some(Decl::Actor(d)),
                None => None,
            }
        } else {
            self.parse_decl_b(k)
        }
    }

    /// The declarations of `decl_at` after those already ruled out.
    #[verifier::rlimit(60)]
    fn parse_decl_b(&mut self, k: &str) -> (r: Option<Decl>)
        requires
            old(self).wf(),
            old(self).peek_v().kind == KindV::Ident(k@),
            k@ != "use"@,
            k@ != "application"@,
            k@ != "component"@,
            k@ != "state"@,
            k@ != "actor"@,
        ensures
            old(self).parsed(*final(self), r is Some),
            match decl_at(old(self).toks(), old(self).at()) {
                Some((d, e)) => r is Some && decl_v(r->0) == d && final(self).at() == e,
                None => r is None,
            },
            final(self).at() == decl_end(old(self).toks(), old(self).at()),
            old(self).quiet(*final(self)) == decl_clean(old(self).toks(), old(self).at()),
    {
        proof {
            self.lemma_tk();
        }
        if str_eq(k, "mode") {
            match self.parse_mode_decl() {
                Some(d) => Some(Decl::Mode(d)),
                None => None,
            }
        } else if str_eq(k, "interface") {
            match self.parse_interface() {
                Some(d) => Some(Decl::Interface(d)),
                None => None,
            }
        } else if str_eq(k, "flow") {
            match self.parse_flow() {
                Some(d) => Some(Decl::Flow(d)),
                None => None,
            }
        } else {
            self.parse_decl_c(k)
        }
    }

    /// The declarations of `decl_at` after those already ruled out.
    #[verifier::rlimit(60)]
    fn parse_decl_c(&mut self, k: &str) -> (r: Option<Decl>)
        requires
            old(self).wf(),
            old(self).peek_v().kind == KindV::Ident(k@),
            k@ != "use"@,
            k@ != "application"@,
            k@ != "component"@,
            k@ != "state"@,
            k@ != "actor"@,
            k@ != "mode"@,
            k@ != "interface"@,
            k@ != "flow"@,
        ensures
            old(self).parsed(*final(self), r is Some),
            match decl_at(old(self).toks(), old(self).at()) {
                Some((d, e)) => r is Some && decl_v(r->0) == d && final(self).at() == e,
                None => r is None,
            },
            final(self).at() == decl_end(old(self).toks(), old(self).at()),
            old(self).quiet(*final(self)) == decl_clean(old(self).toks(), old(self).at()),
    {
        proof {
            self.lemma_tk();
        }
        if str_eq(k, "behavior") {
            match self.parse_behavior() {
                Some(d) => Some(Decl::Behavior(d)),
                None => None,
            }
        } else if str_eq(k, "inv") {
            match self.parse_invariant() {
                Some(d) => Some(Decl::Invariant(d)),
                None => None,
            }
        } else {
            self.parse_decl_d(k)
        }
    }

    /// The declarations of `decl_at` after those already ruled out.
    #[verifier::rlimit(60)]
    fn parse_decl_d(&mut self, k: &str) -> (r: Option<Decl>)
        requires
            old(self).wf(),
            old(self).peek_v().kind == KindV::Ident(k@),
            k@ != "use"@,
            k@ != "application"@,
            k@ != "component"@,
            k@ != "state"@,
            k@ != "actor"@,
            k@ != "mode"@,
            k@ != "interface"@,
            k@ != "flow"@,
            k@ != "behavior"@,
            k@ != "inv"@,
        ensures
            old(self).parsed(*final(self), r is Some),
            match decl_at(old(self).toks(), old(self).at()) {
                Some((d, e)) => r is Some && decl_v(r->0) == d && final(self).at() == e,
                None => r is None,
            },
            final(self).at() == decl_end(old(self).toks(), old(self).at()),
            old(self).quiet(*final(self)) == decl_clean(old(self).toks(), old(self).at()),
    {
        proof {
            self.lemma_tk();
        }
        if str_eq(k, "constraint") {
            match self.parse_constraint() {
                Some(d) => Some(Decl::Constraint(d)),
                None => None,
            }
        } else if str_eq(k, "synthesis") {
            match self.parse_synthesis() {
                Some(d) => Some(Decl::Synthesis(d)),
                None => None,
            }
        } else if str_eq(k, "acceptance") {
            match self.parse_acceptance() {
                Some(d) => Some(Decl::Acceptance(d)),
                None => None,
            }
        } else {
            let span = self.peek().span;
            let mut message = owned("unknown declaration keyword `");
            push_str(&mut message, k);
            push_str(&mut message, "`");
            self.error("E104", span, message);
            None
        }
    }

    /// `use a/b/c @ major.minor [(args)]`.
    pub fn parse_use(&mut self) -> (r: Option<UseDecl>)
        requires
            old(self).wf(),
            old(self).peek_v().kind == KindV::Ident("use"@),
        ensures
            old(self).parsed(*final(self), r is Some),
            match use_at(old(self).toks(), old(self).at()) {
                Some((path, v, args, e)) => r is Some && idents_v(r->0.path@) == path && r->0.version@ == v
                    && pack_items_v(r->0.args@) == args && final(self).at() == e
                    && span_v(r->0.span) == covering(old(self).toks(), old(self).at(), e),
                None => r is None,
            },
            final(self).at() == use_end(old(self).toks(), old(self).at()),
            old(self).quiet(*final(self)) == (use_at(old(self).toks(), old(self).at()) is Some && match slash_path(old(self).toks(), old(self).at() + 2, seq![ident_at(old(self).toks(), old(self).at() + 1)->0]) { Some((_, e)) => opt_pack_clean(old(self).toks(), e + 4), None => false }),
    {
        proof {
            self.lemma_tk();
        }
        let ghost ts = self.toks();
        let ghost p0 = self.at();
        let start_span = self.peek().span;
        proof {
            reveal_strlit("use");
        }
        self.skip_one();
        proof {
            self.lemma_tk();
        }
        let first = self.parse_ident()?;
        let ghost fv = ident_v(first);
        let mut path: Vec<Ident> = Vec::new();
        path.push(first);
        proof {
            self.lemma_tk();
            assert(path@.drop_last() =~= Seq::<Ident>::empty());
            assert(idents_v(path@) =~= seq![fv]);
        }
        let ghost mid = *self;
        while self.peek_is(&TokenKind::Slash)
            invariant
                self.wf(),
                old(self).advanced(mid),
                mid.advanced(*self),
                mid.pos > old(self).pos,
                ts == self.toks(),
                self.at() <= ts.len(),
                slash_path(ts, p0 + 2, seq![fv]) == slash_path(ts, self.at(), idents_v(path@)),
                slash_path_end(ts, p0 + 2) == slash_path_end(ts, self.at()),
                old(self).quiet(*self),
                ts == old(self).toks(),
                p0 == old(self).at(),
                ident_at(ts, p0 + 1) == Some(fv),
            decreases self.remaining(),
        {
            proof {
                self.lemma_tk();
            }
            let ghost d = self.at();
            let ghost pacc = idents_v(path@);
            self.skip_one();
            proof {
                self.lemma_tk();
            }
            let seg = match self.parse_ident() {
                Some(x) => x,
                None => {
                    proof {
                        assert(slash_path(ts, d, pacc) is None);
                        assert(slash_path_end(ts, d) == d + 1);
                    }
                    return None;
                },
            };
            proof {
                assert(ident_at(ts, d + 1) == Some(ident_v(seg)));
                assert(idents_v(path@.push(seg)) =~= pacc.push(ident_v(seg)));
            }
            path.push(seg);
        }
        proof {
            self.lemma_tk();
        }
        self.expect(TokenKind::At, "`@`")?;
        proof {
            self.lemma_tk();
        }
        let version = self.parse_version()?;
        proof {
            self.lemma_tk();
        }
        let args = if self.peek_is(&TokenKind::LParen) {
            self.parse_pack()?
        } else {
            let none: Vec<PackItem> = Vec::new();
            proof {
                assert(pack_items_v(none@) =~= Seq::<(IdentV, PackV, int, int)>::empty());
            }
            none
        };
        proof {
            self.lemma_tk();
        }
        let end_span = self.prev_span(start_span);
        Some(UseDecl { path, version, args, span: start_span.join(end_span) })
    }

    /// `actor name = kind [(attrs)]`.
    pub fn parse_actor(&mut self) -> (r: Option<ActorDecl>)
        requires
            old(self).wf(),
            old(self).peek_v().kind == KindV::Ident("actor"@),
        ensures
            old(self).parsed(*final(self), r is Some),
            match actor_at(old(self).toks(), old(self).at()) {
                Some((name, kind, attrs, e)) => r is Some && ident_v(r->0.name) == name && ident_v(r->0.kind) == kind
                    && pack_items_v(r->0.attrs@) == attrs && final(self).at() == e
                    && span_v(r->0.span) == covering(old(self).toks(), old(self).at(), e),
                None => r is None,
            },
            final(self).at() == actor_end(old(self).toks(), old(self).at()),
            old(self).quiet(*final(self)) == (actor_at(old(self).toks(), old(self).at()) is Some && opt_pack_clean(old(self).toks(), old(self).at() + 4)),
    {
        proof {
            self.lemma_tk();
        }
        let ghost ts = self.toks();
        let ghost p0 = self.at();
        let start_span = self.peek().span;
        proof {
            reveal_strlit("actor");
        }
        self.skip_one();
        proof {
            self.lemma_tk();
        }
        let name = self.parse_ident()?;
        proof {
            self.lemma_tk();
        }
        self.expect(TokenKind::Eq, "`=`")?;
        proof {
            self.lemma_tk();
        }
        let kind = self.parse_ident()?;
        proof {
            self.lemma_tk();
        }
        let attrs = if self.peek_is(&TokenKind::LParen) {
            self.parse_pack()?
        } else {
            let none: Vec<PackItem> = Vec::new();
            proof {
                assert(pack_items_v(none@) =~= Seq::<(IdentV, PackV, int, int)>::empty());
            }
            none
        };
        proof {
            self.lemma_tk();
        }
        let end_span = self.prev_span(start_span);
        Some(ActorDecl { name, kind, attrs, span: start_span.join(end_span) })
    }

    /// `mode name = expr`.
    pub fn parse_mode_decl(&mut self) -> (r: Option<ModeDecl>)
        requires
            old(self).wf(),
            old(self).peek_v().kind == KindV::Ident("mode"@),
        ensures
            old(self).parsed(*final(self), r is Some),
            r is Some ==> old(self).quiet(*final(self)),
            match mode_decl_at(old(self).toks(), old(self).at()) {
                Some((name, m, e)) => r is Some && ident_v(r->0.name) == name && mode_v(r->0.expr) == m
                    && final(self).at() == e && span_v(r->0.span) == covering(old(self).toks(), old(self).at(), e),
                None => r is None,
            },
            final(self).at() == mode_decl_end(old(self).toks(), old(self).at()),
    {
        proof {
            self.lemma_tk();
        }
        let ghost ts = self.toks();
        let ghost p0 = self.at();
        let start_span = self.peek().span;
        proof {
            reveal_strlit("mode");
        }
        self.skip_one();
        proof {
            self.lemma_tk();
        }
        let name = self.parse_ident()?;
        proof {
            self.lemma_tk();
        }
        self.expect(TokenKind::Eq, "`=`")?;
        proof {
            self.lemma_tk();
        }
        let expr = self.parse_mode_expr()?;
        proof {
            self.lemma_tk();
        }
        let end_span = self.prev_span(start_span);
        Some(ModeDecl { name, expr, span: start_span.join(end_span) })
    }
}

impl Parser {
    /// A mode expression (see `mode_at`).
    pub fn parse_mode_expr(&mut self) -> (r: Option<ModeExpr>)
        requires
            old(self).wf(),
        ensures
            old(self).parsed(*final(self), r is Some),
            r is Some ==> old(self).quiet(*final(self)),
            match mode_at(old(self).toks(), old(self).at()) {
                Some((v, q)) => r is Some && mode_v(r->0) == v && final(self).at() == q,
                None => r is None,
            },
            final(self).at() == mode_end(old(self).toks(), old(self).at()),
        decreases old(self).remaining(), 2nat,
    {
        proof {
            self.lemma_tk();
        }
        let ghost ts = self.toks();
        let ghost p0 = self.at();
        if self.check_ident("opaque") {
            self.skip_one();
            let inner = self.parse_mode_expr()?;
            Some(ModeExpr::Opaque(Box::new(inner)))
        } else if self.check_ident("opt") {
            self.skip_one();
            let inner = self.parse_mode_expr()?;
            Some(ModeExpr::Opt(Box::new(inner)))
        } else if self.check_ident("enum") {
            self.parse_enum_mode()
        } else if self.check_ident("union") {
            self.parse_union_mode()
        } else if self.check_ident("struct") || self.peek_is(&TokenKind::LParen) {
            self.parse_struct_mode()
        } else {
            self.parse_named_mode()
        }
    }

    /// `enum (a, ...)`.
    fn parse_enum_mode(&mut self) -> (r: Option<ModeExpr>)
        requires
            old(self).wf(),
            is_word(old(self).toks(), old(self).at(), "enum"@),
            !is_word(old(self).toks(), old(self).at(), "opaque"@),
            !is_word(old(self).toks(), old(self).at(), "opt"@),
        ensures
            old(self).parsed(*final(self), r is Some),
            r is Some ==> old(self).quiet(*final(self)),
            match mode_at(old(self).toks(), old(self).at()) {
                Some((v, q)) => r is Some && mode_v(r->0) == v && final(self).at() == q,
                None => r is None,
            },
            final(self).at() == mode_end(old(self).toks(), old(self).at()),
        decreases old(self).remaining(), 1nat,
    {
        proof {
            self.lemma_tk();
        }
        let ghost ts = self.toks();
        let ghost p0 = self.at();
        self.skip_one();
        proof {
            self.lemma_tk();
        }
        self.expect(TokenKind::LParen, "`(`")?;
        proof {
            self.lemma_tk();
        }
        let mut variants: Vec<Ident> = Vec::new();
        proof {
            assert(idents_v(variants@) =~= Seq::<IdentV>::empty());
        }
        if !self.peek_is(&TokenKind::RParen) {
            loop
                invariant_except_break
                    enum_items(ts, p0 + 2, Seq::empty()) == enum_items(ts, self.at(), idents_v(variants@)),
                    enum_items_end(ts, p0 + 2) == enum_items_end(ts, self.at()),
                invariant
                    old(self).quiet(*self),
                    mode_end(ts, p0) == match enum_items(ts, p0 + 2, Seq::empty()) {
                        Some((_, e)) => if tk(ts, e).kind is RParen { e + 1 } else { e },
                        None => enum_items_end(ts, p0 + 2),
                    },
                    self.wf(),
                    old(self).advanced(*self),
                    self.pos > old(self).pos,
                    ts == self.toks(),
                    ts == old(self).toks(),
                    p0 == old(self).at(),
                    self.at() <= ts.len(),
                    mode_at(ts, p0) == match enum_items(ts, p0 + 2, Seq::empty()) {
                        Some((vs, e)) => if tk(ts, e).kind is RParen { Some((ModeV::Enum(vs), e + 1)) } else { None },
                        None => None,
                    },
                ensures
                    enum_items(ts, p0 + 2, Seq::empty()) == Some((idents_v(variants@), self.at())),
                decreases self.remaining(),
            {
                let ghost acc = idents_v(variants@);
                proof {
                    self.lemma_tk();
                }
                let v = match self.parse_ident() {
                    Some(x) => x,
                    None => {
                        return None;
                    },
                };
                variants.push(v);
                proof {
                    assert(idents_v(variants@) =~= acc.push(ident_v(v)));
                    self.lemma_tk();
                }
                if self.peek_is(&TokenKind::Comma) {
                    self.skip_one();
                    proof {
                        self.lemma_tk();
                    }
                    if self.peek_is(&TokenKind::RParen) {
                        break;
                    }
                } else {
                    break;
                }
            }
        }
        proof {
            self.lemma_tk();
        }
        self.expect(TokenKind::RParen, "`)`")?;
        Some(ModeExpr::Enum(variants))
    }

    /// `union (tag m, ...)`.
    fn parse_union_mode(&mut self) -> (r: Option<ModeExpr>)
        requires
            old(self).wf(),
            is_word(old(self).toks(), old(self).at(), "union"@),
            !is_word(old(self).toks(), old(self).at(), "opaque"@),
            !is_word(old(self).toks(), old(self).at(), "opt"@),
            !is_word(old(self).toks(), old(self).at(), "enum"@),
        ensures
            old(self).parsed(*final(self), r is Some),
            r is Some ==> old(self).quiet(*final(self)),
            match mode_at(old(self).toks(), old(self).at()) {
                Some((v, q)) => r is Some && mode_v(r->0) == v && final(self).at() == q,
                None => r is None,
            },
            final(self).at() == mode_end(old(self).toks(), old(self).at()),
        decreases old(self).remaining(), 1nat,
    {
        proof {
            self.lemma_tk();
        }
        let ghost ts = self.toks();
        let ghost p0 = self.at();
        self.skip_one();
        proof {
            self.lemma_tk();
        }
        self.expect(TokenKind::LParen, "`(`")?;
        proof {
            self.lemma_tk();
        }
        let mut variants: Vec<(Ident, ModeExpr)> = Vec::new();
        proof {
            assert(variants_v(variants@) =~= Seq::<(IdentV, ModeV)>::empty());
        }
        if !self.peek_is(&TokenKind::RParen) {
            loop
                invariant_except_break
                    union_items(ts, p0 + 2, Seq::empty()) == union_items(ts, self.at(), variants_v(variants@)),
                    union_items_end(ts, p0 + 2) == union_items_end(ts, self.at()),
                invariant
                    old(self).quiet(*self),
                    mode_end(ts, p0) == match union_items(ts, p0 + 2, Seq::empty()) {
                        Some((_, e)) => if tk(ts, e).kind is RParen { e + 1 } else { e },
                        None => union_items_end(ts, p0 + 2),
                    },
                    self.wf(),
                    old(self).advanced(*self),
                    self.pos > old(self).pos,
                    ts == self.toks(),
                    ts == old(self).toks(),
                    p0 == old(self).at(),
                    self.at() <= ts.len(),
                    mode_at(ts, p0) == match union_items(ts, p0 + 2, Seq::empty()) {
                        Some((vs, e)) => if tk(ts, e).kind is RParen { Some((ModeV::Union(vs), e + 1)) } else { None },
                        None => None,
                    },
                ensures
                    union_items(ts, p0 + 2, Seq::empty()) == Some((variants_v(variants@), self.at())),
                decreases self.remaining(),
            {
                let ghost pi = self.at();
                let ghost acc = variants_v(variants@);
                let ghost before = variants@;
                proof {
                    self.lemma_tk();
                }
                let tag = match self.parse_ident() {
                    Some(x) => x,
                    None => {
                        return None;
                    },
                };
                proof {
                    self.lemma_tk();
                    assert(ident_at(ts, pi) == Some(ident_v(tag)));
                }
                let mode = match self.parse_mode_expr() {
                    Some(x) => x,
                    None => {
                        return None;
                    },
                };
                let ghost entry = (ident_v(tag), mode_v(mode));
                variants.push((tag, mode));
                proof {
                    assert(variants@.drop_last() =~= before);
                    assert(variants_v(variants@) =~= acc.push(entry));
                    self.lemma_tk();
                }
                if self.peek_is(&TokenKind::Comma) {
                    self.skip_one();
                    proof {
                        self.lemma_tk();
                    }
                    if self.peek_is(&TokenKind::RParen) {
                        break;
                    }
                } else {
                    break;
                }
            }
        }
        proof {
            self.lemma_tk();
        }
        self.expect(TokenKind::RParen, "`)`")?;
        Some(ModeExpr::Union(variants))
    }

    /// `struct (m name, ...)` or `(m name, ...)`.
    fn parse_struct_mode(&mut self) -> (r: Option<ModeExpr>)
        requires
            old(self).wf(),
            is_word(old(self).toks(), old(self).at(), "struct"@) || tk(old(self).toks(), old(self).at()).kind is LParen,
            !is_word(old(self).toks(), old(self).at(), "enum"@),
            !is_word(old(self).toks(), old(self).at(), "union"@),
            !is_word(old(self).toks(), old(self).at(), "opaque"@),
            !is_word(old(self).toks(), old(self).at(), "opt"@),
        ensures
            old(self).parsed(*final(self), r is Some),
            r is Some ==> old(self).quiet(*final(self)),
            match mode_at(old(self).toks(), old(self).at()) {
                Some((v, q)) => r is Some && mode_v(r->0) == v && final(self).at() == q,
                None => r is None,
            },
            final(self).at() == mode_end(old(self).toks(), old(self).at()),
        decreases old(self).remaining(), 1nat,
    {
        proof {
            self.lemma_tk();
        }
        let ghost ts = self.toks();
        let ghost p0 = self.at();
        let is_struct = self.check_ident("struct");
        if is_struct {
            self.skip_one();
            proof {
                self.lemma_tk();
            }
            self.expect(TokenKind::LParen, "`(`")?;
        } else {
            self.skip_one();
        }
        let ghost b = self.at();
        proof {
            self.lemma_tk();
        }
        if self.peek_is(&TokenKind::RParen) {
            self.skip_one();
            let r = ModeExpr::Struct(Vec::new());
            proof {
                assert(fields_v(Seq::<Field>::empty()) =~= Seq::<(ModeV, IdentV)>::empty());
            }
            return Some(r);
        }
        let mut fields: Vec<Field> = Vec::new();
        proof {
            assert(fields_v(fields@) =~= Seq::<(ModeV, IdentV)>::empty());
        }
        loop
            invariant_except_break
                field_items(ts, b, Seq::empty()) == field_items(ts, self.at(), fields_v(fields@)),
                field_items_end(ts, b) == field_items_end(ts, self.at()),
            invariant
                old(self).quiet(*self),
                mode_end(ts, p0) == match field_items(ts, b, Seq::empty()) {
                    Some((_, e)) => if tk(ts, e).kind is RParen { e + 1 } else { e },
                    None => field_items_end(ts, b),
                },
                self.wf(),
                old(self).advanced(*self),
                self.pos > old(self).pos,
                ts == self.toks(),
                ts == old(self).toks(),
                p0 == old(self).at(),
                self.at() <= ts.len(),
                mode_at(ts, p0) == match field_items(ts, b, Seq::empty()) {
                    Some((fs, e)) => if tk(ts, e).kind is RParen { Some((ModeV::Struct(fs), e + 1)) } else { None },
                    None => None,
                },
            ensures
                field_items(ts, b, Seq::empty()) == Some((fields_v(fields@), self.at())),
            decreases self.remaining(),
        {
            let ghost acc = fields_v(fields@);
            let ghost before = fields@;
            let mode = match self.parse_mode_expr() {
                Some(x) => x,
                None => {
                    return None;
                },
            };
            proof {
                self.lemma_tk();
            }
            let ghost q = self.at();
            let name = match self.parse_ident() {
                Some(x) => x,
                None => {
                    return None;
                },
            };
            proof {
                assert(ident_at(ts, q) == Some(ident_v(name)));
            }
            let ghost entry = (mode_v(mode), ident_v(name));
            fields.push(Field { mode, name });
            proof {
                assert(fields@.drop_last() =~= before);
                assert(fields_v(fields@) =~= acc.push(entry));
                self.lemma_tk();
            }
            if self.peek_is(&TokenKind::Comma) {
                self.skip_one();
                proof {
                    self.lemma_tk();
                }
                if self.peek_is(&TokenKind::RParen) {
                    break;
                }
            } else {
                break;
            }
        }
        proof {
            self.lemma_tk();
        }
        self.expect(TokenKind::RParen, "`)`")?;
        Some(ModeExpr::Struct(fields))
    }

    /// `name`, `name(m, ...)`, `name(lo..hi)`, `name(..hi)` or `name..hi`.
    fn parse_named_mode(&mut self) -> (r: Option<ModeExpr>)
        requires
            old(self).wf(),
            !is_word(old(self).toks(), old(self).at(), "enum"@),
            !is_word(old(self).toks(), old(self).at(), "union"@),
            !is_word(old(self).toks(), old(self).at(), "opaque"@),
            !is_word(old(self).toks(), old(self).at(), "opt"@),
            !is_word(old(self).toks(), old(self).at(), "struct"@),
            !(tk(old(self).toks(), old(self).at()).kind is LParen),
        ensures
            old(self).parsed(*final(self), r is Some),
            r is Some ==> old(self).quiet(*final(self)),
            match mode_at(old(self).toks(), old(self).at()) {
                Some((v, q)) => r is Some && mode_v(r->0) == v && final(self).at() == q,
                None => r is None,
            },
            final(self).at() == mode_end(old(self).toks(), old(self).at()),
        decreases old(self).remaining(), 1nat,
    {
        proof {
            self.lemma_tk();
        }
        let ghost ts = self.toks();
        let ghost p0 = self.at();
        let name = self.parse_ident()?;
        let ghost n = ident_v(name);
        proof {
            self.lemma_tk();
            assert(ident_at(ts, p0) == Some(n));
        }
        let ghost q = self.at();
        if self.peek_is(&TokenKind::LParen) {
            self.skip_one();
            proof {
                self.lemma_tk();
            }
            let lo = match self.peek_kind() {
                TokenKind::Int(v) => Some(*v),
                _ => None,
            };
            match lo {
                Some(lo_val) => {
                    self.skip_one();
                    proof {
                        self.lemma_tk();
                    }
                    if self.peek_is(&TokenKind::DotDot) {
                        self.skip_one();
                        proof {
                            self.lemma_tk();
                        }
                        let hi = match self.peek_kind() {
                            TokenKind::Int(h) => Some(*h),
                            _ => None,
                        };
                        if hi.is_some() {
                            self.skip_one();
                        }
                        proof {
                            self.lemma_tk();
                        }
                        self.expect(TokenKind::RParen, "`)`")?;
                        return Some(ModeExpr::Refined { name, lo: Some(lo_val), hi });
                    }
                },
                None => {
                    if self.peek_is(&TokenKind::DotDot) {
                        self.skip_one();
                        proof {
                            self.lemma_tk();
                        }
                        let hi = match self.peek_kind() {
                            TokenKind::Int(h) => Some(*h),
                            _ => None,
                        };
                        if hi.is_some() {
                            self.skip_one();
                        }
                        proof {
                            self.lemma_tk();
                        }
                        self.expect(TokenKind::RParen, "`)`")?;
                        return Some(ModeExpr::Refined { name, lo: None, hi });
                    }
                },
            }
            let ghost a = self.at();
            let mut args: Vec<ModeExpr> = Vec::new();
            proof {
                assert(modes_v(args@) =~= Seq::<ModeV>::empty());
            }
            if !self.peek_is(&TokenKind::RParen) {
                let x = match self.parse_mode_expr() {
                    Some(x) => x,
                    None => {
                        proof {
                            assert(mode_list(ts, a, Seq::empty()) is None);
                            assert(mode_list_end(ts, a) == mode_end(ts, a));
                            assert(mode_end(ts, p0) == mode_list_end(ts, a));
                        }
                        return None;
                    },
                };
                let ghost xv = mode_v(x);
                args.push(x);
                proof {
                    assert(args@.drop_last() =~= Seq::<ModeExpr>::empty());
                    assert(modes_v(args@) =~= seq![xv]);
                    self.lemma_tk();
                }
                while self.peek_is(&TokenKind::Comma)
                    invariant
                        old(self).quiet(*self),
                        self.wf(),
                        old(self).advanced(*self),
                        self.pos > old(self).pos,
                        ts == self.toks(),
                        ts == old(self).toks(),
                        p0 == old(self).at(),
                        self.at() <= ts.len(),
                        self.at() > a,
                        mode_list(ts, a, Seq::empty()) == if tk(ts, self.at()).kind is Comma {
                            mode_list(ts, self.at() + 1, modes_v(args@))
                        } else {
                            Some((modes_v(args@), self.at()))
                        },
                        mode_list_end(ts, a) == if tk(ts, self.at()).kind is Comma {
                            mode_list_end(ts, self.at() + 1)
                        } else {
                            self.at()
                        },
                        mode_end(ts, p0) == match mode_list(ts, a, Seq::empty()) {
                            Some((_, e)) => if tk(ts, e).kind is RParen { e + 1 } else { e },
                            None => mode_list_end(ts, a),
                        },
                        mode_at(ts, p0) == match mode_list(ts, a, Seq::empty()) {
                            Some((ms, e)) => if tk(ts, e).kind is RParen { Some((ModeV::Named(n, ms), e + 1)) } else { None },
                            None => None,
                        },
                    decreases self.remaining(),
                {
                    proof {
                        self.lemma_tk();
                    }
                    let ghost pi = self.at() + 1;
                    let ghost acc = modes_v(args@);
                    let ghost before = args@;
                    self.skip_one();
                    let x = match self.parse_mode_expr() {
                        Some(x) => x,
                        None => {
                            proof {
                                assert(mode_list(ts, pi, acc) is None);
                            }
                            return None;
                        },
                    };
                    let ghost xv = mode_v(x);
                    args.push(x);
                    proof {
                        assert(args@.drop_last() =~= before);
                        assert(modes_v(args@) =~= acc.push(xv));
                        self.lemma_tk();
                    }
                }
            }
            proof {
                self.lemma_tk();
            }
            self.expect(TokenKind::RParen, "`)`")?;
            Some(ModeExpr::Named { name, args })
        } else if self.peek_is(&TokenKind::DotDot) {
            self.skip_one();
            proof {
                self.lemma_tk();
            }
            match self.peek_kind() {
                TokenKind::Int(h) => {
                    let hi = *h;
                    self.skip_one();
                    Some(ModeExpr::Refined { name, lo: None, hi: Some(hi) })
                },
                _ => {
                    self.fail_here("expected number after `..`");
                    None
                },
            }
        } else {
            let r = ModeExpr::Named { name, args: Vec::new() };
            proof {
                assert(modes_v(Seq::<ModeExpr>::empty()) =~= Seq::<ModeV>::empty());
            }
            Some(r)
        }
    }

    /// `(mode name, ...)`, a trailing comma allowed.
    pub fn parse_fields(&mut self) -> (r: Option<Vec<Field>>)
        requires
            old(self).wf(),
        ensures
            old(self).parsed(*final(self), r is Some),
            r is Some ==> old(self).quiet(*final(self)),
            match fields_at(old(self).toks(), old(self).at()) {
                Some((fs, e)) => r is Some && fields_v(r->0@) == fs && final(self).at() == e,
                None => r is None,
            },
            final(self).at() == fields_end(old(self).toks(), old(self).at()),
    {
        proof {
            self.lemma_tk();
        }
        let ghost ts = self.toks();
        let ghost p0 = self.at();
        self.expect(TokenKind::LParen, "`(`")?;
        proof {
            self.lemma_tk();
        }
        let mut fields: Vec<Field> = Vec::new();
        proof {
            assert(fields_v(fields@) =~= Seq::<(ModeV, IdentV)>::empty());
        }
        if !self.peek_is(&TokenKind::RParen) {
            loop
                invariant_except_break
                    field_items(ts, p0 + 1, Seq::empty()) == field_items(ts, self.at(), fields_v(fields@)),
                    field_items_end(ts, p0 + 1) == field_items_end(ts, self.at()),
                invariant
                    old(self).quiet(*self),
                    self.wf(),
                    old(self).advanced(*self),
                    self.pos > old(self).pos,
                    ts == self.toks(),
                    ts == old(self).toks(),
                    p0 == old(self).at(),
                    self.at() <= ts.len(),
                    tk(ts, p0).kind is LParen,
                    !(tk(ts, p0 + 1).kind is RParen),
                ensures
                    field_items(ts, p0 + 1, Seq::empty()) == Some((fields_v(fields@), self.at())),
                decreases self.remaining(),
            {
                let ghost acc = fields_v(fields@);
                let ghost before = fields@;
                let mode = match self.parse_mode_expr() {
                    Some(x) => x,
                    None => {
                        return None;
                    },
                };
                proof {
                    self.lemma_tk();
                }
                let ghost q = self.at();
                let name = match self.parse_ident() {
                    Some(x) => x,
                    None => {
                        return None;
                    },
                };
                proof {
                    assert(ident_at(ts, q) == Some(ident_v(name)));
                }
                let ghost entry = (mode_v(mode), ident_v(name));
                fields.push(Field { mode, name });
                proof {
                    assert(fields@.drop_last() =~= before);
                    assert(fields_v(fields@) =~= acc.push(entry));
                    self.lemma_tk();
                }
                if self.peek_is(&TokenKind::Comma) {
                    self.skip_one();
                    proof {
                        self.lemma_tk();
                    }
                    if self.peek_is(&TokenKind::RParen) {
                        break;
                    }
                } else {
                    break;
                }
            }
        }
        proof {
            self.lemma_tk();
        }
        self.expect(TokenKind::RParen, "`)`")?;
        Some(fields)
    }
}

impl Parser {
    /// `interface name = for actor (op, op, ...)`.
    pub fn parse_interface(&mut self) -> (r: Option<InterfaceDecl>)
        requires
            old(self).wf(),
            old(self).peek_v().kind == KindV::Ident("interface"@),
        ensures
            old(self).parsed(*final(self), r is Some),
            match interface_at(old(self).toks(), old(self).at()) {
                Some((name, actor, ops, e)) => r is Some && ident_v(r->0.name) == name
                    && ident_v(r->0.default_actor) == actor && ops_v(r->0.ops@) == ops && final(self).at() == e
                    && span_v(r->0.span) == covering(old(self).toks(), old(self).at(), e),
                None => r is None,
            },
            final(self).at() == interface_end(old(self).toks(), old(self).at()),
            old(self).quiet(*final(self)) == (interface_at(old(self).toks(), old(self).at()) is Some && ops_clean(old(self).toks(), old(self).at() + 6)),
    {
        proof {
            self.lemma_tk();
        }
        let ghost ts = self.toks();
        let ghost p0 = self.at();
        let start_span = self.peek().span;
        proof {
            reveal_strlit("interface");
        }
        self.skip_one();
        proof {
            self.lemma_tk();
        }
        let name = self.parse_ident()?;
        proof {
            self.lemma_tk();
        }
        self.expect(TokenKind::Eq, "`=`")?;
        proof {
            self.lemma_tk();
        }
        if !self.keyword("for", "expected `for` in interface") {
            return None;
        }
        proof {
            self.lemma_tk();
        }
        let default_actor = self.parse_ident()?;
        proof {
            self.lemma_tk();
        }
        self.expect(TokenKind::LParen, "`(`")?;
        proof {
            self.lemma_tk();
        }
        let ghost b0 = self.at();
        let ghost db = self.diags.len();
        let mut ops: Vec<OpDecl> = Vec::new();
        proof {
            assert(ops_v(ops@) =~= Seq::empty());
        }
        while !self.peek_is(&TokenKind::RParen) && !self.peek_is(&TokenKind::Eof)
            invariant_except_break
                interface_ops(ts, b0, Seq::empty()) == interface_ops(ts, self.at(), ops_v(ops@)),
                ops_clean(ts, b0) == (self.diags.len() == db && ops_clean(ts, self.at())),
            invariant
                self.diags.len() >= db,
                self.wf(),
                old(self).advanced(*self),
                self.pos > old(self).pos,
                ts == self.toks(),
                self.at() <= ts.len(),
                self.peek_v() == tk(ts, self.at()),
            ensures
                interface_ops(ts, b0, Seq::empty()) == (ops_v(ops@), self.at()),
                ops_clean(ts, b0) == (self.diags.len() == db),
            decreases self.remaining(),
        {
            let before = self.pos;
            let ghost s0 = *self;
            let ghost acc = ops_v(ops@);
            match self.parse_op() {
                Some(op) => {
                    let ghost ov = op_v(op);
                    ops.push(op);
                    proof {
                        assert(ops_v(ops@) =~= acc.push(ov));
                        self.lemma_tk();
                    }
                    if self.peek_is(&TokenKind::Comma) {
                        self.skip_one();
                    }
                },
                None => {},
            }
            proof {
                self.lemma_tk();
            }
            if self.pos == before {
                break;
            }
            assert(self.remaining() < s0.remaining());
        }
        proof {
            self.lemma_tk();
        }
        self.expect(TokenKind::RParen, "`)`")?;
        proof {
            self.lemma_tk();
        }
        let end_span = self.prev_span(start_span);
        Some(InterfaceDecl { name, default_actor, ops, span: start_span.join(end_span) })
    }

    /// `cmd|qry name = (fields) output [! (error, ...)]`.
    #[verifier::rlimit(40)]
    pub fn parse_op(&mut self) -> (r: Option<OpDecl>)
        requires
            old(self).wf(),
        ensures
            old(self).parsed(*final(self), r is Some),
            r is Some ==> old(self).quiet(*final(self)),
            match op_at(old(self).toks(), old(self).at()) {
                Some((is_cmd, name, ps, out, errs, e)) => r is Some && (r->0.kind is Cmd) == is_cmd
                    && ident_v(r->0.name) == name && fields_v(r->0.params@) == ps && mode_v(r->0.output) == out
                    && idents_v(r->0.errors@) == errs && final(self).at() == e
                    && span_v(r->0.span) == covering(old(self).toks(), old(self).at(), e),
                None => r is None,
            },
            final(self).at() == op_end(old(self).toks(), old(self).at()),
    {
        proof {
            self.lemma_tk();
        }
        let ghost ts = self.toks();
        let ghost p0 = self.at();
        proof {
            reveal_strlit("cmd");
            reveal_strlit("qry");
        }
        let start_span = self.peek().span;
        let kind = if self.check_ident("cmd") {
            self.skip_one();
            OpKind::Cmd
        } else if self.check_ident("qry") {
            self.skip_one();
            OpKind::Qry
        } else {
            self.fail_here("expected `cmd` or `qry`");
            return None;
        };
        proof {
            self.lemma_tk();
        }
        let name = self.parse_ident()?;
        proof {
            self.lemma_tk();
        }
        self.expect(TokenKind::Eq, "`=`")?;
        proof {
            self.lemma_tk();
        }
        let params = self.parse_fields()?;
        proof {
            self.lemma_tk();
        }
        let output = self.parse_mode_expr()?;
        proof {
            self.lemma_tk();
        }
        let mut errors: Vec<Ident> = Vec::new();
        proof {
            assert(idents_v(errors@) =~= Seq::<IdentV>::empty());
        }
        if self.peek_is(&TokenKind::Bang) {
            self.skip_one();
            proof {
                self.lemma_tk();
            }
            self.expect(TokenKind::LParen, "`(`")?;
            proof {
                self.lemma_tk();
            }
            let ghost a = self.at();
            let ghost head = (is_word(ts, p0, "cmd"@), ident_v(name), fields_v(params@), mode_v(output));
            proof {
                assert(op_at(ts, p0) == match ident_list(ts, a, Seq::empty()) {
                    Some((errs, e3)) => if tk(ts, e3).kind is RParen {
                        Some((head.0, head.1, head.2, head.3, errs, e3 + 1))
                    } else {
                        None
                    },
                    None => None,
                });
            }
            loop
                invariant_except_break
                    ident_list(ts, a, Seq::empty()) == ident_list(ts, self.at(), idents_v(errors@)),
                    ident_list_end(ts, a) == ident_list_end(ts, self.at()),
                invariant
                    old(self).quiet(*self),
                    ts == old(self).toks(),
                    p0 == old(self).at(),
                    op_end(ts, p0) == match ident_list(ts, a, Seq::empty()) {
                        None => ident_list_end(ts, a),
                        Some((_, e3)) => if tk(ts, e3).kind is RParen { e3 + 1 } else { e3 },
                    },
                    op_at(ts, p0) == match ident_list(ts, a, Seq::empty()) {
                        Some((errs, e3)) => if tk(ts, e3).kind is RParen {
                            Some((head.0, head.1, head.2, head.3, errs, e3 + 1))
                        } else {
                            None
                        },
                        None => None,
                    },
                    self.wf(),
                    old(self).advanced(*self),
                    self.pos > old(self).pos,
                    ts == self.toks(),
                    self.at() <= ts.len(),
                ensures
                    ident_list(ts, a, Seq::empty()) == Some((idents_v(errors@), self.at())),
                decreases self.remaining(),
            {
                proof {
                    self.lemma_tk();
                }
                let ghost pi = self.at();
                let ghost acc = idents_v(errors@);
                let e = self.parse_ident()?;
                proof {
                    self.lemma_tk();
                    assert(ident_at(ts, pi) == Some(ident_v(e)));
                    assert(idents_v(errors@.push(e)) =~= acc.push(ident_v(e)));
                }
                errors.push(e);
                if self.peek_is(&TokenKind::Comma) {
                    self.skip_one();
                } else {
                    break;
                }
            }
            proof {
                self.lemma_tk();
            }
            self.expect(TokenKind::RParen, "`)`")?;
        }
        proof {
            self.lemma_tk();
        }
        let end_span = self.prev_span(start_span);
        Some(OpDecl { kind, name, params, output, errors, span: start_span.join(end_span) })
    }

    /// `flow name = from -> to : kind (attrs)`.
    pub fn parse_flow(&mut self) -> (r: Option<FlowDecl>)
        requires
            old(self).wf(),
            old(self).peek_v().kind == KindV::Ident("flow"@),
        ensures
            old(self).parsed(*final(self), r is Some),
            match flow_at(old(self).toks(), old(self).at()) {
                Some((names, attrs, e)) => r is Some
                    && names == seq![ident_v(r->0.name), ident_v(r->0.from), ident_v(r->0.to), ident_v(r->0.kind)]
                    && pack_items_v(r->0.attrs@) == attrs && final(self).at() == e
                    && span_v(r->0.span) == covering(old(self).toks(), old(self).at(), e),
                None => r is None,
            },
            final(self).at() == flow_end(old(self).toks(), old(self).at()),
            old(self).quiet(*final(self)) == (flow_at(old(self).toks(), old(self).at()) is Some && pack_clean(old(self).toks(), old(self).at() + 8)),
    {
        proof {
            self.lemma_tk();
        }
        let ghost ts = self.toks();
        let ghost p0 = self.at();
        let start_span = self.peek().span;
        proof {
            reveal_strlit("flow");
        }
        self.skip_one();
        proof {
            self.lemma_tk();
        }
        let name = self.parse_ident()?;
        proof {
            self.lemma_tk();
        }
        self.expect(TokenKind::Eq, "`=`")?;
        proof {
            self.lemma_tk();
        }
        let from = self.parse_ident()?;
        proof {
            self.lemma_tk();
        }
        self.expect(TokenKind::Arrow, "`->`")?;
        proof {
            self.lemma_tk();
        }
        let to = self.parse_ident()?;
        proof {
            self.lemma_tk();
        }
        self.expect(TokenKind::Colon, "`:`")?;
        proof {
            self.lemma_tk();
        }
        let kind = self.parse_ident()?;
        proof {
            self.lemma_tk();
        }
        let attrs = self.parse_pack()?;
        proof {
            self.lemma_tk();
        }
        let end_span = self.prev_span(start_span);
        Some(FlowDecl { name, from, to, kind, attrs, span: start_span.join(end_span) })
    }

    fn at_clause_keyword(&self) -> (r: bool)
        requires
            self.wf(),
        ensures
            r == (self.peek_v().kind is Ident && clause_keyword(self.peek_v().kind->Ident_0)),
    {
        self.check_ident("requires") || self.check_ident("ensures") || self.check_ident("returns") || self.check_ident(
            "fails",
        ) || self.check_ident("emits")
    }

    /// `behavior name = on iface.op (binders) (attrs ; clauses)`: pack
    /// items until a `;` or the first clause keyword, then clauses;
    /// a clause that fails is skipped up to the next `;` or keyword.
    #[verifier::rlimit(100)]
    #[verifier::spinoff_prover]
    pub fn parse_behavior(&mut self) -> (r: Option<BehaviorDecl>)
        requires
            old(self).wf(),
            old(self).peek_v().kind == KindV::Ident("behavior"@),
        ensures
            old(self).parsed(*final(self), r is Some),
            match behavior_at(old(self).toks(), old(self).at()) {
                Some((names, bs, attrs, cs, e)) => r is Some
                    && names == seq![ident_v(r->0.name), ident_v(r->0.on_interface), ident_v(r->0.on_op)]
                    && idents_v(r->0.binders@) == bs && pack_items_v(r->0.attrs@) == attrs
                    && clauses_v(r->0.clauses@) == cs && final(self).at() == e
                    && span_v(r->0.span) == covering(old(self).toks(), old(self).at(), e),
                None => r is None,
            },
            final(self).at() == behavior_end(old(self).toks(), old(self).at()),
            old(self).quiet(*final(self)) == (behavior_at(old(self).toks(), old(self).at()) is Some && match ident_list(old(self).toks(), old(self).at() + 8, Seq::empty()) { Some((_, e1)) => behavior_body_clean(old(self).toks(), e1 + 2, false), None => false }),
    {
        proof {
            self.lemma_tk();
        }
        let ghost ts = self.toks();
        let ghost p0 = self.at();
        let start_span = self.peek().span;
        proof {
            reveal_strlit("behavior");
        }
        self.skip_one();
        proof {
            self.lemma_tk();
        }
        let name = self.parse_ident()?;
        proof {
            self.lemma_tk();
        }
        self.expect(TokenKind::Eq, "`=`")?;
        proof {
            self.lemma_tk();
        }
        if !self.keyword("on", "expected `on` in behavior") {
            return None;
        }
        proof {
            self.lemma_tk();
        }
        let on_interface = self.parse_ident()?;
        proof {
            self.lemma_tk();
        }
        self.expect(TokenKind::Dot, "`.`")?;
        proof {
            self.lemma_tk();
        }
        let on_op = self.parse_ident()?;
        proof {
            self.lemma_tk();
        }
        self.expect(TokenKind::LParen, "`(`")?;
        proof {
            self.lemma_tk();
        }
        let ghost a = self.at();
        let ghost names = seq![ident_v(name), ident_v(on_interface), ident_v(on_op)];
        let mut binders: Vec<Ident> = Vec::new();
        proof {
            assert(idents_v(binders@) =~= Seq::<IdentV>::empty());
        }
        loop
            invariant_except_break
                ident_list(ts, a, Seq::empty()) == ident_list(ts, self.at(), idents_v(binders@)),
                ident_list_end(ts, a) == ident_list_end(ts, self.at()),
            invariant
                old(self).quiet(*self),
                behavior_end(ts, p0) == match ident_list(ts, a, Seq::empty()) {
                    None => ident_list_end(ts, a),
                    Some((_, e1)) => if !(tk(ts, e1).kind is RParen) {
                        e1
                    } else if !(tk(ts, e1 + 1).kind is LParen) {
                        e1 + 1
                    } else {
                        let e2 = behavior_body(ts, e1 + 2, false, Seq::empty(), Seq::empty()).2;
                        if tk(ts, e2).kind is RParen { e2 + 1 } else { e2 }
                    },
                },
                ts == old(self).toks(),
                p0 == old(self).at(),
                a == p0 + 8,
                behavior_at(ts, p0) == match ident_list(ts, a, Seq::empty()) {
                    Some((bs, e1)) => if tk(ts, e1).kind is RParen && tk(ts, e1 + 1).kind is LParen {
                        let (attrs, cs, e2) = behavior_body(ts, e1 + 2, false, Seq::empty(), Seq::empty());
                        if tk(ts, e2).kind is RParen {
                            Some((names, bs, attrs, cs, e2 + 1))
                        } else {
                            None
                        }
                    } else {
                        None
                    },
                    None => None,
                },
                self.wf(),
                old(self).advanced(*self),
                self.pos > old(self).pos,
                ts == self.toks(),
                self.at() <= ts.len(),
            ensures
                ident_list(ts, a, Seq::empty()) == Some((idents_v(binders@), self.at())),
            decreases self.remaining(),
        {
            proof {
                self.lemma_tk();
            }
            let ghost pi = self.at();
            let ghost acc = idents_v(binders@);
            let b = self.parse_ident()?;
            proof {
                self.lemma_tk();
                assert(ident_at(ts, pi) == Some(ident_v(b)));
                assert(idents_v(binders@.push(b)) =~= acc.push(ident_v(b)));
            }
            binders.push(b);
            if self.peek_is(&TokenKind::Comma) {
                self.skip_one();
            } else {
                break;
            }
        }
        proof {
            self.lemma_tk();
        }
        self.expect(TokenKind::RParen, "`)`")?;
        proof {
            self.lemma_tk();
        }
        self.expect(TokenKind::LParen, "`(`")?;
        proof {
            self.lemma_tk();
        }
        let ghost b0 = self.at();
        let ghost db = self.diags.len();
        let mut attrs: Vec<PackItem> = Vec::new();
        let mut clauses: Vec<Clause> = Vec::new();
        let mut in_clauses = false;
        proof {
            assert(pack_items_v(attrs@) =~= Seq::<(IdentV, PackV, int, int)>::empty());
            assert(clauses_v(clauses@) =~= Seq::<ClauseV>::empty());
        }
        while !self.peek_is(&TokenKind::RParen) && !self.peek_is(&TokenKind::Eof)
            invariant_except_break
                behavior_body(ts, b0, false, Seq::empty(), Seq::empty())
                    == behavior_body(ts, self.at(), in_clauses, pack_items_v(attrs@), clauses_v(clauses@)),
                behavior_body_clean(ts, b0, false) == (self.diags.len() == db && behavior_body_clean(ts, self.at(), in_clauses)),
            invariant
                self.diags.len() >= db,
                self.wf(),
                old(self).advanced(*self),
                self.pos > old(self).pos,
                ts == self.toks(),
                self.at() <= ts.len(),
                self.peek_v() == tk(ts, self.at()),
            ensures
                behavior_body(ts, b0, false, Seq::empty(), Seq::empty())
                    == (pack_items_v(attrs@), clauses_v(clauses@), self.at()),
                behavior_body_clean(ts, b0, false) == (self.diags.len() == db),
            decreases self.remaining(),
        {
            let before = self.pos;
            let ghost s0 = *self;
            let ghost pi = self.at();
            let ghost ic0 = in_clauses;
            let ghost a0 = pack_items_v(attrs@);
            let ghost c0 = clauses_v(clauses@);
            let ghost attrs_before = attrs@;
            let ghost dl0 = self.diags.len();
            proof {
                self.lemma_tk();
            }
            let mut skip_rest = false;
            if !in_clauses {
                if self.at_clause_keyword() {
                    in_clauses = true;
                } else if self.peek_is(&TokenKind::Semi) {
                    self.skip_one();
                    in_clauses = true;
                    skip_rest = true;
                } else {
                    match self.parse_pack_item() {
                        Some(item) => {
                            let ghost iv = pack_item_v(item);
                            attrs.push(item);
                            proof {
                                assert(attrs@.drop_last() =~= attrs_before);
                                assert(pack_items_v(attrs@) =~= a0.push(iv));
                                self.lemma_tk();
                            }
                            if self.peek_is(&TokenKind::Comma) {
                                self.skip_one();
                            } else if self.peek_is(&TokenKind::Semi) {
                                self.skip_one();
                                in_clauses = true;
                            }
                        },
                        None => {
                            proof {
                                self.lemma_tk();
                            }
                            if !self.at_clause_keyword() && !self.peek_is(&TokenKind::Semi) {
                                if !self.peek_is(&TokenKind::Eof) {
                                    self.skip_one();
                                }
                            } else if self.peek_is(&TokenKind::Semi) {
                                self.skip_one();
                                in_clauses = true;
                            }
                        },
                    }
                }
            }
            let ghost p1 = self.at();
            proof {
                self.lemma_tk();
                assert(behavior_items_step(ts, pi, ic0, a0) == (in_clauses, skip_rest, pack_items_v(attrs@), p1));
                assert((self.diags.len() == dl0) == items_step_clean(ts, pi, ic0));
            }
            let ghost dl1 = self.diags.len();
            if in_clauses && !skip_rest {
                match self.parse_clause() {
                    Some(c) => {
                        let ghost cv = clause_v(c);
                        clauses.push(c);
                        proof {
                            assert(clauses_v(clauses@) =~= c0.push(cv));
                            self.lemma_tk();
                        }
                        if self.peek_is(&TokenKind::Semi) {
                            self.skip_one();
                        }
                    },
                    None => {
                        let ghost f = self.at();
                        proof {
                            self.lemma_tk();
                        }
                        while !self.peek_is(&TokenKind::Semi) && !self.peek_is(&TokenKind::RParen) && !self.peek_is(
                            &TokenKind::Eof,
                        ) && !self.at_clause_keyword()
                            invariant
                                self.wf(),
                                old(self).advanced(*self),
                                self.pos > old(self).pos,
                                s0.advanced(*self),
                                ts == self.toks(),
                                self.at() <= ts.len(),
                                self.peek_v() == tk(ts, self.at()),
                                to_clause_stop(ts, f) == to_clause_stop(ts, self.at()),
                                self.diags.len() > dl1,
                            decreases self.remaining(),
                        {
                            self.skip_one();
                            proof {
                                self.lemma_tk();
                            }
                        }
                        if self.peek_is(&TokenKind::Semi) {
                            self.skip_one();
                        }
                    },
                }
            }
            proof {
                self.lemma_tk();
                assert(behavior_clause_step(ts, p1, in_clauses && !skip_rest, c0) == (clauses_v(clauses@), self.at()));
                assert((self.diags.len() == dl1) == (!(in_clauses && !skip_rest) || clause_clean(ts, p1)));
                assert(behavior_items_step(ts, pi, ic0, Seq::empty()).0 == in_clauses);
                assert(behavior_items_step(ts, pi, ic0, Seq::empty()).1 == skip_rest);
                assert(behavior_items_step(ts, pi, ic0, Seq::empty()).3 == p1);
                assert(behavior_clause_step(ts, p1, in_clauses && !skip_rest, Seq::empty()).1 == self.at());
            }
            if self.pos == before {
                break;
            }
            assert(self.remaining() < s0.remaining());
        }
        proof {
            self.lemma_tk();
        }
        self.expect(TokenKind::RParen, "`)`")?;
        proof {
            self.lemma_tk();
        }
        let end_span = self.prev_span(start_span);
        Some(BehaviorDecl { name, on_interface, on_op, binders, attrs, clauses, span: start_span.join(end_span) })
    }

    /// `requires p`, `ensures p`, `returns e`, `fails err [when p]
    /// [preserves x]` (the condition defaulting to `true`), or `emits
    /// event qualifier...`.
    #[verifier::rlimit(40)]
    pub fn parse_clause(&mut self) -> (r: Option<Clause>)
        requires
            old(self).wf(),
        ensures
            old(self).parsed(*final(self), r is Some),
            match clause_at(old(self).toks(), old(self).at()) {
                Some((c, e)) => r is Some && clause_v(r->0) == c && final(self).at() == e,
                None => r is None,
            },
            final(self).at() == clause_end(old(self).toks(), old(self).at()),
            old(self).quiet(*final(self)) == clause_clean(old(self).toks(), old(self).at()),
    {
        proof {
            self.lemma_tk();
        }
        let ghost ts = self.toks();
        let ghost p0 = self.at();
        if self.check_ident("requires") {
            self.skip_one();
            proof {
                self.lemma_tk();
            }
            let p = self.parse_pred()?;
            Some(Clause::Requires(p))
        } else if self.check_ident("ensures") {
            self.skip_one();
            proof {
                self.lemma_tk();
            }
            let p = self.parse_pred()?;
            Some(Clause::Ensures(p))
        } else if self.check_ident("returns") {
            self.skip_one();
            proof {
                self.lemma_tk();
            }
            let e = self.parse_expr()?;
            Some(Clause::Returns(e))
        } else if self.check_ident("fails") {
            self.skip_one();
            proof {
                self.lemma_tk();
            }
            let error = self.parse_ident()?;
            proof {
                self.lemma_tk();
            }
            let when = if self.check_ident("when") {
                self.skip_one();
                proof {
                    self.lemma_tk();
                }
                self.parse_pred()?
            } else {
                Pred::Word(Ident { text: owned("true"), span: error.span })
            };
            proof {
                self.lemma_tk();
            }
            let preserves = if self.check_ident("preserves") {
                self.skip_one();
                proof {
                    self.lemma_tk();
                }
                Some(self.parse_ident()?)
            } else {
                None
            };
            Some(Clause::Fails { error, when, preserves })
        } else if self.check_ident("emits") {
            self.skip_one();
            proof {
                self.lemma_tk();
            }
            let event = self.parse_ident()?;
            proof {
                self.lemma_tk();
            }
            let ghost q = self.at();
            let mut qualifier: Vec<Ident> = Vec::new();
            proof {
                assert(idents_v(qualifier@) =~= Seq::<IdentV>::empty());
            }
            let ghost de = self.diags.len();
            while !self.peek_is(&TokenKind::RParen) && !self.peek_is(&TokenKind::Semi) && !self.peek_is(&TokenKind::Eof)
                && !self.at_clause_keyword()
                invariant_except_break
                    qualifiers(ts, q, Seq::empty()) == qualifiers(ts, self.at(), idents_v(qualifier@)),
                    self.diags.len() == de,
                invariant
                    self.diags.len() >= de,
                    self.peek_v() == tk(ts, self.at()),
                    self.wf(),
                    old(self).advanced(*self),
                    self.pos > old(self).pos,
                    ts == self.toks(),
                    self.at() <= ts.len(),
                ensures
                    qualifiers(ts, q, Seq::empty()) == (idents_v(qualifier@), self.at()),
                    (self.diags.len() == de) == clause_stop(tk(ts, self.at()).kind),
                decreases self.remaining(),
            {
                proof {
                    self.lemma_tk();
                }
                let ghost pi = self.at();
                let ghost acc = idents_v(qualifier@);
                match self.parse_ident() {
                    Some(x) => {
                        proof {
                            assert(ident_at(ts, pi) == Some(ident_v(x)));
                            assert(idents_v(qualifier@.push(x)) =~= acc.push(ident_v(x)));
                        }
                        qualifier.push(x);
                    },
                    None => {
                        break;
                    },
                }
                proof {
                    self.lemma_tk();
                }
            }
            Some(Clause::Emits { event, qualifier })
        } else {
            self.fail_here("expected clause keyword");
            None
        }
    }

    /// `inv name = on scope always p`.
    #[verifier::rlimit(40)]
    pub fn parse_invariant(&mut self) -> (r: Option<InvariantDecl>)
        requires
            old(self).wf(),
            old(self).peek_v().kind == KindV::Ident("inv"@),
        ensures
            old(self).parsed(*final(self), r is Some),
            r is Some ==> old(self).quiet(*final(self)),
            match invariant_at(old(self).toks(), old(self).at()) {
                Some((name, scope, a, e)) => r is Some && ident_v(r->0.name) == name && ident_v(r->0.scope) == scope
                    && pred_v(r->0.always) == a && final(self).at() == e
                    && span_v(r->0.span) == covering(old(self).toks(), old(self).at(), e),
                None => r is None,
            },
            final(self).at() == invariant_end(old(self).toks(), old(self).at()),
    {
        proof {
            self.lemma_tk();
        }
        let ghost ts = self.toks();
        let ghost p0 = self.at();
        let start_span = self.peek().span;
        proof {
            reveal_strlit("inv");
        }
        self.skip_one();
        proof {
            self.lemma_tk();
        }
        let name = self.parse_ident()?;
        proof {
            self.lemma_tk();
        }
        self.expect(TokenKind::Eq, "`=`")?;
        proof {
            self.lemma_tk();
        }
        if !self.keyword("on", "expected `on` in invariant") {
            return None;
        }
        proof {
            self.lemma_tk();
        }
        let scope = self.parse_ident()?;
        proof {
            self.lemma_tk();
        }
        if !self.keyword("always", "expected `always` in invariant") {
            return None;
        }
        proof {
            self.lemma_tk();
        }
        let always = self.parse_pred()?;
        proof {
            self.lemma_tk();
        }
        let end_span = self.prev_span(start_span);
        Some(InvariantDecl { name, scope, always, span: start_span.join(end_span) })
    }

    /// `constraint name = class on scope under (pack) must p`.
    #[verifier::rlimit(40)]
    pub fn parse_constraint(&mut self) -> (r: Option<ConstraintDecl>)
        requires
            old(self).wf(),
            old(self).peek_v().kind == KindV::Ident("constraint"@),
        ensures
            old(self).parsed(*final(self), r is Some),
            match constraint_at(old(self).toks(), old(self).at()) {
                Some((names, under, m, e)) => r is Some
                    && names == seq![ident_v(r->0.name), ident_v(r->0.class), ident_v(r->0.scope)]
                    && pack_items_v(r->0.under@) == under && pred_v(r->0.must) == m && final(self).at() == e
                    && span_v(r->0.span) == covering(old(self).toks(), old(self).at(), e),
                None => r is None,
            },
            final(self).at() == constraint_end(old(self).toks(), old(self).at()),
            old(self).quiet(*final(self)) == (constraint_at(old(self).toks(), old(self).at()) is Some && pack_clean(old(self).toks(), old(self).at() + 7)),
    {
        proof {
            self.lemma_tk();
        }
        let ghost ts = self.toks();
        let ghost p0 = self.at();
        let start_span = self.peek().span;
        proof {
            reveal_strlit("constraint");
        }
        self.skip_one();
        proof {
            self.lemma_tk();
        }
        let name = self.parse_ident()?;
        proof {
            self.lemma_tk();
        }
        self.expect(TokenKind::Eq, "`=`")?;
        proof {
            self.lemma_tk();
        }
        let class = self.parse_ident()?;
        proof {
            self.lemma_tk();
        }
        if !self.keyword("on", "expected `on` in constraint") {
            return None;
        }
        proof {
            self.lemma_tk();
        }
        let scope = self.parse_ident()?;
        proof {
            self.lemma_tk();
        }
        if !self.keyword("under", "expected `under` in constraint") {
            return None;
        }
        proof {
            self.lemma_tk();
        }
        let under = self.parse_pack()?;
        proof {
            self.lemma_tk();
        }
        if !self.keyword("must", "expected `must` in constraint") {
            return None;
        }
        proof {
            self.lemma_tk();
        }
        let must = self.parse_pred()?;
        proof {
            self.lemma_tk();
        }
        let end_span = self.prev_span(start_span);
        Some(ConstraintDecl { name, class, scope, under, must, span: start_span.join(end_span) })
    }

    /// `synthesis name = target lang[/framework] (attrs)`.
    pub fn parse_synthesis(&mut self) -> (r: Option<SynthesisDecl>)
        requires
            old(self).wf(),
            old(self).peek_v().kind == KindV::Ident("synthesis"@),
        ensures
            old(self).parsed(*final(self), r is Some),
            match synthesis_at(old(self).toks(), old(self).at()) {
                Some((name, lang, fw, attrs, e)) => r is Some && ident_v(r->0.name) == name
                    && ident_v(r->0.target_lang) == lang
                    && (match r->0.target_framework { Some(f) => fw == Some(ident_v(f)), None => fw is None })
                    && pack_items_v(r->0.attrs@) == attrs && final(self).at() == e
                    && span_v(r->0.span) == covering(old(self).toks(), old(self).at(), e),
                None => r is None,
            },
            final(self).at() == synthesis_end(old(self).toks(), old(self).at()),
            old(self).quiet(*final(self)) == (synthesis_at(old(self).toks(), old(self).at()) is Some && if tk(old(self).toks(), old(self).at() + 5).kind is Slash { pack_clean(old(self).toks(), old(self).at() + 7) } else { pack_clean(old(self).toks(), old(self).at() + 5) }),
    {
        proof {
            self.lemma_tk();
        }
        let ghost ts = self.toks();
        let ghost p0 = self.at();
        let start_span = self.peek().span;
        proof {
            reveal_strlit("synthesis");
        }
        self.skip_one();
        proof {
            self.lemma_tk();
        }
        let name = self.parse_ident()?;
        proof {
            self.lemma_tk();
        }
        self.expect(TokenKind::Eq, "`=`")?;
        proof {
            self.lemma_tk();
        }
        if !self.keyword("target", "expected `target` in synthesis") {
            return None;
        }
        proof {
            self.lemma_tk();
        }
        let target_lang = self.parse_ident()?;
        proof {
            self.lemma_tk();
        }
        let target_framework = if self.peek_is(&TokenKind::Slash) {
            self.skip_one();
            proof {
                self.lemma_tk();
            }
            Some(self.parse_ident()?)
        } else {
            None
        };
        proof {
            self.lemma_tk();
        }
        let attrs = self.parse_pack()?;
        proof {
            self.lemma_tk();
        }
        let end_span = self.prev_span(start_span);
        Some(SynthesisDecl { name, target_lang, target_framework, attrs, span: start_span.join(end_span) })
    }

    fn at_block_keyword(&self) -> (r: bool)
        requires
            self.wf(),
        ensures
            r == (self.peek_v().kind is Ident && block_keyword(self.peek_v().kind->Ident_0)),
    {
        self.check_ident("property") || self.check_ident("scenario") || self.check_ident("concurrency")
            || self.check_ident("fault") || self.check_ident("coverage") || self.check_ident("execution")
    }

    /// `acceptance name = of subject (block, block, ...)`; a block that
    /// fails is skipped up to the next block keyword or `)`.
    pub fn parse_acceptance(&mut self) -> (r: Option<AcceptanceDecl>)
        requires
            old(self).wf(),
            old(self).peek_v().kind == KindV::Ident("acceptance"@),
        ensures
            old(self).parsed(*final(self), r is Some),
            match acceptance_at(old(self).toks(), old(self).at()) {
                Some((name, subject, bs, e)) => r is Some && ident_v(r->0.name) == name
                    && ident_v(r->0.subject) == subject && blocks_v(r->0.blocks@) == bs && final(self).at() == e
                    && span_v(r->0.span) == covering(old(self).toks(), old(self).at(), e),
                None => r is None,
            },
            final(self).at() == acceptance_end(old(self).toks(), old(self).at()),
            old(self).quiet(*final(self)) == (acceptance_at(old(self).toks(), old(self).at()) is Some && blocks_clean(old(self).toks(), old(self).at() + 6)),
    {
        proof {
            self.lemma_tk();
        }
        let ghost ts = self.toks();
        let ghost p0 = self.at();
        let start_span = self.peek().span;
        proof {
            reveal_strlit("acceptance");
        }
        self.skip_one();
        proof {
            self.lemma_tk();
        }
        let name = self.parse_ident()?;
        proof {
            self.lemma_tk();
        }
        self.expect(TokenKind::Eq, "`=`")?;
        proof {
            self.lemma_tk();
        }
        if !self.keyword("of", "expected `of` in acceptance") {
            return None;
        }
        proof {
            self.lemma_tk();
        }
        let subject = self.parse_ident()?;
        proof {
            self.lemma_tk();
        }
        self.expect(TokenKind::LParen, "`(`")?;
        proof {
            self.lemma_tk();
        }
        let ghost b0 = self.at();
        let ghost db = self.diags.len();
        let mut blocks: Vec<AcceptanceBlock> = Vec::new();
        proof {
            assert(blocks_v(blocks@) =~= Seq::<BlockV>::empty());
        }
        while !self.peek_is(&TokenKind::RParen) && !self.peek_is(&TokenKind::Eof)
            invariant_except_break
                acceptance_blocks(ts, b0, Seq::empty()) == acceptance_blocks(ts, self.at(), blocks_v(blocks@)),
                blocks_clean(ts, b0) == (self.diags.len() == db && blocks_clean(ts, self.at())),
            invariant
                self.diags.len() >= db,
                self.wf(),
                old(self).advanced(*self),
                self.pos > old(self).pos,
                ts == self.toks(),
                self.at() <= ts.len(),
                self.peek_v() == tk(ts, self.at()),
            ensures
                acceptance_blocks(ts, b0, Seq::empty()) == (blocks_v(blocks@), self.at()),
                blocks_clean(ts, b0) == (self.diags.len() == db),
            decreases self.remaining(),
        {
            let before = self.pos;
            let ghost s0 = *self;
            let ghost acc = blocks_v(blocks@);
            let ghost dl0 = self.diags.len();
            match self.parse_acceptance_block() {
                Some(b) => {
                    let ghost bv = block_v(b);
                    blocks.push(b);
                    proof {
                        assert(blocks_v(blocks@) =~= acc.push(bv));
                        self.lemma_tk();
                    }
                    if self.peek_is(&TokenKind::Comma) {
                        self.skip_one();
                    }
                },
                None => {
                    let ghost f = self.at();
                    proof {
                        self.lemma_tk();
                    }
                    while !self.peek_is(&TokenKind::RParen) && !self.peek_is(&TokenKind::Eof) && !self.at_block_keyword()
                        invariant
                            self.wf(),
                            old(self).advanced(*self),
                            self.pos > old(self).pos,
                            s0.advanced(*self),
                            ts == self.toks(),
                            self.at() <= ts.len(),
                            self.peek_v() == tk(ts, self.at()),
                            to_block_stop(ts, f) == to_block_stop(ts, self.at()),
                            self.diags.len() > dl0,
                        decreases self.remaining(),
                    {
                        self.skip_one();
                        proof {
                            self.lemma_tk();
                        }
                    }
                    if self.peek_is(&TokenKind::Comma) {
                        self.skip_one();
                    }
                },
            }
            proof {
                self.lemma_tk();
            }
            if self.pos == before {
                break;
            }
            assert(self.remaining() < s0.remaining());
        }
        proof {
            self.lemma_tk();
        }
        self.expect(TokenKind::RParen, "`)`")?;
        proof {
            self.lemma_tk();
        }
        let end_span = self.prev_span(start_span);
        Some(AcceptanceDecl { name, subject, blocks, span: start_span.join(end_span) })
    }

    /// Pack items up to `,`, `)`, `Eof` or (when `stop_at_must`) the
    /// keyword `must`, stopping at the first that fails.
    fn implicit_pack(&mut self, stop_at_must: bool) -> (r: Vec<PackItem>)
        requires
            old(self).wf(),
        ensures
            old(self).advanced(*final(self)),
            implicit_items(old(self).toks(), old(self).at(), stop_at_must, Seq::empty()) == (pack_items_v(r@), final(self).at()),
            old(self).quiet(*final(self)) == implicit_clean(old(self).toks(), old(self).at(), stop_at_must),
    {
        proof {
            self.lemma_tk();
        }
        let ghost ts = self.toks();
        let ghost p0 = self.at();
        let mut items: Vec<PackItem> = Vec::new();
        proof {
            assert(pack_items_v(items@) =~= Seq::<(IdentV, PackV, int, int)>::empty());
        }
        while !(stop_at_must && self.check_ident("must")) && !self.peek_is(&TokenKind::Comma) && !self.peek_is(
            &TokenKind::RParen,
        ) && !self.peek_is(&TokenKind::Eof)
            invariant_except_break
                implicit_items(ts, p0, stop_at_must, Seq::empty()) == implicit_items(ts, self.at(), stop_at_must, pack_items_v(items@)),
                implicit_clean(ts, p0, stop_at_must) == (self.diags.len() == old(self).diags.len() && implicit_clean(ts, self.at(), stop_at_must)),
            invariant
                self.diags.len() >= old(self).diags.len(),
                self.wf(),
                old(self).advanced(*self),
                ts == self.toks(),
                self.at() <= ts.len(),
                self.peek_v() == tk(ts, self.at()),
            ensures
                implicit_items(ts, p0, stop_at_must, Seq::empty()) == (pack_items_v(items@), self.at()),
                implicit_clean(ts, p0, stop_at_must) == (self.diags.len() == old(self).diags.len()),
            decreases self.remaining(),
        {
            let ghost acc = pack_items_v(items@);
            let ghost before = items@;
            match self.parse_pack_item() {
                Some(item) => {
                    let ghost iv = pack_item_v(item);
                    items.push(item);
                    proof {
                        assert(items@.drop_last() =~= before);
                        assert(pack_items_v(items@) =~= acc.push(iv));
                    }
                },
                None => {
                    break;
                },
            }
            proof {
                self.lemma_tk();
            }
        }
        items
    }

    /// Passes over the tokens up to and including the `)` that closes
    /// one open `(` (see `skip_balanced`).
    fn skip_balanced_body(&mut self)
        requires
            old(self).wf(),
            old(self).at() > 0,
        ensures
            old(self).advanced(*final(self)),
            final(self).diags@ == old(self).diags@,
            final(self).at() == skip_balanced(old(self).toks(), old(self).at(), 1),
    {
        proof {
            self.lemma_tk();
        }
        let ghost ts = self.toks();
        let ghost p0 = self.at();
        let mut depth: usize = 1;
        while self.pos < self.tokens.len() && depth > 0
            invariant_except_break
                skip_balanced(ts, p0, 1) == skip_balanced(ts, self.at(), depth as int),
                depth > 0,
            invariant
                self.wf(),
                old(self).advanced(*self),
                self.diags@ == old(self).diags@,
                0 < p0 <= self.pos,
                depth <= self.pos - p0 + 1,
                ts == self.toks(),
                self.toks().len() == self.tokens.len(),
                self.peek_v() == tk(ts, self.at()),
            ensures
                depth == 0 ==> skip_balanced(ts, p0, 1) == self.at() + 1 && self.at() < ts.len(),
                depth > 0 ==> skip_balanced(ts, p0, 1) == self.at(),
            decreases self.remaining(), depth,
        {
            if self.peek_is(&TokenKind::LParen) {
                depth = depth + 1;
            } else if self.peek_is(&TokenKind::RParen) {
                depth = depth - 1;
            }
            if depth > 0 {
                self.advance();
                proof {
                    self.lemma_tk();
                }
            } else {
                break;
            }
        }
        if depth == 0 {
            self.advance();
        }
    }

    /// `a, b, ...` (no trailing comma; see `ident_list`).
    fn parse_ident_list(&mut self) -> (r: Option<Vec<Ident>>)
        requires
            old(self).wf(),
        ensures
            old(self).parsed(*final(self), r is Some),
            r is Some ==> old(self).quiet(*final(self)),
            match ident_list(old(self).toks(), old(self).at(), Seq::empty()) {
                Some((ns, e)) => r is Some && idents_v(r->0@) == ns && final(self).at() == e,
                None => r is None,
            },
            final(self).at() == ident_list_end(old(self).toks(), old(self).at()),
    {
        proof {
            self.lemma_tk();
        }
        let ghost ts = self.toks();
        let ghost p0 = self.at();
        let mut names: Vec<Ident> = Vec::new();
        proof {
            assert(idents_v(names@) =~= Seq::<IdentV>::empty());
        }
        loop
            invariant_except_break
                ident_list(ts, p0, Seq::empty()) == ident_list(ts, self.at(), idents_v(names@)),
                ident_list_end(ts, p0) == ident_list_end(ts, self.at()),
            invariant
                old(self).quiet(*self),
                ts == old(self).toks(),
                p0 == old(self).at(),
                self.wf(),
                old(self).advanced(*self),
                names@.len() > 0 ==> self.pos > old(self).pos,
                ts == self.toks(),
                self.at() <= ts.len(),
            ensures
                ident_list(ts, p0, Seq::empty()) == Some((idents_v(names@), self.at())),
                ident_list_end(ts, p0) == self.at(),
                self.pos > old(self).pos,
            decreases self.remaining(),
        {
            proof {
                self.lemma_tk();
            }
            let ghost pi = self.at();
            let ghost acc = idents_v(names@);
            let n = self.parse_ident()?;
            proof {
                self.lemma_tk();
                assert(ident_at(ts, pi) == Some(ident_v(n)));
                assert(idents_v(names@.push(n)) =~= acc.push(ident_v(n)));
            }
            names.push(n);
            if self.peek_is(&TokenKind::Comma) {
                self.skip_one();
            } else {
                break;
            }
        }
        Some(names)
    }

    /// One acceptance block: `property n = pack`, `scenario n = (...)`
    /// (its body skipped, read as empty), `concurrency n = [(attrs)]
    /// must p`, `fault n = pack [must p]`, `coverage (names)` or
    /// `execution (pack)`.
    #[verifier::rlimit(60)]
    #[verifier::spinoff_prover]
    pub fn parse_acceptance_block(&mut self) -> (r: Option<AcceptanceBlock>)
        requires
            old(self).wf(),
        ensures
            old(self).parsed(*final(self), r is Some),
            match block_at(old(self).toks(), old(self).at()) {
                Some((b, e)) => r is Some && block_v(r->0) == b && final(self).at() == e,
                None => r is None,
            },
            final(self).at() == block_end(old(self).toks(), old(self).at()),
            old(self).quiet(*final(self)) == block_clean(old(self).toks(), old(self).at()),
    {
        proof {
            self.lemma_tk();
        }
        let ghost ts = self.toks();
        let ghost p0 = self.at();
        if self.check_ident("property") {
            self.skip_one();
            proof {
                self.lemma_tk();
            }
            let name = self.parse_ident()?;
            proof {
                self.lemma_tk();
            }
            self.expect(TokenKind::Eq, "`=`")?;
            proof {
                self.lemma_tk();
            }
            let body = if self.peek_is(&TokenKind::LParen) { self.parse_pack()? } else { self.implicit_pack(false) };
            Some(AcceptanceBlock::Property { name, body })
        } else if self.check_ident("scenario") {
            self.skip_one();
            proof {
                self.lemma_tk();
            }
            let name = self.parse_ident()?;
            proof {
                self.lemma_tk();
            }
            self.expect(TokenKind::Eq, "`=`")?;
            proof {
                self.lemma_tk();
            }
            if self.peek_is(&TokenKind::LParen) {
                self.skip_one();
                self.skip_balanced_body();
            }
            let steps: Vec<PackItem> = Vec::new();
            proof {
                assert(pack_items_v(steps@) =~= Seq::<(IdentV, PackV, int, int)>::empty());
            }
            Some(AcceptanceBlock::Scenario { name, steps })
        } else if self.check_ident("concurrency") {
            self.skip_one();
            proof {
                self.lemma_tk();
            }
            let name = self.parse_ident()?;
            proof {
                self.lemma_tk();
            }
            self.expect(TokenKind::Eq, "`=`")?;
            proof {
                self.lemma_tk();
            }
            let attrs = if self.peek_is(&TokenKind::LParen) {
                self.parse_pack()?
            } else {
                let none: Vec<PackItem> = Vec::new();
                proof {
                    assert(pack_items_v(none@) =~= Seq::<(IdentV, PackV, int, int)>::empty());
                }
                none
            };
            proof {
                self.lemma_tk();
            }
            if !self.keyword("must", "expected `must` in concurrency block") {
                return None;
            }
            proof {
                self.lemma_tk();
            }
            let must = self.parse_pred()?;
            Some(AcceptanceBlock::Concurrency { name, attrs, must })
        } else if self.check_ident("fault") {
            self.skip_one();
            proof {
                self.lemma_tk();
            }
            let name = self.parse_ident()?;
            proof {
                self.lemma_tk();
            }
            self.expect(TokenKind::Eq, "`=`")?;
            proof {
                self.lemma_tk();
            }
            let body = if self.peek_is(&TokenKind::LParen) { self.parse_pack()? } else { self.implicit_pack(true) };
            proof {
                self.lemma_tk();
            }
            let must = if self.check_ident("must") {
                self.skip_one();
                proof {
                    self.lemma_tk();
                }
                Some(self.parse_pred()?)
            } else {
                None
            };
            Some(AcceptanceBlock::Fault { name, body, must })
        } else if self.check_ident("coverage") {
            self.skip_one();
            proof {
                self.lemma_tk();
            }
            self.expect(TokenKind::LParen, "`(`")?;
            proof {
                self.lemma_tk();
            }
            let names = self.parse_ident_list()?;
            proof {
                self.lemma_tk();
            }
            self.expect(TokenKind::RParen, "`)`")?;
            Some(AcceptanceBlock::Coverage(names))
        } else if self.check_ident("execution") {
            self.skip_one();
            proof {
                self.lemma_tk();
            }
            let pack = self.parse_pack()?;
            Some(AcceptanceBlock::Execution(pack))
        } else {
            self.fail_here("expected acceptance block keyword");
            None
        }
    }
}

impl Parser {
    /// `( items )`, the items separated by `,` or `;` (see `pack_at`).
    pub fn parse_pack(&mut self) -> (r: Option<Pack>)
        requires
            old(self).wf(),
        ensures
            old(self).parsed(*final(self), r is Some),
            pack_at(old(self).toks(), old(self).at()) == (opt_pack_v(r), final(self).at()),
            old(self).quiet(*final(self)) == pack_clean(old(self).toks(), old(self).at()),
    {
        proof {
            self.lemma_tk();
        }
        let ghost ts = self.toks();
        let ghost p0 = self.at();
        self.expect(TokenKind::LParen, "`(`")?;
        proof {
            self.lemma_tk();
        }
        let mut items: Vec<PackItem> = Vec::new();
        proof {
            assert(pack_items_v(items@) =~= Seq::<(IdentV, PackV, int, int)>::empty());
        }
        if !self.peek_is(&TokenKind::RParen) {
            loop
                invariant_except_break
                    pack_items_from(ts, p0 + 1, Seq::empty()) == pack_items_from(ts, self.at(), pack_items_v(items@)),
                    pack_items_clean(ts, p0 + 1) == (self.diags.len() == old(self).diags.len() && pack_items_clean(ts, self.at())),
                invariant
                    self.diags.len() >= old(self).diags.len(),
                    self.wf(),
                    old(self).advanced(*self),
                    self.pos > old(self).pos,
                    ts == self.toks(),
                    ts == old(self).toks(),
                    p0 == old(self).at(),
                    self.at() <= ts.len(),
                ensures
                    pack_items_from(ts, p0 + 1, Seq::empty()) == (pack_items_v(items@), self.at()),
                    pack_items_clean(ts, p0 + 1) == (self.diags.len() == old(self).diags.len()),
                decreases self.remaining(),
            {
                let ghost acc = pack_items_v(items@);
                let ghost before = items@;
                match self.parse_pack_item() {
                    Some(item) => {
                        let ghost iv = pack_item_v(item);
                        items.push(item);
                        proof {
                            assert(items@.drop_last() =~= before);
                            assert(pack_items_v(items@) =~= acc.push(iv));
                        }
                    },
                    None => {},
                }
                proof {
                    self.lemma_tk();
                }
                if self.peek_is(&TokenKind::Comma) || self.peek_is(&TokenKind::Semi) {
                    self.skip_one();
                    proof {
                        self.lemma_tk();
                    }
                    if self.peek_is(&TokenKind::RParen) {
                        break;
                    }
                } else {
                    break;
                }
            }
        }
        proof {
            self.lemma_tk();
        }
        self.expect(TokenKind::RParen, "`)`")?;
        Some(items)
    }

    /// `key [value]` (see `pack_item_at`).
    pub fn parse_pack_item(&mut self) -> (r: Option<PackItem>)
        requires
            old(self).wf(),
        ensures
            old(self).parsed(*final(self), r is Some),
            pack_item_at(old(self).toks(), old(self).at()) == (opt_item_v(r), final(self).at()),
            old(self).quiet(*final(self)) == item_clean(old(self).toks(), old(self).at()),
        decreases old(self).remaining(), 1nat,
    {
        proof {
            self.lemma_tk();
        }
        let ghost ts = self.toks();
        let ghost p0 = self.at();
        let key = self.parse_ident()?;
        let key_span = key.span;
        proof {
            self.lemma_tk();
            assert(ident_at(ts, p0) == Some(ident_v(key)));
        }
        let value = if self.peek_is(&TokenKind::Comma) || self.peek_is(&TokenKind::RParen) || self.peek_is(&TokenKind::Semi) {
            PackValue::Unit
        } else {
            match self.parse_pack_value() {
                Some(v) => v,
                None => PackValue::Unit,
            }
        };
        Some(PackItem { key, value, span: key_span })
    }

    /// A run of further words and dotted paths after the first word
    /// (see `word_run_at`).
    fn word_run(&mut self, first: PackValue) -> (r: Option<PackValue>)
        requires
            old(self).wf(),
        ensures
            old(self).advanced(*final(self)),
            r is None ==> old(self).reported_more(*final(self)),
            r is Some ==> old(self).quiet(*final(self)),
            word_run_at(old(self).toks(), old(self).at(), seq![pack_value_v(first)]) == (opt_value_v(r), final(self).at()),
    {
        proof {
            self.lemma_tk();
        }
        let ghost ts = self.toks();
        let ghost p0 = self.at();
        let ghost fv = pack_value_v(first);
        let mut values: Vec<PackValue> = Vec::new();
        values.push(first);
        proof {
            assert(values@.drop_last() =~= Seq::<PackValue>::empty());
            assert(pack_values_v(values@.drop_last()) =~= Seq::<PackV>::empty());
            assert(values@.last() == first);
            assert(pack_values_v(values@) =~= seq![fv]);
        }
        loop
            invariant_except_break
                word_run_at(ts, p0, seq![fv]) == word_run_at(ts, self.at(), pack_values_v(values@)),
            invariant
                old(self).quiet(*self),
                self.wf(),
                old(self).advanced(*self),
                ts == self.toks(),
                ts == old(self).toks(),
                p0 == old(self).at(),
                self.at() <= ts.len(),
                fv == pack_value_v(first),
            ensures
                word_run_at(ts, p0, seq![fv]) == (Some(PackV::List(pack_values_v(values@))), self.at()),
            decreases self.remaining(),
        {
            proof {
                self.lemma_tk();
            }
            match self.peek_kind() {
                TokenKind::Ident(_) => {},
                _ => {
                    break;
                },
            }
            let ghost s0 = *self;
            let ghost pi = self.at();
            let ghost acc = pack_values_v(values@);
            let ghost before = values@;
            let next = self.parse_ident()?;
            let ghost w = ident_v(next);
            proof {
                self.lemma_tk();
                assert(ident_at(ts, pi) == Some(w));
            }
            if self.peek_is(&TokenKind::Dot) {
                let mut path: Vec<Ident> = vec![next];
                proof {
                    assert(path@.drop_last() =~= Seq::<Ident>::empty());
                    assert(idents_v(path@) =~= seq![w]);
                }
                while self.peek_is(&TokenKind::Dot)
                    invariant
                        old(self).quiet(*self),
                        self.wf(),
                        old(self).advanced(*self),
                        s0.advanced(*self),
                        self.pos > s0.pos,
                        ts == self.toks(),
                        self.at() <= ts.len(),
                        self.at() > pi,
                        pack_path(ts, pi + 1, seq![w]) == pack_path(ts, self.at(), idents_v(path@)),
                        ts == old(self).toks(),
                        p0 == old(self).at(),
                        0 <= pi < ts.len(),
                        tk(ts, pi + 1).kind is Dot,
                        ident_at(ts, pi) == Some(w),
                        word_run_at(ts, p0, seq![fv]) == word_run_at(ts, pi, acc),
                        fv == pack_value_v(first),
                    decreases self.remaining(),
                {
                    proof {
                        self.lemma_tk();
                    }
                    let ghost d = self.at();
                    let ghost pacc = idents_v(path@);
                    self.skip_one();
                    proof {
                        self.lemma_tk();
                    }
                    let seg = match self.parse_ident() {
                        Some(x) => x,
                        None => {
                            proof {
                                assert(ident_at(ts, d + 1) is None);
                                assert(pack_path(ts, d, pacc) == (None::<Seq<IdentV>>, d + 1));
                                assert(word_run_at(ts, pi, acc) == (None::<PackV>, d + 1));
                                assert(word_run_at(ts, p0, seq![fv]) == (None::<PackV>, d + 1));
                                assert(self.at() == d + 1);
                                assert(opt_value_v(None) == None::<PackV>);
                            }
                            return None;
                        },
                    };
                    proof {
                        assert(ident_at(ts, d + 1) == Some(ident_v(seg)));
                        assert(idents_v(path@.push(seg)) =~= pacc.push(ident_v(seg)));
                    }
                    path.push(seg);
                }
                proof {
                    self.lemma_tk();
                    assert(pack_path(ts, self.at(), idents_v(path@)) == (Some(idents_v(path@)), self.at()));
                }
                let ghost pv = PackV::Path(idents_v(path@));
                let v = PackValue::Path(path);
                proof {
                    assert(pack_value_v(v) == pv);
                }
                values.push(v);
                proof {
                    assert(values@.drop_last() =~= before);
                    assert(pack_values_v(values@) =~= acc.push(pv));
                }
            } else {
                let v = PackValue::Word(next);
                proof {
                    assert(pack_value_v(v) == PackV::Word(w));
                }
                values.push(v);
                proof {
                    assert(values@.drop_last() =~= before);
                    assert(pack_values_v(values@) =~= acc.push(PackV::Word(w)));
                }
            }
            assert(self.remaining() < s0.remaining());
        }
        Some(PackValue::List(values))
    }

    /// A pack value: an integer (with a time unit `min`, `ms`, `s` or
    /// `sec`, a quantity), a string, a parenthesized nested pack or
    /// value list, a call `name(items)`, a dotted path, a run of words,
    /// or one word. Any other token is reported and skipped.
    pub fn parse_pack_value(&mut self) -> (r: Option<PackValue>)
        requires
            old(self).wf(),
        ensures
            old(self).parsed(*final(self), r is Some),
            pack_value_at(old(self).toks(), old(self).at()) == (opt_value_v(r), final(self).at()),
            old(self).quiet(*final(self)) == pack_value_clean(old(self).toks(), old(self).at()),
        decreases old(self).remaining(), 0nat,
    {
        proof {
            self.lemma_tk();
        }
        let ghost ts = self.toks();
        let ghost p0 = self.at();
        match self.peek_kind() {
            TokenKind::Int(v) => {
                let int_val = *v;
                self.skip_one();
                proof {
                    self.lemma_tk();
                }
                let is_unit = match self.peek_kind() {
                    TokenKind::Ident(u) => str_eq(u.as_str(), "min") || str_eq(u.as_str(), "ms") || str_eq(u.as_str(), "s")
                        || str_eq(u.as_str(), "sec"),
                    _ => false,
                };
                if is_unit {
                    let unit = self.parse_ident()?;
                    return Some(PackValue::Quantity { value: int_val, unit });
                }
                Some(PackValue::Int(int_val))
            },
            TokenKind::Str(t) => {
                let text = t.clone();
                self.skip_one();
                Some(PackValue::Str(text))
            },
            TokenKind::LParen => {
                self.skip_one();
                self.parse_paren_value()
            },
            TokenKind::Ident(_) => {
                let first = self.parse_ident()?;
                let ghost fv = ident_v(first);
                proof {
                    self.lemma_tk();
                    assert(ident_at(ts, p0) == Some(fv));
                }
                if self.peek_is(&TokenKind::LParen) {
                    self.skip_one();
                    proof {
                        self.lemma_tk();
                    }
                    let ghost a = self.at();
                    let mut args: Vec<PackValue> = Vec::new();
                    proof {
                        assert(pack_values_v(args@) =~= Seq::<PackV>::empty());
                    }
                    if !self.peek_is(&TokenKind::RParen) {
                        let mut iterations: usize = 0;
                        let ghost dc = self.diags.len();
                        loop
                            invariant_except_break
                                call_args(ts, a, 0, Seq::empty()) == call_args(ts, self.at(), iterations as int, pack_values_v(args@)),
                                call_args_clean(ts, a, 0) == (self.diags.len() == dc && call_args_clean(ts, self.at(), iterations as int)),
                            invariant
                                self.diags.len() >= dc,
                                self.wf(),
                                old(self).advanced(*self),
                                self.pos > old(self).pos,
                                iterations <= 1000,
                                ts == self.toks(),
                                self.at() <= ts.len(),
                            ensures
                                call_args(ts, a, 0, Seq::empty()) == (pack_values_v(args@), self.at()),
                                call_args_clean(ts, a, 0) == (self.diags.len() == dc),
                            decreases 1000 - iterations,
                        {
                            if iterations >= 1000 {
                                break;
                            }
                            let ghost acc = pack_values_v(args@);
                            let ghost before = args@;
                            iterations = iterations + 1;
                            let item_start = self.pos;
                            match self.parse_pack_item() {
                                Some(item) => {
                                    let ghost iv = pack_item_v(item);
                                    let mut one: Vec<PackItem> = Vec::new();
                                    one.push(item);
                                    let arg = PackValue::Nested(one);
                                    proof {
                                        assert(one@.drop_last() =~= Seq::<PackItem>::empty());
                                        assert(pack_items_v(one@.drop_last()) =~= Seq::<(IdentV, PackV, int, int)>::empty());
                                        assert(pack_items_v(one@) =~= seq![iv]);
                                        assert(pack_value_v(arg) == PackV::Nested(seq![iv]));
                                    }
                                    args.push(arg);
                                    proof {
                                        assert(args@.drop_last() =~= before);
                                        assert(pack_values_v(args@) =~= acc.push(PackV::Nested(seq![iv])));
                                    }
                                },
                                None => {
                                    if self.pos == item_start && self.pos < self.tokens.len() {
                                        self.advance();
                                    }
                                },
                            }
                            proof {
                                self.lemma_tk();
                            }
                            if self.peek_is(&TokenKind::Comma) || self.peek_is(&TokenKind::Semi) {
                                self.skip_one();
                            } else {
                                break;
                            }
                        }
                    }
                    proof {
                        self.lemma_tk();
                    }
                    self.expect(TokenKind::RParen, "`)`")?;
                    Some(PackValue::Call { name: first, args })
                } else if self.peek_is(&TokenKind::Dot) {
                    let mut path: Vec<Ident> = Vec::new();
                    path.push(first);
                    proof {
                        assert(path@.drop_last() =~= Seq::<Ident>::empty());
                        assert(idents_v(path@) =~= seq![fv]);
                    }
                    while self.peek_is(&TokenKind::Dot)
                        invariant
                            self.wf(),
                            old(self).advanced(*self),
                            self.pos > old(self).pos,
                            ts == self.toks(),
                            ts == old(self).toks(),
                            p0 == old(self).at(),
                            self.at() <= ts.len(),
                            pack_path(ts, p0 + 1, seq![fv]) == pack_path(ts, self.at(), idents_v(path@)),
                            old(self).quiet(*self),
                            ident_at(ts, p0) == Some(fv),
                            tk(ts, p0 + 1).kind is Dot,
                            0 <= p0 < ts.len(),
                        decreases self.remaining(),
                    {
                        proof {
                            self.lemma_tk();
                        }
                        let ghost d = self.at();
                        let ghost pacc = idents_v(path@);
                        self.skip_one();
                        proof {
                            self.lemma_tk();
                        }
                        let seg = match self.parse_ident() {
                            Some(x) => x,
                            None => {
                                proof {
                                    assert(ident_at(ts, d + 1) is None);
                                    assert(pack_path(ts, d, pacc) == (None::<Seq<IdentV>>, d + 1));
                                    assert(pack_value_at(ts, p0) == (None::<PackV>, d + 1));
                                }
                                return None;
                            },
                        };
                        proof {
                            assert(ident_at(ts, d + 1) == Some(ident_v(seg)));
                            assert(idents_v(path@.push(seg)) =~= pacc.push(ident_v(seg)));
                        }
                        path.push(seg);
                    }
                    proof {
                        self.lemma_tk();
                    }
                    let more = match self.peek_kind() {
                        TokenKind::Ident(_) => true,
                        _ => false,
                    };
                    let pv = PackValue::Path(path);
                    if more {
                        self.word_run(pv)
                    } else {
                        Some(pv)
                    }
                } else {
                    let more = match self.peek_kind() {
                        TokenKind::Ident(_) => true,
                        _ => false,
                    };
                    let wv = PackValue::Word(first);
                    if more {
                        self.word_run(wv)
                    } else {
                        Some(wv)
                    }
                }
            },
            _ => {
                let span = self.peek().span;
                let mut message = owned("unexpected token in pack: `");
                let shown = self.token_display();
                push_str(&mut message, shown.as_str());
                push_str(&mut message, "`");
                self.error("E101", span, message);
                self.advance();
                None
            },
        }
    }

    /// The inside of `( ... )` after its `(` (see `paren_value_at`).
    fn parse_paren_value(&mut self) -> (r: Option<PackValue>)
        requires
            old(self).wf(),
        ensures
            old(self).parsed(*final(self), r is Some),
            paren_value_at(old(self).toks(), old(self).at()) == (opt_value_v(r), final(self).at()),
            old(self).quiet(*final(self)) == paren_clean(old(self).toks(), old(self).at()),
        decreases old(self).remaining(), 2nat,
    {
        proof {
            self.lemma_tk();
        }
        let ghost ts = self.toks();
        let ghost p0 = self.at();
        proof {
            self.lemma_tk();
        }
        let ghost q = self.at();
        let mut pack_items: Vec<PackItem> = Vec::new();
        let mut value_items: Vec<PackValue> = Vec::new();
        let mut is_pack = true;
        proof {
            assert(pack_values_v(value_items@) =~= Seq::<PackV>::empty());
        }
        if !self.peek_is(&TokenKind::RParen) {
            let looks_keyed = match self.peek_kind() {
                TokenKind::Ident(_) => true,
                _ => false,
            };
            if looks_keyed {
                let saved_pos = self.pos;
                match self.parse_pack_item() {
                    Some(item) => {
                        let unit = match item.value {
                            PackValue::Unit => true,
                            _ => false,
                        };
                        if !unit {
                            let ghost q2 = self.at();
                            let ghost it0 = pack_item_v(item);
                            pack_items.push(item);
                            proof {
                                assert(pack_items@.drop_last() =~= Seq::<PackItem>::empty());
                                assert(pack_items_v(pack_items@.drop_last()) =~= Seq::<(IdentV, PackV, int, int)>::empty());
                                assert(pack_items_v(pack_items@) =~= seq![it0]);
                                self.lemma_tk();
                            }
                            let mut iterations: usize = 0;
                            let ghost dq = self.diags.len();
                            while (self.peek_is(&TokenKind::Comma) || self.peek_is(&TokenKind::Semi)) && iterations < 1000
                                invariant_except_break
                                    nested_items(ts, q2, 0, seq![it0]) == nested_items(ts, self.at(), iterations as int, pack_items_v(pack_items@)),
                                    nested_clean(ts, q2, 0) == (self.diags.len() == dq && nested_clean(ts, self.at(), iterations as int)),
                                invariant
                                    self.diags.len() >= dq,
                                    self.wf(),
                                    old(self).advanced(*self),
                                    self.pos >= old(self).pos,
                                    iterations <= 1000,
                                    ts == self.toks(),
                                    self.at() <= ts.len(),
                                ensures
                                    nested_items(ts, q2, 0, seq![it0]) == (pack_items_v(pack_items@), self.at()),
                                    nested_clean(ts, q2, 0) == (self.diags.len() == dq),
                                decreases 1000 - iterations,
                            {
                                proof {
                                    self.lemma_tk();
                                }
                                let ghost pi = self.at();
                                let ghost acc = pack_items_v(pack_items@);
                                let ghost before = pack_items@;
                                iterations = iterations + 1;
                                self.skip_one();
                                proof {
                                    self.lemma_tk();
                                }
                                if self.peek_is(&TokenKind::RParen) {
                                    break;
                                }
                                let item_start = self.pos;
                                match self.parse_pack_item() {
                                    Some(it) => {
                                        let ghost iv = pack_item_v(it);
                                        pack_items.push(it);
                                        proof {
                                            assert(pack_items@.drop_last() =~= before);
                                            assert(pack_items_v(pack_items@) =~= acc.push(iv));
                                        }
                                    },
                                    None => {
                                        if self.pos == item_start && self.pos < self.tokens.len() {
                                            self.advance();
                                        }
                                    },
                                }
                                proof {
                                    self.lemma_tk();
                                }
                            }
                            proof {
                                self.lemma_tk();
                            }
                            self.expect(TokenKind::RParen, "`)`")?;
                            return Some(PackValue::Nested(pack_items));
                        } else {
                            self.rewind(saved_pos);
                            is_pack = false;
                        }
                    },
                    None => {
                        self.rewind(saved_pos);
                        is_pack = false;
                    },
                }
            } else {
                is_pack = false;
            }
            proof {
                self.lemma_tk();
            }
            if !is_pack {
                let mut iterations: usize = 0;
                let ghost dv = self.diags.len();
                loop
                    invariant_except_break
                        value_list(ts, q, 0, Seq::empty()) == value_list(ts, self.at(), iterations as int, pack_values_v(value_items@)),
                        value_list_clean(ts, q, 0) == (self.diags.len() == dv && value_list_clean(ts, self.at(), iterations as int)),
                    invariant
                        self.diags.len() >= dv,
                        self.wf(),
                        old(self).advanced(*self),
                        self.pos >= old(self).pos,
                        iterations <= 1000,
                        ts == self.toks(),
                        self.at() <= ts.len(),
                    ensures
                        value_list(ts, q, 0, Seq::empty()) == (pack_values_v(value_items@), self.at()),
                        value_list_clean(ts, q, 0) == (self.diags.len() == dv),
                    decreases 1000 - iterations,
                {
                    if iterations >= 1000 {
                        break;
                    }
                    let ghost pi = self.at();
                    let ghost acc = pack_values_v(value_items@);
                    let ghost before = value_items@;
                    iterations = iterations + 1;
                    match self.parse_pack_value() {
                        Some(v) => {
                            let ghost vv = pack_value_v(v);
                            value_items.push(v);
                            proof {
                                assert(value_items@.drop_last() =~= before);
                                assert(pack_values_v(value_items@) =~= acc.push(vv));
                            }
                        },
                        None => {
                            break;
                        },
                    }
                    proof {
                        self.lemma_tk();
                    }
                    if self.peek_is(&TokenKind::Comma) {
                        self.skip_one();
                        proof {
                            self.lemma_tk();
                        }
                        if self.peek_is(&TokenKind::RParen) {
                            break;
                        }
                    } else {
                        break;
                    }
                }
            }
        }
        proof {
            self.lemma_tk();
        }
        self.expect(TokenKind::RParen, "`)`")?;
        if is_pack && pack_items.len() > 0 {
            Some(PackValue::Nested(pack_items))
        } else {
            Some(PackValue::List(value_items))
        }
    }

    /// Moves back to `pos`, a position no earlier than where the caller
    /// started.
    fn rewind(&mut self, pos: usize)
        requires
            old(self).wf(),
            pos <= old(self).pos,
        ensures
            final(self).wf(),
            final(self).pos == pos,
            final(self).tokens@ == old(self).tokens@,
            final(self).diags@ == old(self).diags@,
    {
        self.pos = pos;
    }

    /// A predicate (see `pred_or_at`).
    pub fn parse_pred(&mut self) -> (r: Option<Pred>)
        requires
            old(self).wf(),
        ensures
            old(self).parsed(*final(self), r is Some),
            r is Some ==> old(self).quiet(*final(self)),
            match pred_or_at(old(self).toks(), old(self).at()) {
                Some((v, q)) => r is Some && pred_v(r->0) == v && final(self).at() == q,
                None => r is None,
            },
            final(self).at() == pred_or_end(old(self).toks(), old(self).at()),
    {
        self.parse_pred_or()
    }

    /// `p or p or ...`, left-associated (see `pred_or_at`).
    pub fn parse_pred_or(&mut self) -> (r: Option<Pred>)
        requires
            old(self).wf(),
        ensures
            old(self).parsed(*final(self), r is Some),
            r is Some ==> old(self).quiet(*final(self)),
            match pred_or_at(old(self).toks(), old(self).at()) {
                Some((v, q)) => r is Some && pred_v(r->0) == v && final(self).at() == q,
                None => r is None,
            },
            final(self).at() == pred_or_end(old(self).toks(), old(self).at()),
        decreases old(self).remaining(), 3nat,
    {
        proof {
            self.lemma_tk();
        }
        let ghost ts = self.toks();
        let ghost p0 = self.at();
        let mut left = match self.parse_pred_and() {
            Some(x) => x,
            None => {
                return None;
            },
        };
        while self.check_ident("or")
            invariant
                old(self).quiet(*self),
                self.wf(),
                old(self).advanced(*self),
                self.pos > old(self).pos,
                ts == self.toks(),
                ts == old(self).toks(),
                p0 == old(self).at(),
                self.at() <= ts.len(),
                pred_or_at(ts, p0) == or_tail(ts, self.at(), pred_v(left)),
                pred_or_end(ts, p0) == or_tail_end(ts, self.at()),
            decreases self.remaining(),
        {
            proof {
                self.lemma_tk();
            }
            self.skip_one();
            let right = match self.parse_pred_and() {
                Some(x) => x,
                None => {
                    return None;
                },
            };
            left = Pred::Or(Box::new(left), Box::new(right));
        }
        proof {
            self.lemma_tk();
        }
        Some(left)
    }

    /// `p and p and ...`, left-associated (see `pred_and_at`).
    pub fn parse_pred_and(&mut self) -> (r: Option<Pred>)
        requires
            old(self).wf(),
        ensures
            old(self).parsed(*final(self), r is Some),
            r is Some ==> old(self).quiet(*final(self)),
            match pred_and_at(old(self).toks(), old(self).at()) {
                Some((v, q)) => r is Some && pred_v(r->0) == v && final(self).at() == q,
                None => r is None,
            },
            final(self).at() == pred_and_end(old(self).toks(), old(self).at()),
        decreases old(self).remaining(), 2nat,
    {
        proof {
            self.lemma_tk();
        }
        let ghost ts = self.toks();
        let ghost p0 = self.at();
        let mut left = match self.parse_pred_not() {
            Some(x) => x,
            None => {
                return None;
            },
        };
        while self.check_ident("and")
            invariant
                old(self).quiet(*self),
                self.wf(),
                old(self).advanced(*self),
                self.pos > old(self).pos,
                ts == self.toks(),
                ts == old(self).toks(),
                p0 == old(self).at(),
                self.at() <= ts.len(),
                pred_and_at(ts, p0) == and_tail(ts, self.at(), pred_v(left)),
                pred_and_end(ts, p0) == and_tail_end(ts, self.at()),
            decreases self.remaining(),
        {
            proof {
                self.lemma_tk();
            }
            self.skip_one();
            let right = match self.parse_pred_not() {
                Some(x) => x,
                None => {
                    return None;
                },
            };
            left = Pred::And(Box::new(left), Box::new(right));
        }
        proof {
            self.lemma_tk();
        }
        Some(left)
    }

    /// `not p` or an atom (see `pred_not_at`).
    pub fn parse_pred_not(&mut self) -> (r: Option<Pred>)
        requires
            old(self).wf(),
        ensures
            old(self).parsed(*final(self), r is Some),
            r is Some ==> old(self).quiet(*final(self)),
            match pred_not_at(old(self).toks(), old(self).at()) {
                Some((v, q)) => r is Some && pred_v(r->0) == v && final(self).at() == q,
                None => r is None,
            },
            final(self).at() == pred_not_end(old(self).toks(), old(self).at()),
        decreases old(self).remaining(), 1nat,
    {
        proof {
            self.lemma_tk();
        }
        if self.check_ident("not") {
            self.skip_one();
            let p = self.parse_pred_not()?;
            Some(Pred::Not(Box::new(p)))
        } else {
            self.parse_pred_atom()
        }
    }

    /// `for all M x: p`, `exists M x [:] p`, a comparison `e = e`, `e <
    /// e`, `e <= e`, a call, or a one-segment path as a word (see
    /// `pred_atom_at`).
    #[verifier::rlimit(80)]
    #[verifier::spinoff_prover]
    pub fn parse_pred_atom(&mut self) -> (r: Option<Pred>)
        requires
            old(self).wf(),
        ensures
            old(self).parsed(*final(self), r is Some),
            r is Some ==> old(self).quiet(*final(self)),
            match pred_atom_at(old(self).toks(), old(self).at()) {
                Some((v, q)) => r is Some && pred_v(r->0) == v && final(self).at() == q,
                None => r is None,
            },
            final(self).at() == pred_atom_end(old(self).toks(), old(self).at()),
        decreases old(self).remaining(), 0nat,
    {
        proof {
            self.lemma_tk();
        }
        let ghost ts = self.toks();
        let ghost p0 = self.at();
        if self.check_ident("for") {
            self.skip_one();
            proof {
                self.lemma_tk();
            }
            if !self.keyword("all", "expected `all` in quantifier") {
                return None;
            }
            proof {
                self.lemma_tk();
            }
            let mode = self.parse_ident()?;
            proof {
                self.lemma_tk();
            }
            let var = self.parse_ident()?;
            proof {
                self.lemma_tk();
                assert(ident_at(ts, p0 + 2) == Some(ident_v(mode)));
                assert(ident_at(ts, p0 + 3) == Some(ident_v(var)));
            }
            if !self.peek_is(&TokenKind::Colon) {
                self.fail_here("expected `:` in quantifier");
                return None;
            }
            self.skip_one();
            let body = self.parse_pred_or()?;
            Some(Pred::ForAll { mode, var, body: Box::new(body) })
        } else if self.check_ident("exists") {
            self.skip_one();
            proof {
                self.lemma_tk();
            }
            let mode = self.parse_ident()?;
            proof {
                self.lemma_tk();
            }
            let var = self.parse_ident()?;
            proof {
                self.lemma_tk();
                assert(ident_at(ts, p0 + 1) == Some(ident_v(mode)));
                assert(ident_at(ts, p0 + 2) == Some(ident_v(var)));
            }
            if self.peek_is(&TokenKind::Colon) {
                self.skip_one();
            } else if !self.check_ident(":") {
                self.fail_here("expected `:` in quantifier");
                return None;
            }
            let body = self.parse_pred_or()?;
            Some(Pred::Exists { mode, var, body: Box::new(body) })
        } else {
            let lhs = self.parse_expr()?;
            proof {
                self.lemma_tk();
            }
            if self.peek_is(&TokenKind::Eq) {
                self.skip_one();
                let rhs = self.parse_expr()?;
                Some(Pred::Cmp { op: CmpOp::Eq, lhs, rhs })
            } else if self.peek_is(&TokenKind::Lt) {
                self.skip_one();
                let rhs = self.parse_expr()?;
                Some(Pred::Cmp { op: CmpOp::Lt, lhs, rhs })
            } else if self.peek_is(&TokenKind::Le) {
                self.skip_one();
                let rhs = self.parse_expr()?;
                Some(Pred::Cmp { op: CmpOp::Le, lhs, rhs })
            } else {
                match lhs {
                    Expr::Call { name, args } => Some(Pred::Call { name, args }),
                    Expr::Path(mut path) => {
                        if path.len() == 1 {
                            let ghost pv = idents_v(path@);
                            let w = path.pop().unwrap();
                            proof {
                                assert(pv[0] == ident_v(w));
                            }
                            Some(Pred::Word(w))
                        } else {
                            self.fail_here("invalid predicate");
                            None
                        }
                    },
                    _ => {
                        self.fail_here("invalid predicate");
                        None
                    },
                }
            }
        }
    }

    /// An integer, a string, a dotted path, or a call `name(e, ...)`
    /// (see `expr_at`).
    pub fn parse_expr(&mut self) -> (r: Option<Expr>)
        requires
            old(self).wf(),
        ensures
            old(self).parsed(*final(self), r is Some),
            r is Some ==> old(self).quiet(*final(self)),
            match expr_at(old(self).toks(), old(self).at()) {
                Some((v, q)) => r is Some && expr_v(r->0) == v && final(self).at() == q,
                None => r is None,
            },
            final(self).at() == expr_end(old(self).toks(), old(self).at()),
        decreases old(self).remaining(),
    {
        proof {
            self.lemma_tk();
        }
        let ghost ts = self.toks();
        let ghost p0 = self.at();
        match self.peek_kind() {
            TokenKind::Int(v) => {
                let value = *v;
                self.skip_one();
                Some(Expr::Int(value))
            },
            TokenKind::Str(t) => {
                let text = t.clone();
                self.skip_one();
                Some(Expr::Str(text))
            },
            TokenKind::Ident(_) => {
                let first = self.parse_ident()?;
                let ghost fv = ident_v(first);
                proof {
                    self.lemma_tk();
                }
                if self.peek_is(&TokenKind::Dot) {
                    let mut path: Vec<Ident> = Vec::new();
                    path.push(first);
                    proof {
                        assert(idents_v(path@) =~= seq![fv]);
                        assert(ident_at(ts, p0) == Some(fv));
                    }
                    while self.peek_is(&TokenKind::Dot)
                        invariant
                            old(self).quiet(*self),
                            self.wf(),
                            old(self).advanced(*self),
                            self.pos > old(self).pos,
                            ts == self.toks(),
                            ts == old(self).toks(),
                            p0 == old(self).at(),
                            path_from(ts, p0 + 1, seq![fv]) == path_from(ts, self.at(), idents_v(path@)),
                            expr_at(ts, p0) == match path_from(ts, p0 + 1, seq![fv]) {
                                Some((path, e)) => Some((ExprV::Path(path), e)),
                                None => None,
                            },
                            expr_end(ts, p0) == path_end(ts, self.at()),
                            self.at() <= ts.len(),
                        decreases self.remaining(),
                    {
                        let ghost pi = self.at();
                        proof {
                            self.lemma_tk();
                        }
                        self.skip_one();
                        proof {
                            self.lemma_tk();
                        }
                        let seg = match self.parse_ident() {
                            Some(x) => x,
                            None => {
                                proof {
                                    assert(ident_at(ts, pi + 1) is None);
                                    assert(path_from(ts, pi, idents_v(path@)) is None);
                                }
                                return None;
                            },
                        };
                        proof {
                            assert(ident_at(ts, pi + 1) == Some(ident_v(seg)));
                        }
                        let ghost prev = idents_v(path@);
                        path.push(seg);
                        proof {
                            assert(idents_v(path@) =~= prev.push(ident_v(seg)));
                        }
                    }
                    proof {
                        self.lemma_tk();
                    }
                    Some(Expr::Path(path))
                } else if self.peek_is(&TokenKind::LParen) {
                    self.skip_one();
                    let mut args: Vec<Expr> = Vec::new();
                    proof {
                        self.lemma_tk();
                        assert(exprs_v(args@) =~= Seq::<ExprV>::empty());
                    }
                    if !self.peek_is(&TokenKind::RParen) {
                        loop
                            invariant_except_break
                                args_from(ts, p0 + 2, Seq::empty()) == args_from(ts, self.at(), exprs_v(args@)),
                                args_end(ts, p0 + 2) == args_end(ts, self.at()),
                            invariant
                                old(self).quiet(*self),
                                self.wf(),
                                old(self).advanced(*self),
                                self.pos > old(self).pos,
                                ts == self.toks(),
                                ts == old(self).toks(),
                                p0 == old(self).at(),
                                self.at() <= ts.len(),
                                expr_at(ts, p0) == match args_from(ts, p0 + 2, Seq::empty()) {
                                    Some((args, e)) => if tk(ts, e).kind is RParen {
                                        Some((ExprV::Call(fv, args), e + 1))
                                    } else {
                                        None
                                    },
                                    None => None,
                                },
                                expr_end(ts, p0) == {
                                    let e = args_end(ts, p0 + 2);
                                    if args_from(ts, p0 + 2, Seq::empty()) is Some && tk(ts, e).kind is RParen { e + 1 } else { e }
                                },
                            ensures
                                args_from(ts, p0 + 2, Seq::empty()) == Some((exprs_v(args@), self.at())),
                                args_end(ts, p0 + 2) == self.at(),
                            decreases self.remaining(),
                        {
                            let ghost pi = self.at();
                            let ghost acc = exprs_v(args@);
                            let ghost before = args@;
                            let a = match self.parse_expr() {
                                Some(x) => x,
                                None => {
                                    proof {
                                        assert(args_from(ts, pi, acc) is None);
                                    }
                                    return None;
                                },
                            };
                            let ghost av = expr_v(a);
                            args.push(a);
                            proof {
                                assert(args@.drop_last() =~= before);
                                assert(exprs_v(args@) == acc.push(av));
                                self.lemma_tk();
                            }
                            if self.peek_is(&TokenKind::Comma) {
                                self.skip_one();
                            } else {
                                break;
                            }
                        }
                    }
                    proof {
                        self.lemma_tk();
                    }
                    self.expect(TokenKind::RParen, "`)`")?;
                    Some(Expr::Call { name: first, args })
                } else {
                    let mut path: Vec<Ident> = Vec::new();
                    path.push(first);
                    proof {
                        assert(idents_v(path@) =~= seq![fv]);
                    }
                    Some(Expr::Path(path))
                }
            },
            _ => {
                let span = self.peek().span;
                let mut message = owned("expected expression, got `");
                let shown = self.token_display();
                push_str(&mut message, shown.as_str());
                push_str(&mut message, "`");
                self.error("E101", span, message);
                None
            },
        }
    }

    /// Error recovery: skips to the next declaration keyword at depth 0
    /// (or past the `)` closing depth 1), skipping nested groups whole.
    fn skip_to_next_decl(&mut self, paren_depth: i64)
        requires
            old(self).wf(),
        ensures
            old(self).advanced(*final(self)),
            final(self).diags@ == old(self).diags@,
            final(self).at() == skip_decl(old(self).toks(), old(self).at(), paren_depth as int),
        decreases old(self).remaining(),
    {
        proof {
            self.lemma_tk();
        }
        let ghost ts = self.toks();
        let ghost p0 = self.at();
        while self.pos < self.tokens.len() && !self.peek_is(&TokenKind::Eof)
            invariant
                self.wf(),
                old(self).advanced(*self),
                self.diags@ == old(self).diags@,
                ts == self.toks(),
                ts == old(self).toks(),
                p0 == old(self).at(),
                self.at() <= ts.len(),
                self.peek_v() == tk(ts, self.at()),
                self.toks().len() == self.tokens.len(),
                skip_decl(ts, p0, paren_depth as int) == skip_decl(ts, self.at(), paren_depth as int),
            decreases self.remaining(),
        {
            if self.peek_is(&TokenKind::LParen) {
                self.skip_one();
                if paren_depth == 0 {
                    self.skip_to_next_decl(1);
                }
            } else if self.peek_is(&TokenKind::RParen) {
                self.skip_one();
                if paren_depth == 1 {
                    return;
                }
            } else {
                let stop = match self.peek_kind() {
                    TokenKind::Ident(name) => paren_depth == 0 && is_decl_keyword(name.as_str()),
                    _ => false,
                };
                if stop {
                    return;
                }
                self.skip_one();
            }
            proof {
                self.lemma_tk();
            }
        }
    }

    /// `(` minus `)` over the tokens before the position (see
    /// `depth_before`).
    fn paren_depth(&self) -> (r: i64)
        requires
            self.wf(),
        ensures
            r == depth_before(self.toks(), self.at()),
    {
        proof {
            self.lemma_tk();
        }
        let mut depth: i64 = 0;
        let mut i: usize = 0;
        while i < self.pos
            invariant
                self.wf(),
                i <= self.pos,
                depth == depth_before(self.toks(), i as int),
                forall|k: int| #[trigger] self.tok(k) == tk(self.toks(), k),
            decreases self.pos - i,
        {
            proof {
                assert(self.tok(i as int) == self.tokens@[i as int]@);
            }
            match &self.tokens[i].kind {
                TokenKind::LParen => {
                    if depth < i64::MAX {
                        depth = depth + 1;
                    }
                },
                TokenKind::RParen => {
                    if depth > i64::MIN {
                        depth = depth - 1;
                    }
                },
                _ => {},
            }
            i = i + 1;
        }
        depth
    }
}

fn is_decl_keyword(t: &str) -> (r: bool)
    ensures
        r == decl_keyword(t@),
{
    str_eq(t, "use") || str_eq(t, "application") || str_eq(t, "actor") || str_eq(t, "mode") || str_eq(t, "component")
        || str_eq(t, "interface") || str_eq(t, "state") || str_eq(t, "flow") || str_eq(t, "behavior") || str_eq(t, "inv")
        || str_eq(t, "constraint") || str_eq(t, "synthesis") || str_eq(t, "acceptance")
}

/// Parses source text: the file is the one `file_at` reads from the
/// lexer's tokens; the lexer's diagnostics come first, then the
/// parser's, every one of which is an error; no file comes back only
/// with at least one of them, and the parser reports none exactly when
/// the tokens read as a file with no recovery (`file_clean`).
pub fn parse(src: &str) -> (r: (Option<File>, Vec<Diagnostic>))
    ensures
        match file_at(lex_v(src@).0, 0) {
            Some((sv, ds)) => r.0 is Some && spec_decl_v(r.0->0.spec) == sv && decls_v(r.0->0.decls@) == ds,
            None => r.0 is None,
        },
        r.1.len() >= lex_v(src@).1.len(),
        r.1.len() == lex_v(src@).1.len() <==> file_clean(lex_v(src@).0, 0),
        diags_v(r.1@).subrange(0, lex_v(src@).1.len() as int) == lex_v(src@).1,
        forall|i: int| lex_v(src@).1.len() <= i < r.1.len() ==> (#[trigger] r.1@[i]).severity == Severity::Error,
        r.0 is None ==> r.1.len() > lex_v(src@).1.len(),
{
    let (tokens, lex_diags) = Lexer::tokenize(src);
    proof {
        crate::lexer::lemma_lex_ends_eof(src@, 0);
        assert(toks_v(tokens@).len() == tokens@.len());
        assert(toks_v(tokens@).last() == tokens@.last()@);
    }
    let mut parser = Parser::new(tokens);
    proof {
        assert(diags_v(parser.diags@).len() == parser.diags@.len());
    }
    let ghost start = parser;
    let file = parser.parse_file();
    proof {
        assert(start.diags.len() == 0);
        assert(start.parsed(parser, file is Some));
    }
    let parsed = parser.into_diagnostics();
    let mut all = lex_diags;
    let ghost lexd = all@;
    proof {
        assert(diags_v(lexd).len() == lexd.len());
    }
    let mut k: usize = 0;
    while k < parsed.len()
        invariant
            k <= parsed.len(),
            all@ == lexd + parsed@.take(k as int),
        decreases parsed.len() - k,
    {
        let d = parsed[k].clone();
        all.push(d);
        proof {
            assert(parsed@.take(k + 1) =~= parsed@.take(k as int).push(parsed@[k as int]));
            assert(all@ =~= lexd + parsed@.take(k + 1));
        }
        k = k + 1;
    }
    proof {
        assert(parsed@.take(k as int) =~= parsed@);
        assert(all@.subrange(0, lexd.len() as int) =~= lexd);
        assert(diags_v(all@).subrange(0, lexd.len() as int) =~= diags_v(lexd));
        assert forall|i: int| lexd.len() <= i < all.len() implies (#[trigger] all@[i]).severity == Severity::Error by {
            assert(all@[i] == parsed@[i - lexd.len()]);
        }
    }
    (file, all)
}

} // verus!
