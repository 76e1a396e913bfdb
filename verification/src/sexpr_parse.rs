//! Reading one S-expression back from untrusted text. Total: never
//! panics, bounded nesting, rejects trailing content.
use vstd::prelude::*;
use crate::sexpr::{Sexpr, SexprV, views_of, lemma_views_of, print_v, print_join, escape_text, escape_char};
use crate::text::{chars_of, owned, push_u64_decimal, string_of_range, int_decimal, nat_digits, digit_char};

verus! {

/// Nesting bound: value-recursion frames beyond this depth are refused.
pub const MAX_PARSE_DEPTH: usize = 256;

pub open spec fn is_ws(c: char) -> bool {
    c == ' ' || c == '\t' || c == '\n' || c == '\r' || c == '\x0B' || c == '\x0C'
}

/// The characters that end a bare token or open/close a list.
pub open spec fn is_delim(c: char) -> bool {
    is_ws(c) || c == '(' || c == ')' || c == '"'
}

/// First position at or after `p` that is not whitespace.
pub open spec fn skip_ws_from(cs: Seq<char>, p: int) -> int
    decreases cs.len() - p,
{
    if 0 <= p < cs.len() && is_ws(cs[p]) {
        skip_ws_from(cs, p + 1)
    } else {
        p
    }
}

/// First position at or after `p` holding a delimiter (or the end).
pub open spec fn atom_end(cs: Seq<char>, p: int) -> int
    decreases cs.len() - p,
{
    if 0 <= p < cs.len() && !is_delim(cs[p]) {
        atom_end(cs, p + 1)
    } else {
        p
    }
}

pub proof fn lemma_skip_ws_from(cs: Seq<char>, p: int)
    requires
        0 <= p,
    ensures
        p <= skip_ws_from(cs, p),
        p <= cs.len() ==> skip_ws_from(cs, p) <= cs.len(),
        forall|k: int| p <= k < skip_ws_from(cs, p) ==> is_ws(#[trigger] cs[k]),
        skip_ws_from(cs, p) < cs.len() ==> !is_ws(cs[skip_ws_from(cs, p)]),
    decreases cs.len() - p,
{
    if 0 <= p < cs.len() && is_ws(cs[p]) {
        lemma_skip_ws_from(cs, p + 1);
    }
}

pub proof fn lemma_atom_end(cs: Seq<char>, p: int)
    requires
        0 <= p <= cs.len(),
    ensures
        p <= atom_end(cs, p) <= cs.len(),
        forall|k: int| p <= k < atom_end(cs, p) ==> !is_delim(#[trigger] cs[k]),
        atom_end(cs, p) < cs.len() ==> is_delim(cs[atom_end(cs, p)]),
    decreases cs.len() - p,
{
    if 0 <= p < cs.len() && !is_delim(cs[p]) {
        lemma_atom_end(cs, p + 1);
    }
}

/// What an escape `\e` inside a string stands for: `\"` and `\\` their
/// second character; any other escape keeps its backslash.
pub open spec fn unescape(e: char) -> Seq<char> {
    if e == '"' {
        seq!['"']
    } else if e == '\\' {
        seq!['\\']
    } else {
        seq!['\\', e]
    }
}

pub open spec fn prepend_text(s: Seq<char>, r: Result<(Seq<char>, int), ()>) -> Result<(Seq<char>, int), ()> {
    match r {
        Ok((c, e)) => Ok((s + c, e)),
        Err(()) => Err(()),
    }
}

/// The body of a string literal whose opening quote precedes `p`: its
/// characters and the position just past the closing quote.
pub open spec fn string_body(cs: Seq<char>, p: int) -> Result<(Seq<char>, int), ()>
    decreases cs.len() - p,
{
    if p < 0 || p >= cs.len() {
        Err(())
    } else if cs[p] == '"' {
        Ok((Seq::empty(), p + 1))
    } else if cs[p] == '\\' {
        if p + 1 >= cs.len() {
            Err(())
        } else {
            prepend_text(unescape(cs[p + 1]), string_body(cs, p + 2))
        }
    } else {
        prepend_text(seq![cs[p]], string_body(cs, p + 1))
    }
}

pub open spec fn is_digit(c: char) -> bool {
    '0' <= c && c <= '9'
}

pub open spec fn digit_value(c: char) -> nat {
    ((c as int) - ('0' as int)) as nat
}

/// The natural number a run of decimal digits denotes.
pub open spec fn digits_value(s: Seq<char>) -> nat
    decreases s.len(),
{
    if s.len() == 0 {
        0
    } else {
        digits_value(s.drop_last()) * 10 + digit_value(s.last())
    }
}

pub open spec fn all_digits(s: Seq<char>) -> bool {
    forall|i: int| 0 <= i < s.len() ==> is_digit(#[trigger] s[i])
}

/// What `str::parse::<i64>` accepts: an optional `+` or `-`, then one or
/// more decimal digits, denoting a value in the `i64` range.
pub open spec fn parse_i64_text(t: Seq<char>) -> Option<int> {
    let neg = t.len() > 0 && t[0] == '-';
    let body = if t.len() > 0 && (t[0] == '-' || t[0] == '+') { t.drop_first() } else { t };
    if body.len() == 0 || !all_digits(body) {
        None
    } else {
        let v: int = if neg { -(digits_value(body) as int) } else { digits_value(body) as int };
        if i64::MIN <= v <= i64::MAX {
            Some(v)
        } else {
            None
        }
    }
}

/// A bare token: `nil` is the empty list, an integer literal an `Int`,
/// anything else a symbol.
pub open spec fn atom_value(t: Seq<char>) -> SexprV {
    if t == seq!['n', 'i', 'l'] {
        SexprV::List(Seq::empty())
    } else {
        match parse_i64_text(t) {
            Some(i) => SexprV::Int(i),
            None => SexprV::Sym(t),
        }
    }
}

pub open spec fn prepend_item(v: SexprV, r: Result<(Seq<SexprV>, int), ()>) -> Result<(Seq<SexprV>, int), ()> {
    match r {
        Ok((items, e)) => Ok((seq![v] + items, e)),
        Err(()) => Err(()),
    }
}

/// One value starting at or after `p` (after whitespace), at nesting
/// `depth`: the value and the position just past it.
pub open spec fn parse_value_at(cs: Seq<char>, p: int, depth: int) -> Result<(SexprV, int), ()>
    decreases cs.len() - p, 2int,
{
    if p < 0 || p > cs.len() || depth > MAX_PARSE_DEPTH {
        Err(())
    } else {
        let q = skip_ws_from(cs, p);
        proof {
            lemma_skip_ws_from(cs, p);
        }
        if q >= cs.len() {
            Err(())
        } else if cs[q] == '(' {
            parse_list_at(cs, q, depth)
        } else if cs[q] == ')' {
            Err(())
        } else if cs[q] == '"' {
            match string_body(cs, q + 1) {
                Ok((s, e)) => Ok((SexprV::Str(s), e)),
                Err(()) => Err(()),
            }
        } else {
            let e = atom_end(cs, q);
            Ok((atom_value(cs.subrange(q, e)), e))
        }
    }
}

/// The list whose `(` is at `q`.
pub open spec fn parse_list_at(cs: Seq<char>, q: int, depth: int) -> Result<(SexprV, int), ()>
    decreases cs.len() - q, 1int,
{
    if q < 0 || q >= cs.len() {
        Err(())
    } else {
        match parse_items_at(cs, q + 1, depth) {
            Ok((items, e)) => Ok((SexprV::List(items), e)),
            Err(()) => Err(()),
        }
    }
}

/// The remaining items of a list from `p` through its closing `)`.
/// Every value consumes at least one character, so `e > q` always holds
/// for an item read at `q`.
pub open spec fn parse_items_at(cs: Seq<char>, p: int, depth: int) -> Result<(Seq<SexprV>, int), ()>
    decreases cs.len() - p, 3int,
{
    if p < 0 || p > cs.len() {
        Err(())
    } else {
        let q = skip_ws_from(cs, p);
        proof {
            lemma_skip_ws_from(cs, p);
        }
        if q >= cs.len() {
            Err(())
        } else if cs[q] == ')' {
            Ok((Seq::empty(), q + 1))
        } else {
            match parse_value_at(cs, q, depth + 1) {
                Ok((v, e)) => if q < e <= cs.len() {
                    prepend_item(v, parse_items_at(cs, e, depth))
                } else {
                    Err(())
                },
                Err(()) => Err(()),
            }
        }
    }
}

/// The whole of `cs` as exactly one value, optionally surrounded by
/// whitespace.
pub open spec fn parse_text(cs: Seq<char>) -> Result<SexprV, ()> {
    let p = skip_ws_from(cs, 0);
    if p >= cs.len() {
        Err(())
    } else {
        match parse_value_at(cs, p, 0) {
            Ok((v, e)) => if skip_ws_from(cs, e) == cs.len() {
                Ok(v)
            } else {
                Err(())
            },
            Err(()) => Err(()),
        }
    }
}


pub open spec fn parse_ok(r: Result<(Sexpr, usize), String>, spec: Result<(SexprV, int), ()>) -> bool {
    match spec {
        Ok((v, e)) => r is Ok && r->Ok_0.0@ == v && r->Ok_0.1 == e,
        Err(()) => r is Err,
    }
}

fn is_ws_char(c: char) -> (r: bool)
    ensures
        r == is_ws(c),
{
    c == ' ' || c == '\t' || c == '\n' || c == '\r' || c == '\x0B' || c == '\x0C'
}

fn is_delim_char(c: char) -> (r: bool)
    ensures
        r == is_delim(c),
{
    is_ws_char(c) || c == '(' || c == ')' || c == '"'
}

fn skip_ws(cs: &Vec<char>, p: usize) -> (q: usize)
    requires
        p <= cs.len(),
    ensures
        q == skip_ws_from(cs@, p as int),
        p <= q <= cs.len(),
{
    let mut q = p;
    while q < cs.len() && is_ws_char(cs[q])
        invariant
            p <= q <= cs.len(),
            skip_ws_from(cs@, p as int) == skip_ws_from(cs@, q as int),
        decreases cs.len() - q,
    {
        q = q + 1;
    }
    q
}

/// The UTF-8 byte offset of character position `p`.
fn byte_offset(cs: &Vec<char>, p: usize) -> (r: usize)
    requires
        p <= cs.len(),
    ensures
        r == vstd::utf8::encode_utf8(cs@.subrange(0, p as int)).len() as usize,
{
    let prefix = string_of_range(cs, 0, p);
    prefix.as_str().len()
}

/// `msg` followed by the byte offset of character position `p`.
fn message_at(msg: &str, cs: &Vec<char>, p: usize) -> (r: String)
    requires
        p <= cs.len(),
{
    let mut r = owned(msg);
    push_u64_decimal(&mut r, byte_offset(cs, p) as u64);
    r
}

/// A string literal whose opening quote is at `q`.
fn parse_string(cs: &Vec<char>, q: usize) -> (r: Result<(Sexpr, usize), String>)
    requires
        q < cs.len(),
    ensures
        parse_ok(r, match string_body(cs@, q + 1) {
            Ok((s, e)) => Ok((SexprV::Str(s), e)),
            Err(()) => Err(()),
        }),
        r is Ok ==> q < r->Ok_0.1 <= cs.len(),
{
    let mut acc: Vec<char> = Vec::new();
    let mut p: usize = q + 1;
    let ghost p0 = p as int;
    loop
        invariant
            q < p <= cs.len() + 1,
            p0 == q + 1,
            string_body(cs@, p0) == prepend_text(acc@, string_body(cs@, p as int)),
        decreases cs.len() + 1 - p,
    {
        if p >= cs.len() {
            let mut m = message_at("unterminated string literal starting at byte offset ", cs, q);
            return Err(m);
        }
        let c = cs[p];
        if c == '"' {
            let text = string_of_range(&acc, 0, acc.len());
            assert(acc@.subrange(0, acc.len() as int) == acc@);
            assert(acc@ + Seq::<char>::empty() == acc@);
            return Ok((Sexpr::Str(text), p + 1));
        } else if c == '\\' {
            if p + 1 >= cs.len() {
                let m = message_at("unterminated string literal starting at byte offset ", cs, q);
                return Err(m);
            }
            let e = cs[p + 1];
            let ghost old_acc = acc@;
            if e == '"' {
                acc.push('"');
            } else if e == '\\' {
                acc.push('\\');
            } else {
                acc.push('\\');
                acc.push(e);
            }
            proof {
                assert(acc@ == old_acc + unescape(e));
                match string_body(cs@, p + 2) {
                    Ok((c2, e2)) => {
                        assert(old_acc + (unescape(e) + c2) == acc@ + c2);
                    },
                    Err(()) => {},
                }
            }
            p = p + 2;
        } else {
            let ghost old_acc = acc@;
            acc.push(c);
            proof {
                match string_body(cs@, p + 1) {
                    Ok((c2, e2)) => {
                        assert(old_acc + (seq![c] + c2) == acc@ + c2);
                    },
                    Err(()) => {},
                }
            }
            p = p + 1;
        }
    }
}

proof fn lemma_digits_value_monotone(s: Seq<char>, c: char)
    requires
        is_digit(c),
    ensures
        digits_value(s.push(c)) == digits_value(s) * 10 + digit_value(c),
{
    assert(s.push(c).drop_last() == s);
}

/// `str::parse::<i64>` over the characters `cs[lo..hi]`.
fn parse_i64_range(cs: &Vec<char>, lo: usize, hi: usize) -> (r: Option<i64>)
    requires
        lo <= hi <= cs.len(),
    ensures
        match parse_i64_text(cs@.subrange(lo as int, hi as int)) {
            Some(v) => r is Some && r->0 as int == v,
            None => r is None,
        },
{
    let ghost t = cs@.subrange(lo as int, hi as int);
    let mut start = lo;
    let mut neg = false;
    if lo < hi && (cs[lo] == '-' || cs[lo] == '+') {
        neg = cs[lo] == '-';
        start = lo + 1;
    }
    let ghost body = cs@.subrange(start as int, hi as int);
    assert(body == (if t.len() > 0 && (t[0] == '-' || t[0] == '+') { t.drop_first() } else { t }));
    if start == hi {
        return None;
    }
    let limit: u64 = 9223372036854775808;
    let mut mag: u64 = 0;
    let mut big = false;
    let mut i = start;
    while i < hi
        invariant
            start <= i <= hi <= cs.len(),
            body == cs@.subrange(start as int, hi as int),
            t == cs@.subrange(lo as int, hi as int),
            body == (if t.len() > 0 && (t[0] == '-' || t[0] == '+') { t.drop_first() } else { t }),
            neg == (t.len() > 0 && t[0] == '-'),
            all_digits(cs@.subrange(start as int, i as int)),
            !big ==> mag as int == digits_value(cs@.subrange(start as int, i as int)) && mag <= limit,
            big ==> digits_value(cs@.subrange(start as int, i as int)) > limit,
            limit == 9223372036854775808,
        decreases hi - i,
    {
        let c = cs[i];
        if !('0' <= c && c <= '9') {
            assert(body[i - start] == c);
            assert(!is_digit(body[i - start]));
            assert(!all_digits(body));
            assert(parse_i64_text(t) is None);
            return None;
        }
        let d: u64 = ((c as u32) - ('0' as u32)) as u64;
        proof {
            let pre = cs@.subrange(start as int, i as int);
            assert(cs@.subrange(start as int, i + 1) == pre.push(c));
            lemma_digits_value_monotone(pre, c);
            assert(d as nat == digit_value(c));
        }
        if !big {
            let nv: u128 = (mag as u128) * 10 + (d as u128);
            if nv > limit as u128 {
                big = true;
            } else {
                mag = nv as u64;
            }
        }
        i = i + 1;
    }
    assert(cs@.subrange(start as int, i as int) == body);
    if big {
        return None;
    }
    if neg {
        if mag == limit {
            Some(-9223372036854775807i64 - 1)
        } else {
            Some(-(mag as i64))
        }
    } else {
        if mag == limit {
            None
        } else {
            Some(mag as i64)
        }
    }
}

/// A bare token starting at `q` (not a delimiter).
fn parse_atom(cs: &Vec<char>, q: usize) -> (r: (Sexpr, usize))
    requires
        q < cs.len(),
    ensures
        r.0@ == atom_value(cs@.subrange(q as int, atom_end(cs@, q as int))),
        r.1 == atom_end(cs@, q as int),
{
    let mut e = q;
    while e < cs.len() && !is_delim_char(cs[e])
        invariant
            q <= e <= cs.len(),
            atom_end(cs@, q as int) == atom_end(cs@, e as int),
        decreases cs.len() - e,
    {
        e = e + 1;
    }
    let ghost t = cs@.subrange(q as int, e as int);
    if e - q == 3 && cs[q] == 'n' && cs[q + 1] == 'i' && cs[q + 2] == 'l' {
        assert(t == seq!['n', 'i', 'l']);
        let r = Sexpr::List(Vec::new());
        assert(views_of(Seq::<Sexpr>::empty()) == Seq::<SexprV>::empty());
        assert(r@ == SexprV::List(Seq::empty()));
        return (r, e);
    }
    assert(t != seq!['n', 'i', 'l']) by {
        if t == seq!['n', 'i', 'l'] {
            assert(t[0] == cs@[q as int]);
            assert(t[1] == cs@[q + 1]);
            assert(t[2] == cs@[q + 2]);
        }
    }
    match parse_i64_range(cs, q, e) {
        Some(i) => (Sexpr::Int(i), e),
        None => (Sexpr::Sym(string_of_range(cs, q, e)), e),
    }
}

/// One value at or after `p`, at nesting `depth`.
fn parse_value(cs: &Vec<char>, p: usize, depth: usize) -> (r: Result<(Sexpr, usize), String>)
    requires
        p <= cs.len(),
        depth <= MAX_PARSE_DEPTH + 1,
    ensures
        parse_ok(r, parse_value_at(cs@, p as int, depth as int)),
        r is Ok ==> p < r->Ok_0.1 <= cs.len(),
    decreases cs.len() - p, 2int,
{
    if depth > MAX_PARSE_DEPTH {
        let mut m = owned("nesting depth exceeds limit of ");
        push_u64_decimal(&mut m, MAX_PARSE_DEPTH as u64);
        return Err(m);
    }
    let q = skip_ws(cs, p);
    if q >= cs.len() {
        return Err(owned("unexpected end of input: expected a value"));
    }
    let c = cs[q];
    if c == '(' {
        parse_list(cs, q, depth)
    } else if c == ')' {
        let mut m = owned("unexpected `)` at byte offset ");
        push_u64_decimal(&mut m, byte_offset(cs, q) as u64);
        Err(m)
    } else if c == '"' {
        parse_string(cs, q)
    } else {
        proof {
            lemma_atom_end(cs@, q as int);
            lemma_skip_ws_from(cs@, p as int);
            assert(!is_delim(cs@[q as int]));
        }
        let (v, e) = parse_atom(cs, q);
        Ok((v, e))
    }
}

/// The list whose `(` is at `q`.
fn parse_list(cs: &Vec<char>, q: usize, depth: usize) -> (r: Result<(Sexpr, usize), String>)
    requires
        q < cs.len(),
        depth <= MAX_PARSE_DEPTH,
    ensures
        parse_ok(r, parse_list_at(cs@, q as int, depth as int)),
        r is Ok ==> q < r->Ok_0.1 <= cs.len(),
    decreases cs.len() - q, 1int,
{
    let mut items: Vec<Sexpr> = Vec::new();
    let mut p: usize = q + 1;
    loop
        invariant
            q < p <= cs.len(),
            depth <= MAX_PARSE_DEPTH,
            parse_items_at(cs@, q + 1, depth as int) == match parse_items_at(cs@, p as int, depth as int) {
                Ok((rest, e)) => Ok((views_of(items@) + rest, e)),
                Err(()) => Err(()),
            },
        decreases cs.len() - p,
    {
        let r = skip_ws(cs, p);
        if r >= cs.len() {
            let m = message_at("unterminated list starting at byte offset ", cs, q);
            return Err(m);
        }
        if cs[r] == ')' {
            proof {
                assert(views_of(items@) + Seq::<SexprV>::empty() == views_of(items@));
            }
            return Ok((Sexpr::List(items), r + 1));
        }
        let value = parse_value(cs, r, depth + 1);
        match value {
            Ok((v, e)) => {
                let ghost vv = v@;
                let ghost old_items = items@;
                items.push(v);
                proof {
                    lemma_views_of(old_items);
                    lemma_views_of(items@);
                    assert(views_of(items@) =~= views_of(old_items).push(vv));
                    match parse_items_at(cs@, e as int, depth as int) {
                        Ok((rest, e2)) => {
                            assert(views_of(old_items) + (seq![vv] + rest) == views_of(items@) + rest);
                        },
                        Err(()) => {},
                    }
                }
                p = e;
            },
            Err(m) => {
                return Err(m);
            },
        }
    }
}

// ===================================================================
// Reading back what was printed
// ===================================================================

/// A symbol prints as itself and reads back as itself: it is not empty,
/// holds no whitespace, parenthesis or quote, is not `nil`, and does
/// not read as an integer.
pub open spec fn plain_symbol(t: Seq<char>) -> bool {
    &&& t.len() > 0
    &&& forall|k: int| 0 <= k < t.len() ==> !is_delim(#[trigger] t[k])
    &&& t != seq!['n', 'i', 'l']
    &&& parse_i64_text(t) is None
}

/// `v` reads back from its printing when read at a nesting depth that
/// leaves `budget` more levels: its symbols are plain, its integers fit
/// in `i64`, and its non-empty lists nest within the budget.
pub open spec fn fits(v: SexprV, budget: int) -> bool
    decreases v,
{
    match v {
        SexprV::Sym(t) => plain_symbol(t),
        SexprV::Str(_) => true,
        SexprV::Int(i) => i64::MIN <= i <= i64::MAX,
        SexprV::List(items) => items.len() == 0 || (budget >= 1 && forall|k: int|
            0 <= k < items.len() ==> fits(#[trigger] items[k], budget - 1)),
    }
}

proof fn lemma_digit_char(d: nat)
    requires
        d < 10,
    ensures
        is_digit(digit_char(d)),
        digit_value(digit_char(d)) == d,
{
}

proof fn lemma_nat_digits(n: nat)
    ensures
        nat_digits(n).len() > 0,
        all_digits(nat_digits(n)),
        digits_value(nat_digits(n)) == n,
    decreases n,
{
    let t = nat_digits(n);
    if n < 10 {
        lemma_digit_char(n);
        assert(t == seq![digit_char(n)]);
        assert(t.drop_last() =~= Seq::<char>::empty());
        assert(digits_value(t) == digits_value(t.drop_last()) * 10 + digit_value(t.last()));
    } else {
        lemma_nat_digits(n / 10);
        lemma_digit_char(n % 10);
        let s0 = nat_digits(n / 10);
        assert(t == s0.push(digit_char(n % 10)));
        assert(t.drop_last() =~= s0);
        assert(t.last() == digit_char(n % 10));
        assert(digits_value(t) == digits_value(s0) * 10 + digit_value(digit_char(n % 10)));
        assert(n == (n / 10) * 10 + n % 10);
        assert forall|k: int| 0 <= k < t.len() implies is_digit(#[trigger] t[k]) by {
            if k < s0.len() {
                assert(t[k] == s0[k]);
            }
        }
    }
}

/// An integer's decimal text reads back as that integer and holds no
/// delimiter.
proof fn lemma_int_decimal(i: int)
    requires
        i64::MIN <= i <= i64::MAX,
    ensures
        int_decimal(i).len() > 0,
        forall|k: int| 0 <= k < int_decimal(i).len() ==> !is_delim(#[trigger] int_decimal(i)[k]),
        int_decimal(i)[0] != 'n',
        parse_i64_text(int_decimal(i)) == Some(i),
{
    if i < 0 {
        let d = nat_digits((-i) as nat);
        lemma_nat_digits((-i) as nat);
        let t = int_decimal(i);
        assert(t == seq!['-'] + d);
        assert(t.drop_first() =~= d);
        assert forall|k: int| 0 <= k < t.len() implies !is_delim(#[trigger] t[k]) by {
            if k > 0 {
                assert(t[k] == d[k - 1]);
                assert(is_digit(d[k - 1]));
            }
        }
    } else {
        let d = nat_digits(i as nat);
        lemma_nat_digits(i as nat);
        assert(is_digit(d[0]));
        assert forall|k: int| 0 <= k < d.len() implies !is_delim(#[trigger] d[k]) by {
            assert(is_digit(d[k]));
        }
    }
}

proof fn lemma_escape_cons(c: char, t: Seq<char>)
    ensures
        escape_text(seq![c] + t) == escape_char(c) + escape_text(t),
    decreases t.len(),
{
    let u = seq![c] + t;
    if t.len() == 0 {
        assert(u =~= seq![c]);
        assert(u.drop_last() =~= Seq::<char>::empty());
        assert(escape_text(u) == escape_text(u.drop_last()) + escape_char(u.last()));
        assert(escape_text(u.drop_last()) == Seq::<char>::empty());
        assert(escape_text(u) =~= escape_char(c));
        assert(escape_char(c) + escape_text(t) =~= escape_char(c));
    } else {
        lemma_escape_cons(c, t.drop_last());
        assert(u.drop_last() =~= seq![c] + t.drop_last());
        assert(u.last() == t.last());
        assert(escape_text(u) == escape_text(u.drop_last()) + escape_char(u.last()));
        assert(escape_text(t) == escape_text(t.drop_last()) + escape_char(t.last()));
        assert(escape_text(u) =~= escape_char(c) + escape_text(t));
    }
}

/// A string body printed with its escapes and closing quote reads back
/// as the string.
proof fn lemma_string_body(cs: Seq<char>, p: int, t: Seq<char>)
    requires
        0 <= p,
        p + escape_text(t).len() + 1 <= cs.len(),
        cs.subrange(p, p + escape_text(t).len() + 1) == escape_text(t) + seq!['"'],
    ensures
        string_body(cs, p) == Ok::<(Seq<char>, int), ()>((t, p + escape_text(t).len() + 1)),
    decreases t.len(),
{
    let e = escape_text(t);
    let w = cs.subrange(p, p + e.len() + 1);
    assert(cs[p] == w[0]);
    if t.len() == 0 {
        assert(e.len() == 0);
        assert(w[0] == '"');
        assert(t =~= Seq::<char>::empty());
    } else {
        let c = t[0];
        let rest = t.drop_first();
        assert(t =~= seq![c] + rest);
        lemma_escape_cons(c, rest);
        let ec = escape_char(c);
        let er = escape_text(rest);
        assert(e == ec + er);
        let n = ec.len() as int;
        assert(w =~= ec + er + seq!['"']);
        assert(cs.subrange(p + n, p + n + er.len() + 1) =~= w.subrange(n, n + er.len() + 1));
        assert(w.subrange(n, n + er.len() + 1) =~= er + seq!['"']);
        lemma_string_body(cs, p + n, rest);
        assert(e.len() == n + er.len());
        if c == '\\' || c == '"' {
            assert(ec == seq!['\\', c]);
            assert(w[0] == '\\');
            assert(cs[p + 1] == w[1]);
            assert(w[1] == c);
            assert(unescape(c) =~= seq![c]);
            assert(string_body(cs, p) == prepend_text(seq![c], string_body(cs, p + 2)));
        } else {
            assert(ec == seq![c]);
            assert(w[0] == c);
            assert(string_body(cs, p) == prepend_text(seq![c], string_body(cs, p + 1)));
        }
        assert(seq![c] + rest =~= t);
    }
}

proof fn lemma_atom_end_at(cs: Seq<char>, p: int, e: int)
    requires
        0 <= p <= e <= cs.len(),
        forall|k: int| p <= k < e ==> !is_delim(#[trigger] cs[k]),
        e == cs.len() || is_delim(cs[e]),
    ensures
        atom_end(cs, p) == e,
    decreases e - p,
{
    if p < e {
        lemma_atom_end_at(cs, p + 1, e);
    }
}

/// A printed value that fits starts with a character that is not
/// whitespace.
proof fn lemma_print_starts(v: SexprV, budget: int)
    requires
        fits(v, budget),
    ensures
        print_v(v).len() > 0,
        !is_ws(print_v(v)[0]),
        print_v(v)[0] != ')',
{
    match v {
        SexprV::Sym(t) => {
            assert(!is_delim(t[0]));
        },
        SexprV::Str(t) => {},
        SexprV::Int(i) => {
            lemma_int_decimal(i);
            assert(!is_delim(int_decimal(i)[0]));
        },
        SexprV::List(items) => {},
    }
}

proof fn lemma_print_join_cons(v: SexprV, rest: Seq<SexprV>)
    ensures
        print_join(seq![v] + rest) == if rest.len() == 0 {
            print_v(v)
        } else {
            print_v(v) + seq![' '] + print_join(rest)
        },
    decreases rest.len(),
{
    let u = seq![v] + rest;
    if rest.len() == 0 {
        assert(u =~= seq![v]);
        assert(u[0] == v);
    } else if rest.len() == 1 {
        assert(u.drop_last() =~= seq![v]);
        assert(u.len() == 2);
        assert(print_join(u) == print_join(u.drop_last()) + seq![' '] + print_v(u.last()));
        assert(print_join(u.drop_last()) == print_v(v));
        assert(print_join(rest) == print_v(rest[0]));
        assert(u.last() == rest[0]);
    } else {
        lemma_print_join_cons(v, rest.drop_last());
        assert(u.drop_last() =~= seq![v] + rest.drop_last());
        assert(u.last() == rest.last());
        assert(print_join(u) == print_join(u.drop_last()) + seq![' '] + print_v(u.last()));
        assert(print_join(rest) == print_join(rest.drop_last()) + seq![' '] + print_v(rest.last()));
        assert(print_join(u) =~= print_v(v) + seq![' '] + print_join(rest));
    }
}

/// A bare token printed at `p` and followed by a delimiter or the end
/// reads as `atom_value` of itself.
proof fn lemma_atom_reads_back(cs: Seq<char>, p: int, t: Seq<char>, depth: int)
    requires
        0 <= depth <= MAX_PARSE_DEPTH,
        0 <= p,
        t.len() > 0,
        p + t.len() <= cs.len(),
        cs.subrange(p, p + t.len()) == t,
        forall|k: int| 0 <= k < t.len() ==> !is_delim(#[trigger] t[k]),
        p + t.len() == cs.len() || is_delim(cs[p + t.len()]),
    ensures
        parse_value_at(cs, p, depth) == Ok::<(SexprV, int), ()>((atom_value(t), p + t.len())),
{
    let l = t.len() as int;
    assert forall|k: int| p <= k < p + l implies !is_delim(#[trigger] cs[k]) by {
        assert(cs[k] == cs.subrange(p, p + l)[k - p]);
        assert(!is_delim(t[k - p]));
    }
    assert(cs[p] == t[0]);
    assert(!is_delim(t[0]));
    assert(skip_ws_from(cs, p) == p);
    lemma_atom_end_at(cs, p, p + l);
}

/// A value that fits, printed at `p` and followed by a delimiter or the
/// end, reads back at depth `depth` as itself.
proof fn lemma_value_reads_back(v: SexprV, cs: Seq<char>, p: int, depth: int)
    requires
        0 <= depth <= MAX_PARSE_DEPTH,
        fits(v, MAX_PARSE_DEPTH - depth),
        0 <= p,
        p + print_v(v).len() <= cs.len(),
        cs.subrange(p, p + print_v(v).len()) == print_v(v),
        p + print_v(v).len() == cs.len() || is_delim(cs[p + print_v(v).len()]),
    ensures
        parse_value_at(cs, p, depth) == Ok::<(SexprV, int), ()>((v, p + print_v(v).len())),
    decreases v, 0int,
{
    let t = print_v(v);
    let l = t.len() as int;
    lemma_print_starts(v, MAX_PARSE_DEPTH - depth);
    assert(cs[p] == cs.subrange(p, p + l)[0]);
    assert(skip_ws_from(cs, p) == p);
    match v {
        SexprV::Sym(x) => {
            assert(t == x);
            lemma_atom_reads_back(cs, p, x, depth);
            assert(x != seq!['n', 'i', 'l']);
            assert(parse_i64_text(x) is None);
            assert(atom_value(x) == SexprV::Sym(x));
            assert(parse_value_at(cs, p, depth) == Ok::<(SexprV, int), ()>((SexprV::Sym(x), p + x.len())));
            assert(v == SexprV::Sym(x));
            assert(p + print_v(v).len() == p + x.len());
        },
        SexprV::Str(x) => {
            let e = escape_text(x);
            assert(t == seq!['"'] + e + seq!['"']);
            assert(cs.subrange(p + 1, p + 1 + e.len() + 1) =~= cs.subrange(p, p + l).subrange(1, l));
            assert(t.subrange(1, l) =~= e + seq!['"']);
            lemma_string_body(cs, p + 1, x);
            assert(l == e.len() + 2);
            assert(parse_value_at(cs, p, depth) == Ok::<(SexprV, int), ()>((v, p + l)));
        },
        SexprV::Int(i) => {
            lemma_int_decimal(i);
            lemma_atom_reads_back(cs, p, t, depth);
            assert(t.len() > 0 && t[0] != 'n');
            assert(t != seq!['n', 'i', 'l']);
            assert(atom_value(t) == SexprV::Int(i));
            assert(parse_value_at(cs, p, depth) == Ok::<(SexprV, int), ()>((v, p + l)));
        },
        SexprV::List(items) => {
            if items.len() == 0 {
                assert(t == seq!['n', 'i', 'l']);
                lemma_atom_reads_back(cs, p, t, depth);
                assert(items =~= Seq::<SexprV>::empty());
                assert(parse_value_at(cs, p, depth) == Ok::<(SexprV, int), ()>((v, p + l)));
            } else {
                lemma_list_reads_back(items, cs, p, depth);
            }
        },
    }
}

/// A non-empty list that fits, printed at `p`, reads back as itself.
proof fn lemma_list_reads_back(items: Seq<SexprV>, cs: Seq<char>, p: int, depth: int)
    requires
        0 <= depth <= MAX_PARSE_DEPTH,
        items.len() > 0,
        fits(SexprV::List(items), MAX_PARSE_DEPTH - depth),
        0 <= p,
        p + print_v(SexprV::List(items)).len() <= cs.len(),
        cs.subrange(p, p + print_v(SexprV::List(items)).len()) == print_v(SexprV::List(items)),
    ensures
        parse_value_at(cs, p, depth) == Ok::<(SexprV, int), ()>((SexprV::List(items), p + print_v(SexprV::List(items)).len())),
    decreases items, 2int,
{
    let t = print_v(SexprV::List(items));
    let l = t.len() as int;
    let j = print_join(items);
    assert(t == seq!['('] + j + seq![')']);
    assert(cs[p] == cs.subrange(p, p + l)[0]);
    assert(skip_ws_from(cs, p) == p);
    assert(cs.subrange(p + 1, p + 1 + j.len() + 1) =~= cs.subrange(p, p + l).subrange(1, l));
    assert(t.subrange(1, l) =~= j + seq![')']);
    let v0 = items[0];
    assert(fits(v0, MAX_PARSE_DEPTH - depth - 1));
    lemma_print_starts(v0, MAX_PARSE_DEPTH - depth - 1);
    lemma_print_join_cons(v0, items.drop_first());
    assert(items =~= seq![v0] + items.drop_first());
    assert(j[0] == print_v(v0)[0]);
    assert(cs[p + 1] == cs.subrange(p, p + l)[1]);
    assert(t[1] == j[0]);
    assert(skip_ws_from(cs, p + 1) == p + 1);
    lemma_items_read_back(items, cs, p + 1, p + 1, depth);
}

/// Items that fit, printed from `p` with single spaces and a closing
/// `)`, read back from `p0` (whitespace up to `p`) at depth `depth`.
proof fn lemma_items_read_back(items: Seq<SexprV>, cs: Seq<char>, p0: int, p: int, depth: int)
    requires
        0 <= depth < MAX_PARSE_DEPTH,
        forall|k: int| 0 <= k < items.len() ==> fits(#[trigger] items[k], MAX_PARSE_DEPTH - depth - 1),
        0 <= p0 <= p,
        skip_ws_from(cs, p0) == p,
        p + print_join(items).len() + 1 <= cs.len(),
        cs.subrange(p, p + print_join(items).len() + 1) == print_join(items) + seq![')'],
    ensures
        parse_items_at(cs, p0, depth) == Ok::<(Seq<SexprV>, int), ()>((items, p + print_join(items).len() + 1)),
    decreases items, 1int,
{
    let j = print_join(items);
    let w = cs.subrange(p, p + j.len() + 1);
    assert(cs[p] == w[0]);
    if items.len() == 0 {
        assert(j.len() == 0);
        assert(w[0] == ')');
        assert(items =~= Seq::<SexprV>::empty());
    } else {
        let v = items[0];
        let rest = items.drop_first();
        assert(items =~= seq![v] + rest);
        lemma_print_join_cons(v, rest);
        let tv = print_v(v);
        let lv = tv.len() as int;
        assert(fits(v, MAX_PARSE_DEPTH - (depth + 1)));
        lemma_print_starts(v, MAX_PARSE_DEPTH - (depth + 1));
        assert(cs.subrange(p, p + lv) =~= w.subrange(0, lv));
        assert(cs[p] == w[0]);
        if rest.len() == 0 {
            assert(j == tv);
            assert(w =~= tv + seq![')']);
            assert(w.subrange(0, lv) =~= tv);
            assert(cs[p + lv] == w[lv]);
            lemma_value_reads_back(v, cs, p, depth + 1);
            assert(skip_ws_from(cs, p + lv) == p + lv);
            assert(parse_items_at(cs, p + lv, depth) == Ok::<(Seq<SexprV>, int), ()>((Seq::<SexprV>::empty(), p + lv + 1)));
            assert(seq![v] + Seq::<SexprV>::empty() =~= items);
        } else {
            let jr = print_join(rest);
            assert(j == tv + seq![' '] + jr);
            assert(w =~= tv + seq![' '] + jr + seq![')']);
            assert(w.subrange(0, lv) =~= tv);
            assert(cs[p + lv] == w[lv]);
            assert(w[lv] == ' ');
            lemma_value_reads_back(v, cs, p, depth + 1);
            assert(decreases_to!(items => rest));
            let v1 = rest[0];
            assert(rest[0] == items[1]);
            assert(fits(v1, MAX_PARSE_DEPTH - depth - 1));
            lemma_print_starts(v1, MAX_PARSE_DEPTH - depth - 1);
            assert(forall|k: int| 0 <= k < rest.len() ==> rest[k] == items[k + 1]);
            assert(cs.subrange(p + lv + 1, p + lv + 1 + jr.len() + 1) =~= w.subrange(lv + 1, j.len() + 1 as int));
            assert(w.subrange(lv + 1, j.len() + 1 as int) =~= jr + seq![')']);
            lemma_print_join_cons(v1, rest.drop_first());
            assert(rest =~= seq![v1] + rest.drop_first());
            assert(jr[0] == print_v(v1)[0]);
            assert(cs[p + lv + 1] == w[lv + 1]);
            assert(w[lv + 1] == jr[0]);
            assert(skip_ws_from(cs, p + lv + 1) == p + lv + 1);
            assert(skip_ws_from(cs, p + lv) == p + lv + 1);
            lemma_items_read_back(rest, cs, p + lv, p + lv + 1, depth);
            assert(seq![v] + rest =~= items);
        }
    }
}

/// Round trip: a value that fits the parser's nesting bound, whose
/// symbols are plain and whose integers fit in `i64`, reads back from
/// its printing as itself.
pub proof fn lemma_print_parse_round_trip(v: SexprV)
    requires
        fits(v, MAX_PARSE_DEPTH as int),
    ensures
        parse_text(print_v(v)) == Ok::<SexprV, ()>(v),
{
    let cs = print_v(v);
    lemma_print_starts(v, MAX_PARSE_DEPTH as int);
    assert(skip_ws_from(cs, 0) == 0);
    assert(cs.subrange(0, cs.len() as int) =~= cs);
    lemma_value_reads_back(v, cs, 0, 0);
}

/// Parse ONE S-expression from untrusted text (see `parse_text`): `Ok`
/// exactly when the text is one value surrounded only by whitespace,
/// nested no deeper than `MAX_PARSE_DEPTH`.
pub fn parse(text: &str) -> (r: Result<Sexpr, String>)
    ensures
        match parse_text(text@) {
            Ok(v) => r is Ok && r->Ok_0@ == v,
            Err(()) => r is Err,
        },
{
    let cs = chars_of(text);
    let p = skip_ws(&cs, 0);
    if p >= cs.len() {
        return Err(owned("unexpected end of input: expected an S-expression"));
    }
    match parse_value(&cs, p, 0) {
        Ok((v, e)) => {
            let q = skip_ws(&cs, e);
            if q != cs.len() {
                let m = message_at("trailing non-whitespace content at byte offset ", &cs, q);
                Err(m)
            } else {
                Ok(v)
            }
        },
        Err(m) => Err(m),
    }
}

} // verus!
