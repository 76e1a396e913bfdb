//! Diagnostics: source-located messages, their rendering with a caret
//! under the offending column, and the S-expression form the later
//! stages carry.
use vstd::prelude::*;
use crate::order::{Ranked, lemma_sort_members, sort_stable, stable_sort};
use crate::sexpr::{Sexpr, SexprV, pair_v, list3, list5};
use crate::span::Span;
use crate::text::{chars_of, nat_digits, owned, push_char, push_str, push_u64_decimal, string_of_range};

verus! {

/// Diagnostic severity level.
#[derive(Debug, Clone, Copy, PartialEq, Eq, Structural)]
pub enum Severity {
    /// Error-level diagnostic.
    Error,
    /// Warning-level diagnostic.
    Warning,
}

/// A diagnostic message with source location.
#[derive(Debug)]
pub struct Diagnostic {
    /// Severity level.
    pub severity: Severity,
    /// Error code (e.g., "E101", "W301").
    pub code: &'static str,
    /// Byte span in source.
    pub span: Span,
    /// Diagnostic message.
    pub message: String,
}

impl Clone for Diagnostic {
    fn clone(&self) -> (r: Self)
        ensures
            r == *self,
    {
        Diagnostic { severity: self.severity, code: self.code, span: self.span, message: self.message.clone() }
    }
}

impl Ranked for Diagnostic {
    open spec fn rank_gt(self, other: Self) -> bool {
        self.span.start > other.span.start
    }

    fn gt(&self, other: &Self) -> (r: bool) {
        self.span.start > other.span.start
    }
}

/// `(diagnostic (severity s) (code "c") (span a b) (message "m"))`.
pub open spec fn diag_v(severity: Seq<char>, code: Seq<char>, start: int, end: int, message: Seq<char>) -> SexprV {
    SexprV::List(seq![
        SexprV::Sym("diagnostic"@),
        pair_v("severity"@, SexprV::Sym(severity)),
        pair_v("code"@, SexprV::Str(code)),
        SexprV::List(seq![SexprV::Sym("span"@), SexprV::Int(start), SexprV::Int(end)]),
        pair_v("message"@, SexprV::Str(message)),
    ])
}

/// A diagnostic in the flat S-expression shape the pipeline stages
/// carry: severity a symbol, code and message strings, and the span.
pub fn diag_sexpr(severity: &str, code: &str, span: (usize, usize), message: String) -> (r: Sexpr)
    ensures
        r@ == diag_v(severity@, code@, (span.0 as i64) as int, (span.1 as i64) as int, message@),
{
    let span_form = list3(Sexpr::sym("span"), Sexpr::Int(span.0 as i64), Sexpr::Int(span.1 as i64));
    let r = list5(
        Sexpr::sym("diagnostic"),
        Sexpr::pair("severity", Sexpr::sym(severity)),
        Sexpr::pair("code", Sexpr::Str(owned(code))),
        span_form,
        Sexpr::pair("message", Sexpr::Str(message)),
    );
    r
}


// ---- rendering ----

pub open spec fn severity_text(s: Severity) -> Seq<char> {
    match s {
        Severity::Error => "error"@,
        Severity::Warning => "warning"@,
    }
}

/// Byte offsets at which lines start: 0, then one past every newline.
pub open spec fn line_starts_of(bs: Seq<u8>) -> Seq<int>
    decreases bs.len(),
{
    if bs.len() == 0 {
        seq![0]
    } else if bs.last() == 10u8 {
        line_starts_of(bs.drop_last()).push(bs.len() as int)
    } else {
        line_starts_of(bs.drop_last())
    }
}

/// Index of the last of the first `n` entries of `ls` that is `<= x`
/// (-1 when none is).
pub open spec fn last_le(ls: Seq<int>, x: int, n: int) -> int
    decreases n,
{
    if n <= 0 {
        -1
    } else if ls[n - 1] <= x {
        n - 1
    } else {
        last_le(ls, x, n - 1)
    }
}

/// First position at or after `p` holding a newline (or the end).
pub open spec fn next_nl(cs: Seq<char>, p: int) -> int
    decreases cs.len() - p,
{
    if 0 <= p < cs.len() && cs[p] != '\n' {
        next_nl(cs, p + 1)
    } else {
        p
    }
}

pub open spec fn strip_cr(s: Seq<char>) -> Seq<char> {
    if s.len() > 0 && s.last() == '\r' {
        s.drop_last()
    } else {
        s
    }
}

/// `str::lines` from position `p`: split at `\n` (a `\r` just before a
/// `\n` is dropped), with no empty line after a final newline.
pub open spec fn lines_from(cs: Seq<char>, p: int) -> Seq<Seq<char>>
    decreases cs.len() - p,
{
    if p < 0 || p >= cs.len() {
        Seq::empty()
    } else {
        let k = next_nl(cs, p);
        if k < p || k >= cs.len() {
            seq![cs.subrange(p, cs.len() as int)]
        } else {
            seq![strip_cr(cs.subrange(p, k))] + lines_from(cs, k + 1)
        }
    }
}

/// `n` right-aligned in a field of width 2 (`{:>2}`).
pub open spec fn pad2(n: nat) -> Seq<char> {
    if n < 10 {
        seq![' '] + nat_digits(n)
    } else {
        nat_digits(n)
    }
}

/// The 1-based line of the diagnostic's start offset.
pub open spec fn diag_line(d: Diagnostic, src: Seq<char>) -> nat {
    let ls = line_starts_of(vstd::utf8::encode_utf8(src));
    (last_le(ls, d.span.start as int, ls.len() as int) + 1) as nat
}

/// The 1-based byte column of the diagnostic's start offset.
pub open spec fn diag_col(d: Diagnostic, src: Seq<char>) -> nat {
    let ls = line_starts_of(vstd::utf8::encode_utf8(src));
    (d.span.start - ls[last_le(ls, d.span.start as int, ls.len() as int)] + 1) as nat
}

pub open spec fn header_text(d: Diagnostic, path: Seq<char>, line: nat, col: nat) -> Seq<char> {
    severity_text(d.severity) + "["@ + d.code@ + "]: "@ + d.message@ + "\n"@
        + "  --> "@ + path + ":"@ + nat_digits(line) + ":"@ + nat_digits(col) + "\n"@
        + "   |\n"@
}

pub open spec fn source_text(lines: Seq<Seq<char>>, line: nat) -> Seq<char> {
    if 1 <= line <= lines.len() {
        pad2(line) + " | "@ + lines[line - 1] + "\n"@
    } else {
        Seq::empty()
    }
}

pub open spec fn caret_text(col: nat) -> Seq<char> {
    "   | "@ + Seq::new((col - 1) as nat, |i: int| ' ') + "^\n"@
}

/// The rendering of one diagnostic against `src`: header, location, the
/// source line when it exists, and a caret under the column.
pub open spec fn render_one(d: Diagnostic, src: Seq<char>, path: Seq<char>) -> Seq<char> {
    header_text(d, path, diag_line(d, src), diag_col(d, src))
        + source_text(lines_from(src, 0), diag_line(d, src))
        + caret_text(diag_col(d, src))
}

pub open spec fn render_all(ds: Seq<Diagnostic>, src: Seq<char>, path: Seq<char>) -> Seq<char>
    decreases ds.len(),
{
    if ds.len() == 0 {
        Seq::empty()
    } else {
        render_all(ds.drop_last(), src, path) + render_one(ds.last(), src, path)
    }
}

proof fn lemma_line_starts(bs: Seq<u8>)
    ensures
        line_starts_of(bs).len() >= 1,
        line_starts_of(bs)[0] == 0,
        forall|i: int, j: int| 0 <= i < j < line_starts_of(bs).len() ==> line_starts_of(bs)[i] < line_starts_of(bs)[j],
        forall|i: int| 0 <= i < line_starts_of(bs).len() ==> line_starts_of(bs)[i] <= bs.len(),
    decreases bs.len(),
{
    if bs.len() > 0 {
        lemma_line_starts(bs.drop_last());
    }
}

fn line_starts(bs: &[u8]) -> (r: Vec<usize>)
    ensures
        r@.map_values(|x: usize| x as int) == line_starts_of(bs@),
{
    let mut r: Vec<usize> = vec![0];
    let mut i: usize = 0;
    assert(bs@.take(0) =~= Seq::<u8>::empty());
    assert(r@.map_values(|x: usize| x as int) =~= seq![0int]);
    while i < bs.len()
        invariant
            i <= bs@.len(),
            r@.map_values(|x: usize| x as int) == line_starts_of(bs@.take(i as int)),
        decreases bs.len() - i,
    {
        proof {
            assert(bs@.take(i + 1).drop_last() =~= bs@.take(i as int));
            assert(bs@.take(i + 1).last() == bs@[i as int]);
        }
        if bs[i] == 10u8 {
            let ghost old_r = r@;
            r.push(i + 1);
            assert(r@.map_values(|x: usize| x as int) =~= old_r.map_values(|x: usize| x as int).push((i + 1) as int));
        }
        i = i + 1;
    }
    assert(bs@.take(i as int) =~= bs@);
    r
}

proof fn lemma_last_le_bounds(ls: Seq<int>, x: int, n: int)
    requires
        1 <= n <= ls.len(),
        ls[0] <= x,
    ensures
        0 <= last_le(ls, x, n) < n,
        ls[last_le(ls, x, n)] <= x,
    decreases n,
{
    if n > 1 && ls[n - 1] > x {
        lemma_last_le_bounds(ls, x, n - 1);
    }
}

proof fn lemma_last_le_sorted(ls: Seq<int>, x: int, lo: int)
    requires
        0 < lo <= ls.len(),
        ls[lo - 1] <= x,
        forall|j: int| lo <= j < ls.len() ==> ls[j] > x,
    ensures
        last_le(ls, x, ls.len() as int) == lo - 1,
    decreases ls.len() - lo,
{
    lemma_last_le_from(ls, x, ls.len() as int, lo);
}

proof fn lemma_last_le_from(ls: Seq<int>, x: int, n: int, lo: int)
    requires
        0 < lo <= n <= ls.len(),
        ls[lo - 1] <= x,
        forall|j: int| lo <= j < ls.len() ==> ls[j] > x,
    ensures
        last_le(ls, x, n) == lo - 1,
    decreases n,
{
    if n > lo {
        lemma_last_le_from(ls, x, n - 1, lo);
    }
}

/// Index of the line containing byte offset `x`.
fn line_index(ls: &Vec<usize>, x: usize) -> (r: usize)
    requires
        ls.len() >= 1,
        ls@[0] == 0,
        forall|i: int, j: int| 0 <= i < j < ls.len() ==> ls@[i] < ls@[j],
    ensures
        r as int == last_le(ls@.map_values(|v: usize| v as int), x as int, ls.len() as int),
        r < ls.len(),
{
    let ghost m = ls@.map_values(|v: usize| v as int);
    let mut lo: usize = 1;
    let mut hi: usize = ls.len();
    while lo < hi
        invariant
            1 <= lo <= hi <= ls.len(),
            ls@[0] == 0,
            forall|i: int, j: int| 0 <= i < j < ls.len() ==> ls@[i] < ls@[j],
            ls@[lo - 1] <= x,
            forall|j: int| hi <= j < ls.len() ==> ls@[j] > x,
        decreases hi - lo,
    {
        let mid = lo + (hi - lo) / 2;
        if ls[mid] <= x {
            lo = mid + 1;
        } else {
            hi = mid;
        }
    }
    proof {
        assert forall|j: int| lo <= j < m.len() implies m[j] > x by {
            if j >= hi {
            } else {
                assert(j == lo);
            }
        }
        lemma_last_le_sorted(m, x as int, lo as int);
    }
    lo - 1
}

/// The lines of `cs` as `str::lines` yields them.
pub(crate) fn lines_vec(cs: &Vec<char>) -> (r: Vec<String>)
    ensures
        r@.map_values(|s: String| s@) == lines_from(cs@, 0),
{
    let mut r: Vec<String> = Vec::new();
    let mut p: usize = 0;
    while p < cs.len()
        invariant
            p <= cs.len(),
            lines_from(cs@, 0) == r@.map_values(|s: String| s@) + lines_from(cs@, p as int),
        decreases cs.len() - p,
    {
        let mut k = p;
        while k < cs.len() && cs[k] != '\n'
            invariant
                p <= k <= cs.len(),
                next_nl(cs@, p as int) == next_nl(cs@, k as int),
            decreases cs.len() - k,
        {
            k = k + 1;
        }
        let ghost old_r = r@.map_values(|s: String| s@);
        if k >= cs.len() {
            let line = string_of_range(cs, p, cs.len());
            r.push(line);
            proof {
                assert(r@.map_values(|s: String| s@) =~= old_r.push(cs@.subrange(p as int, cs.len() as int)));
                assert(lines_from(cs@, cs.len() as int) =~= Seq::<Seq<char>>::empty());
            }
            p = cs.len();
        } else {
            let mut e = k;
            if e > p && cs[e - 1] == '\r' {
                e = e - 1;
            }
            let line = string_of_range(cs, p, e);
            r.push(line);
            proof {
                let seg = cs@.subrange(p as int, k as int);
                assert(strip_cr(seg) =~= cs@.subrange(p as int, e as int));
                assert(r@.map_values(|s: String| s@) =~= old_r.push(strip_cr(seg)));
                assert(old_r.push(strip_cr(seg)) + lines_from(cs@, k + 1) =~= old_r + (seq![strip_cr(seg)] + lines_from(cs@, k + 1)));
            }
            p = k + 1;
        }
    }
    assert(r@.map_values(|s: String| s@) + lines_from(cs@, p as int) =~= r@.map_values(|s: String| s@));
    r
}

fn push_pad2(out: &mut String, n: usize)
    ensures
        final(out)@ == old(out)@ + pad2(n as nat),
{
    if n < 10 {
        push_char(out, ' ');
    }
    push_u64_decimal(out, n as u64);
    assert(final(out)@ =~= old(out)@ + pad2(n as nat));
}

fn push_header(out: &mut String, d: &Diagnostic, path: &str, line: usize, col: usize)
    ensures
        final(out)@ == old(out)@ + header_text(*d, path@, line as nat, col as nat),
{
    match d.severity {
        Severity::Error => push_str(out, "error"),
        Severity::Warning => push_str(out, "warning"),
    }
    push_str(out, "[");
    push_str(out, d.code);
    push_str(out, "]: ");
    push_str(out, d.message.as_str());
    push_str(out, "\n");
    push_str(out, "  --> ");
    push_str(out, path);
    push_str(out, ":");
    push_u64_decimal(out, line as u64);
    push_str(out, ":");
    push_u64_decimal(out, col as u64);
    push_str(out, "\n");
    push_str(out, "   |\n");
    assert(final(out)@ =~= old(out)@ + header_text(*d, path@, line as nat, col as nat));
}

fn push_source_line(out: &mut String, lines: &Vec<String>, line: usize)
    requires
        line >= 1,
    ensures
        final(out)@ == old(out)@ + source_text(lines@.map_values(|s: String| s@), line as nat),
{
    if line <= lines.len() {
        push_pad2(out, line);
        push_str(out, " | ");
        push_str(out, lines[line - 1].as_str());
        push_str(out, "\n");
        proof {
            assert(lines@.map_values(|s: String| s@)[line - 1] == lines@[line - 1]@);
        }
    }
    assert(final(out)@ =~= old(out)@ + source_text(lines@.map_values(|s: String| s@), line as nat));
}

fn push_caret(out: &mut String, col: usize)
    requires
        col >= 1,
    ensures
        final(out)@ == old(out)@ + caret_text(col as nat),
{
    push_str(out, "   | ");
    let ghost o3 = old(out)@;
    let mut s: usize = 0;
    while s < col - 1
        invariant
            s <= col - 1,
            out@ == o3 + "   | "@ + Seq::new(s as nat, |i: int| ' '),
        decreases col - 1 - s,
    {
        push_char(out, ' ');
        assert(Seq::new((s + 1) as nat, |i: int| ' ') =~= Seq::new(s as nat, |i: int| ' ').push(' '));
        s = s + 1;
    }
    push_str(out, "^\n");
    assert(final(out)@ =~= old(out)@ + caret_text(col as nat));
}

fn push_render_one(out: &mut String, d: &Diagnostic, ls: &Vec<usize>, lines: &Vec<String>, src: &str, path: &str)
    requires
        ls@.map_values(|v: usize| v as int) == line_starts_of(vstd::utf8::encode_utf8(src@)),
        lines@.map_values(|s: String| s@) == lines_from(src@, 0),
        ls.len() >= 1,
        ls@[0] == 0,
        forall|i: int, j: int| 0 <= i < j < ls.len() ==> ls@[i] < ls@[j],
        diag_col(*d, src@) <= usize::MAX,
    ensures
        final(out)@ == old(out)@ + render_one(*d, src@, path@),
{
    let ghost lsv = ls@.map_values(|v: usize| v as int);
    let idx = line_index(ls, d.span.start);
    let line = idx + 1;
    proof {
        assert(lsv[0] == ls@[0] as int);
        lemma_last_le_bounds(lsv, d.span.start as int, ls.len() as int);
        assert(lsv[idx as int] == ls@[idx as int]);
    }
    let col = d.span.start - ls[idx] + 1;
    assert(line as nat == diag_line(*d, src@));
    assert(col as nat == diag_col(*d, src@));
    push_header(out, d, path, line, col);
    push_source_line(out, lines, line);
    push_caret(out, col);
}

/// Render diagnostics with source context: each as a header line, the
/// `path:line:col` location (1-based, the column in bytes), the source
/// line when it exists, and a caret under the column. Diagnostics are
/// rendered in order of span start (stable). Every column must fit in a
/// `usize`.
pub fn render(diags: &[Diagnostic], src: &str, path: &str) -> (r: String)
    requires
        forall|i: int| 0 <= i < diags@.len() ==> diag_col(#[trigger] diags@[i], src@) <= usize::MAX,
    ensures
        r@ == render_all(stable_sort(diags@), src@, path@),
{
    let mut copy: Vec<Diagnostic> = Vec::new();
    let mut i: usize = 0;
    while i < diags.len()
        invariant
            i <= diags.len(),
            copy@ == diags@.take(i as int),
        decreases diags.len() - i,
    {
        copy.push(diags[i].clone());
        assert(copy@ =~= diags@.take(i + 1));
        i = i + 1;
    }
    assert(diags@.take(diags.len() as int) =~= diags@);
    let sorted = sort_stable(copy);
    proof {
        lemma_sort_members(diags@);
        assert forall|i: int| 0 <= i < sorted@.len() implies diag_col(#[trigger] sorted@[i], src@) <= usize::MAX by {
            let k = choose|k: int| 0 <= k < diags@.len() && diags@[k] == sorted@[i];
            assert(diag_col(diags@[k], src@) <= usize::MAX);
        }
    }
    let bs = src.as_bytes();
    let ls = line_starts(bs);
    let cs = chars_of(src);
    let lines = lines_vec(&cs);
    let ghost lsv = ls@.map_values(|v: usize| v as int);
    proof {
        lemma_line_starts(bs@);
        assert forall|i: int, j: int| 0 <= i < j < ls.len() implies ls@[i] < ls@[j] by {
            assert(lsv[i] == ls@[i] as int);
            assert(lsv[j] == ls@[j] as int);
        }
        assert forall|i: int| 0 <= i < ls.len() implies ls@[i] <= vstd::utf8::encode_utf8(src@).len() by {
            assert(lsv[i] == ls@[i] as int);
        }
        assert(lsv[0] == ls@[0] as int);
    }
    let mut out = String::new();
    let mut k: usize = 0;
    while k < sorted.len()
        invariant
            k <= sorted.len(),
            out@ == render_all(sorted@.take(k as int), src@, path@),
            lsv == ls@.map_values(|v: usize| v as int),
            lsv == line_starts_of(vstd::utf8::encode_utf8(src@)),
            lines@.map_values(|s: String| s@) == lines_from(src@, 0),
            ls.len() >= 1,
            ls@[0] == 0,
            forall|i: int, j: int| 0 <= i < j < ls.len() ==> ls@[i] < ls@[j],
            forall|i: int| 0 <= i < sorted@.len() ==> diag_col(#[trigger] sorted@[i], src@) <= usize::MAX,
        decreases sorted.len() - k,
    {
        push_render_one(&mut out, &sorted[k], &ls, &lines, src, path);
        proof {
            assert(sorted@.take(k + 1).drop_last() =~= sorted@.take(k as int));
            assert(sorted@.take(k + 1).last() == sorted@[k as int]);
        }
        k = k + 1;
    }
    assert(sorted@.take(sorted.len() as int) =~= sorted@);
    out
}

} // verus!
