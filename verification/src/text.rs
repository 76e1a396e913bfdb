//! Text primitives shared by every stage: equality, appending, byte-wise
//! ordering, decimal rendering, and substring search over `String`/`&str`.
use vstd::prelude::*;

verus! {

/// `==` on two string slices (std's `<str as PartialEq>::eq`): equal
/// exactly when the two character sequences are equal.
#[verifier::external_body]
pub fn str_eq(a: &str, b: &str) -> (r: bool)
    ensures
        r == (a@ == b@),
{
    a == b
}

/// `String::push_str`: appends the characters of `t`.
#[verifier::external_body]
pub fn push_str(s: &mut String, t: &str)
    ensures
        final(s)@ == old(s)@ + t@,
{
    s.push_str(t)
}

/// `String::push`: appends one character.
#[verifier::external_body]
pub fn push_char(s: &mut String, c: char)
    ensures
        final(s)@ == old(s)@.push(c),
{
    s.push(c)
}

/// The characters of `s`, in order.
pub fn chars_of(s: &str) -> (r: Vec<char>)
    ensures
        r@ == s@,
{
    let mut out: Vec<char> = Vec::new();
    for c in it: s.chars()
        invariant
            out@ == it.seq().take(it.index() as int),
            it.seq() == s@,
    {
        out.push(c);
    }
    out
}

/// An owned copy of `s`.
pub fn owned(s: &str) -> (r: String)
    ensures
        r@ == s@,
{
    let mut r = String::new();
    push_str(&mut r, s);
    r
}

/// The string made of the characters `cs[lo..hi]`.
pub fn string_of_range(cs: &Vec<char>, lo: usize, hi: usize) -> (r: String)
    requires
        lo <= hi <= cs.len(),
    ensures
        r@ == cs@.subrange(lo as int, hi as int),
{
    let mut r = String::new();
    let mut i = lo;
    while i < hi
        invariant
            lo <= i <= hi <= cs.len(),
            r@ == cs@.subrange(lo as int, i as int),
        decreases hi - i,
    {
        push_char(&mut r, cs[i]);
        assert(cs@.subrange(lo as int, i + 1) == cs@.subrange(lo as int, i as int).push(cs@[i as int]));
        i = i + 1;
    }
    r
}

/// The string made of all of `cs`.
pub fn string_of_chars(cs: &Vec<char>) -> (r: String)
    ensures
        r@ == cs@,
{
    let r = string_of_range(cs, 0, cs.len());
    assert(cs@.subrange(0, cs.len() as int) == cs@);
    r
}

/// `a` followed by `b`.
pub fn concat(a: &str, b: &str) -> (r: String)
    ensures
        r@ == a@ + b@,
{
    let mut r = owned(a);
    push_str(&mut r, b);
    r
}

// ---- prefixes, suffixes, substrings ----

pub open spec fn is_prefix(pre: Seq<char>, s: Seq<char>) -> bool {
    pre.len() <= s.len() && s.subrange(0, pre.len() as int) == pre
}

pub open spec fn is_suffix(suf: Seq<char>, s: Seq<char>) -> bool {
    suf.len() <= s.len() && s.subrange(s.len() - suf.len(), s.len() as int) == suf
}

/// `needle` occurs in `s` starting at `i`.
pub open spec fn occurs_at(s: Seq<char>, needle: Seq<char>, i: int) -> bool {
    0 <= i && i + needle.len() <= s.len() && s.subrange(i, i + needle.len()) == needle
}

pub open spec fn contains_text(s: Seq<char>, needle: Seq<char>) -> bool {
    exists|i: int| occurs_at(s, needle, i)
}

/// Whether `cs[at..]` begins with `pre`.
fn matches_at(cs: &Vec<char>, pre: &Vec<char>, at: usize) -> (r: bool)
    requires
        at <= cs.len(),
    ensures
        r == occurs_at(cs@, pre@, at as int),
{
    if pre.len() > cs.len() - at {
        return false;
    }
    let mut j: usize = 0;
    while j < pre.len()
        invariant
            j <= pre.len(),
            at + pre.len() <= cs.len(),
            cs@.subrange(at as int, at + j) == pre@.take(j as int),
        decreases pre.len() - j,
    {
        if cs[at + j] != pre[j] {
            assert(cs@.subrange(at as int, at + pre.len())[j as int] != pre@[j as int]);
            return false;
        }
        assert(cs@.subrange(at as int, at + j + 1) =~= pre@.take(j + 1));
        j = j + 1;
    }
    assert(pre@.take(pre.len() as int) =~= pre@);
    true
}

/// `s.starts_with(pre)`.
pub fn starts_with(s: &str, pre: &str) -> (r: bool)
    ensures
        r == is_prefix(pre@, s@),
{
    let cs = chars_of(s);
    let ps = chars_of(pre);
    let r = matches_at(&cs, &ps, 0);
    r
}

/// `s.ends_with(suf)`.
pub fn ends_with(s: &str, suf: &str) -> (r: bool)
    ensures
        r == is_suffix(suf@, s@),
{
    let cs = chars_of(s);
    let ps = chars_of(suf);
    if ps.len() > cs.len() {
        return false;
    }
    matches_at(&cs, &ps, cs.len() - ps.len())
}

/// `s.contains(needle)`.
pub fn contains(s: &str, needle: &str) -> (r: bool)
    ensures
        r == contains_text(s@, needle@),
{
    let cs = chars_of(s);
    let ns = chars_of(needle);
    if ns.len() == 0 {
        assert(s@.subrange(0, 0) =~= needle@);
        assert(occurs_at(s@, needle@, 0));
        return true;
    }
    if ns.len() > cs.len() {
        assert forall|k: int| !occurs_at(s@, needle@, k) by {}
        return false;
    }
    let last = cs.len() - ns.len();
    let mut i: usize = 0;
    while i <= last
        invariant
            i <= last + 1,
            last + ns.len() == cs.len(),
            ns.len() > 0,
            cs@ == s@,
            ns@ == needle@,
            forall|k: int| 0 <= k < i ==> !occurs_at(s@, needle@, k),
        decreases last + 1 - i,
    {
        if matches_at(&cs, &ns, i) {
            return true;
        }
        i = i + 1;
    }
    assert forall|k: int| !occurs_at(s@, needle@, k) by {
        if 0 <= k && k + needle@.len() <= s@.len() {
            assert(k < i);
        }
    }
    false
}

/// The first `n` characters of `s`.
pub fn prefix_chars(s: &str, n: usize) -> (r: String)
    requires
        n <= s@.len(),
    ensures
        r@ == s@.subrange(0, n as int),
{
    let cs = chars_of(s);
    string_of_range(&cs, 0, n)
}

// ---- decimal rendering ----

pub open spec fn digit_char(d: nat) -> char {
    if d == 0 { '0' }
    else if d == 1 { '1' }
    else if d == 2 { '2' }
    else if d == 3 { '3' }
    else if d == 4 { '4' }
    else if d == 5 { '5' }
    else if d == 6 { '6' }
    else if d == 7 { '7' }
    else if d == 8 { '8' }
    else { '9' }
}

/// Decimal digits of a natural number, most significant first, no
/// leading zeros (`0` renders as `"0"`).
pub open spec fn nat_digits(n: nat) -> Seq<char>
    decreases n,
{
    if n < 10 {
        seq![digit_char(n)]
    } else {
        nat_digits(n / 10).push(digit_char(n % 10))
    }
}

/// Decimal rendering of an integer: a leading `-` for negatives.
pub open spec fn int_decimal(i: int) -> Seq<char> {
    if i < 0 {
        seq!['-'] + nat_digits((-i) as nat)
    } else {
        nat_digits(i as nat)
    }
}

pub(crate) fn digit_of_exec(d: u64) -> (c: char)
    requires
        d < 10,
    ensures
        c == digit_char(d as nat),
{
    digit_of(d)
}

fn digit_of(d: u64) -> (c: char)
    requires
        d < 10,
    ensures
        c == digit_char(d as nat),
{
    if d == 0 { '0' }
    else if d == 1 { '1' }
    else if d == 2 { '2' }
    else if d == 3 { '3' }
    else if d == 4 { '4' }
    else if d == 5 { '5' }
    else if d == 6 { '6' }
    else if d == 7 { '7' }
    else if d == 8 { '8' }
    else { '9' }
}

/// Appends the decimal digits of `n`.
pub fn push_u64_decimal(s: &mut String, n: u64)
    ensures
        final(s)@ == old(s)@ + nat_digits(n as nat),
    decreases n,
{
    if n >= 10 {
        push_u64_decimal(s, n / 10);
    }
    push_char(s, digit_of(n % 10));
}

/// Appends the decimal rendering of `i` (what `i.to_string()` prints).
pub fn push_i64_decimal(s: &mut String, i: i64)
    ensures
        final(s)@ == old(s)@ + int_decimal(i as int),
{
    if i < 0 {
        push_char(s, '-');
        let m: u64 = ((-(i + 1)) as u64) + 1;
        push_u64_decimal(s, m);
        assert(old(s)@ + int_decimal(i as int) == old(s)@.push('-') + nat_digits(m as nat));
    } else {
        push_u64_decimal(s, i as u64);
    }
}

/// The decimal rendering of `i`.
pub fn i64_to_string(i: i64) -> (r: String)
    ensures
        r@ == int_decimal(i as int),
{
    let mut r = String::new();
    push_i64_decimal(&mut r, i);
    r
}

/// The decimal rendering of `n`.
pub fn usize_to_string(n: usize) -> (r: String)
    ensures
        r@ == nat_digits(n as nat),
{
    let mut r = String::new();
    push_u64_decimal(&mut r, n as u64);
    r
}

// ---- byte-wise ordering ----

/// Lexicographic order on byte sequences (a proper prefix sorts first).
pub open spec fn bytes_lt(a: Seq<u8>, b: Seq<u8>) -> bool
    decreases a.len(),
{
    if b.len() == 0 {
        false
    } else if a.len() == 0 {
        true
    } else if a[0] < b[0] {
        true
    } else if a[0] > b[0] {
        false
    } else {
        bytes_lt(a.drop_first(), b.drop_first())
    }
}

/// Byte-wise (UTF-8) string order, the order of Rust's `str::cmp`.
pub open spec fn text_lt(a: Seq<char>, b: Seq<char>) -> bool {
    bytes_lt(vstd::utf8::encode_utf8(a), vstd::utf8::encode_utf8(b))
}

/// `a < b` in byte-wise string order.
pub fn str_lt(a: &str, b: &str) -> (r: bool)
    ensures
        r == text_lt(a@, b@),
{
    let x = a.as_bytes();
    let y = b.as_bytes();
    let mut i: usize = 0;
    assert(x@.skip(0) == x@ && y@.skip(0) == y@);
    while i < x.len() && i < y.len() && x[i] == y[i]
        invariant
            i <= x@.len(),
            i <= y@.len(),
            x@.take(i as int) == y@.take(i as int),
            bytes_lt(x@, y@) == bytes_lt(x@.skip(i as int), y@.skip(i as int)),
        decreases x.len() - i,
    {
        proof {
            assert(x@.skip(i as int).drop_first() == x@.skip(i + 1));
            assert(y@.skip(i as int).drop_first() == y@.skip(i + 1));
        }
        i = i + 1;
    }
    if i < y.len() && (i == x.len() || x[i] < y[i]) {
        true
    } else {
        false
    }
}


// ---- case mapping ----

/// What `char::to_uppercase` yields for `c` (Unicode's uppercase
/// mapping, possibly several characters).
pub uninterp spec fn upper_char_v(c: char) -> Seq<char>;

/// What `str::to_uppercase` yields for `s`.
pub uninterp spec fn upper_text_v(s: Seq<char>) -> Seq<char>;

/// `char::to_uppercase`, collected: its result is named, not stated.
#[verifier::external_body]
pub(crate) fn char_to_uppercase(c: char) -> (r: String)
    ensures
        r@ == upper_char_v(c),
{
    c.to_uppercase().collect()
}

/// `str::to_uppercase`: its result is named, not stated.
#[verifier::external_body]
pub(crate) fn str_to_uppercase(s: &str) -> (r: String)
    ensures
        r@ == upper_text_v(s@),
{
    s.to_uppercase()
}

// ---- whitespace ----

/// Unicode `White_Space`: the characters `char::is_whitespace` accepts.
pub open spec fn is_ws(c: char) -> bool {
    ||| ('\u{9}' <= c && c <= '\u{d}')
    ||| c == ' '
    ||| c == '\u{85}'
    ||| c == '\u{a0}'
    ||| c == '\u{1680}'
    ||| ('\u{2000}' <= c && c <= '\u{200a}')
    ||| c == '\u{2028}'
    ||| c == '\u{2029}'
    ||| c == '\u{202f}'
    ||| c == '\u{205f}'
    ||| c == '\u{3000}'
}

/// `s` without its leading whitespace.
pub open spec fn trim_start_v(s: Seq<char>) -> Seq<char>
    decreases s.len(),
{
    if s.len() > 0 && is_ws(s[0]) {
        trim_start_v(s.drop_first())
    } else {
        s
    }
}

/// `s` without its trailing whitespace.
pub open spec fn trim_end_v(s: Seq<char>) -> Seq<char>
    decreases s.len(),
{
    if s.len() > 0 && is_ws(s.last()) {
        trim_end_v(s.drop_last())
    } else {
        s
    }
}

/// `s` without leading and trailing whitespace.
pub open spec fn trim_v(s: Seq<char>) -> Seq<char> {
    trim_end_v(trim_start_v(s))
}

fn is_ws_exec(c: char) -> (r: bool)
    ensures
        r == is_ws(c),
{
    ('\u{9}' <= c && c <= '\u{d}') || c == ' ' || c == '\u{85}' || c == '\u{a0}' || c == '\u{1680}'
        || ('\u{2000}' <= c && c <= '\u{200a}') || c == '\u{2028}' || c == '\u{2029}' || c == '\u{202f}'
        || c == '\u{205f}' || c == '\u{3000}'
}

/// A copy of `s` with leading and trailing whitespace removed.
pub fn trim(s: &str) -> (r: String)
    ensures
        r@ == trim_v(s@),
{
    let cs = chars_of(s);
    let mut lo: usize = 0;
    assert(cs@.subrange(0, cs.len() as int) =~= cs@);
    while lo < cs.len() && is_ws_exec(cs[lo])
        invariant
            lo <= cs.len(),
            cs@ == s@,
            trim_start_v(s@) == trim_start_v(cs@.subrange(lo as int, cs.len() as int)),
        decreases cs.len() - lo,
    {
        assert(cs@.subrange(lo as int, cs.len() as int).drop_first() =~= cs@.subrange(lo + 1, cs.len() as int));
        lo = lo + 1;
    }
    assert(trim_start_v(s@) == cs@.subrange(lo as int, cs.len() as int));
    let mut hi: usize = cs.len();
    while hi > lo && is_ws_exec(cs[hi - 1])
        invariant
            lo <= hi <= cs.len(),
            cs@ == s@,
            trim_v(s@) == trim_end_v(cs@.subrange(lo as int, hi as int)),
        decreases hi,
    {
        assert(cs@.subrange(lo as int, hi as int).drop_last() =~= cs@.subrange(lo as int, hi - 1));
        hi = hi - 1;
    }
    string_of_range(&cs, lo, hi)
}


// ---- joining ----

/// The texts of `xs` with `sep` between neighbours.
pub open spec fn join_v(xs: Seq<Seq<char>>, sep: Seq<char>) -> Seq<char>
    decreases xs.len(),
{
    if xs.len() == 0 {
        Seq::empty()
    } else if xs.len() == 1 {
        xs[0]
    } else {
        join_v(xs.drop_last(), sep) + sep + xs.last()
    }
}

/// `xs` joined with `sep` (see `join_v`).
pub fn join(xs: &[String], sep: &str) -> (r: String)
    ensures
        r@ == join_v(xs@.map_values(|s: String| s@), sep@),
{
    let ghost xv = xs@.map_values(|s: String| s@);
    if xs.len() == 0 {
        proof {
            reveal_strlit("");
        }
        return owned("");
    }
    let mut r = owned(xs[0].as_str());
    assert(xv.take(1) =~= seq![xv[0]]);
    let mut i: usize = 1;
    while i < xs.len()
        invariant
            1 <= i <= xs.len(),
            xv == xs@.map_values(|s: String| s@),
            r@ == join_v(xv.take(i as int), sep@),
        decreases xs.len() - i,
    {
        push_str(&mut r, sep);
        push_str(&mut r, xs[i].as_str());
        assert(xv.take(i + 1).drop_last() =~= xv.take(i as int));
        i = i + 1;
    }
    assert(xv.take(xs.len() as int) =~= xv);
    r
}

} // verus!
