use vstd::prelude::*;
use crate::text::{chars_of, int_decimal, owned, push_char, push_i64_decimal, push_str, str_eq};

verus! {

/// A Lisp-shaped value: the canonical serialization boundary.
#[derive(Debug, PartialEq)]
pub enum Sexpr {
    Sym(String),
    Str(String),
    Int(i64),
    List(Vec<Sexpr>),
}

/// The mathematical value of a `Sexpr`: text as character sequences,
/// integers as `int`.
pub enum SexprV {
    Sym(Seq<char>),
    Str(Seq<char>),
    Int(int),
    List(Seq<SexprV>),
}

pub open spec fn sexpr_view(s: Sexpr) -> SexprV
    decreases s,
{
    match s {
        Sexpr::Sym(t) => SexprV::Sym(t@),
        Sexpr::Str(t) => SexprV::Str(t@),
        Sexpr::Int(i) => SexprV::Int(i as int),
        Sexpr::List(items) => SexprV::List(views_of(items@)),
    }
}

/// Element-wise view of a sequence of values.
pub open spec fn views_of(items: Seq<Sexpr>) -> Seq<SexprV>
    decreases items,
{
    if items.len() == 0 {
        Seq::empty()
    } else {
        proof {
            assert(decreases_to!(items => items[items.len() - 1]));
        }
        views_of(items.drop_last()).push(sexpr_view(items.last()))
    }
}

pub broadcast proof fn lemma_views_of(items: Seq<Sexpr>)
    ensures
        #[trigger] views_of(items).len() == items.len(),
        forall|i: int| 0 <= i < items.len() ==> #[trigger] views_of(items)[i] == sexpr_view(items[i]),
    decreases items.len(),
{
    if items.len() > 0 {
        lemma_views_of(items.drop_last());
    }
}

impl View for Sexpr {
    type V = SexprV;

    open spec fn view(&self) -> SexprV {
        sexpr_view(*self)
    }
}

/// A deep copy of `s`.
pub fn clone_sexpr(s: &Sexpr) -> (r: Sexpr)
    ensures
        sexpr_view(r) == sexpr_view(*s),
    decreases s,
{
    match s {
        Sexpr::Sym(t) => {
            let r = Sexpr::Sym(t.clone());
            assert(sexpr_view(r) == sexpr_view(*s));
            r
        },
        Sexpr::Str(t) => Sexpr::Str(t.clone()),
        Sexpr::Int(i) => Sexpr::Int(*i),
        Sexpr::List(items) => {
            let mut out: Vec<Sexpr> = Vec::new();
            let mut i: usize = 0;
            while i < items.len()
                invariant
                    i <= items.len(),
                    out.len() == i,
                    forall|j: int| 0 <= j < i ==> #[trigger] sexpr_view(out@[j]) == sexpr_view(items@[j]),
                    *s == Sexpr::List(*items),
                decreases items.len() - i,
            {
                proof {
                    vstd::std_specs::vec::axiom_vec_index_decreases(*items, i as int);
                    assert(decreases_to!(*s => (*s)->List_0));
                    assert(decreases_to!(*s => items[i as int]));
                }
                out.push(clone_sexpr(&items[i]));
                i = i + 1;
            }
            let r = Sexpr::List(out);
            proof {
                lemma_views_of(out@);
                lemma_views_of(items@);
                assert(views_of(out@) =~= views_of(items@));
            }
            r
        },
    }
}

impl Clone for Sexpr {
    fn clone(&self) -> (r: Self)
        ensures
            r@ == self@,
    {
        clone_sexpr(self)
    }
}


pub broadcast group group_sexpr_view {
    lemma_views_of,
}

// ---- printing ----

pub open spec fn escape_char(c: char) -> Seq<char> {
    if c == '\\' {
        seq!['\\', '\\']
    } else if c == '"' {
        seq!['\\', '"']
    } else {
        seq![c]
    }
}

/// String body with only `\` and `"` escaped.
pub open spec fn escape_text(s: Seq<char>) -> Seq<char>
    decreases s.len(),
{
    if s.len() == 0 {
        Seq::empty()
    } else {
        escape_text(s.drop_last()) + escape_char(s.last())
    }
}

/// Canonical single-line printing: symbols bare, strings quoted with
/// `\"`/`\\` escaped, integers in decimal, lists parenthesized with
/// single spaces, and the empty list as `nil`.
pub open spec fn print_v(v: SexprV) -> Seq<char>
    decreases v,
{
    match v {
        SexprV::Sym(s) => s,
        SexprV::Str(s) => seq!['"'] + escape_text(s) + seq!['"'],
        SexprV::Int(i) => int_decimal(i),
        SexprV::List(items) => if items.len() == 0 {
            seq!['n', 'i', 'l']
        } else {
            seq!['('] + print_join(items) + seq![')']
        },
    }
}

/// The printed items separated by single spaces.
pub open spec fn print_join(items: Seq<SexprV>) -> Seq<char>
    decreases items,
{
    if items.len() == 0 {
        Seq::empty()
    } else if items.len() == 1 {
        proof {
            assert(decreases_to!(items => items[0]));
        }
        print_v(items[0])
    } else {
        proof {
            assert(decreases_to!(items => items[items.len() - 1]));
        }
        print_join(items.drop_last()) + seq![' '] + print_v(items.last())
    }
}

/// `(key value)`.
pub open spec fn pair_v(key: Seq<char>, value: SexprV) -> SexprV {
    SexprV::List(seq![SexprV::Sym(key), value])
}

/// Alist lookup over the items of a list: the value of the first
/// two-element entry headed by the symbol `key`.
pub open spec fn assoc_items(items: Seq<SexprV>, key: Seq<char>) -> Option<SexprV>
    decreases items.len(),
{
    if items.len() == 0 {
        None
    } else if is_pair_with_key(items[0], key) {
        Some(items[0]->List_0[1])
    } else {
        assoc_items(items.drop_first(), key)
    }
}

pub open spec fn is_pair_with_key(item: SexprV, key: Seq<char>) -> bool {
    &&& item is List
    &&& item->List_0.len() == 2
    &&& item->List_0[0] == SexprV::Sym(key)
}

pub open spec fn assoc_v(v: SexprV, key: Seq<char>) -> Option<SexprV> {
    match v {
        SexprV::List(items) => assoc_items(items, key),
        _ => None,
    }
}

fn push_escaped(out: &mut String, s: &String)
    ensures
        final(out)@ == old(out)@ + escape_text(s@),
{
    let cs = chars_of(s.as_str());
    let mut i: usize = 0;
    while i < cs.len()
        invariant
            i <= cs.len(),
            cs@ == s@,
            out@ == old(out)@ + escape_text(cs@.take(i as int)),
        decreases cs.len() - i,
    {
        let c = cs[i];
        if c == '\\' {
            push_str(out, "\\\\");
        } else if c == '"' {
            push_str(out, "\\\"");
        } else {
            push_char(out, c);
        }
        proof {
            reveal_strlit("\\\\");
            reveal_strlit("\\\"");
            assert(cs@.take(i + 1).drop_last() == cs@.take(i as int));
        }
        i = i + 1;
    }
    assert(cs@.take(cs.len() as int) == cs@);
}

fn push_print(out: &mut String, v: &Sexpr)
    ensures
        final(out)@ == old(out)@ + print_v(v@),
    decreases v,
{
    broadcast use group_sexpr_view;
    match v {
        Sexpr::Sym(s) => {
            push_str(out, s.as_str());
        },
        Sexpr::Str(s) => {
            push_char(out, '"');
            push_escaped(out, s);
            push_char(out, '"');
            assert(final(out)@ =~= old(out)@ + print_v(v@));
        },
        Sexpr::Int(i) => {
            push_i64_decimal(out, *i);
        },
        Sexpr::List(items) => {
            if items.len() == 0 {
                push_str(out, "nil");
                proof {
                    reveal_strlit("nil");
                }
            } else {
                push_char(out, '(');
                let ghost vs = views_of(items@);
                let mut i: usize = 0;
                while i < items.len()
                    invariant
                        i <= items.len(),
                        *v == Sexpr::List(*items),
                        vs == views_of(items@),
                        vs.len() == items.len(),
                        items.len() > 0,
                        out@ == old(out)@ + seq!['('] + print_join(vs.take(i as int)),
                    decreases items.len() - i,
                {
                    proof {
                        vstd::std_specs::vec::axiom_vec_index_decreases(*items, i as int);
                        assert(decreases_to!(*v => (*v)->List_0));
                        assert(decreases_to!(*v => items[i as int]));
                        assert(vs.take(i + 1).drop_last() == vs.take(i as int));
                        assert(vs.take(i + 1).last() == vs[i as int]);
                        lemma_views_of(items@);
                        assert(vs[i as int] == sexpr_view(items@[i as int]));
                    }
                    if i > 0 {
                        push_char(out, ' ');
                    } else {
                        assert(vs.take(1) == seq![vs[0]]);
                    }
                    push_print(out, &items[i]);
                    i = i + 1;
                }
                push_char(out, ')');
                assert(vs.take(items.len() as int) == vs);
            }
        },
    }
}

impl Sexpr {
    /// `Sym(s)`.
    pub fn sym(s: &str) -> (r: Sexpr)
        ensures
            r@ == SexprV::Sym(s@),
    {
        Sexpr::Sym(owned(s))
    }

    /// `List(items)`.
    pub fn list(items: Vec<Sexpr>) -> (r: Sexpr)
        ensures
            r@ == SexprV::List(views_of(items@)),
            r == Sexpr::List(items),
    {
        Sexpr::List(items)
    }

    /// `(key value)` pair used in field alists.
    pub fn pair(key: &str, value: Sexpr) -> (r: Sexpr)
        ensures
            r@ == pair_v(key@, value@),
    {
        let r = Sexpr::List(vec![Sexpr::sym(key), value]);
        proof {
            broadcast use group_sexpr_view;
            assert(views_of(r->List_0@) =~= seq![SexprV::Sym(key@), value@]);
        }
        r
    }

    /// Canonical single-line printing (see `print_v`).
    pub fn print(&self) -> (r: String)
        ensures
            r@ == print_v(self@),
    {
        let mut r = String::new();
        push_print(&mut r, self);
        r
    }

    /// `Sym(s) => Some(s)`, `None` for any other variant.
    pub fn as_sym(&self) -> (r: Option<&str>)
        ensures
            match self@ {
                SexprV::Sym(t) => r is Some && r->0@ == t,
                _ => r is None,
            },
    {
        match self {
            Sexpr::Sym(s) => Some(s.as_str()),
            _ => None,
        }
    }

    /// `Str(s) => Some(s)`, `None` for any other variant.
    pub fn as_str(&self) -> (r: Option<&str>)
        ensures
            match self@ {
                SexprV::Str(t) => r is Some && r->0@ == t,
                _ => r is None,
            },
    {
        match self {
            Sexpr::Str(s) => Some(s.as_str()),
            _ => None,
        }
    }

    /// `Int(i) => Some(i)`, `None` for any other variant.
    pub fn as_int(&self) -> (r: Option<i64>)
        ensures
            match self@ {
                SexprV::Int(i) => r is Some && r->0 as int == i,
                _ => r is None,
            },
    {
        match self {
            Sexpr::Int(i) => Some(*i),
            _ => None,
        }
    }

    /// `List(items) => Some(items)`, `None` for any other variant.
    pub fn as_list(&self) -> (r: Option<&[Sexpr]>)
        ensures
            match *self {
                Sexpr::List(items) => r is Some && r->0@ == items@,
                _ => r is None,
            },
    {
        match self {
            Sexpr::List(items) => Some(items.as_slice()),
            _ => None,
        }
    }

    /// Alist lookup over a `List` of `(key value)` pairs: the value of
    /// the first two-element pair headed by the symbol `key`. Entries of
    /// any other shape are skipped.
    pub fn assoc(&self, key: &str) -> (r: Option<&Sexpr>)
        ensures
            match assoc_v(self@, key@) {
                Some(v) => r is Some && r->0@ == v,
                None => r is None,
            },
    {
        broadcast use group_sexpr_view;
        match self {
            Sexpr::List(items) => {
                let ghost vs = views_of(items@);
                let mut i: usize = 0;
                assert(vs.skip(0) == vs);
                while i < items.len()
                    invariant
                        i <= items.len(),
                        vs == views_of(items@),
                        vs.len() == items.len(),
                        *self == Sexpr::List(*items),
                        assoc_items(vs, key@) == assoc_items(vs.skip(i as int), key@),
                    decreases items.len() - i,
                {
                    proof {
                        assert(vs.skip(i as int).drop_first() == vs.skip(i + 1));
                        assert(vs.skip(i as int)[0] == vs[i as int]);
                        lemma_views_of(items@);
                        assert(vs[i as int] == sexpr_view(items@[i as int]));
                    }
                    let item = &items[i];
                    match item {
                        Sexpr::List(pair) => {
                            let ghost pv = views_of(pair@);
                            proof {
                                lemma_views_of(pair@);
                                assert(vs[i as int] == SexprV::List(pv));
                            }
                            if pair.len() == 2 {
                                proof {
                                    assert(pv[0] == sexpr_view(pair@[0]));
                                    assert(pv[1] == sexpr_view(pair@[1]));
                                }
                                match pair[0].as_sym() {
                                    Some(k) => {
                                        if str_eq(k, key) {
                                            proof {
                                                assert(pv[0] == SexprV::Sym(key@));
                                                assert(is_pair_with_key(vs.skip(i as int)[0], key@));
                                                assert(assoc_items(vs.skip(i as int), key@) == Some(pv[1]));
                                                assert(self@ == SexprV::List(vs));
                                            }
                                            return Some(&pair[1]);
                                        }
                                    },
                                    None => {},
                                }
                            }
                        },
                        _ => {},
                    }
                    i = i + 1;
                }
                None
            },
            _ => None,
        }
    }
}

/// `(a)`.
pub fn list1(a: Sexpr) -> (r: Sexpr)
    ensures
        r@ == SexprV::List(seq![a@]),
{
    let ghost va = a@;
    let items = vec![a];
    proof {
        lemma_views_of(items@);
        assert(views_of(items@) =~= seq![va]);
    }
    Sexpr::List(items)
}

/// `(a b)`.
pub fn list2(a: Sexpr, b: Sexpr) -> (r: Sexpr)
    ensures
        r@ == SexprV::List(seq![a@, b@]),
{
    let ghost (va, vb) = (a@, b@);
    let items = vec![a, b];
    proof {
        lemma_views_of(items@);
        assert(views_of(items@) =~= seq![va, vb]);
    }
    Sexpr::List(items)
}

/// `(a b c)`.
pub fn list3(a: Sexpr, b: Sexpr, c: Sexpr) -> (r: Sexpr)
    ensures
        r@ == SexprV::List(seq![a@, b@, c@]),
{
    let ghost (va, vb, vc) = (a@, b@, c@);
    let items = vec![a, b, c];
    proof {
        lemma_views_of(items@);
        assert(views_of(items@) =~= seq![va, vb, vc]);
    }
    Sexpr::List(items)
}

/// `(a b c d)`.
pub fn list4(a: Sexpr, b: Sexpr, c: Sexpr, d: Sexpr) -> (r: Sexpr)
    ensures
        r@ == SexprV::List(seq![a@, b@, c@, d@]),
{
    let ghost (va, vb, vc, vd) = (a@, b@, c@, d@);
    let items = vec![a, b, c, d];
    proof {
        lemma_views_of(items@);
        assert(views_of(items@) =~= seq![va, vb, vc, vd]);
    }
    Sexpr::List(items)
}

/// `(a b c d e)`.
pub fn list5(a: Sexpr, b: Sexpr, c: Sexpr, d: Sexpr, e: Sexpr) -> (r: Sexpr)
    ensures
        r@ == SexprV::List(seq![a@, b@, c@, d@, e@]),
{
    let ghost (va, vb, vc, vd, ve) = (a@, b@, c@, d@, e@);
    let items = vec![a, b, c, d, e];
    proof {
        lemma_views_of(items@);
        assert(views_of(items@) =~= seq![va, vb, vc, vd, ve]);
    }
    Sexpr::List(items)
}

/// `List(items)` from a vector that already holds `prefix` views,
/// pushed one at a time: the view of the pushed vector.
pub proof fn lemma_views_push(items: Seq<Sexpr>, x: Sexpr)
    ensures
        views_of(items.push(x)) == views_of(items).push(x@),
{
    assert(items.push(x).drop_last() =~= items);
}

/// A string value.
pub fn str_sexpr(s: &str) -> (r: Sexpr)
    ensures
        r@ == SexprV::Str(s@),
{
    Sexpr::Str(owned(s))
}

/// Canonical serialization: print + one trailing newline.
pub fn canonical_serialize(value: &Sexpr) -> (r: String)
    ensures
        r@ == print_v(value@).push('\n'),
{
    let mut r = value.print();
    push_char(&mut r, '\n');
    r
}


/// Structural equality: same variant, equal text, integers and items.
pub fn sexpr_eq(a: &Sexpr, b: &Sexpr) -> (r: bool)
    ensures
        r == (a@ == b@),
    decreases a,
{
    broadcast use group_sexpr_view;
    match (a, b) {
        (Sexpr::Sym(x), Sexpr::Sym(y)) => str_eq(x.as_str(), y.as_str()),
        (Sexpr::Str(x), Sexpr::Str(y)) => str_eq(x.as_str(), y.as_str()),
        (Sexpr::Int(x), Sexpr::Int(y)) => *x == *y,
        (Sexpr::List(xs), Sexpr::List(ys)) => {
            let ghost xv = views_of(xs@);
            let ghost yv = views_of(ys@);
            if xs.len() != ys.len() {
                assert(xv.len() != yv.len());
                return false;
            }
            let mut i: usize = 0;
            while i < xs.len()
                invariant
                    i <= xs.len(),
                    xs.len() == ys.len(),
                    *a == Sexpr::List(*xs),
                    *b == Sexpr::List(*ys),
                    xv == views_of(xs@),
                    yv == views_of(ys@),
                    xv.len() == xs.len(),
                    yv.len() == ys.len(),
                    forall|k: int| 0 <= k < i ==> xv[k] == yv[k],
                decreases xs.len() - i,
            {
                proof {
                    vstd::std_specs::vec::axiom_vec_index_decreases(*xs, i as int);
                    assert(decreases_to!(*a => (*a)->List_0));
                    assert(decreases_to!(*a => xs[i as int]));
                    lemma_views_of(xs@);
                    lemma_views_of(ys@);
                }
                if !sexpr_eq(&xs[i], &ys[i]) {
                    assert(xv[i as int] != yv[i as int]);
                    return false;
                }
                i = i + 1;
            }
            assert(xv =~= yv);
            true
        },
        _ => false,
    }
}
} // verus!
