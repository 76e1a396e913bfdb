//! The executable transition calculus: transition extraction from
//! `behavior` nodes, a total predicate-and-expression evaluator, the
//! reference `apply_transition`, bounded trace execution, and invariant
//! checking with counterexamples. Every function is total over
//! arbitrary `Sexpr` and `IrNode` input.
use vstd::prelude::*;
use crate::diag::{diag_sexpr, diag_v};
use crate::ir::{Ir, IrNode, all_nodes_v, first_field, nodes_with_kind};
use crate::order::texts;
use crate::sexpr::{Sexpr, SexprV, clone_sexpr, lemma_views_of, lemma_views_push, list1, list2, list3, list4, print_v, sexpr_eq, views_of};
use crate::text::{chars_of, concat, is_suffix, owned, push_str, str_eq};

verus! {

/// An insertion-ordered association list: `(state-node-name, value)`.
pub type State = Vec<(String, Sexpr)>;

/// A state as text keys and values.
pub open spec fn state_v(s: Seq<(String, Sexpr)>) -> Seq<(Seq<char>, SexprV)> {
    s.map_values(|e: (String, Sexpr)| (e.0@, e.1@))
}

/// `((name value) ...)`.
pub open spec fn state_sexpr_v(st: Seq<(Seq<char>, SexprV)>) -> SexprV {
    SexprV::List(st.map_values(|e: (Seq<char>, SexprV)| SexprV::List(seq![SexprV::Sym(e.0), e.1])))
}

/// `k` is the first position of `st` whose key is `name`.
pub open spec fn key_at(st: Seq<(Seq<char>, SexprV)>, name: Seq<char>, k: int) -> bool {
    &&& 0 <= k < st.len()
    &&& st[k].0 == name
    &&& forall|j: int| 0 <= j < k ==> (#[trigger] st[j]).0 != name
}

/// The first position of `st` whose key is `name`.
pub open spec fn key_index(st: Seq<(Seq<char>, SexprV)>, name: Seq<char>) -> Option<int> {
    if exists|k: int| key_at(st, name, k) {
        Some(choose|k: int| key_at(st, name, k))
    } else {
        None
    }
}

/// The value of the first entry keyed `name`.
pub open spec fn lookup_v(st: Seq<(Seq<char>, SexprV)>, name: Seq<char>) -> Option<SexprV> {
    match key_index(st, name) {
        Some(k) => Some(st[k].1),
        None => None,
    }
}

pub proof fn lemma_key_at_unique(st: Seq<(Seq<char>, SexprV)>, name: Seq<char>, k: int)
    requires
        key_at(st, name, k),
    ensures
        key_index(st, name) == Some(k),
{
    let c = choose|j: int| key_at(st, name, j);
    assert(key_at(st, name, c));
    if c < k {
        assert(st[c].0 != name);
    } else if k < c {
        assert(st[k].0 != name);
    }
}

pub open spec fn nil_v() -> SexprV {
    SexprV::List(Seq::empty())
}

pub open spec fn or_nil(o: Option<SexprV>) -> SexprV {
    match o {
        Some(v) => v,
        None => nil_v(),
    }
}

pub open spec fn opt_v(o: Option<Sexpr>) -> Option<SexprV> {
    match o {
        Some(v) => Some(v@),
        None => None,
    }
}

pub open spec fn opt_ref_v(o: Option<&Sexpr>) -> Option<SexprV> {
    match o {
        Some(v) => Some(v@),
        None => None,
    }
}

/// The expression evaluator: literals evaluate to themselves, `pre` and
/// `post` to the printed state, `actor` and `input` to their values or
/// `nil`, `result` to a placeholder, another symbol to its state entry
/// (else itself); a list evaluates to itself.
pub open spec fn expr_v(e: SexprV, st: Seq<(Seq<char>, SexprV)>, a: Option<SexprV>, i: Option<SexprV>) -> SexprV {
    match e {
        SexprV::Sym(s) => if s == "pre"@ || s == "post"@ {
            state_sexpr_v(st)
        } else if s == "actor"@ {
            or_nil(a)
        } else if s == "input"@ {
            or_nil(i)
        } else if s == "result"@ {
            SexprV::Sym("result-placeholder"@)
        } else {
            match lookup_v(st, s) {
                Some(v) => v,
                None => e,
            }
        },
        _ => e,
    }
}

/// The tri-state verdict of a predicate: `Holds` and `Fails` are
/// grounded, `Unknown` marks a verdict no branch could decide.
#[derive(Debug, Clone, Copy, PartialEq, Eq, Structural)]
pub enum Verdict {
    Holds,
    Fails,
    Unknown,
}

/// The `n`th item of a call, or `nil`.
pub open spec fn nth_v(items: Seq<SexprV>, n: int) -> SexprV {
    if 0 <= n < items.len() {
        items[n]
    } else {
        nil_v()
    }
}

pub open spec fn negate(v: Verdict) -> Verdict {
    match v {
        Verdict::Holds => Verdict::Fails,
        Verdict::Fails => Verdict::Holds,
        Verdict::Unknown => Verdict::Unknown,
    }
}

/// Integer comparison of the evaluated operands, `Unknown` unless both
/// are integers.
pub open spec fn compare3(items: Seq<SexprV>, st: Seq<(Seq<char>, SexprV)>, a: Option<SexprV>, i: Option<SexprV>, strict: bool) -> Verdict {
    let x = expr_v(nth_v(items, 1), st, a, i);
    let y = expr_v(nth_v(items, 2), st, a, i);
    match (x, y) {
        (SexprV::Int(p), SexprV::Int(q)) => if (strict && p < q) || (!strict && p <= q) {
            Verdict::Holds
        } else {
            Verdict::Fails
        },
        _ => Verdict::Unknown,
    }
}

/// The closed tri-state evaluator.
pub open spec fn pred3(p: SexprV, st: Seq<(Seq<char>, SexprV)>, a: Option<SexprV>, i: Option<SexprV>) -> Verdict
    decreases p,
{
    match p {
        SexprV::List(items) => if items.len() == 0 {
            Verdict::Unknown
        } else if items[0] == SexprV::Sym("="@) {
            if expr_v(nth_v(items, 1), st, a, i) == expr_v(nth_v(items, 2), st, a, i) {
                Verdict::Holds
            } else {
                Verdict::Fails
            }
        } else if items[0] == SexprV::Sym("not"@) {
            if items.len() > 1 {
                negate(pred3(items[1], st, a, i))
            } else {
                Verdict::Unknown
            }
        } else if items[0] == SexprV::Sym("and"@) {
            and3(items.drop_first(), st, a, i)
        } else if items[0] == SexprV::Sym("or"@) {
            or3(items.drop_first(), st, a, i)
        } else if items[0] == SexprV::Sym("<"@) {
            compare3(items, st, a, i, true)
        } else if items[0] == SexprV::Sym("<="@) {
            compare3(items, st, a, i, false)
        } else {
            Verdict::Unknown
        },
        _ => Verdict::Unknown,
    }
}

/// `Fails` if any item fails; else `Unknown` if any is unknown; else
/// `Holds`.
pub open spec fn and3(ps: Seq<SexprV>, st: Seq<(Seq<char>, SexprV)>, a: Option<SexprV>, i: Option<SexprV>) -> Verdict
    decreases ps,
{
    if ps.len() == 0 {
        Verdict::Holds
    } else {
        let rest = and3(ps.drop_first(), st, a, i);
        match pred3(ps[0], st, a, i) {
            Verdict::Fails => Verdict::Fails,
            Verdict::Unknown => if rest == Verdict::Fails { Verdict::Fails } else { Verdict::Unknown },
            Verdict::Holds => rest,
        }
    }
}

/// `Holds` if any item holds; else `Unknown` if any is unknown; else
/// `Fails`.
pub open spec fn or3(ps: Seq<SexprV>, st: Seq<(Seq<char>, SexprV)>, a: Option<SexprV>, i: Option<SexprV>) -> Verdict
    decreases ps,
{
    if ps.len() == 0 {
        Verdict::Fails
    } else {
        let rest = or3(ps.drop_first(), st, a, i);
        match pred3(ps[0], st, a, i) {
            Verdict::Holds => Verdict::Holds,
            Verdict::Unknown => if rest == Verdict::Holds { Verdict::Holds } else { Verdict::Unknown },
            Verdict::Fails => rest,
        }
    }
}

/// The boolean evaluator with its basis: the verdict, and whether every
/// evaluated branch was grounded (no permissive default fired).
pub open spec fn basis(p: SexprV, st: Seq<(Seq<char>, SexprV)>, a: Option<SexprV>, i: Option<SexprV>) -> (bool, bool)
    decreases p,
{
    match p {
        SexprV::List(items) => if items.len() == 0 {
            (true, false)
        } else if items[0] == SexprV::Sym("not"@) {
            if items.len() > 1 {
                let r = basis(items[1], st, a, i);
                (!r.0, r.1)
            } else {
                (false, false)
            }
        } else if items[0] == SexprV::Sym("and"@) {
            and_basis(items.drop_first(), st, a, i)
        } else if items[0] == SexprV::Sym("or"@) {
            or_basis(items.drop_first(), st, a, i)
        } else if items[0] == SexprV::Sym("="@) || items[0] == SexprV::Sym("<"@) || items[0] == SexprV::Sym("<="@) {
            match pred3(p, st, a, i) {
                Verdict::Holds => (true, true),
                Verdict::Fails => (false, true),
                Verdict::Unknown => (false, false),
            }
        } else {
            (true, false)
        },
        _ => (true, false),
    }
}

/// Conjunction in order, stopping at the first false item.
pub open spec fn and_basis(ps: Seq<SexprV>, st: Seq<(Seq<char>, SexprV)>, a: Option<SexprV>, i: Option<SexprV>) -> (bool, bool)
    decreases ps,
{
    if ps.len() == 0 {
        (true, true)
    } else {
        let r0 = basis(ps[0], st, a, i);
        if !r0.0 {
            (false, r0.1)
        } else {
            let r = and_basis(ps.drop_first(), st, a, i);
            (r.0, r0.1 && r.1)
        }
    }
}

/// Disjunction in order, stopping at the first true item.
pub open spec fn or_basis(ps: Seq<SexprV>, st: Seq<(Seq<char>, SexprV)>, a: Option<SexprV>, i: Option<SexprV>) -> (bool, bool)
    decreases ps,
{
    if ps.len() == 0 {
        (false, true)
    } else {
        let r0 = basis(ps[0], st, a, i);
        if r0.0 {
            (true, r0.1)
        } else {
            let r = or_basis(ps.drop_first(), st, a, i);
            (r.0, r0.1 && r.1)
        }
    }
}

// ---- the evaluators ----

/// The operator heads are pairwise distinct texts.
pub open spec fn distinct_heads() -> bool {
    &&& "="@ != "not"@
    &&& "="@ != "and"@
    &&& "="@ != "or"@
    &&& "="@ != "<"@
    &&& "="@ != "<="@
    &&& "not"@ != "and"@
    &&& "not"@ != "or"@
    &&& "not"@ != "<"@
    &&& "not"@ != "<="@
    &&& "and"@ != "or"@
    &&& "and"@ != "<"@
    &&& "and"@ != "<="@
    &&& "or"@ != "<"@
    &&& "or"@ != "<="@
    &&& "<"@ != "<="@
}

proof fn reveal_literals()
    ensures
        distinct_heads(),
{
    reveal_strlit("=");
    reveal_strlit("not");
    reveal_strlit("and");
    reveal_strlit("or");
    reveal_strlit("<");
    reveal_strlit("<=");
    assert("="@.len() != "not"@.len());
    assert("="@.len() != "and"@.len());
    assert("="@.len() != "or"@.len());
    assert("="@[0] != "<"@[0]);
    assert("="@.len() != "<="@.len());
    assert("not"@[0] != "and"@[0]);
    assert("not"@.len() != "or"@.len());
    assert("not"@.len() != "<"@.len());
    assert("not"@.len() != "<="@.len());
    assert("and"@.len() != "or"@.len());
    assert("and"@.len() != "<"@.len());
    assert("and"@.len() != "<="@.len());
    assert("or"@.len() != "<"@.len());
    assert("or"@[0] != "<="@[0]);
    assert("<"@.len() != "<="@.len());
}

/// The state printed as its association list.
pub fn state_to_sexpr(state: &State) -> (r: Sexpr)
    ensures
        r@ == state_sexpr_v(state_v(state@)),
{
    let mut out: Vec<Sexpr> = Vec::new();
    let mut i: usize = 0;
    while i < state.len()
        invariant
            i <= state.len(),
            views_of(out@) == state_v(state@).take(i as int).map_values(|e: (Seq<char>, SexprV)| SexprV::List(seq![SexprV::Sym(e.0), e.1])),
        decreases state.len() - i,
    {
        let e = list2(Sexpr::Sym(state[i].0.clone()), clone_sexpr(&state[i].1));
        proof {
            lemma_views_push(out@, e);
        }
        out.push(e);
        assert(state_v(state@).take(i + 1).map_values(|e: (Seq<char>, SexprV)| SexprV::List(seq![SexprV::Sym(e.0), e.1]))
            =~= state_v(state@).take(i as int).map_values(|e: (Seq<char>, SexprV)| SexprV::List(seq![SexprV::Sym(e.0), e.1])).push(
                SexprV::List(seq![SexprV::Sym(state@[i as int].0@), state@[i as int].1@])));
        i = i + 1;
    }
    assert(state_v(state@).take(state.len() as int) =~= state_v(state@));
    Sexpr::List(out)
}

fn key_position(state: &State, name: &str) -> (r: Option<usize>)
    ensures
        r matches Some(k) ==> key_at(state_v(state@), name@, k as int),
        match key_index(state_v(state@), name@) {
            Some(k) => r == Some(k as usize),
            None => r is None,
        },
{
    let ghost sv = state_v(state@);
    let mut i: usize = 0;
    while i < state.len()
        invariant
            i <= state.len(),
            sv == state_v(state@),
            forall|j: int| 0 <= j < i ==> (#[trigger] sv[j]).0 != name@,
        decreases state.len() - i,
    {
        if str_eq(state[i].0.as_str(), name) {
            proof {
                assert(key_at(sv, name@, i as int));
                lemma_key_at_unique(sv, name@, i as int);
            }
            return Some(i);
        }
        i = i + 1;
    }
    proof {
        if exists|k: int| key_at(sv, name@, k) {
            let k = choose|k: int| key_at(sv, name@, k);
            assert(sv[k].0 == name@);
        }
    }
    None
}

fn state_lookup(state: &State, name: &str) -> (r: Option<Sexpr>)
    ensures
        opt_v(r) == lookup_v(state_v(state@), name@),
{
    match key_position(state, name) {
        Some(k) => {
            assert(state_v(state@)[k as int].1 == state@[k as int].1@);
            Some(clone_sexpr(&state[k].1))
        },
        None => None,
    }
}

fn or_nil_exec(o: Option<&Sexpr>) -> (r: Sexpr)
    ensures
        r@ == or_nil(opt_ref_v(o)),
{
    match o {
        Some(v) => clone_sexpr(v),
        None => Sexpr::List(Vec::new()),
    }
}

/// The closed expression evaluator (see `expr_v`).
pub fn eval_expr(expr: &Sexpr, state: &State, actor: Option<&Sexpr>, input: Option<&Sexpr>) -> (r: Sexpr)
    ensures
        r@ == expr_v(expr@, state_v(state@), opt_ref_v(actor), opt_ref_v(input)),
{
    match expr {
        Sexpr::Sym(s) => {
            let t = s.as_str();
            if str_eq(t, "pre") || str_eq(t, "post") {
                state_to_sexpr(state)
            } else if str_eq(t, "actor") {
                or_nil_exec(actor)
            } else if str_eq(t, "input") {
                or_nil_exec(input)
            } else if str_eq(t, "result") {
                Sexpr::sym("result-placeholder")
            } else {
                match state_lookup(state, t) {
                    Some(v) => v,
                    None => clone_sexpr(expr),
                }
            }
        },
        _ => clone_sexpr(expr),
    }
}

fn nth_arg(items: &[Sexpr], n: usize) -> (r: Sexpr)
    ensures
        r@ == nth_v(views_of(items@), n as int),
{
    proof {
        lemma_views_of(items@);
    }
    if n < items.len() {
        clone_sexpr(&items[n])
    } else {
        Sexpr::List(Vec::new())
    }
}

fn head_is(items: &[Sexpr], head: &str) -> (r: bool)
    requires
        items@.len() > 0,
    ensures
        r == (views_of(items@)[0] == SexprV::Sym(head@)),
{
    proof {
        lemma_views_of(items@);
    }
    match items[0].as_sym() {
        Some(s) => str_eq(s, head),
        None => false,
    }
}

fn compare_exec(items: &[Sexpr], state: &State, actor: Option<&Sexpr>, input: Option<&Sexpr>, strict: bool) -> (r: Verdict)
    ensures
        r == compare3(views_of(items@), state_v(state@), opt_ref_v(actor), opt_ref_v(input), strict),
{
    let x = eval_expr(&nth_arg(items, 1), state, actor, input);
    let y = eval_expr(&nth_arg(items, 2), state, actor, input);
    match (x.as_int(), y.as_int()) {
        (Some(p), Some(q)) => {
            if (strict && p < q) || (!strict && p <= q) {
                Verdict::Holds
            } else {
                Verdict::Fails
            }
        },
        _ => Verdict::Unknown,
    }
}

/// The total, closed tri-state predicate evaluator (see `pred3`).
pub fn eval_predicate3(pred: &Sexpr, state: &State, actor: Option<&Sexpr>, input: Option<&Sexpr>) -> (r: Verdict)
    ensures
        r == pred3(pred@, state_v(state@), opt_ref_v(actor), opt_ref_v(input)),
    decreases pred,
{
    let ghost st = state_v(state@);
    let ghost a = opt_ref_v(actor);
    let ghost iv = opt_ref_v(input);
    let items = match pred {
        Sexpr::List(items) => items,
        _ => {
            return Verdict::Unknown;
        },
    };
    let ghost vs = views_of(items@);
    proof {
        lemma_views_of(items@);
        assert(pred@ == SexprV::List(vs));
        reveal_literals();
    }
    if items.len() == 0 {
        return Verdict::Unknown;
    }
    if head_is(items.as_slice(), "=") {
        let x = eval_expr(&nth_arg(items.as_slice(), 1), state, actor, input);
        let y = eval_expr(&nth_arg(items.as_slice(), 2), state, actor, input);
        if sexpr_eq(&x, &y) {
            Verdict::Holds
        } else {
            Verdict::Fails
        }
    } else if head_is(items.as_slice(), "not") {
        if items.len() > 1 {
            proof {
                vstd::std_specs::vec::axiom_vec_index_decreases(*items, 1);
                assert(decreases_to!(*pred => (*pred)->List_0));
            }
            match eval_predicate3(&items[1], state, actor, input) {
                Verdict::Holds => Verdict::Fails,
                Verdict::Fails => Verdict::Holds,
                Verdict::Unknown => Verdict::Unknown,
            }
        } else {
            Verdict::Unknown
        }
    } else if head_is(items.as_slice(), "and") || head_is(items.as_slice(), "or") {
        let is_and = head_is(items.as_slice(), "and");
        let mut any_unknown = false;
        let mut k: usize = 1;
        assert(vs.skip(1) =~= vs.drop_first());
        while k < items.len()
            invariant
                1 <= k <= items.len(),
                *pred == Sexpr::List(*items),
                vs == views_of(items@),
                vs.len() == items.len(),
                pred@ == SexprV::List(vs),
                st == state_v(state@),
                a == opt_ref_v(actor),
                iv == opt_ref_v(input),
                is_and ==> vs[0] == SexprV::Sym("and"@),
                !is_and ==> vs[0] == SexprV::Sym("or"@),
                distinct_heads(),
                forall|j: int| 0 <= j < items.len() ==> #[trigger] vs[j] == items@[j]@,
                is_and ==> and3(vs.drop_first(), st, a, iv) == (if and3(vs.skip(k as int), st, a, iv) == Verdict::Fails {
                    Verdict::Fails
                } else if any_unknown {
                    Verdict::Unknown
                } else {
                    and3(vs.skip(k as int), st, a, iv)
                }),
                !is_and ==> or3(vs.drop_first(), st, a, iv) == (if or3(vs.skip(k as int), st, a, iv) == Verdict::Holds {
                    Verdict::Holds
                } else if any_unknown {
                    Verdict::Unknown
                } else {
                    or3(vs.skip(k as int), st, a, iv)
                }),
            decreases items.len() - k,
        {
            proof {
                vstd::std_specs::vec::axiom_vec_index_decreases(*items, k as int);
                assert(decreases_to!(*pred => (*pred)->List_0));
                assert(vs.skip(k as int)[0] == vs[k as int]);
                assert(vs.skip(k as int).drop_first() =~= vs.skip(k + 1));
            }
            let v = eval_predicate3(&items[k], state, actor, input);
            if is_and {
                match v {
                    Verdict::Fails => {
                        return Verdict::Fails;
                    },
                    Verdict::Unknown => {
                        any_unknown = true;
                    },
                    Verdict::Holds => {},
                }
            } else {
                match v {
                    Verdict::Holds => {
                        return Verdict::Holds;
                    },
                    Verdict::Unknown => {
                        any_unknown = true;
                    },
                    Verdict::Fails => {},
                }
            }
            k = k + 1;
        }
        assert(vs.skip(items.len() as int) =~= Seq::<SexprV>::empty());
        if is_and {
            if any_unknown { Verdict::Unknown } else { Verdict::Holds }
        } else {
            if any_unknown { Verdict::Unknown } else { Verdict::Fails }
        }
    } else if head_is(items.as_slice(), "<") {
        compare_exec(items.as_slice(), state, actor, input, true)
    } else if head_is(items.as_slice(), "<=") {
        compare_exec(items.as_slice(), state, actor, input, false)
    } else {
        Verdict::Unknown
    }
}

/// The boolean evaluator with its basis (see `basis`): the verdict, and
/// `true` in the second slot when every evaluated branch was grounded.
pub fn eval_predicate_basis(pred: &Sexpr, state: &State, actor: Option<&Sexpr>, input: Option<&Sexpr>) -> (r: (bool, bool))
    ensures
        r == basis(pred@, state_v(state@), opt_ref_v(actor), opt_ref_v(input)),
    decreases pred,
{
    let ghost st = state_v(state@);
    let ghost a = opt_ref_v(actor);
    let ghost iv = opt_ref_v(input);
    let items = match pred {
        Sexpr::List(items) => items,
        _ => {
            return (true, false);
        },
    };
    let ghost vs = views_of(items@);
    proof {
        lemma_views_of(items@);
        assert(pred@ == SexprV::List(vs));
        reveal_literals();
    }
    if items.len() == 0 {
        return (true, false);
    }
    if head_is(items.as_slice(), "not") {
        if items.len() > 1 {
            proof {
                vstd::std_specs::vec::axiom_vec_index_decreases(*items, 1);
                assert(decreases_to!(*pred => (*pred)->List_0));
            }
            let r = eval_predicate_basis(&items[1], state, actor, input);
            (!r.0, r.1)
        } else {
            (false, false)
        }
    } else if head_is(items.as_slice(), "and") || head_is(items.as_slice(), "or") {
        let is_and = head_is(items.as_slice(), "and");
        let mut checked = true;
        let mut k: usize = 1;
        assert(vs.skip(1) =~= vs.drop_first());
        while k < items.len()
            invariant
                1 <= k <= items.len(),
                *pred == Sexpr::List(*items),
                vs == views_of(items@),
                vs.len() == items.len(),
                pred@ == SexprV::List(vs),
                st == state_v(state@),
                a == opt_ref_v(actor),
                iv == opt_ref_v(input),
                is_and ==> vs[0] == SexprV::Sym("and"@),
                !is_and ==> vs[0] == SexprV::Sym("or"@),
                distinct_heads(),
                forall|j: int| 0 <= j < items.len() ==> #[trigger] vs[j] == items@[j]@,
                is_and ==> and_basis(vs.drop_first(), st, a, iv) == (
                    and_basis(vs.skip(k as int), st, a, iv).0, checked && and_basis(vs.skip(k as int), st, a, iv).1),
                !is_and ==> or_basis(vs.drop_first(), st, a, iv) == (
                    or_basis(vs.skip(k as int), st, a, iv).0, checked && or_basis(vs.skip(k as int), st, a, iv).1),
            decreases items.len() - k,
        {
            proof {
                vstd::std_specs::vec::axiom_vec_index_decreases(*items, k as int);
                assert(decreases_to!(*pred => (*pred)->List_0));
                assert(vs.skip(k as int)[0] == vs[k as int]);
                assert(vs.skip(k as int).drop_first() =~= vs.skip(k + 1));
            }
            let r = eval_predicate_basis(&items[k], state, actor, input);
            checked = checked && r.1;
            if is_and && !r.0 {
                return (false, checked);
            }
            if !is_and && r.0 {
                return (true, checked);
            }
            k = k + 1;
        }
        assert(vs.skip(items.len() as int) =~= Seq::<SexprV>::empty());
        (is_and, checked)
    } else if head_is(items.as_slice(), "=") || head_is(items.as_slice(), "<") || head_is(items.as_slice(), "<=") {
        match eval_predicate3(pred, state, actor, input) {
            Verdict::Holds => (true, true),
            Verdict::Fails => (false, true),
            Verdict::Unknown => (false, false),
        }
    } else {
        (true, false)
    }
}

/// The boolean evaluator: permissive defaults (an atom, an unknown head)
/// hold; `<` and `<=` over non-integers fail.
pub fn eval_predicate(pred: &Sexpr, state: &State, actor: Option<&Sexpr>, input: Option<&Sexpr>) -> (r: bool)
    ensures
        r == basis(pred@, state_v(state@), opt_ref_v(actor), opt_ref_v(input)).0,
{
    eval_predicate_basis(pred, state, actor, input).0
}


// ---- transitions ----

/// The reference transition extracted from one `behavior` IR node.
#[derive(Debug, PartialEq)]
pub struct Transition {
    /// The behavior node id.
    pub id: String,
    /// The operation named by `:on` (e.g. `todo_service/create_task`).
    pub operation: String,
    /// The first `:on` binder.
    pub actor: Option<String>,
    /// The second `:on` binder.
    pub input: Option<String>,
    pub reads: Vec<String>,
    pub writes: Vec<String>,
    pub atomic: Option<Sexpr>,
    pub idempotency: Option<Sexpr>,
    /// `requires` clause bodies.
    pub preconditions: Vec<Sexpr>,
    /// `ensures` clause bodies.
    pub postconditions: Vec<Sexpr>,
    /// The `returns` clause body.
    pub result: Option<Sexpr>,
    /// Whole `fails` clauses (the tail after the head).
    pub failures: Vec<Sexpr>,
    /// Whole `emits` clause tails.
    pub emissions: Vec<Sexpr>,
}

/// A transition as plain values.
pub struct TransitionV {
    pub id: Seq<char>,
    pub operation: Seq<char>,
    pub actor: Option<Seq<char>>,
    pub input: Option<Seq<char>>,
    pub reads: Seq<Seq<char>>,
    pub writes: Seq<Seq<char>>,
    pub atomic: Option<SexprV>,
    pub idempotency: Option<SexprV>,
    pub preconditions: Seq<SexprV>,
    pub postconditions: Seq<SexprV>,
    pub result: Option<SexprV>,
    pub failures: Seq<SexprV>,
    pub emissions: Seq<SexprV>,
}

pub open spec fn opt_text(o: Option<String>) -> Option<Seq<char>> {
    match o {
        Some(s) => Some(s@),
        None => None,
    }
}

impl View for Transition {
    type V = TransitionV;

    open spec fn view(&self) -> TransitionV {
        TransitionV {
            id: self.id@,
            operation: self.operation@,
            actor: opt_text(self.actor),
            input: opt_text(self.input),
            reads: texts(self.reads@),
            writes: texts(self.writes@),
            atomic: opt_v(self.atomic),
            idempotency: opt_v(self.idempotency),
            preconditions: views_of(self.preconditions@),
            postconditions: views_of(self.postconditions@),
            result: opt_v(self.result),
            failures: views_of(self.failures@),
            emissions: views_of(self.emissions@),
        }
    }
}

/// A symbol's text, or the printed form of any other value.
pub open spec fn op_text(s: SexprV) -> Seq<char> {
    match s {
        SexprV::Sym(t) => t,
        _ => print_v(s),
    }
}

pub open spec fn sym_at(items: Seq<SexprV>, k: int) -> Option<Seq<char>> {
    if 0 <= k < items.len() && items[k] is Sym {
        Some(items[k]->Sym_0)
    } else {
        None
    }
}

/// `:on` as `(operation, actor, input)`: `(iface/op binder1 binder2)`
/// gives all three; a bare atom gives the operation only.
pub open spec fn parse_on_v(on: Option<SexprV>) -> (Seq<char>, Option<Seq<char>>, Option<Seq<char>>) {
    match on {
        None => (Seq::empty(), None, None),
        Some(SexprV::List(items)) => (
            if items.len() > 0 { op_text(items[0]) } else { Seq::empty() },
            sym_at(items, 1),
            sym_at(items, 2),
        ),
        Some(other) => (op_text(other), None, None),
    }
}

/// The symbols among `items`, in order.
pub open spec fn syms_of(items: Seq<SexprV>) -> Seq<Seq<char>>
    decreases items.len(),
{
    if items.len() == 0 {
        Seq::empty()
    } else if items.last() is Sym {
        syms_of(items.drop_last()).push(items.last()->Sym_0)
    } else {
        syms_of(items.drop_last())
    }
}

/// `:reads`/`:writes`: the symbols of a list, or a bare symbol as a
/// one-item list.
pub open spec fn string_list_v(v: Option<SexprV>) -> Seq<Seq<char>> {
    match v {
        Some(SexprV::List(items)) => syms_of(items),
        Some(SexprV::Sym(s)) => seq![s],
        _ => Seq::empty(),
    }
}

pub open spec fn clause_head_v(c: SexprV, head: Seq<char>) -> bool {
    c is List && c->List_0.len() > 0 && c->List_0[0] == SexprV::Sym(head)
}

pub open spec fn clause_tail_v(c: SexprV) -> Seq<SexprV> {
    if c is List && c->List_0.len() > 0 {
        c->List_0.drop_first()
    } else {
        Seq::empty()
    }
}

/// The body of a one-predicate clause, or the whole clause when its tail
/// is not exactly one item.
pub open spec fn clause_body(c: SexprV) -> SexprV {
    if clause_tail_v(c).len() == 1 {
        clause_tail_v(c)[0]
    } else {
        c
    }
}

/// The bodies of the clauses headed `head`, in order.
pub open spec fn single_pred_v(cs: Seq<SexprV>, head: Seq<char>) -> Seq<SexprV>
    decreases cs.len(),
{
    if cs.len() == 0 {
        Seq::empty()
    } else if clause_head_v(cs.last(), head) {
        single_pred_v(cs.drop_last(), head).push(clause_body(cs.last()))
    } else {
        single_pred_v(cs.drop_last(), head)
    }
}

/// The body of the first `returns` clause.
pub open spec fn result_v(cs: Seq<SexprV>) -> Option<SexprV>
    decreases cs.len(),
{
    if cs.len() == 0 {
        None
    } else if clause_head_v(cs[0], "returns"@) {
        Some(clause_body(cs[0]))
    } else {
        result_v(cs.drop_first())
    }
}

/// The tails of the clauses headed `head`, each as a list, in order.
pub open spec fn tail_field_v(cs: Seq<SexprV>, head: Seq<char>) -> Seq<SexprV>
    decreases cs.len(),
{
    if cs.len() == 0 {
        Seq::empty()
    } else if clause_head_v(cs.last(), head) {
        tail_field_v(cs.drop_last(), head).push(SexprV::List(clause_tail_v(cs.last())))
    } else {
        tail_field_v(cs.drop_last(), head)
    }
}

/// The transition of a node.
pub open spec fn extract_v(node: IrNode) -> TransitionV {
    let on = parse_on_v(first_field(node.fields@, ":on"@));
    let cs = views_of(node.clauses@);
    TransitionV {
        id: node.id@,
        operation: on.0,
        actor: on.1,
        input: on.2,
        reads: string_list_v(first_field(node.fields@, ":reads"@)),
        writes: string_list_v(first_field(node.fields@, ":writes"@)),
        atomic: first_field(node.fields@, ":atomic"@),
        idempotency: first_field(node.fields@, ":idempotency"@),
        preconditions: single_pred_v(cs, "requires"@),
        postconditions: single_pred_v(cs, "ensures"@),
        result: result_v(cs),
        failures: tail_field_v(cs, "fails"@),
        emissions: tail_field_v(cs, "emits"@),
    }
}

fn op_text_exec(s: &Sexpr) -> (r: String)
    ensures
        r@ == op_text(s@),
{
    match s.as_sym() {
        Some(t) => owned(t),
        None => s.print(),
    }
}

fn sym_at_exec(items: &[Sexpr], k: usize) -> (r: Option<String>)
    ensures
        opt_text(r) == sym_at(views_of(items@), k as int),
{
    proof {
        lemma_views_of(items@);
    }
    if k < items.len() {
        match items[k].as_sym() {
            Some(t) => Some(owned(t)),
            None => None,
        }
    } else {
        None
    }
}

fn parse_on_spec(on_spec: Option<&Sexpr>) -> (r: (String, Option<String>, Option<String>))
    ensures
        (r.0@, opt_text(r.1), opt_text(r.2)) == parse_on_v(opt_ref_v(on_spec)),
{
    match on_spec {
        None => (String::new(), None, None),
        Some(v) => match v {
            Sexpr::List(items) => {
                proof {
                    lemma_views_of(items@);
                }
                let op = if items.len() > 0 {
                    op_text_exec(&items[0])
                } else {
                    String::new()
                };
                (op, sym_at_exec(items.as_slice(), 1), sym_at_exec(items.as_slice(), 2))
            },
            _ => (op_text_exec(v), None, None),
        },
    }
}

fn extract_string_list(v: Option<&Sexpr>) -> (r: Vec<String>)
    ensures
        texts(r@) == string_list_v(opt_ref_v(v)),
{
    match v {
        None => Vec::new(),
        Some(Sexpr::List(items)) => {
            let ghost vs = views_of(items@);
            proof {
                lemma_views_of(items@);
            }
            let mut out: Vec<String> = Vec::new();
            let mut i: usize = 0;
            while i < items.len()
                invariant
                    i <= items.len(),
                    vs == views_of(items@),
                    vs.len() == items.len(),
                    forall|j: int| 0 <= j < items.len() ==> #[trigger] vs[j] == items@[j]@,
                    texts(out@) == syms_of(vs.take(i as int)),
                decreases items.len() - i,
            {
                proof {
                    assert(vs.take(i + 1).drop_last() =~= vs.take(i as int));
                    assert(vs.take(i + 1).last() == vs[i as int]);
                }
                match items[i].as_sym() {
                    Some(t) => {
                        let ghost before = texts(out@);
                        out.push(owned(t));
                        assert(texts(out@) =~= before.push(t@));
                    },
                    None => {},
                }
                i = i + 1;
            }
            assert(vs.take(items.len() as int) =~= vs);
            out
        },
        Some(Sexpr::Sym(t)) => {
            let r = vec![t.clone()];
            assert(texts(r@) =~= seq![t@]);
            r
        },
        Some(_) => Vec::new(),
    }
}

/// The tail of a clause list: every item after the head (nothing for a
/// non-list or an empty list).
pub fn clause_tail(clause: &Sexpr) -> (r: &[Sexpr])
    ensures
        views_of(r@) == clause_tail_v(clause@),
{
    match clause {
        Sexpr::List(items) => {
            proof {
                lemma_views_of(items@);
            }
            if items.len() > 0 {
                let t = items.as_slice().split_at(1).1;
                proof {
                    lemma_views_of(t@);
                    assert(views_of(t@) =~= views_of(items@).drop_first());
                }
                t
            } else {
                let e: &[Sexpr] = &[];
                assert(views_of(e@) =~= Seq::<SexprV>::empty());
                e
            }
        },
        _ => {
            let e: &[Sexpr] = &[];
            assert(views_of(e@) =~= Seq::<SexprV>::empty());
            e
        },
    }
}

/// Whether `clause` is a list headed by the symbol `head`.
pub fn clause_head_is(clause: &Sexpr, head: &str) -> (r: bool)
    ensures
        r == clause_head_v(clause@, head@),
{
    match clause {
        Sexpr::List(items) => {
            proof {
                lemma_views_of(items@);
            }
            if items.len() > 0 {
                match items[0].as_sym() {
                    Some(s) => str_eq(s, head),
                    None => false,
                }
            } else {
                false
            }
        },
        _ => false,
    }
}

fn clause_body_exec(clause: &Sexpr) -> (r: Sexpr)
    ensures
        r@ == clause_body(clause@),
{
    let tail = clause_tail(clause);
    proof {
        lemma_views_of(tail@);
    }
    if tail.len() == 1 {
        clone_sexpr(&tail[0])
    } else {
        clone_sexpr(clause)
    }
}

fn single_pred_field(clauses: &[Sexpr], head: &str) -> (r: Vec<Sexpr>)
    ensures
        views_of(r@) == single_pred_v(views_of(clauses@), head@),
{
    let ghost cv = views_of(clauses@);
    proof {
        lemma_views_of(clauses@);
    }
    let mut out: Vec<Sexpr> = Vec::new();
    let mut i: usize = 0;
    while i < clauses.len()
        invariant
            i <= clauses.len(),
            cv == views_of(clauses@),
            cv.len() == clauses.len(),
            forall|j: int| 0 <= j < clauses.len() ==> #[trigger] cv[j] == clauses@[j]@,
            views_of(out@) == single_pred_v(cv.take(i as int), head@),
        decreases clauses.len() - i,
    {
        proof {
            assert(cv.take(i + 1).drop_last() =~= cv.take(i as int));
            assert(cv.take(i + 1).last() == cv[i as int]);
        }
        if clause_head_is(&clauses[i], head) {
            let b = clause_body_exec(&clauses[i]);
            proof {
                lemma_views_push(out@, b);
            }
            out.push(b);
        }
        i = i + 1;
    }
    assert(cv.take(clauses.len() as int) =~= cv);
    out
}

fn extract_result(clauses: &[Sexpr]) -> (r: Option<Sexpr>)
    ensures
        opt_v(r) == result_v(views_of(clauses@)),
{
    let ghost cv = views_of(clauses@);
    proof {
        lemma_views_of(clauses@);
    }
    let mut i: usize = 0;
    assert(cv.skip(0) =~= cv);
    while i < clauses.len()
        invariant
            i <= clauses.len(),
            cv == views_of(clauses@),
            cv.len() == clauses.len(),
            forall|j: int| 0 <= j < clauses.len() ==> #[trigger] cv[j] == clauses@[j]@,
            result_v(cv) == result_v(cv.skip(i as int)),
        decreases clauses.len() - i,
    {
        proof {
            assert(cv.skip(i as int)[0] == cv[i as int]);
            assert(cv.skip(i as int).drop_first() =~= cv.skip(i + 1));
        }
        if clause_head_is(&clauses[i], "returns") {
            return Some(clause_body_exec(&clauses[i]));
        }
        i = i + 1;
    }
    None
}

fn tail_field(clauses: &[Sexpr], head: &str) -> (r: Vec<Sexpr>)
    ensures
        views_of(r@) == tail_field_v(views_of(clauses@), head@),
{
    let ghost cv = views_of(clauses@);
    proof {
        lemma_views_of(clauses@);
    }
    let mut out: Vec<Sexpr> = Vec::new();
    let mut i: usize = 0;
    while i < clauses.len()
        invariant
            i <= clauses.len(),
            cv == views_of(clauses@),
            cv.len() == clauses.len(),
            forall|j: int| 0 <= j < clauses.len() ==> #[trigger] cv[j] == clauses@[j]@,
            views_of(out@) == tail_field_v(cv.take(i as int), head@),
        decreases clauses.len() - i,
    {
        proof {
            assert(cv.take(i + 1).drop_last() =~= cv.take(i as int));
            assert(cv.take(i + 1).last() == cv[i as int]);
        }
        if clause_head_is(&clauses[i], head) {
            let tail = clause_tail(&clauses[i]);
            let t = Sexpr::List(clone_all(tail));
            proof {
                lemma_views_push(out@, t);
            }
            out.push(t);
        }
        i = i + 1;
    }
    assert(cv.take(clauses.len() as int) =~= cv);
    out
}

/// A copy of each value.
pub fn clone_all(v: &[Sexpr]) -> (r: Vec<Sexpr>)
    ensures
        views_of(r@) == views_of(v@),
{
    let mut out: Vec<Sexpr> = Vec::new();
    let mut i: usize = 0;
    while i < v.len()
        invariant
            i <= v.len(),
            views_of(out@) == views_of(v@.take(i as int)),
        decreases v.len() - i,
    {
        let e = clone_sexpr(&v[i]);
        proof {
            lemma_views_push(out@, e);
            lemma_views_push(v@.take(i as int), v@[i as int]);
            assert(v@.take(i + 1) =~= v@.take(i as int).push(v@[i as int]));
        }
        out.push(e);
        i = i + 1;
    }
    assert(v@.take(v.len() as int) =~= v@);
    out
}

fn clone_opt(o: Option<&Sexpr>) -> (r: Option<Sexpr>)
    ensures
        opt_v(r) == opt_ref_v(o),
{
    match o {
        Some(v) => Some(clone_sexpr(v)),
        None => None,
    }
}

/// Extracts one `Transition` from a `behavior` IR node. Total over any
/// node: a node missing every expected field gives a mostly empty
/// transition.
pub fn extract_transition(node: &IrNode) -> (r: Transition)
    ensures
        r@ == extract_v(*node),
{
    let (operation, actor, input) = parse_on_spec(node.field(":on"));
    let reads = extract_string_list(node.field(":reads"));
    let writes = extract_string_list(node.field(":writes"));
    let atomic = clone_opt(node.field(":atomic"));
    let idempotency = clone_opt(node.field(":idempotency"));
    let preconditions = single_pred_field(node.clauses.as_slice(), "requires");
    let postconditions = single_pred_field(node.clauses.as_slice(), "ensures");
    let result = extract_result(node.clauses.as_slice());
    let failures = tail_field(node.clauses.as_slice(), "fails");
    let emissions = tail_field(node.clauses.as_slice(), "emits");
    Transition {
        id: node.id.clone(),
        operation,
        actor,
        input,
        reads,
        writes,
        atomic,
        idempotency,
        preconditions,
        postconditions,
        result,
        failures,
        emissions,
    }
}

/// The transitions of the `behavior` nodes, in `all_nodes` order.
pub open spec fn transitions_v(ir: Ir) -> Seq<TransitionV> {
    nodes_with_kind(all_nodes_v(ir), "behavior"@).map_values(|n: IrNode| extract_v(n))
}

/// All `behavior`-kind nodes, in `all_nodes` order, each lowered to a
/// `Transition`.
pub fn extract_transitions(ir: &Ir) -> (r: Vec<Transition>)
    ensures
        r@.map_values(|t: Transition| t@) == transitions_v(*ir),
{
    let ns = ir.nodes_of_kind("behavior");
    let ghost nv = ns@.map_values(|n: &IrNode| *n);
    let mut out: Vec<Transition> = Vec::new();
    let mut i: usize = 0;
    while i < ns.len()
        invariant
            i <= ns.len(),
            nv == ns@.map_values(|n: &IrNode| *n),
            nv == nodes_with_kind(all_nodes_v(*ir), "behavior"@),
            out@.map_values(|t: Transition| t@) == nv.take(i as int).map_values(|n: IrNode| extract_v(n)),
        decreases ns.len() - i,
    {
        let t = extract_transition(ns[i]);
        let ghost before = out@.map_values(|t: Transition| t@);
        out.push(t);
        assert(out@.map_values(|t: Transition| t@) =~= before.push(extract_v(nv[i as int])));
        assert(nv.take(i + 1).map_values(|n: IrNode| extract_v(n)) =~= nv.take(i as int).map_values(|n: IrNode| extract_v(n)).push(extract_v(nv[i as int])));
        i = i + 1;
    }
    assert(nv.take(ns.len() as int) =~= nv);
    out
}

// ---- the reference state machine ----

/// The initial value of a state node: `:initial empty` (or no
/// `:initial`) is `nil`; any other value is carried verbatim.
pub open spec fn init_value(o: Option<SexprV>) -> SexprV {
    match o {
        Some(SexprV::Sym(s)) => if s == "empty"@ { nil_v() } else { SexprV::Sym(s) },
        Some(v) => v,
        None => nil_v(),
    }
}

pub open spec fn init_state_v(ir: Ir) -> Seq<(Seq<char>, SexprV)> {
    nodes_with_kind(all_nodes_v(ir), "state"@).map_values(
        |n: IrNode| (n.name@, init_value(first_field(n.fields@, ":initial"@))))
}

/// One entry per `state` node, in `all_nodes` order.
pub fn make_initial_state(ir: &Ir) -> (r: State)
    ensures
        state_v(r@) == init_state_v(*ir),
{
    let ns = ir.nodes_of_kind("state");
    let ghost nv = ns@.map_values(|n: &IrNode| *n);
    let mut out: State = Vec::new();
    let mut i: usize = 0;
    while i < ns.len()
        invariant
            i <= ns.len(),
            nv == ns@.map_values(|n: &IrNode| *n),
            nv == nodes_with_kind(all_nodes_v(*ir), "state"@),
            state_v(out@) == nv.take(i as int).map_values(
                |n: IrNode| (n.name@, init_value(first_field(n.fields@, ":initial"@)))),
        decreases ns.len() - i,
    {
        let node = ns[i];
        let value = match node.field(":initial") {
            Some(v) => match v {
                Sexpr::Sym(t) => {
                    if str_eq(t.as_str(), "empty") {
                        Sexpr::List(Vec::new())
                    } else {
                        clone_sexpr(v)
                    }
                },
                _ => clone_sexpr(v),
            },
            None => Sexpr::List(Vec::new()),
        };
        let ghost before = state_v(out@);
        out.push((node.name.clone(), value));
        assert(state_v(out@) =~= before.push((nv[i as int].name@, init_value(first_field(nv[i as int].fields@, ":initial"@)))));
        assert(nv.take(i + 1).map_values(|n: IrNode| (n.name@, init_value(first_field(n.fields@, ":initial"@))))
            =~= nv.take(i as int).map_values(|n: IrNode| (n.name@, init_value(first_field(n.fields@, ":initial"@)))).push(
                (nv[i as int].name@, init_value(first_field(nv[i as int].fields@, ":initial"@)))));
        i = i + 1;
    }
    assert(nv.take(ns.len() as int) =~= nv);
    out
}

/// A copy of a state.
pub fn clone_state(s: &State) -> (r: State)
    ensures
        state_v(r@) == state_v(s@),
{
    let mut out: State = Vec::new();
    let mut i: usize = 0;
    while i < s.len()
        invariant
            i <= s.len(),
            state_v(out@) == state_v(s@).take(i as int),
        decreases s.len() - i,
    {
        let ghost before = state_v(out@);
        out.push((s[i].0.clone(), clone_sexpr(&s[i].1)));
        assert(state_v(out@) =~= before.push((s@[i as int].0@, s@[i as int].1@)));
        assert(state_v(s@).take(i + 1) =~= state_v(s@).take(i as int).push(state_v(s@)[i as int]));
        i = i + 1;
    }
    assert(state_v(s@).take(s.len() as int) =~= state_v(s@));
    out
}

/// One step of a trace.
#[derive(Debug, PartialEq)]
pub struct TraceStep {
    /// `"unknown"` when no transition matched.
    pub transition_id: String,
    pub actor: Option<Sexpr>,
    pub input: Option<Sexpr>,
    pub pre_state: State,
    pub post_state: State,
    pub result: Option<Sexpr>,
    /// `(succeeded)`, `(failed <error>)`, `(precondition-failed)`,
    /// `(no-matching-transition <op>)` or `(ambiguous-operation <op>)`.
    pub outcome: Sexpr,
    /// Whether any guard evaluated for this step rested on a permissive
    /// (unchecked) default.
    pub symbolic: bool,
}

/// A trace step as plain values.
pub struct StepV {
    pub transition_id: Seq<char>,
    pub actor: Option<SexprV>,
    pub input: Option<SexprV>,
    pub pre_state: Seq<(Seq<char>, SexprV)>,
    pub post_state: Seq<(Seq<char>, SexprV)>,
    pub result: Option<SexprV>,
    pub outcome: SexprV,
    pub symbolic: bool,
}

impl View for TraceStep {
    type V = StepV;

    open spec fn view(&self) -> StepV {
        StepV {
            transition_id: self.transition_id@,
            actor: opt_v(self.actor),
            input: opt_v(self.input),
            pre_state: state_v(self.pre_state@),
            post_state: state_v(self.post_state@),
            result: opt_v(self.result),
            outcome: self.outcome@,
            symbolic: self.symbolic,
        }
    }
}

pub open spec fn list_items_v(f: SexprV) -> Seq<SexprV> {
    match f {
        SexprV::List(xs) => xs,
        _ => Seq::empty(),
    }
}

/// The value after the first occurrence of the symbol `key`.
pub open spec fn kw_value(items: Seq<SexprV>, key: Seq<char>) -> Option<SexprV>
    decreases items.len(),
{
    if items.len() == 0 {
        None
    } else if items[0] == SexprV::Sym(key) {
        if items.len() > 1 { Some(items[1]) } else { None }
    } else {
        kw_value(items.drop_first(), key)
    }
}

/// The first failure clause whose `:when` is present and holds, and
/// whether any guard evaluated on the way was symbolic.
pub open spec fn fail_match(fs: Seq<SexprV>, st: Seq<(Seq<char>, SexprV)>, a: Option<SexprV>, i: Option<SexprV>) -> (Option<SexprV>, bool)
    decreases fs.len(),
{
    if fs.len() == 0 {
        (None, false)
    } else {
        match kw_value(list_items_v(fs[0]), ":when"@) {
            Some(p) => {
                let b = basis(p, st, a, i);
                if b.0 {
                    (Some(fs[0]), !b.1)
                } else {
                    let r = fail_match(fs.drop_first(), st, a, i);
                    (r.0, !b.1 || r.1)
                }
            },
            None => fail_match(fs.drop_first(), st, a, i),
        }
    }
}

/// Whether every precondition holds (stopping at the first that does
/// not), and whether any evaluated one was symbolic.
pub open spec fn pre_hold(ps: Seq<SexprV>, st: Seq<(Seq<char>, SexprV)>, a: Option<SexprV>, i: Option<SexprV>) -> (bool, bool)
    decreases ps.len(),
{
    if ps.len() == 0 {
        (true, false)
    } else {
        let b = basis(ps[0], st, a, i);
        if !b.0 {
            (false, !b.1)
        } else {
            let r = pre_hold(ps.drop_first(), st, a, i);
            (r.0, !b.1 || r.1)
        }
    }
}

/// Appends `val` to the collection under `w` (a fresh `(w (val))` entry
/// when there is none; a non-list value counts as empty).
pub open spec fn write_one(st: Seq<(Seq<char>, SexprV)>, w: Seq<char>, val: SexprV) -> Seq<(Seq<char>, SexprV)> {
    let items = match lookup_v(st, w) {
        Some(SexprV::List(xs)) => xs,
        _ => Seq::empty(),
    };
    let nv = SexprV::List(items.push(val));
    match key_index(st, w) {
        Some(k) => st.update(k, (w, nv)),
        None => st.push((w, nv)),
    }
}

pub open spec fn apply_writes(st: Seq<(Seq<char>, SexprV)>, ws: Seq<Seq<char>>, val: SexprV) -> Seq<(Seq<char>, SexprV)>
    decreases ws.len(),
{
    if ws.len() == 0 {
        st
    } else {
        write_one(apply_writes(st, ws.drop_last(), val), ws.last(), val)
    }
}

pub open spec fn first_or_nil(f: SexprV) -> SexprV {
    if f is List && f->List_0.len() > 0 {
        f->List_0[0]
    } else {
        nil_v()
    }
}

/// One transition applied to a state, in the reference order: the first
/// failure clause whose `:when` holds gives `(failed <error>)` and an
/// unchanged state; else, when every precondition holds, each `writes`
/// entry gets the input appended and the step `(succeeded)` with the
/// input as result; else `(precondition-failed)`.
pub open spec fn apply_v(t: TransitionV, st: Seq<(Seq<char>, SexprV)>, a: Option<SexprV>, i: Option<SexprV>) -> StepV {
    let fm = fail_match(t.failures, st, a, i);
    match fm.0 {
        Some(f) => StepV {
            transition_id: t.id,
            actor: a,
            input: i,
            pre_state: st,
            post_state: st,
            result: None,
            outcome: SexprV::List(seq![SexprV::Sym("failed"@), first_or_nil(f)]),
            symbolic: fm.1,
        },
        None => {
            let ph = pre_hold(t.preconditions, st, a, i);
            if ph.0 {
                StepV {
                    transition_id: t.id,
                    actor: a,
                    input: i,
                    pre_state: st,
                    post_state: apply_writes(st, t.writes, or_nil(i)),
                    result: Some(or_nil(i)),
                    outcome: SexprV::List(seq![SexprV::Sym("succeeded"@)]),
                    symbolic: fm.1 || ph.1,
                }
            } else {
                StepV {
                    transition_id: t.id,
                    actor: a,
                    input: i,
                    pre_state: st,
                    post_state: st,
                    result: None,
                    outcome: SexprV::List(seq![SexprV::Sym("precondition-failed"@)]),
                    symbolic: fm.1 || ph.1,
                }
            }
        },
    }
}

/// The value after the first occurrence of the symbol `key` in `items`.
pub fn keyword_value<'a>(items: &'a [Sexpr], key: &str) -> (r: Option<&'a Sexpr>)
    ensures
        match kw_value(views_of(items@), key@) {
            Some(v) => r is Some && r->0@ == v,
            None => r is None,
        },
{
    let ghost iv = views_of(items@);
    proof {
        lemma_views_of(items@);
    }
    let mut k: usize = 0;
    assert(iv.skip(0) =~= iv);
    while k < items.len()
        invariant
            k <= items.len(),
            iv == views_of(items@),
            iv.len() == items.len(),
            forall|j: int| 0 <= j < items.len() ==> #[trigger] iv[j] == items@[j]@,
            kw_value(iv, key@) == kw_value(iv.skip(k as int), key@),
        decreases items.len() - k,
    {
        proof {
            assert(iv.skip(k as int)[0] == iv[k as int]);
            assert(iv.skip(k as int).drop_first() =~= iv.skip(k + 1));
        }
        match items[k].as_sym() {
            Some(s) => {
                if str_eq(s, key) {
                    if k + 1 < items.len() {
                        assert(iv.skip(k as int)[1] == iv[k + 1]);
                        return Some(&items[k + 1]);
                    } else {
                        return None;
                    }
                }
            },
            None => {},
        }
        k = k + 1;
    }
    None
}

fn list_slice(v: &Sexpr) -> (r: &[Sexpr])
    ensures
        views_of(r@) == list_items_v(v@),
{
    match v {
        Sexpr::List(items) => items.as_slice(),
        _ => {
            let e: &[Sexpr] = &[];
            assert(views_of(e@) =~= Seq::<SexprV>::empty());
            e
        },
    }
}

fn find_matching_failure_with_basis<'a>(
    failures: &'a [Sexpr],
    state: &State,
    actor: Option<&Sexpr>,
    input: Option<&Sexpr>,
) -> (r: (Option<&'a Sexpr>, bool))
    ensures
        opt_ref_v(r.0) == fail_match(views_of(failures@), state_v(state@), opt_ref_v(actor), opt_ref_v(input)).0,
        r.1 == fail_match(views_of(failures@), state_v(state@), opt_ref_v(actor), opt_ref_v(input)).1,
{
    let ghost fv = views_of(failures@);
    let ghost st = state_v(state@);
    let ghost a = opt_ref_v(actor);
    let ghost iv = opt_ref_v(input);
    proof {
        lemma_views_of(failures@);
    }
    let mut symbolic = false;
    let mut k: usize = 0;
    assert(fv.skip(0) =~= fv);
    while k < failures.len()
        invariant
            k <= failures.len(),
            fv == views_of(failures@),
            fv.len() == failures.len(),
            st == state_v(state@),
            a == opt_ref_v(actor),
            iv == opt_ref_v(input),
            forall|j: int| 0 <= j < failures.len() ==> #[trigger] fv[j] == failures@[j]@,
            fail_match(fv, st, a, iv) == (fail_match(fv.skip(k as int), st, a, iv).0, symbolic || fail_match(fv.skip(k as int), st, a, iv).1),
        decreases failures.len() - k,
    {
        proof {
            assert(fv.skip(k as int)[0] == fv[k as int]);
            assert(fv.skip(k as int).drop_first() =~= fv.skip(k + 1));
        }
        let items = list_slice(&failures[k]);
        match keyword_value(items, ":when") {
            Some(pred) => {
                let (holds, checked) = eval_predicate_basis(pred, state, actor, input);
                symbolic = symbolic || !checked;
                if holds {
                    return (Some(&failures[k]), symbolic);
                }
            },
            None => {},
        }
        k = k + 1;
    }
    (None, symbolic)
}

fn preconditions_hold_with_basis(
    preconditions: &[Sexpr],
    state: &State,
    actor: Option<&Sexpr>,
    input: Option<&Sexpr>,
) -> (r: (bool, bool))
    ensures
        r == pre_hold(views_of(preconditions@), state_v(state@), opt_ref_v(actor), opt_ref_v(input)),
{
    let ghost pv = views_of(preconditions@);
    let ghost st = state_v(state@);
    let ghost a = opt_ref_v(actor);
    let ghost iv = opt_ref_v(input);
    proof {
        lemma_views_of(preconditions@);
    }
    let mut symbolic = false;
    let mut k: usize = 0;
    assert(pv.skip(0) =~= pv);
    while k < preconditions.len()
        invariant
            k <= preconditions.len(),
            pv == views_of(preconditions@),
            pv.len() == preconditions.len(),
            st == state_v(state@),
            a == opt_ref_v(actor),
            iv == opt_ref_v(input),
            forall|j: int| 0 <= j < preconditions.len() ==> #[trigger] pv[j] == preconditions@[j]@,
            pre_hold(pv, st, a, iv) == (pre_hold(pv.skip(k as int), st, a, iv).0, symbolic || pre_hold(pv.skip(k as int), st, a, iv).1),
        decreases preconditions.len() - k,
    {
        proof {
            assert(pv.skip(k as int)[0] == pv[k as int]);
            assert(pv.skip(k as int).drop_first() =~= pv.skip(k + 1));
        }
        let (holds, checked) = eval_predicate_basis(&preconditions[k], state, actor, input);
        symbolic = symbolic || !checked;
        if !holds {
            return (false, symbolic);
        }
        k = k + 1;
    }
    (true, symbolic)
}

fn write_entry(post: &mut State, w: &String, val: &Sexpr)
    ensures
        state_v(final(post)@) == write_one(state_v(old(post)@), w@, val@),
{
    let existing = state_lookup(post, w.as_str());
    let mut items: Vec<Sexpr> = match existing {
        Some(Sexpr::List(items)) => items,
        _ => Vec::new(),
    };
    let v = clone_sexpr(val);
    proof {
        lemma_views_push(items@, v);
    }
    items.push(v);
    let nv = Sexpr::List(items);
    match key_position(post, w.as_str()) {
        Some(k) => {
            let ghost old_v = state_v(post@);
            post.set(k, (w.clone(), nv));
            assert(state_v(post@) =~= old_v.update(k as int, (w@, nv@)));
        },
        None => {
            let ghost old_v = state_v(post@);
            post.push((w.clone(), nv));
            assert(state_v(post@) =~= old_v.push((w@, nv@)));
        },
    }
}

fn opt_clone(o: Option<&Sexpr>) -> (r: Option<Sexpr>)
    ensures
        opt_v(r) == opt_ref_v(o),
{
    match o {
        Some(v) => Some(clone_sexpr(v)),
        None => None,
    }
}

/// Applies one transition to `state` (see `apply_v`).
pub fn apply_transition(t: &Transition, state: &State, actor: Option<&Sexpr>, input: Option<&Sexpr>) -> (r: TraceStep)
    ensures
        r@ == apply_v(t@, state_v(state@), opt_ref_v(actor), opt_ref_v(input)),
{
    let (matched_failure, failure_symbolic) = find_matching_failure_with_basis(t.failures.as_slice(), state, actor, input);
    if let Some(failure) = matched_failure {
        let error_name = match failure {
            Sexpr::List(items) => {
                proof {
                    lemma_views_of(items@);
                }
                if items.len() > 0 {
                    clone_sexpr(&items[0])
                } else {
                    Sexpr::List(Vec::new())
                }
            },
            _ => Sexpr::List(Vec::new()),
        };
        return TraceStep {
            transition_id: t.id.clone(),
            actor: opt_clone(actor),
            input: opt_clone(input),
            pre_state: clone_state(state),
            post_state: clone_state(state),
            result: None,
            outcome: list2(Sexpr::sym("failed"), error_name),
            symbolic: failure_symbolic,
        };
    }
    let (preconditions_hold, precondition_symbolic) =
        preconditions_hold_with_basis(t.preconditions.as_slice(), state, actor, input);
    let symbolic = failure_symbolic || precondition_symbolic;
    if preconditions_hold {
        let input_val = or_nil_exec(input);
        let mut post = clone_state(state);
        let mut i: usize = 0;
        while i < t.writes.len()
            invariant
                i <= t.writes.len(),
                state_v(post@) == apply_writes(state_v(state@), texts(t.writes@).take(i as int), input_val@),
            decreases t.writes.len() - i,
        {
            proof {
                assert(texts(t.writes@).take(i + 1).drop_last() =~= texts(t.writes@).take(i as int));
            }
            write_entry(&mut post, &t.writes[i], &input_val);
            i = i + 1;
        }
        assert(texts(t.writes@).take(t.writes.len() as int) =~= texts(t.writes@));
        return TraceStep {
            transition_id: t.id.clone(),
            actor: opt_clone(actor),
            input: opt_clone(input),
            pre_state: clone_state(state),
            post_state: post,
            result: Some(input_val),
            outcome: list1(Sexpr::sym("succeeded")),
            symbolic,
        };
    }
    TraceStep {
        transition_id: t.id.clone(),
        actor: opt_clone(actor),
        input: opt_clone(input),
        pre_state: clone_state(state),
        post_state: clone_state(state),
        result: None,
        outcome: list1(Sexpr::sym("precondition-failed")),
        symbolic,
    }
}

// ---- traces ----

/// The most steps a trace executes.
pub const TRACE_BOUND: usize = 1000;

/// A bounded run of steps.
#[derive(Debug, PartialEq)]
pub struct Trace {
    pub steps: Vec<TraceStep>,
    pub violations: Vec<Sexpr>,
    pub final_state: State,
}

pub open spec fn opt_at(xs: Seq<SexprV>, k: int) -> Option<SexprV> {
    if 0 <= k < xs.len() {
        Some(xs[k])
    } else {
        None
    }
}

/// A step `(op actor input)` (or `(op (actor input))`) as
/// `(op, actor, input)`; a non-list step is its printed form.
pub open spec fn parse_step_v(step: SexprV) -> (Seq<char>, Option<SexprV>, Option<SexprV>) {
    match step {
        SexprV::List(items) => {
            let op = if items.len() > 0 { op_text(items[0]) } else { Seq::empty() };
            if items.len() > 1 {
                match items[1] {
                    SexprV::List(inner) => (op, opt_at(inner, 0), opt_at(inner, 1)),
                    other => (op, Some(other), opt_at(items, 2)),
                }
            } else {
                (op, None, None)
            }
        },
        _ => (print_v(step), None, None),
    }
}

/// A step op `s` reaches an operation `op` when they are equal or `op`
/// ends with `/` followed by `s`.
pub open spec fn op_matches(op: Seq<char>, s: Seq<char>) -> bool {
    op == s || (op.len() > s.len() && is_suffix(s, op) && op[op.len() - s.len() - 1] == '/')
}

/// The transitions whose operation the step op reaches, in order.
pub open spec fn matching_v(ts: Seq<TransitionV>, s: Seq<char>) -> Seq<TransitionV>
    decreases ts.len(),
{
    if ts.len() == 0 {
        Seq::empty()
    } else if op_matches(ts.last().operation, s) {
        matching_v(ts.drop_last(), s).push(ts.last())
    } else {
        matching_v(ts.drop_last(), s)
    }
}

pub open spec fn no_match_v(op: Seq<char>) -> SexprV {
    SexprV::List(seq![
        SexprV::Sym("violation"@),
        SexprV::List(seq![SexprV::Sym("type"@), SexprV::Sym("no-matching-transition"@)]),
        SexprV::List(seq![SexprV::Sym("operation"@), SexprV::Sym(op)]),
    ])
}

pub open spec fn ambiguous_v(op: Seq<char>, candidates: Seq<Seq<char>>) -> SexprV {
    SexprV::List(seq![
        SexprV::Sym("violation"@),
        SexprV::List(seq![SexprV::Sym("type"@), SexprV::Sym("ambiguous-operation"@)]),
        SexprV::List(seq![SexprV::Sym("operation"@), SexprV::Sym(op)]),
        SexprV::List(seq![SexprV::Sym("candidates"@), SexprV::List(candidates.map_values(|c: Seq<char>| SexprV::Sym(c)))]),
    ])
}

/// `(violation (invariant "id") (predicate p) (state ...))`.
pub open spec fn inv_violation_v(id: Seq<char>, always: SexprV, st: Seq<(Seq<char>, SexprV)>) -> SexprV {
    SexprV::List(seq![
        SexprV::Sym("violation"@),
        SexprV::List(seq![SexprV::Sym("invariant"@), SexprV::Str(id)]),
        SexprV::List(seq![SexprV::Sym("predicate"@), always]),
        SexprV::List(seq![SexprV::Sym("state"@), state_sexpr_v(st)]),
    ])
}

/// One violation per invariant node whose `:always` predicate fails.
pub open spec fn inv_violations(invs: Seq<IrNode>, st: Seq<(Seq<char>, SexprV)>) -> Seq<SexprV>
    decreases invs.len(),
{
    if invs.len() == 0 {
        Seq::empty()
    } else {
        let always = or_nil(first_field(invs.last().fields@, ":always"@));
        if basis(always, st, None, None).0 {
            inv_violations(invs.drop_last(), st)
        } else {
            inv_violations(invs.drop_last(), st).push(inv_violation_v(invs.last().id@, always, st))
        }
    }
}

pub open spec fn invariant_nodes(ir: Ir) -> Seq<IrNode> {
    nodes_with_kind(all_nodes_v(ir), "invariant"@)
}

/// The state of a run: steps, violations, current state.
pub struct RunV {
    pub steps: Seq<StepV>,
    pub violations: Seq<SexprV>,
    pub state: Seq<(Seq<char>, SexprV)>,
}

pub open spec fn unmatched_step(a: Option<SexprV>, i: Option<SexprV>, st: Seq<(Seq<char>, SexprV)>, outcome: SexprV) -> StepV {
    StepV {
        transition_id: "unknown"@,
        actor: a,
        input: i,
        pre_state: st,
        post_state: st,
        result: None,
        outcome,
        symbolic: false,
    }
}

/// One trace step: no match records `no-matching-transition`; one match
/// applies it and checks the invariants on the new state; several
/// matches record `ambiguous-operation` naming every candidate.
pub open spec fn run_step(ir: Ir, ts: Seq<TransitionV>, acc: RunV, step: SexprV) -> RunV {
    let p = parse_step_v(step);
    let m = matching_v(ts, p.0);
    if m.len() == 0 {
        RunV {
            steps: acc.steps.push(unmatched_step(p.1, p.2, acc.state,
                SexprV::List(seq![SexprV::Sym("no-matching-transition"@), SexprV::Sym(p.0)]))),
            violations: acc.violations.push(no_match_v(p.0)),
            state: acc.state,
        }
    } else if m.len() == 1 {
        let s = apply_v(m[0], acc.state, p.1, p.2);
        RunV {
            steps: acc.steps.push(s),
            violations: acc.violations + inv_violations(invariant_nodes(ir), s.post_state),
            state: s.post_state,
        }
    } else {
        RunV {
            steps: acc.steps.push(unmatched_step(p.1, p.2, acc.state,
                SexprV::List(seq![SexprV::Sym("ambiguous-operation"@), SexprV::Sym(p.0)]))),
            violations: acc.violations.push(ambiguous_v(p.0, m.map_values(|t: TransitionV| t.operation))),
            state: acc.state,
        }
    }
}

/// A run over `steps` from the initial state.
pub open spec fn run_v(ir: Ir, ts: Seq<TransitionV>, steps: Seq<SexprV>) -> RunV
    decreases steps.len(),
{
    if steps.len() == 0 {
        RunV { steps: Seq::empty(), violations: Seq::empty(), state: init_state_v(ir) }
    } else {
        run_step(ir, ts, run_v(ir, ts, steps.drop_last()), steps.last())
    }
}

/// One violation per `invariant` node whose `:always` predicate fails
/// against `state`.
pub fn check_invariants(ir: &Ir, state: &State) -> (r: Vec<Sexpr>)
    ensures
        views_of(r@) == inv_violations(invariant_nodes(*ir), state_v(state@)),
{
    let ns = ir.nodes_of_kind("invariant");
    let ghost nv = ns@.map_values(|n: &IrNode| *n);
    let ghost st = state_v(state@);
    let mut out: Vec<Sexpr> = Vec::new();
    let mut i: usize = 0;
    while i < ns.len()
        invariant
            i <= ns.len(),
            nv == ns@.map_values(|n: &IrNode| *n),
            nv == invariant_nodes(*ir),
            st == state_v(state@),
            views_of(out@) == inv_violations(nv.take(i as int), st),
        decreases ns.len() - i,
    {
        proof {
            assert(nv.take(i + 1).drop_last() =~= nv.take(i as int));
            assert(nv.take(i + 1).last() == nv[i as int]);
        }
        let inv = ns[i];
        let always = match inv.field(":always") {
            Some(v) => clone_sexpr(v),
            None => Sexpr::List(Vec::new()),
        };
        if !eval_predicate(&always, state, None, None) {
            let v = list4(
                Sexpr::sym("violation"),
                list2(Sexpr::sym("invariant"), Sexpr::Str(inv.id.clone())),
                list2(Sexpr::sym("predicate"), always),
                list2(Sexpr::sym("state"), state_to_sexpr(state)),
            );
            proof {
                lemma_views_push(out@, v);
            }
            out.push(v);
        }
        i = i + 1;
    }
    assert(nv.take(ns.len() as int) =~= nv);
    out
}

fn parse_step(step: &Sexpr) -> (r: (String, Option<Sexpr>, Option<Sexpr>))
    ensures
        (r.0@, opt_v(r.1), opt_v(r.2)) == parse_step_v(step@),
{
    match step {
        Sexpr::List(items) => {
            proof {
                lemma_views_of(items@);
            }
            let op = if items.len() > 0 { op_text_exec(&items[0]) } else { String::new() };
            if items.len() > 1 {
                match &items[1] {
                    Sexpr::List(inner) => {
                        proof {
                            lemma_views_of(inner@);
                        }
                        let a = if inner.len() > 0 { Some(clone_sexpr(&inner[0])) } else { None };
                        let b = if inner.len() > 1 { Some(clone_sexpr(&inner[1])) } else { None };
                        (op, a, b)
                    },
                    other => {
                        let b = if items.len() > 2 { Some(clone_sexpr(&items[2])) } else { None };
                        (op, Some(clone_sexpr(other)), b)
                    },
                }
            } else {
                (op, None, None)
            }
        },
        _ => (step.print(), None, None),
    }
}

/// Whether the step op `s` reaches the operation `op`.
pub fn matches_operation(op: &str, s: &str) -> (r: bool)
    ensures
        r == op_matches(op@, s@),
{
    if str_eq(op, s) {
        return true;
    }
    let oc = chars_of(op);
    let sc = chars_of(s);
    if oc.len() > sc.len() && crate::text::ends_with(op, s) {
        oc[oc.len() - sc.len() - 1] == '/'
    } else {
        false
    }
}

fn no_matching_transition_violation(op: &str) -> (r: Sexpr)
    ensures
        r@ == no_match_v(op@),
{
    list3(
        Sexpr::sym("violation"),
        list2(Sexpr::sym("type"), Sexpr::sym("no-matching-transition")),
        list2(Sexpr::sym("operation"), Sexpr::sym(op)),
    )
}

fn ambiguous_operation_violation(op: &str, candidates: &Vec<String>) -> (r: Sexpr)
    ensures
        r@ == ambiguous_v(op@, texts(candidates@)),
{
    let mut cs: Vec<Sexpr> = Vec::new();
    let mut i: usize = 0;
    while i < candidates.len()
        invariant
            i <= candidates.len(),
            views_of(cs@) == texts(candidates@).take(i as int).map_values(|c: Seq<char>| SexprV::Sym(c)),
        decreases candidates.len() - i,
    {
        let e = Sexpr::Sym(candidates[i].clone());
        proof {
            lemma_views_push(cs@, e);
        }
        cs.push(e);
        assert(texts(candidates@).take(i + 1).map_values(|c: Seq<char>| SexprV::Sym(c))
            =~= texts(candidates@).take(i as int).map_values(|c: Seq<char>| SexprV::Sym(c)).push(SexprV::Sym(candidates@[i as int]@)));
        i = i + 1;
    }
    assert(texts(candidates@).take(candidates.len() as int) =~= texts(candidates@));
    list4(
        Sexpr::sym("violation"),
        list2(Sexpr::sym("type"), Sexpr::sym("ambiguous-operation")),
        list2(Sexpr::sym("operation"), Sexpr::sym(op)),
        list2(Sexpr::sym("candidates"), Sexpr::List(cs)),
    )
}

fn matching_indices(transitions: &Vec<Transition>, op: &str) -> (r: Vec<usize>)
    ensures
        forall|j: int| 0 <= j < r@.len() ==> #[trigger] r@[j] < transitions@.len(),
        r@.map_values(|k: usize| transitions@[k as int]@) == matching_v(transitions@.map_values(|t: Transition| t@), op@),
{
    let ghost tv = transitions@.map_values(|t: Transition| t@);
    let mut out: Vec<usize> = Vec::new();
    let mut i: usize = 0;
    while i < transitions.len()
        invariant
            i <= transitions.len(),
            tv == transitions@.map_values(|t: Transition| t@),
            forall|j: int| 0 <= j < out@.len() ==> #[trigger] out@[j] < i,
            out@.map_values(|k: usize| transitions@[k as int]@) == matching_v(tv.take(i as int), op@),
        decreases transitions.len() - i,
    {
        proof {
            assert(tv.take(i + 1).drop_last() =~= tv.take(i as int));
            assert(tv.take(i + 1).last() == transitions@[i as int]@);
        }
        if matches_operation(transitions[i].operation.as_str(), op) {
            let ghost before = out@.map_values(|k: usize| transitions@[k as int]@);
            out.push(i);
            assert(out@.map_values(|k: usize| transitions@[k as int]@) =~= before.push(transitions@[i as int]@));
        }
        i = i + 1;
    }
    assert(tv.take(transitions.len() as int) =~= tv);
    out
}

fn views_extend(a: &mut Vec<Sexpr>, b: Vec<Sexpr>)
    ensures
        views_of(final(a)@) == views_of(old(a)@) + views_of(b@),
{
    let mut b = b;
    let ghost bv = views_of(b@);
    let ghost av = views_of(a@);
    proof {
        lemma_views_of(a@);
        lemma_views_of(b@);
    }
    a.append(&mut b);
    proof {
        lemma_views_of(a@);
        assert(views_of(a@) =~= av + bv);
    }
}

/// Executes `steps` (at most `TRACE_BOUND` of them) against the
/// transitions of `ir`, from `make_initial_state(ir)` (see `run_step`).
pub fn execute_trace(ir: &Ir, steps: &[Sexpr]) -> (r: Trace)
    ensures
        ({
            let n = if steps@.len() < TRACE_BOUND { steps@.len() as int } else { TRACE_BOUND as int };
            let run = run_v(*ir, transitions_v(*ir), views_of(steps@).take(n));
            &&& r.steps@.map_values(|s: TraceStep| s@) == run.steps
            &&& views_of(r.violations@) == run.violations
            &&& state_v(r.final_state@) == run.state
        }),
{
    let transitions = extract_transitions(ir);
    let ghost tv = transitions_v(*ir);
    let ghost sv = views_of(steps@);
    proof {
        lemma_views_of(steps@);
    }
    let mut state = make_initial_state(ir);
    let mut trace_steps: Vec<TraceStep> = Vec::new();
    let mut violations: Vec<Sexpr> = Vec::new();
    let n = if steps.len() < TRACE_BOUND { steps.len() } else { TRACE_BOUND };
    let mut i: usize = 0;
    while i < n
        invariant
            i <= n,
            n <= steps.len(),
            sv == views_of(steps@),
            sv.len() == steps.len(),
            forall|j: int| 0 <= j < steps.len() ==> #[trigger] sv[j] == steps@[j]@,
            transitions@.map_values(|t: Transition| t@) == tv,
            tv == transitions_v(*ir),
            ({
                let run = run_v(*ir, tv, sv.take(i as int));
                &&& trace_steps@.map_values(|s: TraceStep| s@) == run.steps
                &&& views_of(violations@) == run.violations
                &&& state_v(state@) == run.state
            }),
        decreases n - i,
    {
        proof {
            assert(sv.take(i + 1).drop_last() =~= sv.take(i as int));
            assert(sv.take(i + 1).last() == sv[i as int]);
        }
        let (op, actor, input) = parse_step(&steps[i]);
        let matched = matching_indices(&transitions, op.as_str());
        let ghost before_steps = trace_steps@.map_values(|s: TraceStep| s@);
        if matched.len() == 0 {
            let st = TraceStep {
                transition_id: owned("unknown"),
                actor,
                input,
                pre_state: clone_state(&state),
                post_state: clone_state(&state),
                result: None,
                outcome: list2(Sexpr::sym("no-matching-transition"), Sexpr::sym(op.as_str())),
                symbolic: false,
            };
            trace_steps.push(st);
            assert(trace_steps@.map_values(|s: TraceStep| s@) =~= before_steps.push(st@));
            let v = no_matching_transition_violation(op.as_str());
            proof {
                lemma_views_push(violations@, v);
            }
            violations.push(v);
        } else if matched.len() == 1 {
            let t = &transitions[matched[0]];
            proof {
                assert(matched@.map_values(|k: usize| transitions@[k as int]@)[0] == transitions@[matched@[0] as int]@);
            }
            let step_result = apply_transition(t, &state, actor.as_ref(), input.as_ref());
            state = clone_state(&step_result.post_state);
            views_extend(&mut violations, check_invariants(ir, &state));
            let ghost sr = step_result@;
            trace_steps.push(step_result);
            assert(trace_steps@.map_values(|s: TraceStep| s@) =~= before_steps.push(sr));
        } else {
            let mut candidates: Vec<String> = Vec::new();
            let mut j: usize = 0;
            while j < matched.len()
                invariant
                    j <= matched.len(),
                    forall|q: int| 0 <= q < matched@.len() ==> #[trigger] matched@[q] < transitions@.len(),
                    texts(candidates@) == matched@.take(j as int).map_values(|k: usize| transitions@[k as int]@.operation),
                decreases matched.len() - j,
            {
                let ghost before = texts(candidates@);
                candidates.push(transitions[matched[j]].operation.clone());
                assert(texts(candidates@) =~= before.push(transitions@[matched@[j as int] as int]@.operation));
                assert(matched@.take(j + 1).map_values(|k: usize| transitions@[k as int]@.operation)
                    =~= matched@.take(j as int).map_values(|k: usize| transitions@[k as int]@.operation).push(transitions@[matched@[j as int] as int]@.operation));
                j = j + 1;
            }
            proof {
                assert(matched@.take(matched.len() as int) =~= matched@);
                let m = matching_v(tv, op@);
                assert(matched@.map_values(|k: usize| transitions@[k as int]@.operation) =~= m.map_values(|t: TransitionV| t.operation));
            }
            let st = TraceStep {
                transition_id: owned("unknown"),
                actor,
                input,
                pre_state: clone_state(&state),
                post_state: clone_state(&state),
                result: None,
                outcome: list2(Sexpr::sym("ambiguous-operation"), Sexpr::sym(op.as_str())),
                symbolic: false,
            };
            trace_steps.push(st);
            assert(trace_steps@.map_values(|s: TraceStep| s@) =~= before_steps.push(st@));
            let v = ambiguous_operation_violation(op.as_str(), &candidates);
            proof {
                lemma_views_push(violations@, v);
            }
            violations.push(v);
        }
        i = i + 1;
    }
    Trace { steps: trace_steps, violations, final_state: state }
}

// ---- projections ----

/// An empty step, for callers that need one when a trace has none.
fn clone_opt_owned(o: &Option<Sexpr>) -> (r: Option<Sexpr>)
    ensures
        opt_v(r) == opt_v(*o),
{
    match o {
        Some(v) => Some(clone_sexpr(v)),
        None => None,
    }
}

impl Clone for TraceStep {
    fn clone(&self) -> (r: Self)
        ensures
            r@ == self@,
    {
        TraceStep {
            transition_id: self.transition_id.clone(),
            actor: clone_opt_owned(&self.actor),
            input: clone_opt_owned(&self.input),
            pre_state: clone_state(&self.pre_state),
            post_state: clone_state(&self.post_state),
            result: clone_opt_owned(&self.result),
            outcome: clone_sexpr(&self.outcome),
            symbolic: self.symbolic,
        }
    }
}

pub fn default_trace_step() -> (r: TraceStep)
    ensures
        r@ == unmatched_step(None, None, Seq::empty(), nil_v()),
{
    let r = TraceStep {
        transition_id: owned("unknown"),
        actor: None,
        input: None,
        pre_state: Vec::new(),
        post_state: Vec::new(),
        result: None,
        outcome: Sexpr::List(Vec::new()),
        symbolic: false,
    };
    assert(state_v(r.pre_state@) =~= Seq::<(Seq<char>, SexprV)>::empty());
    assert(views_of(r.outcome->List_0@) =~= Seq::<SexprV>::empty());
    r
}

/// `(trace-step ((transition-id "..") (actor a) (input i) (pre-state ..)
/// (post-state ..) (result r) (outcome o) (basis checked|symbolic)))`,
/// absent values as `nil`.
pub open spec fn trace_step_v(s: StepV) -> SexprV {
    SexprV::List(seq![
        SexprV::Sym("trace-step"@),
        SexprV::List(seq![
            SexprV::List(seq![SexprV::Sym("transition-id"@), SexprV::Str(s.transition_id)]),
            SexprV::List(seq![SexprV::Sym("actor"@), or_nil(s.actor)]),
            SexprV::List(seq![SexprV::Sym("input"@), or_nil(s.input)]),
            SexprV::List(seq![SexprV::Sym("pre-state"@), state_sexpr_v(s.pre_state)]),
            SexprV::List(seq![SexprV::Sym("post-state"@), state_sexpr_v(s.post_state)]),
            SexprV::List(seq![SexprV::Sym("result"@), or_nil(s.result)]),
            SexprV::List(seq![SexprV::Sym("outcome"@), s.outcome]),
            SexprV::List(seq![SexprV::Sym("basis"@), SexprV::Sym(if s.symbolic { "symbolic"@ } else { "checked"@ })]),
        ]),
    ])
}

fn opt_or_nil(o: &Option<Sexpr>) -> (r: Sexpr)
    ensures
        r@ == or_nil(opt_v(*o)),
{
    match o {
        Some(v) => clone_sexpr(v),
        None => Sexpr::List(Vec::new()),
    }
}

/// A step as its tagged projection (see `trace_step_v`).
pub fn trace_step_to_sexpr(step: &TraceStep) -> (r: Sexpr)
    ensures
        r@ == trace_step_v(step@),
{
    let fields = vec![
        list2(Sexpr::sym("transition-id"), Sexpr::Str(step.transition_id.clone())),
        list2(Sexpr::sym("actor"), opt_or_nil(&step.actor)),
        list2(Sexpr::sym("input"), opt_or_nil(&step.input)),
        list2(Sexpr::sym("pre-state"), state_to_sexpr(&step.pre_state)),
        list2(Sexpr::sym("post-state"), state_to_sexpr(&step.post_state)),
        list2(Sexpr::sym("result"), opt_or_nil(&step.result)),
        list2(Sexpr::sym("outcome"), clone_sexpr(&step.outcome)),
        list2(Sexpr::sym("basis"), Sexpr::sym(if step.symbolic { "symbolic" } else { "checked" })),
    ];
    proof {
        lemma_views_of(fields@);
    }
    let body = Sexpr::List(fields);
    proof {
        assert(views_of(body->List_0@) =~= trace_step_v(step@)->List_0[1]->List_0);
    }
    list2(Sexpr::sym("trace-step"), body)
}

/// `(counterexample (violation v) (trace-step s) (pre-state ..) (input
/// i) (outcome o))`.
pub open spec fn counterexample_v(violation: SexprV, s: StepV) -> SexprV {
    SexprV::List(seq![
        SexprV::Sym("counterexample"@),
        SexprV::List(seq![SexprV::Sym("violation"@), violation]),
        SexprV::List(seq![SexprV::Sym("trace-step"@), trace_step_v(s)]),
        SexprV::List(seq![SexprV::Sym("pre-state"@), state_sexpr_v(s.pre_state)]),
        SexprV::List(seq![SexprV::Sym("input"@), or_nil(s.input)]),
        SexprV::List(seq![SexprV::Sym("outcome"@), s.outcome]),
    ])
}

/// A counterexample pairing a violation with the step that exposed it.
pub fn counterexample(violation: &Sexpr, trace_step: &TraceStep) -> (r: Sexpr)
    ensures
        r@ == counterexample_v(violation@, trace_step@),
{
    let items = vec![
        Sexpr::sym("counterexample"),
        list2(Sexpr::sym("violation"), clone_sexpr(violation)),
        list2(Sexpr::sym("trace-step"), trace_step_to_sexpr(trace_step)),
        list2(Sexpr::sym("pre-state"), state_to_sexpr(&trace_step.pre_state)),
        list2(Sexpr::sym("input"), opt_or_nil(&trace_step.input)),
        list2(Sexpr::sym("outcome"), clone_sexpr(&trace_step.outcome)),
    ];
    proof {
        lemma_views_of(items@);
    }
    let r = Sexpr::List(items);
    assert(views_of(r->List_0@) =~= counterexample_v(violation@, trace_step@)->List_0);
    r
}

/// `(trace ((steps (..)) (violations (..)) (final-state ..)))`.
pub open spec fn trace_v(steps: Seq<StepV>, violations: Seq<SexprV>, fin: Seq<(Seq<char>, SexprV)>) -> SexprV {
    SexprV::List(seq![
        SexprV::Sym("trace"@),
        SexprV::List(seq![
            SexprV::List(seq![SexprV::Sym("steps"@), SexprV::List(steps.map_values(|s: StepV| trace_step_v(s)))]),
            SexprV::List(seq![SexprV::Sym("violations"@), SexprV::List(violations)]),
            SexprV::List(seq![SexprV::Sym("final-state"@), state_sexpr_v(fin)]),
        ]),
    ])
}

/// A whole trace as a tagged value (see `trace_v`).
pub fn trace_to_sexpr(trace: &Trace) -> (r: Sexpr)
    ensures
        r@ == trace_v(trace.steps@.map_values(|s: TraceStep| s@), views_of(trace.violations@), state_v(trace.final_state@)),
{
    let ghost sv = trace.steps@.map_values(|s: TraceStep| s@);
    let mut steps: Vec<Sexpr> = Vec::new();
    let mut i: usize = 0;
    while i < trace.steps.len()
        invariant
            i <= trace.steps.len(),
            sv == trace.steps@.map_values(|s: TraceStep| s@),
            views_of(steps@) == sv.take(i as int).map_values(|s: StepV| trace_step_v(s)),
        decreases trace.steps.len() - i,
    {
        let e = trace_step_to_sexpr(&trace.steps[i]);
        proof {
            lemma_views_push(steps@, e);
        }
        steps.push(e);
        assert(sv.take(i + 1).map_values(|s: StepV| trace_step_v(s)) =~= sv.take(i as int).map_values(|s: StepV| trace_step_v(s)).push(trace_step_v(sv[i as int])));
        i = i + 1;
    }
    assert(sv.take(trace.steps.len() as int) =~= sv);
    let viol = Sexpr::List(clone_all(trace.violations.as_slice()));
    list2(
        Sexpr::sym("trace"),
        list3(
            list2(Sexpr::sym("steps"), Sexpr::List(steps)),
            list2(Sexpr::sym("violations"), viol),
            list2(Sexpr::sym("final-state"), state_to_sexpr(&trace.final_state)),
        ),
    )
}

// ---- state references ----

pub open spec fn unresolved_msg(tid: Seq<char>, name: Seq<char>) -> Seq<char> {
    "unresolved-state-ref: transition "@ + tid + " references undeclared state "@ + name
}

/// W406 warnings for the entries of `xs` not among `names`, in order.
pub open spec fn undeclared_v(tid: Seq<char>, xs: Seq<Seq<char>>, names: Seq<Seq<char>>) -> Seq<SexprV>
    decreases xs.len(),
{
    if xs.len() == 0 {
        Seq::empty()
    } else if names.contains(xs.last()) {
        undeclared_v(tid, xs.drop_last(), names)
    } else {
        undeclared_v(tid, xs.drop_last(), names).push(diag_v("warning"@, "W406"@, 0, 0, unresolved_msg(tid, xs.last())))
    }
}

/// For each transition, its `reads` then its `writes` checked.
pub open spec fn refs_v(ts: Seq<TransitionV>, names: Seq<Seq<char>>) -> Seq<SexprV>
    decreases ts.len(),
{
    if ts.len() == 0 {
        Seq::empty()
    } else {
        refs_v(ts.drop_last(), names) + undeclared_v(ts.last().id, ts.last().reads, names)
            + undeclared_v(ts.last().id, ts.last().writes, names)
    }
}

pub open spec fn state_names_v(ir: Ir) -> Seq<Seq<char>> {
    nodes_with_kind(all_nodes_v(ir), "state"@).map_values(|n: IrNode| n.name@)
}

fn check_names(out: &mut Vec<Sexpr>, tid: &str, xs: &Vec<String>, names: &Vec<String>)
    ensures
        views_of(final(out)@) == views_of(old(out)@) + undeclared_v(tid@, texts(xs@), texts(names@)),
{
    let ghost start = views_of(out@);
    let mut i: usize = 0;
    while i < xs.len()
        invariant
            i <= xs.len(),
            views_of(out@) == start + undeclared_v(tid@, texts(xs@).take(i as int), texts(names@)),
        decreases xs.len() - i,
    {
        proof {
            assert(texts(xs@).take(i + 1).drop_last() =~= texts(xs@).take(i as int));
        }
        let mut found = false;
        let mut k: usize = 0;
        while k < names.len()
            invariant
                k <= names.len(),
                i < xs.len(),
                found == exists|q: int| 0 <= q < k && texts(names@)[q] == xs@[i as int]@,
            decreases names.len() - k,
        {
            assert(texts(names@)[k as int] == names@[k as int]@);
            if str_eq(names[k].as_str(), xs[i].as_str()) {
                found = true;
            }
            k = k + 1;
        }
        if !found {
            let mut m = concat("unresolved-state-ref: transition ", tid);
            push_str(&mut m, " references undeclared state ");
            push_str(&mut m, xs[i].as_str());
            let d = diag_sexpr("warning", "W406", (0, 0), m);
            proof {
                lemma_views_push(out@, d);
            }
            out.push(d);
        }
        assert(views_of(out@) =~= start + undeclared_v(tid@, texts(xs@).take(i + 1), texts(names@)));
        i = i + 1;
    }
    assert(texts(xs@).take(xs.len() as int) =~= texts(xs@));
}

/// One W406 warning per `reads`/`writes` entry that names no `state`
/// node, transition by transition.
pub fn check_transition_refs(ir: &Ir) -> (r: Vec<Sexpr>)
    ensures
        views_of(r@) == refs_v(transitions_v(*ir), state_names_v(*ir)),
{
    let ns = ir.nodes_of_kind("state");
    let ghost nv = ns@.map_values(|n: &IrNode| *n);
    let mut names: Vec<String> = Vec::new();
    let mut i: usize = 0;
    while i < ns.len()
        invariant
            i <= ns.len(),
            nv == ns@.map_values(|n: &IrNode| *n),
            nv == nodes_with_kind(all_nodes_v(*ir), "state"@),
            texts(names@) == nv.take(i as int).map_values(|n: IrNode| n.name@),
        decreases ns.len() - i,
    {
        let ghost before = texts(names@);
        names.push(ns[i].name.clone());
        assert(texts(names@) =~= before.push(nv[i as int].name@));
        assert(nv.take(i + 1).map_values(|n: IrNode| n.name@) =~= nv.take(i as int).map_values(|n: IrNode| n.name@).push(nv[i as int].name@));
        i = i + 1;
    }
    assert(nv.take(ns.len() as int) =~= nv);
    let ts = extract_transitions(ir);
    let ghost tv = ts@.map_values(|t: Transition| t@);
    let mut warnings: Vec<Sexpr> = Vec::new();
    let mut j: usize = 0;
    while j < ts.len()
        invariant
            j <= ts.len(),
            tv == ts@.map_values(|t: Transition| t@),
            tv == transitions_v(*ir),
            texts(names@) == state_names_v(*ir),
            views_of(warnings@) == refs_v(tv.take(j as int), texts(names@)),
        decreases ts.len() - j,
    {
        proof {
            assert(tv.take(j + 1).drop_last() =~= tv.take(j as int));
            assert(tv.take(j + 1).last() == ts@[j as int]@);
        }
        check_names(&mut warnings, ts[j].id.as_str(), &ts[j].reads, &names);
        check_names(&mut warnings, ts[j].id.as_str(), &ts[j].writes, &names);
        j = j + 1;
    }
    assert(tv.take(ts.len() as int) =~= tv);
    warnings
}

// ---- laws of the evaluators and the state machine ----

pub open spec fn agrees(v: Verdict, b: (bool, bool)) -> bool {
    &&& (v == Verdict::Holds ==> b.0)
    &&& (v == Verdict::Fails ==> !b.0)
    &&& (b.1 ==> v == (if b.0 { Verdict::Holds } else { Verdict::Fails }))
}

/// The tri-state and boolean evaluators agree: a grounded tri-state
/// verdict is the boolean verdict, and a boolean verdict whose basis is
/// checked is grounded.
pub proof fn lemma_evaluators_agree(p: SexprV, st: Seq<(Seq<char>, SexprV)>, a: Option<SexprV>, i: Option<SexprV>)
    ensures
        agrees(pred3(p, st, a, i), basis(p, st, a, i)),
    decreases p,
{
    reveal_literals();
    match p {
        SexprV::List(items) => {
            if items.len() > 0 {
                if items[0] == SexprV::Sym("not"@) {
                    if items.len() > 1 {
                        lemma_evaluators_agree(items[1], st, a, i);
                    }
                } else if items[0] == SexprV::Sym("and"@) {
                    lemma_and_agree(items.drop_first(), st, a, i);
                } else if items[0] == SexprV::Sym("or"@) {
                    lemma_or_agree(items.drop_first(), st, a, i);
                }
            }
        },
        _ => {},
    }
}

proof fn lemma_and_agree(ps: Seq<SexprV>, st: Seq<(Seq<char>, SexprV)>, a: Option<SexprV>, i: Option<SexprV>)
    ensures
        agrees(and3(ps, st, a, i), and_basis(ps, st, a, i)),
    decreases ps,
{
    if ps.len() > 0 {
        lemma_evaluators_agree(ps[0], st, a, i);
        lemma_and_agree(ps.drop_first(), st, a, i);
    }
}

proof fn lemma_or_agree(ps: Seq<SexprV>, st: Seq<(Seq<char>, SexprV)>, a: Option<SexprV>, i: Option<SexprV>)
    ensures
        agrees(or3(ps, st, a, i), or_basis(ps, st, a, i)),
    decreases ps,
{
    if ps.len() > 0 {
        lemma_evaluators_agree(ps[0], st, a, i);
        lemma_or_agree(ps.drop_first(), st, a, i);
    }
}

/// A step that does not succeed leaves the state as it was, records no
/// result, and names the transition applied.
pub proof fn lemma_unsuccessful_step_preserves_state(t: TransitionV, st: Seq<(Seq<char>, SexprV)>, a: Option<SexprV>, i: Option<SexprV>)
    ensures
        apply_v(t, st, a, i).outcome != SexprV::List(seq![SexprV::Sym("succeeded"@)])
            ==> apply_v(t, st, a, i).post_state == st && apply_v(t, st, a, i).result is None,
        apply_v(t, st, a, i).pre_state == st,
        apply_v(t, st, a, i).transition_id == t.id,
{
}

/// A run records exactly one step per input step.
pub proof fn lemma_run_records_every_step(ir: Ir, ts: Seq<TransitionV>, steps: Seq<SexprV>)
    ensures
        run_v(ir, ts, steps).steps.len() == steps.len(),
    decreases steps.len(),
{
    if steps.len() > 0 {
        lemma_run_records_every_step(ir, ts, steps.drop_last());
    }
}

/// Three-valued conjunction: it fails exactly when some conjunct fails,
/// holds exactly when every conjunct holds, and is unknown otherwise.
pub proof fn lemma_and3_table(ps: Seq<SexprV>, st: Seq<(Seq<char>, SexprV)>, a: Option<SexprV>, i: Option<SexprV>)
    ensures
        (and3(ps, st, a, i) == Verdict::Fails) <==> exists|k: int| 0 <= k < ps.len() && #[trigger] pred3(ps[k], st, a, i) == Verdict::Fails,
        (and3(ps, st, a, i) == Verdict::Holds) <==> forall|k: int| 0 <= k < ps.len() ==> #[trigger] pred3(ps[k], st, a, i) == Verdict::Holds,
    decreases ps.len(),
{
    if ps.len() > 0 {
        let t = ps.drop_first();
        lemma_and3_table(t, st, a, i);
        assert(and3(ps, st, a, i) == match pred3(ps[0], st, a, i) {
            Verdict::Fails => Verdict::Fails,
            Verdict::Unknown => if and3(t, st, a, i) == Verdict::Fails { Verdict::Fails } else { Verdict::Unknown },
            Verdict::Holds => and3(t, st, a, i),
        });
        if exists|k: int| 0 <= k < t.len() && #[trigger] pred3(t[k], st, a, i) == Verdict::Fails {
            let k = choose|k: int| 0 <= k < t.len() && #[trigger] pred3(t[k], st, a, i) == Verdict::Fails;
            assert(ps[k + 1] == t[k]);
        }
        if exists|k: int| 0 <= k < ps.len() && #[trigger] pred3(ps[k], st, a, i) == Verdict::Fails {
            let k = choose|k: int| 0 <= k < ps.len() && #[trigger] pred3(ps[k], st, a, i) == Verdict::Fails;
            if k > 0 {
                assert(t[k - 1] == ps[k]);
            }
        }
        if forall|k: int| 0 <= k < ps.len() ==> #[trigger] pred3(ps[k], st, a, i) == Verdict::Holds {
            assert forall|k: int| 0 <= k < t.len() implies #[trigger] pred3(t[k], st, a, i) == Verdict::Holds by {
                assert(t[k] == ps[k + 1]);
            }
        }
        if and3(ps, st, a, i) == Verdict::Holds {
            assert forall|k: int| 0 <= k < ps.len() implies #[trigger] pred3(ps[k], st, a, i) == Verdict::Holds by {
                if k > 0 {
                    assert(t[k - 1] == ps[k]);
                }
            }
        }
    }
}

/// Three-valued disjunction: it holds exactly when some disjunct holds,
/// fails exactly when every disjunct fails, and is unknown otherwise.
pub proof fn lemma_or3_table(ps: Seq<SexprV>, st: Seq<(Seq<char>, SexprV)>, a: Option<SexprV>, i: Option<SexprV>)
    ensures
        (or3(ps, st, a, i) == Verdict::Holds) <==> exists|k: int| 0 <= k < ps.len() && #[trigger] pred3(ps[k], st, a, i) == Verdict::Holds,
        (or3(ps, st, a, i) == Verdict::Fails) <==> forall|k: int| 0 <= k < ps.len() ==> #[trigger] pred3(ps[k], st, a, i) == Verdict::Fails,
    decreases ps.len(),
{
    if ps.len() > 0 {
        let t = ps.drop_first();
        lemma_or3_table(t, st, a, i);
        assert(or3(ps, st, a, i) == match pred3(ps[0], st, a, i) {
            Verdict::Holds => Verdict::Holds,
            Verdict::Unknown => if or3(t, st, a, i) == Verdict::Holds { Verdict::Holds } else { Verdict::Unknown },
            Verdict::Fails => or3(t, st, a, i),
        });
        if exists|k: int| 0 <= k < t.len() && #[trigger] pred3(t[k], st, a, i) == Verdict::Holds {
            let k = choose|k: int| 0 <= k < t.len() && #[trigger] pred3(t[k], st, a, i) == Verdict::Holds;
            assert(ps[k + 1] == t[k]);
        }
        if exists|k: int| 0 <= k < ps.len() && #[trigger] pred3(ps[k], st, a, i) == Verdict::Holds {
            let k = choose|k: int| 0 <= k < ps.len() && #[trigger] pred3(ps[k], st, a, i) == Verdict::Holds;
            if k > 0 {
                assert(t[k - 1] == ps[k]);
            }
        }
        if forall|k: int| 0 <= k < ps.len() ==> #[trigger] pred3(ps[k], st, a, i) == Verdict::Fails {
            assert forall|k: int| 0 <= k < t.len() implies #[trigger] pred3(t[k], st, a, i) == Verdict::Fails by {
                assert(t[k] == ps[k + 1]);
            }
        }
        if or3(ps, st, a, i) == Verdict::Fails {
            assert forall|k: int| 0 <= k < ps.len() implies #[trigger] pred3(ps[k], st, a, i) == Verdict::Fails by {
                if k > 0 {
                    assert(t[k - 1] == ps[k]);
                }
            }
        }
    }
}


/// Integer comparison: when both operands evaluate to integers `x` and
/// `y`, `(<= e1 e2)` holds exactly when `x <= y` and `(< e1 e2)` holds
/// exactly when `x < y`; otherwise the comparison fails.
pub proof fn lemma_int_comparisons(e1: SexprV, e2: SexprV, st: Seq<(Seq<char>, SexprV)>, a: Option<SexprV>, i: Option<SexprV>, x: int, y: int)
    requires
        expr_v(e1, st, a, i) == SexprV::Int(x),
        expr_v(e2, st, a, i) == SexprV::Int(y),
    ensures
        pred3(SexprV::List(seq![SexprV::Sym("<="@), e1, e2]), st, a, i) == (if x <= y { Verdict::Holds } else { Verdict::Fails }),
        pred3(SexprV::List(seq![SexprV::Sym("<"@), e1, e2]), st, a, i) == (if x < y { Verdict::Holds } else { Verdict::Fails }),
{
    reveal_literals();
    let le = seq![SexprV::Sym("<="@), e1, e2];
    let lt = seq![SexprV::Sym("<"@), e1, e2];
    assert(nth_v(le, 1) == e1 && nth_v(le, 2) == e2);
    assert(nth_v(lt, 1) == e1 && nth_v(lt, 2) == e2);
}

/// A comparison with an operand that does not evaluate to an integer is
/// undecided.
pub proof fn lemma_non_int_comparison_unknown(e1: SexprV, e2: SexprV, st: Seq<(Seq<char>, SexprV)>, a: Option<SexprV>, i: Option<SexprV>)
    requires
        !(expr_v(e1, st, a, i) is Int) || !(expr_v(e2, st, a, i) is Int),
    ensures
        pred3(SexprV::List(seq![SexprV::Sym("<="@), e1, e2]), st, a, i) == Verdict::Unknown,
        pred3(SexprV::List(seq![SexprV::Sym("<"@), e1, e2]), st, a, i) == Verdict::Unknown,
{
    reveal_literals();
    let le = seq![SexprV::Sym("<="@), e1, e2];
    let lt = seq![SexprV::Sym("<"@), e1, e2];
    assert(nth_v(le, 1) == e1 && nth_v(le, 2) == e2);
    assert(nth_v(lt, 1) == e1 && nth_v(lt, 2) == e2);
}

/// `(<= k k)` holds for every integer literal `k`, and `(< k k)` fails.
pub proof fn lemma_le_reflexive(k: int, st: Seq<(Seq<char>, SexprV)>, a: Option<SexprV>, i: Option<SexprV>)
    ensures
        pred3(SexprV::List(seq![SexprV::Sym("<="@), SexprV::Int(k), SexprV::Int(k)]), st, a, i) == Verdict::Holds,
        pred3(SexprV::List(seq![SexprV::Sym("<"@), SexprV::Int(k), SexprV::Int(k)]), st, a, i) == Verdict::Fails,
{
    lemma_int_comparisons(SexprV::Int(k), SexprV::Int(k), st, a, i, k, k);
}

} // verus!
