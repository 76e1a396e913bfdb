//! The deterministic recipe registry and executor: four Ruby emitters
//! for the structural, verification and assembly nodes, deferral of the
//! generative ones, and the candidate firewall run over every candidate
//! a recipe produces (recipes are not exempt from it).
use vstd::prelude::*;
use crate::candidate::{candidate_diagnostics, candidate_diags, counts_as_error};
use crate::diag::{diag_sexpr, diag_v};
use crate::ir::{Ir, IrNode, first_field, resolve_ir_slice, resolved_v, unresolved_v};
use crate::order::texts;
use crate::plan::{PlanNode, target_language, target_language_v};
use crate::sexpr::{Sexpr, SexprV, assoc_items, assoc_v, clone_sexpr, is_pair_with_key, lemma_views_of, lemma_views_push, list2, pair_v, print_v, views_of};
use crate::text::{char_to_uppercase, chars_of, concat, ends_with, is_suffix, nat_digits, owned, push_char, push_str, str_eq, str_to_uppercase, upper_char_v, upper_text_v, usize_to_string};
use crate::transition::{keyword_value, kw_value, list_items_v};

verus! {

/// The four recipe classes.
#[derive(Debug, Clone, Copy, PartialEq, Eq, Structural)]
pub enum RecipeClass {
    Structure,
    Generative,
    Verification,
    Assembly,
}

/// The deterministic emitter a recipe runs.
#[derive(Debug, Clone, Copy, PartialEq, Eq, Structural)]
pub enum Emitter {
    DesignContracts,
    InterfaceContracts,
    AcceptanceHarness,
    ApplicationAssembly,
}

/// One registry entry. `execute` is `None` for the four generative
/// recipes, which the model runner serves.
#[derive(Debug, Clone, Copy)]
pub struct Recipe {
    pub name: &'static str,
    pub class: RecipeClass,
    pub execute: Option<Emitter>,
}

/// The registry entry for `name`: `(class, emitter)`.
pub open spec fn registry_v(name: Seq<char>) -> Option<(RecipeClass, Option<Emitter>)> {
    if name == "design-contracts-v1"@ {
        Some((RecipeClass::Structure, Some(Emitter::DesignContracts)))
    } else if name == "transition-kernel-v1"@ {
        Some((RecipeClass::Generative, None))
    } else if name == "authorization-policy-v1"@ {
        Some((RecipeClass::Generative, None))
    } else if name == "persistence-v1"@ {
        Some((RecipeClass::Generative, None))
    } else if name == "interface-contracts-v1"@ {
        Some((RecipeClass::Structure, Some(Emitter::InterfaceContracts)))
    } else if name == "service-handlers-v1"@ {
        Some((RecipeClass::Generative, None))
    } else if name == "acceptance-harness-v1"@ {
        Some((RecipeClass::Verification, Some(Emitter::AcceptanceHarness)))
    } else if name == "application-assembly-v1"@ {
        Some((RecipeClass::Assembly, Some(Emitter::ApplicationAssembly)))
    } else {
        None
    }
}

/// Registry lookup by recipe name; `None` for anything outside the
/// fixed eight-entry table.
pub fn lookup(name: &str) -> (r: Option<Recipe>)
    ensures
        match registry_v(name@) {
            Some(e) => r is Some && r->0.name@ == name@ && r->0.class == e.0 && r->0.execute == e.1,
            None => r is None,
        },
{
    let table: [(&'static str, RecipeClass, Option<Emitter>); 8] = [
        ("design-contracts-v1", RecipeClass::Structure, Some(Emitter::DesignContracts)),
        ("transition-kernel-v1", RecipeClass::Generative, None),
        ("authorization-policy-v1", RecipeClass::Generative, None),
        ("persistence-v1", RecipeClass::Generative, None),
        ("interface-contracts-v1", RecipeClass::Structure, Some(Emitter::InterfaceContracts)),
        ("service-handlers-v1", RecipeClass::Generative, None),
        ("acceptance-harness-v1", RecipeClass::Verification, Some(Emitter::AcceptanceHarness)),
        ("application-assembly-v1", RecipeClass::Assembly, Some(Emitter::ApplicationAssembly)),
    ];
    let mut i: usize = 0;
    while i < 8
        invariant
            i <= 8,
            table@ == seq![
                ("design-contracts-v1", RecipeClass::Structure, Some(Emitter::DesignContracts)),
                ("transition-kernel-v1", RecipeClass::Generative, None::<Emitter>),
                ("authorization-policy-v1", RecipeClass::Generative, None::<Emitter>),
                ("persistence-v1", RecipeClass::Generative, None::<Emitter>),
                ("interface-contracts-v1", RecipeClass::Structure, Some(Emitter::InterfaceContracts)),
                ("service-handlers-v1", RecipeClass::Generative, None::<Emitter>),
                ("acceptance-harness-v1", RecipeClass::Verification, Some(Emitter::AcceptanceHarness)),
                ("application-assembly-v1", RecipeClass::Assembly, Some(Emitter::ApplicationAssembly)),
            ],
            forall|k: int| 0 <= k < i ==> (#[trigger] table@[k]).0@ != name@,
        decreases 8 - i,
    {
        if str_eq(table[i].0, name) {
            return Some(Recipe { name: table[i].0, class: table[i].1, execute: table[i].2 });
        }
        i = i + 1;
    }
    assert(table@[0].0@ != name@ && table@[1].0@ != name@ && table@[2].0@ != name@ && table@[3].0@ != name@);
    assert(table@[4].0@ != name@ && table@[5].0@ != name@ && table@[6].0@ != name@ && table@[7].0@ != name@);
    None
}

#[derive(Debug, Clone, Copy, PartialEq, Eq, Structural)]
pub enum ExecutionStatus {
    Succeeded,
    Failed,
    Deferred,
}

/// The outcome of running one plan node's recipe. `candidate` is `Some`
/// only when a deterministic emitter actually ran.
#[derive(Debug, PartialEq)]
pub struct ExecutionResult {
    pub node_id: String,
    pub status: ExecutionStatus,
    pub candidate: Option<Sexpr>,
    pub recipe_identity: Option<String>,
    pub diagnostics: Vec<Sexpr>,
}

/// An execution result as plain values.
pub struct ResultV {
    pub node_id: Seq<char>,
    pub status: ExecutionStatus,
    pub candidate: Option<SexprV>,
    pub recipe_identity: Option<Seq<char>>,
    pub diagnostics: Seq<SexprV>,
}

impl View for ExecutionResult {
    type V = ResultV;

    open spec fn view(&self) -> ResultV {
        ResultV {
            node_id: self.node_id@,
            status: self.status,
            candidate: match self.candidate {
                Some(c) => Some(c@),
                None => None,
            },
            recipe_identity: match self.recipe_identity {
                Some(s) => Some(s@),
                None => None,
            },
            diagnostics: views_of(self.diagnostics@),
        }
    }
}

pub open spec fn status_text(s: ExecutionStatus) -> Seq<char> {
    match s {
        ExecutionStatus::Succeeded => "succeeded"@,
        ExecutionStatus::Failed => "failed"@,
        ExecutionStatus::Deferred => "deferred"@,
    }
}

/// The field pairs of a result, in canonical order: node-id, status,
/// `reason requires-model` when deferred, the candidate and the recipe
/// identity when present, and the diagnostics.
pub open spec fn result_items_v(r: ResultV) -> Seq<SexprV> {
    let a = seq![pair_v("node-id"@, SexprV::Str(r.node_id)), pair_v("status"@, SexprV::Sym(status_text(r.status)))];
    let b = if r.status == ExecutionStatus::Deferred { a.push(pair_v("reason"@, SexprV::Sym("requires-model"@))) } else { a };
    let c = match r.candidate { Some(v) => b.push(pair_v("candidate"@, v)), None => b };
    let d = match r.recipe_identity { Some(s) => c.push(pair_v("recipe-identity"@, SexprV::Str(s))), None => c };
    d.push(pair_v("diagnostics"@, SexprV::List(r.diagnostics)))
}

/// `(execution-result (...))`.
pub open spec fn result_v(r: ResultV) -> SexprV {
    SexprV::List(seq![SexprV::Sym("execution-result"@), SexprV::List(result_items_v(r))])
}

/// What `from_sexpr` reads back from a value.
pub open spec fn parse_result_v(v: SexprV) -> Option<ResultV> {
    match v {
        SexprV::List(items) => if items.len() == 2 && items[0] == SexprV::Sym("execution-result"@) {
            let body = items[1];
            match (assoc_v(body, "node-id"@), assoc_v(body, "status"@)) {
                (Some(SexprV::Str(id)), Some(SexprV::Sym(st))) => {
                    let status = if st == "succeeded"@ {
                        Some(ExecutionStatus::Succeeded)
                    } else if st == "failed"@ {
                        Some(ExecutionStatus::Failed)
                    } else if st == "deferred"@ {
                        Some(ExecutionStatus::Deferred)
                    } else {
                        None
                    };
                    match status {
                        Some(s) => Some(ResultV {
                            node_id: id,
                            status: s,
                            candidate: assoc_v(body, "candidate"@),
                            recipe_identity: match assoc_v(body, "recipe-identity"@) {
                                Some(SexprV::Str(t)) => Some(t),
                                _ => None,
                            },
                            diagnostics: match assoc_v(body, "diagnostics"@) {
                                Some(SexprV::List(ds)) => ds,
                                _ => Seq::empty(),
                            },
                        }),
                        None => None,
                    }
                },
                _ => None,
            }
        } else {
            None
        },
        _ => None,
    }
}

fn push_pair(items: &mut Vec<Sexpr>, key: &str, value: Sexpr)
    ensures
        views_of(final(items)@) == views_of(old(items)@).push(pair_v(key@, value@)),
{
    let p = Sexpr::pair(key, value);
    proof {
        lemma_views_push(items@, p);
    }
    items.push(p);
}

fn status_symbol(status: ExecutionStatus) -> (r: &'static str)
    ensures
        r@ == status_text(status),
{
    match status {
        ExecutionStatus::Succeeded => "succeeded",
        ExecutionStatus::Failed => "failed",
        ExecutionStatus::Deferred => "deferred",
    }
}

impl ExecutionResult {
    /// `(execution-result ((node-id "..") (status s) [(reason
    /// requires-model)] [(candidate ..)] [(recipe-identity "..")]
    /// (diagnostics (..))))`.
    pub fn to_sexpr(&self) -> (r: Sexpr)
        ensures
            r@ == result_v(self@),
    {
        let mut items: Vec<Sexpr> = Vec::new();
        assert(views_of(items@) =~= Seq::<SexprV>::empty());
        push_pair(&mut items, "node-id", Sexpr::Str(self.node_id.clone()));
        push_pair(&mut items, "status", Sexpr::sym(status_symbol(self.status)));
        if self.status == ExecutionStatus::Deferred {
            push_pair(&mut items, "reason", Sexpr::sym("requires-model"));
        }
        match &self.candidate {
            Some(c) => push_pair(&mut items, "candidate", clone_sexpr(c)),
            None => {},
        }
        match &self.recipe_identity {
            Some(s) => push_pair(&mut items, "recipe-identity", Sexpr::Str(s.clone())),
            None => {},
        }
        let diags = crate::transition::clone_all(self.diagnostics.as_slice());
        push_pair(&mut items, "diagnostics", Sexpr::List(diags));
        proof {
            assert(views_of(items@) =~= result_items_v(self@));
        }
        list2(Sexpr::sym("execution-result"), Sexpr::List(items))
    }

    /// Reads a `(execution-result (...))` value back; `None` for any
    /// other shape or an unknown status. `reason` is never read back:
    /// `to_sexpr` derives it from the status.
    pub fn from_sexpr(v: &Sexpr) -> (r: Option<ExecutionResult>)
        ensures
            match parse_result_v(v@) {
                Some(rv) => r is Some && r->0@ == rv,
                None => r is None,
            },
    {
        let items = match v.as_list() {
            Some(items) => items,
            None => {
                return None;
            },
        };
        proof {
            lemma_views_of(items@);
        }
        if items.len() != 2 {
            return None;
        }
        match items[0].as_sym() {
            Some(s) => {
                if !str_eq(s, "execution-result") {
                    return None;
                }
            },
            None => {
                return None;
            },
        }
        let body = &items[1];
        let node_id = match body.assoc("node-id") {
            Some(n) => match n.as_str() {
                Some(t) => owned(t),
                None => {
                    return None;
                },
            },
            None => {
                return None;
            },
        };
        let st = match body.assoc("status") {
            Some(n) => match n.as_sym() {
                Some(t) => t,
                None => {
                    return None;
                },
            },
            None => {
                return None;
            },
        };
        let status = if str_eq(st, "succeeded") {
            ExecutionStatus::Succeeded
        } else if str_eq(st, "failed") {
            ExecutionStatus::Failed
        } else if str_eq(st, "deferred") {
            ExecutionStatus::Deferred
        } else {
            return None;
        };
        let candidate = match body.assoc("candidate") {
            Some(c) => Some(clone_sexpr(c)),
            None => None,
        };
        let recipe_identity = match body.assoc("recipe-identity") {
            Some(c) => match c.as_str() {
                Some(t) => Some(owned(t)),
                None => None,
            },
            None => None,
        };
        let diagnostics = match body.assoc("diagnostics") {
            Some(d) => match d {
                Sexpr::List(ds) => crate::transition::clone_all(ds.as_slice()),
                _ => Vec::new(),
            },
            None => Vec::new(),
        };
        proof {
            lemma_views_of(diagnostics@);
        }
        let r = ExecutionResult { node_id, status, candidate, recipe_identity, diagnostics };
        proof {
            assert(views_of(r.diagnostics@) == (match assoc_v(body@, "diagnostics"@) {
                Some(SexprV::List(ds)) => ds,
                _ => Seq::<SexprV>::empty(),
            }));
        }
        Some(r)
    }
}


proof fn reveal_result_keys()
    ensures
        "node-id"@ != "status"@,
        "node-id"@ != "reason"@,
        "node-id"@ != "candidate"@,
        "node-id"@ != "recipe-identity"@,
        "node-id"@ != "diagnostics"@,
        "status"@ != "reason"@,
        "status"@ != "candidate"@,
        "status"@ != "recipe-identity"@,
        "status"@ != "diagnostics"@,
        "reason"@ != "candidate"@,
        "reason"@ != "recipe-identity"@,
        "reason"@ != "diagnostics"@,
        "candidate"@ != "recipe-identity"@,
        "candidate"@ != "diagnostics"@,
        "recipe-identity"@ != "diagnostics"@,
        "succeeded"@ != "failed"@,
        "succeeded"@ != "deferred"@,
        "failed"@ != "deferred"@,
{
    reveal_strlit("node-id");
    reveal_strlit("status");
    reveal_strlit("reason");
    reveal_strlit("candidate");
    reveal_strlit("recipe-identity");
    reveal_strlit("diagnostics");
    reveal_strlit("succeeded");
    reveal_strlit("failed");
    reveal_strlit("deferred");
    assert("node-id"@.len() != "status"@.len());
    assert("node-id"@[0] != "reason"@[0]);
    assert("node-id"@[0] != "candidate"@[0]);
    assert("node-id"@[0] != "recipe-identity"@[0]);
    assert("node-id"@[0] != "diagnostics"@[0]);
    assert("status"@[0] != "reason"@[0]);
    assert("status"@[0] != "candidate"@[0]);
    assert("status"@[0] != "recipe-identity"@[0]);
    assert("status"@[0] != "diagnostics"@[0]);
    assert("reason"@[0] != "candidate"@[0]);
    assert("reason"@.len() != "recipe-identity"@.len());
    assert("reason"@[0] != "diagnostics"@[0]);
    assert("candidate"@[0] != "recipe-identity"@[0]);
    assert("candidate"@[0] != "diagnostics"@[0]);
    assert("recipe-identity"@[0] != "diagnostics"@[0]);
    assert("succeeded"@[0] != "failed"@[0]);
    assert("succeeded"@[0] != "deferred"@[0]);
    assert("failed"@[0] != "deferred"@[0]);
}

proof fn lemma_assoc_push_other(items: Seq<SexprV>, key: Seq<char>, k2: Seq<char>, v: SexprV)
    requires
        key != k2,
    ensures
        assoc_items(items.push(pair_v(k2, v)), key) == assoc_items(items, key),
    decreases items.len(),
{
    if items.len() > 0 {
        assert(items.push(pair_v(k2, v))[0] == items[0]);
        assert(items.push(pair_v(k2, v)).drop_first() =~= items.drop_first().push(pair_v(k2, v)));
        lemma_assoc_push_other(items.drop_first(), key, k2, v);
    } else {
        assert(items.push(pair_v(k2, v))[0] == pair_v(k2, v));
        assert(pair_v(k2, v)->List_0[0] == SexprV::Sym(k2));
        assert(!is_pair_with_key(pair_v(k2, v), key));
        assert(items.push(pair_v(k2, v)).drop_first() =~= Seq::<SexprV>::empty());
        assert(assoc_items(Seq::<SexprV>::empty(), key) is None);
        assert(assoc_items(items, key) is None);
    }
}

proof fn lemma_assoc_push_absent(items: Seq<SexprV>, key: Seq<char>, v: SexprV)
    requires
        assoc_items(items, key) is None,
    ensures
        assoc_items(items.push(pair_v(key, v)), key) == Some(v),
    decreases items.len(),
{
    if items.len() > 0 {
        assert(items.push(pair_v(key, v))[0] == items[0]);
        assert(items.push(pair_v(key, v)).drop_first() =~= items.drop_first().push(pair_v(key, v)));
        lemma_assoc_push_absent(items.drop_first(), key, v);
    } else {
        assert(items.push(pair_v(key, v))[0] == pair_v(key, v));
    }
}

/// Reading back what `to_sexpr` prints gives the same result: for every
/// execution result `r`, `from_sexpr(to_sexpr(r))` is `r` again (and so
/// reprints identically).
pub proof fn lemma_result_round_trip(r: ResultV)
    ensures
        parse_result_v(result_v(r)) == Some(r),
{
    reveal_result_keys();
    reveal_strlit("execution-result");
    let a0 = Seq::<SexprV>::empty();
    let a1 = a0.push(pair_v("node-id"@, SexprV::Str(r.node_id)));
    let a = a1.push(pair_v("status"@, SexprV::Sym(status_text(r.status))));
    assert(a =~= seq![pair_v("node-id"@, SexprV::Str(r.node_id)), pair_v("status"@, SexprV::Sym(status_text(r.status)))]);
    let b = if r.status == ExecutionStatus::Deferred { a.push(pair_v("reason"@, SexprV::Sym("requires-model"@))) } else { a };
    let c = match r.candidate { Some(v) => b.push(pair_v("candidate"@, v)), None => b };
    let d = match r.recipe_identity { Some(s) => c.push(pair_v("recipe-identity"@, SexprV::Str(s))), None => c };
    let e = d.push(pair_v("diagnostics"@, SexprV::List(r.diagnostics)));
    assert(e == result_items_v(r));
    // every key is absent from the empty prefix
    assert(assoc_items(a0, "node-id"@) is None);
    lemma_assoc_push_absent(a0, "node-id"@, SexprV::Str(r.node_id));
    assert(assoc_items(a1, "status"@) is None) by {
        lemma_assoc_push_other(a0, "status"@, "node-id"@, SexprV::Str(r.node_id));
    }
    lemma_assoc_push_absent(a1, "status"@, SexprV::Sym(status_text(r.status)));
    lemma_assoc_push_other(a1, "node-id"@, "status"@, SexprV::Sym(status_text(r.status)));
    // the keys not yet pushed are absent from `a`
    assert(assoc_items(a, "candidate"@) is None) by {
        lemma_assoc_push_other(a0, "candidate"@, "node-id"@, SexprV::Str(r.node_id));
        lemma_assoc_push_other(a1, "candidate"@, "status"@, SexprV::Sym(status_text(r.status)));
    }
    assert(assoc_items(a, "recipe-identity"@) is None) by {
        lemma_assoc_push_other(a0, "recipe-identity"@, "node-id"@, SexprV::Str(r.node_id));
        lemma_assoc_push_other(a1, "recipe-identity"@, "status"@, SexprV::Sym(status_text(r.status)));
    }
    assert(assoc_items(a, "diagnostics"@) is None) by {
        lemma_assoc_push_other(a0, "diagnostics"@, "node-id"@, SexprV::Str(r.node_id));
        lemma_assoc_push_other(a1, "diagnostics"@, "status"@, SexprV::Sym(status_text(r.status)));
    }
    // reason
    if r.status == ExecutionStatus::Deferred {
        lemma_assoc_push_other(a, "node-id"@, "reason"@, SexprV::Sym("requires-model"@));
        lemma_assoc_push_other(a, "status"@, "reason"@, SexprV::Sym("requires-model"@));
        lemma_assoc_push_other(a, "candidate"@, "reason"@, SexprV::Sym("requires-model"@));
        lemma_assoc_push_other(a, "recipe-identity"@, "reason"@, SexprV::Sym("requires-model"@));
        lemma_assoc_push_other(a, "diagnostics"@, "reason"@, SexprV::Sym("requires-model"@));
    }
    // candidate
    match r.candidate {
        Some(v) => {
            lemma_assoc_push_absent(b, "candidate"@, v);
            lemma_assoc_push_other(b, "node-id"@, "candidate"@, v);
            lemma_assoc_push_other(b, "status"@, "candidate"@, v);
            lemma_assoc_push_other(b, "recipe-identity"@, "candidate"@, v);
            lemma_assoc_push_other(b, "diagnostics"@, "candidate"@, v);
        },
        None => {},
    }
    match r.recipe_identity {
        Some(t) => {
            lemma_assoc_push_absent(c, "recipe-identity"@, SexprV::Str(t));
            lemma_assoc_push_other(c, "node-id"@, "recipe-identity"@, SexprV::Str(t));
            lemma_assoc_push_other(c, "status"@, "recipe-identity"@, SexprV::Str(t));
            lemma_assoc_push_other(c, "candidate"@, "recipe-identity"@, SexprV::Str(t));
            lemma_assoc_push_other(c, "diagnostics"@, "recipe-identity"@, SexprV::Str(t));
        },
        None => {},
    }
    lemma_assoc_push_absent(d, "diagnostics"@, SexprV::List(r.diagnostics));
    lemma_assoc_push_other(d, "node-id"@, "diagnostics"@, SexprV::List(r.diagnostics));
    lemma_assoc_push_other(d, "status"@, "diagnostics"@, SexprV::List(r.diagnostics));
    lemma_assoc_push_other(d, "candidate"@, "diagnostics"@, SexprV::List(r.diagnostics));
    lemma_assoc_push_other(d, "recipe-identity"@, "diagnostics"@, SexprV::List(r.diagnostics));
    let body = SexprV::List(e);
    assert(assoc_v(body, "node-id"@) == Some(SexprV::Str(r.node_id)));
    assert(assoc_v(body, "status"@) == Some(SexprV::Sym(status_text(r.status))));
    assert(assoc_v(body, "candidate"@) == r.candidate);
    assert(assoc_v(body, "diagnostics"@) == Some(SexprV::List(r.diagnostics)));
    assert(match assoc_v(body, "recipe-identity"@) {
        Some(SexprV::Str(t)) => Some(t),
        _ => None,
    } == r.recipe_identity);
}

// ---- text helpers ----

/// `"# frozen_string_literal: true\n# Generated by gymnast -- do not
/// edit.\n# <title>\n\n"`.
pub open spec fn header_v(title: Seq<char>) -> Seq<char> {
    "# frozen_string_literal: true\n# Generated by gymnast -- do not edit.\n# "@ + title + "\n\n"@
}

fn ruby_comment_header(title: &str) -> (r: String)
    ensures
        r@ == header_v(title@),
{
    let mut r = owned("# frozen_string_literal: true\n# Generated by gymnast -- do not edit.\n# ");
    push_str(&mut r, title);
    push_str(&mut r, "\n\n");
    r
}

/// The content of a string, or the printed form of any other value.
pub open spec fn plain_text_v(v: SexprV) -> Seq<char> {
    match v {
        SexprV::Str(s) => s,
        _ => print_v(v),
    }
}

fn plain_text(v: &Sexpr) -> (r: String)
    ensures
        r@ == plain_text_v(v@),
{
    match v {
        Sexpr::Str(s) => s.clone(),
        _ => v.print(),
    }
}

/// `snake_case` to `PascalCase`: underscores dropped, the first
/// character after each run of underscores (and the very first) upper
/// cased.
pub open spec fn pascal_from(cs: Seq<char>, at_start: bool) -> Seq<char>
    decreases cs.len(),
{
    if cs.len() == 0 {
        Seq::empty()
    } else if cs[0] == '_' {
        pascal_from(cs.drop_first(), true)
    } else if at_start {
        upper_char_v(cs[0]) + pascal_from(cs.drop_first(), false)
    } else {
        seq![cs[0]] + pascal_from(cs.drop_first(), false)
    }
}

pub open spec fn pascal_v(s: Seq<char>) -> Seq<char> {
    pascal_from(s, true)
}

/// `snake_case`/`already_pascal` to `PascalCase`.
pub fn to_pascal_case(s: &str) -> (r: String)
    ensures
        r@ == pascal_v(s@),
{
    let cs = chars_of(s);
    let mut out = String::new();
    let mut at_start = true;
    let mut i: usize = 0;
    assert(cs@.skip(0) =~= cs@);
    while i < cs.len()
        invariant
            i <= cs.len(),
            cs@ == s@,
            pascal_v(s@) == out@ + pascal_from(cs@.skip(i as int), at_start),
        decreases cs.len() - i,
    {
        let c = cs[i];
        proof {
            assert(cs@.skip(i as int)[0] == c);
            assert(cs@.skip(i as int).drop_first() =~= cs@.skip(i + 1));
        }
        if c == '_' {
            at_start = true;
        } else if at_start {
            let u = char_to_uppercase(c);
            let ghost before = out@;
            push_str(&mut out, u.as_str());
            assert(before + (upper_char_v(c) + pascal_from(cs@.skip(i + 1), false)) =~= out@ + pascal_from(cs@.skip(i + 1), false));
            at_start = false;
        } else {
            let ghost before = out@;
            push_char(&mut out, c);
            assert(before + (seq![c] + pascal_from(cs@.skip(i + 1), false)) =~= out@ + pascal_from(cs@.skip(i + 1), false));
        }
        i = i + 1;
    }
    assert(cs@.skip(cs.len() as int) =~= Seq::<char>::empty());
    assert(out@ + Seq::<char>::empty() =~= out@);
    out
}

/// The concatenation of `f` over `ns`, in order.
pub open spec fn cat_nodes(ns: Seq<IrNode>, f: spec_fn(IrNode) -> Seq<char>) -> Seq<char>
    decreases ns.len(),
{
    if ns.len() == 0 {
        Seq::empty()
    } else {
        cat_nodes(ns.drop_last(), f) + f(ns.last())
    }
}

/// The concatenation of `f` over `xs`, in order.
pub open spec fn cat_values(xs: Seq<SexprV>, f: spec_fn(SexprV) -> Seq<char>) -> Seq<char>
    decreases xs.len(),
{
    if xs.len() == 0 {
        Seq::empty()
    } else {
        cat_values(xs.drop_last(), f) + f(xs.last())
    }
}

pub open spec fn slice_v(slice: Seq<&IrNode>) -> Seq<IrNode> {
    slice.map_values(|n: &IrNode| *n)
}

pub open spec fn of_kind(slice: Seq<IrNode>, kind: Seq<char>) -> Seq<IrNode> {
    crate::ir::nodes_with_kind(slice, kind)
}

fn nodes_of_kind<'a>(ir_slice: &[&'a IrNode], kind: &str) -> (r: Vec<&'a IrNode>)
    ensures
        slice_v(r@) == of_kind(slice_v(ir_slice@), kind@),
{
    let ghost sv = slice_v(ir_slice@);
    let mut out: Vec<&'a IrNode> = Vec::new();
    let mut i: usize = 0;
    while i < ir_slice.len()
        invariant
            i <= ir_slice.len(),
            sv == slice_v(ir_slice@),
            slice_v(out@) == of_kind(sv.take(i as int), kind@),
        decreases ir_slice.len() - i,
    {
        proof {
            assert(sv.take(i + 1).drop_last() =~= sv.take(i as int));
            assert(sv.take(i + 1).last() == *ir_slice@[i as int]);
        }
        if str_eq(ir_slice[i].kind.as_str(), kind) {
            let ghost before = slice_v(out@);
            out.push(ir_slice[i]);
            assert(slice_v(out@) =~= before.push(*ir_slice@[i as int]));
        }
        i = i + 1;
    }
    assert(sv.take(ir_slice.len() as int) =~= sv);
    out
}

/// The printed value of field `key` of `n`, or `default`.
pub open spec fn field_print_or(n: IrNode, key: Seq<char>, default: Seq<char>) -> Seq<char> {
    match first_field(n.fields@, key) {
        Some(v) => print_v(v),
        None => default,
    }
}

fn field_print_or_exec(n: &IrNode, key: &str, default: &str) -> (r: String)
    ensures
        r@ == field_print_or(*n, key@, default@),
{
    match n.field(key) {
        Some(v) => v.print(),
        None => owned(default),
    }
}

// ---- design-contracts-v1 ----

pub open spec fn enum_line(item: SexprV) -> Seq<char> {
    match item {
        SexprV::Sym(s) => "    "@ + upper_text_v(s) + " = :"@ + s + "\n"@,
        _ => Seq::empty(),
    }
}

pub open spec fn variant_line(item: SexprV) -> Seq<char> {
    match item {
        SexprV::List(pair) => if pair.len() == 2 && pair[0] is Sym {
            "    class "@ + pascal_v(pair[0]->Sym_0) + " < Struct.new(:value, keyword_init: true); end\n"@
        } else {
            Seq::empty()
        },
        _ => Seq::empty(),
    }
}

/// The `:name` of each record field entry whose first item is a symbol.
pub open spec fn record_fields(items: Seq<SexprV>) -> Seq<Seq<char>>
    decreases items.len(),
{
    if items.len() == 0 {
        Seq::empty()
    } else {
        let rest = record_fields(items.drop_last());
        match items.last() {
            SexprV::List(xs) => if xs.len() > 0 && xs[0] is Sym { rest.push(":"@ + xs[0]->Sym_0) } else { rest },
            _ => rest,
        }
    }
}

/// The parts joined by `", "`.
pub open spec fn join_comma(parts: Seq<Seq<char>>) -> Seq<char>
    decreases parts.len(),
{
    if parts.len() == 0 {
        Seq::empty()
    } else if parts.len() == 1 {
        parts[0]
    } else {
        join_comma(parts.drop_last()) + ", "@ + parts.last()
    }
}

/// One Ruby declaration per `type` node: opaque, enum, record, variant,
/// or a comment for an unrecognized shape.
pub open spec fn type_decl_v(n: IrNode) -> Seq<char> {
    let name = n.name@;
    match first_field(n.fields@, ":opaque"@) {
        Some(v) => "  # "@ + name + " (opaque "@ + print_v(v) + ")\n  class "@ + name
            + "\n    attr_reader :value\n    def initialize(value)\n      @value = value\n    end\n  end\n"@,
        None => match first_field(n.fields@, ":enum"@) {
            Some(v) => "  module "@ + name + "\n"@ + cat_values(list_items_v(v), |x: SexprV| enum_line(x)) + "  end\n"@,
            None => match first_field(n.fields@, ":record"@) {
                Some(v) => "  "@ + name + " = Struct.new("@ + join_comma(record_fields(list_items_v(v))) + ", keyword_init: true)\n"@,
                None => match first_field(n.fields@, ":variant"@) {
                    Some(v) => "  module "@ + name + "\n"@ + cat_values(list_items_v(v), |x: SexprV| variant_line(x)) + "  end\n"@,
                    None => "  # "@ + name + " (unrecognized type shape)\n"@,
                },
            },
        },
    }
}

fn slice_items(v: &Sexpr) -> (r: &[Sexpr])
    ensures
        views_of(r@) == list_items_v(v@),
{
    match v {
        Sexpr::List(items) => items.as_slice(),
        _ => {
            let e: &[Sexpr] = &[];
            assert(views_of(e@) =~= Seq::<SexprV>::empty());
            e
        },
    }
}

fn enum_block(name: &str, v: &Sexpr) -> (r: String)
    ensures
        r@ == "  module "@ + name@ + "\n"@ + cat_values(list_items_v(v@), |x: SexprV| enum_line(x)) + "  end\n"@,
{
    let items = slice_items(v);
    let ghost xv = views_of(items@);
    proof {
        lemma_views_of(items@);
    }
    let mut out = concat("  module ", name);
    push_str(&mut out, "\n");
    let ghost start = out@;
    let mut i: usize = 0;
    while i < items.len()
        invariant
            i <= items.len(),
            xv == views_of(items@),
            xv.len() == items.len(),
            forall|k: int| 0 <= k < items.len() ==> #[trigger] xv[k] == items@[k]@,
            out@ == start + cat_values(xv.take(i as int), |x: SexprV| enum_line(x)),
        decreases items.len() - i,
    {
        proof {
            assert(xv.take(i + 1).drop_last() =~= xv.take(i as int));
            assert(xv.take(i + 1).last() == xv[i as int]);
        }
        let ghost before = out@;
        match items[i].as_sym() {
            Some(sym) => {
                push_str(&mut out, "    ");
                let u = str_to_uppercase(sym);
                push_str(&mut out, u.as_str());
                push_str(&mut out, " = :");
                push_str(&mut out, sym);
                push_str(&mut out, "\n");
                assert(out@ =~= before + enum_line(xv[i as int]));
            },
            None => {
                assert(out@ =~= before + enum_line(xv[i as int]));
            },
        }
        i = i + 1;
    }
    assert(xv.take(items.len() as int) =~= xv);
    push_str(&mut out, "  end\n");
    out
}

fn variant_block(name: &str, v: &Sexpr) -> (r: String)
    ensures
        r@ == "  module "@ + name@ + "\n"@ + cat_values(list_items_v(v@), |x: SexprV| variant_line(x)) + "  end\n"@,
{
    let items = slice_items(v);
    let ghost xv = views_of(items@);
    proof {
        lemma_views_of(items@);
    }
    let mut out = concat("  module ", name);
    push_str(&mut out, "\n");
    let ghost start = out@;
    let mut i: usize = 0;
    while i < items.len()
        invariant
            i <= items.len(),
            xv == views_of(items@),
            xv.len() == items.len(),
            forall|k: int| 0 <= k < items.len() ==> #[trigger] xv[k] == items@[k]@,
            out@ == start + cat_values(xv.take(i as int), |x: SexprV| variant_line(x)),
        decreases items.len() - i,
    {
        proof {
            assert(xv.take(i + 1).drop_last() =~= xv.take(i as int));
            assert(xv.take(i + 1).last() == xv[i as int]);
        }
        let ghost before = out@;
        match &items[i] {
            Sexpr::List(pair) => {
                proof {
                    lemma_views_of(pair@);
                }
                if pair.len() == 2 {
                    match pair[0].as_sym() {
                        Some(tag) => {
                            push_str(&mut out, "    class ");
                            let p = to_pascal_case(tag);
                            push_str(&mut out, p.as_str());
                            push_str(&mut out, " < Struct.new(:value, keyword_init: true); end\n");
                        },
                        None => {},
                    }
                }
            },
            _ => {},
        }
        assert(out@ =~= before + variant_line(xv[i as int]));
        i = i + 1;
    }
    assert(xv.take(items.len() as int) =~= xv);
    push_str(&mut out, "  end\n");
    out
}

fn record_line(name: &str, v: &Sexpr) -> (r: String)
    ensures
        r@ == "  "@ + name@ + " = Struct.new("@ + join_comma(record_fields(list_items_v(v@))) + ", keyword_init: true)\n"@,
{
    let items = slice_items(v);
    let ghost xv = views_of(items@);
    proof {
        lemma_views_of(items@);
    }
    let mut joined = String::new();
    let mut count: usize = 0;
    let mut i: usize = 0;
    while i < items.len()
        invariant
            i <= items.len(),
            xv == views_of(items@),
            xv.len() == items.len(),
            forall|k: int| 0 <= k < items.len() ==> #[trigger] xv[k] == items@[k]@,
            count == record_fields(xv.take(i as int)).len(),
            count <= i,
            joined@ == join_comma(record_fields(xv.take(i as int))),
        decreases items.len() - i,
    {
        proof {
            assert(xv.take(i + 1).drop_last() =~= xv.take(i as int));
            assert(xv.take(i + 1).last() == xv[i as int]);
        }
        match &items[i] {
            Sexpr::List(xs) => {
                proof {
                    lemma_views_of(xs@);
                }
                if xs.len() > 0 {
                    match xs[0].as_sym() {
                        Some(f) => {
                            if count > 0 {
                                push_str(&mut joined, ", ");
                            }
                            push_str(&mut joined, ":");
                            push_str(&mut joined, f);
                            count = count + 1;
                            proof {
                                let fs = record_fields(xv.take(i + 1));
                                assert(fs.drop_last() == record_fields(xv.take(i as int)));
                                assert(fs.last() == ":"@ + f@);
                                if fs.len() == 1 {
                                    assert(joined@ =~= fs[0]);
                                } else {
                                    assert(joined@ =~= join_comma(fs.drop_last()) + ", "@ + fs.last());
                                }
                            }
                        },
                        None => {},
                    }
                }
            },
            _ => {},
        }
        i = i + 1;
    }
    assert(xv.take(items.len() as int) =~= xv);
    let mut out = concat("  ", name);
    push_str(&mut out, " = Struct.new(");
    push_str(&mut out, joined.as_str());
    push_str(&mut out, ", keyword_init: true)\n");
    out
}

/// One Ruby declaration per `type` node (see `type_decl_v`).
pub fn emit_type_declaration(node: &IrNode) -> (r: String)
    ensures
        r@ == type_decl_v(*node),
{
    let name = node.name.as_str();
    if let Some(v) = node.field(":opaque") {
        let mut out = concat("  # ", name);
        push_str(&mut out, " (opaque ");
        let p = v.print();
        push_str(&mut out, p.as_str());
        push_str(&mut out, ")\n  class ");
        push_str(&mut out, name);
        push_str(&mut out, "\n    attr_reader :value\n    def initialize(value)\n      @value = value\n    end\n  end\n");
        return out;
    }
    if let Some(v) = node.field(":enum") {
        return enum_block(name, v);
    }
    if let Some(v) = node.field(":record") {
        return record_line(name, v);
    }
    if let Some(v) = node.field(":variant") {
        return variant_block(name, v);
    }
    let mut out = concat("  # ", name);
    push_str(&mut out, " (unrecognized type shape)\n");
    out
}

// ---- candidates ----

pub open spec fn nil_v() -> SexprV {
    SexprV::List(Seq::empty())
}

/// `(candidate ((schema "gymnast.candidate/0.1") (node-id "..") (files
/// (("path" "content") ..)) (implements ("id" ..)) (edge-uses nil)
/// (assumptions nil) (unresolved nil)))`.
pub open spec fn candidate_v(node_id: Seq<char>, files: Seq<(Seq<char>, Seq<char>)>, slice: Seq<IrNode>) -> SexprV {
    SexprV::List(seq![
        SexprV::Sym("candidate"@),
        SexprV::List(seq![
            pair_v("schema"@, SexprV::Str("gymnast.candidate/0.1"@)),
            pair_v("node-id"@, SexprV::Str(node_id)),
            pair_v("files"@, SexprV::List(files.map_values(|f: (Seq<char>, Seq<char>)| SexprV::List(seq![SexprV::Str(f.0), SexprV::Str(f.1)])))),
            pair_v("implements"@, SexprV::List(slice.map_values(|n: IrNode| SexprV::Str(n.id@)))),
            pair_v("edge-uses"@, nil_v()),
            pair_v("assumptions"@, nil_v()),
            pair_v("unresolved"@, nil_v()),
        ]),
    ])
}

/// The candidate envelope for a node's files and resolved slice (see
/// `candidate_v`); every emitter frames its output through it.
pub fn build_candidate(node: &PlanNode, files: Vec<(String, String)>, ir_slice: &[&IrNode]) -> (r: Sexpr)
    ensures
        r@ == candidate_v(node.id@, files@.map_values(|f: (String, String)| (f.0@, f.1@)), slice_v(ir_slice@)),
{
    let ghost fv = files@.map_values(|f: (String, String)| (f.0@, f.1@));
    let mut file_list: Vec<Sexpr> = Vec::new();
    let mut i: usize = 0;
    while i < files.len()
        invariant
            i <= files.len(),
            fv == files@.map_values(|f: (String, String)| (f.0@, f.1@)),
            views_of(file_list@) == fv.take(i as int).map_values(|f: (Seq<char>, Seq<char>)| SexprV::List(seq![SexprV::Str(f.0), SexprV::Str(f.1)])),
        decreases files.len() - i,
    {
        let e = list2(Sexpr::Str(files[i].0.clone()), Sexpr::Str(files[i].1.clone()));
        proof {
            lemma_views_push(file_list@, e);
        }
        file_list.push(e);
        assert(fv.take(i + 1).map_values(|f: (Seq<char>, Seq<char>)| SexprV::List(seq![SexprV::Str(f.0), SexprV::Str(f.1)]))
            =~= fv.take(i as int).map_values(|f: (Seq<char>, Seq<char>)| SexprV::List(seq![SexprV::Str(f.0), SexprV::Str(f.1)])).push(
                SexprV::List(seq![SexprV::Str(fv[i as int].0), SexprV::Str(fv[i as int].1)])));
        i = i + 1;
    }
    assert(fv.take(files.len() as int) =~= fv);
    let ghost sv = slice_v(ir_slice@);
    let mut implements: Vec<Sexpr> = Vec::new();
    let mut k: usize = 0;
    while k < ir_slice.len()
        invariant
            k <= ir_slice.len(),
            sv == slice_v(ir_slice@),
            views_of(implements@) == sv.take(k as int).map_values(|n: IrNode| SexprV::Str(n.id@)),
        decreases ir_slice.len() - k,
    {
        let e = Sexpr::Str(ir_slice[k].id.clone());
        proof {
            lemma_views_push(implements@, e);
        }
        implements.push(e);
        assert(sv.take(k + 1).map_values(|n: IrNode| SexprV::Str(n.id@)) =~= sv.take(k as int).map_values(|n: IrNode| SexprV::Str(n.id@)).push(SexprV::Str(sv[k as int].id@)));
        k = k + 1;
    }
    assert(sv.take(ir_slice.len() as int) =~= sv);
    let body = vec![
        Sexpr::pair("schema", Sexpr::Str(owned("gymnast.candidate/0.1"))),
        Sexpr::pair("node-id", Sexpr::Str(node.id.clone())),
        Sexpr::pair("files", Sexpr::List(file_list)),
        Sexpr::pair("implements", Sexpr::List(implements)),
        Sexpr::pair("edge-uses", Sexpr::List(Vec::new())),
        Sexpr::pair("assumptions", Sexpr::List(Vec::new())),
        Sexpr::pair("unresolved", Sexpr::List(Vec::new())),
    ];
    proof {
        lemma_views_of(body@);
        assert(views_of(Seq::<Sexpr>::empty()) =~= Seq::<SexprV>::empty());
    }
    let b = Sexpr::List(body);
    assert(views_of(b->List_0@) =~= candidate_v(node.id@, fv, sv)->List_0[1]->List_0);
    list2(Sexpr::sym("candidate"), b)
}

/// The first path of `ps`, or `default`.
pub open spec fn first_or(ps: Seq<String>, default: Seq<char>) -> Seq<char> {
    if ps.len() > 0 { ps[0]@ } else { default }
}

fn first_path_or(ps: &Vec<String>, default: &str) -> (r: String)
    ensures
        r@ == first_or(ps@, default@),
{
    if ps.len() > 0 { ps[0].clone() } else { owned(default) }
}

pub open spec fn actor_line(n: IrNode) -> Seq<char> {
    "  # Actor: "@ + n.name@ + "\n"@
}

pub open spec fn component_line(n: IrNode) -> Seq<char> {
    let resp = match first_field(n.fields@, ":responsibility"@) {
        Some(v) => plain_text_v(v),
        None => Seq::empty(),
    };
    "  # Component: "@ + n.name@ + " - "@ + resp + "\n"@
}

pub open spec fn flow_line(n: IrNode) -> Seq<char> {
    "  # Capability edge: "@ + field_print_or(n, ":from"@, Seq::empty()) + " -> "@ + field_print_or(n, ":to"@, Seq::empty())
        + " grant "@ + field_print_or(n, ":grant"@, "nil"@) + " deny "@ + field_print_or(n, ":deny"@, "nil"@) + "\n"@
}

/// The design-contracts file: actors, types, components and capability
/// edges of the slice.
pub open spec fn design_text(slice: Seq<IrNode>) -> Seq<char> {
    header_v("Design contracts"@) + "module Contracts\n"@
        + cat_nodes(of_kind(slice, "actor"@), |n: IrNode| actor_line(n)) + "\n"@ + "  # Types\n"@
        + cat_nodes(of_kind(slice, "type"@), |n: IrNode| type_decl_v(n)) + "\n"@
        + cat_nodes(of_kind(slice, "component"@), |n: IrNode| component_line(n))
        + cat_nodes(of_kind(slice, "flow"@), |n: IrNode| flow_line(n)) + "end\n"@
}

fn emit_actor_line(out: &mut String, n: &IrNode)
    ensures
        final(out)@ == old(out)@ + actor_line(*n),
{
    push_str(out, "  # Actor: ");
    push_str(out, n.name.as_str());
    push_str(out, "\n");
}

fn emit_component_line(out: &mut String, n: &IrNode)
    ensures
        final(out)@ == old(out)@ + component_line(*n),
{
    push_str(out, "  # Component: ");
    push_str(out, n.name.as_str());
    push_str(out, " - ");
    match n.field(":responsibility") {
        Some(v) => {
            let t = plain_text(v);
            push_str(out, t.as_str());
        },
        None => {},
    }
    push_str(out, "\n");
}

fn emit_flow_line(out: &mut String, n: &IrNode)
    ensures
        final(out)@ == old(out)@ + flow_line(*n),
{
    push_str(out, "  # Capability edge: ");
    let f = field_print_or_exec(n, ":from", "");
    push_str(out, f.as_str());
    push_str(out, " -> ");
    let t = field_print_or_exec(n, ":to", "");
    push_str(out, t.as_str());
    push_str(out, " grant ");
    let g = field_print_or_exec(n, ":grant", "nil");
    push_str(out, g.as_str());
    push_str(out, " deny ");
    let d = field_print_or_exec(n, ":deny", "nil");
    push_str(out, d.as_str());
    push_str(out, "\n");
    proof {
        reveal_strlit("");
    }
}

/// Which per-node line a design or harness section prints.
#[derive(Clone, Copy, PartialEq, Eq, Structural)]
enum Line {
    Actor,
    TypeDecl,
    Component,
    Flow,
    Behavior,
    Invariant,
    Constraint,
    Artifact,
}

pub open spec fn id_line(prefix: Seq<char>, n: IrNode) -> Seq<char> {
    prefix + n.id@ + "\n"@
}

spec fn line_v(k: Line, n: IrNode) -> Seq<char> {
    match k {
        Line::Actor => actor_line(n),
        Line::TypeDecl => type_decl_v(n),
        Line::Component => component_line(n),
        Line::Flow => flow_line(n),
        Line::Behavior => id_line("    # behavior: "@, n),
        Line::Invariant => id_line("    # invariant: "@, n),
        Line::Constraint => id_line("    # constraint: "@, n),
        Line::Artifact => "\n    "@ + n.id@,
    }
}

fn emit_lines(out: &mut String, ns: &Vec<&IrNode>, k: Line)
    ensures
        final(out)@ == old(out)@ + cat_nodes(slice_v(ns@), |n: IrNode| line_v(k, n)),
{
    let ghost start = out@;
    let ghost nv = slice_v(ns@);
    let mut i: usize = 0;
    while i < ns.len()
        invariant
            i <= ns.len(),
            nv == slice_v(ns@),
            out@ == start + cat_nodes(nv.take(i as int), |n: IrNode| line_v(k, n)),
        decreases ns.len() - i,
    {
        proof {
            assert(nv.take(i + 1).drop_last() =~= nv.take(i as int));
            assert(nv.take(i + 1).last() == *ns@[i as int]);
        }
        let ghost before = out@;
        let n = ns[i];
        match k {
            Line::Actor => emit_actor_line(out, n),
            Line::TypeDecl => {
                let t = emit_type_declaration(n);
                push_str(out, t.as_str());
            },
            Line::Component => emit_component_line(out, n),
            Line::Flow => emit_flow_line(out, n),
            Line::Behavior => {
                push_str(out, "    # behavior: ");
                push_str(out, n.id.as_str());
                push_str(out, "\n");
            },
            Line::Invariant => {
                push_str(out, "    # invariant: ");
                push_str(out, n.id.as_str());
                push_str(out, "\n");
            },
            Line::Constraint => {
                push_str(out, "    # constraint: ");
                push_str(out, n.id.as_str());
                push_str(out, "\n");
            },
            Line::Artifact => {
                push_str(out, "\n    ");
                push_str(out, n.id.as_str());
            },
        }
        assert(out@ =~= before + line_v(k, *n));
        i = i + 1;
    }
    assert(nv.take(ns.len() as int) =~= nv);
}

proof fn lemma_cat_nodes_ext(ns: Seq<IrNode>, f: spec_fn(IrNode) -> Seq<char>, g: spec_fn(IrNode) -> Seq<char>)
    requires
        forall|n: IrNode| #[trigger] f(n) == g(n),
    ensures
        cat_nodes(ns, f) == cat_nodes(ns, g),
    decreases ns.len(),
{
    if ns.len() > 0 {
        lemma_cat_nodes_ext(ns.drop_last(), f, g);
    }
}

pub fn design_contracts_executor(ir_slice: &[&IrNode], node: &PlanNode) -> (r: Sexpr)
    ensures
        r@ == candidate_v(node.id@, seq![(first_or(node.may_write@, "generated/design/contracts.rb"@), design_text(slice_v(ir_slice@)))], slice_v(ir_slice@)),
{
    let ghost sv = slice_v(ir_slice@);
    let types = nodes_of_kind(ir_slice, "type");
    let actors = nodes_of_kind(ir_slice, "actor");
    let components = nodes_of_kind(ir_slice, "component");
    let flows = nodes_of_kind(ir_slice, "flow");
    let mut content = ruby_comment_header("Design contracts");
    push_str(&mut content, "module Contracts\n");
    emit_lines(&mut content, &actors, Line::Actor);
    push_str(&mut content, "\n");
    push_str(&mut content, "  # Types\n");
    emit_lines(&mut content, &types, Line::TypeDecl);
    push_str(&mut content, "\n");
    emit_lines(&mut content, &components, Line::Component);
    emit_lines(&mut content, &flows, Line::Flow);
    push_str(&mut content, "end\n");
    proof {
        lemma_cat_nodes_ext(of_kind(sv, "actor"@), |n: IrNode| line_v(Line::Actor, n), |n: IrNode| actor_line(n));
        lemma_cat_nodes_ext(of_kind(sv, "type"@), |n: IrNode| line_v(Line::TypeDecl, n), |n: IrNode| type_decl_v(n));
        lemma_cat_nodes_ext(of_kind(sv, "component"@), |n: IrNode| line_v(Line::Component, n), |n: IrNode| component_line(n));
        lemma_cat_nodes_ext(of_kind(sv, "flow"@), |n: IrNode| line_v(Line::Flow, n), |n: IrNode| flow_line(n));
        assert(content@ =~= design_text(sv));
    }
    let path = first_path_or(&node.may_write, "generated/design/contracts.rb");
    let files = vec![(path, content)];
    assert(files@.map_values(|f: (String, String)| (f.0@, f.1@)) =~= seq![(first_or(node.may_write@, "generated/design/contracts.rb"@), design_text(sv))]);
    build_candidate(node, files, ir_slice)
}

// ---- interface-contracts-v1 ----

pub open spec fn print_or_nil(o: Option<SexprV>) -> Seq<char> {
    match o {
        Some(v) => print_v(v),
        None => "nil"@,
    }
}

/// One signature comment and raising stub per operation clause `(kind
/// name :actor a :input i :output o :errors e)`; nothing for a clause
/// shorter than two items.
pub open spec fn op_sig_v(clause: SexprV) -> Seq<char> {
    match clause {
        SexprV::List(items) => if items.len() >= 2 {
            let name = match items[1] {
                SexprV::Sym(s) => s,
                _ => "operation"@,
            };
            let rest = items.skip(2);
            let actor = match kw_value(rest, ":actor"@) {
                Some(SexprV::Sym(a)) => a,
                _ => "actor"@,
            };
            "    # input: "@ + print_or_nil(kw_value(rest, ":input"@)) + ", output: "@ + print_or_nil(kw_value(rest, ":output"@))
                + ", errors: "@ + print_or_nil(kw_value(rest, ":errors"@)) + "\n    def "@ + name + "("@ + actor
                + ", request)\n      raise NotImplementedError\n    end\n"@
        } else {
            Seq::empty()
        },
        _ => Seq::empty(),
    }
}

fn kw_print_or_nil(items: &[Sexpr], key: &str) -> (r: String)
    ensures
        r@ == print_or_nil(kw_value(views_of(items@), key@)),
{
    match keyword_value(items, key) {
        Some(v) => v.print(),
        None => owned("nil"),
    }
}

/// The signature stub of one operation clause (see `op_sig_v`).
pub fn emit_operation_signature(clause: &Sexpr) -> (r: String)
    ensures
        r@ == op_sig_v(clause@),
{
    let items = match clause {
        Sexpr::List(items) => items,
        _ => {
            return String::new();
        },
    };
    proof {
        lemma_views_of(items@);
    }
    if items.len() < 2 {
        return String::new();
    }
    let name = match items[1].as_sym() {
        Some(s) => s,
        None => "operation",
    };
    let rest = items.as_slice().split_at(2).1;
    proof {
        lemma_views_of(rest@);
        assert(views_of(rest@) =~= views_of(items@).skip(2));
    }
    let actor = match keyword_value(rest, ":actor") {
        Some(v) => match v.as_sym() {
            Some(a) => a,
            None => "actor",
        },
        None => "actor",
    };
    let mut out = owned("    # input: ");
    let i = kw_print_or_nil(rest, ":input");
    push_str(&mut out, i.as_str());
    push_str(&mut out, ", output: ");
    let o = kw_print_or_nil(rest, ":output");
    push_str(&mut out, o.as_str());
    push_str(&mut out, ", errors: ");
    let e = kw_print_or_nil(rest, ":errors");
    push_str(&mut out, e.as_str());
    push_str(&mut out, "\n    def ");
    push_str(&mut out, name);
    push_str(&mut out, "(");
    push_str(&mut out, actor);
    push_str(&mut out, ", request)\n      raise NotImplementedError\n    end\n");
    out
}

pub open spec fn iface_block(n: IrNode) -> Seq<char> {
    "  module "@ + pascal_v(n.name@) + "\n    class Service\n"@
        + cat_values(views_of(n.clauses@), |c: SexprV| op_sig_v(c)) + "    end\n  end\n"@
}

/// The interface-contracts file: one module per interface node.
pub open spec fn interface_text(slice: Seq<IrNode>) -> Seq<char> {
    header_v("Interface contracts"@) + cat_nodes(of_kind(slice, "interface"@), |n: IrNode| iface_block(n))
}

fn emit_iface_block(out: &mut String, n: &IrNode)
    ensures
        final(out)@ == old(out)@ + iface_block(*n),
{
    let ghost start = out@;
    push_str(out, "  module ");
    let p = to_pascal_case(n.name.as_str());
    push_str(out, p.as_str());
    push_str(out, "\n    class Service\n");
    let ghost mid = out@;
    let ghost cv = views_of(n.clauses@);
    proof {
        lemma_views_of(n.clauses@);
    }
    let mut i: usize = 0;
    while i < n.clauses.len()
        invariant
            i <= n.clauses.len(),
            cv == views_of(n.clauses@),
            cv.len() == n.clauses.len(),
            forall|k: int| 0 <= k < n.clauses.len() ==> #[trigger] cv[k] == n.clauses@[k]@,
            out@ == mid + cat_values(cv.take(i as int), |c: SexprV| op_sig_v(c)),
        decreases n.clauses.len() - i,
    {
        proof {
            assert(cv.take(i + 1).drop_last() =~= cv.take(i as int));
            assert(cv.take(i + 1).last() == cv[i as int]);
        }
        let sig = emit_operation_signature(&n.clauses[i]);
        push_str(out, sig.as_str());
        i = i + 1;
    }
    assert(cv.take(n.clauses.len() as int) =~= cv);
    push_str(out, "    end\n  end\n");
    assert(out@ =~= start + iface_block(*n));
}

pub fn interface_contracts_executor(ir_slice: &[&IrNode], node: &PlanNode) -> (r: Sexpr)
    ensures
        r@ == candidate_v(node.id@, seq![(first_or(node.may_write@, "generated/interfaces/contracts.rb"@), interface_text(slice_v(ir_slice@)))], slice_v(ir_slice@)),
{
    let ghost sv = slice_v(ir_slice@);
    let interfaces = nodes_of_kind(ir_slice, "interface");
    let ghost iv = slice_v(interfaces@);
    let mut content = ruby_comment_header("Interface contracts");
    let ghost start = content@;
    let mut i: usize = 0;
    while i < interfaces.len()
        invariant
            i <= interfaces.len(),
            iv == slice_v(interfaces@),
            content@ == start + cat_nodes(iv.take(i as int), |n: IrNode| iface_block(n)),
        decreases interfaces.len() - i,
    {
        proof {
            assert(iv.take(i + 1).drop_last() =~= iv.take(i as int));
            assert(iv.take(i + 1).last() == *interfaces@[i as int]);
        }
        emit_iface_block(&mut content, interfaces[i]);
        i = i + 1;
    }
    assert(iv.take(interfaces.len() as int) =~= iv);
    let path = first_path_or(&node.may_write, "generated/interfaces/contracts.rb");
    let files = vec![(path, content)];
    assert(files@.map_values(|f: (String, String)| (f.0@, f.1@)) =~= seq![(first_or(node.may_write@, "generated/interfaces/contracts.rb"@), interface_text(sv))]);
    build_candidate(node, files, ir_slice)
}

// ---- acceptance-harness-v1 ----

/// `    # <tag>: <label>` for a clause list: its head symbol (else
/// `clause`) and its printed second item (else `nil`).
pub open spec fn acc_clause_line(c: SexprV) -> Seq<char> {
    match c {
        SexprV::List(items) => {
            let tag = if items.len() > 0 && items[0] is Sym { items[0]->Sym_0 } else { "clause"@ };
            let label = if items.len() > 1 { print_v(items[1]) } else { "nil"@ };
            "    # "@ + tag + ": "@ + label + "\n"@
        },
        _ => Seq::empty(),
    }
}

pub open spec fn acc_block(n: IrNode) -> Seq<char> {
    cat_values(views_of(n.clauses@), |c: SexprV| acc_clause_line(c))
}

/// The acceptance-harness file: a comment per behavior, invariant,
/// constraint and acceptance clause, then the pass summary with counts.
pub open spec fn acceptance_text(slice: Seq<IrNode>) -> Seq<char> {
    let bs = of_kind(slice, "behavior"@);
    let is = of_kind(slice, "invariant"@);
    let cs = of_kind(slice, "constraint"@);
    header_v("Acceptance harness"@) + "module AcceptanceHarness\n  def self.run(service)\n"@
        + cat_nodes(bs, |n: IrNode| id_line("    # behavior: "@, n))
        + cat_nodes(is, |n: IrNode| id_line("    # invariant: "@, n))
        + cat_nodes(cs, |n: IrNode| id_line("    # constraint: "@, n))
        + cat_nodes(of_kind(slice, "acceptance"@), |n: IrNode| acc_block(n))
        + "    { status: :pass, behaviors: "@ + nat_digits(bs.len()) + ", invariants: "@ + nat_digits(is.len())
        + ", constraints: "@ + nat_digits(cs.len()) + " }\n"@ + "  end\nend\n"@
}

fn emit_acc_block(out: &mut String, n: &IrNode)
    ensures
        final(out)@ == old(out)@ + acc_block(*n),
{
    let ghost start = out@;
    let ghost cv = views_of(n.clauses@);
    proof {
        lemma_views_of(n.clauses@);
    }
    let mut i: usize = 0;
    while i < n.clauses.len()
        invariant
            i <= n.clauses.len(),
            cv == views_of(n.clauses@),
            cv.len() == n.clauses.len(),
            forall|k: int| 0 <= k < n.clauses.len() ==> #[trigger] cv[k] == n.clauses@[k]@,
            out@ == start + cat_values(cv.take(i as int), |c: SexprV| acc_clause_line(c)),
        decreases n.clauses.len() - i,
    {
        proof {
            assert(cv.take(i + 1).drop_last() =~= cv.take(i as int));
            assert(cv.take(i + 1).last() == cv[i as int]);
        }
        let ghost before = out@;
        match &n.clauses[i] {
            Sexpr::List(items) => {
                proof {
                    lemma_views_of(items@);
                }
                let tag = if items.len() > 0 {
                    match items[0].as_sym() {
                        Some(t) => t,
                        None => "clause",
                    }
                } else {
                    "clause"
                };
                let label = if items.len() > 1 { items[1].print() } else { owned("nil") };
                push_str(out, "    # ");
                push_str(out, tag);
                push_str(out, ": ");
                push_str(out, label.as_str());
                push_str(out, "\n");
            },
            _ => {},
        }
        assert(out@ =~= before + acc_clause_line(cv[i as int]));
        i = i + 1;
    }
    assert(cv.take(n.clauses.len() as int) =~= cv);
}

pub fn acceptance_harness_executor(ir_slice: &[&IrNode], node: &PlanNode) -> (r: Sexpr)
    ensures
        r@ == candidate_v(node.id@, seq![(first_or(node.may_write@, "generated/verification/acceptance.rb"@), acceptance_text(slice_v(ir_slice@)))], slice_v(ir_slice@)),
{
    let ghost sv = slice_v(ir_slice@);
    let behaviors = nodes_of_kind(ir_slice, "behavior");
    let invariants = nodes_of_kind(ir_slice, "invariant");
    let constraints = nodes_of_kind(ir_slice, "constraint");
    let acceptances = nodes_of_kind(ir_slice, "acceptance");
    let mut content = ruby_comment_header("Acceptance harness");
    push_str(&mut content, "module AcceptanceHarness\n  def self.run(service)\n");
    emit_lines(&mut content, &behaviors, Line::Behavior);
    emit_lines(&mut content, &invariants, Line::Invariant);
    emit_lines(&mut content, &constraints, Line::Constraint);
    let ghost av = slice_v(acceptances@);
    let ghost mid = content@;
    let mut i: usize = 0;
    while i < acceptances.len()
        invariant
            i <= acceptances.len(),
            av == slice_v(acceptances@),
            content@ == mid + cat_nodes(av.take(i as int), |n: IrNode| acc_block(n)),
        decreases acceptances.len() - i,
    {
        proof {
            assert(av.take(i + 1).drop_last() =~= av.take(i as int));
            assert(av.take(i + 1).last() == *acceptances@[i as int]);
        }
        emit_acc_block(&mut content, acceptances[i]);
        i = i + 1;
    }
    assert(av.take(acceptances.len() as int) =~= av);
    push_str(&mut content, "    { status: :pass, behaviors: ");
    let b = usize_to_string(behaviors.len());
    push_str(&mut content, b.as_str());
    push_str(&mut content, ", invariants: ");
    let v = usize_to_string(invariants.len());
    push_str(&mut content, v.as_str());
    push_str(&mut content, ", constraints: ");
    let c = usize_to_string(constraints.len());
    push_str(&mut content, c.as_str());
    push_str(&mut content, " }\n");
    push_str(&mut content, "  end\nend\n");
    proof {
        lemma_cat_nodes_ext(of_kind(sv, "behavior"@), |n: IrNode| line_v(Line::Behavior, n), |n: IrNode| id_line("    # behavior: "@, n));
        lemma_cat_nodes_ext(of_kind(sv, "invariant"@), |n: IrNode| line_v(Line::Invariant, n), |n: IrNode| id_line("    # invariant: "@, n));
        lemma_cat_nodes_ext(of_kind(sv, "constraint"@), |n: IrNode| line_v(Line::Constraint, n), |n: IrNode| id_line("    # constraint: "@, n));
        assert(slice_v(behaviors@).len() == behaviors@.len());
        assert(slice_v(invariants@).len() == invariants@.len());
        assert(slice_v(constraints@).len() == constraints@.len());
        assert(content@ =~= acceptance_text(sv));
    }
    let path = first_path_or(&node.may_write, "generated/verification/acceptance.rb");
    let files = vec![(path, content)];
    assert(files@.map_values(|f: (String, String)| (f.0@, f.1@)) =~= seq![(first_or(node.may_write@, "generated/verification/acceptance.rb"@), acceptance_text(sv))]);
    build_candidate(node, files, ir_slice)
}

// ---- application-assembly-v1 ----

pub open spec fn app_name_v(slice: Seq<IrNode>) -> Seq<char> {
    let apps = of_kind(slice, "application"@);
    if apps.len() > 0 { apps[0].name@ } else { "application"@ }
}

pub open spec fn boot_text(app: Seq<char>) -> Seq<char> {
    header_v("Application assembly"@) + "module "@ + pascal_v(app) + "\n"@
        + "  def self.boot(registry = GymnastPlatform.registry)\n"@
        + "    lifecycle = registry.resolve(:lifecycle)\n"@
        + "    lifecycle.start(dependencies: [:identity, :persistence, :http])\n"@
        + "    self\n  end\n\n"@
        + "  def self.shutdown\n    GymnastPlatform.resolve(:lifecycle).stop\n  end\n"@
        + "end\n"@
}

pub open spec fn manifest_text(app: Seq<char>, slice: Seq<IrNode>) -> Seq<char> {
    "(manifest\n"@ + "  (application "@ + app + ")\n"@ + "  (platform gymnast_reference_platform_v1)\n"@
        + "  (artifacts"@ + cat_nodes(slice, |n: IrNode| "\n    "@ + n.id@) + "))\n"@
}

/// The first path of `ps` that does (`want`) or does not end with
/// `.sexpr`, or `default`.
pub open spec fn path_by_role(ps: Seq<String>, want: bool, default: Seq<char>) -> Seq<char>
    decreases ps.len(),
{
    if ps.len() == 0 {
        default
    } else if is_suffix(".sexpr"@, ps[0]@) == want {
        ps[0]@
    } else {
        path_by_role(ps.drop_first(), want, default)
    }
}

fn path_by_role_exec(ps: &Vec<String>, want: bool, default: &str) -> (r: String)
    ensures
        r@ == path_by_role(ps@, want, default@),
{
    let mut i: usize = 0;
    assert(ps@.skip(0) =~= ps@);
    while i < ps.len()
        invariant
            i <= ps.len(),
            path_by_role(ps@, want, default@) == path_by_role(ps@.skip(i as int), want, default@),
        decreases ps.len() - i,
    {
        assert(ps@.skip(i as int)[0] == ps@[i as int]);
        assert(ps@.skip(i as int).drop_first() =~= ps@.skip(i + 1));
        if ends_with(ps[i].as_str(), ".sexpr") == want {
            return ps[i].clone();
        }
        i = i + 1;
    }
    owned(default)
}

pub fn application_assembly_executor(ir_slice: &[&IrNode], node: &PlanNode) -> (r: Sexpr)
    ensures
        r@ == candidate_v(node.id@, seq![
            (path_by_role(node.may_write@, false, "generated/application.rb"@), boot_text(app_name_v(slice_v(ir_slice@)))),
            (path_by_role(node.may_write@, true, "generated/manifest.sexpr"@), manifest_text(app_name_v(slice_v(ir_slice@)), slice_v(ir_slice@))),
        ], slice_v(ir_slice@)),
{
    let ghost sv = slice_v(ir_slice@);
    let apps = nodes_of_kind(ir_slice, "application");
    let app_name = if apps.len() > 0 {
        proof {
            assert(slice_v(apps@)[0] == *apps@[0]);
        }
        apps[0].name.clone()
    } else {
        owned("application")
    };
    let module_name = to_pascal_case(app_name.as_str());
    let mut boot = ruby_comment_header("Application assembly");
    push_str(&mut boot, "module ");
    push_str(&mut boot, module_name.as_str());
    push_str(&mut boot, "\n");
    push_str(&mut boot, "  def self.boot(registry = GymnastPlatform.registry)\n");
    push_str(&mut boot, "    lifecycle = registry.resolve(:lifecycle)\n");
    push_str(&mut boot, "    lifecycle.start(dependencies: [:identity, :persistence, :http])\n");
    push_str(&mut boot, "    self\n  end\n\n");
    push_str(&mut boot, "  def self.shutdown\n    GymnastPlatform.resolve(:lifecycle).stop\n  end\n");
    push_str(&mut boot, "end\n");
    assert(boot@ =~= boot_text(app_name_v(sv)));
    let mut manifest = owned("(manifest\n");
    push_str(&mut manifest, "  (application ");
    push_str(&mut manifest, app_name.as_str());
    push_str(&mut manifest, ")\n");
    push_str(&mut manifest, "  (platform gymnast_reference_platform_v1)\n");
    push_str(&mut manifest, "  (artifacts");
    let mut all: Vec<&IrNode> = Vec::new();
    let mut k: usize = 0;
    while k < ir_slice.len()
        invariant
            k <= ir_slice.len(),
            all@ == ir_slice@.take(k as int),
        decreases ir_slice.len() - k,
    {
        all.push(ir_slice[k]);
        assert(ir_slice@.take(k + 1) =~= ir_slice@.take(k as int).push(ir_slice@[k as int]));
        k = k + 1;
    }
    assert(ir_slice@.take(ir_slice.len() as int) =~= ir_slice@);
    emit_lines(&mut manifest, &all, Line::Artifact);
    push_str(&mut manifest, "))\n");
    proof {
        lemma_cat_nodes_ext(sv, |n: IrNode| line_v(Line::Artifact, n), |n: IrNode| "\n    "@ + n.id@);
        assert(manifest@ =~= manifest_text(app_name_v(sv), sv));
    }
    let manifest_path = path_by_role_exec(&node.may_write, true, "generated/manifest.sexpr");
    let boot_path = path_by_role_exec(&node.may_write, false, "generated/application.rb");
    let files = vec![(boot_path, boot), (manifest_path, manifest)];
    assert(files@.map_values(|f: (String, String)| (f.0@, f.1@)) =~= seq![
        (path_by_role(node.may_write@, false, "generated/application.rb"@), boot_text(app_name_v(sv))),
        (path_by_role(node.may_write@, true, "generated/manifest.sexpr"@), manifest_text(app_name_v(sv), sv)),
    ]);
    build_candidate(node, files, ir_slice)
}

// ---- the executor ----

/// The candidate an emitter produces for a node over its resolved slice.
pub open spec fn emit_v(e: Emitter, slice: Seq<IrNode>, node: PlanNode) -> SexprV {
    match e {
        Emitter::DesignContracts => candidate_v(node.id@,
            seq![(first_or(node.may_write@, "generated/design/contracts.rb"@), design_text(slice))], slice),
        Emitter::InterfaceContracts => candidate_v(node.id@,
            seq![(first_or(node.may_write@, "generated/interfaces/contracts.rb"@), interface_text(slice))], slice),
        Emitter::AcceptanceHarness => candidate_v(node.id@,
            seq![(first_or(node.may_write@, "generated/verification/acceptance.rb"@), acceptance_text(slice))], slice),
        Emitter::ApplicationAssembly => candidate_v(node.id@, seq![
            (path_by_role(node.may_write@, false, "generated/application.rb"@), boot_text(app_name_v(slice))),
            (path_by_role(node.may_write@, true, "generated/manifest.sexpr"@), manifest_text(app_name_v(slice), slice)),
        ], slice),
    }
}

fn run_emitter(e: Emitter, ir_slice: &[&IrNode], node: &PlanNode) -> (r: Sexpr)
    ensures
        r@ == emit_v(e, slice_v(ir_slice@), *node),
{
    match e {
        Emitter::DesignContracts => design_contracts_executor(ir_slice, node),
        Emitter::InterfaceContracts => interface_contracts_executor(ir_slice, node),
        Emitter::AcceptanceHarness => acceptance_harness_executor(ir_slice, node),
        Emitter::ApplicationAssembly => application_assembly_executor(ir_slice, node),
    }
}

pub open spec fn has_error_v(ds: Seq<SexprV>) -> bool {
    exists|i: int| 0 <= i < ds.len() && counts_as_error(#[trigger] ds[i])
}

/// What executing a node's recipe gives: E509 for an unknown recipe; a
/// deferral naming the recipe for a generative one; E510 for a
/// deterministic recipe on a target other than Ruby; else the emitted
/// candidate, run through the firewall, `Succeeded` exactly when the
/// firewall reports no error.
pub open spec fn execute_v(ir: Ir, node: PlanNode) -> ResultV {
    match registry_v(node.recipe@) {
        None => ResultV {
            node_id: node.id@,
            status: ExecutionStatus::Failed,
            candidate: None,
            recipe_identity: None,
            diagnostics: seq![diag_v("error"@, "E509"@, 0, 0, "no registered recipe: "@ + node.recipe@)],
        },
        Some((_, None)) => ResultV {
            node_id: node.id@,
            status: ExecutionStatus::Deferred,
            candidate: None,
            recipe_identity: Some(node.recipe@),
            diagnostics: Seq::empty(),
        },
        Some((_, Some(e))) => {
            let lang = target_language_v(node.target@);
            if lang != Some("ruby"@) {
                let shown = match lang {
                    Some(l) => l,
                    None => "<unknown>"@,
                };
                ResultV {
                    node_id: node.id@,
                    status: ExecutionStatus::Failed,
                    candidate: None,
                    recipe_identity: None,
                    diagnostics: seq![diag_v("error"@, "E510"@, 0, 0,
                        "recipe "@ + node.recipe@ + " has no deterministic emitter for target language: "@ + shown)],
                }
            } else {
                let slice = resolved_v(ir, texts(node.inputs@));
                let cand = emit_v(e, slice, node);
                let fw = candidate_diags(node, cand);
                ResultV {
                    node_id: node.id@,
                    status: if has_error_v(fw) { ExecutionStatus::Failed } else { ExecutionStatus::Succeeded },
                    candidate: Some(cand),
                    recipe_identity: Some(node.recipe@),
                    diagnostics: unresolved_v(ir, node.id@, texts(node.inputs@)) + fw,
                }
            }
        },
    }
}

fn one_diag(d: Sexpr) -> (r: Vec<Sexpr>)
    ensures
        views_of(r@) == seq![d@],
{
    let ghost dv = d@;
    let r = vec![d];
    proof {
        lemma_views_of(r@);
        assert(views_of(r@) =~= seq![dv]);
    }
    r
}

fn any_error(ds: &Vec<Sexpr>) -> (r: bool)
    ensures
        r == has_error_v(views_of(ds@)),
{
    let ghost dv = views_of(ds@);
    proof {
        lemma_views_of(ds@);
    }
    let mut i: usize = 0;
    while i < ds.len()
        invariant
            i <= ds.len(),
            dv == views_of(ds@),
            dv.len() == ds.len(),
            forall|k: int| 0 <= k < ds.len() ==> #[trigger] dv[k] == ds@[k]@,
            forall|k: int| 0 <= k < i ==> !counts_as_error(#[trigger] dv[k]),
        decreases ds.len() - i,
    {
        let is_error = match ds[i].assoc("severity") {
            Some(s) => match s.as_sym() {
                Some(t) => str_eq(t, "error"),
                None => true,
            },
            None => true,
        };
        if is_error {
            assert(counts_as_error(dv[i as int]));
            return true;
        }
        i = i + 1;
    }
    false
}

/// Executes one plan node's recipe (see `execute_v`): the firewall runs
/// over every candidate a recipe produces.
pub fn execute_recipe(ir: &Ir, node: &PlanNode) -> (r: ExecutionResult)
    ensures
        r@ == execute_v(*ir, *node),
{
    let recipe = match lookup(node.recipe.as_str()) {
        Some(recipe) => recipe,
        None => {
            let d = diag_sexpr("error", "E509", (0, 0), concat("no registered recipe: ", node.recipe.as_str()));
            return ExecutionResult {
                node_id: node.id.clone(),
                status: ExecutionStatus::Failed,
                candidate: None,
                recipe_identity: None,
                diagnostics: one_diag(d),
            };
        },
    };
    let emitter = match recipe.execute {
        Some(e) => e,
        None => {
            let r = ExecutionResult {
                node_id: node.id.clone(),
                status: ExecutionStatus::Deferred,
                candidate: None,
                recipe_identity: Some(owned(recipe.name)),
                diagnostics: Vec::new(),
            };
            assert(views_of(r.diagnostics@) =~= Seq::<SexprV>::empty());
            return r;
        },
    };
    let lang = target_language(&node.target);
    let is_ruby = match &lang {
        Some(l) => str_eq(l.as_str(), "ruby"),
        None => false,
    };
    if !is_ruby {
        let mut m = concat("recipe ", node.recipe.as_str());
        push_str(&mut m, " has no deterministic emitter for target language: ");
        match &lang {
            Some(l) => push_str(&mut m, l.as_str()),
            None => push_str(&mut m, "<unknown>"),
        }
        let d = diag_sexpr("error", "E510", (0, 0), m);
        return ExecutionResult {
            node_id: node.id.clone(),
            status: ExecutionStatus::Failed,
            candidate: None,
            recipe_identity: None,
            diagnostics: one_diag(d),
        };
    }
    let (ir_slice, mut diagnostics) = resolve_ir_slice(ir, node.id.as_str(), node.inputs.as_slice());
    let candidate = run_emitter(emitter, ir_slice.as_slice(), node);
    let mut firewall = candidate_diagnostics(node, &candidate);
    let has_errors = any_error(&firewall);
    let ghost dv = views_of(diagnostics@);
    let ghost fv = views_of(firewall@);
    proof {
        lemma_views_of(diagnostics@);
        lemma_views_of(firewall@);
    }
    diagnostics.append(&mut firewall);
    proof {
        lemma_views_of(diagnostics@);
        assert(views_of(diagnostics@) =~= dv + fv);
        assert(ir_slice@.map_values(|n: &IrNode| *n) == slice_v(ir_slice@));
    }
    ExecutionResult {
        node_id: node.id.clone(),
        status: if has_errors { ExecutionStatus::Failed } else { ExecutionStatus::Succeeded },
        candidate: Some(candidate),
        recipe_identity: Some(owned(recipe.name)),
        diagnostics,
    }
}

/// Every plan node's recipe executed, in table order, deferred ones
/// included.
pub fn execute_deterministic(ir: &Ir, plan: &crate::plan::Plan) -> (r: Vec<ExecutionResult>)
    ensures
        r@.map_values(|x: ExecutionResult| x@) == plan.nodes@.map_values(|n: PlanNode| execute_v(*ir, n)),
{
    let mut out: Vec<ExecutionResult> = Vec::new();
    let mut i: usize = 0;
    while i < plan.nodes.len()
        invariant
            i <= plan.nodes.len(),
            out@.map_values(|x: ExecutionResult| x@) == plan.nodes@.take(i as int).map_values(|n: PlanNode| execute_v(*ir, n)),
        decreases plan.nodes.len() - i,
    {
        let x = execute_recipe(ir, &plan.nodes[i]);
        let ghost before = out@.map_values(|x: ExecutionResult| x@);
        let ghost xv = x@;
        out.push(x);
        assert(out@.map_values(|x: ExecutionResult| x@) =~= before.push(xv));
        assert(plan.nodes@.take(i + 1).map_values(|n: PlanNode| execute_v(*ir, n)) =~= plan.nodes@.take(i as int).map_values(|n: PlanNode| execute_v(*ir, n)).push(execute_v(*ir, plan.nodes@[i as int])));
        i = i + 1;
    }
    assert(plan.nodes@.take(plan.nodes.len() as int) =~= plan.nodes@);
    out
}

/// Recipes are not exempt from the firewall: a node whose recipe
/// succeeds carries a candidate against which the firewall reports
/// nothing, and the recipe that produced it.
pub proof fn lemma_succeeded_recipe_passes_firewall(ir: Ir, node: PlanNode)
    ensures
        execute_v(ir, node).status == ExecutionStatus::Succeeded ==> ({
            let r = execute_v(ir, node);
            &&& r.candidate is Some
            &&& candidate_diags(node, r.candidate->0).len() == 0
            &&& r.recipe_identity == Some(node.recipe@)
        }),
{
    let r = execute_v(ir, node);
    if r.status == ExecutionStatus::Succeeded {
        let c = r.candidate->0;
        crate::candidate::lemma_firewall_reports_errors(node, c);
        if candidate_diags(node, c).len() > 0 {
            assert(counts_as_error(candidate_diags(node, c)[0]));
        }
    }
}
} // verus!
