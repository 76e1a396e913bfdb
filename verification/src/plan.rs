//! Deterministic lowering from `Ir` to the fixed 8-node typed synthesis
//! DAG: node contracts, coverage of every IR node, and fingerprints.
use vstd::prelude::*;
use crate::diag::{diag_sexpr, diag_v};
use crate::fingerprint::{fingerprint, fingerprint_text};
use crate::ir::{Ir, IrNode, all_nodes_v, first_field, is_error_diag_v, nodes_with_kind};
use crate::order::{lemma_sort_texts, sort_stable, sort_text, stable_sort, texts};
use crate::sexpr::{Sexpr, SexprV, clone_sexpr, lemma_views_of, lemma_views_push, list1, list2, pair_v, print_v, views_of};
use crate::text::{chars_of, concat, ends_with, is_suffix, owned, push_str, str_eq, string_of_range};

verus! {

/// One node contract in the synthesis DAG. All list fields are sorted
/// at construction (byte-wise); the fingerprint is computed over the
/// canonical contract form at construction and stored.
#[derive(Debug, PartialEq)]
pub struct PlanNode {
    pub id: String,
    pub class: String,
    pub recipe: String,
    pub inputs: Vec<String>,
    pub depends_on: Vec<String>,
    pub target: Sexpr,
    pub model: Sexpr,
    pub may_write: Vec<String>,
    pub capabilities: Vec<String>,
    pub obligations: Vec<String>,
    pub prohibitions: Vec<String>,
    pub fingerprint: String,
}

/// `("a" "b" ...)`.
pub open spec fn str_list_v(ss: Seq<String>) -> SexprV {
    SexprV::List(ss.map_values(|s: String| SexprV::Str(s@)))
}

/// `(a b ...)`.
pub open spec fn sym_list_v(ss: Seq<String>) -> SexprV {
    SexprV::List(ss.map_values(|s: String| SexprV::Sym(s@)))
}

/// The eleven contract fields as `(key value)` pairs, in struct order.
pub open spec fn plan_field_pairs_v(n: PlanNode) -> Seq<SexprV> {
    seq![
        pair_v("id"@, SexprV::Str(n.id@)),
        pair_v("class"@, SexprV::Sym(n.class@)),
        pair_v("recipe"@, SexprV::Sym(n.recipe@)),
        pair_v("inputs"@, str_list_v(n.inputs@)),
        pair_v("depends-on"@, str_list_v(n.depends_on@)),
        pair_v("target"@, n.target@),
        pair_v("model"@, n.model@),
        pair_v("may-write"@, str_list_v(n.may_write@)),
        pair_v("capabilities"@, sym_list_v(n.capabilities@)),
        pair_v("obligations"@, sym_list_v(n.obligations@)),
        pair_v("prohibitions"@, sym_list_v(n.prohibitions@)),
    ]
}

/// `(node-contract (...))`: the fingerprinted form.
pub open spec fn node_contract_v(n: PlanNode) -> SexprV {
    SexprV::List(seq![SexprV::Sym("node-contract"@), SexprV::List(plan_field_pairs_v(n))])
}

/// `(plan-node (... (fingerprint "...")))`.
pub open spec fn plan_node_v(n: PlanNode) -> SexprV {
    SexprV::List(seq![
        SexprV::Sym("plan-node"@),
        SexprV::List(plan_field_pairs_v(n).push(pair_v("fingerprint"@, SexprV::Str(n.fingerprint@)))),
    ])
}

/// The stored fingerprint is the fingerprint of the node's contract.
pub open spec fn fingerprint_valid(n: PlanNode) -> bool {
    n.fingerprint@ == fingerprint_text(print_v(node_contract_v(n)))
}

/// `("a" "b" ...)` of the strings.
pub fn str_list(ss: &[String]) -> (r: Sexpr)
    ensures
        r@ == str_list_v(ss@),
{
    let mut out: Vec<Sexpr> = Vec::new();
    let mut i: usize = 0;
    while i < ss.len()
        invariant
            i <= ss.len(),
            views_of(out@) == ss@.take(i as int).map_values(|s: String| SexprV::Str(s@)),
        decreases ss.len() - i,
    {
        let e = Sexpr::Str(ss[i].clone());
        proof {
            lemma_views_push(out@, e);
        }
        out.push(e);
        assert(ss@.take(i + 1).map_values(|s: String| SexprV::Str(s@)) =~= ss@.take(i as int).map_values(|s: String| SexprV::Str(s@)).push(SexprV::Str(ss@[i as int]@)));
        i = i + 1;
    }
    assert(ss@.take(ss.len() as int) =~= ss@);
    Sexpr::List(out)
}

/// `(a b ...)` of the strings as symbols.
pub fn sym_list(ss: &[String]) -> (r: Sexpr)
    ensures
        r@ == sym_list_v(ss@),
{
    let mut out: Vec<Sexpr> = Vec::new();
    let mut i: usize = 0;
    while i < ss.len()
        invariant
            i <= ss.len(),
            views_of(out@) == ss@.take(i as int).map_values(|s: String| SexprV::Sym(s@)),
        decreases ss.len() - i,
    {
        let e = Sexpr::Sym(ss[i].clone());
        proof {
            lemma_views_push(out@, e);
        }
        out.push(e);
        assert(ss@.take(i + 1).map_values(|s: String| SexprV::Sym(s@)) =~= ss@.take(i as int).map_values(|s: String| SexprV::Sym(s@)).push(SexprV::Sym(ss@[i as int]@)));
        i = i + 1;
    }
    assert(ss@.take(ss.len() as int) =~= ss@);
    Sexpr::List(out)
}

impl PlanNode {
    /// A node contract: the six list fields sorted, the fingerprint of
    /// the canonical `node-contract` form stored.
    pub fn new(
        id: String,
        class: &str,
        recipe: &str,
        inputs: Vec<String>,
        depends_on: Vec<String>,
        target: Sexpr,
        model: Sexpr,
        may_write: Vec<String>,
        capabilities: Vec<String>,
        obligations: Vec<String>,
        prohibitions: Vec<String>,
    ) -> (r: PlanNode)
        ensures
            r.id@ == id@,
            r.class@ == class@,
            r.recipe@ == recipe@,
            r.inputs@ == stable_sort(inputs@),
            r.depends_on@ == stable_sort(depends_on@),
            r.target == target,
            r.model == model,
            r.may_write@ == stable_sort(may_write@),
            r.capabilities@ == stable_sort(capabilities@),
            r.obligations@ == stable_sort(obligations@),
            r.prohibitions@ == stable_sort(prohibitions@),
            texts(r.inputs@) == sort_text(texts(inputs@)),
            texts(r.depends_on@) == sort_text(texts(depends_on@)),
            texts(r.may_write@) == sort_text(texts(may_write@)),
            texts(r.capabilities@) == sort_text(texts(capabilities@)),
            texts(r.obligations@) == sort_text(texts(obligations@)),
            texts(r.prohibitions@) == sort_text(texts(prohibitions@)),
            fingerprint_valid(r),
    {
        proof {
            lemma_sort_texts(inputs@);
            lemma_sort_texts(depends_on@);
            lemma_sort_texts(may_write@);
            lemma_sort_texts(capabilities@);
            lemma_sort_texts(obligations@);
            lemma_sort_texts(prohibitions@);
        }
        let mut node = PlanNode {
            id,
            class: owned(class),
            recipe: owned(recipe),
            inputs: sort_stable(inputs),
            depends_on: sort_stable(depends_on),
            target,
            model,
            may_write: sort_stable(may_write),
            capabilities: sort_stable(capabilities),
            obligations: sort_stable(obligations),
            prohibitions: sort_stable(prohibitions),
            fingerprint: String::new(),
        };
        let contract = node.contract_sexpr();
        node.fingerprint = fingerprint(&contract);
        node
    }

    /// The eleven contract fields as `(key value)` pairs.
    fn field_pairs(&self) -> (r: Vec<Sexpr>)
        ensures
            views_of(r@) == plan_field_pairs_v(*self),
    {
        let r = vec![
            Sexpr::pair("id", Sexpr::Str(self.id.clone())),
            Sexpr::pair("class", Sexpr::sym(self.class.as_str())),
            Sexpr::pair("recipe", Sexpr::sym(self.recipe.as_str())),
            Sexpr::pair("inputs", str_list(self.inputs.as_slice())),
            Sexpr::pair("depends-on", str_list(self.depends_on.as_slice())),
            Sexpr::pair("target", clone_sexpr(&self.target)),
            Sexpr::pair("model", clone_sexpr(&self.model)),
            Sexpr::pair("may-write", str_list(self.may_write.as_slice())),
            Sexpr::pair("capabilities", sym_list(self.capabilities.as_slice())),
            Sexpr::pair("obligations", sym_list(self.obligations.as_slice())),
            Sexpr::pair("prohibitions", sym_list(self.prohibitions.as_slice())),
        ];
        proof {
            lemma_views_of(r@);
            assert(views_of(r@) =~= plan_field_pairs_v(*self));
        }
        r
    }

    fn contract_sexpr(&self) -> (r: Sexpr)
        ensures
            r@ == node_contract_v(*self),
    {
        list2(Sexpr::sym("node-contract"), Sexpr::List(self.field_pairs()))
    }

    /// `(plan-node (... (fingerprint "...")))`.
    pub fn to_sexpr(&self) -> (r: Sexpr)
        ensures
            r@ == plan_node_v(*self),
    {
        let mut pairs = self.field_pairs();
        let fp = Sexpr::pair("fingerprint", Sexpr::Str(self.fingerprint.clone()));
        proof {
            lemma_views_push(pairs@, fp);
        }
        pairs.push(fp);
        list2(Sexpr::sym("plan-node"), Sexpr::List(pairs))
    }

    /// Whether the stored fingerprint still matches the contract (a node
    /// whose fields were altered after construction fails this).
    pub fn verify_fingerprint(&self) -> (r: bool)
        ensures
            r == fingerprint_valid(*self),
    {
        let contract = self.contract_sexpr();
        let fp = fingerprint(&contract);
        str_eq(fp.as_str(), self.fingerprint.as_str())
    }
}


/// A deterministic synthesis plan lowered from one `Ir`.
#[derive(Debug, PartialEq)]
pub struct Plan {
    pub schema: String,
    pub ir_fingerprint: String,
    pub target: Sexpr,
    pub nodes: Vec<PlanNode>,
    /// `(ir-node-id, [plan-node-ids])`, in `Ir::all_nodes()` order.
    pub coverage: Vec<(String, Vec<String>)>,
    pub diagnostics: Vec<Sexpr>,
    pub fingerprint: String,
}

/// `(("ir-id" ("plan-id" ...)) ...)`.
pub open spec fn coverage_v(cov: Seq<(String, Vec<String>)>) -> SexprV {
    SexprV::List(cov.map_values(|c: (String, Vec<String>)| SexprV::List(seq![SexprV::Str(c.0@), str_list_v(c.1@)])))
}

pub open spec fn plan_items_v(
    schema: Seq<char>,
    ir_fingerprint: Seq<char>,
    target: SexprV,
    nodes: Seq<PlanNode>,
    coverage: Seq<(String, Vec<String>)>,
    diagnostics: Seq<Sexpr>,
) -> Seq<SexprV> {
    seq![
        pair_v("schema"@, SexprV::Str(schema)),
        pair_v("ir-fingerprint"@, SexprV::Str(ir_fingerprint)),
        pair_v("target"@, target),
        pair_v("nodes"@, SexprV::List(nodes.map_values(|n: PlanNode| plan_node_v(n)))),
        pair_v("coverage"@, coverage_v(coverage)),
        pair_v("diagnostics"@, SexprV::List(views_of(diagnostics))),
    ]
}

/// `(plan (...))` without the fingerprint entry.
pub open spec fn plan_unprinted_v(p: Plan) -> SexprV {
    SexprV::List(seq![
        SexprV::Sym("plan"@),
        SexprV::List(plan_items_v(p.schema@, p.ir_fingerprint@, p.target@, p.nodes@, p.coverage@, p.diagnostics@)),
    ])
}

/// `(plan (... (fingerprint "...")))`.
pub open spec fn plan_v(p: Plan) -> SexprV {
    SexprV::List(seq![
        SexprV::Sym("plan"@),
        SexprV::List(plan_items_v(p.schema@, p.ir_fingerprint@, p.target@, p.nodes@, p.coverage@, p.diagnostics@)
            .push(pair_v("fingerprint"@, SexprV::Str(p.fingerprint@)))),
    ])
}

fn coverage_list(cov: &[(String, Vec<String>)]) -> (r: Sexpr)
    ensures
        r@ == coverage_v(cov@),
{
    let mut out: Vec<Sexpr> = Vec::new();
    let mut i: usize = 0;
    while i < cov.len()
        invariant
            i <= cov.len(),
            views_of(out@) == cov@.take(i as int).map_values(|c: (String, Vec<String>)| SexprV::List(seq![SexprV::Str(c.0@), str_list_v(c.1@)])),
        decreases cov.len() - i,
    {
        let e = list2(Sexpr::Str(cov[i].0.clone()), str_list(cov[i].1.as_slice()));
        proof {
            lemma_views_push(out@, e);
        }
        out.push(e);
        assert(cov@.take(i + 1).map_values(|c: (String, Vec<String>)| SexprV::List(seq![SexprV::Str(c.0@), str_list_v(c.1@)]))
            =~= cov@.take(i as int).map_values(|c: (String, Vec<String>)| SexprV::List(seq![SexprV::Str(c.0@), str_list_v(c.1@)])).push(
                SexprV::List(seq![SexprV::Str(cov@[i as int].0@), str_list_v(cov@[i as int].1@)])));
        i = i + 1;
    }
    assert(cov@.take(cov.len() as int) =~= cov@);
    Sexpr::List(out)
}

fn plan_nodes_list(ns: &[PlanNode]) -> (r: Sexpr)
    ensures
        r@ == SexprV::List(ns@.map_values(|n: PlanNode| plan_node_v(n))),
{
    let mut out: Vec<Sexpr> = Vec::new();
    let mut i: usize = 0;
    while i < ns.len()
        invariant
            i <= ns.len(),
            views_of(out@) == ns@.take(i as int).map_values(|n: PlanNode| plan_node_v(n)),
        decreases ns.len() - i,
    {
        let e = ns[i].to_sexpr();
        proof {
            lemma_views_push(out@, e);
        }
        out.push(e);
        assert(ns@.take(i + 1).map_values(|n: PlanNode| plan_node_v(n)) =~= ns@.take(i as int).map_values(|n: PlanNode| plan_node_v(n)).push(plan_node_v(ns@[i as int])));
        i = i + 1;
    }
    assert(ns@.take(ns.len() as int) =~= ns@);
    Sexpr::List(out)
}

fn clone_diags(v: &[Sexpr]) -> (r: Vec<Sexpr>)
    ensures
        views_of(r@) == views_of(v@),
{
    let mut out: Vec<Sexpr> = Vec::new();
    let mut i: usize = 0;
    while i < v.len()
        invariant
            i <= v.len(),
            views_of(out@) == views_of(v@.take(i as int)),
        decreases v.len() - i,
    {
        let e = clone_sexpr(&v[i]);
        proof {
            lemma_views_push(out@, e);
            lemma_views_push(v@.take(i as int), v@[i as int]);
            assert(v@.take(i + 1) =~= v@.take(i as int).push(v@[i as int]));
        }
        out.push(e);
        i = i + 1;
    }
    assert(v@.take(v.len() as int) =~= v@);
    out
}

fn plan_items(
    schema: &str,
    ir_fingerprint: &str,
    target: &Sexpr,
    nodes: &[PlanNode],
    coverage: &[(String, Vec<String>)],
    diagnostics: &[Sexpr],
) -> (r: Vec<Sexpr>)
    ensures
        views_of(r@) == plan_items_v(schema@, ir_fingerprint@, target@, nodes@, coverage@, diagnostics@),
{
    let r = vec![
        Sexpr::pair("schema", Sexpr::Str(owned(schema))),
        Sexpr::pair("ir-fingerprint", Sexpr::Str(owned(ir_fingerprint))),
        Sexpr::pair("target", clone_sexpr(target)),
        Sexpr::pair("nodes", plan_nodes_list(nodes)),
        Sexpr::pair("coverage", coverage_list(coverage)),
        Sexpr::pair("diagnostics", Sexpr::List(clone_diags(diagnostics))),
    ];
    proof {
        lemma_views_of(r@);
        assert(views_of(r@) =~= plan_items_v(schema@, ir_fingerprint@, target@, nodes@, coverage@, diagnostics@));
    }
    r
}

impl Plan {
    fn new(
        schema: String,
        ir_fingerprint: String,
        target: Sexpr,
        nodes: Vec<PlanNode>,
        coverage: Vec<(String, Vec<String>)>,
        diagnostics: Vec<Sexpr>,
    ) -> (r: Plan)
        ensures
            r.schema == schema,
            r.ir_fingerprint == ir_fingerprint,
            r.target == target,
            r.nodes == nodes,
            r.coverage == coverage,
            r.diagnostics == diagnostics,
            r.fingerprint@ == fingerprint_text(print_v(plan_unprinted_v(r))),
    {
        let items = plan_items(schema.as_str(), ir_fingerprint.as_str(), &target, nodes.as_slice(), coverage.as_slice(), diagnostics.as_slice());
        let base = list2(Sexpr::sym("plan"), Sexpr::List(items));
        let fingerprint = fingerprint(&base);
        Plan { schema, ir_fingerprint, target, nodes, coverage, diagnostics, fingerprint }
    }

    /// The full plan form, ending with its stored fingerprint.
    pub fn to_sexpr(&self) -> (r: Sexpr)
        ensures
            r@ == plan_v(*self),
    {
        let mut items = plan_items(
            self.schema.as_str(),
            self.ir_fingerprint.as_str(),
            &self.target,
            self.nodes.as_slice(),
            self.coverage.as_slice(),
            self.diagnostics.as_slice(),
        );
        let fp = Sexpr::pair("fingerprint", Sexpr::Str(self.fingerprint.clone()));
        proof {
            lemma_views_push(items@, fp);
        }
        items.push(fp);
        list2(Sexpr::sym("plan"), Sexpr::List(items))
    }
}

// ---- targets and paths ----

pub open spec fn default_target_v() -> SexprV {
    SexprV::List(seq![SexprV::Sym("lamedh"@)])
}

pub open spec fn default_model_v() -> SexprV {
    SexprV::List(seq![
        SexprV::Sym("small_code_model"@),
        SexprV::List(seq![SexprV::List(seq![SexprV::Sym("class"@), SexprV::Sym("nano"@)])]),
    ])
}

/// `(lamedh)`.
pub fn default_target() -> (r: Sexpr)
    ensures
        r@ == default_target_v(),
{
    list1(Sexpr::sym("lamedh"))
}

/// `(small_code_model ((class nano)))`.
pub fn default_model() -> (r: Sexpr)
    ensures
        r@ == default_model_v(),
{
    let class = list2(Sexpr::sym("class"), Sexpr::sym("nano"));
    let inner = list1(class);
    list2(Sexpr::sym("small_code_model"), inner)
}

/// The synthesis node whose field selects the target and model: the
/// first node of kind `synthesis`.
pub open spec fn synthesis_nodes(ir: Ir) -> Seq<IrNode> {
    nodes_with_kind(all_nodes_v(ir), "synthesis"@)
}

/// The first synthesis node's `key` field, or `default`.
pub open spec fn synthesis_field_or(ir: Ir, key: Seq<char>, default: SexprV) -> SexprV {
    let syn = synthesis_nodes(ir);
    if syn.len() > 0 {
        match first_field(syn[0].fields@, key) {
            Some(v) => v,
            None => default,
        }
    } else {
        default
    }
}

pub open spec fn selected_target_v(ir: Ir) -> SexprV {
    synthesis_field_or(ir, ":target"@, default_target_v())
}

pub open spec fn selected_model_v(ir: Ir) -> SexprV {
    synthesis_field_or(ir, ":model"@, default_model_v())
}

fn synthesis_field_or_default(ir: &Ir, key: &str, default: Sexpr) -> (r: Sexpr)
    ensures
        r@ == synthesis_field_or(*ir, key@, default@),
{
    let syn = ir.nodes_of_kind("synthesis");
    if syn.len() > 0 {
        proof {
            assert(syn@.map_values(|n: &IrNode| *n)[0] == *syn@[0]);
        }
        match syn[0].field(key) {
            Some(v) => clone_sexpr(v),
            None => default,
        }
    } else {
        default
    }
}

/// The language of a target: the first element of a list target, or the
/// bare symbol itself.
pub open spec fn target_language_v(t: SexprV) -> Option<Seq<char>> {
    match t {
        SexprV::List(items) => if items.len() > 0 && items[0] is Sym {
            Some(items[0]->Sym_0)
        } else {
            None
        },
        SexprV::Sym(s) => Some(s),
        _ => None,
    }
}

/// The target language: the first element of a list target, or the bare
/// symbol itself when the target is not a list.
pub fn target_language(target: &Sexpr) -> (r: Option<String>)
    ensures
        match target_language_v(target@) {
            Some(l) => r is Some && r->0@ == l,
            None => r is None,
        },
{
    match target {
        Sexpr::List(items) => {
            if items.len() > 0 {
                proof {
                    lemma_views_of(items@);
                }
                match items[0].as_sym() {
                    Some(s) => Some(owned(s)),
                    None => None,
                }
            } else {
                None
            }
        },
        Sexpr::Sym(s) => Some(s.clone()),
        _ => None,
    }
}

/// File extension for a target language (`.lisp` by default).
pub open spec fn extension_for_v(lang: Option<Seq<char>>) -> Seq<char> {
    match lang {
        Some(l) => if l == "ruby"@ {
            ".rb"@
        } else if l == "go"@ {
            ".go"@
        } else if l == "java"@ {
            ".java"@
        } else if l == "python"@ {
            ".py"@
        } else if l == "typescript"@ {
            ".ts"@
        } else if l == "javascript"@ {
            ".js"@
        } else if l == "rust"@ {
            ".rs"@
        } else {
            ".lisp"@
        },
        None => ".lisp"@,
    }
}

/// Total map from target language to file extension, with default.
pub fn extension_for(lang: Option<&str>) -> (r: &'static str)
    ensures
        r@ == extension_for_v(match lang { Some(l) => Some(l@), None => None }),
{
    match lang {
        Some(l) => {
            if str_eq(l, "ruby") {
                ".rb"
            } else if str_eq(l, "go") {
                ".go"
            } else if str_eq(l, "java") {
                ".java"
            } else if str_eq(l, "python") {
                ".py"
            } else if str_eq(l, "typescript") {
                ".ts"
            } else if str_eq(l, "javascript") {
                ".js"
            } else if str_eq(l, "rust") {
                ".rs"
            } else {
                ".lisp"
            }
        },
        None => ".lisp",
    }
}

/// A path ending in `.lisp` with that suffix replaced by `ext`; other
/// paths unchanged.
pub open spec fn rewrite_extension_v(path: Seq<char>, ext: Seq<char>) -> Seq<char> {
    if is_suffix(".lisp"@, path) {
        path.subrange(0, path.len() - 5) + ext
    } else {
        path
    }
}

/// A path ending in `.lisp` has that suffix replaced by `ext`; other
/// paths pass through unrewritten.
pub fn rewrite_extension(path: &str, ext: &str) -> (r: String)
    ensures
        r@ == rewrite_extension_v(path@, ext@),
{
    if ends_with(path, ".lisp") {
        proof {
            reveal_strlit(".lisp");
        }
        let cs = chars_of(path);
        let stem = string_of_range(&cs, 0, cs.len() - 5);
        concat(stem.as_str(), ext)
    } else {
        owned(path)
    }
}

/// The paths rewritten for the target's language.
pub open spec fn target_paths_v(paths: Seq<Seq<char>>, target: SexprV) -> Seq<Seq<char>> {
    paths.map_values(|p: Seq<char>| rewrite_extension_v(p, extension_for_v(target_language_v(target))))
}

fn target_paths(paths: &[&str], target: &Sexpr) -> (r: Vec<String>)
    ensures
        texts(r@) == target_paths_v(paths@.map_values(|p: &str| p@), target@),
{
    let lang = target_language(target);
    let ext = match &lang {
        Some(l) => extension_for(Some(l.as_str())),
        None => extension_for(None),
    };
    let ghost e = extension_for_v(target_language_v(target@));
    let mut out: Vec<String> = Vec::new();
    let mut i: usize = 0;
    while i < paths.len()
        invariant
            i <= paths.len(),
            ext@ == e,
            e == extension_for_v(target_language_v(target@)),
            texts(out@) == paths@.take(i as int).map_values(|p: &str| rewrite_extension_v(p@, e)),
        decreases paths.len() - i,
    {
        let x = rewrite_extension(paths[i], ext);
        let ghost before = texts(out@);
        out.push(x);
        assert(texts(out@) =~= before.push(x@));
        assert(texts(out@) =~= paths@.take(i + 1).map_values(|p: &str| rewrite_extension_v(p@, e)));
        i = i + 1;
    }
    assert(paths@.take(paths.len() as int) =~= paths@);
    assert(target_paths_v(paths@.map_values(|p: &str| p@), target@) =~= paths@.map_values(|p: &str| rewrite_extension_v(p@, e)));
    out
}


// ---- the node table ----

/// Text list of string literals.
fn str_vec(items: &[&str]) -> (r: Vec<String>)
    ensures
        texts(r@) == items@.map_values(|s: &str| s@),
{
    let mut out: Vec<String> = Vec::new();
    let mut i: usize = 0;
    while i < items.len()
        invariant
            i <= items.len(),
            texts(out@) == items@.take(i as int).map_values(|s: &str| s@),
        decreases items.len() - i,
    {
        let ghost before = texts(out@);
        out.push(owned(items[i]));
        assert(texts(out@) =~= before.push(items@[i as int]@));
        assert(items@.take(i + 1).map_values(|s: &str| s@) =~= items@.take(i as int).map_values(|s: &str| s@).push(items@[i as int]@));
        i = i + 1;
    }
    assert(items@.take(items.len() as int) =~= items@);
    out
}

/// The ids of the nodes of `ns` whose kind is among `kinds`, in order.
pub open spec fn ids_with_kinds(ns: Seq<IrNode>, kinds: Seq<Seq<char>>) -> Seq<String>
    decreases ns.len(),
{
    if ns.len() == 0 {
        Seq::empty()
    } else if kinds.contains(ns.last().kind@) {
        ids_with_kinds(ns.drop_last(), kinds).push(ns.last().id)
    } else {
        ids_with_kinds(ns.drop_last(), kinds)
    }
}

/// The sorted ids of the IR nodes whose kind is among `kinds`.
pub open spec fn kind_ids_v(ir: Ir, kinds: Seq<Seq<char>>) -> Seq<Seq<char>> {
    sort_text(texts(ids_with_kinds(all_nodes_v(ir), kinds)))
}

fn kind_in(kind: &str, kinds: &[&str]) -> (r: bool)
    ensures
        r == kinds@.map_values(|k: &str| k@).contains(kind@),
{
    let ghost kv = kinds@.map_values(|k: &str| k@);
    let mut i: usize = 0;
    while i < kinds.len()
        invariant
            i <= kinds.len(),
            kv == kinds@.map_values(|k: &str| k@),
            forall|j: int| 0 <= j < i ==> kv[j] != kind@,
        decreases kinds.len() - i,
    {
        if str_eq(kinds[i], kind) {
            assert(kv[i as int] == kind@);
            return true;
        }
        i = i + 1;
    }
    false
}

/// IR node ids (from `all_nodes()`) whose kind is in `kinds`, sorted.
fn ids_for_kinds(ir: &Ir, kinds: &[&str]) -> (r: Vec<String>)
    ensures
        texts(r@) == kind_ids_v(*ir, kinds@.map_values(|k: &str| k@)),
{
    let ghost kv = kinds@.map_values(|k: &str| k@);
    let all = ir.all_nodes();
    let ghost av = all@.map_values(|n: &IrNode| *n);
    let mut ids: Vec<String> = Vec::new();
    let mut i: usize = 0;
    while i < all.len()
        invariant
            i <= all.len(),
            av == all@.map_values(|n: &IrNode| *n),
            kv == kinds@.map_values(|k: &str| k@),
            ids@ == ids_with_kinds(av.take(i as int), kv),
        decreases all.len() - i,
    {
        proof {
            assert(av.take(i + 1).drop_last() =~= av.take(i as int));
            assert(av.take(i + 1).last() == *all@[i as int]);
        }
        if kind_in(all[i].kind.as_str(), kinds) {
            ids.push(all[i].id.clone());
        }
        i = i + 1;
    }
    assert(av.take(all.len() as int) =~= av);
    proof {
        lemma_sort_texts(ids@);
    }
    sort_stable(ids)
}

pub open spec fn plan_id_v(ir: Ir, local: Seq<char>) -> Seq<char> {
    ir.module_name@ + "/plan/"@ + local
}

fn plan_id(ir: &Ir, local: &str) -> (r: String)
    ensures
        r@ == plan_id_v(*ir, local@),
{
    let mut r = concat(ir.module_name.as_str(), "/plan/");
    push_str(&mut r, local);
    r
}

/// `n` is the node contract with these fields (lists as given, before
/// sorting) and a valid fingerprint.
pub open spec fn node_has(
    n: PlanNode,
    id: Seq<char>,
    class: Seq<char>,
    recipe: Seq<char>,
    inputs: Seq<Seq<char>>,
    deps: Seq<Seq<char>>,
    target: SexprV,
    model: SexprV,
    may_write: Seq<Seq<char>>,
    caps: Seq<Seq<char>>,
    obls: Seq<Seq<char>>,
    prohibs: Seq<Seq<char>>,
) -> bool {
    &&& n.id@ == id
    &&& n.class@ == class
    &&& n.recipe@ == recipe
    &&& texts(n.inputs@) == sort_text(inputs)
    &&& texts(n.depends_on@) == sort_text(deps)
    &&& n.target@ == target
    &&& n.model@ == model
    &&& texts(n.may_write@) == sort_text(may_write)
    &&& texts(n.capabilities@) == sort_text(caps)
    &&& texts(n.obligations@) == sort_text(obls)
    &&& texts(n.prohibitions@) == sort_text(prohibs)
    &&& fingerprint_valid(n)
}

pub open spec fn none_v() -> SexprV {
    SexprV::Sym("none"@)
}

pub open spec fn design_node_ok(ir: Ir, t: SexprV, n: PlanNode) -> bool {
    node_has(n, plan_id_v(ir, "design-contracts"@), "structural"@, "design-contracts-v1"@,
        kind_ids_v(ir, seq!["actor"@, "type"@, "component"@, "flow"@]), seq![], t, none_v(),
        target_paths_v(seq!["generated/design/contracts.lisp"@], t), seq![],
        seq!["well-formed-types"@, "explicit-capability-edges"@],
        seq!["invent-product-semantics"@, "add-dependencies"@])
}

pub open spec fn transition_node_ok(ir: Ir, t: SexprV, m: SexprV, n: PlanNode) -> bool {
    node_has(n, plan_id_v(ir, "transition-kernel"@), "generative"@, "transition-kernel-v1"@,
        kind_ids_v(ir, seq!["type"@, "state"@, "behavior"@, "invariant"@]), seq![plan_id_v(ir, "design-contracts"@)], t, m,
        target_paths_v(seq!["generated/domain/transitions.lisp"@], t), seq!["clock"@, "id-source"@],
        seq!["implements-transition-system"@, "preserves-invariants"@, "deterministic-under-same-input"@],
        seq!["perform-io"@, "weaken-preconditions"@, "invent-errors"@])
}

pub open spec fn authorization_node_ok(ir: Ir, t: SexprV, m: SexprV, n: PlanNode) -> bool {
    node_has(n, plan_id_v(ir, "authorization-policy"@), "generative"@, "authorization-policy-v1"@,
        kind_ids_v(ir, seq!["actor"@, "flow"@, "behavior"@, "invariant"@]),
        seq![plan_id_v(ir, "design-contracts"@), plan_id_v(ir, "transition-kernel"@)], t, m,
        target_paths_v(seq!["generated/domain/authorization.lisp"@], t), seq![],
        seq!["deny-by-default"@, "noninterference"@, "owner-isolation"@],
        seq!["grant-undeclared-capabilities"@, "reveal-resource-existence"@])
}

pub open spec fn persistence_node_ok(ir: Ir, t: SexprV, m: SexprV, n: PlanNode) -> bool {
    node_has(n, plan_id_v(ir, "persistence"@), "generative"@, "persistence-v1"@,
        kind_ids_v(ir, seq!["type"@, "state"@, "behavior"@, "constraint"@]),
        seq![plan_id_v(ir, "design-contracts"@), plan_id_v(ir, "transition-kernel"@)], t, m,
        target_paths_v(seq!["generated/adapters/persistence.lisp"@, "generated/adapters/schema.sexpr"@], t),
        seq!["durable-store"@, "transactions"@],
        seq!["durable-commit"@, "atomic-boundaries"@, "retry-safety"@],
        seq!["perform-network-io"@, "choose-unpinned-dependencies"@])
}

pub open spec fn interface_node_ok(ir: Ir, t: SexprV, n: PlanNode) -> bool {
    node_has(n, plan_id_v(ir, "interface-contracts"@), "structural"@, "interface-contracts-v1"@,
        kind_ids_v(ir, seq!["type"@, "interface"@]), seq![plan_id_v(ir, "design-contracts"@)], t, none_v(),
        target_paths_v(seq!["generated/interfaces/contracts.lisp"@], t), seq![],
        seq!["complete-operation-surface"@, "declared-errors-only"@],
        seq!["change-observable-contract"@])
}

pub open spec fn handler_node_ok(ir: Ir, t: SexprV, m: SexprV, n: PlanNode) -> bool {
    node_has(n, plan_id_v(ir, "service-handlers"@), "generative"@, "service-handlers-v1"@,
        kind_ids_v(ir, seq!["interface"@, "behavior"@, "state"@, "constraint"@]),
        seq![plan_id_v(ir, "transition-kernel"@), plan_id_v(ir, "authorization-policy"@),
            plan_id_v(ir, "persistence"@), plan_id_v(ir, "interface-contracts"@)], t, m,
        target_paths_v(seq!["generated/service/handlers.lisp"@], t),
        seq!["repository"@, "identity"@, "clock"@, "id-source"@],
        seq!["contract-conformance"@, "authorization-before-observation"@, "idempotent-retries"@],
        seq!["access-filesystem"@, "access-network"@, "add-endpoints"@])
}

pub open spec fn acceptance_node_ok(ir: Ir, t: SexprV, n: PlanNode) -> bool {
    node_has(n, plan_id_v(ir, "acceptance-harness"@), "verification"@, "acceptance-harness-v1"@,
        kind_ids_v(ir, seq!["behavior"@, "invariant"@, "constraint"@, "acceptance"@, "interface"@, "state"@]),
        seq![plan_id_v(ir, "service-handlers"@)], t, none_v(),
        target_paths_v(seq!["generated/verification/acceptance.lisp"@], t), seq![],
        seq!["independent-oracle"@, "trace-equivalence"@, "boundary-coverage"@, "deterministic-execution"@],
        seq!["read-generated-rationale"@, "weaken-obligations"@, "skip-failures"@])
}

pub open spec fn assembly_node_ok(ir: Ir, t: SexprV, n: PlanNode) -> bool {
    node_has(n, plan_id_v(ir, "application-assembly"@), "assembly"@, "application-assembly-v1"@,
        kind_ids_v(ir, seq!["application"@, "import"@, "component"@, "synthesis"@, "constraint"@]),
        seq![plan_id_v(ir, "transition-kernel"@), plan_id_v(ir, "authorization-policy"@),
            plan_id_v(ir, "persistence"@), plan_id_v(ir, "interface-contracts"@),
            plan_id_v(ir, "service-handlers"@), plan_id_v(ir, "acceptance-harness"@)], t, none_v(),
        target_paths_v(seq!["generated/application.lisp"@, "generated/manifest.sexpr"@], t), seq![],
        seq!["all-artifacts-linked"@, "all-obligations-addressed"@],
        seq!["untracked-artifacts"@, "undeclared-capabilities"@])
}

/// The fixed 8-node table, in build order.
#[verifier::opaque]
pub open spec fn plan_table_v(ir: Ir, t: SexprV, m: SexprV, ns: Seq<PlanNode>) -> bool {
    &&& ns.len() == 8
    &&& design_node_ok(ir, t, ns[0])
    &&& transition_node_ok(ir, t, m, ns[1])
    &&& authorization_node_ok(ir, t, m, ns[2])
    &&& persistence_node_ok(ir, t, m, ns[3])
    &&& interface_node_ok(ir, t, ns[4])
    &&& handler_node_ok(ir, t, m, ns[5])
    &&& acceptance_node_ok(ir, t, ns[6])
    &&& assembly_node_ok(ir, t, ns[7])
}



fn make_node(
    id: String,
    class: &str,
    recipe: &str,
    inputs: Vec<String>,
    deps: Vec<String>,
    target: &Sexpr,
    model: &Sexpr,
    may_write: Vec<String>,
    caps: &[&str],
    obls: &[&str],
    prohibs: &[&str],
) -> (r: PlanNode)
    ensures
        node_has(r, id@, class@, recipe@, texts(inputs@), texts(deps@), target@, model@, texts(may_write@),
            caps@.map_values(|s: &str| s@), obls@.map_values(|s: &str| s@), prohibs@.map_values(|s: &str| s@)),
{
    PlanNode::new(
        id,
        class,
        recipe,
        inputs,
        deps,
        clone_sexpr(target),
        clone_sexpr(model),
        may_write,
        str_vec(caps),
        str_vec(obls),
        str_vec(prohibs),
    )
}




fn empty_strs() -> (r: Vec<String>)
    ensures
        texts(r@) == Seq::<Seq<char>>::empty(),
{
    let r: Vec<String> = Vec::new();
    assert(texts(r@) =~= Seq::<Seq<char>>::empty());
    r
}

fn deps_of(ir: &Ir, locals: &[&str]) -> (r: Vec<String>)
    ensures
        texts(r@) == locals@.map_values(|l: &str| plan_id_v(*ir, l@)),
{
    let mut out: Vec<String> = Vec::new();
    let mut i: usize = 0;
    while i < locals.len()
        invariant
            i <= locals.len(),
            texts(out@) == locals@.take(i as int).map_values(|l: &str| plan_id_v(*ir, l@)),
        decreases locals.len() - i,
    {
        let ghost before = texts(out@);
        let x = plan_id(ir, locals[i]);
        out.push(x);
        assert(texts(out@) =~= before.push(x@));
        assert(locals@.take(i + 1).map_values(|l: &str| plan_id_v(*ir, l@)) =~= locals@.take(i as int).map_values(|l: &str| plan_id_v(*ir, l@)).push(plan_id_v(*ir, locals@[i as int]@)));
        i = i + 1;
    }
    assert(locals@.take(locals.len() as int) =~= locals@);
    out
}

fn design_node(ir: &Ir, t: &Sexpr) -> (r: PlanNode)
    ensures
        design_node_ok(*ir, t@, r),
{
    let none = Sexpr::sym("none");
    let kinds = ["actor", "type", "component", "flow"];
    let deps: [&str; 0] = [];
    let paths = ["generated/design/contracts.lisp"];
    let caps: [&str; 0] = [];
    let obls = ["well-formed-types", "explicit-capability-edges"];
    let pro = ["invent-product-semantics", "add-dependencies"];
    assert(kinds@.map_values(|s: &str| s@) =~= seq!["actor"@, "type"@, "component"@, "flow"@]);
    assert(paths@.map_values(|s: &str| s@) =~= seq!["generated/design/contracts.lisp"@]);
    assert(caps@.map_values(|s: &str| s@) =~= Seq::<Seq<char>>::empty());
    assert(obls@.map_values(|s: &str| s@) =~= seq!["well-formed-types"@, "explicit-capability-edges"@]);
    assert(pro@.map_values(|s: &str| s@) =~= seq!["invent-product-semantics"@, "add-dependencies"@]);
    assert(deps@.map_values(|l: &str| plan_id_v(*ir, l@)) =~= Seq::<Seq<char>>::empty());
    make_node(plan_id(ir, "design-contracts"), "structural", "design-contracts-v1",
        ids_for_kinds(ir, &kinds), deps_of(ir, &deps), t, &none,
        target_paths(&paths, t), &caps, &obls, &pro)
}

fn transition_node(ir: &Ir, t: &Sexpr, m: &Sexpr) -> (r: PlanNode)
    ensures
        transition_node_ok(*ir, t@, m@, r),
{
    let kinds = ["type", "state", "behavior", "invariant"];
    let deps = ["design-contracts"];
    let paths = ["generated/domain/transitions.lisp"];
    let caps = ["clock", "id-source"];
    let obls = ["implements-transition-system", "preserves-invariants", "deterministic-under-same-input"];
    let pro = ["perform-io", "weaken-preconditions", "invent-errors"];
    assert(kinds@.map_values(|s: &str| s@) =~= seq!["type"@, "state"@, "behavior"@, "invariant"@]);
    assert(paths@.map_values(|s: &str| s@) =~= seq!["generated/domain/transitions.lisp"@]);
    assert(caps@.map_values(|s: &str| s@) =~= seq!["clock"@, "id-source"@]);
    assert(obls@.map_values(|s: &str| s@) =~= seq!["implements-transition-system"@, "preserves-invariants"@, "deterministic-under-same-input"@]);
    assert(pro@.map_values(|s: &str| s@) =~= seq!["perform-io"@, "weaken-preconditions"@, "invent-errors"@]);
    assert(deps@.map_values(|l: &str| plan_id_v(*ir, l@)) =~= seq![plan_id_v(*ir, "design-contracts"@)]);
    make_node(plan_id(ir, "transition-kernel"), "generative", "transition-kernel-v1",
        ids_for_kinds(ir, &kinds), deps_of(ir, &deps), t, m,
        target_paths(&paths, t), &caps, &obls, &pro)
}

fn authorization_node(ir: &Ir, t: &Sexpr, m: &Sexpr) -> (r: PlanNode)
    ensures
        authorization_node_ok(*ir, t@, m@, r),
{
    let kinds = ["actor", "flow", "behavior", "invariant"];
    let deps = ["design-contracts", "transition-kernel"];
    let paths = ["generated/domain/authorization.lisp"];
    let caps: [&str; 0] = [];
    let obls = ["deny-by-default", "noninterference", "owner-isolation"];
    let pro = ["grant-undeclared-capabilities", "reveal-resource-existence"];
    assert(kinds@.map_values(|s: &str| s@) =~= seq!["actor"@, "flow"@, "behavior"@, "invariant"@]);
    assert(paths@.map_values(|s: &str| s@) =~= seq!["generated/domain/authorization.lisp"@]);
    assert(caps@.map_values(|s: &str| s@) =~= Seq::<Seq<char>>::empty());
    assert(obls@.map_values(|s: &str| s@) =~= seq!["deny-by-default"@, "noninterference"@, "owner-isolation"@]);
    assert(pro@.map_values(|s: &str| s@) =~= seq!["grant-undeclared-capabilities"@, "reveal-resource-existence"@]);
    assert(deps@.map_values(|l: &str| plan_id_v(*ir, l@)) =~= seq![plan_id_v(*ir, "design-contracts"@), plan_id_v(*ir, "transition-kernel"@)]);
    make_node(plan_id(ir, "authorization-policy"), "generative", "authorization-policy-v1",
        ids_for_kinds(ir, &kinds), deps_of(ir, &deps), t, m,
        target_paths(&paths, t), &caps, &obls, &pro)
}

fn persistence_node(ir: &Ir, t: &Sexpr, m: &Sexpr) -> (r: PlanNode)
    ensures
        persistence_node_ok(*ir, t@, m@, r),
{
    let kinds = ["type", "state", "behavior", "constraint"];
    let deps = ["design-contracts", "transition-kernel"];
    let paths = ["generated/adapters/persistence.lisp", "generated/adapters/schema.sexpr"];
    let caps = ["durable-store", "transactions"];
    let obls = ["durable-commit", "atomic-boundaries", "retry-safety"];
    let pro = ["perform-network-io", "choose-unpinned-dependencies"];
    assert(kinds@.map_values(|s: &str| s@) =~= seq!["type"@, "state"@, "behavior"@, "constraint"@]);
    assert(paths@.map_values(|s: &str| s@) =~= seq!["generated/adapters/persistence.lisp"@, "generated/adapters/schema.sexpr"@]);
    assert(caps@.map_values(|s: &str| s@) =~= seq!["durable-store"@, "transactions"@]);
    assert(obls@.map_values(|s: &str| s@) =~= seq!["durable-commit"@, "atomic-boundaries"@, "retry-safety"@]);
    assert(pro@.map_values(|s: &str| s@) =~= seq!["perform-network-io"@, "choose-unpinned-dependencies"@]);
    assert(deps@.map_values(|l: &str| plan_id_v(*ir, l@)) =~= seq![plan_id_v(*ir, "design-contracts"@), plan_id_v(*ir, "transition-kernel"@)]);
    make_node(plan_id(ir, "persistence"), "generative", "persistence-v1",
        ids_for_kinds(ir, &kinds), deps_of(ir, &deps), t, m,
        target_paths(&paths, t), &caps, &obls, &pro)
}

fn interface_node(ir: &Ir, t: &Sexpr) -> (r: PlanNode)
    ensures
        interface_node_ok(*ir, t@, r),
{
    let none = Sexpr::sym("none");
    let kinds = ["type", "interface"];
    let deps = ["design-contracts"];
    let paths = ["generated/interfaces/contracts.lisp"];
    let caps: [&str; 0] = [];
    let obls = ["complete-operation-surface", "declared-errors-only"];
    let pro = ["change-observable-contract"];
    assert(kinds@.map_values(|s: &str| s@) =~= seq!["type"@, "interface"@]);
    assert(paths@.map_values(|s: &str| s@) =~= seq!["generated/interfaces/contracts.lisp"@]);
    assert(caps@.map_values(|s: &str| s@) =~= Seq::<Seq<char>>::empty());
    assert(obls@.map_values(|s: &str| s@) =~= seq!["complete-operation-surface"@, "declared-errors-only"@]);
    assert(pro@.map_values(|s: &str| s@) =~= seq!["change-observable-contract"@]);
    assert(deps@.map_values(|l: &str| plan_id_v(*ir, l@)) =~= seq![plan_id_v(*ir, "design-contracts"@)]);
    make_node(plan_id(ir, "interface-contracts"), "structural", "interface-contracts-v1",
        ids_for_kinds(ir, &kinds), deps_of(ir, &deps), t, &none,
        target_paths(&paths, t), &caps, &obls, &pro)
}

fn handler_node(ir: &Ir, t: &Sexpr, m: &Sexpr) -> (r: PlanNode)
    ensures
        handler_node_ok(*ir, t@, m@, r),
{
    let kinds = ["interface", "behavior", "state", "constraint"];
    let deps = ["transition-kernel", "authorization-policy", "persistence", "interface-contracts"];
    let paths = ["generated/service/handlers.lisp"];
    let caps = ["repository", "identity", "clock", "id-source"];
    let obls = ["contract-conformance", "authorization-before-observation", "idempotent-retries"];
    let pro = ["access-filesystem", "access-network", "add-endpoints"];
    assert(kinds@.map_values(|s: &str| s@) =~= seq!["interface"@, "behavior"@, "state"@, "constraint"@]);
    assert(paths@.map_values(|s: &str| s@) =~= seq!["generated/service/handlers.lisp"@]);
    assert(caps@.map_values(|s: &str| s@) =~= seq!["repository"@, "identity"@, "clock"@, "id-source"@]);
    assert(obls@.map_values(|s: &str| s@) =~= seq!["contract-conformance"@, "authorization-before-observation"@, "idempotent-retries"@]);
    assert(pro@.map_values(|s: &str| s@) =~= seq!["access-filesystem"@, "access-network"@, "add-endpoints"@]);
    assert(deps@.map_values(|l: &str| plan_id_v(*ir, l@)) =~= seq![plan_id_v(*ir, "transition-kernel"@), plan_id_v(*ir, "authorization-policy"@), plan_id_v(*ir, "persistence"@), plan_id_v(*ir, "interface-contracts"@)]);
    make_node(plan_id(ir, "service-handlers"), "generative", "service-handlers-v1",
        ids_for_kinds(ir, &kinds), deps_of(ir, &deps), t, m,
        target_paths(&paths, t), &caps, &obls, &pro)
}

fn acceptance_node(ir: &Ir, t: &Sexpr) -> (r: PlanNode)
    ensures
        acceptance_node_ok(*ir, t@, r),
{
    let none = Sexpr::sym("none");
    let kinds = ["behavior", "invariant", "constraint", "acceptance", "interface", "state"];
    let deps = ["service-handlers"];
    let paths = ["generated/verification/acceptance.lisp"];
    let caps: [&str; 0] = [];
    let obls = ["independent-oracle", "trace-equivalence", "boundary-coverage", "deterministic-execution"];
    let pro = ["read-generated-rationale", "weaken-obligations", "skip-failures"];
    assert(kinds@.map_values(|s: &str| s@) =~= seq!["behavior"@, "invariant"@, "constraint"@, "acceptance"@, "interface"@, "state"@]);
    assert(paths@.map_values(|s: &str| s@) =~= seq!["generated/verification/acceptance.lisp"@]);
    assert(caps@.map_values(|s: &str| s@) =~= Seq::<Seq<char>>::empty());
    assert(obls@.map_values(|s: &str| s@) =~= seq!["independent-oracle"@, "trace-equivalence"@, "boundary-coverage"@, "deterministic-execution"@]);
    assert(pro@.map_values(|s: &str| s@) =~= seq!["read-generated-rationale"@, "weaken-obligations"@, "skip-failures"@]);
    assert(deps@.map_values(|l: &str| plan_id_v(*ir, l@)) =~= seq![plan_id_v(*ir, "service-handlers"@)]);
    make_node(plan_id(ir, "acceptance-harness"), "verification", "acceptance-harness-v1",
        ids_for_kinds(ir, &kinds), deps_of(ir, &deps), t, &none,
        target_paths(&paths, t), &caps, &obls, &pro)
}

fn assembly_node(ir: &Ir, t: &Sexpr) -> (r: PlanNode)
    ensures
        assembly_node_ok(*ir, t@, r),
{
    let none = Sexpr::sym("none");
    let kinds = ["application", "import", "component", "synthesis", "constraint"];
    let deps = ["transition-kernel", "authorization-policy", "persistence", "interface-contracts", "service-handlers", "acceptance-harness"];
    let paths = ["generated/application.lisp", "generated/manifest.sexpr"];
    let caps: [&str; 0] = [];
    let obls = ["all-artifacts-linked", "all-obligations-addressed"];
    let pro = ["untracked-artifacts", "undeclared-capabilities"];
    assert(kinds@.map_values(|s: &str| s@) =~= seq!["application"@, "import"@, "component"@, "synthesis"@, "constraint"@]);
    assert(paths@.map_values(|s: &str| s@) =~= seq!["generated/application.lisp"@, "generated/manifest.sexpr"@]);
    assert(caps@.map_values(|s: &str| s@) =~= Seq::<Seq<char>>::empty());
    assert(obls@.map_values(|s: &str| s@) =~= seq!["all-artifacts-linked"@, "all-obligations-addressed"@]);
    assert(pro@.map_values(|s: &str| s@) =~= seq!["untracked-artifacts"@, "undeclared-capabilities"@]);
    assert(deps@.map_values(|l: &str| plan_id_v(*ir, l@)) =~= seq![plan_id_v(*ir, "transition-kernel"@), plan_id_v(*ir, "authorization-policy"@), plan_id_v(*ir, "persistence"@), plan_id_v(*ir, "interface-contracts"@), plan_id_v(*ir, "service-handlers"@), plan_id_v(*ir, "acceptance-harness"@)]);
    make_node(plan_id(ir, "application-assembly"), "assembly", "application-assembly-v1",
        ids_for_kinds(ir, &kinds), deps_of(ir, &deps), t, &none,
        target_paths(&paths, t), &caps, &obls, &pro)
}

/// The fixed 8-node table, in table (build) order, NOT id-sorted.
fn build_plan_nodes(ir: &Ir, target: &Sexpr, model: &Sexpr) -> (r: Vec<PlanNode>)
    ensures
        plan_table_v(*ir, target@, model@, r@),
{
    reveal(plan_table_v);
    vec![
        design_node(ir, target),
        transition_node(ir, target, model),
        authorization_node(ir, target, model),
        persistence_node(ir, target, model),
        interface_node(ir, target),
        handler_node(ir, target, model),
        acceptance_node(ir, target),
        assembly_node(ir, target),
    ]
}


// ---- plan-level checks ----

/// Whether some node of `ns` has the id `id`.
pub open spec fn has_node_id(ns: Seq<PlanNode>, id: Seq<char>) -> bool {
    exists|k: int| 0 <= k < ns.len() && (#[trigger] ns[k]).id@ == id
}

pub open spec fn unknown_dep_msg(id: Seq<char>, dep: Seq<char>) -> Seq<char> {
    "plan node "@ + id + " depends on unknown plan node "@ + dep
}

/// E402 diagnostics for the entries of `deps` (of node `id`) that name
/// no node of `all`, in order.
pub open spec fn dep_diags_of(all: Seq<PlanNode>, id: Seq<char>, deps: Seq<String>) -> Seq<SexprV>
    decreases deps.len(),
{
    if deps.len() == 0 {
        Seq::empty()
    } else {
        dep_diags_of(all, id, deps.drop_last()) + (if has_node_id(all, deps.last()@) {
            Seq::<SexprV>::empty()
        } else {
            seq![diag_v("error"@, "E402"@, 0, 0, unknown_dep_msg(id, deps.last()@))]
        })
    }
}

/// E402 diagnostics of the nodes `ns`, checked against `all`, node by node.
pub open spec fn dep_diags(all: Seq<PlanNode>, ns: Seq<PlanNode>) -> Seq<SexprV>
    decreases ns.len(),
{
    if ns.len() == 0 {
        Seq::empty()
    } else {
        dep_diags(all, ns.drop_last()) + dep_diags_of(all, ns.last().id@, ns.last().depends_on@)
    }
}

fn node_id_in(nodes: &[PlanNode], id: &str) -> (r: bool)
    ensures
        r == has_node_id(nodes@, id@),
{
    let mut i: usize = 0;
    while i < nodes.len()
        invariant
            i <= nodes.len(),
            forall|k: int| 0 <= k < i ==> (#[trigger] nodes@[k]).id@ != id@,
        decreases nodes.len() - i,
    {
        if str_eq(nodes[i].id.as_str(), id) {
            return true;
        }
        i = i + 1;
    }
    false
}

fn unknown_dep_message(id: &str, dep: &str) -> (r: String)
    ensures
        r@ == unknown_dep_msg(id@, dep@),
{
    let mut m = concat("plan node ", id);
    push_str(&mut m, " depends on unknown plan node ");
    push_str(&mut m, dep);
    m
}

/// E402 missing-plan-dependency: a node's `depends_on` entry names no
/// node in the plan, one diagnostic per such entry.
pub fn dependency_diagnostics(nodes: &[PlanNode]) -> (r: Vec<Sexpr>)
    ensures
        views_of(r@) == dep_diags(nodes@, nodes@),
{
    let mut diags: Vec<Sexpr> = Vec::new();
    let mut i: usize = 0;
    while i < nodes.len()
        invariant
            i <= nodes.len(),
            views_of(diags@) == dep_diags(nodes@, nodes@.take(i as int)),
        decreases nodes.len() - i,
    {
        let node = &nodes[i];
        let ghost before = views_of(diags@);
        let mut j: usize = 0;
        while j < node.depends_on.len()
            invariant
                i < nodes.len(),
                *node == nodes@[i as int],
                j <= node.depends_on.len(),
                views_of(diags@) == before + dep_diags_of(nodes@, node.id@, node.depends_on@.take(j as int)),
            decreases node.depends_on.len() - j,
        {
            let dep = node.depends_on[j].as_str();
            proof {
                assert(node.depends_on@.take(j + 1).drop_last() =~= node.depends_on@.take(j as int));
                lemma_views_of(diags@);
            }
            if !node_id_in(nodes, dep) {
                let d = diag_sexpr("error", "E402", (0, 0), unknown_dep_message(node.id.as_str(), dep));
                proof {
                    lemma_views_push(diags@, d);
                }
                diags.push(d);
                assert(views_of(diags@) =~= before + dep_diags_of(nodes@, node.id@, node.depends_on@.take(j + 1)));
            } else {
                assert(views_of(diags@) =~= before + dep_diags_of(nodes@, node.id@, node.depends_on@.take(j + 1)));
            }
            j = j + 1;
        }
        proof {
            assert(node.depends_on@.take(node.depends_on.len() as int) =~= node.depends_on@);
            assert(nodes@.take(i + 1).drop_last() =~= nodes@.take(i as int));
        }
        i = i + 1;
    }
    assert(nodes@.take(nodes.len() as int) =~= nodes@);
    diags
}

/// The ids of the nodes of `ns` that take `id` as an input, in order.
pub open spec fn covering_ids(ns: Seq<PlanNode>, id: Seq<char>) -> Seq<Seq<char>>
    decreases ns.len(),
{
    if ns.len() == 0 {
        Seq::empty()
    } else if texts(ns.last().inputs@).contains(id) {
        covering_ids(ns.drop_last(), id).push(ns.last().id@)
    } else {
        covering_ids(ns.drop_last(), id)
    }
}

/// `cov` holds, for each IR node in `all_nodes` order, its id and the
/// plan nodes that consume it.
pub open spec fn coverage_of(ir: Ir, nodes: Seq<PlanNode>, cov: Seq<(String, Vec<String>)>) -> bool {
    &&& cov.len() == all_nodes_v(ir).len()
    &&& forall|i: int| 0 <= i < cov.len() ==> {
        &&& (#[trigger] cov[i]).0@ == all_nodes_v(ir)[i].id@
        &&& texts(cov[i].1@) == covering_ids(nodes, all_nodes_v(ir)[i].id@)
    }
}

fn string_in(v: &[String], x: &str) -> (r: bool)
    ensures
        r == texts(v@).contains(x@),
{
    let mut i: usize = 0;
    while i < v.len()
        invariant
            i <= v.len(),
            forall|k: int| 0 <= k < i ==> (#[trigger] v@[k])@ != x@,
        decreases v.len() - i,
    {
        if str_eq(v[i].as_str(), x) {
            assert(texts(v@)[i as int] == x@);
            return true;
        }
        i = i + 1;
    }
    proof {
        if texts(v@).contains(x@) {
            let k = choose|k: int| 0 <= k < texts(v@).len() && texts(v@)[k] == x@;
            assert(v@[k]@ == x@);
        }
    }
    false
}

fn covering(nodes: &[PlanNode], id: &str) -> (r: Vec<String>)
    ensures
        texts(r@) == covering_ids(nodes@, id@),
{
    let mut out: Vec<String> = Vec::new();
    let mut i: usize = 0;
    while i < nodes.len()
        invariant
            i <= nodes.len(),
            texts(out@) == covering_ids(nodes@.take(i as int), id@),
        decreases nodes.len() - i,
    {
        proof {
            assert(nodes@.take(i + 1).drop_last() =~= nodes@.take(i as int));
        }
        if string_in(nodes[i].inputs.as_slice(), id) {
            let ghost before = texts(out@);
            out.push(nodes[i].id.clone());
            assert(texts(out@) =~= before.push(nodes@[i as int].id@));
        }
        i = i + 1;
    }
    assert(nodes@.take(nodes.len() as int) =~= nodes@);
    out
}

/// Coverage entries for every IR node in `all_nodes()` order: which
/// plan nodes (by id) consume it as an input.
pub fn coverage_entries(ir: &Ir, nodes: &[PlanNode]) -> (r: Vec<(String, Vec<String>)>)
    ensures
        coverage_of(*ir, nodes@, r@),
{
    let all = ir.all_nodes();
    let ghost av = all@.map_values(|n: &IrNode| *n);
    let mut out: Vec<(String, Vec<String>)> = Vec::new();
    let mut i: usize = 0;
    while i < all.len()
        invariant
            i <= all.len(),
            av == all@.map_values(|n: &IrNode| *n),
            av == all_nodes_v(*ir),
            out@.len() == i,
            forall|k: int| 0 <= k < i ==> {
                &&& (#[trigger] out@[k]).0@ == av[k].id@
                &&& texts(out@[k].1@) == covering_ids(nodes@, av[k].id@)
            },
        decreases all.len() - i,
    {
        let id = all[i].id.clone();
        let c = covering(nodes, all[i].id.as_str());
        out.push((id, c));
        i = i + 1;
    }
    out
}

pub open spec fn unplanned_msg(id: Seq<char>) -> Seq<char> {
    "semantic node "@ + id + " has no implementation or evidence path"@
}

/// E403 diagnostics for the entries of `cov` with no covering plan node.
pub open spec fn coverage_diags(cov: Seq<(String, Vec<String>)>) -> Seq<SexprV>
    decreases cov.len(),
{
    if cov.len() == 0 {
        Seq::empty()
    } else if cov.last().1@.len() == 0 {
        coverage_diags(cov.drop_last()).push(diag_v("error"@, "E403"@, 0, 0, unplanned_msg(cov.last().0@)))
    } else {
        coverage_diags(cov.drop_last())
    }
}

/// E403 unplanned-semantic-node: an IR node whose id appears in no plan
/// node's `inputs`.
pub fn coverage_diagnostics(coverage: &[(String, Vec<String>)]) -> (r: Vec<Sexpr>)
    ensures
        views_of(r@) == coverage_diags(coverage@),
{
    let mut out: Vec<Sexpr> = Vec::new();
    let mut i: usize = 0;
    while i < coverage.len()
        invariant
            i <= coverage.len(),
            views_of(out@) == coverage_diags(coverage@.take(i as int)),
        decreases coverage.len() - i,
    {
        proof {
            assert(coverage@.take(i + 1).drop_last() =~= coverage@.take(i as int));
        }
        if coverage[i].1.len() == 0 {
            let mut m = concat("semantic node ", coverage[i].0.as_str());
            push_str(&mut m, " has no implementation or evidence path");
            let d = diag_sexpr("error", "E403", (0, 0), m);
            proof {
                lemma_views_push(out@, d);
            }
            out.push(d);
        }
        i = i + 1;
    }
    assert(coverage@.take(coverage.len() as int) =~= coverage@);
    out
}

pub open spec fn plan_schema_v() -> Seq<char> {
    "gymnast.plan/0.1"@
}

pub open spec fn refusal_msg() -> Seq<char> {
    "planning refused: input IR carries one or more error-severity diagnostics"@
}

pub open spec fn ir_has_errors(ir: Ir) -> bool {
    exists|i: int| 0 <= i < ir.diagnostics@.len() && is_error_diag_v(#[trigger] ir.diagnostics@[i]@)
}

/// The plan of `ir` when `ir` is refused: no nodes, no coverage, and the
/// one E401 diagnostic.
pub open spec fn refused_plan(ir: Ir, p: Plan) -> bool {
    &&& p.schema@ == plan_schema_v()
    &&& p.ir_fingerprint == ir.fingerprint
    &&& p.target@ == default_target_v()
    &&& p.nodes@.len() == 0
    &&& p.coverage@.len() == 0
    &&& views_of(p.diagnostics@) == seq![diag_v("error"@, "E401"@, 0, 0, refusal_msg())]
    &&& p.fingerprint@ == fingerprint_text(print_v(plan_unprinted_v(p)))
}

/// The plan of an error-free `ir`: the fixed table over the selected
/// target and model, its coverage, then its E402 and E403 diagnostics.
pub open spec fn lowered_plan(ir: Ir, p: Plan) -> bool {
    &&& p.schema@ == plan_schema_v()
    &&& p.ir_fingerprint == ir.fingerprint
    &&& p.target@ == selected_target_v(ir)
    &&& plan_table_v(ir, selected_target_v(ir), selected_model_v(ir), p.nodes@)
    &&& coverage_of(ir, p.nodes@, p.coverage@)
    &&& views_of(p.diagnostics@) == dep_diags(p.nodes@, p.nodes@) + coverage_diags(p.coverage@)
    &&& p.fingerprint@ == fingerprint_text(print_v(plan_unprinted_v(p)))
}

fn views_append(a: &mut Vec<Sexpr>, b: Vec<Sexpr>)
    ensures
        views_of(final(a)@) == views_of(old(a)@) + views_of(b@),
{
    let mut b = b;
    let ghost bv = views_of(b@);
    let ghost av = views_of(a@);
    proof {
        lemma_views_of(a@);
        lemma_views_of(b@);
    }
    a.append(&mut b);
    proof {
        lemma_views_of(a@);
        assert(views_of(a@) =~= av + bv);
    }
}

fn refuse(ir: &Ir) -> (r: Plan)
    ensures
        refused_plan(*ir, r),
{
    let diag = diag_sexpr("error", "E401", (0, 0),
        owned("planning refused: input IR carries one or more error-severity diagnostics"));
    let diags = vec![diag];
    proof {
        lemma_views_of(diags@);
        assert(views_of(diags@) =~= seq![diag_v("error"@, "E401"@, 0, 0, refusal_msg())]);
    }
    let nodes: Vec<PlanNode> = Vec::new();
    let coverage: Vec<(String, Vec<String>)> = Vec::new();
    Plan::new(owned("gymnast.plan/0.1"), ir.fingerprint.clone(), default_target(), nodes, coverage, diags)
}

fn lower(ir: &Ir) -> (r: Plan)
    ensures
        lowered_plan(*ir, r),
{
    let target = synthesis_field_or_default(ir, ":target", default_target());
    let model = synthesis_field_or_default(ir, ":model", default_model());
    let nodes = build_plan_nodes(ir, &target, &model);
    let mut diagnostics = dependency_diagnostics(nodes.as_slice());
    let coverage = coverage_entries(ir, nodes.as_slice());
    views_append(&mut diagnostics, coverage_diagnostics(coverage.as_slice()));
    Plan::new(owned("gymnast.plan/0.1"), ir.fingerprint.clone(), target, nodes, coverage, diagnostics)
}

/// Deterministic lowering from `ir` to the fixed 8-node synthesis plan.
/// Refuses invalid IR: if `ir.has_errors()`, the plan has no nodes and
/// no coverage and carries a single E401 diagnostic.
pub fn plan(ir: &Ir) -> (r: Plan)
    ensures
        ir_has_errors(*ir) ==> refused_plan(*ir, r),
        !ir_has_errors(*ir) ==> lowered_plan(*ir, r),
{
    if ir.has_errors() {
        refuse(ir)
    } else {
        lower(ir)
    }
}


/// The first node of `ns` with id `id`.
pub open spec fn first_node(ns: Seq<PlanNode>, id: Seq<char>) -> Option<PlanNode>
    decreases ns.len(),
{
    if ns.len() == 0 {
        None
    } else if ns[0].id@ == id {
        Some(ns[0])
    } else {
        first_node(ns.drop_first(), id)
    }
}

impl Plan {
    /// The node with the given id (the first, in table order), if any.
    pub fn node(&self, id: &str) -> (r: Option<&PlanNode>)
        ensures
            match first_node(self.nodes@, id@) {
                Some(n) => r is Some && *r->0 == n,
                None => r is None,
            },
    {
        let mut i: usize = 0;
        assert(self.nodes@.skip(0) =~= self.nodes@);
        while i < self.nodes.len()
            invariant
                i <= self.nodes.len(),
                first_node(self.nodes@, id@) == first_node(self.nodes@.skip(i as int), id@),
            decreases self.nodes.len() - i,
        {
            assert(self.nodes@.skip(i as int)[0] == self.nodes@[i as int]);
            assert(self.nodes@.skip(i as int).drop_first() =~= self.nodes@.skip(i + 1));
            if str_eq(self.nodes[i].id.as_str(), id) {
                return Some(&self.nodes[i]);
            }
            i = i + 1;
        }
        None
    }
}
} // verus!
