//! Assembly and promotion: the evidence bundle collects artifacts,
//! traceability, the dependency lock, verification and diagnostics; a
//! promotion policy is evaluated over it, fail-closed. The assembler
//! only collects evidence and never decides whether it suffices.
use vstd::prelude::*;
use crate::fingerprint::{fingerprint, fingerprint_string, fingerprint_text};
use crate::ir::{Ir, IrNode, all_nodes_v};
use crate::order::texts;
use crate::plan::{Plan, PlanNode};
use crate::recipe::{ExecutionResult, ExecutionStatus, ResultV};
use crate::sexpr::{Sexpr, SexprV, assoc_v, clone_sexpr, lemma_views_of, lemma_views_push, list2, pair_v, print_v, views_of};
use crate::text::{owned, str_eq};
use crate::transition::nil_v;
use crate::verify::{bundle_error_diagnostics, bundle_errors_v, bundle_summary, summary_v};

verus! {

// ===================================================================
// The model.
// ===================================================================

pub open spec fn bool_v(b: bool) -> SexprV {
    if b {
        SexprV::Sym("t"@)
    } else {
        nil_v()
    }
}

/// Only the bare symbol `t` reads as true.
pub open spec fn bool_of_v(o: Option<SexprV>) -> bool {
    o == Some(SexprV::Sym("t"@))
}

/// `(diagnostic ((severity s) (code c) (subject "...") (message "...")))`.
pub open spec fn adiag_v(severity: Seq<char>, code: Seq<char>, subject: Seq<char>, message: Seq<char>) -> SexprV {
    SexprV::List(seq![
        SexprV::Sym("diagnostic"@),
        SexprV::List(seq![
            pair_v("severity"@, SexprV::Sym(severity)),
            pair_v("code"@, SexprV::Sym(code)),
            pair_v("subject"@, SexprV::Str(subject)),
            pair_v("message"@, SexprV::Str(message)),
        ]),
    ])
}

/// One produced file as plain values.
pub struct ArtifactV {
    pub path: Seq<char>,
    pub node_id: Seq<char>,
    pub digest: Seq<char>,
    pub size: int,
}

pub open spec fn artifact_sexpr_v(a: ArtifactV) -> SexprV {
    SexprV::List(seq![
        SexprV::Sym("artifact"@),
        SexprV::List(seq![
            pair_v("path"@, SexprV::Str(a.path)),
            pair_v("node-id"@, SexprV::Str(a.node_id)),
            pair_v("digest"@, SexprV::Str(a.digest)),
            pair_v("size"@, SexprV::Int(a.size)),
        ]),
    ])
}

/// The fields of a well-formed `(candidate (...))` form.
pub open spec fn candidate_body_v(c: Option<SexprV>) -> Option<SexprV> {
    match c {
        Some(SexprV::List(items)) => if items.len() == 2 && items[0] == SexprV::Sym("candidate"@) && items[1] is List {
            Some(items[1])
        } else {
            None
        },
        _ => None,
    }
}

/// The byte length of the UTF-8 encoding of a text, as an `i64`.
pub open spec fn byte_size(t: Seq<char>) -> int {
    ((vstd::utf8::encode_utf8(t).len() as usize) as i64) as int
}

/// The artifact of one `("path" "content" ...)` entry, if it is one.
pub open spec fn file_artifact(node_id: Seq<char>, entry: SexprV) -> Option<ArtifactV> {
    match entry {
        SexprV::List(p) => if p.len() >= 2 && p[0] is Str && p[1] is Str {
            Some(ArtifactV { path: p[0]->Str_0, node_id, digest: fingerprint_text(p[1]->Str_0), size: byte_size(p[1]->Str_0) })
        } else {
            None
        },
        _ => None,
    }
}

pub open spec fn file_artifacts(node_id: Seq<char>, fs: Seq<SexprV>) -> Seq<ArtifactV>
    decreases fs.len(),
{
    if fs.len() == 0 {
        Seq::empty()
    } else {
        file_artifacts(node_id, fs.drop_last()) + match file_artifact(node_id, fs.last()) {
            Some(a) => seq![a],
            None => Seq::empty(),
        }
    }
}

/// The artifacts of one result: only a succeeded result with a
/// well-formed candidate and a `files` list contributes.
pub open spec fn result_artifacts(r: ResultV) -> Seq<ArtifactV> {
    if r.status == ExecutionStatus::Succeeded {
        match candidate_body_v(r.candidate) {
            Some(b) => match assoc_v(b, "files"@) {
                Some(SexprV::List(fs)) => file_artifacts(r.node_id, fs),
                _ => Seq::empty(),
            },
            None => Seq::empty(),
        }
    } else {
        Seq::empty()
    }
}

pub open spec fn artifacts_v(rs: Seq<ResultV>) -> Seq<ArtifactV>
    decreases rs.len(),
{
    if rs.len() == 0 {
        Seq::empty()
    } else {
        artifacts_v(rs.drop_last()) + result_artifacts(rs.last())
    }
}

pub open spec fn results_view(rs: Seq<ExecutionResult>) -> Seq<ResultV> {
    rs.map_values(|r: ExecutionResult| r@)
}

/// Each node's `may_write`, concatenated in plan order.
pub open spec fn declared_v(ns: Seq<PlanNode>) -> Seq<Seq<char>>
    decreases ns.len(),
{
    if ns.len() == 0 {
        Seq::empty()
    } else {
        declared_v(ns.drop_last()) + texts(ns.last().may_write@)
    }
}

pub open spec fn caps_v(ns: Seq<PlanNode>) -> Seq<Seq<char>>
    decreases ns.len(),
{
    if ns.len() == 0 {
        Seq::empty()
    } else {
        caps_v(ns.drop_last()) + texts(ns.last().capabilities@)
    }
}

pub open spec fn prohibs_v(ns: Seq<PlanNode>) -> Seq<Seq<char>>
    decreases ns.len(),
{
    if ns.len() == 0 {
        Seq::empty()
    } else {
        prohibs_v(ns.drop_last()) + texts(ns.last().prohibitions@)
    }
}

/// One diagnostic per element of `xs` that `ys` contains (`inside`) or
/// lacks (`!inside`).
pub open spec fn flag_each(xs: Seq<Seq<char>>, ys: Seq<Seq<char>>, inside: bool, severity: Seq<char>, code: Seq<char>, message: Seq<char>) -> Seq<SexprV>
    decreases xs.len(),
{
    if xs.len() == 0 {
        Seq::empty()
    } else {
        flag_each(xs.drop_last(), ys, inside, severity, code, message) + if ys.contains(xs.last()) == inside {
            seq![adiag_v(severity, code, xs.last(), message)]
        } else {
            Seq::empty()
        }
    }
}

pub open spec fn paths_v(arts: Seq<ArtifactV>) -> Seq<Seq<char>> {
    arts.map_values(|a: ArtifactV| a.path)
}

/// Untracked artifacts (errors, artifact order), then missing declared
/// paths (warnings, declared order); duplicates kept.
pub open spec fn artifact_diags_v(ns: Seq<PlanNode>, arts: Seq<ArtifactV>) -> Seq<SexprV> {
    flag_each(paths_v(arts), declared_v(ns), false, "error"@, "untracked-artifact"@, "artifact not declared in any plan node"@)
        + flag_each(declared_v(ns), paths_v(arts), false, "warning"@, "missing-artifact"@, "declared artifact not produced"@)
}

/// One error per capability occurrence that some node also prohibits.
pub open spec fn capability_diags_v(ns: Seq<PlanNode>) -> Seq<SexprV> {
    flag_each(caps_v(ns), prohibs_v(ns), true, "error"@, "prohibited-capability"@, "capability is both used and prohibited"@)
}

/// Traceability of one IR node as plain values.
pub struct EntryV {
    pub semantic_id: Seq<char>,
    pub kind: Seq<char>,
    pub plan_nodes: Seq<Seq<char>>,
    pub has_implementation: bool,
    pub has_evidence: bool,
}

/// The ids of the plan nodes whose inputs name `id`, in plan order.
pub open spec fn implementing(ns: Seq<PlanNode>, id: Seq<char>) -> Seq<Seq<char>>
    decreases ns.len(),
{
    if ns.len() == 0 {
        Seq::empty()
    } else if texts(ns.last().inputs@).contains(id) {
        implementing(ns.drop_last(), id).push(ns.last().id@)
    } else {
        implementing(ns.drop_last(), id)
    }
}

pub open spec fn entry_v(n: IrNode, ns: Seq<PlanNode>, rs: Seq<ResultV>) -> EntryV {
    let pn = implementing(ns, n.id@);
    EntryV {
        semantic_id: n.id@,
        kind: n.kind@,
        plan_nodes: pn,
        has_implementation: pn.len() > 0,
        has_evidence: exists|k: int| 0 <= k < rs.len() && pn.contains(#[trigger] rs[k].node_id),
    }
}

pub open spec fn entry_sexpr_v(e: EntryV) -> SexprV {
    SexprV::List(seq![
        SexprV::Sym("traceability-entry"@),
        SexprV::List(seq![
            pair_v("semantic-id"@, SexprV::Str(e.semantic_id)),
            pair_v("kind"@, SexprV::Str(e.kind)),
            pair_v("plan-nodes"@, SexprV::List(e.plan_nodes.map_values(|p: Seq<char>| SexprV::Str(p)))),
            pair_v("has-implementation"@, bool_v(e.has_implementation)),
            pair_v("has-evidence"@, bool_v(e.has_evidence)),
        ]),
    ])
}

pub open spec fn map_v(ir: Ir, plan: Plan, rs: Seq<ResultV>) -> Seq<EntryV> {
    all_nodes_v(ir).map_values(|n: IrNode| entry_v(n, plan.nodes@, rs))
}

/// One warning per entry with no implementation path.
pub open spec fn trace_diags_v(m: Seq<EntryV>) -> Seq<SexprV>
    decreases m.len(),
{
    if m.len() == 0 {
        Seq::empty()
    } else {
        trace_diags_v(m.drop_last()) + if m.last().has_implementation {
            Seq::empty()
        } else {
            seq![adiag_v("warning"@, "unimplemented-semantic-node"@, m.last().semantic_id, "semantic node has no implementation path"@)]
        }
    }
}

pub open spec fn node_lock_v(n: PlanNode) -> SexprV {
    SexprV::List(seq![
        SexprV::Sym("node-lock"@),
        SexprV::List(seq![
            pair_v("node-id"@, SexprV::Str(n.id@)),
            pair_v("recipe"@, SexprV::Sym(n.recipe@)),
            pair_v("model"@, n.model@),
            pair_v("fingerprint"@, SexprV::Str(n.fingerprint@)),
        ]),
    ])
}

pub open spec fn lock_v(plan: Plan) -> SexprV {
    SexprV::List(seq![
        SexprV::Sym("dependency-lock"@),
        SexprV::List(seq![
            pair_v("plan-fingerprint"@, SexprV::Str(plan.fingerprint@)),
            pair_v("node-locks"@, SexprV::List(plan.nodes@.map_values(|n: PlanNode| node_lock_v(n)))),
        ]),
    ])
}

pub open spec fn count_status(rs: Seq<ResultV>, s: ExecutionStatus) -> nat
    decreases rs.len(),
{
    if rs.len() == 0 {
        0
    } else {
        count_status(rs.drop_last(), s) + if rs.last().status == s { 1nat } else { 0nat }
    }
}

pub open spec fn int_of(n: int) -> SexprV {
    SexprV::Int((n as i64) as int)
}

/// The bundle's entries, without its fingerprint.
pub open spec fn bundle_items_v(ir: Ir, plan: Plan, rs: Seq<ResultV>, verification: Option<SexprV>) -> Seq<SexprV> {
    let arts = artifacts_v(rs);
    let m = map_v(ir, plan, rs);
    seq![
        pair_v("schema"@, SexprV::Str("gymnast.bundle/0.1"@)),
        pair_v("ir-fingerprint"@, SexprV::Str(ir.fingerprint@)),
        pair_v("plan-fingerprint"@, SexprV::Str(plan.fingerprint@)),
        pair_v("artifacts"@, SexprV::List(arts.map_values(|a: ArtifactV| artifact_sexpr_v(a)))),
        pair_v("traceability"@, SexprV::List(m.map_values(|e: EntryV| entry_sexpr_v(e)))),
        pair_v("dependency-lock"@, lock_v(plan)),
        pair_v("verification"@, match verification {
            Some(v) => v,
            None => nil_v(),
        }),
        pair_v("summary"@, SexprV::List(seq![
            pair_v("total-nodes"@, int_of(plan.nodes@.len() as int)),
            pair_v("artifacts-produced"@, int_of(arts.len() as int)),
            pair_v("succeeded-nodes"@, int_of(count_status(rs, ExecutionStatus::Succeeded) as int)),
            pair_v("failed-nodes"@, int_of(count_status(rs, ExecutionStatus::Failed) as int)),
            pair_v("has-verification"@, bool_v(verification is Some)),
        ])),
        pair_v("diagnostics"@, SexprV::List(artifact_diags_v(plan.nodes@, arts) + capability_diags_v(plan.nodes@) + trace_diags_v(m))),
    ]
}

pub open spec fn bundle_base_v(ir: Ir, plan: Plan, rs: Seq<ResultV>, verification: Option<SexprV>) -> SexprV {
    SexprV::List(seq![SexprV::Sym("evidence-bundle"@), SexprV::List(bundle_items_v(ir, plan, rs, verification))])
}

/// The assembled evidence bundle with the fingerprint of its
/// fingerprint-free form as its last entry.
pub open spec fn evidence_v(ir: Ir, plan: Plan, rs: Seq<ResultV>, verification: Option<SexprV>) -> SexprV {
    SexprV::List(seq![
        SexprV::Sym("evidence-bundle"@),
        SexprV::List(bundle_items_v(ir, plan, rs, verification).push(
            pair_v("fingerprint"@, SexprV::Str(fingerprint_text(print_v(bundle_base_v(ir, plan, rs, verification))))))),
    ])
}

// ---- promotion ----

/// The values of every `(key value)` pair of a list, in order.
pub open spec fn pairs_with(items: Seq<SexprV>, key: Seq<char>) -> Seq<SexprV>
    decreases items.len(),
{
    if items.len() == 0 {
        Seq::empty()
    } else {
        let rest = pairs_with(items.drop_last(), key);
        match items.last() {
            SexprV::List(p) => if p.len() == 2 && p[0] == SexprV::Sym(key) { rest.push(p[1]) } else { rest },
            _ => rest,
        }
    }
}

/// Alist lookup that rejects shadowing: the value only when exactly one
/// pair carries the key.
pub open spec fn assoc_unique_v(form: SexprV, key: Seq<char>) -> Option<SexprV> {
    match form {
        SexprV::List(items) => {
            let vs = pairs_with(items, key);
            if vs.len() == 1 { Some(vs[0]) } else { None }
        },
        _ => None,
    }
}

/// A diagnostic's `key` entry, flat or nested one level.
pub open spec fn diag_entry(d: SexprV, key: Seq<char>) -> Option<SexprV> {
    match assoc_v(d, key) {
        Some(v) => Some(v),
        None => match d {
            SexprV::List(items) => if items.len() > 1 { assoc_v(items[1], key) } else { None },
            _ => None,
        },
    }
}

/// An error, or a diagnostic whose severity cannot be read.
pub open spec fn is_error_v(d: SexprV) -> bool {
    match diag_entry(d, "severity"@) {
        Some(SexprV::Sym(s)) => s == "error"@,
        _ => true,
    }
}

pub open spec fn is_missing_v(d: SexprV) -> bool {
    diag_entry(d, "code"@) == Some(SexprV::Sym("missing-artifact"@))
}

pub open spec fn bundle_body_v(b: SexprV) -> Option<SexprV> {
    match b {
        SexprV::List(items) => if items.len() == 2 && items[0] == SexprV::Sym("evidence-bundle"@) && items[1] is List {
            Some(items[1])
        } else {
            None
        },
        _ => None,
    }
}

pub open spec fn body_field(body: Option<SexprV>, key: Seq<char>) -> Option<SexprV> {
    match body {
        Some(b) => assoc_unique_v(b, key),
        None => None,
    }
}

pub open spec fn none_error(ds: Seq<SexprV>) -> bool {
    forall|k: int| 0 <= k < ds.len() ==> !is_error_v(#[trigger] ds[k])
}

pub open spec fn none_missing(ds: Seq<SexprV>) -> bool {
    forall|k: int| 0 <= k < ds.len() ==> !is_missing_v(#[trigger] ds[k])
}

pub open spec fn own_clean_v(body: Option<SexprV>) -> bool {
    match body_field(body, "diagnostics"@) {
        Some(SexprV::List(ds)) => none_error(ds),
        _ => false,
    }
}

pub open spec fn nested_clean_v(body: Option<SexprV>) -> bool {
    match body_field(body, "verification"@) {
        Some(sec) => sec == nil_v() || bundle_errors_v(sec).len() == 0,
        None => false,
    }
}

pub open spec fn present_v(body: Option<SexprV>) -> bool {
    match body_field(body, "diagnostics"@) {
        Some(SexprV::List(ds)) => none_missing(ds),
        _ => false,
    }
}

pub open spec fn succeeded_v(body: Option<SexprV>) -> bool {
    match body_field(body, "summary"@) {
        Some(s) => assoc_unique_v(s, "failed-nodes"@) == Some(SexprV::Int(0)),
        None => false,
    }
}

/// The two verification checks: vacuously true for a `nil` section,
/// fail-closed for a missing or unreadable one.
pub open spec fn verification_checks_v(body: Option<SexprV>) -> (bool, bool) {
    match body_field(body, "verification"@) {
        None => (false, false),
        Some(sec) => if sec == nil_v() {
            (true, true)
        } else {
            match summary_v(sec) {
                Some(t) => (t.0 > 0 && t.2 == 0, t.4 == 0),
                None => (false, false),
            }
        },
    }
}

pub open spec fn entry_traced_v(e: SexprV) -> bool {
    match e {
        SexprV::List(items) => items.len() == 2 && items[0] == SexprV::Sym("traceability-entry"@)
            && bool_of_v(assoc_v(items[1], "has-implementation"@)) && bool_of_v(assoc_v(items[1], "has-evidence"@)),
        _ => false,
    }
}

/// Every entry is traced.
pub open spec fn all_traced(es: Seq<SexprV>) -> bool
    decreases es.len(),
{
    es.len() == 0 || (entry_traced_v(es[0]) && all_traced(es.drop_first()))
}

pub open spec fn traced_v(body: Option<SexprV>) -> bool {
    match body_field(body, "traceability"@) {
        Some(SexprV::List(es)) => all_traced(es),
        _ => false,
    }
}

/// The six promotion checks, in order.
pub open spec fn checks_v(bundle: SexprV) -> Seq<bool> {
    let body = bundle_body_v(bundle);
    let vc = verification_checks_v(body);
    seq![own_clean_v(body) && nested_clean_v(body), present_v(body), succeeded_v(body), vc.0, vc.1, traced_v(body)]
}

pub open spec fn check_names() -> Seq<Seq<char>> {
    seq![
        "no-error-diagnostics"@,
        "all-artifacts-present"@,
        "all-nodes-succeeded"@,
        "verification-passed"@,
        "no-indeterminate-verification"@,
        "traceability-complete"@,
    ]
}

pub open spec fn policy_name_v(policy: SexprV) -> SexprV {
    match policy {
        SexprV::List(items) => if items.len() > 1 {
            match assoc_v(items[1], "name"@) {
                Some(v) => v,
                None => nil_v(),
            }
        } else {
            nil_v()
        },
        _ => nil_v(),
    }
}

/// `(promotion-result ((policy p) (decision promote|hold) (checks (...))))`:
/// `promote` exactly when all six checks pass.
pub open spec fn promotion_v(policy: SexprV, bundle: SexprV) -> SexprV {
    let cs = checks_v(bundle);
    let all = cs[0] && cs[1] && cs[2] && cs[3] && cs[4] && cs[5];
    SexprV::List(seq![
        SexprV::Sym("promotion-result"@),
        SexprV::List(seq![
            pair_v("policy"@, policy_name_v(policy)),
            pair_v("decision"@, SexprV::Sym(if all { "promote"@ } else { "hold"@ })),
            pair_v("checks"@, SexprV::List(seq![
                pair_v(check_names()[0], bool_v(cs[0])),
                pair_v(check_names()[1], bool_v(cs[1])),
                pair_v(check_names()[2], bool_v(cs[2])),
                pair_v(check_names()[3], bool_v(cs[3])),
                pair_v(check_names()[4], bool_v(cs[4])),
                pair_v(check_names()[5], bool_v(cs[5])),
            ])),
        ]),
    ])
}

pub open spec fn is_fingerprint_pair(p: SexprV) -> bool {
    match p {
        SexprV::List(x) => x.len() > 0 && x[0] == SexprV::Sym("fingerprint"@),
        _ => false,
    }
}

pub open spec fn count_fp(items: Seq<SexprV>) -> nat
    decreases items.len(),
{
    if items.len() == 0 {
        0
    } else {
        count_fp(items.drop_last()) + if is_fingerprint_pair(items.last()) { 1nat } else { 0nat }
    }
}

/// A well-formed bundle whose only `fingerprint` entry is its last and
/// equals the fingerprint of the bundle without it.
pub open spec fn fingerprint_ok_v(b: SexprV) -> bool {
    match b {
        SexprV::List(items) => items.len() == 2 && items[0] == SexprV::Sym("evidence-bundle"@) && match items[1] {
            SexprV::List(body) => body.len() > 0 && match body.last() {
                SexprV::List(p) => p.len() == 2 && p[0] == SexprV::Sym("fingerprint"@) && count_fp(body) == 1 && match p[1] {
                    SexprV::Str(claimed) => fingerprint_text(print_v(SexprV::List(seq![
                        SexprV::Sym("evidence-bundle"@),
                        SexprV::List(body.drop_last()),
                    ]))) == claimed,
                    _ => false,
                },
                _ => false,
            },
            _ => false,
        },
        _ => false,
    }
}


// ===================================================================
// Executable code.
// ===================================================================

/// The schema tag of the evidence bundle.
pub const BUNDLE_SCHEMA: &'static str = "gymnast.bundle/0.1";

fn nil() -> (r: Sexpr)
    ensures
        r@ == nil_v(),
{
    let r = Sexpr::List(Vec::new());
    assert(views_of(Seq::<Sexpr>::empty()) =~= Seq::<SexprV>::empty());
    r
}

fn is_nil(v: &Sexpr) -> (r: bool)
    ensures
        r == (v@ == nil_v()),
{
    match v {
        Sexpr::List(items) => {
            proof {
                lemma_views_of(items@);
                if items.len() == 0 {
                    assert(views_of(items@) =~= Seq::<SexprV>::empty());
                }
            }
            items.len() == 0
        },
        _ => false,
    }
}

fn is_sym(x: &Sexpr, s: &str) -> (r: bool)
    ensures
        r == (x@ == SexprV::Sym(s@)),
{
    match x.as_sym() {
        Some(t) => str_eq(t, s),
        None => false,
    }
}

/// `t` for true, `nil` for false.
pub fn bool_sexpr(b: bool) -> (r: Sexpr)
    ensures
        r@ == bool_v(b),
{
    if b {
        Sexpr::sym("t")
    } else {
        nil()
    }
}

/// Fail-closed boolean read: only the bare symbol `t` is true.
pub fn bool_of(v: Option<&Sexpr>) -> (r: bool)
    ensures
        r == bool_of_v(crate::transition::opt_ref_v(v)),
{
    match v {
        Some(s) => is_sym(s, "t"),
        None => false,
    }
}

/// An assembly diagnostic (see `adiag_v`).
pub fn diagnostic(severity: &str, code: &str, subject: &str, message: &str) -> (r: Sexpr)
    ensures
        r@ == adiag_v(severity@, code@, subject@, message@),
{
    let body = vec![
        Sexpr::pair("severity", Sexpr::sym(severity)),
        Sexpr::pair("code", Sexpr::sym(code)),
        Sexpr::pair("subject", Sexpr::Str(owned(subject))),
        Sexpr::pair("message", Sexpr::Str(owned(message))),
    ];
    proof {
        lemma_views_of(body@);
        assert(views_of(body@) =~= adiag_v(severity@, code@, subject@, message@)->List_0[1]->List_0);
    }
    let r = list2(Sexpr::sym("diagnostic"), Sexpr::List(body));
    assert(r@->List_0 =~= adiag_v(severity@, code@, subject@, message@)->List_0);
    r
}

/// One produced file, linked to the plan node whose result carried it.
#[derive(Debug)]
pub struct Artifact {
    pub path: String,
    pub node_id: String,
    pub digest: String,
    pub size: i64,
}

impl View for Artifact {
    type V = ArtifactV;

    open spec fn view(&self) -> ArtifactV {
        ArtifactV { path: self.path@, node_id: self.node_id@, digest: self.digest@, size: self.size as int }
    }
}

impl Artifact {
    /// `(artifact ((path "...") (node-id "...") (digest "...") (size N)))`.
    pub fn to_sexpr(&self) -> (r: Sexpr)
        ensures
            r@ == artifact_sexpr_v(self@),
    {
        let body = vec![
            Sexpr::pair("path", Sexpr::Str(self.path.clone())),
            Sexpr::pair("node-id", Sexpr::Str(self.node_id.clone())),
            Sexpr::pair("digest", Sexpr::Str(self.digest.clone())),
            Sexpr::pair("size", Sexpr::Int(self.size)),
        ];
        proof {
            lemma_views_of(body@);
            assert(views_of(body@) =~= artifact_sexpr_v(self@)->List_0[1]->List_0);
        }
        let r = list2(Sexpr::sym("artifact"), Sexpr::List(body));
        assert(r@->List_0 =~= artifact_sexpr_v(self@)->List_0);
        r
    }
}

pub open spec fn arts_view(a: Seq<Artifact>) -> Seq<ArtifactV> {
    a.map_values(|x: Artifact| x@)
}

fn candidate_body(candidate: Option<&Sexpr>) -> (r: Option<&Sexpr>)
    ensures
        match candidate_body_v(crate::transition::opt_ref_v(candidate)) {
            Some(b) => r is Some && r->0@ == b,
            None => r is None,
        },
{
    let c = match candidate {
        Some(c) => c,
        None => return None,
    };
    match c {
        Sexpr::List(items) => {
            proof {
                lemma_views_of(items@);
            }
            if items.len() != 2 || !is_sym(&items[0], "candidate") {
                return None;
            }
            match &items[1] {
                Sexpr::List(_) => Some(&items[1]),
                _ => None,
            }
        },
        _ => None,
    }
}

fn push_file_artifact(out: &mut Vec<Artifact>, node_id: &str, entry: &Sexpr)
    ensures
        arts_view(final(out)@) == arts_view(old(out)@) + match file_artifact(node_id@, entry@) {
            Some(a) => seq![a],
            None => Seq::<ArtifactV>::empty(),
        },
{
    match entry {
        Sexpr::List(p) => {
            proof {
                lemma_views_of(p@);
            }
            if p.len() >= 2 {
                match (p[0].as_str(), p[1].as_str()) {
                    (Some(path), Some(content)) => {
                        let a = Artifact {
                            path: owned(path),
                            node_id: owned(node_id),
                            digest: fingerprint_string(content),
                            size: content.len() as i64,
                        };
                        out.push(a);
                        assert(arts_view(out@) =~= arts_view(old(out)@).push(a@));
                    },
                    _ => {},
                }
            }
        },
        _ => {},
    }
    assert(arts_view(out@) =~= arts_view(old(out)@) + match file_artifact(node_id@, entry@) {
        Some(a) => seq![a],
        None => Seq::<ArtifactV>::empty(),
    });
}

/// Every file output of every succeeded result, in result order (see
/// `artifacts_v`).
pub fn collect_artifacts(results: &[ExecutionResult]) -> (r: Vec<Artifact>)
    ensures
        arts_view(r@) == artifacts_v(results_view(results@)),
{
    let ghost rv = results_view(results@);
    let mut out: Vec<Artifact> = Vec::new();
    let mut i: usize = 0;
    assert(arts_view(out@) =~= Seq::<ArtifactV>::empty());
    while i < results.len()
        invariant
            i <= results.len(),
            rv == results_view(results@),
            arts_view(out@) == artifacts_v(rv.take(i as int)),
        decreases results.len() - i,
    {
        assert(rv.take(i + 1).drop_last() =~= rv.take(i as int));
        assert(rv.take(i + 1).last() == results@[i as int]@);
        let ghost before = arts_view(out@);
        let result = &results[i];
        if result.status == ExecutionStatus::Succeeded {
            match candidate_body(result.candidate.as_ref()) {
                Some(body) => match body.assoc("files") {
                    Some(f) => match f {
                        Sexpr::List(files) => {
                            let ghost fv = views_of(files@);
                            proof {
                                lemma_views_of(files@);
                            }
                            let mut k: usize = 0;
                            while k < files.len()
                                invariant
                                    k <= files.len(),
                                    fv == views_of(files@),
                                    fv.len() == files.len(),
                                    forall|j: int| 0 <= j < files.len() ==> #[trigger] fv[j] == files@[j]@,
                                    arts_view(out@) == before + file_artifacts(result.node_id@, fv.take(k as int)),
                                decreases files.len() - k,
                            {
                                assert(fv.take(k + 1).drop_last() =~= fv.take(k as int));
                                assert(fv.take(k + 1).last() == files@[k as int]@);
                                push_file_artifact(&mut out, result.node_id.as_str(), &files[k]);
                                k = k + 1;
                            }
                            assert(fv.take(files.len() as int) =~= fv);
                        },
                        _ => {},
                    },
                    None => {},
                },
                None => {},
            }
        }
        assert(arts_view(out@) =~= before + result_artifacts(results@[i as int]@));
        i = i + 1;
    }
    assert(rv.take(results.len() as int) =~= rv);
    out
}

fn concat_field(ns: &[PlanNode], which: u8) -> (r: Vec<String>)
    ensures
        texts(r@) == (if which == 0 { declared_v(ns@) } else if which == 1 { caps_v(ns@) } else { prohibs_v(ns@) }),
{
    let mut out: Vec<String> = Vec::new();
    let mut i: usize = 0;
    assert(texts(out@) =~= Seq::<Seq<char>>::empty());
    while i < ns.len()
        invariant
            i <= ns.len(),
            texts(out@) == (if which == 0 { declared_v(ns@.take(i as int)) } else if which == 1 { caps_v(ns@.take(i as int)) } else { prohibs_v(ns@.take(i as int)) }),
        decreases ns.len() - i,
    {
        assert(ns@.take(i + 1).drop_last() =~= ns@.take(i as int));
        assert(ns@.take(i + 1).last() == ns@[i as int]);
        let src: &Vec<String> = if which == 0 { &ns[i].may_write } else if which == 1 { &ns[i].capabilities } else { &ns[i].prohibitions };
        let ghost before = texts(out@);
        let mut k: usize = 0;
        while k < src.len()
            invariant
                k <= src.len(),
                texts(out@) == before + texts(src@.take(k as int)),
            decreases src.len() - k,
        {
            let ghost b2 = out@;
            out.push(src[k].clone());
            assert(texts(out@) =~= texts(b2).push(src@[k as int]@));
            assert(texts(src@.take(k + 1)) =~= texts(src@.take(k as int)).push(src@[k as int]@));
            k = k + 1;
        }
        assert(src@.take(src.len() as int) =~= src@);
        i = i + 1;
    }
    assert(ns@.take(ns.len() as int) =~= ns@);
    out
}

fn flag_each_exec(xs: &[String], ys: &[String], inside: bool, severity: &str, code: &str, message: &str, out: &mut Vec<Sexpr>)
    ensures
        views_of(final(out)@) == views_of(old(out)@) + flag_each(texts(xs@), texts(ys@), inside, severity@, code@, message@),
{
    let ghost xv = texts(xs@);
    let ghost start = views_of(out@);
    let mut i: usize = 0;
    assert(xv.take(0) =~= Seq::<Seq<char>>::empty());
    while i < xs.len()
        invariant
            i <= xs.len(),
            xv == texts(xs@),
            views_of(out@) == start + flag_each(xv.take(i as int), texts(ys@), inside, severity@, code@, message@),
        decreases xs.len() - i,
    {
        assert(xv.take(i + 1).drop_last() =~= xv.take(i as int));
        assert(xv.take(i + 1).last() == xs@[i as int]@);
        if crate::order::text_in(ys, xs[i].as_str()) == inside {
            let d = diagnostic(severity, code, xs[i].as_str(), message);
            proof {
                lemma_views_push(out@, d);
            }
            out.push(d);
        }
        assert(views_of(out@) =~= start + flag_each(xv.take(i + 1), texts(ys@), inside, severity@, code@, message@));
        i = i + 1;
    }
    assert(xv.take(xs.len() as int) =~= xv);
}

/// Artifacts against the plan's declared paths (see `artifact_diags_v`).
pub fn validate_artifacts(plan: &Plan, artifacts: &[Artifact]) -> (r: Vec<Sexpr>)
    ensures
        views_of(r@) == artifact_diags_v(plan.nodes@, arts_view(artifacts@)),
{
    let declared = concat_field(plan.nodes.as_slice(), 0);
    let mut actual: Vec<String> = Vec::new();
    let mut i: usize = 0;
    while i < artifacts.len()
        invariant
            i <= artifacts.len(),
            texts(actual@) == paths_v(arts_view(artifacts@.take(i as int))),
        decreases artifacts.len() - i,
    {
        let ghost b = actual@;
        actual.push(artifacts[i].path.clone());
        assert(texts(actual@) =~= texts(b).push(artifacts@[i as int].path@));
        assert(paths_v(arts_view(artifacts@.take(i + 1))) =~= paths_v(arts_view(artifacts@.take(i as int))).push(artifacts@[i as int].path@));
        i = i + 1;
    }
    assert(artifacts@.take(artifacts.len() as int) =~= artifacts@);
    let mut diags: Vec<Sexpr> = Vec::new();
    assert(views_of(diags@) =~= Seq::<SexprV>::empty());
    flag_each_exec(actual.as_slice(), declared.as_slice(), false, "error", "untracked-artifact", "artifact not declared in any plan node", &mut diags);
    flag_each_exec(declared.as_slice(), actual.as_slice(), false, "warning", "missing-artifact", "declared artifact not produced", &mut diags);
    diags
}

/// One error per capability occurrence also prohibited (see
/// `capability_diags_v`).
pub fn validate_capability_edges(plan: &Plan) -> (r: Vec<Sexpr>)
    ensures
        views_of(r@) == capability_diags_v(plan.nodes@),
{
    let caps = concat_field(plan.nodes.as_slice(), 1);
    let prohibs = concat_field(plan.nodes.as_slice(), 2);
    let mut diags: Vec<Sexpr> = Vec::new();
    assert(views_of(diags@) =~= Seq::<SexprV>::empty());
    flag_each_exec(caps.as_slice(), prohibs.as_slice(), true, "error", "prohibited-capability", "capability is both used and prohibited", &mut diags);
    diags
}

/// Source-to-evidence linkage for one IR node.
#[derive(Debug)]
pub struct TraceabilityEntry {
    pub semantic_id: String,
    pub kind: String,
    pub plan_nodes: Vec<String>,
    pub has_implementation: bool,
    pub has_evidence: bool,
}

impl View for TraceabilityEntry {
    type V = EntryV;

    open spec fn view(&self) -> EntryV {
        EntryV {
            semantic_id: self.semantic_id@,
            kind: self.kind@,
            plan_nodes: texts(self.plan_nodes@),
            has_implementation: self.has_implementation,
            has_evidence: self.has_evidence,
        }
    }
}

impl TraceabilityEntry {
    /// `(traceability-entry ((semantic-id "...") (kind "...") (plan-nodes (...))
    /// (has-implementation t|nil) (has-evidence t|nil)))`.
    pub fn to_sexpr(&self) -> (r: Sexpr)
        ensures
            r@ == entry_sexpr_v(self@),
    {
        let ghost pv = texts(self.plan_nodes@);
        let mut ids: Vec<Sexpr> = Vec::new();
        let mut i: usize = 0;
        while i < self.plan_nodes.len()
            invariant
                i <= self.plan_nodes.len(),
                pv == texts(self.plan_nodes@),
                views_of(ids@) == pv.take(i as int).map_values(|p: Seq<char>| SexprV::Str(p)),
            decreases self.plan_nodes.len() - i,
        {
            let e = Sexpr::Str(self.plan_nodes[i].clone());
            proof {
                lemma_views_push(ids@, e);
                assert(pv.take(i + 1).map_values(|p: Seq<char>| SexprV::Str(p)) =~= pv.take(i as int).map_values(|p: Seq<char>| SexprV::Str(p)).push(SexprV::Str(pv[i as int])));
            }
            ids.push(e);
            i = i + 1;
        }
        assert(pv.take(self.plan_nodes.len() as int) =~= pv);
        let body = vec![
            Sexpr::pair("semantic-id", Sexpr::Str(self.semantic_id.clone())),
            Sexpr::pair("kind", Sexpr::Str(self.kind.clone())),
            Sexpr::pair("plan-nodes", Sexpr::List(ids)),
            Sexpr::pair("has-implementation", bool_sexpr(self.has_implementation)),
            Sexpr::pair("has-evidence", bool_sexpr(self.has_evidence)),
        ];
        proof {
            lemma_views_of(body@);
            assert(views_of(body@) =~= entry_sexpr_v(self@)->List_0[1]->List_0);
        }
        let r = list2(Sexpr::sym("traceability-entry"), Sexpr::List(body));
        assert(r@->List_0 =~= entry_sexpr_v(self@)->List_0);
        r
    }
}

/// The traceability of one IR node (see `entry_v`).
pub fn traceability_entry(ir_node: &IrNode, plan: &Plan, results: &[ExecutionResult]) -> (r: TraceabilityEntry)
    ensures
        r@ == entry_v(*ir_node, plan.nodes@, results_view(results@)),
{
    let mut plan_nodes: Vec<String> = Vec::new();
    let mut i: usize = 0;
    assert(texts(plan_nodes@) =~= Seq::<Seq<char>>::empty());
    while i < plan.nodes.len()
        invariant
            i <= plan.nodes.len(),
            texts(plan_nodes@) == implementing(plan.nodes@.take(i as int), ir_node.id@),
        decreases plan.nodes.len() - i,
    {
        assert(plan.nodes@.take(i + 1).drop_last() =~= plan.nodes@.take(i as int));
        assert(plan.nodes@.take(i + 1).last() == plan.nodes@[i as int]);
        if crate::order::text_in(plan.nodes[i].inputs.as_slice(), ir_node.id.as_str()) {
            let ghost b = plan_nodes@;
            plan_nodes.push(plan.nodes[i].id.clone());
            assert(texts(plan_nodes@) =~= texts(b).push(plan.nodes@[i as int].id@));
        }
        i = i + 1;
    }
    assert(plan.nodes@.take(plan.nodes.len() as int) =~= plan.nodes@);
    let ghost rv = results_view(results@);
    let mut has_evidence = false;
    let mut k: usize = 0;
    while k < results.len()
        invariant
            k <= results.len(),
            rv == results_view(results@),
            has_evidence == exists|j: int| 0 <= j < k && texts(plan_nodes@).contains(#[trigger] rv[j].node_id),
        decreases results.len() - k,
    {
        assert(rv[k as int].node_id == results@[k as int].node_id@);
        if crate::order::text_in(plan_nodes.as_slice(), results[k].node_id.as_str()) {
            has_evidence = true;
        }
        k = k + 1;
    }
    let has_implementation = plan_nodes.len() > 0;
    TraceabilityEntry {
        semantic_id: ir_node.id.clone(),
        kind: ir_node.kind.clone(),
        plan_nodes,
        has_implementation,
        has_evidence,
    }
}

pub open spec fn entries_view(m: Seq<TraceabilityEntry>) -> Seq<EntryV> {
    m.map_values(|e: TraceabilityEntry| e@)
}

/// One entry per IR node, in `all_nodes` order.
pub fn build_traceability_map(ir: &Ir, plan: &Plan, results: &[ExecutionResult]) -> (r: Vec<TraceabilityEntry>)
    ensures
        entries_view(r@) == map_v(*ir, *plan, results_view(results@)),
{
    let all = ir.all_nodes();
    let ghost av = all@.map_values(|n: &IrNode| *n);
    let mut out: Vec<TraceabilityEntry> = Vec::new();
    let mut i: usize = 0;
    while i < all.len()
        invariant
            i <= all.len(),
            av == all@.map_values(|n: &IrNode| *n),
            av == all_nodes_v(*ir),
            entries_view(out@) == av.take(i as int).map_values(|n: IrNode| entry_v(n, plan.nodes@, results_view(results@))),
        decreases all.len() - i,
    {
        let e = traceability_entry(all[i], plan, results);
        let ghost b = out@;
        out.push(e);
        assert(entries_view(out@) =~= entries_view(b).push(e@));
        assert(av.take(i + 1).map_values(|n: IrNode| entry_v(n, plan.nodes@, results_view(results@))) =~= av.take(i as int).map_values(|n: IrNode| entry_v(n, plan.nodes@, results_view(results@))).push(entry_v(av[i as int], plan.nodes@, results_view(results@))));
        i = i + 1;
    }
    assert(av.take(all.len() as int) =~= av);
    out
}

/// One warning per entry without an implementation path.
pub fn traceability_diagnostics(map: &[TraceabilityEntry]) -> (r: Vec<Sexpr>)
    ensures
        views_of(r@) == trace_diags_v(entries_view(map@)),
{
    let ghost mv = entries_view(map@);
    let mut out: Vec<Sexpr> = Vec::new();
    let mut i: usize = 0;
    assert(views_of(out@) =~= Seq::<SexprV>::empty());
    while i < map.len()
        invariant
            i <= map.len(),
            mv == entries_view(map@),
            views_of(out@) == trace_diags_v(mv.take(i as int)),
        decreases map.len() - i,
    {
        assert(mv.take(i + 1).drop_last() =~= mv.take(i as int));
        assert(mv.take(i + 1).last() == map@[i as int]@);
        if !map[i].has_implementation {
            let d = diagnostic("warning", "unimplemented-semantic-node", map[i].semantic_id.as_str(), "semantic node has no implementation path");
            proof {
                lemma_views_push(out@, d);
            }
            out.push(d);
        }
        assert(views_of(out@) =~= trace_diags_v(mv.take(i + 1)));
        i = i + 1;
    }
    assert(mv.take(map.len() as int) =~= mv);
    out
}

fn node_lock(node: &PlanNode) -> (r: Sexpr)
    ensures
        r@ == node_lock_v(*node),
{
    let body = vec![
        Sexpr::pair("node-id", Sexpr::Str(node.id.clone())),
        Sexpr::pair("recipe", Sexpr::sym(node.recipe.as_str())),
        Sexpr::pair("model", clone_sexpr(&node.model)),
        Sexpr::pair("fingerprint", Sexpr::Str(node.fingerprint.clone())),
    ];
    proof {
        lemma_views_of(body@);
        assert(views_of(body@) =~= node_lock_v(*node)->List_0[1]->List_0);
    }
    let r = list2(Sexpr::sym("node-lock"), Sexpr::List(body));
    assert(r@->List_0 =~= node_lock_v(*node)->List_0);
    r
}

/// Each plan node's recipe, model and fingerprint, in plan order.
pub fn dependency_lock(plan: &Plan) -> (r: Sexpr)
    ensures
        r@ == lock_v(*plan),
{
    let mut locks: Vec<Sexpr> = Vec::new();
    let mut i: usize = 0;
    while i < plan.nodes.len()
        invariant
            i <= plan.nodes.len(),
            views_of(locks@) == plan.nodes@.take(i as int).map_values(|n: PlanNode| node_lock_v(n)),
        decreases plan.nodes.len() - i,
    {
        let l = node_lock(&plan.nodes[i]);
        proof {
            lemma_views_push(locks@, l);
            assert(plan.nodes@.take(i + 1).map_values(|n: PlanNode| node_lock_v(n)) =~= plan.nodes@.take(i as int).map_values(|n: PlanNode| node_lock_v(n)).push(node_lock_v(plan.nodes@[i as int])));
        }
        locks.push(l);
        i = i + 1;
    }
    assert(plan.nodes@.take(plan.nodes.len() as int) =~= plan.nodes@);
    let body = vec![
        Sexpr::pair("plan-fingerprint", Sexpr::Str(plan.fingerprint.clone())),
        Sexpr::pair("node-locks", Sexpr::List(locks)),
    ];
    proof {
        lemma_views_of(body@);
        assert(views_of(body@) =~= lock_v(*plan)->List_0[1]->List_0);
    }
    let r = list2(Sexpr::sym("dependency-lock"), Sexpr::List(body));
    assert(r@->List_0 =~= lock_v(*plan)->List_0);
    r
}

pub open spec fn default_policy_v() -> SexprV {
    SexprV::List(seq![
        SexprV::Sym("promotion-policy"@),
        SexprV::List(seq![
            pair_v("name"@, SexprV::Sym("default"@)),
            pair_v("requires"@, SexprV::List(seq![
                pair_v("all-artifacts-present"@, SexprV::Sym("t"@)),
                pair_v("no-untracked-artifacts"@, SexprV::Sym("t"@)),
                pair_v("no-capability-violations"@, SexprV::Sym("t"@)),
                pair_v("all-nodes-succeeded"@, SexprV::Sym("t"@)),
                pair_v("verification-passed"@, SexprV::Sym("t"@)),
                pair_v("traceability-complete"@, SexprV::Sym("t"@)),
            ])),
        ]),
    ])
}

/// The default promotion policy; its `requires` list is descriptive,
/// the computed checks of `evaluate_promotion` are the contract.
pub fn default_promotion_policy() -> (r: Sexpr)
    ensures
        r@ == default_policy_v(),
{
    let reqs = vec![
        Sexpr::pair("all-artifacts-present", Sexpr::sym("t")),
        Sexpr::pair("no-untracked-artifacts", Sexpr::sym("t")),
        Sexpr::pair("no-capability-violations", Sexpr::sym("t")),
        Sexpr::pair("all-nodes-succeeded", Sexpr::sym("t")),
        Sexpr::pair("verification-passed", Sexpr::sym("t")),
        Sexpr::pair("traceability-complete", Sexpr::sym("t")),
    ];
    proof {
        lemma_views_of(reqs@);
        assert(views_of(reqs@) =~= default_policy_v()->List_0[1]->List_0[1]->List_0[1]->List_0);
    }
    let body = vec![Sexpr::pair("name", Sexpr::sym("default")), Sexpr::pair("requires", Sexpr::List(reqs))];
    proof {
        lemma_views_of(body@);
        assert(views_of(body@) =~= default_policy_v()->List_0[1]->List_0);
    }
    let r = list2(Sexpr::sym("promotion-policy"), Sexpr::List(body));
    assert(r@->List_0 =~= default_policy_v()->List_0);
    r
}


// ---- promotion ----

/// Alist lookup that rejects shadowing (see `assoc_unique_v`).
fn assoc_unique<'a>(form: &'a Sexpr, key: &str) -> (r: Option<&'a Sexpr>)
    ensures
        match assoc_unique_v(form@, key@) {
            Some(v) => r is Some && r->0@ == v,
            None => r is None,
        },
{
    let items = match form {
        Sexpr::List(items) => items,
        _ => return None,
    };
    let ghost iv = views_of(items@);
    proof {
        lemma_views_of(items@);
    }
    let mut found: Option<&Sexpr> = None;
    let mut i: usize = 0;
    assert(iv.take(0) =~= Seq::<SexprV>::empty());
    while i < items.len()
        invariant
            i <= items.len(),
            iv == views_of(items@),
            iv.len() == items.len(),
            forall|j: int| 0 <= j < items.len() ==> #[trigger] iv[j] == items@[j]@,
            *form == Sexpr::List(*items),
            pairs_with(iv.take(i as int), key@).len() <= 1,
            match found {
                Some(v) => pairs_with(iv.take(i as int), key@) == seq![v@],
                None => pairs_with(iv.take(i as int), key@).len() == 0,
            },
        decreases items.len() - i,
    {
        assert(iv.take(i + 1).drop_last() =~= iv.take(i as int));
        assert(iv.take(i + 1).last() == items@[i as int]@);
        match &items[i] {
            Sexpr::List(pair) => {
                proof {
                    lemma_views_of(pair@);
                }
                if pair.len() == 2 && is_sym(&pair[0], key) {
                    if found.is_some() {
                        proof {
                            lemma_pairs_with_grows(iv, key@, i as int + 1);
                        }
                        return None;
                    }
                    found = Some(&pair[1]);
                    assert(pairs_with(iv.take(i + 1), key@) =~= seq![pair@[1]@]);
                }
            },
            _ => {},
        }
        i = i + 1;
    }
    assert(iv.take(items.len() as int) =~= iv);
    found
}

proof fn lemma_pairs_with_grows(iv: Seq<SexprV>, key: Seq<char>, k: int)
    requires
        0 <= k <= iv.len(),
        pairs_with(iv.take(k), key).len() >= 2,
    ensures
        pairs_with(iv, key).len() >= 2,
    decreases iv.len() - k,
{
    if k < iv.len() {
        assert(iv.take(k + 1).drop_last() =~= iv.take(k));
        lemma_pairs_with_grows(iv, key, k + 1);
    } else {
        assert(iv.take(k) =~= iv);
    }
}

fn diag_entry_exec<'a>(d: &'a Sexpr, key: &str) -> (r: Option<&'a Sexpr>)
    ensures
        match diag_entry(d@, key@) {
            Some(v) => r is Some && r->0@ == v,
            None => r is None,
        },
{
    match d.assoc(key) {
        Some(v) => Some(v),
        None => match d {
            Sexpr::List(items) => {
                proof {
                    lemma_views_of(items@);
                }
                if items.len() > 1 {
                    items[1].assoc(key)
                } else {
                    None
                }
            },
            _ => None,
        },
    }
}

/// An error-severity diagnostic, or one whose severity cannot be read
/// (either diagnostic shape).
pub fn is_error_diagnostic(d: &Sexpr) -> (r: bool)
    ensures
        r == is_error_v(d@),
{
    match diag_entry_exec(d, "severity") {
        Some(s) => match s.as_sym() {
            Some(t) => str_eq(t, "error"),
            None => true,
        },
        None => true,
    }
}

fn is_missing_artifact_diagnostic(d: &Sexpr) -> (r: bool)
    ensures
        r == is_missing_v(d@),
{
    match diag_entry_exec(d, "code") {
        Some(s) => is_sym(s, "missing-artifact"),
        None => false,
    }
}

fn bundle_body(bundle: &Sexpr) -> (r: Option<&Sexpr>)
    ensures
        match bundle_body_v(bundle@) {
            Some(b) => r is Some && r->0@ == b,
            None => r is None,
        },
{
    match bundle {
        Sexpr::List(items) => {
            proof {
                lemma_views_of(items@);
            }
            if items.len() != 2 || !is_sym(&items[0], "evidence-bundle") {
                return None;
            }
            match &items[1] {
                Sexpr::List(_) => Some(&items[1]),
                _ => None,
            }
        },
        _ => None,
    }
}

fn body_field_exec<'a>(body: Option<&'a Sexpr>, key: &str) -> (r: Option<&'a Sexpr>)
    ensures
        match body_field(crate::transition::opt_ref_v(body), key@) {
            Some(v) => r is Some && r->0@ == v,
            None => r is None,
        },
{
    match body {
        Some(b) => assoc_unique(b, key),
        None => None,
    }
}

fn none_match(items: &[Sexpr], missing: bool) -> (r: bool)
    ensures
        r == (if missing { none_missing(views_of(items@)) } else { none_error(views_of(items@)) }),
{
    let ghost iv = views_of(items@);
    proof {
        lemma_views_of(items@);
    }
    let mut i: usize = 0;
    while i < items.len()
        invariant
            i <= items.len(),
            iv == views_of(items@),
            iv.len() == items.len(),
            forall|j: int| 0 <= j < items.len() ==> #[trigger] iv[j] == items@[j]@,
            forall|j: int| 0 <= j < i ==> !(if missing { is_missing_v(#[trigger] iv[j]) } else { is_error_v(iv[j]) }),
        decreases items.len() - i,
    {
        let hit = if missing { is_missing_artifact_diagnostic(&items[i]) } else { is_error_diagnostic(&items[i]) };
        if hit {
            proof {
                if missing {
                    assert(is_missing_v(iv[i as int]));
                    assert(!none_missing(iv));
                } else {
                    assert(is_error_v(iv[i as int]));
                    assert(!none_error(iv));
                }
            }
            return false;
        }
        i = i + 1;
    }
    true
}

fn diags_check(body: Option<&Sexpr>, missing: bool) -> (r: bool)
    ensures
        r == (if missing { present_v(crate::transition::opt_ref_v(body)) } else { own_clean_v(crate::transition::opt_ref_v(body)) }),
{
    match body_field_exec(body, "diagnostics") {
        Some(d) => match d {
            Sexpr::List(items) => none_match(items.as_slice(), missing),
            _ => false,
        },
        None => false,
    }
}

/// The two verification checks (see `verification_checks_v`).
pub fn verification_checks(body: Option<&Sexpr>) -> (r: (bool, bool))
    ensures
        r == verification_checks_v(crate::transition::opt_ref_v(body)),
{
    let section = match body_field_exec(body, "verification") {
        Some(v) => v,
        None => return (false, false),
    };
    if is_nil(section) {
        return (true, true);
    }
    match bundle_summary(section) {
        Some(s) => (s.total > 0 && s.failed == 0, s.indeterminate == 0),
        None => (false, false),
    }
}

fn entry_traced(e: &Sexpr) -> (r: bool)
    ensures
        r == entry_traced_v(e@),
{
    match e {
        Sexpr::List(items) => {
            proof {
                lemma_views_of(items@);
            }
            if items.len() == 2 && is_sym(&items[0], "traceability-entry") {
                bool_of(items[1].assoc("has-implementation")) && bool_of(items[1].assoc("has-evidence"))
            } else {
                false
            }
        },
        _ => false,
    }
}

fn traced(body: Option<&Sexpr>) -> (r: bool)
    ensures
        r == traced_v(crate::transition::opt_ref_v(body)),
{
    match body_field_exec(body, "traceability") {
        Some(t) => match t {
            Sexpr::List(es) => {
                let ghost ev = views_of(es@);
                proof {
                    lemma_views_of(es@);
                }
                let mut i: usize = 0;
                assert(ev.skip(0) =~= ev);
                while i < es.len()
                    invariant
                        i <= es.len(),
                        ev == views_of(es@),
                        ev.len() == es.len(),
                        forall|j: int| 0 <= j < es.len() ==> #[trigger] ev[j] == es@[j]@,
                        all_traced(ev) == all_traced(ev.skip(i as int)),
                        body_field(crate::transition::opt_ref_v(body), "traceability"@) == Some(SexprV::List(ev)),
                    decreases es.len() - i,
                {
                    assert(ev.skip(i as int).drop_first() =~= ev.skip(i + 1));
                    assert(ev.skip(i as int)[0] == ev[i as int]);
                    if !entry_traced(&es[i]) {
                        return false;
                    }
                    i = i + 1;
                }
                true
            },
            _ => false,
        },
        None => false,
    }
}

/// Evaluates a promotion policy over an evidence bundle (see
/// `promotion_v`): six fail-closed checks, `promote` exactly when all
/// pass.
pub fn evaluate_promotion(policy: &Sexpr, bundle: &Sexpr) -> (r: Sexpr)
    ensures
        r@ == promotion_v(policy@, bundle@),
{
    let body = bundle_body(bundle);
    assert(crate::transition::opt_ref_v(body) == bundle_body_v(bundle@));
    let own_clean = diags_check(body, false);
    let nested_clean = match body_field_exec(body, "verification") {
        None => false,
        Some(section) => {
            if is_nil(section) {
                true
            } else {
                let errs = bundle_error_diagnostics(section);
                proof {
                    assert(errs@.map_values(|s: String| s@).len() == errs@.len());
                }
                errs.len() == 0
            }
        },
    };
    let c0 = own_clean && nested_clean;
    let c1 = diags_check(body, true);
    let c2 = match body_field_exec(body, "summary") {
        Some(s) => match assoc_unique(s, "failed-nodes") {
            Some(n) => match n.as_int() {
                Some(k) => k == 0,
                None => false,
            },
            None => false,
        },
        None => false,
    };
    let (c3, c4) = verification_checks(body);
    let c5 = traced(body);
    let all = c0 && c1 && c2 && c3 && c4 && c5;
    let policy_name = match policy {
        Sexpr::List(items) => {
            proof {
                lemma_views_of(items@);
            }
            if items.len() > 1 {
                match items[1].assoc("name") {
                    Some(v) => clone_sexpr(v),
                    None => nil(),
                }
            } else {
                nil()
            }
        },
        _ => nil(),
    };
    let checks = vec![
        Sexpr::pair("no-error-diagnostics", bool_sexpr(c0)),
        Sexpr::pair("all-artifacts-present", bool_sexpr(c1)),
        Sexpr::pair("all-nodes-succeeded", bool_sexpr(c2)),
        Sexpr::pair("verification-passed", bool_sexpr(c3)),
        Sexpr::pair("no-indeterminate-verification", bool_sexpr(c4)),
        Sexpr::pair("traceability-complete", bool_sexpr(c5)),
    ];
    proof {
        lemma_views_of(checks@);
        assert(checks_v(bundle@) =~= seq![c0, c1, c2, c3, c4, c5]);
        assert(views_of(checks@) =~= promotion_v(policy@, bundle@)->List_0[1]->List_0[2]->List_0[1]->List_0);
    }
    let body_items = vec![
        Sexpr::pair("policy", policy_name),
        Sexpr::pair("decision", Sexpr::sym(if all { "promote" } else { "hold" })),
        Sexpr::pair("checks", Sexpr::List(checks)),
    ];
    proof {
        lemma_views_of(body_items@);
        assert(views_of(body_items@) =~= promotion_v(policy@, bundle@)->List_0[1]->List_0);
    }
    let r = list2(Sexpr::sym("promotion-result"), Sexpr::List(body_items));
    assert(r@->List_0 =~= promotion_v(policy@, bundle@)->List_0);
    r
}

/// Whether a bundle's trailing `fingerprint` matches its own content
/// (see `fingerprint_ok_v`): the tamper-evidence check for a bundle
/// read back from outside.
pub fn verify_bundle_fingerprint(bundle: &Sexpr) -> (r: bool)
    ensures
        r == fingerprint_ok_v(bundle@),
{
    let items = match bundle {
        Sexpr::List(items) => items,
        _ => return false,
    };
    proof {
        lemma_views_of(items@);
    }
    if items.len() != 2 || !is_sym(&items[0], "evidence-bundle") {
        return false;
    }
    let body = match &items[1] {
        Sexpr::List(body) => body,
        _ => return false,
    };
    let ghost bv = views_of(body@);
    proof {
        lemma_views_of(body@);
    }
    if body.len() == 0 {
        return false;
    }
    let last = &body[body.len() - 1];
    let pair = match last {
        Sexpr::List(pair) => pair,
        _ => return false,
    };
    proof {
        lemma_views_of(pair@);
    }
    if pair.len() != 2 || !is_sym(&pair[0], "fingerprint") {
        return false;
    }
    let mut count: usize = 0;
    let mut i: usize = 0;
    while i < body.len()
        invariant
            i <= body.len(),
            bv == views_of(body@),
            bv.len() == body.len(),
            forall|j: int| 0 <= j < body.len() ==> #[trigger] bv[j] == body@[j]@,
            count == count_fp(bv.take(i as int)),
            count <= i,
        decreases body.len() - i,
    {
        assert(bv.take(i + 1).drop_last() =~= bv.take(i as int));
        assert(bv.take(i + 1).last() == body@[i as int]@);
        let is_fp = match &body[i] {
            Sexpr::List(x) => {
                proof {
                    lemma_views_of(x@);
                }
                x.len() > 0 && is_sym(&x[0], "fingerprint")
            },
            _ => false,
        };
        if is_fp {
            count = count + 1;
        }
        i = i + 1;
    }
    assert(bv.take(body.len() as int) =~= bv);
    if count != 1 {
        return false;
    }
    let claimed = match pair[1].as_str() {
        Some(s) => s,
        None => return false,
    };
    let mut rest: Vec<Sexpr> = Vec::new();
    let mut k: usize = 0;
    while k + 1 < body.len()
        invariant
            k + 1 <= body.len(),
            views_of(rest@) == views_of(body@.take(k as int)),
        decreases body.len() - k,
    {
        let c = clone_sexpr(&body[k]);
        proof {
            lemma_views_push(rest@, c);
            lemma_views_push(body@.take(k as int), body@[k as int]);
            assert(body@.take(k + 1) =~= body@.take(k as int).push(body@[k as int]));
        }
        rest.push(c);
        k = k + 1;
    }
    proof {
        lemma_views_of(body@.take(k as int));
        assert(views_of(body@.take(k as int)) =~= bv.drop_last());
    }
    let without = list2(Sexpr::sym("evidence-bundle"), Sexpr::List(rest));
    let fp = fingerprint(&without);
    assert(without@ =~= SexprV::List(seq![SexprV::Sym("evidence-bundle"@), SexprV::List(bv.drop_last())]));
    str_eq(fp.as_str(), claimed)
}

fn count_status_exec(results: &[ExecutionResult], s: ExecutionStatus) -> (r: usize)
    ensures
        r == count_status(results_view(results@), s),
{
    let ghost rv = results_view(results@);
    let mut n: usize = 0;
    let mut i: usize = 0;
    while i < results.len()
        invariant
            i <= results.len(),
            rv == results_view(results@),
            n == count_status(rv.take(i as int), s),
            n <= i,
        decreases results.len() - i,
    {
        assert(rv.take(i + 1).drop_last() =~= rv.take(i as int));
        assert(rv.take(i + 1).last() == results@[i as int]@);
        if results[i].status == s {
            n = n + 1;
        }
        i = i + 1;
    }
    assert(rv.take(results.len() as int) =~= rv);
    n
}

fn bundle_items(ir: &Ir, plan: &Plan, results: &[ExecutionResult], verification: Option<&Sexpr>) -> (r: Vec<Sexpr>)
    ensures
        views_of(r@) == bundle_items_v(*ir, *plan, results_view(results@), crate::transition::opt_ref_v(verification)),
{
    let artifacts = collect_artifacts(results);
    let mut diags = validate_artifacts(plan, artifacts.as_slice());
    let mut cap = validate_capability_edges(plan);
    let traceability = build_traceability_map(ir, plan, results);
    let mut tdiags = traceability_diagnostics(traceability.as_slice());
    let lock = dependency_lock(plan);
    let succeeded = count_status_exec(results, ExecutionStatus::Succeeded);
    let failed = count_status_exec(results, ExecutionStatus::Failed);
    let ghost d1 = diags@;
    let ghost d2 = cap@;
    let ghost d3 = tdiags@;
    diags.append(&mut cap);
    diags.append(&mut tdiags);
    proof {
        crate::verify::lemma_views_concat(d1, d2);
        crate::verify::lemma_views_concat(d1 + d2, d3);
    }
    let mut arts: Vec<Sexpr> = Vec::new();
    let mut i: usize = 0;
    while i < artifacts.len()
        invariant
            i <= artifacts.len(),
            views_of(arts@) == arts_view(artifacts@).take(i as int).map_values(|a: ArtifactV| artifact_sexpr_v(a)),
        decreases artifacts.len() - i,
    {
        let x = artifacts[i].to_sexpr();
        proof {
            lemma_views_push(arts@, x);
            assert(arts_view(artifacts@).take(i + 1).map_values(|a: ArtifactV| artifact_sexpr_v(a)) =~= arts_view(artifacts@).take(i as int).map_values(|a: ArtifactV| artifact_sexpr_v(a)).push(artifact_sexpr_v(artifacts@[i as int]@)));
        }
        arts.push(x);
        i = i + 1;
    }
    assert(arts_view(artifacts@).take(artifacts.len() as int) =~= arts_view(artifacts@));
    let mut entries: Vec<Sexpr> = Vec::new();
    let mut k: usize = 0;
    while k < traceability.len()
        invariant
            k <= traceability.len(),
            views_of(entries@) == entries_view(traceability@).take(k as int).map_values(|e: EntryV| entry_sexpr_v(e)),
        decreases traceability.len() - k,
    {
        let x = traceability[k].to_sexpr();
        proof {
            lemma_views_push(entries@, x);
            assert(entries_view(traceability@).take(k + 1).map_values(|e: EntryV| entry_sexpr_v(e)) =~= entries_view(traceability@).take(k as int).map_values(|e: EntryV| entry_sexpr_v(e)).push(entry_sexpr_v(traceability@[k as int]@)));
        }
        entries.push(x);
        k = k + 1;
    }
    assert(entries_view(traceability@).take(traceability.len() as int) =~= entries_view(traceability@));
    let ver = match verification {
        Some(v) => clone_sexpr(v),
        None => nil(),
    };
    let summary = vec![
        Sexpr::pair("total-nodes", Sexpr::Int(plan.nodes.len() as i64)),
        Sexpr::pair("artifacts-produced", Sexpr::Int(artifacts.len() as i64)),
        Sexpr::pair("succeeded-nodes", Sexpr::Int(succeeded as i64)),
        Sexpr::pair("failed-nodes", Sexpr::Int(failed as i64)),
        Sexpr::pair("has-verification", bool_sexpr(verification.is_some())),
    ];
    proof {
        lemma_views_of(summary@);
        let rv = results_view(results@);
        assert(views_of(summary@) =~= seq![
            pair_v("total-nodes"@, int_of(plan.nodes@.len() as int)),
            pair_v("artifacts-produced"@, int_of(artifacts_v(rv).len() as int)),
            pair_v("succeeded-nodes"@, int_of(count_status(rv, ExecutionStatus::Succeeded) as int)),
            pair_v("failed-nodes"@, int_of(count_status(rv, ExecutionStatus::Failed) as int)),
            pair_v("has-verification"@, bool_v(crate::transition::opt_ref_v(verification) is Some)),
        ]);
        assert(views_of(diags@) == artifact_diags_v(plan.nodes@, artifacts_v(rv)) + capability_diags_v(plan.nodes@) + trace_diags_v(map_v(*ir, *plan, rv)));
    }
    let r = vec![
        Sexpr::pair("schema", Sexpr::Str(owned(BUNDLE_SCHEMA))),
        Sexpr::pair("ir-fingerprint", Sexpr::Str(ir.fingerprint.clone())),
        Sexpr::pair("plan-fingerprint", Sexpr::Str(plan.fingerprint.clone())),
        Sexpr::pair("artifacts", Sexpr::List(arts)),
        Sexpr::pair("traceability", Sexpr::List(entries)),
        Sexpr::pair("dependency-lock", lock),
        Sexpr::pair("verification", ver),
        Sexpr::pair("summary", Sexpr::List(summary)),
        Sexpr::pair("diagnostics", Sexpr::List(diags)),
    ];
    proof {
        lemma_views_of(r@);
        assert(views_of(r@) =~= bundle_items_v(*ir, *plan, results_view(results@), crate::transition::opt_ref_v(verification)));
    }
    r
}

/// Assembles the evidence bundle (see `evidence_v`): artifacts,
/// traceability, dependency lock, verification (or `nil`), summary and
/// diagnostics, then the fingerprint of that form.
pub fn assemble_bundle(ir: &Ir, plan: &Plan, results: &[ExecutionResult], verification: Option<&Sexpr>) -> (r: Sexpr)
    ensures
        r@ == evidence_v(*ir, *plan, results_view(results@), crate::transition::opt_ref_v(verification)),
{
    let mut items = bundle_items(ir, plan, results, verification);
    let base = list2(Sexpr::sym("evidence-bundle"), Sexpr::List(crate::ir::clone_sexprs(&items)));
    assert(base@->List_0 =~= bundle_base_v(*ir, *plan, results_view(results@), crate::transition::opt_ref_v(verification))->List_0);
    let fp = fingerprint(&base);
    let x = Sexpr::pair("fingerprint", Sexpr::Str(fp));
    proof {
        lemma_views_push(items@, x);
    }
    items.push(x);
    let r = list2(Sexpr::sym("evidence-bundle"), Sexpr::List(items));
    assert(r@->List_0 =~= evidence_v(*ir, *plan, results_view(results@), crate::transition::opt_ref_v(verification))->List_0);
    r
}


// ===================================================================
// Laws.
// ===================================================================

/// The decision is `promote` exactly when all six checks hold, and the
/// checks are reported in their fixed order.
pub proof fn lemma_promote_iff_all_checks(policy: SexprV, bundle: SexprV)
    ensures
        promotion_v(policy, bundle)->List_0[1]->List_0[1] == pair_v("decision"@, SexprV::Sym("promote"@))
            <==> forall|k: int| 0 <= k < 6 ==> #[trigger] checks_v(bundle)[k],
        forall|k: int| 0 <= k < 6 ==> #[trigger] promotion_v(policy, bundle)->List_0[1]->List_0[2]->List_0[1]->List_0[k]
            == pair_v(check_names()[k], bool_v(checks_v(bundle)[k])),
{
    reveal_strlit("promote");
    reveal_strlit("hold");
    let cs = checks_v(bundle);
    if !(forall|k: int| 0 <= k < 6 ==> #[trigger] cs[k]) {
        let k = choose|k: int| 0 <= k < 6 && !cs[k];
        assert(!cs[k]);
        assert("promote"@ != "hold"@) by {
            assert("promote"@[0] != "hold"@[0]);
        }
    } else {
        assert(cs[0] && cs[1] && cs[2] && cs[3] && cs[4] && cs[5]);
    }
}

/// A value that is not an evidence bundle fails every promotion check
/// and is held.
pub proof fn lemma_garbage_is_held(policy: SexprV, bundle: SexprV)
    requires
        bundle_body_v(bundle) is None,
    ensures
        checks_v(bundle) == seq![false, false, false, false, false, false],
        promotion_v(policy, bundle)->List_0[1]->List_0[1] == pair_v("decision"@, SexprV::Sym("hold"@)),
{
    assert(checks_v(bundle) =~= seq![false, false, false, false, false, false]);
}

/// `e` is a `(traceability-entry (...))` form.
pub open spec fn is_trace_entry(e: SexprV) -> bool {
    match e {
        SexprV::List(items) => items.len() == 2 && items[0] == SexprV::Sym("traceability-entry"@),
        _ => false,
    }
}

/// The entry's `key` field reads `t`.
pub open spec fn entry_field_is_t(e: SexprV, key: Seq<char>) -> bool {
    match e {
        SexprV::List(items) => items.len() == 2 && assoc_v(items[1], key) == Some(SexprV::Sym("t"@)),
        _ => false,
    }
}

proof fn lemma_all_traced_iff(es: Seq<SexprV>)
    ensures
        all_traced(es) <==> forall|k: int| 0 <= k < es.len() ==> {
            let e = #[trigger] es[k];
            is_trace_entry(e) && entry_field_is_t(e, "has-implementation"@) && entry_field_is_t(e, "has-evidence"@)
        },
    decreases es.len(),
{
    if es.len() > 0 {
        let t = es.drop_first();
        lemma_all_traced_iff(t);
        assert forall|k: int| 0 <= k < t.len() implies t[k] == es[k + 1] by {}
        if forall|k: int| 0 <= k < es.len() ==> {
            let e = #[trigger] es[k];
            is_trace_entry(e) && entry_field_is_t(e, "has-implementation"@) && entry_field_is_t(e, "has-evidence"@)
        } {
            assert(es[0] == es[0]);
            assert forall|k: int| 0 <= k < t.len() implies {
                let e = #[trigger] t[k];
                is_trace_entry(e) && entry_field_is_t(e, "has-implementation"@) && entry_field_is_t(e, "has-evidence"@)
            } by {
                assert(t[k] == es[k + 1]);
            }
        }
        if all_traced(es) {
            assert forall|k: int| 0 <= k < es.len() implies {
                let e = #[trigger] es[k];
                is_trace_entry(e) && entry_field_is_t(e, "has-implementation"@) && entry_field_is_t(e, "has-evidence"@)
            } by {
                if k > 0 {
                    assert(es[k] == t[k - 1]);
                }
            }
        }
    }
}

/// Traceability is complete exactly when every entry of the bundle's
/// traceability list is a `traceability-entry` whose `has-implementation`
/// and `has-evidence` both read `t`; an entry missing either makes the
/// check fail and the decision `hold`.
pub proof fn lemma_traceability_needs_both(policy: SexprV, bundle: SexprV, es: Seq<SexprV>)
    requires
        body_field(bundle_body_v(bundle), "traceability"@) == Some(SexprV::List(es)),
    ensures
        checks_v(bundle)[5] <==> forall|k: int| 0 <= k < es.len() ==> {
            let e = #[trigger] es[k];
            is_trace_entry(e) && entry_field_is_t(e, "has-implementation"@) && entry_field_is_t(e, "has-evidence"@)
        },
        (exists|k: int| 0 <= k < es.len() && !entry_field_is_t(#[trigger] es[k], "has-evidence"@))
            ==> !checks_v(bundle)[5] && promotion_v(policy, bundle)->List_0[1]->List_0[1] == pair_v("decision"@, SexprV::Sym("hold"@)),
        (exists|k: int| 0 <= k < es.len() && !entry_field_is_t(#[trigger] es[k], "has-implementation"@))
            ==> !checks_v(bundle)[5] && promotion_v(policy, bundle)->List_0[1]->List_0[1] == pair_v("decision"@, SexprV::Sym("hold"@)),
{
    lemma_all_traced_iff(es);
    assert(checks_v(bundle)[5] == traced_v(bundle_body_v(bundle)));
}

proof fn lemma_count_fp_none(items: Seq<SexprV>)
    requires
        forall|k: int| 0 <= k < items.len() ==> !is_fingerprint_pair(#[trigger] items[k]),
    ensures
        count_fp(items) == 0,
    decreases items.len(),
{
    if items.len() > 0 {
        lemma_count_fp_none(items.drop_last());
    }
}

/// An assembled bundle passes its own fingerprint check: its only
/// `fingerprint` entry is the last, and it is the fingerprint of the
/// bundle without it.
pub proof fn lemma_assembled_bundle_fingerprint_checks(ir: Ir, plan: Plan, rs: Seq<ResultV>, verification: Option<SexprV>)
    ensures
        fingerprint_ok_v(evidence_v(ir, plan, rs, verification)),
{
    let items = bundle_items_v(ir, plan, rs, verification);
    reveal_strlit("fingerprint");
    reveal_strlit("schema");
    reveal_strlit("ir-fingerprint");
    reveal_strlit("plan-fingerprint");
    reveal_strlit("artifacts");
    reveal_strlit("traceability");
    reveal_strlit("dependency-lock");
    reveal_strlit("verification");
    reveal_strlit("summary");
    reveal_strlit("diagnostics");
    assert("schema"@ != "fingerprint"@) by { assert("schema"@[0] != "fingerprint"@[0]); }
    assert("ir-fingerprint"@ != "fingerprint"@) by { assert("ir-fingerprint"@.len() != "fingerprint"@.len()); }
    assert("plan-fingerprint"@ != "fingerprint"@) by { assert("plan-fingerprint"@.len() != "fingerprint"@.len()); }
    assert("artifacts"@ != "fingerprint"@) by { assert("artifacts"@[0] != "fingerprint"@[0]); }
    assert("traceability"@ != "fingerprint"@) by { assert("traceability"@[0] != "fingerprint"@[0]); }
    assert("dependency-lock"@ != "fingerprint"@) by { assert("dependency-lock"@[0] != "fingerprint"@[0]); }
    assert("verification"@ != "fingerprint"@) by { assert("verification"@[0] != "fingerprint"@[0]); }
    assert("summary"@ != "fingerprint"@) by { assert("summary"@[0] != "fingerprint"@[0]); }
    assert("diagnostics"@ != "fingerprint"@) by { assert("diagnostics"@[0] != "fingerprint"@[0]); }
    assert forall|k: int| 0 <= k < items.len() implies !is_fingerprint_pair(#[trigger] items[k]) by {
        assert(items[k]->List_0[0] != SexprV::Sym("fingerprint"@));
    }
    lemma_count_fp_none(items);
    let fp = pair_v("fingerprint"@, SexprV::Str(fingerprint_text(print_v(bundle_base_v(ir, plan, rs, verification)))));
    let body = items.push(fp);
    assert(body.drop_last() =~= items);
    assert(count_fp(body) == 1);
}

} // verus!
