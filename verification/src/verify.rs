//! Verification obligations and their reference checks: execution
//! environments, obligation lowering (one obligation per acceptance
//! clause, invariant and constraint), reference verification against the
//! transition calculus, trace equivalence, normalized counterexamples,
//! coverage analysis and the fingerprinted verification bundle. Every
//! function is total over arbitrary values.
use vstd::prelude::*;
use crate::diag::{diag_sexpr, diag_v};
use crate::fingerprint::{fingerprint, fingerprint_text};
use crate::ir::{Ir, IrNode, all_nodes_v, first_field, nodes_with_kind};
use crate::sexpr::{Sexpr, SexprV, assoc_v, clone_sexpr, is_pair_with_key, lemma_views_of, lemma_views_push, pair_v, print_v, sexpr_eq, views_of};
use crate::text::{owned, push_str, str_eq, trim, trim_v};
use crate::transition::{
    RunV, State, StepV, Trace, TraceStep, Transition, TransitionV, Verdict, apply_transition, apply_v, check_transition_refs,
    clause_head_is, clause_head_v, clause_tail, clause_tail_v, counterexample, counterexample_v, default_trace_step, eval_predicate3,
    execute_trace, extract_transitions, init_state_v, keyword_value, kw_value, list_items_v, make_initial_state, nil_v, opt_ref_v,
    or_nil, pred3, refs_v, run_v, state_names_v, state_sexpr_v, state_to_sexpr, state_v, trace_step_to_sexpr, trace_step_v,
    trace_to_sexpr, trace_v, transitions_v, unmatched_step, TRACE_BOUND,
};

verus! {

// ===================================================================
// The model.
// ===================================================================

/// Any value but `nil` counts as true.
pub open spec fn truthy_v(v: SexprV) -> bool {
    v != nil_v()
}

/// The first clause of `cs` headed by the symbol `head`.
pub open spec fn first_headed(cs: Seq<SexprV>, head: Seq<char>) -> Option<SexprV>
    decreases cs.len(),
{
    if cs.len() == 0 {
        None
    } else if clause_head_v(cs[0], head) {
        Some(cs[0])
    } else {
        first_headed(cs.drop_first(), head)
    }
}

/// The value after the keyword `key`, or `d`.
pub open spec fn kw_or(items: Seq<SexprV>, key: Seq<char>, d: SexprV) -> SexprV {
    match kw_value(items, key) {
        Some(v) => v,
        None => d,
    }
}

/// `(execution-environment (clock c) (randomness r) (network n)
/// (locale l) (timezone tz))` from the node's first `execution` clause;
/// absent keys default to `system` for clock, randomness and network,
/// `"en-US"` and `"UTC"` for locale and timezone.
pub open spec fn env_v(node: IrNode) -> SexprV {
    let tail = match first_headed(views_of(node.clauses@), "execution"@) {
        Some(c) => clause_tail_v(c),
        None => Seq::empty(),
    };
    SexprV::List(seq![
        SexprV::Sym("execution-environment"@),
        pair_v("clock"@, kw_or(tail, ":clock"@, SexprV::Sym("system"@))),
        pair_v("randomness"@, kw_or(tail, ":randomness"@, SexprV::Sym("system"@))),
        pair_v("network"@, kw_or(tail, ":network"@, SexprV::Sym("system"@))),
        pair_v("locale"@, kw_or(tail, ":locale"@, SexprV::Str("en-US"@))),
        pair_v("timezone"@, kw_or(tail, ":timezone"@, SexprV::Str("UTC"@))),
    ])
}

/// The environment's `key` entry is the symbol `expected`.
pub open spec fn env_field_is(env: SexprV, key: Seq<char>, expected: Seq<char>) -> bool {
    assoc_v(env, key) == Some(SexprV::Sym(expected))
}

pub open spec fn env_deterministic_v(env: SexprV) -> bool {
    env_field_is(env, "clock"@, "virtual"@) && env_field_is(env, "randomness"@, "seeded"@)
        && env_field_is(env, "network"@, "controlled"@)
}

pub open spec fn opt_seq(b: bool, v: SexprV) -> Seq<SexprV> {
    if b {
        seq![v]
    } else {
        Seq::empty()
    }
}

pub open spec fn env_warning(code: Seq<char>, what: Seq<char>, id: Seq<char>) -> SexprV {
    diag_v("warning"@, code, 0, 0, what + id + "; traces may not reproduce"@)
}

/// One warning per non-deterministic source, clock, randomness, network,
/// in that order.
pub open spec fn env_diags_v(env: SexprV, id: Seq<char>) -> Seq<SexprV> {
    opt_seq(!env_field_is(env, "clock"@, "virtual"@),
        env_warning("non-deterministic-clock"@, "clock is not virtual for "@, id))
    + opt_seq(!env_field_is(env, "randomness"@, "seeded"@),
        env_warning("non-deterministic-randomness"@, "randomness is not seeded for "@, id))
    + opt_seq(!env_field_is(env, "network"@, "controlled"@),
        env_warning("non-deterministic-network"@, "network is not controlled for "@, id))
}

// ---- obligations ----

/// `(verification-obligation (id "..") (kind k) (source "..") (name n)
/// <body> (environment e))`.
pub open spec fn ob_v(id: Seq<char>, kind: Seq<char>, source: Seq<char>, name: SexprV, body: Seq<SexprV>, env: SexprV) -> SexprV {
    SexprV::List(
        seq![
            SexprV::Sym("verification-obligation"@),
            pair_v("id"@, SexprV::Str(id)),
            pair_v("kind"@, SexprV::Sym(kind)),
            pair_v("source"@, SexprV::Str(source)),
            pair_v("name"@, name),
        ] + body + seq![pair_v("environment"@, env)],
    )
}

pub open spec fn name_of(tail: Seq<SexprV>) -> SexprV {
    if tail.len() > 0 {
        tail[0]
    } else {
        nil_v()
    }
}

pub open spec fn name_text(tail: Seq<SexprV>) -> Seq<char> {
    match name_of(tail) {
        SexprV::Sym(s) => s,
        _ => Seq::empty(),
    }
}

pub open spec fn rest_of(tail: Seq<SexprV>) -> Seq<SexprV> {
    if tail.len() > 0 {
        tail.drop_first()
    } else {
        Seq::empty()
    }
}

/// `acceptance/kind/name`.
pub open spec fn named_id(acc: Seq<char>, kind: Seq<char>, name: Seq<char>) -> Seq<char> {
    acc + "/"@ + kind + "/"@ + name
}

pub open spec fn kw_pair(key: Seq<char>, items: Seq<SexprV>, kw: Seq<char>) -> SexprV {
    pair_v(key, kw_or(items, kw, nil_v()))
}

/// The list items of `xs`, in order.
pub open spec fn lists_in(xs: Seq<SexprV>) -> Seq<SexprV>
    decreases xs.len(),
{
    if xs.len() == 0 {
        Seq::empty()
    } else if xs.last() is List {
        lists_in(xs.drop_last()).push(xs.last())
    } else {
        lists_in(xs.drop_last())
    }
}

/// The body of a clause obligation of the given kind.
pub open spec fn clause_body_v(kind: Seq<char>, tail: Seq<SexprV>) -> Seq<SexprV> {
    let rest = rest_of(tail);
    if kind == "property"@ {
        seq![kw_pair("generate"@, rest, ":generate"@), kw_pair("execute"@, rest, ":execute"@), kw_pair("assertion"@, rest, ":must"@)]
    } else if kind == "scenario"@ {
        seq![pair_v("steps"@, SexprV::List(lists_in(rest)))]
    } else if kind == "concurrency"@ {
        seq![kw_pair("actors"@, rest, ":actors"@), kw_pair("schedule"@, rest, ":schedule"@), kw_pair("assertion"@, rest, ":must"@)]
    } else if kind == "fault"@ {
        seq![kw_pair("after"@, rest, ":after"@), kw_pair("inject"@, rest, ":inject"@), kw_pair("assertion"@, rest, ":must"@)]
    } else if kind == "coverage"@ {
        seq![
            kw_pair("every_operation"@, tail, ":every_operation"@),
            kw_pair("every_error"@, tail, ":every_error"@),
            kw_pair("every_transition"@, tail, ":every_transition"@),
            kw_pair("every_invariant"@, tail, ":every_invariant"@),
            kw_pair("boundaries"@, tail, ":boundaries"@),
        ]
    } else {
        seq![pair_v("spec"@, SexprV::List(rest))]
    }
}

pub open spec fn is_clause_kind(h: Seq<char>) -> bool {
    h == "property"@ || h == "scenario"@ || h == "concurrency"@ || h == "fault"@ || h == "coverage"@ || h == "model"@
}

/// The obligation of one acceptance clause: `property`, `scenario`,
/// `concurrency`, `fault`, `coverage` and `model` clauses lower; any
/// other clause (`execution` among them) lowers to nothing.
pub open spec fn lower_clause_v(acc: Seq<char>, clause: SexprV, env: SexprV) -> Option<SexprV> {
    match clause {
        SexprV::List(items) => if items.len() > 0 {
            match items[0] {
                SexprV::Sym(h) => if is_clause_kind(h) {
                    let tail = items.drop_first();
                    if h == "coverage"@ {
                        Some(ob_v(acc + "/"@ + h, h, acc, SexprV::Sym("coverage"@), clause_body_v(h, tail), env))
                    } else {
                        Some(ob_v(named_id(acc, h, name_text(tail)), h, acc, name_of(tail), clause_body_v(h, tail), env))
                    }
                } else {
                    None
                },
                _ => None,
            }
        } else {
            None
        },
        _ => None,
    }
}

pub open spec fn opt_ob(o: Option<SexprV>) -> Seq<SexprV> {
    match o {
        Some(v) => seq![v],
        None => Seq::empty(),
    }
}

pub open spec fn clause_obs_v(acc: Seq<char>, cs: Seq<SexprV>, env: SexprV) -> Seq<SexprV>
    decreases cs.len(),
{
    if cs.len() == 0 {
        Seq::empty()
    } else {
        clause_obs_v(acc, cs.drop_last(), env) + opt_ob(lower_clause_v(acc, cs.last(), env))
    }
}

pub open spec fn node_obs_v(n: IrNode) -> Seq<SexprV> {
    clause_obs_v(n.id@, views_of(n.clauses@), env_v(n))
}

pub open spec fn acc_obs_v(ns: Seq<IrNode>) -> Seq<SexprV>
    decreases ns.len(),
{
    if ns.len() == 0 {
        Seq::empty()
    } else {
        acc_obs_v(ns.drop_last()) + node_obs_v(ns.last())
    }
}

pub open spec fn field_pair(key: Seq<char>, n: IrNode, field: Seq<char>) -> SexprV {
    pair_v(key, or_nil(first_field(n.fields@, field)))
}

pub open spec fn inv_ob_v(n: IrNode) -> SexprV {
    ob_v(n.id@ + "/invariant-check"@, "invariant"@, n.id@, SexprV::Sym(n.name@),
        seq![field_pair("scope"@, n, ":scope"@), field_pair("predicate"@, n, ":always"@)], nil_v())
}

pub open spec fn con_ob_v(n: IrNode) -> SexprV {
    ob_v(n.id@ + "/constraint-check"@, "constraint"@, n.id@, SexprV::Sym(n.name@),
        seq![
            field_pair("class"@, n, ":class"@),
            field_pair("scope"@, n, ":scope"@),
            field_pair("under"@, n, ":under"@),
            field_pair("assertion"@, n, ":must"@),
        ], nil_v())
}

/// Every obligation of `ir`: acceptance clauses (nodes in order, clauses
/// in declared order), then invariants, then constraints.
pub open spec fn obligations_v(ir: Ir) -> Seq<SexprV> {
    acc_obs_v(nodes_with_kind(all_nodes_v(ir), "acceptance"@))
        + nodes_with_kind(all_nodes_v(ir), "invariant"@).map_values(|n: IrNode| inv_ob_v(n))
        + nodes_with_kind(all_nodes_v(ir), "constraint"@).map_values(|n: IrNode| con_ob_v(n))
}

// ---- reference verification ----

/// The symbol text of `o`'s `key` entry, or empty.
pub open spec fn sym_field(o: SexprV, key: Seq<char>) -> Seq<char> {
    match assoc_v(o, key) {
        Some(SexprV::Sym(s)) => s,
        _ => Seq::empty(),
    }
}

/// The string text of `o`'s `key` entry, or empty.
pub open spec fn str_field(o: SexprV, key: Seq<char>) -> Seq<char> {
    match assoc_v(o, key) {
        Some(SexprV::Str(s)) => s,
        _ => Seq::empty(),
    }
}

pub open spec fn vresult_v(id: Seq<char>, status: Seq<char>, trace: Option<SexprV>, ces: Seq<SexprV>, diags: Seq<SexprV>, basis: Option<bool>) -> SexprV {
    SexprV::List(
        seq![
            SexprV::Sym("verification-result"@),
            pair_v("schema"@, SexprV::Str("gymnast.verify/0.1"@)),
            pair_v("obligation-id"@, SexprV::Str(id)),
            pair_v("status"@, SexprV::Sym(status)),
        ] + match basis {
            Some(b) => seq![pair_v("basis"@, SexprV::Sym(if b { "symbolic"@ } else { "checked"@ }))],
            None => Seq::empty(),
        } + seq![
            pair_v("trace"@, or_nil(trace)),
            pair_v("counterexamples"@, SexprV::List(ces)),
            pair_v("diagnostics"@, SexprV::List(diags)),
        ],
    )
}

/// The steps of an `execute` value: the items after `sequence`, the
/// items of a list of lists, else the value itself as the one step.
pub open spec fn execute_steps_v(e: SexprV) -> Seq<SexprV> {
    match e {
        SexprV::List(items) => if items.len() > 0 && items[0] == SexprV::Sym("sequence"@) {
            items.drop_first()
        } else if items.len() > 0 && items[0] is List {
            items
        } else {
            seq![e]
        },
        _ => seq![e],
    }
}

/// The first `(step-index N)` entry after the head decides: `N` when it
/// is an integer that fits an index, else nothing.
pub open spec fn step_index_scan(items: Seq<SexprV>, k: int) -> Option<int>
    decreases items.len() - k,
{
    if k < 0 || k >= items.len() {
        None
    } else {
        match items[k] {
            SexprV::List(p) => if p.len() == 2 && p[0] == SexprV::Sym("step-index"@) {
                match p[1] {
                    SexprV::Int(i) => if 0 <= i <= usize::MAX { Some(i) } else { None },
                    _ => None,
                }
            } else {
                step_index_scan(items, k + 1)
            },
            _ => step_index_scan(items, k + 1),
        }
    }
}

pub open spec fn step_index_v(v: SexprV) -> Option<int> {
    match v {
        SexprV::List(items) => step_index_scan(items, 1),
        _ => None,
    }
}

/// The step a violation is paired with: its indexed step, else the first
/// step, else the default step.
pub open spec fn ce_step_v(steps: Seq<StepV>, v: SexprV) -> StepV {
    match step_index_v(v) {
        Some(i) if i < steps.len() => steps[i],
        _ => if steps.len() > 0 {
            steps[0]
        } else {
            unmatched_step(None, None, Seq::empty(), nil_v())
        },
    }
}

pub open spec fn ces_v(steps: Seq<StepV>, vs: Seq<SexprV>) -> Seq<SexprV> {
    vs.map_values(|v: SexprV| counterexample_v(v, ce_step_v(steps, v)))
}

pub open spec fn any_symbolic(steps: Seq<StepV>) -> bool {
    exists|k: int| 0 <= k < steps.len() && (#[trigger] steps[k]).symbolic
}

/// A run over at most `TRACE_BOUND` of the steps.
pub open spec fn bounded_run(ir: Ir, steps: Seq<SexprV>) -> RunV {
    let n = if steps.len() < TRACE_BOUND { steps.len() as int } else { TRACE_BOUND as int };
    run_v(ir, transitions_v(ir), steps.take(n))
}

/// `passed` when the run found no violation, else `failed` with one
/// counterexample per violation; the basis is symbolic when any step's
/// guards rested on a permissive default.
pub open spec fn run_result_v(id: Seq<char>, run: RunV) -> SexprV {
    let tr = trace_v(run.steps, run.violations, run.state);
    if run.violations.len() == 0 {
        vresult_v(id, "passed"@, Some(tr), Seq::empty(), Seq::empty(), Some(any_symbolic(run.steps)))
    } else {
        vresult_v(id, "failed"@, Some(tr), ces_v(run.steps, run.violations), Seq::empty(), Some(any_symbolic(run.steps)))
    }
}

pub open spec fn skipped_v(id: Seq<char>, code: Seq<char>, severity: Seq<char>, msg: Seq<char>) -> SexprV {
    vresult_v(id, "skipped"@, None, Seq::empty(), seq![diag_v(severity, code, 0, 0, msg)], None)
}

pub open spec fn property_v(ir: Ir, ob: SexprV) -> SexprV {
    let id = str_field(ob, "id"@);
    let ex = or_nil(assoc_v(ob, "execute"@));
    if !truthy_v(ex) {
        skipped_v(id, "no-execute-spec"@, "warning"@, "property "@ + id + " has no execute clause"@)
    } else {
        run_result_v(id, bounded_run(ir, execute_steps_v(ex)))
    }
}

/// The actions of the `when` entries whose action is a list.
pub open spec fn when_actions(steps: Seq<SexprV>) -> Seq<SexprV>
    decreases steps.len(),
{
    if steps.len() == 0 {
        Seq::empty()
    } else {
        let s = steps.last();
        let rest = when_actions(steps.drop_last());
        match s {
            SexprV::List(items) => if items.len() > 1 && items[0] == SexprV::Sym("when"@) && items[1] is List {
                rest.push(items[1])
            } else {
                rest
            },
            _ => rest,
        }
    }
}

pub open spec fn scenario_v(ir: Ir, ob: SexprV) -> SexprV {
    let id = str_field(ob, "id"@);
    let acts = when_actions(list_items_v(or_nil(assoc_v(ob, "steps"@))));
    if acts.len() == 0 {
        skipped_v(id, "no-trace-steps"@, "warning"@, "scenario "@ + id + " produced no executable trace steps"@)
    } else {
        run_result_v(id, bounded_run(ir, acts))
    }
}

/// The first transition whose post-state (from `st`) does not make
/// `pred` hold.
pub open spec fn first_undecided(ts: Seq<TransitionV>, st: Seq<(Seq<char>, SexprV)>, pred: SexprV) -> Option<int>
    decreases ts.len(),
{
    if ts.len() == 0 {
        None
    } else if pred3(pred, apply_v(ts[0], st, None, None).post_state, None, None) != Verdict::Holds {
        Some(0)
    } else {
        match first_undecided(ts.drop_first(), st, pred) {
            Some(k) => Some(k + 1),
            None => None,
        }
    }
}

pub open spec fn undecided_diag(id: Seq<char>, pred: SexprV) -> SexprV {
    diag_v("info"@, "I601"@, 0, 0,
        "symbolically-undecided: the verdict for "@ + id + " rests on an unevaluated predicate form ("@ + print_v(pred) + ")"@)
}

pub open spec fn inv_ce_v(id: Seq<char>, dtype: Seq<char>, pred: SexprV, st: Seq<(Seq<char>, SexprV)>, tid: Option<Seq<char>>) -> SexprV {
    SexprV::List(
        seq![
            SexprV::Sym("normalized-counterexample"@),
            pair_v("obligation-id"@, SexprV::Str(id)),
            pair_v("divergence-type"@, SexprV::Sym(dtype)),
            pair_v("predicate"@, pred),
            pair_v("state"@, state_sexpr_v(st)),
        ] + match tid {
            Some(t) => seq![pair_v("transition"@, SexprV::Str(t))],
            None => Seq::empty(),
        },
    )
}

pub open spec fn indeterminate_v(id: Seq<char>, pred: SexprV) -> SexprV {
    vresult_v(id, "indeterminate"@, None, Seq::empty(), seq![undecided_diag(id, pred)], Some(true))
}

/// The invariant check: the predicate against the initial state, then
/// against the post-state of every transition applied once to it; the
/// first point that does not hold decides (`failed` when it fails,
/// `indeterminate` when undecided), else `passed`.
pub open spec fn invariant_v(ir: Ir, ob: SexprV) -> SexprV {
    let id = str_field(ob, "id"@);
    let pred = or_nil(assoc_v(ob, "predicate"@));
    let st = init_state_v(ir);
    match pred3(pred, st, None, None) {
        Verdict::Fails => vresult_v(id, "failed"@, None, seq![inv_ce_v(id, "invariant-violation"@, pred, st, None)], Seq::empty(), Some(false)),
        Verdict::Unknown => indeterminate_v(id, pred),
        Verdict::Holds => {
            let ts = transitions_v(ir);
            match first_undecided(ts, st, pred) {
                Some(k) => {
                    let post = apply_v(ts[k], st, None, None).post_state;
                    if pred3(pred, post, None, None) == Verdict::Fails {
                        vresult_v(id, "failed"@, None,
                            seq![inv_ce_v(id, "invariant-violation-post-transition"@, pred, post, Some(ts[k].id))],
                            Seq::empty(), Some(false))
                    } else {
                        indeterminate_v(id, pred)
                    }
                },
                None => vresult_v(id, "passed"@, None, Seq::empty(), Seq::empty(), Some(false)),
            }
        },
    }
}

pub open spec fn deferred_v(ob: SexprV) -> SexprV {
    let kind = sym_field(ob, "kind"@);
    let id = str_field(ob, "id"@);
    skipped_v(id, "deferred-verification"@, "info"@,
        "verification of "@ + (if kind.len() == 0 { "unknown-kind"@ } else { kind }) + " obligation "@ + id
            + " requires runtime execution"@)
}

/// The verification result of one obligation, by kind.
#[verifier::opaque]
pub open spec fn verify_v(ir: Ir, ob: SexprV) -> SexprV {
    let kind = sym_field(ob, "kind"@);
    if kind == "property"@ {
        property_v(ir, ob)
    } else if kind == "scenario"@ {
        scenario_v(ir, ob)
    } else if kind == "invariant"@ {
        invariant_v(ir, ob)
    } else {
        deferred_v(ob)
    }
}

// ---- trace equivalence ----

pub open spec fn len_div_v(kind: Seq<char>, n: int) -> SexprV {
    SexprV::List(seq![
        SexprV::Sym("divergence"@),
        pair_v("type"@, SexprV::Sym(kind)),
        pair_v("count"@, SexprV::Int((n as i64) as int)),
    ])
}

/// The divergence between two steps: outcome first, then post-state.
pub open spec fn step_div_v(r: StepV, im: StepV) -> Option<SexprV> {
    if r.outcome != im.outcome {
        Some(SexprV::List(seq![
            SexprV::Sym("divergence"@),
            pair_v("type"@, SexprV::Sym("outcome-mismatch"@)),
            pair_v("reference"@, r.outcome),
            pair_v("implementation"@, im.outcome),
            pair_v("step"@, trace_step_v(r)),
        ]))
    } else if r.post_state != im.post_state {
        Some(SexprV::List(seq![
            SexprV::Sym("divergence"@),
            pair_v("type"@, SexprV::Sym("state-mismatch"@)),
            pair_v("reference-state"@, state_sexpr_v(r.post_state)),
            pair_v("implementation-state"@, state_sexpr_v(im.post_state)),
            pair_v("step"@, trace_step_v(r)),
        ]))
    } else {
        None
    }
}

/// Lockstep comparison: one divergence per differing pair, then one
/// final length divergence when one side runs out first.
pub open spec fn divs_v(rs: Seq<StepV>, is: Seq<StepV>) -> Seq<SexprV>
    decreases rs.len(),
{
    if rs.len() == 0 {
        if is.len() == 0 {
            Seq::empty()
        } else {
            seq![len_div_v("extra-implementation-steps"@, is.len() as int)]
        }
    } else if is.len() == 0 {
        seq![len_div_v("missing-implementation-steps"@, rs.len() as int)]
    } else {
        opt_ob(step_div_v(rs[0], is[0])) + divs_v(rs.drop_first(), is.drop_first())
    }
}

pub open spec fn steps_of(t: Trace) -> Seq<StepV> {
    t.steps@.map_values(|s: TraceStep| s@)
}

pub open spec fn equivalence_v(rt: Trace, it: Trace, id: Seq<char>) -> SexprV {
    let divs = divs_v(steps_of(rt), steps_of(it));
    SexprV::List(seq![
        SexprV::Sym("trace-equivalence-result"@),
        pair_v("obligation-id"@, SexprV::Str(id)),
        pair_v("equivalent"@, if divs.len() == 0 { SexprV::Sym("t"@) } else { nil_v() }),
        pair_v("divergences"@, SexprV::List(divs)),
        pair_v("reference-violations"@, SexprV::List(views_of(rt.violations@))),
        pair_v("implementation-violations"@, SexprV::List(views_of(it.violations@))),
    ])
}

// ---- normalized counterexamples ----

/// A field of a `(trace-step ((k v) ...))` value.
pub open spec fn step_field_v(step: Option<SexprV>, key: Seq<char>) -> SexprV {
    match step {
        Some(SexprV::List(items)) => if items.len() > 1 { or_nil(assoc_v(items[1], key)) } else { nil_v() },
        _ => nil_v(),
    }
}

pub open spec fn normalized_v(div: SexprV, id: Seq<char>) -> SexprV {
    let step = assoc_v(div, "step"@);
    SexprV::List(seq![
        SexprV::Sym("normalized-counterexample"@),
        pair_v("obligation-id"@, SexprV::Str(id)),
        pair_v("divergence-type"@, or_nil(assoc_v(div, "type"@))),
        pair_v("operation"@, step_field_v(step, "transition-id"@)),
        pair_v("actor"@, step_field_v(step, "actor"@)),
        pair_v("input"@, step_field_v(step, "input"@)),
        pair_v("pre-state"@, step_field_v(step, "pre-state"@)),
        pair_v("expected"@, or_nil(assoc_v(div, "reference"@))),
        pair_v("actual"@, or_nil(assoc_v(div, "implementation"@))),
    ])
}

// ---- coverage ----

/// The first element whose `key` symbol is `val`.
pub open spec fn first_with(xs: Seq<SexprV>, key: Seq<char>, val: Seq<char>) -> Option<SexprV>
    decreases xs.len(),
{
    if xs.len() == 0 {
        None
    } else if sym_field(xs[0], key) == val {
        Some(xs[0])
    } else {
        first_with(xs.drop_first(), key, val)
    }
}

/// How many elements have `key` symbol `val`.
pub open spec fn count_with(xs: Seq<SexprV>, key: Seq<char>, val: Seq<char>) -> nat
    decreases xs.len(),
{
    if xs.len() == 0 {
        0
    } else {
        count_with(xs.drop_last(), key, val) + if sym_field(xs.last(), key) == val { 1nat } else { 0nat }
    }
}

pub open spec fn flag_v(ob: SexprV, key: Seq<char>) -> bool {
    match assoc_v(ob, key) {
        Some(v) => truthy_v(v),
        None => false,
    }
}

pub open spec fn int_v(n: int) -> SexprV {
    SexprV::Int((n as i64) as int)
}

pub open spec fn gap_v(kind: Seq<char>, n: int) -> SexprV {
    SexprV::List(seq![SexprV::Sym("gap"@), SexprV::Sym(kind), int_v(n)])
}

/// `nil` without a `coverage` obligation; otherwise the obligation counts
/// and the gaps each requested coverage flag leaves open.
pub open spec fn coverage_v(ir: Ir, obs: Seq<SexprV>) -> SexprV {
    match first_with(obs, "kind"@, "coverage"@) {
        None => nil_v(),
        Some(c) => {
            let p = count_with(obs, "kind"@, "property"@) as int;
            let s = count_with(obs, "kind"@, "scenario"@) as int;
            let f = count_with(obs, "kind"@, "fault"@) as int;
            let iv = count_with(obs, "kind"@, "invariant"@) as int;
            let covered = p + s + f;
            let tc = transitions_v(ir).len() as int;
            let ic = nodes_with_kind(all_nodes_v(ir), "invariant"@).len() as int;
            let bc = nodes_with_kind(all_nodes_v(ir), "behavior"@).len() as int;
            let gaps = opt_seq(flag_v(c, "every_transition"@) && tc > covered, gap_v("uncovered-transitions"@, tc - covered))
                + opt_seq(flag_v(c, "every_operation"@) && bc > p + s, gap_v("uncovered-operations"@, bc - (p + s)))
                + opt_seq(flag_v(c, "every_error"@) && bc > f, gap_v("uncovered-error-paths"@, bc - f))
                + opt_seq(flag_v(c, "every_invariant"@) && ic > iv, gap_v("uncovered-invariants"@, ic - iv));
            SexprV::List(seq![
                SexprV::Sym("coverage-analysis"@),
                pair_v("property-obligations"@, int_v(p)),
                pair_v("scenario-obligations"@, int_v(s)),
                pair_v("fault-obligations"@, int_v(f)),
                pair_v("total-obligations"@, int_v(covered)),
                pair_v("transitions-defined"@, int_v(tc)),
                pair_v("invariants-defined"@, int_v(ic)),
                pair_v("gaps"@, SexprV::List(gaps)),
            ])
        },
    }
}

// ---- the bundle ----

/// One `E601` error per repeated obligation id, at its later occurrences.
pub open spec fn dup_diags_v(ids: Seq<Seq<char>>) -> Seq<SexprV>
    decreases ids.len(),
{
    if ids.len() == 0 {
        Seq::empty()
    } else {
        dup_diags_v(ids.drop_last()) + opt_seq(ids.drop_last().contains(ids.last()),
            diag_v("error"@, "E601"@, 0, 0, "duplicate-obligation-id: "@ + ids.last()))
    }
}

pub open spec fn ids_v(obs: Seq<SexprV>) -> Seq<Seq<char>> {
    obs.map_values(|o: SexprV| str_field(o, "id"@))
}

pub open spec fn results_v(ir: Ir, obs: Seq<SexprV>) -> Seq<SexprV> {
    obs.map_values(|o: SexprV| verify_v(ir, o))
}

pub open spec fn first_env_diags(ir: Ir) -> Seq<SexprV> {
    let accs = nodes_with_kind(all_nodes_v(ir), "acceptance"@);
    if accs.len() > 0 {
        env_diags_v(env_v(accs[0]), accs[0].id@)
    } else {
        Seq::empty()
    }
}

pub open spec fn bundle_items_v(ir: Ir) -> Seq<SexprV> {
    let obs = obligations_v(ir);
    let rs = results_v(ir, obs);
    seq![
        pair_v("schema"@, SexprV::Str("gymnast.verify/0.1"@)),
        pair_v("obligations"@, SexprV::List(obs)),
        pair_v("results"@, SexprV::List(rs)),
        pair_v("summary"@, SexprV::List(seq![
            pair_v("total"@, int_v(obs.len() as int)),
            pair_v("passed"@, int_v(count_with(rs, "status"@, "passed"@) as int)),
            pair_v("failed"@, int_v(count_with(rs, "status"@, "failed"@) as int)),
            pair_v("skipped"@, int_v(count_with(rs, "status"@, "skipped"@) as int)),
            pair_v("indeterminate"@, int_v(count_with(rs, "status"@, "indeterminate"@) as int)),
        ])),
        pair_v("coverage"@, coverage_v(ir, obs)),
        pair_v("environment-diagnostics"@, SexprV::List(first_env_diags(ir))),
        pair_v("transition-diagnostics"@, SexprV::List(refs_v(transitions_v(ir), state_names_v(ir)))),
        pair_v("diagnostics"@, SexprV::List(dup_diags_v(ids_v(obs)))),
        pair_v("source-diagnostics"@, SexprV::List(views_of(ir.diagnostics@))),
    ]
}

/// The bundle without its fingerprint: the form the fingerprint covers.
pub open spec fn bundle_base_v(ir: Ir) -> SexprV {
    SexprV::List(seq![SexprV::Sym("verification-bundle"@), SexprV::List(bundle_items_v(ir))])
}

/// The bundle with `(fingerprint "...")` of its fingerprint-free print.
pub open spec fn bundle_v(ir: Ir) -> SexprV {
    SexprV::List(seq![
        SexprV::Sym("verification-bundle"@),
        SexprV::List(bundle_items_v(ir).push(pair_v("fingerprint"@, SexprV::Str(fingerprint_text(print_v(bundle_base_v(ir))))))),
    ])
}

pub open spec fn int_entry(s: SexprV, key: Seq<char>) -> Option<int> {
    match assoc_v(s, key) {
        Some(SexprV::Int(i)) => Some(i),
        _ => None,
    }
}

/// The five counts of a bundle's `summary`, when all are there.
pub open spec fn summary_v(b: SexprV) -> Option<(int, int, int, int, int)> {
    match b {
        SexprV::List(items) => if items.len() > 1 {
            match assoc_v(items[1], "summary"@) {
                Some(s) => match (int_entry(s, "total"@), int_entry(s, "passed"@), int_entry(s, "failed"@),
                    int_entry(s, "skipped"@), int_entry(s, "indeterminate"@)) {
                    (Some(t), Some(p), Some(f), Some(k), Some(i)) => Some((t, p, f, k, i)),
                    _ => None,
                },
                None => None,
            }
        } else {
            None
        },
        _ => None,
    }
}

/// `"code message"`, trimmed, of each error-severity diagnostic in order.
pub open spec fn error_msgs(ds: Seq<SexprV>) -> Seq<Seq<char>>
    decreases ds.len(),
{
    if ds.len() == 0 {
        Seq::empty()
    } else {
        let d = ds.last();
        let rest = error_msgs(ds.drop_last());
        if assoc_v(d, "severity"@) == Some(SexprV::Sym("error"@)) {
            let msg = match assoc_v(d, "message"@) {
                Some(SexprV::Str(m)) => m,
                _ => "(no message)"@,
            };
            rest.push(trim_v(str_field(d, "code"@) + " "@ + msg))
        } else {
            rest
        }
    }
}

pub open spec fn errors_in_v(l: Option<SexprV>) -> Seq<Seq<char>> {
    match l {
        Some(SexprV::List(ds)) => error_msgs(ds),
        _ => Seq::empty(),
    }
}

pub open spec fn result_errors(rs: Seq<SexprV>) -> Seq<Seq<char>>
    decreases rs.len(),
{
    if rs.len() == 0 {
        Seq::empty()
    } else {
        result_errors(rs.drop_last()) + errors_in_v(assoc_v(rs.last(), "diagnostics"@))
    }
}

pub open spec fn bundle_inner(b: SexprV) -> SexprV {
    match b {
        SexprV::List(items) => if items.len() == 2 && items[0] == SexprV::Sym("verification-bundle"@) { items[1] } else { b },
        _ => b,
    }
}

/// Every error message in a bundle: bundle-level, transition,
/// environment and source diagnostics, then each result's own.
pub open spec fn bundle_errors_v(b: SexprV) -> Seq<Seq<char>> {
    let inner = bundle_inner(b);
    errors_in_v(assoc_v(inner, "diagnostics"@)) + errors_in_v(assoc_v(inner, "transition-diagnostics"@))
        + errors_in_v(assoc_v(inner, "environment-diagnostics"@)) + errors_in_v(assoc_v(inner, "source-diagnostics"@))
        + match assoc_v(inner, "results"@) {
            Some(SexprV::List(rs)) => result_errors(rs),
            _ => Seq::empty(),
        }
}


// ===================================================================
// Executable code.
// ===================================================================

pub proof fn lemma_views_concat(a: Seq<Sexpr>, b: Seq<Sexpr>)
    ensures
        views_of(a + b) == views_of(a) + views_of(b),
{
    lemma_views_of(a);
    lemma_views_of(b);
    lemma_views_of(a + b);
    assert(views_of(a + b) =~= views_of(a) + views_of(b));
}

fn nil() -> (r: Sexpr)
    ensures
        r@ == nil_v(),
{
    let r = Sexpr::List(Vec::new());
    assert(views_of(Seq::<Sexpr>::empty()) =~= Seq::<SexprV>::empty());
    r
}

fn none() -> (r: Vec<Sexpr>)
    ensures
        views_of(r@) == Seq::<SexprV>::empty(),
        r@.len() == 0,
{
    let r: Vec<Sexpr> = Vec::new();
    assert(views_of(r@) =~= Seq::<SexprV>::empty());
    r
}

fn one(x: Sexpr) -> (r: Vec<Sexpr>)
    ensures
        views_of(r@) == seq![x@],
{
    let r = vec![x];
    proof {
        lemma_views_of(r@);
        assert(views_of(r@) =~= seq![x@]);
    }
    r
}

/// A copy of `x`'s `key` entry, or `nil`.
fn assoc_or_nil(x: &Sexpr, key: &str) -> (r: Sexpr)
    ensures
        r@ == or_nil(assoc_v(x@, key@)),
{
    match x.assoc(key) {
        Some(v) => clone_sexpr(v),
        None => nil(),
    }
}

/// A copy of the value after keyword `key`, or `d`.
fn kw_or_exec(items: &[Sexpr], key: &str, d: Sexpr) -> (r: Sexpr)
    ensures
        r@ == kw_or(views_of(items@), key@, d@),
{
    match keyword_value(items, key) {
        Some(v) => clone_sexpr(v),
        None => d,
    }
}

fn field_or_nil(node: &IrNode, key: &str) -> (r: Sexpr)
    ensures
        r@ == or_nil(first_field(node.fields@, key@)),
{
    match node.field(key) {
        Some(v) => clone_sexpr(v),
        None => nil(),
    }
}

/// The symbol text of `o`'s `key` entry, or `""`.
fn sym_field_exec<'a>(o: &'a Sexpr, key: &str) -> (r: &'a str)
    ensures
        r@ == sym_field(o@, key@),
{
    proof {
        reveal_strlit("");
    }
    match o.assoc(key) {
        Some(v) => match v.as_sym() {
            Some(s) => s,
            None => "",
        },
        None => "",
    }
}

/// The string text of `o`'s `key` entry, or `""`.
fn str_field_exec<'a>(o: &'a Sexpr, key: &str) -> (r: &'a str)
    ensures
        r@ == str_field(o@, key@),
{
    proof {
        reveal_strlit("");
    }
    match o.assoc(key) {
        Some(v) => match v.as_str() {
            Some(s) => s,
            None => "",
        },
        None => "",
    }
}

fn truthy(v: &Sexpr) -> (r: bool)
    ensures
        r == truthy_v(v@),
{
    match v {
        Sexpr::List(items) => {
            proof {
                lemma_views_of(items@);
                if items.len() == 0 {
                    assert(views_of(items@) =~= Seq::<SexprV>::empty());
                }
            }
            items.len() > 0
        },
        _ => true,
    }
}

fn find_headed<'a>(cs: &'a [Sexpr], head: &str) -> (r: Option<&'a Sexpr>)
    ensures
        match first_headed(views_of(cs@), head@) {
            Some(c) => r is Some && r->0@ == c,
            None => r is None,
        },
{
    let ghost cv = views_of(cs@);
    proof {
        lemma_views_of(cs@);
    }
    let mut i: usize = 0;
    assert(cv.skip(0) =~= cv);
    while i < cs.len()
        invariant
            i <= cs.len(),
            cv == views_of(cs@),
            cv.len() == cs.len(),
            forall|j: int| 0 <= j < cs.len() ==> #[trigger] cv[j] == cs@[j]@,
            first_headed(cv, head@) == first_headed(cv.skip(i as int), head@),
        decreases cs.len() - i,
    {
        assert(cv.skip(i as int).drop_first() =~= cv.skip(i + 1));
        assert(cv.skip(i as int)[0] == cv[i as int]);
        if clause_head_is(&cs[i], head) {
            return Some(&cs[i]);
        }
        i = i + 1;
    }
    None
}

/// The execution environment of an acceptance node (see `env_v`).
pub fn extract_execution_env(acceptance: &IrNode) -> (r: Sexpr)
    ensures
        r@ == env_v(*acceptance),
{
    let empty: Vec<Sexpr> = Vec::new();
    let tail: &[Sexpr] = match find_headed(acceptance.clauses.as_slice(), "execution") {
        Some(c) => clause_tail(c),
        None => empty.as_slice(),
    };
    let ghost tv = match first_headed(views_of(acceptance.clauses@), "execution"@) {
        Some(c) => clause_tail_v(c),
        None => Seq::empty(),
    };
    assert(views_of(tail@) == tv) by {
        assert(views_of(Seq::<Sexpr>::empty()) =~= Seq::<SexprV>::empty());
    }
    let items = vec![
        Sexpr::sym("execution-environment"),
        Sexpr::pair("clock", kw_or_exec(tail, ":clock", Sexpr::sym("system"))),
        Sexpr::pair("randomness", kw_or_exec(tail, ":randomness", Sexpr::sym("system"))),
        Sexpr::pair("network", kw_or_exec(tail, ":network", Sexpr::sym("system"))),
        Sexpr::pair("locale", kw_or_exec(tail, ":locale", Sexpr::Str(owned("en-US")))),
        Sexpr::pair("timezone", kw_or_exec(tail, ":timezone", Sexpr::Str(owned("UTC")))),
    ];
    proof {
        lemma_views_of(items@);
        assert(views_of(items@) =~= env_v(*acceptance)->List_0);
    }
    Sexpr::List(items)
}

fn env_field_is_exec(env: &Sexpr, key: &str, expected: &str) -> (r: bool)
    ensures
        r == env_field_is(env@, key@, expected@),
{
    match env.assoc(key) {
        Some(v) => match v.as_sym() {
            Some(s) => str_eq(s, expected),
            None => false,
        },
        None => false,
    }
}

/// Whether the environment is fully deterministic: clock `virtual`,
/// randomness `seeded`, network `controlled`.
pub fn env_deterministic(env: &Sexpr) -> (r: bool)
    ensures
        r == env_deterministic_v(env@),
{
    env_field_is_exec(env, "clock", "virtual") && env_field_is_exec(env, "randomness", "seeded")
        && env_field_is_exec(env, "network", "controlled")
}

fn env_warning_exec(code: &str, what: &str, id: &str) -> (r: Sexpr)
    ensures
        r@ == env_warning(code@, what@, id@),
{
    let mut m = owned(what);
    push_str(&mut m, id);
    push_str(&mut m, "; traces may not reproduce");
    diag_sexpr("warning", code, (0, 0), m)
}

fn push_when(out: &mut Vec<Sexpr>, b: bool, x: Sexpr)
    ensures
        views_of(final(out)@) == views_of(old(out)@) + opt_seq(b, x@),
{
    if b {
        proof {
            lemma_views_push(out@, x);
        }
        out.push(x);
    }
    assert(views_of(out@) =~= views_of(old(out)@) + opt_seq(b, x@));
}

/// One warning per non-deterministic source (see `env_diags_v`).
pub fn env_diagnostics(env: &Sexpr, acceptance_id: &str) -> (r: Vec<Sexpr>)
    ensures
        views_of(r@) == env_diags_v(env@, acceptance_id@),
{
    let mut diags: Vec<Sexpr> = Vec::new();
    let b1 = !env_field_is_exec(env, "clock", "virtual");
    push_when(&mut diags, b1, env_warning_exec("non-deterministic-clock", "clock is not virtual for ", acceptance_id));
    let b2 = !env_field_is_exec(env, "randomness", "seeded");
    push_when(&mut diags, b2, env_warning_exec("non-deterministic-randomness", "randomness is not seeded for ", acceptance_id));
    let b3 = !env_field_is_exec(env, "network", "controlled");
    push_when(&mut diags, b3, env_warning_exec("non-deterministic-network", "network is not controlled for ", acceptance_id));
    assert(views_of(Seq::<Sexpr>::empty()) =~= Seq::<SexprV>::empty());
    assert(views_of(diags@) =~= env_diags_v(env@, acceptance_id@));
    diags
}

// ---- obligation lowering ----

fn make_obligation(id: String, kind: &str, source: &str, name: Sexpr, body: Vec<Sexpr>, env: Sexpr) -> (r: Sexpr)
    ensures
        r@ == ob_v(id@, kind@, source@, name@, views_of(body@), env@),
{
    let ghost idv = id@;
    let ghost nv = name@;
    let ghost bv = body@;
    let mut items = vec![
        Sexpr::sym("verification-obligation"),
        Sexpr::pair("id", Sexpr::Str(id)),
        Sexpr::pair("kind", Sexpr::sym(kind)),
        Sexpr::pair("source", Sexpr::Str(owned(source))),
        Sexpr::pair("name", name),
    ];
    let ghost hv = items@;
    proof {
        lemma_views_of(hv);
        assert(views_of(hv) =~= seq![
            SexprV::Sym("verification-obligation"@),
            pair_v("id"@, SexprV::Str(idv)),
            pair_v("kind"@, SexprV::Sym(kind@)),
            pair_v("source"@, SexprV::Str(source@)),
            pair_v("name"@, nv),
        ]);
    }
    let mut body = body;
    items.append(&mut body);
    let ghost ev = env@;
    let e = Sexpr::pair("environment", env);
    let ghost mid = items@;
    proof {
        lemma_views_concat(hv, bv);
        lemma_views_push(items@, e);
    }
    items.push(e);
    proof {
        assert(items@ == mid.push(e));
        assert(views_of(items@) == views_of(hv) + views_of(bv) + seq![pair_v("environment"@, ev)]);
    }
    Sexpr::List(items)
}

fn kw_pair_exec(key: &str, items: &[Sexpr], kw: &str) -> (r: Sexpr)
    ensures
        r@ == kw_pair(key@, views_of(items@), kw@),
{
    Sexpr::pair(key, kw_or_exec(items, kw, nil()))
}

fn lists_of(xs: &[Sexpr]) -> (r: Vec<Sexpr>)
    ensures
        views_of(r@) == lists_in(views_of(xs@)),
{
    let ghost xv = views_of(xs@);
    proof {
        lemma_views_of(xs@);
    }
    let mut out: Vec<Sexpr> = Vec::new();
    let mut i: usize = 0;
    while i < xs.len()
        invariant
            i <= xs.len(),
            xv == views_of(xs@),
            xv.len() == xs.len(),
            forall|j: int| 0 <= j < xs.len() ==> #[trigger] xv[j] == xs@[j]@,
            views_of(out@) == lists_in(xv.take(i as int)),
        decreases xs.len() - i,
    {
        assert(xv.take(i + 1).drop_last() =~= xv.take(i as int));
        assert(xv.take(i + 1).last() == xs@[i as int]@);
        match &xs[i] {
            Sexpr::List(_) => {
                let c = clone_sexpr(&xs[i]);
                proof {
                    lemma_views_push(out@, c);
                }
                out.push(c);
            },
            _ => {},
        }
        i = i + 1;
    }
    assert(xv.take(xs.len() as int) =~= xv);
    out
}

fn rest_slice(tail: &[Sexpr]) -> (r: &[Sexpr])
    ensures
        views_of(r@) == rest_of(views_of(tail@)),
{
    proof {
        lemma_views_of(tail@);
    }
    if tail.len() > 0 {
        let t = tail.split_at(1).1;
        proof {
            lemma_views_of(t@);
            assert(views_of(t@) =~= views_of(tail@).drop_first());
        }
        t
    } else {
        let e: &[Sexpr] = &[];
        assert(views_of(e@) =~= Seq::<SexprV>::empty());
        e
    }
}

fn clause_body_exec(kind: &str, tail: &[Sexpr]) -> (r: Vec<Sexpr>)
    ensures
        views_of(r@) == clause_body_v(kind@, views_of(tail@)),
{
    let rest = rest_slice(tail);
    let r = if str_eq(kind, "property") {
        vec![kw_pair_exec("generate", rest, ":generate"), kw_pair_exec("execute", rest, ":execute"), kw_pair_exec("assertion", rest, ":must")]
    } else if str_eq(kind, "scenario") {
        vec![Sexpr::pair("steps", Sexpr::List(lists_of(rest)))]
    } else if str_eq(kind, "concurrency") {
        vec![kw_pair_exec("actors", rest, ":actors"), kw_pair_exec("schedule", rest, ":schedule"), kw_pair_exec("assertion", rest, ":must")]
    } else if str_eq(kind, "fault") {
        vec![kw_pair_exec("after", rest, ":after"), kw_pair_exec("inject", rest, ":inject"), kw_pair_exec("assertion", rest, ":must")]
    } else if str_eq(kind, "coverage") {
        vec![
            kw_pair_exec("every_operation", tail, ":every_operation"),
            kw_pair_exec("every_error", tail, ":every_error"),
            kw_pair_exec("every_transition", tail, ":every_transition"),
            kw_pair_exec("every_invariant", tail, ":every_invariant"),
            kw_pair_exec("boundaries", tail, ":boundaries"),
        ]
    } else {
        let mut spec_items: Vec<Sexpr> = Vec::new();
        let mut i: usize = 0;
        while i < rest.len()
            invariant
                i <= rest.len(),
                views_of(spec_items@) == views_of(rest@.take(i as int)),
            decreases rest.len() - i,
        {
            let c = clone_sexpr(&rest[i]);
            proof {
                lemma_views_push(spec_items@, c);
                lemma_views_push(rest@.take(i as int), rest@[i as int]);
                assert(rest@.take(i + 1) =~= rest@.take(i as int).push(rest@[i as int]));
            }
            spec_items.push(c);
            i = i + 1;
        }
        assert(rest@.take(rest.len() as int) =~= rest@);
        vec![Sexpr::pair("spec", Sexpr::List(spec_items))]
    };
    proof {
        lemma_views_of(r@);
        assert(views_of(r@) =~= clause_body_v(kind@, views_of(tail@)));
    }
    r
}

fn is_clause_kind_exec(h: &str) -> (r: bool)
    ensures
        r == is_clause_kind(h@),
{
    str_eq(h, "property") || str_eq(h, "scenario") || str_eq(h, "concurrency") || str_eq(h, "fault") || str_eq(h, "coverage")
        || str_eq(h, "model")
}

/// The obligation of one acceptance clause (see `lower_clause_v`).
fn lower_clause(acc: &str, clause: &Sexpr, env: &Sexpr) -> (r: Option<Sexpr>)
    ensures
        match lower_clause_v(acc@, clause@, env@) {
            Some(o) => r is Some && r->0@ == o,
            None => r is None,
        },
{
    match clause {
        Sexpr::List(items) => {
            proof {
                lemma_views_of(items@);
            }
            if items.len() == 0 {
                return None;
            }
            match &items[0] {
                Sexpr::Sym(h) => {
                    let hs = h.as_str();
                    if !is_clause_kind_exec(hs) {
                        return None;
                    }
                    let tail = clause_tail(clause);
                    let body = clause_body_exec(hs, tail);
                    if str_eq(hs, "coverage") {
                        let mut id = owned(acc);
                        push_str(&mut id, "/");
                        push_str(&mut id, hs);
                        Some(make_obligation(id, hs, acc, Sexpr::sym("coverage"), body, clone_sexpr(env)))
                    } else {
                        proof {
                            reveal_strlit("");
                            lemma_views_of(tail@);
                        }
                        let name = if tail.len() > 0 { clone_sexpr(&tail[0]) } else { nil() };
                        let ntext: &str = if tail.len() > 0 {
                            match tail[0].as_sym() {
                                Some(t) => t,
                                None => "",
                            }
                        } else {
                            ""
                        };
                        let mut id = owned(acc);
                        push_str(&mut id, "/");
                        push_str(&mut id, hs);
                        push_str(&mut id, "/");
                        push_str(&mut id, ntext);
                        Some(make_obligation(id, hs, acc, name, body, clone_sexpr(env)))
                    }
                },
                _ => None,
            }
        },
        _ => None,
    }
}

fn lower_invariant_obligation(node: &IrNode) -> (r: Sexpr)
    ensures
        r@ == inv_ob_v(*node),
{
    let mut id = owned(node.id.as_str());
    push_str(&mut id, "/invariant-check");
    let body = vec![Sexpr::pair("scope", field_or_nil(node, ":scope")), Sexpr::pair("predicate", field_or_nil(node, ":always"))];
    proof {
        lemma_views_of(body@);
        assert(views_of(body@) =~= seq![field_pair("scope"@, *node, ":scope"@), field_pair("predicate"@, *node, ":always"@)]);
    }
    make_obligation(id, "invariant", node.id.as_str(), Sexpr::sym(node.name.as_str()), body, nil())
}

fn lower_constraint_obligation(node: &IrNode) -> (r: Sexpr)
    ensures
        r@ == con_ob_v(*node),
{
    let mut id = owned(node.id.as_str());
    push_str(&mut id, "/constraint-check");
    let body = vec![
        Sexpr::pair("class", field_or_nil(node, ":class")),
        Sexpr::pair("scope", field_or_nil(node, ":scope")),
        Sexpr::pair("under", field_or_nil(node, ":under")),
        Sexpr::pair("assertion", field_or_nil(node, ":must")),
    ];
    proof {
        lemma_views_of(body@);
        assert(views_of(body@) =~= seq![
            field_pair("class"@, *node, ":class"@),
            field_pair("scope"@, *node, ":scope"@),
            field_pair("under"@, *node, ":under"@),
            field_pair("assertion"@, *node, ":must"@),
        ]);
    }
    make_obligation(id, "constraint", node.id.as_str(), Sexpr::sym(node.name.as_str()), body, nil())
}

/// Every verification obligation of `ir` (see `obligations_v`).
pub fn lower_all_obligations(ir: &Ir) -> (r: Vec<Sexpr>)
    ensures
        views_of(r@) == obligations_v(*ir),
{
    let mut out: Vec<Sexpr> = Vec::new();
    let accs = ir.nodes_of_kind("acceptance");
    let ghost av = accs@.map_values(|n: &IrNode| *n);
    let mut i: usize = 0;
    while i < accs.len()
        invariant
            i <= accs.len(),
            av == accs@.map_values(|n: &IrNode| *n),
            av == nodes_with_kind(all_nodes_v(*ir), "acceptance"@),
            views_of(out@) == acc_obs_v(av.take(i as int)),
        decreases accs.len() - i,
    {
        let acc = accs[i];
        let env = extract_execution_env(acc);
        let ghost before = views_of(out@);
        let ghost cv = views_of(acc.clauses@);
        proof {
            lemma_views_of(acc.clauses@);
        }
        let mut j: usize = 0;
        while j < acc.clauses.len()
            invariant
                j <= acc.clauses.len(),
                cv == views_of(acc.clauses@),
                cv.len() == acc.clauses.len(),
                forall|k: int| 0 <= k < acc.clauses.len() ==> #[trigger] cv[k] == acc.clauses@[k]@,
                views_of(out@) == before + clause_obs_v(acc.id@, cv.take(j as int), env@),
            decreases acc.clauses.len() - j,
        {
            assert(cv.take(j + 1).drop_last() =~= cv.take(j as int));
            assert(cv.take(j + 1).last() == acc.clauses@[j as int]@);
            let ghost prev = views_of(out@);
            match lower_clause(acc.id.as_str(), &acc.clauses[j], &env) {
                Some(ob) => {
                    proof {
                        lemma_views_push(out@, ob);
                    }
                    out.push(ob);
                },
                None => {},
            }
            assert(views_of(out@) =~= prev + opt_ob(lower_clause_v(acc.id@, cv[j as int], env@)));
            j = j + 1;
        }
        proof {
            assert(cv.take(acc.clauses.len() as int) =~= cv);
            assert(av.take(i + 1).drop_last() =~= av.take(i as int));
            assert(av.take(i + 1).last() == *acc);
            assert(views_of(out@) =~= acc_obs_v(av.take(i as int)) + node_obs_v(*acc));
        }
        i = i + 1;
    }
    assert(av.take(accs.len() as int) =~= av);
    let ghost part1 = views_of(out@);
    let invs = ir.nodes_of_kind("invariant");
    let ghost iv = invs@.map_values(|n: &IrNode| *n);
    let mut k: usize = 0;
    while k < invs.len()
        invariant
            k <= invs.len(),
            iv == invs@.map_values(|n: &IrNode| *n),
            views_of(out@) == part1 + iv.take(k as int).map_values(|n: IrNode| inv_ob_v(n)),
        decreases invs.len() - k,
    {
        let ob = lower_invariant_obligation(invs[k]);
        proof {
            lemma_views_push(out@, ob);
            assert(iv.take(k + 1).map_values(|n: IrNode| inv_ob_v(n)) =~= iv.take(k as int).map_values(|n: IrNode| inv_ob_v(n)).push(inv_ob_v(iv[k as int])));
        }
        out.push(ob);
        k = k + 1;
    }
    assert(iv.take(invs.len() as int) =~= iv);
    let ghost part2 = views_of(out@);
    let cons = ir.nodes_of_kind("constraint");
    let ghost kv = cons@.map_values(|n: &IrNode| *n);
    let mut m: usize = 0;
    while m < cons.len()
        invariant
            m <= cons.len(),
            kv == cons@.map_values(|n: &IrNode| *n),
            views_of(out@) == part2 + kv.take(m as int).map_values(|n: IrNode| con_ob_v(n)),
        decreases cons.len() - m,
    {
        let ob = lower_constraint_obligation(cons[m]);
        proof {
            lemma_views_push(out@, ob);
            assert(kv.take(m + 1).map_values(|n: IrNode| con_ob_v(n)) =~= kv.take(m as int).map_values(|n: IrNode| con_ob_v(n)).push(con_ob_v(kv[m as int])));
        }
        out.push(ob);
        m = m + 1;
    }
    assert(kv.take(cons.len() as int) =~= kv);
    out
}


// ---- reference verification ----

fn make_result(id: &str, status: &str, trace: Option<Sexpr>, ces: Vec<Sexpr>, diags: Vec<Sexpr>, basis: Option<bool>) -> (r: Sexpr)
    ensures
        r@ == vresult_v(id@, status@, match trace { Some(t) => Some(t@), None => None }, views_of(ces@), views_of(diags@), basis),
{
    let ghost tv: Option<SexprV> = match trace { Some(ref t) => Some(t@), None => None };
    let ghost cv = views_of(ces@);
    let ghost dv = views_of(diags@);
    let mut items = vec![
        Sexpr::sym("verification-result"),
        Sexpr::pair("schema", Sexpr::Str(owned("gymnast.verify/0.1"))),
        Sexpr::pair("obligation-id", Sexpr::Str(owned(id))),
        Sexpr::pair("status", Sexpr::sym(status)),
    ];
    proof {
        lemma_views_of(items@);
    }
    let ghost head = views_of(items@);
    assert(head =~= seq![
        SexprV::Sym("verification-result"@),
        pair_v("schema"@, SexprV::Str("gymnast.verify/0.1"@)),
        pair_v("obligation-id"@, SexprV::Str(id@)),
        pair_v("status"@, SexprV::Sym(status@)),
    ]);
    let ghost bpart: Seq<SexprV> = match basis {
        Some(b) => seq![pair_v("basis"@, SexprV::Sym(if b { "symbolic"@ } else { "checked"@ }))],
        None => Seq::empty(),
    };
    match basis {
        Some(b) => {
            let x = Sexpr::pair("basis", Sexpr::sym(if b { "symbolic" } else { "checked" }));
            proof {
                lemma_views_push(items@, x);
            }
            items.push(x);
        },
        None => {},
    }
    assert(views_of(items@) =~= head + bpart);
    let t = match trace {
        Some(t) => t,
        None => nil(),
    };
    let x1 = Sexpr::pair("trace", t);
    proof {
        lemma_views_push(items@, x1);
    }
    items.push(x1);
    let x2 = Sexpr::pair("counterexamples", Sexpr::List(ces));
    proof {
        lemma_views_push(items@, x2);
    }
    items.push(x2);
    let x3 = Sexpr::pair("diagnostics", Sexpr::List(diags));
    proof {
        lemma_views_push(items@, x3);
    }
    items.push(x3);
    assert(views_of(items@) =~= head + bpart + seq![
        pair_v("trace"@, or_nil(tv)),
        pair_v("counterexamples"@, SexprV::List(cv)),
        pair_v("diagnostics"@, SexprV::List(dv)),
    ]);
    Sexpr::List(items)
}

/// The steps of an `execute` value (see `execute_steps_v`).
fn execute_steps(e: &Sexpr) -> (r: Vec<Sexpr>)
    ensures
        views_of(r@) == execute_steps_v(e@),
{
    match e {
        Sexpr::List(items) => {
            proof {
                lemma_views_of(items@);
            }
            if items.len() > 0 {
                let is_seq = match items[0].as_sym() {
                    Some(h) => str_eq(h, "sequence"),
                    None => false,
                };
                if is_seq {
                    let rest = rest_slice(items.as_slice());
                    let mut out: Vec<Sexpr> = Vec::new();
                    let mut i: usize = 0;
                    while i < rest.len()
                        invariant
                            i <= rest.len(),
                            views_of(out@) == views_of(rest@.take(i as int)),
                        decreases rest.len() - i,
                    {
                        let c = clone_sexpr(&rest[i]);
                        proof {
                            lemma_views_push(out@, c);
                            lemma_views_push(rest@.take(i as int), rest@[i as int]);
                            assert(rest@.take(i + 1) =~= rest@.take(i as int).push(rest@[i as int]));
                        }
                        out.push(c);
                        i = i + 1;
                    }
                    assert(rest@.take(rest.len() as int) =~= rest@);
                    return out;
                }
                match &items[0] {
                    Sexpr::List(_) => {
                        return crate::ir::clone_sexprs(items);
                    },
                    _ => {},
                }
            }
            one(clone_sexpr(e))
        },
        _ => one(clone_sexpr(e)),
    }
}

/// The index a violation's `(step-index N)` entry names (see `step_index_v`).
fn violation_step_index(v: &Sexpr) -> (r: Option<usize>)
    ensures
        match step_index_v(v@) {
            Some(i) => r is Some && r->0 as int == i,
            None => r is None,
        },
{
    match v {
        Sexpr::List(items) => {
            let ghost iv = views_of(items@);
            proof {
                lemma_views_of(items@);
            }
            let mut k: usize = 1;
            while k < items.len()
                invariant
                    1 <= k,
                    items.len() == 0 || k <= items.len(),
                    iv == views_of(items@),
                    iv.len() == items.len(),
                    forall|j: int| 0 <= j < items.len() ==> #[trigger] iv[j] == items@[j]@,
                    step_index_scan(iv, 1) == step_index_scan(iv, k as int),
                    *v == Sexpr::List(*items),
                decreases items.len() - k,
            {
                match &items[k] {
                    Sexpr::List(p) => {
                        proof {
                            lemma_views_of(p@);
                        }
                        if p.len() == 2 {
                            let hit = match p[0].as_sym() {
                                Some(s) => str_eq(s, "step-index"),
                                None => false,
                            };
                            if hit {
                                proof {
                                    assert(iv[k as int] == SexprV::List(views_of(p@)));
                                    assert(views_of(p@)[0] == SexprV::Sym("step-index"@));
                                    assert(views_of(p@)[1] == p@[1]@);
                                }
                                return match p[1].as_int() {
                                    Some(i) => if i >= 0 && (i as u64) <= (usize::MAX as u64) {
                                        Some(i as usize)
                                    } else {
                                        None
                                    },
                                    None => None,
                                };
                            }
                        }
                    },
                    _ => {},
                }
                k = k + 1;
            }
            None
        },
        _ => None,
    }
}

/// One counterexample per violation, each paired with its step (see
/// `ces_v`).
fn counterexamples_for_trace(trace: &Trace) -> (r: Vec<Sexpr>)
    ensures
        views_of(r@) == ces_v(steps_of(*trace), views_of(trace.violations@)),
{
    let ghost sv = steps_of(*trace);
    let ghost vv = views_of(trace.violations@);
    proof {
        lemma_views_of(trace.violations@);
    }
    let default = default_trace_step();
    let mut out: Vec<Sexpr> = Vec::new();
    let mut i: usize = 0;
    while i < trace.violations.len()
        invariant
            i <= trace.violations.len(),
            sv == steps_of(*trace),
            vv == views_of(trace.violations@),
            vv.len() == trace.violations.len(),
            forall|j: int| 0 <= j < trace.violations.len() ==> #[trigger] vv[j] == trace.violations@[j]@,
            default@ == unmatched_step(None, None, Seq::empty(), nil_v()),
            views_of(out@) == ces_v(sv, vv.take(i as int)),
        decreases trace.violations.len() - i,
    {
        let v = &trace.violations[i];
        let idx = violation_step_index(v);
        let step: &TraceStep = match idx {
            Some(k) => if k < trace.steps.len() {
                &trace.steps[k]
            } else if trace.steps.len() > 0 {
                &trace.steps[0]
            } else {
                &default
            },
            None => if trace.steps.len() > 0 {
                &trace.steps[0]
            } else {
                &default
            },
        };
        assert(step@ == ce_step_v(sv, vv[i as int]));
        let c = counterexample(v, step);
        proof {
            lemma_views_push(out@, c);
            assert(vv.take(i + 1) =~= vv.take(i as int).push(vv[i as int]));
            assert(ces_v(sv, vv.take(i + 1)) =~= ces_v(sv, vv.take(i as int)).push(counterexample_v(vv[i as int], ce_step_v(sv, vv[i as int]))));
        }
        out.push(c);
        i = i + 1;
    }
    assert(vv.take(trace.violations.len() as int) =~= vv);
    out
}

pub open spec fn run_of(t: Trace) -> RunV {
    RunV { steps: steps_of(t), violations: views_of(t.violations@), state: state_v(t.final_state@) }
}

fn run_result(id: &str, trace: &Trace) -> (r: Sexpr)
    ensures
        r@ == run_result_v(id@, run_of(*trace)),
{
    let ghost sv = steps_of(*trace);
    let tr = trace_to_sexpr(trace);
    let mut symbolic = false;
    let mut k: usize = 0;
    while k < trace.steps.len()
        invariant
            k <= trace.steps.len(),
            sv == steps_of(*trace),
            symbolic == exists|j: int| 0 <= j < k && (#[trigger] sv[j]).symbolic,
        decreases trace.steps.len() - k,
    {
        assert(sv[k as int] == trace.steps@[k as int]@);
        symbolic = symbolic || trace.steps[k].symbolic;
        k = k + 1;
    }
    assert(symbolic == any_symbolic(sv));
    if trace.violations.len() == 0 {
        proof {
            lemma_views_of(trace.violations@);
        }
        make_result(id, "passed", Some(tr), none(), none(), Some(symbolic))
    } else {
        proof {
            lemma_views_of(trace.violations@);
        }
        let ces = counterexamples_for_trace(trace);
        make_result(id, "failed", Some(tr), ces, none(), Some(symbolic))
    }
}

fn skipped(id: &str, code: &str, severity: &str, msg: String) -> (r: Sexpr)
    ensures
        r@ == skipped_v(id@, code@, severity@, msg@),
{
    let d = diag_sexpr(severity, code, (0, 0), msg);
    make_result(id, "skipped", None, none(), one(d), None)
}

fn verify_property_against_reference(ir: &Ir, obligation: &Sexpr) -> (r: Sexpr)
    ensures
        r@ == property_v(*ir, obligation@),
{
    let id = str_field_exec(obligation, "id");
    let ex = assoc_or_nil(obligation, "execute");
    if !truthy(&ex) {
        let mut m = owned("property ");
        push_str(&mut m, id);
        push_str(&mut m, " has no execute clause");
        return skipped(id, "no-execute-spec", "warning", m);
    }
    let steps = execute_steps(&ex);
    let trace = execute_trace(ir, steps.as_slice());
    proof {
        lemma_views_of(steps@);
        assert(run_of(trace) == bounded_run(*ir, execute_steps_v(ex@)));
    }
    run_result(id, &trace)
}

/// The actions of the `when` entries (see `when_actions`).
fn scenario_trace_steps(steps: &[Sexpr]) -> (r: Vec<Sexpr>)
    ensures
        views_of(r@) == when_actions(views_of(steps@)),
{
    let ghost xv = views_of(steps@);
    proof {
        lemma_views_of(steps@);
    }
    let mut out: Vec<Sexpr> = Vec::new();
    let mut i: usize = 0;
    while i < steps.len()
        invariant
            i <= steps.len(),
            xv == views_of(steps@),
            xv.len() == steps.len(),
            forall|j: int| 0 <= j < steps.len() ==> #[trigger] xv[j] == steps@[j]@,
            views_of(out@) == when_actions(xv.take(i as int)),
        decreases steps.len() - i,
    {
        assert(xv.take(i + 1).drop_last() =~= xv.take(i as int));
        assert(xv.take(i + 1).last() == steps@[i as int]@);
        match &steps[i] {
            Sexpr::List(items) => {
                proof {
                    lemma_views_of(items@);
                }
                if items.len() > 1 {
                    let is_when = match items[0].as_sym() {
                        Some(h) => str_eq(h, "when"),
                        None => false,
                    };
                    if is_when {
                        match &items[1] {
                            Sexpr::List(_) => {
                                let c = clone_sexpr(&items[1]);
                                proof {
                                    lemma_views_push(out@, c);
                                }
                                out.push(c);
                            },
                            _ => {},
                        }
                    }
                }
            },
            _ => {},
        }
        i = i + 1;
    }
    assert(xv.take(steps.len() as int) =~= xv);
    out
}

fn verify_scenario_against_reference(ir: &Ir, obligation: &Sexpr) -> (r: Sexpr)
    ensures
        r@ == scenario_v(*ir, obligation@),
{
    let id = str_field_exec(obligation, "id");
    let steps_field = assoc_or_nil(obligation, "steps");
    let empty: Vec<Sexpr> = Vec::new();
    let gwt: &[Sexpr] = match steps_field.as_list() {
        Some(s) => s,
        None => empty.as_slice(),
    };
    assert(views_of(gwt@) == list_items_v(steps_field@)) by {
        assert(views_of(Seq::<Sexpr>::empty()) =~= Seq::<SexprV>::empty());
    }
    let trace_steps = scenario_trace_steps(gwt);
    if trace_steps.len() == 0 {
        proof {
            lemma_views_of(trace_steps@);
        }
        let mut m = owned("scenario ");
        push_str(&mut m, id);
        push_str(&mut m, " produced no executable trace steps");
        return skipped(id, "no-trace-steps", "warning", m);
    }
    let trace = execute_trace(ir, trace_steps.as_slice());
    proof {
        lemma_views_of(trace_steps@);
        assert(run_of(trace) == bounded_run(*ir, views_of(trace_steps@)));
    }
    run_result(id, &trace)
}

proof fn lemma_first_undecided_at(ts: Seq<TransitionV>, st: Seq<(Seq<char>, SexprV)>, pred: SexprV, k: int)
    requires
        0 <= k < ts.len(),
        forall|j: int| 0 <= j < k ==> pred3(pred, apply_v(#[trigger] ts[j], st, None, None).post_state, None, None) == Verdict::Holds,
        pred3(pred, apply_v(ts[k], st, None, None).post_state, None, None) != Verdict::Holds,
    ensures
        first_undecided(ts, st, pred) == Some(k),
    decreases k,
{
    if k > 0 {
        let tail = ts.drop_first();
        assert forall|j: int| 0 <= j < k - 1 implies pred3(pred, apply_v(#[trigger] tail[j], st, None, None).post_state, None, None) == Verdict::Holds by {
            assert(tail[j] == ts[j + 1]);
        }
        assert(tail[k - 1] == ts[k]);
        assert(ts[0] == ts[0]);
        lemma_first_undecided_at(tail, st, pred, k - 1);
    }
}

proof fn lemma_first_undecided_none(ts: Seq<TransitionV>, st: Seq<(Seq<char>, SexprV)>, pred: SexprV)
    requires
        forall|j: int| 0 <= j < ts.len() ==> pred3(pred, apply_v(#[trigger] ts[j], st, None, None).post_state, None, None) == Verdict::Holds,
    ensures
        first_undecided(ts, st, pred) is None,
    decreases ts.len(),
{
    if ts.len() > 0 {
        let tail = ts.drop_first();
        assert forall|j: int| 0 <= j < tail.len() implies pred3(pred, apply_v(#[trigger] tail[j], st, None, None).post_state, None, None) == Verdict::Holds by {
            assert(tail[j] == ts[j + 1]);
        }
        assert(ts[0] == ts[0]);
        lemma_first_undecided_none(tail, st, pred);
    }
}

proof fn lemma_first_undecided_facts(ts: Seq<TransitionV>, st: Seq<(Seq<char>, SexprV)>, pred: SexprV)
    ensures
        first_undecided(ts, st, pred) is None ==> forall|j: int| 0 <= j < ts.len() ==> pred3(pred, apply_v(#[trigger] ts[j], st, None, None).post_state, None, None) == Verdict::Holds,
        first_undecided(ts, st, pred) is Some ==> {
            let k = first_undecided(ts, st, pred)->0;
            &&& 0 <= k < ts.len()
            &&& pred3(pred, apply_v(ts[k], st, None, None).post_state, None, None) != Verdict::Holds
        },
    decreases ts.len(),
{
    if ts.len() > 0 {
        let tail = ts.drop_first();
        lemma_first_undecided_facts(tail, st, pred);
        if first_undecided(ts, st, pred) is None {
            assert forall|j: int| 0 <= j < ts.len() implies pred3(pred, apply_v(#[trigger] ts[j], st, None, None).post_state, None, None) == Verdict::Holds by {
                if j > 0 {
                    assert(ts[j] == tail[j - 1]);
                }
            }
        }
        if first_undecided(ts, st, pred) is Some && first_undecided(tail, st, pred) is Some {
            let k = first_undecided(tail, st, pred)->0;
            assert(ts[k + 1] == tail[k]);
        }
    }
}

/// The status an obligation result reports.
pub open spec fn status_of(r: SexprV) -> SexprV {
    r->List_0[3]
}

proof fn lemma_status_of_vresult(id: Seq<char>, status: Seq<char>, trace: Option<SexprV>, ces: Seq<SexprV>, diags: Seq<SexprV>, basis: Option<bool>)
    ensures
        status_of(vresult_v(id, status, trace, ces, diags, basis)) == pair_v("status"@, SexprV::Sym(status)),
{
    let head = seq![
        SexprV::Sym("verification-result"@),
        pair_v("schema"@, SexprV::Str("gymnast.verify/0.1"@)),
        pair_v("obligation-id"@, SexprV::Str(id)),
        pair_v("status"@, SexprV::Sym(status)),
    ];
    let mid = match basis {
        Some(b) => seq![pair_v("basis"@, SexprV::Sym(if b { "symbolic"@ } else { "checked"@ }))],
        None => Seq::empty(),
    };
    let tail = seq![
        pair_v("trace"@, or_nil(trace)),
        pair_v("counterexamples"@, SexprV::List(ces)),
        pair_v("diagnostics"@, SexprV::List(diags)),
    ];
    assert((head + mid + tail)[3] == head[3]);
}

/// The invariant passes exactly when its predicate holds at the initial
/// state and at the post-state of every extracted transition applied
/// once to it.
#[verifier::rlimit(40)]
#[verifier::spinoff_prover]
pub proof fn lemma_invariant_passes_iff(ir: Ir, ob: SexprV)
    ensures
        (status_of(invariant_v(ir, ob)) == pair_v("status"@, SexprV::Sym("passed"@))) <==> (
            pred3(or_nil(assoc_v(ob, "predicate"@)), init_state_v(ir), None, None) == Verdict::Holds
            && forall|k: int| 0 <= k < transitions_v(ir).len() ==> pred3(
                or_nil(assoc_v(ob, "predicate"@)),
                apply_v(#[trigger] transitions_v(ir)[k], init_state_v(ir), None, None).post_state,
                None,
                None,
            ) == Verdict::Holds),
{
    let id = str_field(ob, "id"@);
    let pred = or_nil(assoc_v(ob, "predicate"@));
    let st = init_state_v(ir);
    let ts = transitions_v(ir);
    reveal_strlit("passed");
    reveal_strlit("failed");
    reveal_strlit("indeterminate");
    assert(SexprV::Sym("passed"@) != SexprV::Sym("failed"@)) by {
        assert("passed"@[0] != "failed"@[0]);
    }
    assert(SexprV::Sym("passed"@) != SexprV::Sym("indeterminate"@)) by {
        assert("passed"@[0] != "indeterminate"@[0]);
    }
    lemma_first_undecided_facts(ts, st, pred);
    let r = invariant_v(ir, ob);
    match pred3(pred, st, None, None) {
        Verdict::Fails => {
            lemma_status_of_vresult(id, "failed"@, None, seq![inv_ce_v(id, "invariant-violation"@, pred, st, None)], Seq::empty(), Some(false));
        },
        Verdict::Unknown => {
            lemma_status_of_vresult(id, "indeterminate"@, None, Seq::empty(), seq![undecided_diag(id, pred)], Some(true));
        },
        Verdict::Holds => {
            let fu = first_undecided(ts, st, pred);
            match fu {
                Some(k) => {
                    let post = apply_v(ts[k], st, None, None).post_state;
                    lemma_status_of_vresult(id, "failed"@, None,
                        seq![inv_ce_v(id, "invariant-violation-post-transition"@, pred, post, Some(ts[k].id))], Seq::empty(), Some(false));
                    lemma_status_of_vresult(id, "indeterminate"@, None, Seq::empty(), seq![undecided_diag(id, pred)], Some(true));
                    assert(status_of(r) != pair_v("status"@, SexprV::Sym("passed"@)));
                },
                None => {
                    lemma_status_of_vresult(id, "passed"@, None, Seq::empty(), Seq::empty(), Some(false));
                },
            }
        },
    }
}

/// An invariant whose predicate fails in the initial state is `failed`
/// with one `invariant-violation` counterexample over that state and no
/// transition; one whose initial verdict is undecided is `indeterminate`.
pub proof fn lemma_invariant_initial_state(ir: Ir, ob: SexprV)
    ensures
        pred3(or_nil(assoc_v(ob, "predicate"@)), init_state_v(ir), None, None) == Verdict::Fails ==> invariant_v(ir, ob) == vresult_v(
            str_field(ob, "id"@),
            "failed"@,
            None,
            seq![inv_ce_v(str_field(ob, "id"@), "invariant-violation"@, or_nil(assoc_v(ob, "predicate"@)), init_state_v(ir), None)],
            Seq::empty(),
            Some(false),
        ),
        pred3(or_nil(assoc_v(ob, "predicate"@)), init_state_v(ir), None, None) == Verdict::Unknown
            ==> status_of(invariant_v(ir, ob)) == pair_v("status"@, SexprV::Sym("indeterminate"@)),
{
    let id = str_field(ob, "id"@);
    let pred = or_nil(assoc_v(ob, "predicate"@));
    lemma_status_of_vresult(id, "indeterminate"@, None, Seq::empty(), seq![undecided_diag(id, pred)], Some(true));
}

/// When the invariant holds initially and at the post-states of the
/// transitions before `k`, but fails at the post-state of transition
/// `k`, the result is `failed` with one
/// `invariant-violation-post-transition` counterexample naming that
/// transition and its post-state.
#[verifier::rlimit(40)]
#[verifier::spinoff_prover]
pub proof fn lemma_invariant_fails_after_transition(ir: Ir, ob: SexprV, k: int)
    requires
        0 <= k < transitions_v(ir).len(),
        pred3(or_nil(assoc_v(ob, "predicate"@)), init_state_v(ir), None, None) == Verdict::Holds,
        forall|j: int| 0 <= j < k ==> pred3(
            or_nil(assoc_v(ob, "predicate"@)),
            apply_v(#[trigger] transitions_v(ir)[j], init_state_v(ir), None, None).post_state,
            None,
            None,
        ) == Verdict::Holds,
        pred3(
            or_nil(assoc_v(ob, "predicate"@)),
            apply_v(transitions_v(ir)[k], init_state_v(ir), None, None).post_state,
            None,
            None,
        ) == Verdict::Fails,
    ensures
        invariant_v(ir, ob) == vresult_v(
            str_field(ob, "id"@),
            "failed"@,
            None,
            seq![inv_ce_v(
                str_field(ob, "id"@),
                "invariant-violation-post-transition"@,
                or_nil(assoc_v(ob, "predicate"@)),
                apply_v(transitions_v(ir)[k], init_state_v(ir), None, None).post_state,
                Some(transitions_v(ir)[k].id),
            )],
            Seq::empty(),
            Some(false),
        ),
{
    lemma_first_undecided_at(transitions_v(ir), init_state_v(ir), or_nil(assoc_v(ob, "predicate"@)), k);
}

fn undecided_diag_exec(id: &str, pred: &Sexpr) -> (r: Sexpr)
    ensures
        r@ == undecided_diag(id@, pred@),
{
    let mut m = owned("symbolically-undecided: the verdict for ");
    push_str(&mut m, id);
    push_str(&mut m, " rests on an unevaluated predicate form (");
    let p = pred.print();
    push_str(&mut m, p.as_str());
    push_str(&mut m, ")");
    diag_sexpr("info", "I601", (0, 0), m)
}

fn indeterminate(id: &str, pred: &Sexpr) -> (r: Sexpr)
    ensures
        r@ == indeterminate_v(id@, pred@),
{
    make_result(id, "indeterminate", None, none(), one(undecided_diag_exec(id, pred)), Some(true))
}

fn inv_counterexample(id: &str, dtype: &str, pred: &Sexpr, state: &State, tid: Option<&str>) -> (r: Sexpr)
    ensures
        r@ == inv_ce_v(id@, dtype@, pred@, state_v(state@), match tid { Some(t) => Some(t@), None => None }),
{
    let mut items = vec![
        Sexpr::sym("normalized-counterexample"),
        Sexpr::pair("obligation-id", Sexpr::Str(owned(id))),
        Sexpr::pair("divergence-type", Sexpr::sym(dtype)),
        Sexpr::pair("predicate", clone_sexpr(pred)),
        Sexpr::pair("state", state_to_sexpr(state)),
    ];
    proof {
        lemma_views_of(items@);
    }
    match tid {
        Some(t) => {
            let x = Sexpr::pair("transition", Sexpr::Str(owned(t)));
            proof {
                lemma_views_push(items@, x);
            }
            items.push(x);
        },
        None => {},
    }
    assert(views_of(items@) =~= inv_ce_v(id@, dtype@, pred@, state_v(state@), match tid { Some(t) => Some(t@), None => None })->List_0);
    Sexpr::List(items)
}

fn verify_invariant_obligation(ir: &Ir, obligation: &Sexpr) -> (r: Sexpr)
    ensures
        r@ == invariant_v(*ir, obligation@),
{
    let id = str_field_exec(obligation, "id");
    let pred = assoc_or_nil(obligation, "predicate");
    let state = make_initial_state(ir);
    let ghost st = state_v(state@);
    match eval_predicate3(&pred, &state, None, None) {
        Verdict::Fails => {
            let ce = inv_counterexample(id, "invariant-violation", &pred, &state, None);
            return make_result(id, "failed", None, one(ce), none(), Some(false));
        },
        Verdict::Unknown => {
            return indeterminate(id, &pred);
        },
        Verdict::Holds => {},
    }
    let ts = extract_transitions(ir);
    let ghost tv = ts@.map_values(|t: Transition| t@);
    let mut k: usize = 0;
    while k < ts.len()
        invariant
            k <= ts.len(),
            tv == ts@.map_values(|t: Transition| t@),
            tv == transitions_v(*ir),
            st == state_v(state@),
            st == init_state_v(*ir),
            id@ == str_field(obligation@, "id"@),
            pred@ == or_nil(assoc_v(obligation@, "predicate"@)),
            pred3(pred@, st, None, None) == Verdict::Holds,
            forall|j: int| 0 <= j < k ==> pred3(pred@, apply_v(#[trigger] tv[j], st, None, None).post_state, None, None) == Verdict::Holds,
        decreases ts.len() - k,
    {
        let step = apply_transition(&ts[k], &state, None, None);
        assert(step@ == apply_v(tv[k as int], st, None, None));
        match eval_predicate3(&pred, &step.post_state, None, None) {
            Verdict::Fails => {
                proof {
                    lemma_first_undecided_at(tv, st, pred@, k as int);
                }
                let ce = inv_counterexample(id, "invariant-violation-post-transition", &pred, &step.post_state, Some(ts[k].id.as_str()));
                return make_result(id, "failed", None, one(ce), none(), Some(false));
            },
            Verdict::Unknown => {
                proof {
                    lemma_first_undecided_at(tv, st, pred@, k as int);
                }
                return indeterminate(id, &pred);
            },
            Verdict::Holds => {},
        }
        k = k + 1;
    }
    proof {
        lemma_first_undecided_none(tv, st, pred@);
    }
    make_result(id, "passed", None, none(), none(), Some(false))
}

/// Verifies one obligation against the reference: `property`,
/// `scenario` and `invariant` obligations are checked, every other kind
/// is skipped with an info `deferred-verification` diagnostic (see
/// `verify_v`).
pub fn verify_obligation(ir: &Ir, obligation: &Sexpr) -> (r: Sexpr)
    ensures
        r@ == verify_v(*ir, obligation@),
{
    proof {
        reveal(verify_v);
    }
    let kind = sym_field_exec(obligation, "kind");
    if str_eq(kind, "property") {
        verify_property_against_reference(ir, obligation)
    } else if str_eq(kind, "scenario") {
        verify_scenario_against_reference(ir, obligation)
    } else if str_eq(kind, "invariant") {
        verify_invariant_obligation(ir, obligation)
    } else {
        let id = str_field_exec(obligation, "id");
        let mut m = owned("verification of ");
        proof {
            reveal_strlit("");
            assert(kind@.len() == 0 <==> kind@ =~= ""@);
        }
        if str_eq(kind, "") {
            push_str(&mut m, "unknown-kind");
        } else {
            push_str(&mut m, kind);
        }
        push_str(&mut m, " obligation ");
        push_str(&mut m, id);
        push_str(&mut m, " requires runtime execution");
        skipped(id, "deferred-verification", "info", m)
    }
}


// ---- trace equivalence ----

fn state_eq(a: &State, b: &State) -> (r: bool)
    ensures
        r == (state_v(a@) == state_v(b@)),
{
    if a.len() != b.len() {
        assert(state_v(a@).len() != state_v(b@).len());
        return false;
    }
    let mut i: usize = 0;
    while i < a.len()
        invariant
            i <= a.len(),
            a.len() == b.len(),
            forall|j: int| 0 <= j < i ==> #[trigger] state_v(a@)[j] == state_v(b@)[j],
        decreases a.len() - i,
    {
        if !str_eq(a[i].0.as_str(), b[i].0.as_str()) || !sexpr_eq(&a[i].1, &b[i].1) {
            assert(state_v(a@)[i as int] != state_v(b@)[i as int]);
            return false;
        }
        i = i + 1;
    }
    assert(state_v(a@) =~= state_v(b@));
    true
}

fn len_divergence(kind: &str, count: usize) -> (r: Sexpr)
    ensures
        r@ == len_div_v(kind@, count as int),
{
    let items = vec![
        Sexpr::sym("divergence"),
        Sexpr::pair("type", Sexpr::sym(kind)),
        Sexpr::pair("count", Sexpr::Int(count as i64)),
    ];
    proof {
        lemma_views_of(items@);
        assert(views_of(items@) =~= len_div_v(kind@, count as int)->List_0);
    }
    Sexpr::List(items)
}

/// The divergence between a reference and an implementation step (see
/// `step_div_v`).
fn compare_trace_step(reference: &TraceStep, implementation: &TraceStep) -> (r: Option<Sexpr>)
    ensures
        match step_div_v(reference@, implementation@) {
            Some(d) => r is Some && r->0@ == d,
            None => r is None,
        },
{
    if !sexpr_eq(&reference.outcome, &implementation.outcome) {
        let items = vec![
            Sexpr::sym("divergence"),
            Sexpr::pair("type", Sexpr::sym("outcome-mismatch")),
            Sexpr::pair("reference", clone_sexpr(&reference.outcome)),
            Sexpr::pair("implementation", clone_sexpr(&implementation.outcome)),
            Sexpr::pair("step", trace_step_to_sexpr(reference)),
        ];
        proof {
            lemma_views_of(items@);
            assert(views_of(items@) =~= step_div_v(reference@, implementation@)->0->List_0);
        }
        return Some(Sexpr::List(items));
    }
    if !state_eq(&reference.post_state, &implementation.post_state) {
        let items = vec![
            Sexpr::sym("divergence"),
            Sexpr::pair("type", Sexpr::sym("state-mismatch")),
            Sexpr::pair("reference-state", state_to_sexpr(&reference.post_state)),
            Sexpr::pair("implementation-state", state_to_sexpr(&implementation.post_state)),
            Sexpr::pair("step", trace_step_to_sexpr(reference)),
        ];
        proof {
            lemma_views_of(items@);
            assert(views_of(items@) =~= step_div_v(reference@, implementation@)->0->List_0);
        }
        return Some(Sexpr::List(items));
    }
    None
}

pub open spec fn step_views(s: Seq<TraceStep>) -> Seq<StepV> {
    s.map_values(|t: TraceStep| t@)
}

/// Lockstep comparison of two step sequences (see `divs_v`).
pub fn compare_traces(reference_steps: &[TraceStep], impl_steps: &[TraceStep]) -> (r: Vec<Sexpr>)
    ensures
        views_of(r@) == divs_v(step_views(reference_steps@), step_views(impl_steps@)),
{
    let ghost rv = step_views(reference_steps@);
    let ghost iv = step_views(impl_steps@);
    let mut out: Vec<Sexpr> = Vec::new();
    let mut i: usize = 0;
    assert(rv.skip(0) =~= rv && iv.skip(0) =~= iv);
    assert(views_of(out@) =~= Seq::<SexprV>::empty());
    while i < reference_steps.len() && i < impl_steps.len()
        invariant
            i <= reference_steps.len(),
            i <= impl_steps.len(),
            rv == step_views(reference_steps@),
            iv == step_views(impl_steps@),
            views_of(out@) + divs_v(rv.skip(i as int), iv.skip(i as int)) == divs_v(rv, iv),
        decreases reference_steps.len() - i,
    {
        let ghost prev = views_of(out@);
        assert(rv.skip(i as int).drop_first() =~= rv.skip(i + 1));
        assert(iv.skip(i as int).drop_first() =~= iv.skip(i + 1));
        assert(rv.skip(i as int)[0] == reference_steps@[i as int]@);
        assert(iv.skip(i as int)[0] == impl_steps@[i as int]@);
        match compare_trace_step(&reference_steps[i], &impl_steps[i]) {
            Some(d) => {
                proof {
                    lemma_views_push(out@, d);
                }
                out.push(d);
            },
            None => {},
        }
        assert(views_of(out@) =~= prev + opt_ob(step_div_v(reference_steps@[i as int]@, impl_steps@[i as int]@)));
        i = i + 1;
    }
    let ghost prev = views_of(out@);
    if i < impl_steps.len() {
        let d = len_divergence("extra-implementation-steps", impl_steps.len() - i);
        proof {
            lemma_views_push(out@, d);
        }
        out.push(d);
    } else if i < reference_steps.len() {
        let d = len_divergence("missing-implementation-steps", reference_steps.len() - i);
        proof {
            lemma_views_push(out@, d);
        }
        out.push(d);
    }
    assert(views_of(out@) =~= prev + divs_v(rv.skip(i as int), iv.skip(i as int)));
    out
}

/// `(trace-equivalence-result ...)` of two traces (see `equivalence_v`).
pub fn trace_equivalence_result(_ir: &Ir, reference_trace: &Trace, impl_trace: &Trace, obligation_id: &str) -> (r: Sexpr)
    ensures
        r@ == equivalence_v(*reference_trace, *impl_trace, obligation_id@),
{
    let divergences = compare_traces(reference_trace.steps.as_slice(), impl_trace.steps.as_slice());
    proof {
        lemma_views_of(divergences@);
    }
    let equivalent = divergences.len() == 0;
    let eq = if equivalent { Sexpr::sym("t") } else { nil() };
    let items = vec![
        Sexpr::sym("trace-equivalence-result"),
        Sexpr::pair("obligation-id", Sexpr::Str(owned(obligation_id))),
        Sexpr::pair("equivalent", eq),
        Sexpr::pair("divergences", Sexpr::List(divergences)),
        Sexpr::pair("reference-violations", Sexpr::List(crate::ir::clone_sexprs(&reference_trace.violations))),
        Sexpr::pair("implementation-violations", Sexpr::List(crate::ir::clone_sexprs(&impl_trace.violations))),
    ];
    proof {
        lemma_views_of(items@);
        assert(views_of(items@) =~= equivalence_v(*reference_trace, *impl_trace, obligation_id@)->List_0);
    }
    Sexpr::List(items)
}

// ---- normalized counterexamples ----

fn step_field(step: Option<&Sexpr>, key: &str) -> (r: Sexpr)
    ensures
        r@ == step_field_v(opt_ref_v(step), key@),
{
    match step {
        Some(s) => match s {
            Sexpr::List(items) => {
                proof {
                    lemma_views_of(items@);
                }
                if items.len() > 1 {
                    assoc_or_nil(&items[1], key)
                } else {
                    nil()
                }
            },
            _ => nil(),
        },
        None => nil(),
    }
}

/// One divergence as a `normalized-counterexample` (see `normalized_v`);
/// a `state-mismatch` divergence keeps its states under other keys, so
/// its `expected` and `actual` come back `nil`.
pub fn normalize_counterexample(divergence: &Sexpr, obligation_id: &str) -> (r: Sexpr)
    ensures
        r@ == normalized_v(divergence@, obligation_id@),
{
    let step = divergence.assoc("step");
    assert(opt_ref_v(step) == assoc_v(divergence@, "step"@));
    let items = vec![
        Sexpr::sym("normalized-counterexample"),
        Sexpr::pair("obligation-id", Sexpr::Str(owned(obligation_id))),
        Sexpr::pair("divergence-type", assoc_or_nil(divergence, "type")),
        Sexpr::pair("operation", step_field(step, "transition-id")),
        Sexpr::pair("actor", step_field(step, "actor")),
        Sexpr::pair("input", step_field(step, "input")),
        Sexpr::pair("pre-state", step_field(step, "pre-state")),
        Sexpr::pair("expected", assoc_or_nil(divergence, "reference")),
        Sexpr::pair("actual", assoc_or_nil(divergence, "implementation")),
    ];
    proof {
        lemma_views_of(items@);
        assert(views_of(items@) =~= normalized_v(divergence@, obligation_id@)->List_0);
    }
    Sexpr::List(items)
}

/// `normalize_counterexample` over every divergence, in order.
pub fn normalize_counterexamples(divergences: &[Sexpr], obligation_id: &str) -> (r: Vec<Sexpr>)
    ensures
        views_of(r@) == views_of(divergences@).map_values(|d: SexprV| normalized_v(d, obligation_id@)),
{
    let ghost dv = views_of(divergences@);
    proof {
        lemma_views_of(divergences@);
    }
    let mut out: Vec<Sexpr> = Vec::new();
    let mut i: usize = 0;
    while i < divergences.len()
        invariant
            i <= divergences.len(),
            dv == views_of(divergences@),
            dv.len() == divergences.len(),
            forall|j: int| 0 <= j < divergences.len() ==> #[trigger] dv[j] == divergences@[j]@,
            views_of(out@) == dv.take(i as int).map_values(|d: SexprV| normalized_v(d, obligation_id@)),
        decreases divergences.len() - i,
    {
        let c = normalize_counterexample(&divergences[i], obligation_id);
        proof {
            lemma_views_push(out@, c);
            assert(dv.take(i + 1).map_values(|d: SexprV| normalized_v(d, obligation_id@)) =~= dv.take(i as int).map_values(|d: SexprV| normalized_v(d, obligation_id@)).push(normalized_v(dv[i as int], obligation_id@)));
        }
        out.push(c);
        i = i + 1;
    }
    assert(dv.take(divergences.len() as int) =~= dv);
    out
}

// ---- coverage ----

fn find_with<'a>(xs: &'a [Sexpr], key: &str, val: &str) -> (r: Option<&'a Sexpr>)
    ensures
        match first_with(views_of(xs@), key@, val@) {
            Some(c) => r is Some && r->0@ == c,
            None => r is None,
        },
{
    let ghost xv = views_of(xs@);
    proof {
        lemma_views_of(xs@);
    }
    let mut i: usize = 0;
    assert(xv.skip(0) =~= xv);
    while i < xs.len()
        invariant
            i <= xs.len(),
            xv == views_of(xs@),
            xv.len() == xs.len(),
            forall|j: int| 0 <= j < xs.len() ==> #[trigger] xv[j] == xs@[j]@,
            first_with(xv, key@, val@) == first_with(xv.skip(i as int), key@, val@),
        decreases xs.len() - i,
    {
        assert(xv.skip(i as int).drop_first() =~= xv.skip(i + 1));
        assert(xv.skip(i as int)[0] == xv[i as int]);
        if str_eq(sym_field_exec(&xs[i], key), val) {
            return Some(&xs[i]);
        }
        i = i + 1;
    }
    None
}

fn count_with_exec(xs: &[Sexpr], key: &str, val: &str) -> (r: usize)
    ensures
        r == count_with(views_of(xs@), key@, val@),
{
    let ghost xv = views_of(xs@);
    proof {
        lemma_views_of(xs@);
    }
    let mut n: usize = 0;
    let mut i: usize = 0;
    while i < xs.len()
        invariant
            i <= xs.len(),
            xv == views_of(xs@),
            xv.len() == xs.len(),
            forall|j: int| 0 <= j < xs.len() ==> #[trigger] xv[j] == xs@[j]@,
            n == count_with(xv.take(i as int), key@, val@),
            n <= i,
        decreases xs.len() - i,
    {
        assert(xv.take(i + 1).drop_last() =~= xv.take(i as int));
        assert(xv.take(i + 1).last() == xv[i as int]);
        if str_eq(sym_field_exec(&xs[i], key), val) {
            n = n + 1;
        }
        i = i + 1;
    }
    assert(xv.take(xs.len() as int) =~= xv);
    n
}

fn flag(ob: &Sexpr, key: &str) -> (r: bool)
    ensures
        r == flag_v(ob@, key@),
{
    match ob.assoc(key) {
        Some(v) => truthy(v),
        None => false,
    }
}

fn gap_sexpr(kind: &str, count: u128) -> (r: Sexpr)
    ensures
        r@ == gap_v(kind@, count as int),
{
    let items = vec![Sexpr::sym("gap"), Sexpr::sym(kind), Sexpr::Int(count as i64)];
    proof {
        lemma_views_of(items@);
        assert(views_of(items@) =~= gap_v(kind@, count as int)->List_0);
    }
    Sexpr::List(items)
}

/// Coverage analysis of `obligations` against `ir` (see `coverage_v`).
pub fn coverage_gaps(ir: &Ir, obligations: &[Sexpr]) -> (r: Sexpr)
    ensures
        r@ == coverage_v(*ir, views_of(obligations@)),
{
    let c = match find_with(obligations, "kind", "coverage") {
        Some(c) => c,
        None => return nil(),
    };
    let want_transitions = flag(c, "every_transition");
    let want_ops = flag(c, "every_operation");
    let want_errors = flag(c, "every_error");
    let want_invariants = flag(c, "every_invariant");
    let p = count_with_exec(obligations, "kind", "property") as u128;
    let s = count_with_exec(obligations, "kind", "scenario") as u128;
    let f = count_with_exec(obligations, "kind", "fault") as u128;
    let iv = count_with_exec(obligations, "kind", "invariant") as u128;
    let covered = p + s + f;
    let behaviors = ir.nodes_of_kind("behavior");
    let invariants = ir.nodes_of_kind("invariant");
    let tc = behaviors.len() as u128;
    let ic = invariants.len() as u128;
    let bc = behaviors.len() as u128;
    assert(tc == transitions_v(*ir).len());
    let mut gaps: Vec<Sexpr> = Vec::new();
    assert(views_of(gaps@) =~= Seq::<SexprV>::empty());
    let b1 = want_transitions && tc > covered;
    if b1 {
        let g = gap_sexpr("uncovered-transitions", tc - covered);
        push_when(&mut gaps, true, g);
    }
    let ghost g1 = views_of(gaps@);
    assert(g1 =~= opt_seq(b1, gap_v("uncovered-transitions"@, tc - covered)));
    let b2 = want_ops && bc > p + s;
    if b2 {
        let g = gap_sexpr("uncovered-operations", bc - (p + s));
        push_when(&mut gaps, true, g);
    }
    let ghost g2 = views_of(gaps@);
    assert(g2 =~= g1 + opt_seq(b2, gap_v("uncovered-operations"@, bc - (p + s))));
    let b3 = want_errors && bc > f;
    if b3 {
        let g = gap_sexpr("uncovered-error-paths", bc - f);
        push_when(&mut gaps, true, g);
    }
    let ghost g3 = views_of(gaps@);
    assert(g3 =~= g2 + opt_seq(b3, gap_v("uncovered-error-paths"@, bc - f)));
    let b4 = want_invariants && ic > iv;
    if b4 {
        let g = gap_sexpr("uncovered-invariants", ic - iv);
        push_when(&mut gaps, true, g);
    }
    assert(views_of(gaps@) =~= g3 + opt_seq(b4, gap_v("uncovered-invariants"@, ic - iv)));
    let items = vec![
        Sexpr::sym("coverage-analysis"),
        Sexpr::pair("property-obligations", Sexpr::Int(p as i64)),
        Sexpr::pair("scenario-obligations", Sexpr::Int(s as i64)),
        Sexpr::pair("fault-obligations", Sexpr::Int(f as i64)),
        Sexpr::pair("total-obligations", Sexpr::Int(covered as i64)),
        Sexpr::pair("transitions-defined", Sexpr::Int(tc as i64)),
        Sexpr::pair("invariants-defined", Sexpr::Int(ic as i64)),
        Sexpr::pair("gaps", Sexpr::List(gaps)),
    ];
    proof {
        lemma_views_of(items@);
        assert(views_of(items@) =~= coverage_v(*ir, views_of(obligations@))->List_0);
    }
    Sexpr::List(items)
}


// ---- the bundle ----

proof fn lemma_contains_push(s: Seq<Seq<char>>, a: Seq<char>, x: Seq<char>)
    ensures
        s.push(a).contains(x) == (s.contains(x) || x == a),
{
    if s.contains(x) {
        let j = choose|j: int| 0 <= j < s.len() && s[j] == x;
        assert(s.push(a)[j] == x);
    }
    if x == a {
        assert(s.push(a)[s.len() as int] == a);
    }
    if s.push(a).contains(x) {
        let j = choose|j: int| 0 <= j < s.push(a).len() && s.push(a)[j] == x;
        if j < s.len() {
            assert(s[j] == x);
        }
    }
}

/// One `E601` error per later occurrence of an obligation id already
/// seen (see `dup_diags_v`).
fn duplicate_obligation_diagnostics(obligations: &[Sexpr]) -> (r: Vec<Sexpr>)
    ensures
        views_of(r@) == dup_diags_v(ids_v(views_of(obligations@))),
{
    let ghost ov = views_of(obligations@);
    let ghost ids = ids_v(ov);
    proof {
        lemma_views_of(obligations@);
    }
    let mut seen: Vec<String> = Vec::new();
    let mut diags: Vec<Sexpr> = Vec::new();
    let mut i: usize = 0;
    assert(views_of(diags@) =~= Seq::<SexprV>::empty());
    while i < obligations.len()
        invariant
            i <= obligations.len(),
            ov == views_of(obligations@),
            ov.len() == obligations.len(),
            ids == ids_v(ov),
            forall|j: int| 0 <= j < obligations.len() ==> #[trigger] ov[j] == obligations@[j]@,
            forall|x: Seq<char>| #[trigger] crate::order::texts(seen@).contains(x) == ids.take(i as int).contains(x),
            views_of(diags@) == dup_diags_v(ids.take(i as int)),
        decreases obligations.len() - i,
    {
        let id = str_field_exec(&obligations[i], "id");
        assert(ids[i as int] == id@);
        assert(ids.take(i + 1).drop_last() =~= ids.take(i as int));
        assert(ids.take(i + 1).last() == id@);
        assert(ids.take(i + 1) =~= ids.take(i as int).push(id@));
        let ghost prev = views_of(diags@);
        if crate::order::text_in(seen.as_slice(), id) {
            let mut m = owned("duplicate-obligation-id: ");
            push_str(&mut m, id);
            let d = diag_sexpr("error", "E601", (0, 0), m);
            proof {
                lemma_views_push(diags@, d);
            }
            diags.push(d);
            assert forall|x: Seq<char>| #[trigger] crate::order::texts(seen@).contains(x) == ids.take(i + 1).contains(x) by {
                lemma_contains_push(ids.take(i as int), id@, x);
            }
        } else {
            let ghost old_seen = seen@;
            seen.push(owned(id));
            assert(crate::order::texts(seen@) =~= crate::order::texts(old_seen).push(id@));
            assert forall|x: Seq<char>| #[trigger] crate::order::texts(seen@).contains(x) == ids.take(i + 1).contains(x) by {
                lemma_contains_push(ids.take(i as int), id@, x);
                lemma_contains_push(crate::order::texts(old_seen), id@, x);
            }
        }
        assert(views_of(diags@) =~= prev + opt_seq(ids.take(i as int).contains(id@),
            diag_v("error"@, "E601"@, 0, 0, "duplicate-obligation-id: "@ + id@)));
        i = i + 1;
    }
    assert(ids.take(obligations.len() as int) =~= ids);
    diags
}

/// The typed counts of a bundle's summary.
#[derive(Debug, Clone, Copy, PartialEq, Eq, Structural)]
pub struct VerificationSummary {
    pub total: i64,
    pub passed: i64,
    pub failed: i64,
    pub skipped: i64,
    pub indeterminate: i64,
}

fn int_entry_exec(s: &Sexpr, key: &str) -> (r: Option<i64>)
    ensures
        match int_entry(s@, key@) {
            Some(i) => r is Some && r->0 as int == i,
            None => r is None,
        },
{
    match s.assoc(key) {
        Some(v) => v.as_int(),
        None => None,
    }
}

/// The summary counts of a bundle, `None` on any shape mismatch (see
/// `summary_v`).
pub fn bundle_summary(bundle: &Sexpr) -> (r: Option<VerificationSummary>)
    ensures
        match summary_v(bundle@) {
            Some(t) => r is Some && r->0.total as int == t.0 && r->0.passed as int == t.1 && r->0.failed as int == t.2
                && r->0.skipped as int == t.3 && r->0.indeterminate as int == t.4,
            None => r is None,
        },
{
    let items = match bundle.as_list() {
        Some(items) => items,
        None => return None,
    };
    proof {
        lemma_views_of(items@);
    }
    if items.len() < 2 {
        return None;
    }
    let summary = match items[1].assoc("summary") {
        Some(s) => s,
        None => return None,
    };
    let total = match int_entry_exec(summary, "total") {
        Some(i) => i,
        None => return None,
    };
    let passed = match int_entry_exec(summary, "passed") {
        Some(i) => i,
        None => return None,
    };
    let failed = match int_entry_exec(summary, "failed") {
        Some(i) => i,
        None => return None,
    };
    let skipped = match int_entry_exec(summary, "skipped") {
        Some(i) => i,
        None => return None,
    };
    let indeterminate = match int_entry_exec(summary, "indeterminate") {
        Some(i) => i,
        None => return None,
    };
    Some(VerificationSummary { total, passed, failed, skipped, indeterminate })
}

fn verify_all(ir: &Ir, obligations: &Vec<Sexpr>) -> (r: Vec<Sexpr>)
    ensures
        views_of(r@) == results_v(*ir, views_of(obligations@)),
{
    let ghost ov = views_of(obligations@);
    proof {
        lemma_views_of(obligations@);
    }
    let mut out: Vec<Sexpr> = Vec::new();
    let mut i: usize = 0;
    while i < obligations.len()
        invariant
            i <= obligations.len(),
            ov == views_of(obligations@),
            ov.len() == obligations.len(),
            forall|j: int| 0 <= j < obligations.len() ==> #[trigger] ov[j] == obligations@[j]@,
            views_of(out@) == results_v(*ir, ov.take(i as int)),
        decreases obligations.len() - i,
    {
        let x = verify_obligation(ir, &obligations[i]);
        proof {
            lemma_views_push(out@, x);
            assert(results_v(*ir, ov.take(i + 1)) =~= results_v(*ir, ov.take(i as int)).push(verify_v(*ir, ov[i as int])));
        }
        out.push(x);
        i = i + 1;
    }
    assert(ov.take(obligations.len() as int) =~= ov);
    out
}

fn bundle_items(ir: &Ir) -> (r: Vec<Sexpr>)
    ensures
        views_of(r@) == bundle_items_v(*ir),
{
    let obligations = lower_all_obligations(ir);
    let results = verify_all(ir, &obligations);
    proof {
        lemma_views_of(obligations@);
        lemma_views_of(results@);
    }
    let passed = count_with_exec(results.as_slice(), "status", "passed");
    let failed = count_with_exec(results.as_slice(), "status", "failed");
    let skipped = count_with_exec(results.as_slice(), "status", "skipped");
    let indeterminate = count_with_exec(results.as_slice(), "status", "indeterminate");
    let total = obligations.len();
    let accs = ir.nodes_of_kind("acceptance");
    let ghost accv = accs@.map_values(|n: &IrNode| *n);
    let env_diags = if accs.len() > 0 {
        assert(accv[0] == *accs@[0]);
        let env = extract_execution_env(accs[0]);
        env_diagnostics(&env, accs[0].id.as_str())
    } else {
        none()
    };
    assert(views_of(env_diags@) == first_env_diags(*ir));
    let coverage = coverage_gaps(ir, obligations.as_slice());
    let transition_diags = check_transition_refs(ir);
    let bundle_diags = duplicate_obligation_diagnostics(obligations.as_slice());
    let summary = vec![
        Sexpr::pair("total", Sexpr::Int(total as i64)),
        Sexpr::pair("passed", Sexpr::Int(passed as i64)),
        Sexpr::pair("failed", Sexpr::Int(failed as i64)),
        Sexpr::pair("skipped", Sexpr::Int(skipped as i64)),
        Sexpr::pair("indeterminate", Sexpr::Int(indeterminate as i64)),
    ];
    proof {
        lemma_views_of(summary@);
        let obs = obligations_v(*ir);
        let rs = results_v(*ir, obs);
        assert(views_of(summary@) =~= seq![
            pair_v("total"@, int_v(obs.len() as int)),
            pair_v("passed"@, int_v(count_with(rs, "status"@, "passed"@) as int)),
            pair_v("failed"@, int_v(count_with(rs, "status"@, "failed"@) as int)),
            pair_v("skipped"@, int_v(count_with(rs, "status"@, "skipped"@) as int)),
            pair_v("indeterminate"@, int_v(count_with(rs, "status"@, "indeterminate"@) as int)),
        ]);
    }
    let items = vec![
        Sexpr::pair("schema", Sexpr::Str(owned("gymnast.verify/0.1"))),
        Sexpr::pair("obligations", Sexpr::List(obligations)),
        Sexpr::pair("results", Sexpr::List(results)),
        Sexpr::pair("summary", Sexpr::List(summary)),
        Sexpr::pair("coverage", coverage),
        Sexpr::pair("environment-diagnostics", Sexpr::List(env_diags)),
        Sexpr::pair("transition-diagnostics", Sexpr::List(transition_diags)),
        Sexpr::pair("diagnostics", Sexpr::List(bundle_diags)),
        Sexpr::pair("source-diagnostics", Sexpr::List(crate::ir::clone_sexprs(&ir.diagnostics))),
    ];
    proof {
        lemma_views_of(items@);
        assert(views_of(items@) =~= bundle_items_v(*ir));
    }
    items
}

/// The full verification bundle of `ir` (see `bundle_v`): obligations,
/// their results and summary counts, coverage, diagnostics, and the
/// fingerprint of the fingerprint-free form.
pub fn compile_verification(ir: &Ir) -> (r: Sexpr)
    ensures
        r@ == bundle_v(*ir),
{
    let mut items = bundle_items(ir);
    let base = crate::sexpr::list2(Sexpr::sym("verification-bundle"), Sexpr::List(crate::ir::clone_sexprs(&items)));
    assert(base@ == bundle_base_v(*ir)) by {
        assert(base@->List_0 =~= bundle_base_v(*ir)->List_0);
    }
    let fp = fingerprint(&base);
    let x = Sexpr::pair("fingerprint", Sexpr::Str(fp));
    proof {
        lemma_views_push(items@, x);
    }
    items.push(x);
    let r = crate::sexpr::list2(Sexpr::sym("verification-bundle"), Sexpr::List(items));
    assert(r@->List_0 =~= bundle_v(*ir)->List_0);
    r
}

fn error_messages_in(list: Option<&Sexpr>, out: &mut Vec<String>)
    ensures
        final(out)@.map_values(|s: String| s@) == old(out)@.map_values(|s: String| s@) + errors_in_v(opt_ref_v(list)),
{
    let ghost start = out@.map_values(|s: String| s@);
    let items = match list {
        Some(l) => match l.as_list() {
            Some(items) => items,
            None => {
                assert(out@.map_values(|s: String| s@) =~= start + errors_in_v(opt_ref_v(list)));
                return;
            },
        },
        None => {
            assert(out@.map_values(|s: String| s@) =~= start + errors_in_v(opt_ref_v(list)));
            return;
        },
    };
    let ghost dv = views_of(items@);
    proof {
        lemma_views_of(items@);
    }
    let mut i: usize = 0;
    while i < items.len()
        invariant
            i <= items.len(),
            dv == views_of(items@),
            dv.len() == items.len(),
            forall|j: int| 0 <= j < items.len() ==> #[trigger] dv[j] == items@[j]@,
            out@.map_values(|s: String| s@) == start + error_msgs(dv.take(i as int)),
        decreases items.len() - i,
    {
        let d = &items[i];
        assert(dv.take(i + 1).drop_last() =~= dv.take(i as int));
        assert(dv.take(i + 1).last() == d@);
        let is_error = match d.assoc("severity") {
            Some(sv) => match sv.as_sym() {
                Some(t) => str_eq(t, "error"),
                None => false,
            },
            None => false,
        };
        if is_error {
            let msg: &str = match d.assoc("message") {
                Some(m) => match m.as_str() {
                    Some(t) => t,
                    None => "(no message)",
                },
                None => "(no message)",
            };
            let code = str_field_exec(d, "code");
            let mut line = owned(code);
            push_str(&mut line, " ");
            push_str(&mut line, msg);
            let t = trim(line.as_str());
            let ghost before = out@.map_values(|s: String| s@);
            out.push(t);
            assert(out@.map_values(|s: String| s@) =~= before.push(t@));
        }
        i = i + 1;
    }
    assert(dv.take(items.len() as int) =~= dv);
}

/// Every error-severity diagnostic message anywhere in a bundle (see
/// `bundle_errors_v`); a malformed bundle yields what it holds, never a
/// panic.
pub fn bundle_error_diagnostics(bundle: &Sexpr) -> (r: Vec<String>)
    ensures
        r@.map_values(|s: String| s@) == bundle_errors_v(bundle@),
{
    let inner: &Sexpr = match bundle {
        Sexpr::List(items) => {
            proof {
                lemma_views_of(items@);
            }
            if items.len() == 2 && match items[0].as_sym() {
                Some(h) => str_eq(h, "verification-bundle"),
                None => false,
            } {
                &items[1]
            } else {
                bundle
            }
        },
        _ => bundle,
    };
    assert(inner@ == bundle_inner(bundle@));
    let mut out: Vec<String> = Vec::new();
    assert(out@.map_values(|s: String| s@) =~= Seq::<Seq<char>>::empty());
    error_messages_in(inner.assoc("diagnostics"), &mut out);
    error_messages_in(inner.assoc("transition-diagnostics"), &mut out);
    error_messages_in(inner.assoc("environment-diagnostics"), &mut out);
    error_messages_in(inner.assoc("source-diagnostics"), &mut out);
    let ghost mid = out@.map_values(|s: String| s@);
    match inner.assoc("results") {
        Some(rl) => match rl.as_list() {
            Some(results) => {
                let ghost rv = views_of(results@);
                proof {
                    lemma_views_of(results@);
                }
                let mut i: usize = 0;
                while i < results.len()
                    invariant
                        i <= results.len(),
                        rv == views_of(results@),
                        rv.len() == results.len(),
                        forall|j: int| 0 <= j < results.len() ==> #[trigger] rv[j] == results@[j]@,
                        out@.map_values(|s: String| s@) == mid + result_errors(rv.take(i as int)),
                    decreases results.len() - i,
                {
                    assert(rv.take(i + 1).drop_last() =~= rv.take(i as int));
                    assert(rv.take(i + 1).last() == results@[i as int]@);
                    error_messages_in(results[i].assoc("diagnostics"), &mut out);
                    i = i + 1;
                }
                assert(rv.take(results.len() as int) =~= rv);
            },
            None => {},
        },
        None => {},
    }
    assert(out@.map_values(|s: String| s@) =~= bundle_errors_v(bundle@));
    out
}


// ===================================================================
// Laws.
// ===================================================================

/// An environment draws no determinism warning exactly when it is fully
/// deterministic.
pub proof fn lemma_env_warnings_iff_nondeterministic(env: SexprV, id: Seq<char>)
    ensures
        (env_diags_v(env, id).len() == 0) == env_deterministic_v(env),
{
}

/// Comparing a trace with itself finds no divergence.
pub proof fn lemma_compare_reflexive(rs: Seq<StepV>)
    ensures
        divs_v(rs, rs).len() == 0,
    decreases rs.len(),
{
    if rs.len() > 0 {
        lemma_compare_reflexive(rs.drop_first());
        assert(step_div_v(rs[0], rs[0]) is None);
    }
}

/// Trace comparison reports at most one divergence per compared pair,
/// plus one for a length mismatch.
pub proof fn lemma_compare_bounded(rs: Seq<StepV>, is: Seq<StepV>)
    ensures
        divs_v(rs, is).len() <= (if rs.len() < is.len() { rs.len() } else { is.len() }) + 1,
    decreases rs.len(),
{
    if rs.len() > 0 && is.len() > 0 {
        lemma_compare_bounded(rs.drop_first(), is.drop_first());
    }
}

pub broadcast proof fn lemma_vresult_status(id: Seq<char>, status: Seq<char>, trace: Option<SexprV>, ces: Seq<SexprV>, diags: Seq<SexprV>, basis: Option<bool>)
    ensures
        sym_field(#[trigger] vresult_v(id, status, trace, ces, diags, basis), "status"@) == status,
{
    let items = vresult_v(id, status, trace, ces, diags, basis)->List_0;
    reveal_with_fuel(crate::sexpr::assoc_items, 5);
    reveal_strlit("verification-result");
    reveal_strlit("schema");
    reveal_strlit("obligation-id");
    reveal_strlit("status");
    assert(items[0] == SexprV::Sym("verification-result"@));
    assert(items[1] == pair_v("schema"@, SexprV::Str("gymnast.verify/0.1"@)));
    assert(items[2] == pair_v("obligation-id"@, SexprV::Str(id)));
    assert(items[3] == pair_v("status"@, SexprV::Sym(status)));
    assert(!is_pair_with_key(items[0], "status"@));
    assert("schema"@ != "status"@) by {
        assert("schema"@[1] != "status"@[1]);
    }
    assert(!is_pair_with_key(items[1], "status"@));
    assert("obligation-id"@ != "status"@) by {
        assert("obligation-id"@.len() != "status"@.len());
    }
    assert(!is_pair_with_key(items[2], "status"@));
    assert(is_pair_with_key(items[3], "status"@));
    assert(items.drop_first()[0] == items[1]);
    assert(items.drop_first().drop_first()[0] == items[2]);
    assert(items.drop_first().drop_first().drop_first()[0] == items[3]);
}

proof fn lemma_status_of_result(ir: Ir, ob: SexprV)
    ensures
        ({
            let st = sym_field(verify_v(ir, ob), "status"@);
            st == "passed"@ || st == "failed"@ || st == "skipped"@ || st == "indeterminate"@
        }),
{
    broadcast use lemma_vresult_status;
    reveal(verify_v);
}

proof fn lemma_four_counts(ir: Ir, obs: Seq<SexprV>)
    ensures
        ({
            let rs = results_v(ir, obs);
            count_with(rs, "status"@, "passed"@) + count_with(rs, "status"@, "failed"@) + count_with(rs, "status"@, "skipped"@)
                + count_with(rs, "status"@, "indeterminate"@) == obs.len()
        }),
    decreases obs.len(),
{
    reveal_strlit("passed");
    reveal_strlit("failed");
    reveal_strlit("skipped");
    reveal_strlit("indeterminate");
    if obs.len() > 0 {
        let rs = results_v(ir, obs);
        lemma_four_counts(ir, obs.drop_last());
        assert(rs.drop_last() =~= results_v(ir, obs.drop_last()));
        lemma_status_of_result(ir, obs.last());
        assert(rs.last() == verify_v(ir, obs.last()));
        assert("passed"@ != "failed"@) by { assert("passed"@[0] != "failed"@[0]); }
        assert("passed"@ != "skipped"@) by { assert("passed"@[0] != "skipped"@[0]); }
        assert("passed"@ != "indeterminate"@) by { assert("passed"@[0] != "indeterminate"@[0]); }
        assert("failed"@ != "skipped"@) by { assert("failed"@[0] != "skipped"@[0]); }
        assert("failed"@ != "indeterminate"@) by { assert("failed"@[0] != "indeterminate"@[0]); }
        assert("skipped"@ != "indeterminate"@) by { assert("skipped"@[0] != "indeterminate"@[0]); }
    }
}

/// Every result of a compiled bundle is passed, failed, skipped or
/// indeterminate: the four summary tallies add up to the obligation
/// total.
pub proof fn lemma_summary_partitions(ir: Ir)
    ensures
        ({
            let obs = obligations_v(ir);
            let rs = results_v(ir, obs);
            count_with(rs, "status"@, "passed"@) + count_with(rs, "status"@, "failed"@) + count_with(rs, "status"@, "skipped"@)
                + count_with(rs, "status"@, "indeterminate"@) == obs.len()
        }),
{
    lemma_four_counts(ir, obligations_v(ir));
}

proof fn lemma_summary_of(items: Seq<SexprV>, t: int, p: int, f: int, k: int, n: int)
    requires
        items.len() >= 4,
        items[0] == pair_v("schema"@, items[0]->List_0[1]),
        items[1] == pair_v("obligations"@, items[1]->List_0[1]),
        items[2] == pair_v("results"@, items[2]->List_0[1]),
        items[3] == pair_v("summary"@, SexprV::List(seq![
            pair_v("total"@, SexprV::Int(t)),
            pair_v("passed"@, SexprV::Int(p)),
            pair_v("failed"@, SexprV::Int(f)),
            pair_v("skipped"@, SexprV::Int(k)),
            pair_v("indeterminate"@, SexprV::Int(n)),
        ])),
    ensures
        summary_v(SexprV::List(seq![SexprV::Sym("verification-bundle"@), SexprV::List(items)])) == Some((t, p, f, k, n)),
{
    reveal_with_fuel(crate::sexpr::assoc_items, 6);
    reveal_strlit("schema");
    reveal_strlit("obligations");
    reveal_strlit("results");
    reveal_strlit("summary");
    reveal_strlit("total");
    reveal_strlit("passed");
    reveal_strlit("failed");
    reveal_strlit("skipped");
    reveal_strlit("indeterminate");
    assert("schema"@ != "summary"@) by { assert("schema"@[1] != "summary"@[1]); }
    assert("obligations"@ != "summary"@) by { assert("obligations"@[0] != "summary"@[0]); }
    assert("results"@ != "summary"@) by { assert("results"@[0] != "summary"@[0]); }
    assert(!is_pair_with_key(items[0], "summary"@));
    assert(!is_pair_with_key(items[1], "summary"@));
    assert(!is_pair_with_key(items[2], "summary"@));
    assert(is_pair_with_key(items[3], "summary"@));
    assert(items.drop_first()[0] == items[1]);
    assert(items.drop_first().drop_first()[0] == items[2]);
    assert(items.drop_first().drop_first().drop_first()[0] == items[3]);
    let e = items[3]->List_0[1]->List_0;
    assert("total"@ != "passed"@) by { assert("total"@[0] != "passed"@[0]); }
    assert("total"@ != "failed"@) by { assert("total"@[0] != "failed"@[0]); }
    assert("passed"@ != "failed"@) by { assert("passed"@[0] != "failed"@[0]); }
    assert("total"@ != "skipped"@) by { assert("total"@[0] != "skipped"@[0]); }
    assert("passed"@ != "skipped"@) by { assert("passed"@[0] != "skipped"@[0]); }
    assert("failed"@ != "skipped"@) by { assert("failed"@[0] != "skipped"@[0]); }
    assert("total"@ != "indeterminate"@) by { assert("total"@[0] != "indeterminate"@[0]); }
    assert("passed"@ != "indeterminate"@) by { assert("passed"@[0] != "indeterminate"@[0]); }
    assert("failed"@ != "indeterminate"@) by { assert("failed"@[0] != "indeterminate"@[0]); }
    assert("skipped"@ != "indeterminate"@) by { assert("skipped"@[0] != "indeterminate"@[0]); }
    assert(e.drop_first()[0] == e[1]);
    assert(e.drop_first().drop_first()[0] == e[2]);
    assert(e.drop_first().drop_first().drop_first()[0] == e[3]);
    assert(e.drop_first().drop_first().drop_first().drop_first()[0] == e[4]);
    assert(int_entry(items[3]->List_0[1], "total"@) == Some(t));
    assert(int_entry(items[3]->List_0[1], "passed"@) == Some(p));
    assert(int_entry(items[3]->List_0[1], "failed"@) == Some(f));
    assert(int_entry(items[3]->List_0[1], "skipped"@) == Some(k));
    assert(int_entry(items[3]->List_0[1], "indeterminate"@) == Some(n));
}

/// Reading the summary of a compiled bundle gives back the counts it was
/// built with.
pub proof fn lemma_summary_reads_back(ir: Ir)
    ensures
        ({
            let obs = obligations_v(ir);
            let rs = results_v(ir, obs);
            summary_v(bundle_v(ir)) == Some((
                int_v(obs.len() as int)->Int_0,
                int_v(count_with(rs, "status"@, "passed"@) as int)->Int_0,
                int_v(count_with(rs, "status"@, "failed"@) as int)->Int_0,
                int_v(count_with(rs, "status"@, "skipped"@) as int)->Int_0,
                int_v(count_with(rs, "status"@, "indeterminate"@) as int)->Int_0,
            ))
        }),
{
    let obs = obligations_v(ir);
    let rs = results_v(ir, obs);
    let items = bundle_v(ir)->List_0[1]->List_0;
    assert(bundle_v(ir) == SexprV::List(seq![SexprV::Sym("verification-bundle"@), SexprV::List(items)]));
    lemma_summary_of(items,
        int_v(obs.len() as int)->Int_0,
        int_v(count_with(rs, "status"@, "passed"@) as int)->Int_0,
        int_v(count_with(rs, "status"@, "failed"@) as int)->Int_0,
        int_v(count_with(rs, "status"@, "skipped"@) as int)->Int_0,
        int_v(count_with(rs, "status"@, "indeterminate"@) as int)->Int_0);
}

/// The fingerprint a compiled bundle carries is the fingerprint of the
/// bundle with that entry taken out.
pub proof fn lemma_bundle_fingerprint_covers_rest(ir: Ir)
    ensures
        ({
            let items = bundle_v(ir)->List_0[1]->List_0;
            &&& items.last() == pair_v("fingerprint"@, SexprV::Str(fingerprint_text(print_v(
                SexprV::List(seq![SexprV::Sym("verification-bundle"@), SexprV::List(items.drop_last())])))))
        }),
{
    let items = bundle_v(ir)->List_0[1]->List_0;
    assert(items.drop_last() =~= bundle_items_v(ir));
}

} // verus!
