use lib::ir::{Ir, IrNode};
use lib::sexpr::Sexpr;
use lib::transition::TraceStep;
use lib::verify::{
    bundle_error_diagnostics, bundle_summary, compare_traces, compile_verification, coverage_gaps, env_deterministic,
    env_diagnostics, extract_execution_env, lower_all_obligations, normalize_counterexample, normalize_counterexamples,
    trace_equivalence_result, verify_obligation, VerificationSummary,
};

fn nil() -> Sexpr {
    Sexpr::List(vec![])
}

fn behavior(id: &str, on: Sexpr, writes: Vec<&str>) -> IrNode {
    IrNode::new(
        id.to_string(),
        "behavior",
        "x".to_string(),
        vec![
            (":on".to_string(), on),
            (":writes".to_string(), Sexpr::List(writes.into_iter().map(Sexpr::sym).collect())),
        ],
        vec![],
    )
}

fn empty_ir() -> Ir {
    Ir::new("gymnast.ir/0.1".to_string(), "m".to_string(), vec![], vec![], vec![], vec![], vec![], vec![])
}

fn node(id: &str, kind: &str, name: &str, fields: Vec<(&str, Sexpr)>, clauses: Vec<Sexpr>) -> IrNode {
    IrNode::new(
        id.to_string(),
        kind,
        name.to_string(),
        fields.into_iter().map(|(k, v)| (k.to_string(), v)).collect(),
        clauses,
    )
}

fn status_of(result: &Sexpr) -> String {
    result.assoc("status").and_then(|s| s.as_sym()).unwrap_or("").to_string()
}

fn step(outcome: Sexpr) -> TraceStep {
    TraceStep {
        transition_id: "t".to_string(),
        actor: None,
        input: None,
        pre_state: vec![],
        post_state: vec![],
        result: None,
        outcome,
        symbolic: false,
    }
}

#[test]
fn extract_execution_env_is_total_with_no_clauses() {
    let node = IrNode::new("m/acceptance/x".to_string(), "acceptance", "x".to_string(), vec![], vec![]);
    let env = extract_execution_env(&node);
    assert_eq!(env.assoc("clock"), Some(&Sexpr::sym("system")));
    assert_eq!(env.assoc("locale"), Some(&Sexpr::Str("en-US".to_string())));
    assert!(!env_deterministic(&env));
    assert_eq!(env_diagnostics(&env, "m/acceptance/x").len(), 3);
}

#[test]
fn lower_all_obligations_is_total_over_an_empty_ir() {
    let ir = empty_ir();
    assert!(lower_all_obligations(&ir).is_empty());
    assert_eq!(compile_verification(&ir).print().contains("verification-bundle"), true);
}

#[test]
fn coverage_gaps_nil_with_no_coverage_obligation() {
    let ir = empty_ir();
    assert_eq!(coverage_gaps(&ir, &[]), nil());
}

#[test]
fn compare_traces_bounded_and_total_over_mismatched_lengths() {
    let step = TraceStep {
        transition_id: "t".to_string(),
        actor: None,
        input: None,
        pre_state: vec![],
        post_state: vec![],
        result: None,
        outcome: Sexpr::List(vec![Sexpr::sym("succeeded")]),
        symbolic: false,
    };
    let divs = compare_traces(&[step.clone(), step.clone()], &[step]);
    assert_eq!(divs.len(), 1);
    assert_eq!(divs[0].assoc("type").and_then(|s| s.as_sym()), Some("missing-implementation-steps"));
}

#[test]
fn verify_obligation_is_total_on_a_hand_built_unknown_kind() {
    let ir = empty_ir();
    let ob = Sexpr::List(vec![
        Sexpr::sym("verification-obligation"),
        Sexpr::pair("id", Sexpr::Str("m/x/y".to_string())),
        Sexpr::pair("kind", Sexpr::sym("something-unrecognized")),
    ]);
    let result = verify_obligation(&ir, &ob);
    assert_eq!(status_of(&result), "skipped");
}

#[test]
fn make_behavior_node_helper_is_reachable() {
    let node = behavior("m/behavior/x", Sexpr::sym("svc/op"), vec!["out"]);
    assert_eq!(node.kind, "behavior");
}

#[test]
fn deterministic_execution_clause_draws_no_warning() {
    let clause = Sexpr::List(vec![
        Sexpr::sym("execution"),
        Sexpr::sym(":clock"),
        Sexpr::sym("virtual"),
        Sexpr::sym(":randomness"),
        Sexpr::sym("seeded"),
        Sexpr::sym(":network"),
        Sexpr::sym("controlled"),
    ]);
    let acc = node("m/acceptance/a", "acceptance", "a", vec![], vec![clause]);
    let env = extract_execution_env(&acc);
    assert!(env_deterministic(&env));
    assert!(env_diagnostics(&env, "m/acceptance/a").is_empty());
    assert_eq!(env.assoc("timezone"), Some(&Sexpr::Str("UTC".to_string())));
}

#[test]
fn env_warning_names_the_acceptance_node() {
    let acc = node("m/acceptance/a", "acceptance", "a", vec![], vec![]);
    let env = extract_execution_env(&acc);
    let diags = env_diagnostics(&env, "m/acceptance/a");
    assert_eq!(
        diags[0].assoc("message"),
        Some(&Sexpr::Str("clock is not virtual for m/acceptance/a; traces may not reproduce".to_string()))
    );
    assert_eq!(diags[1].assoc("code"), Some(&Sexpr::Str("non-deterministic-randomness".to_string())));
}

#[test]
fn acceptance_clauses_lower_in_order_then_invariants_and_constraints() {
    let property = Sexpr::List(vec![
        Sexpr::sym("property"),
        Sexpr::sym("p1"),
        Sexpr::sym(":execute"),
        Sexpr::List(vec![Sexpr::sym("op")]),
    ]);
    let execution = Sexpr::List(vec![Sexpr::sym("execution")]);
    let coverage = Sexpr::List(vec![Sexpr::sym("coverage"), Sexpr::sym(":every_transition"), Sexpr::sym("t")]);
    let acc = node("m/acceptance/a", "acceptance", "a", vec![], vec![property, execution, coverage]);
    let inv = node("m/invariant/i", "invariant", "i", vec![(":always", Sexpr::sym("ok"))], vec![]);
    let con = node("m/constraint/c", "constraint", "c", vec![(":must", Sexpr::sym("fast"))], vec![]);
    let ir = Ir::new("s".to_string(), "m".to_string(), vec![], vec![], vec![], vec![acc, inv, con], vec![], vec![]);
    let obs = lower_all_obligations(&ir);
    assert_eq!(obs.len(), 4);
    assert_eq!(obs[0].assoc("id"), Some(&Sexpr::Str("m/acceptance/a/property/p1".to_string())));
    assert_eq!(obs[0].assoc("execute"), Some(&Sexpr::List(vec![Sexpr::sym("op")])));
    assert_eq!(obs[0].assoc("generate"), Some(&nil()));
    assert_eq!(obs[1].assoc("id"), Some(&Sexpr::Str("m/acceptance/a/coverage".to_string())));
    assert_eq!(obs[1].assoc("every_transition"), Some(&Sexpr::sym("t")));
    assert_eq!(obs[2].assoc("id"), Some(&Sexpr::Str("m/invariant/i/invariant-check".to_string())));
    assert_eq!(obs[2].assoc("predicate"), Some(&Sexpr::sym("ok")));
    assert_eq!(obs[3].assoc("id"), Some(&Sexpr::Str("m/constraint/c/constraint-check".to_string())));
    assert_eq!(obs[3].assoc("assertion"), Some(&Sexpr::sym("fast")));
}

#[test]
fn invariant_obligation_passes_fails_and_stays_undecided() {
    let ir = empty_ir();
    let make = |pred: Sexpr| {
        Sexpr::List(vec![
            Sexpr::sym("verification-obligation"),
            Sexpr::pair("id", Sexpr::Str("m/invariant/i/invariant-check".to_string())),
            Sexpr::pair("kind", Sexpr::sym("invariant")),
            Sexpr::pair("predicate", pred),
        ])
    };
    let holds = make(Sexpr::List(vec![Sexpr::sym("="), Sexpr::Int(1), Sexpr::Int(1)]));
    let fails = make(Sexpr::List(vec![Sexpr::sym("="), Sexpr::Int(1), Sexpr::Int(2)]));
    let unknown = make(Sexpr::sym("whatever"));
    let r1 = verify_obligation(&ir, &holds);
    assert_eq!(status_of(&r1), "passed");
    assert_eq!(r1.assoc("basis"), Some(&Sexpr::sym("checked")));
    let r2 = verify_obligation(&ir, &fails);
    assert_eq!(status_of(&r2), "failed");
    let ces = r2.assoc("counterexamples").and_then(|c| c.as_list()).unwrap();
    assert_eq!(ces.len(), 1);
    assert_eq!(ces[0].assoc("divergence-type"), Some(&Sexpr::sym("invariant-violation")));
    let r3 = verify_obligation(&ir, &unknown);
    assert_eq!(status_of(&r3), "indeterminate");
    assert_eq!(r3.assoc("basis"), Some(&Sexpr::sym("symbolic")));
}

#[test]
fn property_without_execute_is_skipped_with_a_warning() {
    let ir = empty_ir();
    let ob = Sexpr::List(vec![
        Sexpr::sym("verification-obligation"),
        Sexpr::pair("id", Sexpr::Str("a/property/p".to_string())),
        Sexpr::pair("kind", Sexpr::sym("property")),
        Sexpr::pair("execute", nil()),
    ]);
    let r = verify_obligation(&ir, &ob);
    assert_eq!(status_of(&r), "skipped");
    let diags = r.assoc("diagnostics").and_then(|d| d.as_list()).unwrap();
    assert_eq!(diags[0].assoc("code"), Some(&Sexpr::Str("no-execute-spec".to_string())));
    assert_eq!(
        diags[0].assoc("message"),
        Some(&Sexpr::Str("property a/property/p has no execute clause".to_string()))
    );
}

#[test]
fn property_with_an_unmatched_step_fails() {
    let ir = empty_ir();
    let ob = Sexpr::List(vec![
        Sexpr::sym("verification-obligation"),
        Sexpr::pair("id", Sexpr::Str("a/property/p".to_string())),
        Sexpr::pair("kind", Sexpr::sym("property")),
        Sexpr::pair("execute", Sexpr::List(vec![Sexpr::sym("nothing")])),
    ]);
    let r = verify_obligation(&ir, &ob);
    assert_eq!(status_of(&r), "failed");
    let ces = r.assoc("counterexamples").and_then(|c| c.as_list()).unwrap();
    assert_eq!(ces.len(), 1);
}

#[test]
fn scenario_without_when_steps_is_skipped() {
    let ir = empty_ir();
    let ob = Sexpr::List(vec![
        Sexpr::sym("verification-obligation"),
        Sexpr::pair("id", Sexpr::Str("a/scenario/s".to_string())),
        Sexpr::pair("kind", Sexpr::sym("scenario")),
        Sexpr::pair("steps", Sexpr::List(vec![Sexpr::List(vec![Sexpr::sym("given"), Sexpr::sym("x")])])),
    ]);
    let r = verify_obligation(&ir, &ob);
    assert_eq!(status_of(&r), "skipped");
}

#[test]
fn deferred_kinds_name_their_kind() {
    let ir = empty_ir();
    let ob = Sexpr::List(vec![
        Sexpr::sym("verification-obligation"),
        Sexpr::pair("id", Sexpr::Str("a/fault/f".to_string())),
        Sexpr::pair("kind", Sexpr::sym("fault")),
    ]);
    let r = verify_obligation(&ir, &ob);
    let diags = r.assoc("diagnostics").and_then(|d| d.as_list()).unwrap();
    assert_eq!(
        diags[0].assoc("message"),
        Some(&Sexpr::Str("verification of fault obligation a/fault/f requires runtime execution".to_string()))
    );
    let no_kind = Sexpr::List(vec![Sexpr::sym("verification-obligation")]);
    let r2 = verify_obligation(&ir, &no_kind);
    let d2 = r2.assoc("diagnostics").and_then(|d| d.as_list()).unwrap();
    assert_eq!(
        d2[0].assoc("message"),
        Some(&Sexpr::Str("verification of unknown-kind obligation  requires runtime execution".to_string()))
    );
}

#[test]
fn identical_traces_are_equivalent() {
    let ir = empty_ir();
    let trace = lib::transition::execute_trace(&ir, &[Sexpr::List(vec![Sexpr::sym("op")])]);
    let again = lib::transition::execute_trace(&ir, &[Sexpr::List(vec![Sexpr::sym("op")])]);
    let r = trace_equivalence_result(&ir, &trace, &again, "ob");
    assert_eq!(r.assoc("equivalent"), Some(&Sexpr::sym("t")));
    assert_eq!(r.assoc("divergences"), Some(&nil()));
}

#[test]
fn outcome_mismatch_normalizes_with_expected_and_actual() {
    let a = step(Sexpr::List(vec![Sexpr::sym("succeeded")]));
    let b = step(Sexpr::List(vec![Sexpr::sym("precondition-failed")]));
    let divs = compare_traces(&[a], &[b]);
    assert_eq!(divs.len(), 1);
    assert_eq!(divs[0].assoc("type"), Some(&Sexpr::sym("outcome-mismatch")));
    let n = normalize_counterexample(&divs[0], "ob");
    assert_eq!(n.assoc("expected"), Some(&Sexpr::List(vec![Sexpr::sym("succeeded")])));
    assert_eq!(n.assoc("actual"), Some(&Sexpr::List(vec![Sexpr::sym("precondition-failed")])));
    assert_eq!(n.assoc("operation"), Some(&Sexpr::Str("t".to_string())));
    assert_eq!(normalize_counterexamples(&divs, "ob").len(), 1);
}

#[test]
fn extra_implementation_steps_are_counted() {
    let a = step(Sexpr::List(vec![Sexpr::sym("succeeded")]));
    let divs = compare_traces(&[], &[a.clone(), a]);
    assert_eq!(divs.len(), 1);
    assert_eq!(divs[0].assoc("count"), Some(&Sexpr::Int(2)));
    let n = normalize_counterexample(&divs[0], "ob");
    assert_eq!(n.assoc("operation"), Some(&nil()));
}

#[test]
fn coverage_reports_uncovered_transitions() {
    let b = behavior("m/behavior/b", Sexpr::sym("svc/op"), vec![]);
    let ir = Ir::new("s".to_string(), "m".to_string(), vec![], vec![], vec![b], vec![], vec![], vec![]);
    let cov = Sexpr::List(vec![
        Sexpr::sym("verification-obligation"),
        Sexpr::pair("kind", Sexpr::sym("coverage")),
        Sexpr::pair("every_transition", Sexpr::sym("t")),
    ]);
    let r = coverage_gaps(&ir, &[cov]);
    assert_eq!(r.assoc("transitions-defined"), Some(&Sexpr::Int(1)));
    assert_eq!(r.assoc("total-obligations"), Some(&Sexpr::Int(0)));
    let gaps = r.assoc("gaps").and_then(|g| g.as_list()).unwrap();
    assert_eq!(gaps.len(), 1);
    assert_eq!(
        gaps[0],
        Sexpr::List(vec![Sexpr::sym("gap"), Sexpr::sym("uncovered-transitions"), Sexpr::Int(1)])
    );
}

#[test]
fn bundle_summary_reads_back_and_errors_surface() {
    let inv = node("m/invariant/i", "invariant", "i", vec![(":always", Sexpr::sym("x"))], vec![]);
    let prop = Sexpr::List(vec![Sexpr::sym("property"), Sexpr::sym("p")]);
    let acc1 = node("m/acceptance/a", "acceptance", "a", vec![], vec![prop.clone(), prop]);
    let ir = Ir::new("s".to_string(), "m".to_string(), vec![], vec![], vec![], vec![acc1, inv], vec![], vec![]);
    let bundle = compile_verification(&ir);
    let summary = bundle_summary(&bundle).unwrap();
    assert_eq!(
        summary,
        VerificationSummary { total: 3, passed: 0, failed: 0, skipped: 2, indeterminate: 1 }
    );
    let errors = bundle_error_diagnostics(&bundle);
    assert_eq!(errors, vec!["E601 duplicate-obligation-id: m/acceptance/a/property/p".to_string()]);
    assert!(bundle.print().contains("(fingerprint \"fnv1a64:"));
    assert_eq!(bundle_summary(&nil()), None);
}
