use lib::assembly::{
    assemble_bundle, bool_of, bool_sexpr, collect_artifacts, default_promotion_policy, dependency_lock, diagnostic,
    evaluate_promotion, is_error_diagnostic, validate_artifacts, validate_capability_edges, verification_checks,
    verify_bundle_fingerprint, Artifact,
};
use lib::ir::{Ir, IrNode};
use lib::plan::{plan, Plan, PlanNode};
use lib::recipe::{ExecutionResult, ExecutionStatus};
use lib::sexpr::Sexpr;
use lib::sexpr_parse::parse;

fn node(id: &str, inputs: Vec<&str>, may_write: Vec<&str>, caps: Vec<&str>, prohibs: Vec<&str>) -> PlanNode {
    PlanNode::new(
        id.to_string(),
        "generative",
        "r",
        inputs.into_iter().map(|s| s.to_string()).collect(),
        vec![],
        Sexpr::sym("ruby"),
        Sexpr::sym("none"),
        may_write.into_iter().map(|s| s.to_string()).collect(),
        caps.into_iter().map(|s| s.to_string()).collect(),
        vec![],
        prohibs.into_iter().map(|s| s.to_string()).collect(),
    )
}

fn empty_ir() -> Ir {
    Ir::new("gymnast.ir/0.1".to_string(), "m".to_string(), vec![], vec![], vec![], vec![], vec![], vec![])
}

fn plan_with(nodes: Vec<PlanNode>) -> Plan {
    let mut p = plan(&empty_ir());
    p.nodes = nodes;
    p
}

#[test]
fn test_bool_sexpr_prints_t_and_nil() {
    assert_eq!(bool_sexpr(true).print(), "t");
    assert_eq!(bool_sexpr(false).print(), "nil");
}

#[test]
fn test_bool_of_is_fail_closed() {
    assert!(bool_of(Some(&Sexpr::sym("t"))));
    assert!(!bool_of(Some(&Sexpr::List(vec![]))));
    assert!(!bool_of(Some(&Sexpr::Str("t".to_string()))));
    assert!(!bool_of(None));
}

#[test]
fn test_is_error_diagnostic_fail_closed_on_unreadable() {
    assert!(is_error_diagnostic(&diagnostic("error", "c", "s", "m")));
    assert!(!is_error_diagnostic(&diagnostic("warning", "c", "s", "m")));
    let flat = lib::diag::diag_sexpr("error", "E999", (0, 0), "x".to_string());
    assert!(is_error_diagnostic(&flat));
    assert!(is_error_diagnostic(&Sexpr::sym("garbage")));
}

#[test]
fn test_evaluate_promotion_total_on_garbage_inputs() {
    let result = evaluate_promotion(&Sexpr::sym("junk"), &Sexpr::Int(7));
    assert_eq!(
        result.print(),
        "(promotion-result ((policy nil) (decision hold) (checks \
         ((no-error-diagnostics nil) (all-artifacts-present nil) \
         (all-nodes-succeeded nil) (verification-passed nil) \
         (no-indeterminate-verification nil) (traceability-complete nil)))))"
    );
}

#[test]
fn test_collect_artifacts_skips_malformed_file_entries() {
    let candidate =
        parse(r#"(candidate ((files (("ok.rb" "body") ("no-content") (17) not-a-pair))))"#).expect("candidate parses");
    let results = vec![ExecutionResult {
        node_id: "m/plan/a".to_string(),
        status: ExecutionStatus::Succeeded,
        candidate: Some(candidate),
        recipe_identity: None,
        diagnostics: vec![],
    }];
    let artifacts = collect_artifacts(&results);
    assert_eq!(artifacts.len(), 1);
    assert_eq!(artifacts[0].path, "ok.rb");
    assert_eq!(artifacts[0].size, 4);
}

#[test]
fn test_verification_checks_fail_closed_on_unreadable_summary() {
    let body = parse(r#"((verification (verification-bundle ((schema "gymnast.verify/0.1")))))"#).expect("body parses");
    assert_eq!(verification_checks(Some(&body)), (false, false));
}

#[test]
fn failed_results_contribute_no_artifacts() {
    let candidate = parse(r#"(candidate ((files (("x.rb" "héllo")))))"#).unwrap();
    let ok = ExecutionResult {
        node_id: "a".to_string(),
        status: ExecutionStatus::Succeeded,
        candidate: Some(candidate.clone()),
        recipe_identity: None,
        diagnostics: vec![],
    };
    let bad = ExecutionResult {
        node_id: "b".to_string(),
        status: ExecutionStatus::Failed,
        candidate: Some(candidate),
        recipe_identity: None,
        diagnostics: vec![],
    };
    let arts = collect_artifacts(&[ok, bad]);
    assert_eq!(arts.len(), 1);
    assert_eq!(arts[0].node_id, "a");
    assert_eq!(arts[0].size, 6);
    assert_eq!(arts[0].digest, lib::fingerprint::fingerprint_string("héllo"));
}

#[test]
fn untracked_then_missing_artifacts() {
    let p = plan_with(vec![node("n", vec![], vec!["a.rb", "b.rb"], vec![], vec![])]);
    let arts = vec![Artifact { path: "c.rb".to_string(), node_id: "n".to_string(), digest: "d".to_string(), size: 1 }];
    let d = validate_artifacts(&p, &arts);
    assert_eq!(d.len(), 3);
    assert_eq!(d[0], diagnostic("error", "untracked-artifact", "c.rb", "artifact not declared in any plan node"));
    assert_eq!(d[1], diagnostic("warning", "missing-artifact", "a.rb", "declared artifact not produced"));
    assert_eq!(d[2], diagnostic("warning", "missing-artifact", "b.rb", "declared artifact not produced"));
}

#[test]
fn prohibited_capabilities_are_reported_per_occurrence() {
    let p = plan_with(vec![node("n1", vec![], vec![], vec!["db", "net"], vec![]), node("n2", vec![], vec![], vec!["db"], vec!["db"])]);
    let d = validate_capability_edges(&p);
    assert_eq!(d.len(), 2);
    assert_eq!(d[0], diagnostic("error", "prohibited-capability", "db", "capability is both used and prohibited"));
}

#[test]
fn assembled_bundle_verifies_and_tampering_is_detected() {
    let ty = IrNode::new("m/type/T".to_string(), "type", "T".to_string(), vec![], vec![]);
    let ir = Ir::new("s".to_string(), "m".to_string(), vec![], vec![ty], vec![], vec![], vec![], vec![]);
    let p = plan_with(vec![node("n", vec!["m/type/T"], vec![], vec![], vec![])]);
    let results = vec![ExecutionResult {
        node_id: "n".to_string(),
        status: ExecutionStatus::Succeeded,
        candidate: None,
        recipe_identity: None,
        diagnostics: vec![],
    }];
    let bundle = assemble_bundle(&ir, &p, &results, None);
    assert!(verify_bundle_fingerprint(&bundle));
    let tampered = parse(&bundle.print().replace("(failed-nodes 0)", "(failed-nodes 1)")).unwrap();
    assert!(!verify_bundle_fingerprint(&tampered));
    let result = evaluate_promotion(&default_promotion_policy(), &bundle);
    assert_eq!(
        result.print(),
        "(promotion-result ((policy default) (decision promote) (checks \
         ((no-error-diagnostics t) (all-artifacts-present t) \
         (all-nodes-succeeded t) (verification-passed t) \
         (no-indeterminate-verification t) (traceability-complete t)))))"
    );
    let lock = dependency_lock(&p);
    assert!(lock.print().starts_with("(dependency-lock ((plan-fingerprint "));
}

#[test]
fn shadowed_verification_field_fails_closed() {
    let body = parse("((verification nil) (verification nil))").unwrap();
    assert_eq!(verification_checks(Some(&body)), (false, false));
    let single = parse("((verification nil))").unwrap();
    assert_eq!(verification_checks(Some(&single)), (true, true));
}
