use lib::diag::diag_sexpr;
use lib::ir::{Ir, IrNode};
use lib::plan::{
    coverage_diagnostics, coverage_entries, default_model, dependency_diagnostics, extension_for, plan,
    rewrite_extension, target_language, PlanNode,
};
use lib::sexpr::Sexpr;

fn type_node(id: &str, name: &str) -> IrNode {
    IrNode::new(id.to_string(), "type", name.to_string(), vec![], vec![])
}

fn minimal_ir() -> Ir {
    Ir::new(
        "gymnast.ir/0.1".to_string(),
        "m".to_string(),
        vec![],
        vec![type_node("m/type/Foo", "Foo")],
        vec![],
        vec![],
        vec![],
        vec![],
    )
}

#[test]
fn test_default_target_and_model_no_synthesis_node() {
    let ir = minimal_ir();
    let p = plan(&ir);
    assert_eq!(p.target, Sexpr::list(vec![Sexpr::sym("lamedh")]));
    for node in &p.nodes {
        if node.class == "generative" {
            assert_eq!(node.model, default_model());
        } else {
            assert_eq!(node.model, Sexpr::sym("none"));
        }
    }
}

#[test]
fn test_eight_nodes_in_table_order() {
    let ir = minimal_ir();
    let p = plan(&ir);
    assert_eq!(p.nodes.len(), 8);
    let expected_locals = [
        "design-contracts",
        "transition-kernel",
        "authorization-policy",
        "persistence",
        "interface-contracts",
        "service-handlers",
        "acceptance-harness",
        "application-assembly",
    ];
    for (node, local) in p.nodes.iter().zip(expected_locals.iter()) {
        assert_eq!(node.id, format!("m/plan/{}", local));
    }
}

#[test]
fn test_ir_fingerprint_binding() {
    let ir = minimal_ir();
    let p = plan(&ir);
    assert_eq!(p.ir_fingerprint, ir.fingerprint);
}

#[test]
fn test_coverage_totality_minimal_ir() {
    let ir = minimal_ir();
    let p = plan(&ir);
    assert_eq!(p.coverage.len(), ir.all_nodes().len());
    for (_, plan_ids) in &p.coverage {
        assert!(!plan_ids.is_empty());
    }
    assert!(p.diagnostics.is_empty());
}

#[test]
fn test_invalid_ir_refusal() {
    let bad_diag = diag_sexpr("error", "E301", (0, 0), "duplicate id".to_string());
    let ir = Ir::new(
        "gymnast.ir/0.1".to_string(),
        "bad".to_string(),
        vec![],
        vec![],
        vec![],
        vec![],
        vec![],
        vec![bad_diag],
    );
    let p = plan(&ir);
    assert!(p.nodes.is_empty());
    assert!(p.coverage.is_empty());
    assert_eq!(p.diagnostics.len(), 1);
}

#[test]
fn test_no_missing_dependency_diagnostics_on_fixed_table() {
    let ir = minimal_ir();
    let p = plan(&ir);
    assert!(dependency_diagnostics(&p.nodes).is_empty());
}

#[test]
fn test_extension_map_total_default() {
    assert_eq!(extension_for(Some("ruby")), ".rb");
    assert_eq!(extension_for(Some("go")), ".go");
    assert_eq!(extension_for(Some("java")), ".java");
    assert_eq!(extension_for(Some("python")), ".py");
    assert_eq!(extension_for(Some("typescript")), ".ts");
    assert_eq!(extension_for(Some("javascript")), ".js");
    assert_eq!(extension_for(Some("rust")), ".rs");
    assert_eq!(extension_for(Some("cobol")), ".lisp");
    assert_eq!(extension_for(None), ".lisp");
}

#[test]
fn test_rewrite_extension_only_lisp_suffix() {
    assert_eq!(rewrite_extension("a/b.lisp", ".rb"), "a/b.rb");
    assert_eq!(rewrite_extension("a/b.sexpr", ".rb"), "a/b.sexpr");
}

#[test]
fn test_target_language_bare_symbol_and_list() {
    assert_eq!(target_language(&Sexpr::sym("lamedh")), Some("lamedh".to_string()));
    assert_eq!(
        target_language(&Sexpr::list(vec![Sexpr::sym("ruby"), Sexpr::sym("rails")])),
        Some("ruby".to_string())
    );
}

fn node_with_inputs(inputs: Vec<String>) -> PlanNode {
    PlanNode::new(
        "m/plan/x".to_string(),
        "generative",
        "recipe-v1",
        inputs,
        vec![],
        Sexpr::sym("lamedh"),
        Sexpr::sym("none"),
        vec![],
        vec![],
        vec![],
        vec![],
    )
}

#[test]
fn test_plan_node_new_sorts_and_permutation_invariant_fingerprint() {
    let a = node_with_inputs(vec!["m/type/B".to_string(), "m/type/A".to_string()]);
    assert_eq!(a.inputs, vec!["m/type/A".to_string(), "m/type/B".to_string()]);
}

#[test]
fn test_plan_to_sexpr_round_trip_reprints() {
    let ir = minimal_ir();
    let p = plan(&ir);
    let s = p.to_sexpr().print();
    assert!(s.starts_with("(plan "));
    assert!(s.contains("gymnast.plan/0.1"));
}

#[test]
fn permuted_inputs_give_the_same_fingerprint() {
    let a = node_with_inputs(vec!["m/type/B".to_string(), "m/type/A".to_string()]);
    let b = node_with_inputs(vec!["m/type/A".to_string(), "m/type/B".to_string()]);
    assert_eq!(a.fingerprint, b.fingerprint);
    assert!(a.verify_fingerprint());
}

#[test]
fn refused_plan_carries_e401() {
    let bad_diag = diag_sexpr("error", "E301", (0, 0), "duplicate id".to_string());
    let ir = Ir::new("gymnast.ir/0.1".to_string(), "bad".to_string(), vec![], vec![], vec![], vec![], vec![], vec![bad_diag]);
    let p = plan(&ir);
    assert_eq!(p.target, Sexpr::list(vec![Sexpr::sym("lamedh")]));
    assert_eq!(
        p.diagnostics[0].print(),
        "(diagnostic (severity error) (code \"E401\") (span 0 0) (message \"planning refused: input IR carries one or more error-severity diagnostics\"))"
    );
}

#[test]
fn unknown_dependency_gives_e402() {
    let n = PlanNode::new(
        "m/plan/a".to_string(),
        "generative",
        "r",
        vec![],
        vec!["m/plan/ghost".to_string()],
        Sexpr::sym("lamedh"),
        Sexpr::sym("none"),
        vec![],
        vec![],
        vec![],
        vec![],
    );
    let d = dependency_diagnostics(&[n]);
    assert_eq!(d.len(), 1);
    assert_eq!(d[0].assoc("code"), Some(&Sexpr::Str("E402".to_string())));
    assert_eq!(
        d[0].assoc("message"),
        Some(&Sexpr::Str("plan node m/plan/a depends on unknown plan node m/plan/ghost".to_string()))
    );
}

#[test]
fn uncovered_ir_node_gives_e403() {
    let ir = Ir::new(
        "gymnast.ir/0.1".to_string(),
        "m".to_string(),
        vec![],
        vec![],
        vec![],
        vec![IrNode::new("m/x/Odd".to_string(), "oddity", "Odd".to_string(), vec![], vec![])],
        vec![],
        vec![],
    );
    let p = plan(&ir);
    let cov = coverage_entries(&ir, &p.nodes);
    assert_eq!(cov, vec![("m/x/Odd".to_string(), vec![])]);
    let d = coverage_diagnostics(&cov);
    assert_eq!(d.len(), 1);
    assert_eq!(
        d[0].assoc("message"),
        Some(&Sexpr::Str("semantic node m/x/Odd has no implementation or evidence path".to_string()))
    );
}
