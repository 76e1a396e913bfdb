use lib::candidate::candidate_diagnostics;
use lib::ir::{Ir, IrNode};
use lib::plan::{plan, PlanNode};
use lib::recipe::{
    application_assembly_executor, design_contracts_executor, emit_operation_signature, emit_type_declaration,
    execute_deterministic, execute_recipe, lookup, to_pascal_case, ExecutionResult, ExecutionStatus, RecipeClass,
};
use lib::sexpr::Sexpr;
use lib::transition::keyword_value;

fn ruby_node(id: &str, recipe: &str, inputs: Vec<String>, may_write: Vec<String>) -> PlanNode {
    PlanNode::new(
        id.to_string(),
        "structural",
        recipe,
        inputs,
        vec![],
        Sexpr::list(vec![Sexpr::sym("ruby"), Sexpr::sym("rails")]),
        Sexpr::sym("none"),
        may_write,
        vec![],
        vec![],
        vec![],
    )
}

fn empty_ir() -> Ir {
    Ir::new("gymnast.ir/0.1".to_string(), "m".to_string(), vec![], vec![], vec![], vec![], vec![], vec![])
}

#[test]
fn test_to_pascal_case() {
    assert_eq!(to_pascal_case("todo"), "Todo");
    assert_eq!(to_pascal_case("date_only"), "DateOnly");
    assert_eq!(to_pascal_case(""), "");
}

#[test]
fn test_keyword_value_finds_and_misses() {
    let items = vec![Sexpr::sym(":actor"), Sexpr::sym("user"), Sexpr::sym(":output"), Sexpr::sym("Task")];
    assert_eq!(keyword_value(&items, ":actor").unwrap().as_sym(), Some("user"));
    assert!(keyword_value(&items, ":input").is_none());
}

#[test]
fn test_design_contracts_executor_produces_valid_candidate_shape() {
    let type_node = IrNode::new(
        "m/type/Foo".to_string(),
        "type",
        "Foo".to_string(),
        vec![(":opaque".to_string(), Sexpr::sym("text"))],
        vec![],
    );
    let ir_slice: Vec<&IrNode> = vec![&type_node];
    let node = ruby_node(
        "m/plan/design-contracts",
        "design-contracts-v1",
        vec!["m/type/Foo".to_string()],
        vec!["generated/design/contracts.rb".to_string()],
    );
    let candidate = design_contracts_executor(&ir_slice, &node);
    let diags = candidate_diagnostics(&node, &candidate);
    assert!(diags.is_empty(), "{:?}", diags);
}

#[test]
fn test_execute_recipe_unknown_recipe_e509() {
    let ir = empty_ir();
    let node = ruby_node("m/plan/x", "nonexistent-v1", vec![], vec![]);
    let result = execute_recipe(&ir, &node);
    assert_eq!(result.status, ExecutionStatus::Failed);
    assert!(result.candidate.is_none());
    assert!(result.diagnostics.iter().any(|d| d.assoc("code").and_then(|c| c.as_str()) == Some("E509")));
}

#[test]
fn test_execute_recipe_generative_is_deferred() {
    let ir = empty_ir();
    let node = ruby_node("m/plan/x", "transition-kernel-v1", vec![], vec![]);
    let result = execute_recipe(&ir, &node);
    assert_eq!(result.status, ExecutionStatus::Deferred);
    assert!(result.candidate.is_none());
    assert!(result.diagnostics.is_empty());
    let s = result.to_sexpr().print();
    assert!(s.contains("(reason requires-model)"));
}

#[test]
fn test_execute_recipe_deferred_carries_recipe_identity() {
    let ir = empty_ir();
    let node = ruby_node("m/plan/x", "transition-kernel-v1", vec![], vec![]);
    let result = execute_recipe(&ir, &node);
    assert_eq!(result.recipe_identity.as_deref(), Some("transition-kernel-v1"));
    let s = result.to_sexpr().print();
    assert!(s.contains("(recipe-identity \"transition-kernel-v1\")"));
}

#[test]
fn test_execution_result_from_sexpr_round_trips() {
    let ir = empty_ir();
    let type_node = IrNode::new(
        "m/type/Foo".to_string(),
        "type",
        "Foo".to_string(),
        vec![(":opaque".to_string(), Sexpr::sym("text"))],
        vec![],
    );
    let ir_with_type = Ir::new("gymnast.ir/0.1".to_string(), "m".to_string(), vec![], vec![type_node], vec![], vec![], vec![], vec![]);
    let succeeded_node = ruby_node(
        "m/plan/design-contracts",
        "design-contracts-v1",
        vec!["m/type/Foo".to_string()],
        vec!["generated/design/contracts.rb".to_string()],
    );
    let failed_node = ruby_node("m/plan/bogus", "nonexistent-v1", vec![], vec![]);
    let deferred_node = ruby_node("m/plan/x", "transition-kernel-v1", vec![], vec![]);
    let cases = [
        execute_recipe(&ir_with_type, &succeeded_node),
        execute_recipe(&ir, &failed_node),
        execute_recipe(&ir, &deferred_node),
    ];
    for result in &cases {
        let printed = result.to_sexpr();
        let parsed = ExecutionResult::from_sexpr(&printed)
            .unwrap_or_else(|| panic!("from_sexpr must parse {}", printed.print()));
        assert_eq!(parsed.to_sexpr().print(), printed.print(), "round-trip must reprint byte-identically");
    }
}

#[test]
fn test_execution_result_from_sexpr_rejects_wrong_shape() {
    assert!(ExecutionResult::from_sexpr(&Sexpr::sym("nope")).is_none());
    assert!(ExecutionResult::from_sexpr(&Sexpr::list(vec![Sexpr::sym("not-a-result")])).is_none());
    assert!(ExecutionResult::from_sexpr(&Sexpr::list(vec![
        Sexpr::sym("execution-result"),
        Sexpr::list(vec![Sexpr::pair("node-id", Sexpr::Str("x".to_string()))]),
    ]))
    .is_none());
}

#[test]
fn test_execute_recipe_unresolved_input_emits_w405_but_still_succeeds() {
    let ir = empty_ir();
    let node = ruby_node(
        "m/plan/design-contracts",
        "design-contracts-v1",
        vec!["m/type/DoesNotExist".to_string()],
        vec!["generated/design/contracts.rb".to_string()],
    );
    let result = execute_recipe(&ir, &node);
    assert_eq!(result.status, ExecutionStatus::Succeeded);
    assert!(result.diagnostics.iter().any(|d| d.assoc("code").and_then(|c| c.as_str()) == Some("W405")));
}

#[test]
fn test_execution_result_to_sexpr_omits_candidate_when_absent() {
    let result = ExecutionResult {
        node_id: "m/plan/x".to_string(),
        status: ExecutionStatus::Failed,
        candidate: None,
        recipe_identity: None,
        diagnostics: vec![],
    };
    let s = result.to_sexpr().print();
    assert!(!s.contains("candidate"));
    assert!(!s.contains("recipe-identity"));
}

#[test]
fn registry_has_eight_recipes() {
    assert_eq!(lookup("design-contracts-v1").unwrap().class, RecipeClass::Structure);
    assert!(lookup("design-contracts-v1").unwrap().execute.is_some());
    assert!(lookup("persistence-v1").unwrap().execute.is_none());
    assert!(lookup("nope").is_none());
}

#[test]
fn non_ruby_target_fails_with_e510() {
    let ir = empty_ir();
    let mut node = ruby_node("m/plan/x", "design-contracts-v1", vec![], vec![]);
    node.target = Sexpr::list(vec![Sexpr::sym("go")]);
    let result = execute_recipe(&ir, &node);
    assert_eq!(result.status, ExecutionStatus::Failed);
    assert_eq!(
        result.diagnostics[0].assoc("message"),
        Some(&Sexpr::Str("recipe design-contracts-v1 has no deterministic emitter for target language: go".to_string()))
    );
}

#[test]
fn type_declarations_by_shape() {
    let rec = IrNode::new(
        "m/type/R".to_string(),
        "type",
        "R".to_string(),
        vec![(
            ":record".to_string(),
            Sexpr::list(vec![
                Sexpr::list(vec![Sexpr::sym("a"), Sexpr::sym("Int")]),
                Sexpr::list(vec![Sexpr::sym("b"), Sexpr::sym("Text")]),
            ]),
        )],
        vec![],
    );
    assert_eq!(emit_type_declaration(&rec), "  R = Struct.new(:a, :b, keyword_init: true)\n");
    let en = IrNode::new(
        "m/type/E".to_string(),
        "type",
        "E".to_string(),
        vec![(":enum".to_string(), Sexpr::list(vec![Sexpr::sym("open"), Sexpr::sym("done")]))],
        vec![],
    );
    assert_eq!(emit_type_declaration(&en), "  module E\n    OPEN = :open\n    DONE = :done\n  end\n");
    let var = IrNode::new(
        "m/type/V".to_string(),
        "type",
        "V".to_string(),
        vec![(":variant".to_string(), Sexpr::list(vec![Sexpr::list(vec![Sexpr::sym("not_found"), Sexpr::sym("Id")])]))],
        vec![],
    );
    assert_eq!(
        emit_type_declaration(&var),
        "  module V\n    class NotFound < Struct.new(:value, keyword_init: true); end\n  end\n"
    );
}

#[test]
fn operation_signature_stub() {
    let clause = Sexpr::list(vec![
        Sexpr::sym("command"),
        Sexpr::sym("create_task"),
        Sexpr::sym(":actor"),
        Sexpr::sym("user"),
        Sexpr::sym(":output"),
        Sexpr::sym("Task"),
    ]);
    assert_eq!(
        emit_operation_signature(&clause),
        "    # input: nil, output: Task, errors: nil\n    def create_task(user, request)\n      raise NotImplementedError\n    end\n"
    );
    assert_eq!(emit_operation_signature(&Sexpr::sym("x")), "");
}

#[test]
fn assembly_manifest_lists_artifacts() {
    let app = IrNode::new("m/application/todo_app".to_string(), "application", "todo_app".to_string(), vec![], vec![]);
    let slice: Vec<&IrNode> = vec![&app];
    let node = ruby_node(
        "m/plan/application-assembly",
        "application-assembly-v1",
        vec![],
        vec!["generated/application.rb".to_string(), "generated/manifest.sexpr".to_string()],
    );
    let c = application_assembly_executor(&slice, &node);
    let files = c.as_list().unwrap()[1].assoc("files").unwrap().as_list().unwrap().to_vec();
    assert_eq!(files.len(), 2);
    let manifest = files[1].as_list().unwrap()[1].as_str().unwrap().to_string();
    assert_eq!(
        manifest,
        "(manifest\n  (application todo_app)\n  (platform gymnast_reference_platform_v1)\n  (artifacts\n    m/application/todo_app))\n"
    );
    assert!(files[0].as_list().unwrap()[1].as_str().unwrap().contains("module TodoApp\n"));
}

#[test]
fn deterministic_run_covers_every_node() {
    let ir = empty_ir();
    let p = plan(&ir);
    let results = execute_deterministic(&ir, &p);
    assert_eq!(results.len(), 8);
    assert_eq!(results[1].status, ExecutionStatus::Deferred);
}
