use lib::fingerprint;
use lib::ir::{Ir, IrNode};
use lib::plan::{plan, PlanNode};
use lib::prompt::{
    compile_prompt, compile_prompts, format_emits_clause, format_fails_clause, prompt_ir_slice_warnings,
    CLOSING_INSTRUCTION,
};
use lib::sexpr::Sexpr;

fn type_node(id: &str, name: &str, fields: Vec<(String, Sexpr)>) -> IrNode {
    IrNode::new(id.to_string(), "type", name.to_string(), fields, vec![])
}

fn minimal_ir_with_type() -> Ir {
    Ir::new(
        "gymnast.ir/0.1".to_string(),
        "m".to_string(),
        vec![],
        vec![type_node("m/type/Foo", "Foo", vec![(":opaque".to_string(), Sexpr::sym("text"))])],
        vec![],
        vec![],
        vec![],
        vec![],
    )
}

fn plan_node(inputs: Vec<String>, target: Sexpr, may_write: Vec<String>, capabilities: Vec<String>) -> PlanNode {
    PlanNode::new(
        "m/plan/x".to_string(),
        "generative",
        "design-contracts-v1",
        inputs,
        vec![],
        target,
        Sexpr::sym("none"),
        may_write,
        capabilities,
        vec!["ob1".to_string()],
        vec![],
    )
}

#[test]
fn test_prompt_ir_slice_warnings_fires_w405_but_compile_prompt_ignores_it() {
    let ir = minimal_ir_with_type();
    let node = PlanNode::new(
        "m/plan/x".to_string(),
        "structural",
        "design-contracts-v1",
        vec!["m/type/DoesNotExist".to_string()],
        vec![],
        Sexpr::sym("lamedh"),
        Sexpr::sym("none"),
        vec![],
        vec![],
        vec![],
        vec![],
    );
    let warnings = prompt_ir_slice_warnings(&ir, &node);
    assert_eq!(warnings.len(), 1);
    assert_eq!(warnings[0].assoc("code").and_then(|c| c.as_str()), Some("W405"));

    let pkg = compile_prompt(&ir, &plan(&ir), &node);
    assert!(pkg.ir_slice.is_empty());
    assert!(!pkg.to_sexpr().print().contains("W405"));
}

#[test]
fn test_compile_prompts_one_per_node() {
    let ir = minimal_ir_with_type();
    let p = plan(&ir);
    let pkgs = compile_prompts(&ir, &p);
    assert_eq!(pkgs.len(), p.nodes.len());
}

#[test]
fn test_closing_instruction_last_line() {
    let ir = minimal_ir_with_type();
    let p = plan(&ir);
    let pkgs = compile_prompts(&ir, &p);
    for pkg in &pkgs {
        let trimmed = pkg.text.trim_end_matches('\n');
        assert_eq!(trimmed.lines().last().unwrap(), CLOSING_INSTRUCTION);
    }
}

#[test]
fn test_capability_section_omitted_when_empty() {
    let ir = minimal_ir_with_type();
    let p = plan(&ir);
    for node in &p.nodes {
        if node.capabilities.is_empty() {
            assert!(!compile_prompt(&ir, &p, node).text.contains("CAPABILITY CONTRACTS"));
        }
    }
}

#[test]
fn test_format_fails_clause_when_and_preserves() {
    let clause = Sexpr::list(vec![
        Sexpr::sym("fails"),
        Sexpr::sym("forbidden"),
        Sexpr::sym(":when"),
        Sexpr::list(vec![Sexpr::sym("not"), Sexpr::sym("ok")]),
        Sexpr::sym(":preserves"),
        Sexpr::sym("all_state"),
    ]);
    let s = format_fails_clause(&clause).unwrap();
    assert_eq!(s, "forbidden when (not ok), preserves all_state");
}

#[test]
fn test_format_emits_clause_strips_tag() {
    let clause = Sexpr::list(vec![Sexpr::sym("emits"), Sexpr::sym("task_created"), Sexpr::sym("exactly_once_logically")]);
    let s = format_emits_clause(&clause).unwrap();
    assert_eq!(s, "(task_created exactly_once_logically)");
}

#[test]
fn test_fingerprint_recomputes() {
    let ir = minimal_ir_with_type();
    let p = plan(&ir);
    for node in &p.nodes {
        let pkg = compile_prompt(&ir, &p, node);
        let full = pkg.to_sexpr();
        let stripped = match full {
            Sexpr::List(outer) => {
                let mut outer = outer;
                if let Some(Sexpr::List(inner)) = outer.last_mut() {
                    inner.pop();
                }
                Sexpr::List(outer)
            }
            other => other,
        };
        assert_eq!(pkg.fingerprint, fingerprint::fingerprint(&stripped));
    }
}

#[test]
fn prompt_text_projects_type_and_capabilities() {
    let ir = minimal_ir_with_type();
    let node = plan_node(
        vec!["m/type/Foo".to_string()],
        Sexpr::list(vec![Sexpr::sym("ruby"), Sexpr::sym("rails")]),
        vec!["app/models/foo.rb".to_string(), "out/x.sexpr".to_string()],
        vec!["db".to_string()],
    );
    let pkg = compile_prompt(&ir, &plan(&ir), &node);
    assert!(pkg.text.starts_with(
        "GYMNAST NODE CONTRACT\nNode: m/plan/x\nRecipe: design-contracts-v1\nRole: Produce one candidate implementation for this closed node contract.\n\nTARGET\n(ruby rails)\n"
    ));
    assert!(pkg.text.contains("CAPABILITY CONTRACTS\n  db\n\nTYPE REFERENCE\n  Foo (opaque text)\n\nOBLIGATIONS\n  ob1\n\nPROHIBITIONS\n\n"));
    assert!(pkg.text.contains("The output files end in .rb"));
    assert!(pkg.text.contains("\nUse Rails conventions:"));
    assert!(pkg.text.ends_with(&format!("{}\n", CLOSING_INSTRUCTION)));
    assert_eq!(pkg.ir_slice.len(), 1);
    let files = pkg.output_protocol.as_list().unwrap()[1].assoc("files").unwrap().print();
    assert_eq!(files, "((\"app/models/foo.rb\" \"<valid Ruby source code>\") (\"out/x.sexpr\" \"<canonical S-expression>\"))");
}

#[test]
fn unknown_framework_gets_a_generic_hint() {
    let ir = minimal_ir_with_type();
    let node = plan_node(vec![], Sexpr::list(vec![Sexpr::sym("elixir"), Sexpr::sym("phoenix")]), vec![], vec![]);
    let pkg = compile_prompt(&ir, &plan(&ir), &node);
    assert!(pkg.text.contains("\nUse phoenix conventions."));
    assert!(pkg.text.contains("must be valid elixir source code"));
    assert!(pkg.text.contains("end in .lisp"));
}

#[test]
fn fails_clause_without_name_prints_whole() {
    let clause = Sexpr::list(vec![Sexpr::sym("fails"), Sexpr::Int(3)]);
    assert_eq!(format_fails_clause(&clause).unwrap(), "(fails 3)");
    assert_eq!(format_fails_clause(&Sexpr::sym("fails")), None);
    let single = Sexpr::list(vec![Sexpr::sym("emits"), Sexpr::sym("e")]);
    assert_eq!(format_emits_clause(&single).unwrap(), "e");
}

#[test]
fn behavior_block_lists_sections() {
    let beh = IrNode::new(
        "m/behavior/b".to_string(),
        "behavior",
        "b".to_string(),
        vec![
            (":on".to_string(), Sexpr::list(vec![Sexpr::sym("svc/op"), Sexpr::sym("u")])),
            (":writes".to_string(), Sexpr::list(vec![Sexpr::sym("s1"), Sexpr::sym("s2")])),
        ],
        vec![
            Sexpr::list(vec![Sexpr::sym("requires"), Sexpr::sym("p")]),
            Sexpr::list(vec![Sexpr::sym("fails"), Sexpr::sym("e")]),
        ],
    );
    let ir = Ir::new("s".to_string(), "m".to_string(), vec![], vec![], vec![beh], vec![], vec![], vec![]);
    let node = plan_node(vec!["m/behavior/b".to_string()], Sexpr::sym("go"), vec![], vec![]);
    let pkg = compile_prompt(&ir, &plan(&ir), &node);
    assert!(pkg.text.contains(
        "BEHAVIORAL REFERENCE\n  b (svc/op):\n    Actor: (u)\n    Writes: s1, s2\n    Preconditions:\n      p\n    Failures:\n      e\n\n"
    ));
}
