use lib::fingerprint;
use lib::ir::{Ir, IrNode};
use lib::sexpr::Sexpr;


#[test]
fn test_ir_node_sorts_fields() {
    let fields = vec![
        (":z".to_string(), Sexpr::sym("last")),
        (":a".to_string(), Sexpr::sym("first")),
        (":m".to_string(), Sexpr::sym("middle")),
    ];
    let node = IrNode::new(
        "test/type/Foo".to_string(),
        "type",
        "Foo".to_string(),
        fields,
        vec![],
    );

    assert_eq!(node.fields[0].0, ":a");
    assert_eq!(node.fields[1].0, ":m");
    assert_eq!(node.fields[2].0, ":z");
}

#[test]
fn test_ir_node_to_sexpr() {
    let node = IrNode::new(
        "test/type/Foo".to_string(),
        "type",
        "Foo".to_string(),
        vec![(":owner".to_string(), Sexpr::sym("app"))],
        vec![],
    );

    let sexpr = node.to_sexpr();
    let s = sexpr.print();

    assert!(s.contains("ir-node"));
    assert!(s.contains("\"test/type/Foo\""));
    assert!(s.contains("type"));
    assert!(s.contains("Foo"));
    assert!(s.contains(":owner"));
}

#[test]
fn test_design_node_partition() {
    let nodes = vec![IrNode::new(
        "test/type/Mode".to_string(),
        "type",
        "Mode".to_string(),
        vec![],
        vec![],
    )];

    let ir = Ir::new(
        "gymnast.ir/0.1".to_string(),
        "test".to_string(),
        vec![],
        nodes,
        vec![],
        vec![],
        vec![],
        vec![],
    );

    assert_eq!(ir.design.len(), 1);
    assert_eq!(ir.design[0].kind, "type");
}

#[test]
fn test_transitions_node_partition() {
    let nodes = vec![IrNode::new(
        "test/behavior/Act".to_string(),
        "behavior",
        "Act".to_string(),
        vec![],
        vec![],
    )];

    let ir = Ir::new(
        "gymnast.ir/0.1".to_string(),
        "test".to_string(),
        vec![],
        vec![],
        nodes,
        vec![],
        vec![],
        vec![],
    );

    assert_eq!(ir.transitions.len(), 1);
    assert_eq!(ir.transitions[0].kind, "behavior");
}

#[test]
fn test_obligations_node_partition() {
    let nodes = vec![IrNode::new(
        "test/invariant/Rule".to_string(),
        "invariant",
        "Rule".to_string(),
        vec![],
        vec![],
    )];

    let ir = Ir::new(
        "gymnast.ir/0.1".to_string(),
        "test".to_string(),
        vec![],
        vec![],
        vec![],
        nodes,
        vec![],
        vec![],
    );

    assert_eq!(ir.obligations.len(), 1);
    assert_eq!(ir.obligations[0].kind, "invariant");
}

#[test]
fn test_synthesis_node_partition() {
    let nodes = vec![IrNode::new(
        "test/synthesis/Proto".to_string(),
        "synthesis",
        "Proto".to_string(),
        vec![],
        vec![],
    )];

    let ir = Ir::new(
        "gymnast.ir/0.1".to_string(),
        "test".to_string(),
        vec![],
        vec![],
        vec![],
        vec![],
        nodes,
        vec![],
    );

    assert_eq!(ir.synthesis.len(), 1);
    assert_eq!(ir.synthesis[0].kind, "synthesis");
}

#[test]
fn test_nodes_sorted_by_id() {
    let nodes = vec![
        IrNode::new(
            "test/type/Z".to_string(),
            "type",
            "Z".to_string(),
            vec![],
            vec![],
        ),
        IrNode::new(
            "test/type/A".to_string(),
            "type",
            "A".to_string(),
            vec![],
            vec![],
        ),
        IrNode::new(
            "test/type/M".to_string(),
            "type",
            "M".to_string(),
            vec![],
            vec![],
        ),
    ];

    let ir = Ir::new(
        "gymnast.ir/0.1".to_string(),
        "test".to_string(),
        vec![],
        nodes,
        vec![],
        vec![],
        vec![],
        vec![],
    );

    assert_eq!(ir.design[0].id, "test/type/A");
    assert_eq!(ir.design[1].id, "test/type/M");
    assert_eq!(ir.design[2].id, "test/type/Z");
}

#[test]
fn test_all_nodes() {
    let design = vec![IrNode::new(
        "test/type/Foo".to_string(),
        "type",
        "Foo".to_string(),
        vec![],
        vec![],
    )];
    let transitions = vec![IrNode::new(
        "test/behavior/Bar".to_string(),
        "behavior",
        "Bar".to_string(),
        vec![],
        vec![],
    )];
    let obligations = vec![IrNode::new(
        "test/invariant/Baz".to_string(),
        "invariant",
        "Baz".to_string(),
        vec![],
        vec![],
    )];
    let synthesis = vec![IrNode::new(
        "test/synthesis/Qux".to_string(),
        "synthesis",
        "Qux".to_string(),
        vec![],
        vec![],
    )];

    let ir = Ir::new(
        "gymnast.ir/0.1".to_string(),
        "test".to_string(),
        vec![],
        design,
        transitions,
        obligations,
        synthesis,
        vec![],
    );

    let all = ir.all_nodes();
    assert_eq!(all.len(), 4);
}

#[test]
fn test_has_errors_false() {
    let ir = Ir::new(
        "gymnast.ir/0.1".to_string(),
        "test".to_string(),
        vec![],
        vec![],
        vec![],
        vec![],
        vec![],
        vec![Sexpr::list(vec![Sexpr::list(vec![
            Sexpr::sym("severity"),
            Sexpr::sym("warning"),
        ])])],
    );

    assert!(!ir.has_errors());
}

#[test]
fn test_has_errors_true() {
    let ir = Ir::new(
        "gymnast.ir/0.1".to_string(),
        "test".to_string(),
        vec![],
        vec![],
        vec![],
        vec![],
        vec![],
        vec![Sexpr::list(vec![Sexpr::list(vec![
            Sexpr::sym("severity"),
            Sexpr::sym("error"),
        ])])],
    );

    assert!(ir.has_errors());
}

#[test]
fn test_fingerprint_consistency() {
    let ir1 = Ir::new(
        "gymnast.ir/0.1".to_string(),
        "test".to_string(),
        vec![],
        vec![IrNode::new(
            "test/type/Foo".to_string(),
            "type",
            "Foo".to_string(),
            vec![(":owner".to_string(), Sexpr::sym("app"))],
            vec![],
        )],
        vec![],
        vec![],
        vec![],
        vec![],
    );

    let ir2 = Ir::new(
        "gymnast.ir/0.1".to_string(),
        "test".to_string(),
        vec![],
        vec![IrNode::new(
            "test/type/Foo".to_string(),
            "type",
            "Foo".to_string(),
            vec![(":owner".to_string(), Sexpr::sym("app"))],
            vec![],
        )],
        vec![],
        vec![],
        vec![],
        vec![],
    );

    assert_eq!(ir1.fingerprint, ir2.fingerprint);
}

#[test]
fn test_fingerprint_excludes_fingerprint_field() {
    let ir = Ir::new(
        "gymnast.ir/0.1".to_string(),
        "test".to_string(),
        vec![],
        vec![],
        vec![],
        vec![],
        vec![],
        vec![],
    );

    let _sexpr = ir.to_sexpr();
    let fp_free = Ir::to_sexpr_without_fingerprint(
        &ir.schema,
        &ir.module_name,
        &ir.module_fields,
        &ir.design,
        &ir.transitions,
        &ir.obligations,
        &ir.synthesis,
        &ir.diagnostics,
    );

    let computed_fp = fingerprint::fingerprint(&fp_free);
    assert_eq!(ir.fingerprint, computed_fp);
}

#[test]
fn test_ir_to_sexpr_structure() {
    let ir = Ir::new(
        "gymnast.ir/0.1".to_string(),
        "test".to_string(),
        vec![(":version".to_string(), Sexpr::Str("0.1".to_string()))],
        vec![],
        vec![],
        vec![],
        vec![],
        vec![],
    );

    let sexpr = ir.to_sexpr();
    let s = sexpr.print();

    assert!(s.contains("ir"));
    assert!(s.contains("schema"));
    assert!(s.contains("module"));
    assert!(s.contains("design"));
    assert!(s.contains("transitions"));
    assert!(s.contains("obligations"));
    assert!(s.contains("synthesis"));
    assert!(s.contains("diagnostics"));
    assert!(s.contains("fingerprint"));
}

#[test]
fn test_module_fields_sorted() {
    let fields = vec![
        (":z".to_string(), Sexpr::sym("last")),
        (":a".to_string(), Sexpr::sym("first")),
        (":m".to_string(), Sexpr::sym("middle")),
    ];

    let ir = Ir::new(
        "gymnast.ir/0.1".to_string(),
        "test".to_string(),
        fields,
        vec![],
        vec![],
        vec![],
        vec![],
        vec![],
    );

    assert_eq!(ir.module_fields[0].0, ":a");
    assert_eq!(ir.module_fields[1].0, ":m");
    assert_eq!(ir.module_fields[2].0, ":z");
}

#[test]
fn test_import_kind() {
    let node = IrNode::new(
        "test/import/profiles".to_string(),
        "import",
        "profiles".to_string(),
        vec![(":version".to_string(), Sexpr::Str("1.0".to_string()))],
        vec![],
    );

    assert_eq!(node.kind, "import");
    let ir = Ir::new(
        "gymnast.ir/0.1".to_string(),
        "test".to_string(),
        vec![],
        vec![node],
        vec![],
        vec![],
        vec![],
        vec![],
    );
    assert_eq!(ir.design[0].kind, "import");
}

#[test]
fn test_application_kind() {
    let node = IrNode::new(
        "test/application/MyApp".to_string(),
        "application",
        "MyApp".to_string(),
        vec![],
        vec![],
    );

    assert_eq!(node.kind, "application");
    let ir = Ir::new(
        "gymnast.ir/0.1".to_string(),
        "test".to_string(),
        vec![],
        vec![node],
        vec![],
        vec![],
        vec![],
        vec![],
    );
    assert_eq!(ir.design[0].kind, "application");
}

#[test]
fn test_actor_kind() {
    let node = IrNode::new(
        "test/actor/User".to_string(),
        "actor",
        "User".to_string(),
        vec![(":kind".to_string(), Sexpr::sym("person"))],
        vec![],
    );

    assert_eq!(node.kind, "actor");
    let ir = Ir::new(
        "gymnast.ir/0.1".to_string(),
        "test".to_string(),
        vec![],
        vec![node],
        vec![],
        vec![],
        vec![],
        vec![],
    );
    assert_eq!(ir.design[0].kind, "actor");
}

#[test]
fn test_component_kind() {
    let node = IrNode::new(
        "test/component/Core".to_string(),
        "component",
        "Core".to_string(),
        vec![],
        vec![],
    );

    assert_eq!(node.kind, "component");
    let ir = Ir::new(
        "gymnast.ir/0.1".to_string(),
        "test".to_string(),
        vec![],
        vec![node],
        vec![],
        vec![],
        vec![],
        vec![],
    );
    assert_eq!(ir.design[0].kind, "component");
}

#[test]
fn test_interface_kind() {
    let node = IrNode::new(
        "test/interface/API".to_string(),
        "interface",
        "API".to_string(),
        vec![(":for".to_string(), Sexpr::sym("user"))],
        vec![Sexpr::list(vec![
            Sexpr::sym("command"),
            Sexpr::sym("create"),
        ])],
    );

    assert_eq!(node.kind, "interface");
    assert_eq!(node.clauses.len(), 1);
    let ir = Ir::new(
        "gymnast.ir/0.1".to_string(),
        "test".to_string(),
        vec![],
        vec![node],
        vec![],
        vec![],
        vec![],
        vec![],
    );
    assert_eq!(ir.design[0].kind, "interface");
}

#[test]
fn test_state_kind() {
    let node = IrNode::new(
        "test/state/Current".to_string(),
        "state",
        "Current".to_string(),
        vec![],
        vec![],
    );

    assert_eq!(node.kind, "state");
    let ir = Ir::new(
        "gymnast.ir/0.1".to_string(),
        "test".to_string(),
        vec![],
        vec![node],
        vec![],
        vec![],
        vec![],
        vec![],
    );
    assert_eq!(ir.design[0].kind, "state");
}

#[test]
fn test_flow_kind() {
    let node = IrNode::new(
        "test/flow/Transition".to_string(),
        "flow",
        "Transition".to_string(),
        vec![
            (":from".to_string(), Sexpr::sym("start")),
            (":to".to_string(), Sexpr::sym("end")),
            (":kind".to_string(), Sexpr::sym("cmd")),
        ],
        vec![],
    );

    assert_eq!(node.kind, "flow");
    let ir = Ir::new(
        "gymnast.ir/0.1".to_string(),
        "test".to_string(),
        vec![],
        vec![node],
        vec![],
        vec![],
        vec![],
        vec![],
    );
    assert_eq!(ir.design[0].kind, "flow");
}

#[test]
fn test_constraint_kind() {
    let node = IrNode::new(
        "test/constraint/Limit".to_string(),
        "constraint",
        "Limit".to_string(),
        vec![
            (":class".to_string(), Sexpr::sym("workload")),
            (":scope".to_string(), Sexpr::sym("interface")),
        ],
        vec![],
    );

    assert_eq!(node.kind, "constraint");
    let ir = Ir::new(
        "gymnast.ir/0.1".to_string(),
        "test".to_string(),
        vec![],
        vec![],
        vec![],
        vec![node],
        vec![],
        vec![],
    );
    assert_eq!(ir.obligations[0].kind, "constraint");
}

#[test]
fn test_acceptance_kind() {
    let node = IrNode::new(
        "test/acceptance/Test".to_string(),
        "acceptance",
        "Test".to_string(),
        vec![(":subject".to_string(), Sexpr::sym("app"))],
        vec![Sexpr::list(vec![
            Sexpr::sym("property"),
            Sexpr::sym("prop1"),
        ])],
    );

    assert_eq!(node.kind, "acceptance");
    let ir = Ir::new(
        "gymnast.ir/0.1".to_string(),
        "test".to_string(),
        vec![],
        vec![],
        vec![],
        vec![node],
        vec![],
        vec![],
    );
    assert_eq!(ir.obligations[0].kind, "acceptance");
}
