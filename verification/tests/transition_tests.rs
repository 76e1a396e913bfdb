use lib::ir::{Ir, IrNode};
use lib::sexpr::Sexpr;
use lib::transition::{
    apply_transition, check_invariants, check_transition_refs, counterexample, eval_expr, eval_predicate,
    eval_predicate3, eval_predicate_basis, execute_trace, extract_transition, make_initial_state, matches_operation,
    State, TraceStep, Transition, Verdict,
};

fn make_behavior_node(id: &str, fields: Vec<(&str, Sexpr)>, clauses: Vec<Sexpr>) -> IrNode {
    IrNode::new(
        id.to_string(),
        "behavior",
        "x".to_string(),
        fields.into_iter().map(|(k, v)| (k.to_string(), v)).collect(),
        clauses,
    )
}

#[test]
fn extract_transition_is_total_over_a_node_with_no_fields_or_clauses() {
    let node = make_behavior_node("m/behavior/empty", vec![], vec![]);
    let t = extract_transition(&node);
    assert_eq!(t.id, "m/behavior/empty");
    assert_eq!(t.operation, "");
    assert_eq!(t.actor, None);
    assert_eq!(t.input, None);
    assert!(t.reads.is_empty());
    assert!(t.writes.is_empty());
    assert!(t.preconditions.is_empty());
    assert!(t.postconditions.is_empty());
    assert_eq!(t.result, None);
    assert!(t.failures.is_empty());
    assert!(t.emissions.is_empty());
}

#[test]
fn off_shape_requires_clause_is_kept_whole_rather_than_dropped() {
    let bad = Sexpr::List(vec![Sexpr::sym("requires"), Sexpr::sym("p1"), Sexpr::sym("p2")]);
    let node = make_behavior_node("m/behavior/off", vec![], vec![bad.clone()]);
    let t = extract_transition(&node);
    assert_eq!(t.preconditions, vec![bad]);
}

#[test]
fn on_spec_bare_symbol_yields_operation_only() {
    let node = make_behavior_node("m/behavior/bare", vec![(":on", Sexpr::sym("svc/op"))], vec![]);
    let t = extract_transition(&node);
    assert_eq!(t.operation, "svc/op");
    assert_eq!(t.actor, None);
    assert_eq!(t.input, None);
}

#[test]
fn eval_predicate_never_panics_on_deeply_ragged_shapes() {
    let state: State = vec![];
    assert!(eval_predicate(&Sexpr::list(vec![Sexpr::sym("=")]), &state, None, None));
    assert!(!eval_predicate(&Sexpr::list(vec![Sexpr::sym("<")]), &state, None, None));
    assert!(!eval_predicate(&Sexpr::list(vec![Sexpr::sym("not")]), &state, None, None));
}

fn transition_writing(writes: Vec<&str>) -> Transition {
    Transition {
        id: "m/behavior/y".to_string(),
        operation: "svc/op".to_string(),
        actor: None,
        input: None,
        reads: vec![],
        writes: writes.into_iter().map(|w| w.to_string()).collect(),
        atomic: None,
        idempotency: None,
        preconditions: vec![],
        postconditions: vec![],
        result: None,
        failures: vec![],
        emissions: vec![],
    }
}

#[test]
fn apply_transition_is_total_when_writes_entry_is_absent_from_state() {
    let state: State = vec![];
    let t = transition_writing(vec!["never_seen"]);
    let input_val = Sexpr::sym("payload");
    let step = apply_transition(&t, &state, None, Some(&input_val));
    assert_eq!(step.post_state, vec![("never_seen".to_string(), Sexpr::List(vec![input_val]))]);
}

fn empty_ir() -> Ir {
    Ir::new("gymnast.ir/0.1".to_string(), "m".to_string(), vec![], vec![], vec![], vec![], vec![], vec![])
}

#[test]
fn execute_trace_is_total_over_an_empty_ir_and_empty_steps() {
    let ir = empty_ir();
    let trace = execute_trace(&ir, &[]);
    assert!(trace.steps.is_empty());
    assert!(trace.violations.is_empty());
    assert!(trace.final_state.is_empty());
}

#[test]
fn counterexample_embeds_violation_and_step_fields() {
    let step = TraceStep {
        transition_id: "m/behavior/x".to_string(),
        actor: Some(Sexpr::sym("a")),
        input: Some(Sexpr::sym("i")),
        pre_state: vec![("s".to_string(), Sexpr::Int(1))],
        post_state: vec![("s".to_string(), Sexpr::Int(1))],
        result: None,
        outcome: Sexpr::List(vec![Sexpr::sym("precondition-failed")]),
        symbolic: false,
    };
    let violation = Sexpr::List(vec![Sexpr::sym("violation")]);
    let ce = counterexample(&violation, &step);
    assert_eq!(ce.assoc("violation"), Some(&violation));
    assert_eq!(ce.assoc("input"), Some(&Sexpr::sym("i")));
    assert_eq!(ce.assoc("outcome"), Some(&Sexpr::List(vec![Sexpr::sym("precondition-failed")])));
}

fn todo_ir() -> Ir {
    let state = IrNode::new(
        "m/state/tasks".to_string(),
        "state",
        "tasks".to_string(),
        vec![(":initial".to_string(), Sexpr::sym("empty"))],
        vec![],
    );
    let create = IrNode::new(
        "m/behavior/create".to_string(),
        "behavior",
        "create".to_string(),
        vec![
            (":on".to_string(), Sexpr::list(vec![Sexpr::sym("svc/create_task"), Sexpr::sym("actor"), Sexpr::sym("task")])),
            (":writes".to_string(), Sexpr::list(vec![Sexpr::sym("tasks")])),
            (":reads".to_string(), Sexpr::list(vec![Sexpr::sym("ghosts")])),
        ],
        vec![],
    );
    let inv = IrNode::new(
        "m/invariant/small".to_string(),
        "invariant",
        "small".to_string(),
        vec![(":always".to_string(), Sexpr::list(vec![Sexpr::sym("="), Sexpr::sym("tasks"), Sexpr::list(vec![])]))],
        vec![],
    );
    Ir::new("gymnast.ir/0.1".to_string(), "m".to_string(), vec![], vec![state], vec![create], vec![inv], vec![], vec![])
}

#[test]
fn trace_applies_matching_transition_and_checks_invariants() {
    let ir = todo_ir();
    let steps = vec![
        Sexpr::list(vec![Sexpr::sym("create_task"), Sexpr::sym("alice"), Sexpr::Int(7)]),
        Sexpr::list(vec![Sexpr::sym("delete_task"), Sexpr::sym("alice"), Sexpr::Int(7)]),
    ];
    let trace = execute_trace(&ir, &steps);
    assert_eq!(trace.steps.len(), 2);
    assert_eq!(trace.steps[0].transition_id, "m/behavior/create");
    assert_eq!(trace.steps[0].outcome, Sexpr::list(vec![Sexpr::sym("succeeded")]));
    assert_eq!(trace.final_state, vec![("tasks".to_string(), Sexpr::list(vec![Sexpr::Int(7)]))]);
    assert_eq!(trace.steps[1].transition_id, "unknown");
    assert_eq!(trace.violations.len(), 2);
    assert_eq!(trace.violations[0].print(), "(violation (invariant \"m/invariant/small\") (predicate (= tasks nil)) (state ((tasks (7)))))");
    assert_eq!(trace.violations[1].print(), "(violation (type no-matching-transition) (operation delete_task))");
}

#[test]
fn initial_state_maps_empty_to_nil() {
    let ir = todo_ir();
    assert_eq!(make_initial_state(&ir), vec![("tasks".to_string(), Sexpr::list(vec![]))]);
}

#[test]
fn undeclared_state_refs_warn() {
    let ir = todo_ir();
    let w = check_transition_refs(&ir);
    assert_eq!(w.len(), 1);
    assert_eq!(
        w[0].assoc("message"),
        Some(&Sexpr::Str("unresolved-state-ref: transition m/behavior/create references undeclared state ghosts".to_string()))
    );
    assert_eq!(w[0].assoc("severity"), Some(&Sexpr::sym("warning")));
}

#[test]
fn operation_suffix_matching() {
    assert!(matches_operation("svc/create_task", "create_task"));
    assert!(matches_operation("create_task", "create_task"));
    assert!(!matches_operation("svc/xcreate_task", "create_task"));
    assert!(!matches_operation("task", "create_task"));
}

#[test]
fn tri_state_verdicts() {
    let st: State = vec![("n".to_string(), Sexpr::Int(3))];
    let lt = Sexpr::list(vec![Sexpr::sym("<"), Sexpr::sym("n"), Sexpr::Int(5)]);
    let unk = Sexpr::list(vec![Sexpr::sym("forall"), Sexpr::sym("x")]);
    assert_eq!(eval_predicate3(&lt, &st, None, None), Verdict::Holds);
    assert_eq!(eval_predicate3(&unk, &st, None, None), Verdict::Unknown);
    let and = Sexpr::list(vec![Sexpr::sym("and"), unk.clone(), lt.clone()]);
    assert_eq!(eval_predicate3(&and, &st, None, None), Verdict::Unknown);
    assert_eq!(eval_predicate_basis(&and, &st, None, None), (true, false));
    let or = Sexpr::list(vec![Sexpr::sym("or"), lt.clone(), unk.clone()]);
    assert_eq!(eval_predicate3(&or, &st, None, None), Verdict::Holds);
    assert_eq!(eval_predicate_basis(&or, &st, None, None), (true, true));
    assert_eq!(eval_expr(&Sexpr::sym("pre"), &st, None, None).print(), "((n 3))");
    assert_eq!(eval_expr(&Sexpr::sym("result"), &st, None, None), Sexpr::sym("result-placeholder"));
}

#[test]
fn failure_clause_preempts_and_preserves_state() {
    let st: State = vec![("tasks".to_string(), Sexpr::list(vec![]))];
    let mut t = transition_writing(vec!["tasks"]);
    t.failures = vec![Sexpr::list(vec![Sexpr::sym("full"), Sexpr::sym(":when"), Sexpr::list(vec![Sexpr::sym("="), Sexpr::Int(1), Sexpr::Int(1)])])];
    let step = apply_transition(&t, &st, None, Some(&Sexpr::Int(9)));
    assert_eq!(step.outcome, Sexpr::list(vec![Sexpr::sym("failed"), Sexpr::sym("full")]));
    assert_eq!(step.post_state, st);
    assert!(!step.symbolic);
    let inv = check_invariants(&todo_ir(), &st);
    assert!(inv.is_empty());
}

#[test]
fn three_valued_and_or_truth_tables() {
    let st: State = vec![("n".to_string(), Sexpr::Int(3))];
    let t = Sexpr::list(vec![Sexpr::sym("="), Sexpr::Int(1), Sexpr::Int(1)]);
    let f = Sexpr::list(vec![Sexpr::sym("="), Sexpr::Int(1), Sexpr::Int(2)]);
    let u = Sexpr::list(vec![Sexpr::sym("forall"), Sexpr::sym("x")]);
    let vals = [(t.clone(), Verdict::Holds), (f.clone(), Verdict::Fails), (u.clone(), Verdict::Unknown)];
    for (x, vx) in vals.iter() {
        for (y, vy) in vals.iter() {
            let and = Sexpr::list(vec![Sexpr::sym("and"), x.clone(), y.clone()]);
            let or = Sexpr::list(vec![Sexpr::sym("or"), x.clone(), y.clone()]);
            let want_and = if *vx == Verdict::Fails || *vy == Verdict::Fails {
                Verdict::Fails
            } else if *vx == Verdict::Holds && *vy == Verdict::Holds {
                Verdict::Holds
            } else {
                Verdict::Unknown
            };
            let want_or = if *vx == Verdict::Holds || *vy == Verdict::Holds {
                Verdict::Holds
            } else if *vx == Verdict::Fails && *vy == Verdict::Fails {
                Verdict::Fails
            } else {
                Verdict::Unknown
            };
            assert_eq!(eval_predicate3(&and, &st, None, None), want_and);
            assert_eq!(eval_predicate3(&or, &st, None, None), want_or);
        }
    }
    assert_eq!(eval_predicate3(&Sexpr::list(vec![Sexpr::sym("and")]), &st, None, None), Verdict::Holds);
    assert_eq!(eval_predicate3(&Sexpr::list(vec![Sexpr::sym("or")]), &st, None, None), Verdict::Fails);
}
