use lib::adequacy::{
    apply_mutation, boundary_interleaving, replace_limit, run_campaign, run_mutant, standard_fault_scenarios,
    standard_todo_mutants, Mutant, Mutation,
};
use lib::fingerprint;
use lib::ir::{Ir, IrNode};
use lib::sexpr::Sexpr;
use lib::verify::{lower_all_obligations, verify_obligation};

fn ps(text: &str) -> Sexpr {
    lib::sexpr_parse::parse(text).expect("parse test sexpr")
}

fn small_ir() -> Ir {
    let behavior = IrNode::new(
        "m/behavior/act".to_string(),
        "behavior",
        "act".to_string(),
        vec![(":on".to_string(), ps("(svc/act actor input)")), (":writes".to_string(), ps("(store)"))],
        vec![ps("(requires (ok actor))"), ps("(fails (denied))")],
    );
    let invariant = IrNode::new(
        "m/invariant/cap".to_string(),
        "invariant",
        "cap".to_string(),
        vec![(":scope".to_string(), Sexpr::sym("store"))],
        vec![],
    );
    Ir::new(
        "gymnast.ir/0.1".to_string(),
        "m".to_string(),
        vec![],
        vec![],
        vec![behavior],
        vec![invariant],
        vec![],
        vec![],
    )
}

fn baseline(ir: &Ir) -> Vec<Sexpr> {
    lower_all_obligations(ir).iter().map(|o| verify_obligation(ir, o)).collect()
}

#[test]
fn test_weaken_limit_inserts_absent_always_as_nil() {
    let ir = small_ir();
    let mutated = apply_mutation(&ir, &Mutation::WeakenLimit { invariant_name: "cap".to_string(), new_limit: 7 });
    let node = mutated.find_node("m/invariant/cap").expect("node kept");
    assert_eq!(node.field(":always"), Some(&Sexpr::List(vec![])));
    assert_eq!(node.field(":scope"), Some(&Sexpr::sym("store")));
    let keys: Vec<&str> = node.fields.iter().map(|(k, _)| k.as_str()).collect();
    assert_eq!(keys, vec![":always", ":scope"]);
}

#[test]
fn test_replace_limit_rebuilds_exactly_three_elements() {
    assert_eq!(replace_limit(&ps("(<= a 5 extra)"), 9), ps("(<= a 9)"));
}

#[test]
fn test_replace_limit_third_position_must_be_int() {
    assert_eq!(replace_limit(&ps("(< a b)"), 9), ps("(< a b)"));
    assert_eq!(replace_limit(&ps("(< a \"5\")"), 9), ps("(< a \"5\")"));
}

#[test]
fn test_boundary_interleaving_counts_down() {
    let ir = small_ir();
    let scenario = boundary_interleaving(&ir, 2).expect("writing transition exists");
    assert_eq!(
        scenario,
        ps("(interleaving-scenario (operation svc/act) (boundary 2) \
            (steps ((svc/act \"actor-2\" \"input-2\") (svc/act \"actor-1\" \"input-1\"))) \
            (expected-violations 0))")
    );
}

#[test]
fn test_run_mutant_missing_target_survives() {
    let ir = small_ir();
    let base = baseline(&ir);
    let mutant = Mutant::new(
        "x1",
        "weaken-precondition",
        "no such behavior",
        Mutation::WeakenPrecondition { behavior_name: "ghost".to_string() },
    );
    let result = run_mutant(&ir, &base, &mutant);
    assert!(!result.killed);
    assert!(result.detecting_obligations.is_empty());
    assert!(result.degraded_obligations.is_empty());
    assert!(result.critical);
}

#[test]
fn test_campaign_shape_over_empty_ir_and_one_mutant() {
    let ir = small_ir();
    let mutant = Mutant::new(
        "x1",
        "skip-state-write",
        "act stops writing",
        Mutation::SkipStateWrite { behavior_name: "act".to_string() },
    );
    let campaign = run_campaign(&ir, &[mutant]);
    let items = campaign.as_list().expect("list");
    assert_eq!(items[0].as_sym(), Some("campaign-result"));
    assert_eq!(items.len(), 2, "nested house convention");
    let fields = items[1].as_list().expect("fields");
    let (last, rest) = fields.split_last().expect("non-empty");
    let last_pair = last.as_list().expect("pair");
    assert_eq!(last_pair[0].as_sym(), Some("fingerprint"));
    let free = Sexpr::list(vec![Sexpr::sym("campaign-result"), Sexpr::list(rest.to_vec())]);
    assert_eq!(last_pair[1].as_str(), Some(fingerprint::fingerprint(&free).as_str()));
}

// ---- further cases ----

#[test]
fn test_replace_limit_recurses_through_forall() {
    assert_eq!(replace_limit(&ps("(forall (x) (<= (count x) 256))"), 512), ps("(forall (x) (<= (count x) 512))"));
    assert_eq!(replace_limit(&ps("(forall (x))"), 5), ps("(forall (x) nil)"));
    assert_eq!(replace_limit(&ps("nil"), 5), ps("nil"));
    assert_eq!(replace_limit(&ps("(>= a 5)"), 9), ps("(>= a 5)"));
}

#[test]
fn test_mutations_change_the_target_only() {
    let ir = small_ir();
    let weakened = apply_mutation(&ir, &Mutation::WeakenPrecondition { behavior_name: "act".to_string() });
    let b = weakened.find_node("m/behavior/act").unwrap();
    assert_eq!(b.clauses, vec![ps("(fails (denied))")]);
    let no_fail = apply_mutation(&ir, &Mutation::RemoveFailureMode { behavior_name: "act".to_string() });
    assert_eq!(no_fail.find_node("m/behavior/act").unwrap().clauses, vec![ps("(requires (ok actor))")]);
    let removed = apply_mutation(&ir, &Mutation::RemoveInvariant { invariant_name: "cap".to_string() });
    assert!(removed.find_node("m/invariant/cap").is_none());
    assert!(removed.find_node("m/behavior/act").is_some());
    let skipped = apply_mutation(&ir, &Mutation::SkipStateWrite { behavior_name: "act".to_string() });
    assert_eq!(skipped.find_node("m/behavior/act").unwrap().field(":writes"), Some(&Sexpr::List(vec![])));
    // the fingerprint is carried over unchanged
    assert_eq!(skipped.fingerprint, ir.fingerprint);
}

#[test]
fn test_run_mutant_applied_flags() {
    let ir = small_ir();
    let base = baseline(&ir);
    let mutant = Mutant::new(
        "x2",
        "skip-state-write",
        "act stops writing",
        Mutation::SkipStateWrite { behavior_name: "act".to_string() },
    );
    let result = run_mutant(&ir, &base, &mutant);
    assert!(result.applied);
    assert_eq!(result.killed, !result.detecting_obligations.is_empty());
    let missing = Mutant::new("x3", "remove-invariant", "none", Mutation::RemoveInvariant { invariant_name: "nope".to_string() });
    let r2 = run_mutant(&ir, &base, &missing);
    assert!(!r2.applied);
    assert!(!r2.killed);
}

#[test]
fn test_campaign_counts_and_pass() {
    let ir = small_ir();
    let campaign = run_campaign(
        &ir,
        &[Mutant::new("x3", "remove-invariant", "none", Mutation::RemoveInvariant { invariant_name: "nope".to_string() })],
    );
    let fields = &campaign.as_list().unwrap()[1];
    assert_eq!(fields.assoc("total"), Some(&Sexpr::Int(1)));
    assert_eq!(fields.assoc("inapplicable"), Some(&Sexpr::Int(1)));
    assert_eq!(fields.assoc("killed"), Some(&Sexpr::Int(0)));
    assert_eq!(fields.assoc("survived"), Some(&Sexpr::Int(0)));
    // an inapplicable critical mutant blocks the pass
    assert_eq!(fields.assoc("pass"), Some(&Sexpr::List(vec![])));
    let subject = fields.assoc("subject").unwrap();
    assert_eq!(subject.assoc("module"), Some(&Sexpr::Str("m".to_string())));
    // the empty campaign passes vacuously
    let empty = run_campaign(&ir, &[]);
    assert_eq!(empty.as_list().unwrap()[1].assoc("pass"), Some(&Sexpr::sym("t")));
}

#[test]
fn test_standard_sets() {
    let ms = standard_todo_mutants();
    let ids: Vec<&str> = ms.iter().map(|m| m.id.as_str()).collect();
    assert_eq!(ids, vec!["m1", "m2", "m3", "m4", "m5"]);
    assert!(ms.iter().all(|m| m.critical));
    assert_eq!(ms[2].mutation, Mutation::WeakenLimit { invariant_name: "sharing_limit".to_string(), new_limit: 512 });
    let faults = standard_fault_scenarios();
    assert_eq!(faults.len(), 4);
    assert_eq!(
        faults[0],
        ps("(fault-scenario (name restart-after-write) (type restart) (after acknowledged-write) (expected detected))")
    );
    assert!(boundary_interleaving(&small_ir(), 0).unwrap().print().contains("(steps nil)"));
}
