use lib::candidate::{candidate_diagnostics, candidate_valid, is_unsafe_output_path, Candidate};
use lib::plan::PlanNode;
use lib::sexpr::Sexpr;

fn plain_node() -> PlanNode {
    PlanNode::new(
        "m/plan/x".to_string(),
        "generative",
        "recipe-v1",
        vec![],
        vec![],
        Sexpr::list(vec![Sexpr::sym("ruby"), Sexpr::sym("rails")]),
        Sexpr::sym("none"),
        vec!["out/a.rb".to_string()],
        vec!["clock".to_string()],
        vec![],
        vec![],
    )
}

fn nil() -> Sexpr {
    Sexpr::list(vec![])
}

fn candidate(node_id: &str, files: &[(&str, &str)]) -> Sexpr {
    Sexpr::list(vec![
        Sexpr::sym("candidate"),
        Sexpr::list(vec![
            Sexpr::pair("node-id", Sexpr::Str(node_id.to_string())),
            Sexpr::pair(
                "files",
                Sexpr::list(
                    files
                        .iter()
                        .map(|(p, c)| Sexpr::list(vec![Sexpr::Str(p.to_string()), Sexpr::Str(c.to_string())]))
                        .collect(),
                ),
            ),
            Sexpr::pair("assumptions", nil()),
            Sexpr::pair("unresolved", nil()),
        ]),
    ])
}

#[test]
fn from_sexpr_none_for_non_list() {
    assert!(Candidate::from_sexpr(Sexpr::Int(1)).is_none());
    assert!(Candidate::from_sexpr(Sexpr::Str("x".to_string())).is_none());
}

#[test]
fn from_sexpr_none_for_wrong_arity() {
    assert!(Candidate::from_sexpr(Sexpr::list(vec![Sexpr::sym("candidate"), nil(), nil()])).is_none());
}

#[test]
fn from_sexpr_none_when_body_not_a_list() {
    assert!(Candidate::from_sexpr(Sexpr::list(vec![Sexpr::sym("candidate"), Sexpr::Str("oops".to_string())])).is_none());
}

#[test]
fn diagnostics_total_on_hand_built_malformed_candidate() {
    let node = plain_node();
    let weird = Sexpr::sym("not-even-a-list");
    let diags = candidate_diagnostics(&node, &weird);
    assert_eq!(diags.len(), 1);
}

#[test]
fn valid_matches_empty_diagnostics_on_good_input() {
    let node = plain_node();
    let good = candidate("m/plan/x", &[("out/a.rb", "puts 1")]);
    assert!(candidate_diagnostics(&node, &good).is_empty());
    assert!(candidate_valid(&node, &good));
}

#[test]
fn test_is_unsafe_output_path_table() {
    assert!(is_unsafe_output_path("../x"));
    assert!(is_unsafe_output_path("/abs"));
    assert!(is_unsafe_output_path("a/../b"));
    assert!(is_unsafe_output_path("a..b.rb"));
    assert!(is_unsafe_output_path("back\\slash"));
    assert!(!is_unsafe_output_path("generated/design/contracts.rb"));
    assert!(!is_unsafe_output_path("generated/adapters/schema.sexpr"));
}

fn node() -> PlanNode {
    PlanNode::new(
        "m/plan/x".to_string(),
        "structural",
        "x-v1",
        vec![],
        vec![],
        Sexpr::list(vec![Sexpr::sym("ruby")]),
        Sexpr::sym("none"),
        vec!["generated/a.rb".to_string()],
        vec![],
        vec![],
        vec![],
    )
}

fn candidate_with_files(files: Vec<Sexpr>) -> Sexpr {
    Sexpr::list(vec![
        Sexpr::sym("candidate"),
        Sexpr::list(vec![
            Sexpr::pair("node-id", Sexpr::Str("m/plan/x".to_string())),
            Sexpr::pair("files", Sexpr::list(files)),
        ]),
    ])
}

fn codes(diags: &[Sexpr]) -> Vec<String> {
    diags.iter().filter_map(|d| d.assoc("code").and_then(|c| c.as_str().map(String::from))).collect()
}

#[test]
fn test_malformed_file_entry_with_hostile_path_is_not_fail_open() {
    let c = candidate_with_files(vec![
        Sexpr::list(vec![Sexpr::Str("generated/a.rb".to_string()), Sexpr::Str("ok".to_string())]),
        Sexpr::list(vec![Sexpr::Str("../../etc/passwd".to_string()), Sexpr::sym("evil")]),
        Sexpr::Str("just-a-string".to_string()),
    ]);
    let diags = candidate_diagnostics(&node(), &c);
    let codes = codes(&diags);
    assert!(codes.contains(&"E503".to_string()), "got {:?}", codes);
    assert!(codes.contains(&"E512".to_string()), "got {:?}", codes);
    assert!(!candidate_valid(&node(), &c));
}

#[test]
fn test_malformed_edge_use_entry_is_diagnosed() {
    let c = Sexpr::list(vec![
        Sexpr::sym("candidate"),
        Sexpr::list(vec![
            Sexpr::pair("node-id", Sexpr::Str("m/plan/x".to_string())),
            Sexpr::pair(
                "files",
                Sexpr::list(vec![Sexpr::list(vec![
                    Sexpr::Str("generated/a.rb".to_string()),
                    Sexpr::Str("ok".to_string()),
                ])]),
            ),
            Sexpr::pair("edge-uses", Sexpr::list(vec![Sexpr::list(vec![Sexpr::sym("network")])])),
        ]),
    ]);
    let diags = candidate_diagnostics(&node(), &c);
    assert!(
        codes(&diags).contains(&"E512".to_string()),
        "nested edge-use entry must be diagnosed, got {:?}",
        codes(&diags)
    );
}

#[test]
fn test_tampered_node_contract_fails_firewall() {
    let mut n = node();
    n.may_write.push("generated/injected.rb".to_string());
    let c = candidate_with_files(vec![Sexpr::list(vec![
        Sexpr::Str("generated/a.rb".to_string()),
        Sexpr::Str("ok".to_string()),
    ])]);
    let diags = candidate_diagnostics(&n, &c);
    assert!(codes(&diags).contains(&"E513".to_string()), "tampered node must trip E513, got {:?}", codes(&diags));
}

#[test]
fn every_check_fires_in_table_order() {
    let n = plain_node();
    let c = Sexpr::list(vec![
        Sexpr::sym("candidate"),
        Sexpr::list(vec![
            Sexpr::pair("node-id", Sexpr::Str("m/plan/y".to_string())),
            Sexpr::pair(
                "files",
                Sexpr::list(vec![Sexpr::list(vec![
                    Sexpr::Str("out/b.rb".to_string()),
                    Sexpr::Str("(defun f () 1)".to_string()),
                ])]),
            ),
            Sexpr::pair("assumptions", Sexpr::list(vec![Sexpr::sym("x")])),
            Sexpr::pair("unresolved", Sexpr::sym("yes")),
            Sexpr::pair("edge-uses", Sexpr::list(vec![Sexpr::sym("network"), Sexpr::Int(3)])),
        ]),
    ]);
    let diags = candidate_diagnostics(&n, &c);
    assert_eq!(codes(&diags), vec!["E502", "E503", "E504", "E512", "E505", "E506", "E507", "E508"]);
    assert_eq!(
        diags[0].assoc("message"),
        Some(&Sexpr::Str("candidate names a different plan node: expected m/plan/x, got m/plan/y".to_string()))
    );
    assert_eq!(
        diags[3].assoc("message"),
        Some(&Sexpr::Str("malformed candidate entry: 3".to_string()))
    );
    assert_eq!(
        diags[6].assoc("message"),
        Some(&Sexpr::Str("file content appears to be Lisp, not ruby as required by TARGET: out/b.rb".to_string()))
    );
    assert!(!candidate_valid(&n, &c));
}

#[test]
fn missing_node_id_reads_none() {
    let n = plain_node();
    let c = Sexpr::list(vec![Sexpr::sym("candidate"), Sexpr::list(vec![])]);
    let diags = candidate_diagnostics(&n, &c);
    assert_eq!(
        diags[0].assoc("message"),
        Some(&Sexpr::Str("candidate names a different plan node: expected m/plan/x, got <none>".to_string()))
    );
    assert_eq!(codes(&diags), vec!["E502", "E504"]);
}

#[test]
fn candidate_accessors_read_fields() {
    let c = Candidate::from_sexpr(Sexpr::list(vec![
        Sexpr::sym("candidate"),
        Sexpr::list(vec![
            Sexpr::pair("node-id", Sexpr::Str("m/plan/x".to_string())),
            Sexpr::pair(
                "files",
                Sexpr::list(vec![
                    Sexpr::list(vec![Sexpr::Str("a".to_string()), Sexpr::Str("b".to_string())]),
                    Sexpr::list(vec![Sexpr::Str("c".to_string())]),
                ]),
            ),
            Sexpr::pair("implements", Sexpr::list(vec![Sexpr::Str("m/type/T".to_string()), Sexpr::sym("s")])),
        ]),
    ]))
    .unwrap();
    assert_eq!(c.node_id(), Some("m/plan/x"));
    assert_eq!(c.files(), vec![("a".to_string(), "b".to_string())]);
    let (paths, bad) = c.file_entries_audit();
    assert_eq!(paths, vec!["a".to_string(), "c".to_string()]);
    assert_eq!(bad.len(), 1);
    assert_eq!(c.implements(), vec!["m/type/T".to_string(), "s".to_string()]);
    assert!(c.edge_uses().is_empty());
    assert!(c.assumptions_empty());
    assert!(c.unresolved_empty());
}
