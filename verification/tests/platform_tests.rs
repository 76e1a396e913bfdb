use lib::plan::PlanNode;
use lib::platform::{
    capabilities_for_target, lookup_kit, ruby_platform_capabilities, ruby_platform_kit, validate_node_capabilities,
    validate_plan_capabilities,
};
use lib::sexpr::Sexpr;

#[test]
fn ten_capabilities_registered() {
    assert_eq!(ruby_platform_capabilities().len(), 10);
}

fn node(id: &str, caps: Vec<&str>) -> PlanNode {
    PlanNode::new(
        id.to_string(),
        "generative",
        "r",
        vec![],
        vec![],
        Sexpr::sym("lamedh"),
        Sexpr::sym("none"),
        vec![],
        caps.into_iter().map(|c| c.to_string()).collect(),
        vec![],
        vec![],
    )
}

#[test]
fn ruby_target_has_capabilities_and_others_do_not() {
    let caps = capabilities_for_target("ruby").unwrap();
    assert_eq!(caps[5].name, "id-source");
    assert_eq!(caps[9].guarantees, vec!["durable_commit", "read_after_write", "schema_migration"]);
    assert!(capabilities_for_target("cobol").is_none());
}

#[test]
fn kit_lookup_by_name_and_version() {
    let kit = lookup_kit("gymnast-ruby-platform-v1", "1.0").unwrap();
    assert_eq!(kit.target, "ruby");
    assert!(lookup_kit("gymnast-ruby-platform-v1", "2.0").is_none());
    assert!(lookup_kit("other", "1.0").is_none());
}

#[test]
fn undeclared_capability_gives_e404() {
    let kit = ruby_platform_kit();
    let n = node("m/plan/x", vec!["clock", "teleport"]);
    let d = validate_node_capabilities(&n, &kit);
    assert_eq!(d.len(), 1);
    assert_eq!(
        d[0].assoc("message"),
        Some(&Sexpr::Str("capability not provided by platform kit: teleport (node m/plan/x)".to_string()))
    );
    assert_eq!(d[0].assoc("code"), Some(&Sexpr::Str("E404".to_string())));
}

#[test]
fn plan_capabilities_concatenate_per_node() {
    let kit = ruby_platform_kit();
    let a = node("m/plan/a", vec!["warp"]);
    let b = node("m/plan/b", vec!["identity", "zap"]);
    let d = validate_plan_capabilities(&[a, b], &kit);
    assert_eq!(d.len(), 2);
    assert_eq!(
        d[1].assoc("message"),
        Some(&Sexpr::Str("capability not provided by platform kit: zap (node m/plan/b)".to_string()))
    );
}
