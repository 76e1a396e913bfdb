use lib::cache::{
    cache_check_node, cache_check_plan, cache_explain_node, cache_key, cache_key_material, cache_store_result,
    diff_plans, entry_valid, invalidated_nodes, node_dependents, plan_node_changed, transitive_dependents, CacheEntry,
    CacheStore,
};
use lib::ir::{Ir, IrNode};
use lib::plan::{plan, Plan};
use lib::sexpr::Sexpr;

fn small_setup() -> (Ir, Plan) {
    let ir = Ir::new(
        "gymnast.ir/0.1".to_string(),
        "todo".to_string(),
        vec![],
        vec![IrNode::new("todo/type/Task".to_string(), "type", "Task".to_string(), vec![], vec![])],
        vec![],
        vec![],
        vec![],
        vec![],
    );
    let p = plan(&ir);
    (ir, p)
}

#[test]
fn test_cache_key_stable_over_two_calls() {
    let (ir, p) = small_setup();
    for node in &p.nodes {
        assert_eq!(cache_key(&ir, &p, node), cache_key(&ir, &p, node));
    }
}

#[test]
fn test_store_new_is_empty_and_len_tracks_inserts() {
    let mut store = CacheStore::new();
    assert!(store.is_empty());
    store.store(CacheEntry {
        key: "k".to_string(),
        node_id: "n".to_string(),
        candidate: Sexpr::list(vec![]),
        evidence: Sexpr::list(vec![]),
        timestamp: Sexpr::sym("t0"),
    });
    assert_eq!(store.len(), 1);
    assert!(!store.is_empty());
}

#[test]
fn test_node_dependents_empty_for_unknown_id_never_panics() {
    let (_ir, p) = small_setup();
    assert!(node_dependents(&p, "todo/plan/does-not-exist").is_empty());
}

#[test]
fn test_transitive_dependents_unknown_seed_is_just_itself() {
    let (_ir, p) = small_setup();
    assert_eq!(
        transitive_dependents(&p, "todo/plan/does-not-exist"),
        vec!["todo/plan/does-not-exist".to_string()]
    );
}

fn entry(key: &str, node: &str, cand: &str) -> CacheEntry {
    CacheEntry {
        key: key.to_string(),
        node_id: node.to_string(),
        candidate: Sexpr::sym(cand),
        evidence: Sexpr::list(vec![]),
        timestamp: Sexpr::sym("t0"),
    }
}

#[test]
fn store_replaces_in_place_and_lookup_reads_back() {
    let mut store = CacheStore::new();
    store.store(entry("a", "n1", "x"));
    store.store(entry("b", "n2", "y"));
    store.store(entry("a", "n1", "z"));
    assert_eq!(store.len(), 2);
    assert_eq!(store.keys(), vec!["a", "b"]);
    assert_eq!(store.lookup("a").unwrap().candidate, Sexpr::sym("z"));
    assert_eq!(store.lookup("b").unwrap().candidate, Sexpr::sym("y"));
    assert!(store.lookup("c").is_none());
    store.clear();
    assert!(store.is_empty());
}

#[test]
fn closure_is_breadth_first_over_the_fixed_table() {
    let (_ir, p) = small_setup();
    let c = transitive_dependents(&p, "todo/plan/design-contracts");
    assert_eq!(
        c,
        vec![
            "todo/plan/design-contracts",
            "todo/plan/transition-kernel",
            "todo/plan/authorization-policy",
            "todo/plan/persistence",
            "todo/plan/interface-contracts",
            "todo/plan/service-handlers",
            "todo/plan/application-assembly",
            "todo/plan/acceptance-harness",
        ]
    );
    let inv = invalidated_nodes(&p, &["todo/plan/acceptance-harness".to_string(), "todo/plan/persistence".to_string()]);
    assert_eq!(
        inv,
        vec![
            "todo/plan/acceptance-harness",
            "todo/plan/application-assembly",
            "todo/plan/persistence",
            "todo/plan/service-handlers",
        ]
    );
}

#[test]
fn check_misses_then_hits_after_store() {
    let (ir, p) = small_setup();
    let node = &p.nodes[0];
    let mut store = CacheStore::new();
    let miss = cache_check_node(&store, &ir, &p, node);
    assert_eq!(miss.as_list().unwrap()[0], Sexpr::sym("cache-miss"));
    let ex = cache_explain_node(&store, &ir, &p, node);
    assert_eq!(ex.assoc("reason"), Some(&Sexpr::sym("no-cache-entry")));
    cache_store_result(&mut store, &ir, &p, node, Sexpr::sym("cand"), Sexpr::list(vec![]), Sexpr::sym("t1"));
    let hit = cache_check_node(&store, &ir, &p, node);
    assert_eq!(hit.as_list().unwrap()[0], Sexpr::sym("cache-hit"));
    assert_eq!(hit.assoc("candidate"), Some(&Sexpr::sym("cand")));
    assert!(entry_valid(&ir, &p, node, store.lookup(&cache_key(&ir, &p, node)).unwrap()));
    let ex = cache_explain_node(&store, &ir, &p, node);
    assert_eq!(ex.assoc("reason"), Some(&Sexpr::sym("valid-entry")));
    let all = cache_check_plan(&store, &ir, &p);
    assert_eq!(all.len(), 8);
    assert_eq!(all[1].as_list().unwrap()[0], Sexpr::sym("cache-miss"));
}

#[test]
fn stale_entry_explains_key_mismatch() {
    let (ir, p) = small_setup();
    let node = &p.nodes[0];
    let mut store = CacheStore::new();
    store.store(entry("old-key", &node.id, "x"));
    let ex = cache_explain_node(&store, &ir, &p, node);
    assert_eq!(ex.assoc("reason"), Some(&Sexpr::sym("key-mismatch")));
    assert_eq!(ex.assoc("stored-key"), Some(&Sexpr::Str("old-key".to_string())));
}

#[test]
fn key_material_is_flat_and_tagged() {
    let (ir, p) = small_setup();
    let m = cache_key_material(&ir, &p, &p.nodes[1]);
    assert_eq!(m.as_list().unwrap()[0], Sexpr::sym("cache-key-material"));
    assert_eq!(m.assoc("recipe"), Some(&Sexpr::sym("transition-kernel-v1")));
    assert_eq!(m.assoc("capabilities").unwrap().print(), "(clock id-source)");
}

#[test]
fn diff_of_a_plan_with_itself_is_all_unchanged() {
    let (_ir, p) = small_setup();
    let (_ir2, q) = small_setup();
    let d = diff_plans(&p, &q);
    assert_eq!(d.assoc("added"), Some(&Sexpr::list(vec![])));
    assert_eq!(d.assoc("modified"), Some(&Sexpr::list(vec![])));
    assert_eq!(d.assoc("unchanged").unwrap().as_list().unwrap().len(), 8);
    assert!(!plan_node_changed(&p, &q, "todo/plan/persistence"));
    assert!(!plan_node_changed(&p, &q, "todo/plan/nowhere"));
}

#[test]
fn diff_against_another_module_adds_and_removes_everything() {
    let (_ir, p) = small_setup();
    let ir2 = Ir::new("gymnast.ir/0.1".to_string(), "other".to_string(), vec![], vec![], vec![], vec![], vec![], vec![]);
    let q = plan(&ir2);
    let d = diff_plans(&p, &q);
    assert_eq!(d.assoc("added").unwrap().as_list().unwrap().len(), 8);
    assert_eq!(d.assoc("removed").unwrap().as_list().unwrap().len(), 8);
    assert_eq!(d.assoc("affected-closure").unwrap().as_list().unwrap().len(), 16);
    assert!(plan_node_changed(&p, &q, "todo/plan/persistence"));
}

#[test]
fn closure_of_every_node_is_seeded_duplicate_free_and_closed() {
    let (_ir, p) = small_setup();
    for n in p.nodes.iter() {
        let c = transitive_dependents(&p, n.id.as_str());
        assert_eq!(c[0], n.id);
        for (i, x) in c.iter().enumerate() {
            assert!(!c[i + 1..].contains(x));
            for d in node_dependents(&p, x.as_str()) {
                assert!(c.contains(&d.id));
            }
            if i > 0 {
                assert!(c[..i].iter().any(|y| node_dependents(&p, y.as_str()).iter().any(|d| &d.id == x)));
            }
        }
    }
}

#[test]
fn store_keeps_key_order_and_appends_new_keys() {
    let mut store = CacheStore::new();
    store.store(entry("k2", "n2", "x"));
    store.store(entry("k1", "n1", "x"));
    store.store(entry("k3", "n3", "x"));
    assert_eq!(store.keys(), vec!["k2", "k1", "k3"]);
    store.store(entry("k1", "n1", "y"));
    assert_eq!(store.keys(), vec!["k2", "k1", "k3"]);
    store.store(entry("k0", "n0", "y"));
    assert_eq!(store.keys(), vec!["k2", "k1", "k3", "k0"]);
}
