//! Platform kit registry: versioned collections of capability adapters
//! that form the trusted runtime boundary of synthesized applications,
//! and the E404 check that every capability a plan node declares is one
//! its kit provides.
use vstd::prelude::*;
use crate::diag::{diag_sexpr, diag_v};
use crate::order::texts;
use crate::plan::PlanNode;
use crate::sexpr::{lemma_views_of, lemma_views_push, Sexpr, SexprV, views_of};
use crate::text::{concat, push_str, str_eq};

verus! {

/// A single capability adapter: a named, versioned unit of the platform
/// kit's trusted boundary, with its guarantees and the failure modes
/// that generated code must handle.
#[derive(Debug, PartialEq)]
pub struct Capability {
    /// Capability name (e.g. "identity", "persistence").
    pub name: &'static str,
    /// Capability version (e.g. "1.0").
    pub version: &'static str,
    /// Guarantees this capability provides.
    pub guarantees: Vec<&'static str>,
    /// Failure modes generated code must handle.
    pub failure_modes: Vec<&'static str>,
}

/// A versioned platform kit: a named collection of capabilities
/// targeting one platform language.
#[derive(Debug, PartialEq)]
pub struct PlatformKit {
    /// Kit name (e.g. "gymnast-ruby-platform-v1").
    pub name: &'static str,
    /// Kit version (e.g. "1.0").
    pub version: &'static str,
    /// Target platform language (e.g. "ruby").
    pub target: &'static str,
    /// Capabilities provided by this kit.
    pub capabilities: Vec<Capability>,
}

/// A capability as plain text: name, version, guarantees, failure modes.
pub open spec fn cap_v(c: Capability) -> (Seq<char>, Seq<char>, Seq<Seq<char>>, Seq<Seq<char>>) {
    (c.name@, c.version@, c.guarantees@.map_values(|s: &str| s@), c.failure_modes@.map_values(|s: &str| s@))
}

/// The ten capabilities of the reference Ruby kit, in registry order.
pub open spec fn ruby_caps_v() -> Seq<(Seq<char>, Seq<char>, Seq<Seq<char>>, Seq<Seq<char>>)> {
    seq![
        ("identity"@, "1.0"@, seq!["token_validation"@, "session_binding"@, "principal_extraction"@],
            seq!["unauthenticated"@, "token_expired"@, "provider_unavailable"@]),
        ("persistence"@, "1.0"@, seq!["durable_commit"@, "read_after_write"@],
            seq!["connection_lost"@, "constraint_violation"@, "not_found"@]),
        ("repository"@, "1.0"@, seq!["typed_queries"@, "aggregate_loading"@, "optimistic_locking"@],
            seq!["not_found"@, "version_conflict"@, "connection_lost"@]),
        ("transactions"@, "1.0"@, seq!["atomic_boundaries"@, "rollback_on_error"@, "serializable_per_scope"@],
            seq!["deadlock"@, "timeout"@, "rollback"@]),
        ("clock"@, "1.0"@, seq!["monotonic"@, "utc_wall_time"@, "virtual_in_tests"@],
            seq!["drift_beyond_tolerance"@]),
        ("id-source"@, "1.0"@, seq!["globally_unique"@, "collision_resistant"@, "sortable"@],
            seq!["entropy_exhausted"@]),
        ("http"@, "1.0"@, seq!["request_routing"@, "content_negotiation"@, "error_mapping"@],
            seq!["bad_request"@, "method_not_allowed"@, "internal_error"@]),
        ("telemetry"@, "1.0"@, seq!["structured_logging"@, "request_tracing"@, "metric_emission"@],
            seq!["buffer_overflow"@]),
        ("lifecycle"@, "1.0"@, seq!["graceful_shutdown"@, "health_check"@, "dependency_ordering"@],
            seq!["startup_failure"@, "shutdown_timeout"@]),
        ("durable-store"@, "1.0"@, seq!["durable_commit"@, "read_after_write"@, "schema_migration"@],
            seq!["connection_lost"@, "constraint_violation"@]),
    ]
}

/// `k` is the reference kit `gymnast-ruby-platform-v1` 1.0 for `ruby`.
pub open spec fn is_ruby_kit(k: PlatformKit) -> bool {
    &&& k.name@ == "gymnast-ruby-platform-v1"@
    &&& k.version@ == "1.0"@
    &&& k.target@ == "ruby"@
    &&& k.capabilities@.map_values(|c: Capability| cap_v(c)) == ruby_caps_v()
}

fn static_strs(items: &[&'static str]) -> (r: Vec<&'static str>)
    ensures
        r@ == items@,
{
    let mut out: Vec<&'static str> = Vec::new();
    let mut i: usize = 0;
    while i < items.len()
        invariant
            i <= items.len(),
            out@ == items@.take(i as int),
        decreases items.len() - i,
    {
        out.push(items[i]);
        assert(items@.take(i + 1) =~= items@.take(i as int).push(items@[i as int]));
        i = i + 1;
    }
    assert(items@.take(items.len() as int) =~= items@);
    out
}

fn capability(name: &'static str, guarantees: &[&'static str], failure_modes: &[&'static str]) -> (r: Capability)
    ensures
        r.name == name,
        r.version@ == "1.0"@,
        r.guarantees@ == guarantees@,
        r.failure_modes@ == failure_modes@,
{
    Capability { name, version: "1.0", guarantees: static_strs(guarantees), failure_modes: static_strs(failure_modes) }
}

impl Clone for Capability {
    fn clone(&self) -> (r: Self)
        ensures
            cap_v(r) == cap_v(*self),
    {
        Capability {
            name: self.name,
            version: self.version,
            guarantees: static_strs(self.guarantees.as_slice()),
            failure_modes: static_strs(self.failure_modes.as_slice()),
        }
    }
}

fn clone_caps(caps: &[Capability]) -> (r: Vec<Capability>)
    ensures
        r@.map_values(|c: Capability| cap_v(c)) == caps@.map_values(|c: Capability| cap_v(c)),
{
    let mut out: Vec<Capability> = Vec::new();
    let mut i: usize = 0;
    while i < caps.len()
        invariant
            i <= caps.len(),
            out@.map_values(|c: Capability| cap_v(c)) == caps@.take(i as int).map_values(|c: Capability| cap_v(c)),
        decreases caps.len() - i,
    {
        let c = caps[i].clone();
        let ghost before = out@.map_values(|c: Capability| cap_v(c));
        out.push(c);
        assert(out@.map_values(|c: Capability| cap_v(c)) =~= before.push(cap_v(caps@[i as int])));
        assert(caps@.take(i + 1).map_values(|c: Capability| cap_v(c)) =~= caps@.take(i as int).map_values(|c: Capability| cap_v(c)).push(cap_v(caps@[i as int])));
        i = i + 1;
    }
    assert(caps@.take(caps.len() as int) =~= caps@);
    out
}

impl Clone for PlatformKit {
    fn clone(&self) -> (r: Self)
        ensures
            r.name == self.name,
            r.version == self.version,
            r.target == self.target,
            r.capabilities@.map_values(|c: Capability| cap_v(c)) == self.capabilities@.map_values(|c: Capability| cap_v(c)),
    {
        PlatformKit {
            name: self.name,
            version: self.version,
            target: self.target,
            capabilities: clone_caps(self.capabilities.as_slice()),
        }
    }
}

/// The ten capabilities of the reference kit, in registry order.
#[verifier::rlimit(40)]
pub fn ruby_platform_capabilities() -> (r: Vec<Capability>)
    ensures
        r@.map_values(|c: Capability| cap_v(c)) == ruby_caps_v(),
{
    let a0 = ["token_validation", "session_binding", "principal_extraction"];
    let b0 = ["unauthenticated", "token_expired", "provider_unavailable"];
    let a1 = ["durable_commit", "read_after_write"];
    let b1 = ["connection_lost", "constraint_violation", "not_found"];
    let a2 = ["typed_queries", "aggregate_loading", "optimistic_locking"];
    let b2 = ["not_found", "version_conflict", "connection_lost"];
    let a3 = ["atomic_boundaries", "rollback_on_error", "serializable_per_scope"];
    let b3 = ["deadlock", "timeout", "rollback"];
    let a4 = ["monotonic", "utc_wall_time", "virtual_in_tests"];
    let b4 = ["drift_beyond_tolerance"];
    let a5 = ["globally_unique", "collision_resistant", "sortable"];
    let b5 = ["entropy_exhausted"];
    let a6 = ["request_routing", "content_negotiation", "error_mapping"];
    let b6 = ["bad_request", "method_not_allowed", "internal_error"];
    let a7 = ["structured_logging", "request_tracing", "metric_emission"];
    let b7 = ["buffer_overflow"];
    let a8 = ["graceful_shutdown", "health_check", "dependency_ordering"];
    let b8 = ["startup_failure", "shutdown_timeout"];
    let a9 = ["durable_commit", "read_after_write", "schema_migration"];
    let b9 = ["connection_lost", "constraint_violation"];
    let r = vec![
        capability("identity", &a0, &b0),
        capability("persistence", &a1, &b1),
        capability("repository", &a2, &b2),
        capability("transactions", &a3, &b3),
        capability("clock", &a4, &b4),
        capability("id-source", &a5, &b5),
        capability("http", &a6, &b6),
        capability("telemetry", &a7, &b7),
        capability("lifecycle", &a8, &b8),
        capability("durable-store", &a9, &b9),
    ];
    proof {
        let v = r@.map_values(|c: Capability| cap_v(c));
        assert(a0@.map_values(|s: &str| s@) =~= ruby_caps_v()[0].2);
        assert(b0@.map_values(|s: &str| s@) =~= ruby_caps_v()[0].3);
        assert(a1@.map_values(|s: &str| s@) =~= ruby_caps_v()[1].2);
        assert(b1@.map_values(|s: &str| s@) =~= ruby_caps_v()[1].3);
        assert(a2@.map_values(|s: &str| s@) =~= ruby_caps_v()[2].2);
        assert(b2@.map_values(|s: &str| s@) =~= ruby_caps_v()[2].3);
        assert(a3@.map_values(|s: &str| s@) =~= ruby_caps_v()[3].2);
        assert(b3@.map_values(|s: &str| s@) =~= ruby_caps_v()[3].3);
        assert(a4@.map_values(|s: &str| s@) =~= ruby_caps_v()[4].2);
        assert(b4@.map_values(|s: &str| s@) =~= ruby_caps_v()[4].3);
        assert(a5@.map_values(|s: &str| s@) =~= ruby_caps_v()[5].2);
        assert(b5@.map_values(|s: &str| s@) =~= ruby_caps_v()[5].3);
        assert(a6@.map_values(|s: &str| s@) =~= ruby_caps_v()[6].2);
        assert(b6@.map_values(|s: &str| s@) =~= ruby_caps_v()[6].3);
        assert(a7@.map_values(|s: &str| s@) =~= ruby_caps_v()[7].2);
        assert(b7@.map_values(|s: &str| s@) =~= ruby_caps_v()[7].3);
        assert(a8@.map_values(|s: &str| s@) =~= ruby_caps_v()[8].2);
        assert(b8@.map_values(|s: &str| s@) =~= ruby_caps_v()[8].3);
        assert(a9@.map_values(|s: &str| s@) =~= ruby_caps_v()[9].2);
        assert(b9@.map_values(|s: &str| s@) =~= ruby_caps_v()[9].3);
        assert(v =~= ruby_caps_v());
    }
    r
}

/// The reference kit: `gymnast-ruby-platform-v1` 1.0 for `ruby`.
pub fn ruby_platform_kit() -> (r: PlatformKit)
    ensures
        is_ruby_kit(r),
{
    PlatformKit {
        name: "gymnast-ruby-platform-v1",
        version: "1.0",
        target: "ruby",
        capabilities: ruby_platform_capabilities(),
    }
}

/// All registered kits, in registration order.
pub fn registry() -> (r: Vec<PlatformKit>)
    ensures
        r@.len() == 1,
        is_ruby_kit(r@[0]),
{
    vec![ruby_platform_kit()]
}

/// The capabilities provided for a target language: those of the last
/// registered kit for that target, or `None` for an unregistered target.
pub fn capabilities_for_target(target_language: &str) -> (r: Option<Vec<Capability>>)
    ensures
        r is Some <==> target_language@ == "ruby"@,
        r matches Some(caps) ==> caps@.map_values(|c: Capability| cap_v(c)) == ruby_caps_v(),
{
    let kits = registry();
    let mut i: usize = kits.len();
    while i > 0
        invariant
            i <= kits.len(),
            kits@.len() == 1,
            is_ruby_kit(kits@[0]),
            forall|k: int| i <= k < kits@.len() ==> (#[trigger] kits@[k]).target@ != target_language@,
        decreases i,
    {
        i = i - 1;
        if str_eq(kits[i].target, target_language) {
            return Some(clone_caps(kits[i].capabilities.as_slice()));
        }
    }
    None
}

/// Look up a platform kit by (name, version); `None` if not found.
pub fn lookup_kit(name: &str, version: &str) -> (r: Option<PlatformKit>)
    ensures
        r is Some <==> (name@ == "gymnast-ruby-platform-v1"@ && version@ == "1.0"@),
        r matches Some(k) ==> is_ruby_kit(k),
{
    let kits = registry();
    let mut i: usize = 0;
    while i < kits.len()
        invariant
            i <= kits.len(),
            kits@.len() == 1,
            is_ruby_kit(kits@[0]),
            i == 1 ==> !(name@ == "gymnast-ruby-platform-v1"@ && version@ == "1.0"@),
        decreases kits.len() - i,
    {
        if str_eq(kits[i].name, name) && str_eq(kits[i].version, version) {
            return Some(kits[i].clone());
        }
        i = i + 1;
    }
    None
}

/// Whether `kit` provides a capability named `name`.
pub open spec fn kit_provides(kit: PlatformKit, name: Seq<char>) -> bool {
    exists|k: int| 0 <= k < kit.capabilities@.len() && (#[trigger] kit.capabilities@[k]).name@ == name
}

pub open spec fn missing_cap_msg(cap: Seq<char>, node: Seq<char>) -> Seq<char> {
    "capability not provided by platform kit: "@ + cap + " (node "@ + node + ")"@
}

/// E404 diagnostics for the capabilities `caps` of node `node` that `kit`
/// does not provide, in order.
pub open spec fn missing_caps(caps: Seq<Seq<char>>, node: Seq<char>, kit: PlatformKit) -> Seq<SexprV>
    decreases caps.len(),
{
    if caps.len() == 0 {
        Seq::empty()
    } else if kit_provides(kit, caps.last()) {
        missing_caps(caps.drop_last(), node, kit)
    } else {
        missing_caps(caps.drop_last(), node, kit).push(
            diag_v("error"@, "E404"@, 0, 0, missing_cap_msg(caps.last(), node)))
    }
}

fn provides(kit: &PlatformKit, name: &str) -> (r: bool)
    ensures
        r == kit_provides(*kit, name@),
{
    let mut i: usize = 0;
    while i < kit.capabilities.len()
        invariant
            i <= kit.capabilities.len(),
            forall|k: int| 0 <= k < i ==> (#[trigger] kit.capabilities@[k]).name@ != name@,
        decreases kit.capabilities.len() - i,
    {
        if str_eq(kit.capabilities[i].name, name) {
            return true;
        }
        i = i + 1;
    }
    false
}

/// One E404 diagnostic for each capability `node` declares that `kit`
/// does not provide, in the node's capability order.
pub fn validate_node_capabilities(node: &PlanNode, kit: &PlatformKit) -> (r: Vec<Sexpr>)
    ensures
        views_of(r@) == missing_caps(texts(node.capabilities@), node.id@, *kit),
{
    let mut out: Vec<Sexpr> = Vec::new();
    let mut i: usize = 0;
    while i < node.capabilities.len()
        invariant
            i <= node.capabilities.len(),
            views_of(out@) == missing_caps(texts(node.capabilities@).take(i as int), node.id@, *kit),
        decreases node.capabilities.len() - i,
    {
        let cap = node.capabilities[i].as_str();
        proof {
            assert(texts(node.capabilities@).take(i + 1).drop_last() =~= texts(node.capabilities@).take(i as int));
            assert(texts(node.capabilities@).take(i + 1).last() == cap@);
        }
        if !provides(kit, cap) {
            let mut m = concat("capability not provided by platform kit: ", cap);
            push_str(&mut m, " (node ");
            push_str(&mut m, node.id.as_str());
            push_str(&mut m, ")");
            let d = diag_sexpr("error", "E404", (0, 0), m);
            proof {
                lemma_views_push(out@, d);
            }
            out.push(d);
        }
        i = i + 1;
    }
    assert(texts(node.capabilities@).take(node.capabilities.len() as int) =~= texts(node.capabilities@));
    out
}

/// The E404 diagnostics of every node, node by node.
pub open spec fn plan_missing_caps(ns: Seq<PlanNode>, kit: PlatformKit) -> Seq<SexprV>
    decreases ns.len(),
{
    if ns.len() == 0 {
        Seq::empty()
    } else {
        plan_missing_caps(ns.drop_last(), kit) + missing_caps(texts(ns.last().capabilities@), ns.last().id@, kit)
    }
}

/// Validate every plan node's declared capabilities against a kit.
pub fn validate_plan_capabilities(nodes: &[PlanNode], kit: &PlatformKit) -> (r: Vec<Sexpr>)
    ensures
        views_of(r@) == plan_missing_caps(nodes@, *kit),
{
    let mut out: Vec<Sexpr> = Vec::new();
    let mut i: usize = 0;
    while i < nodes.len()
        invariant
            i <= nodes.len(),
            views_of(out@) == plan_missing_caps(nodes@.take(i as int), *kit),
        decreases nodes.len() - i,
    {
        let mut more = validate_node_capabilities(&nodes[i], kit);
        let ghost before = views_of(out@);
        let ghost mv = views_of(more@);
        proof {
            lemma_views_of(out@);
            lemma_views_of(more@);
            assert(nodes@.take(i + 1).drop_last() =~= nodes@.take(i as int));
        }
        out.append(&mut more);
        proof {
            lemma_views_of(out@);
            assert(views_of(out@) =~= before + mv);
        }
        i = i + 1;
    }
    assert(nodes@.take(nodes.len() as int) =~= nodes@);
    out
}

} // verus!
