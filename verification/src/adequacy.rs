//! The adequacy campaign: known defects are seeded into the IR, the
//! obligations are verified again, and each defect is reported killed
//! when it brings about a failure the unmutated IR did not have.
//! Obligations that only became indeterminate are reported as degraded,
//! never as detection. A mutation whose target is absent leaves the IR
//! unchanged and is reported inapplicable.
use vstd::prelude::*;
use crate::fingerprint::{fingerprint, fingerprint_text};
use crate::ir::{Ir, IrNode, all_nodes_v, clone_node, field_views};
use crate::order::{Ranked, sort_stable, stable_sort};
use crate::sexpr::{Sexpr, SexprV, assoc_v, clone_sexpr, lemma_views_of, lemma_views_push, list2, pair_v, print_v, sexpr_eq, views_of};
use crate::text::{owned, str_eq, text_lt, nat_digits, push_u64_decimal};
use crate::transition::{TransitionV, clause_head_is, clause_head_v, extract_transitions, transitions_v};
use crate::assembly::{bool_sexpr, bool_v};
use crate::verify::{lower_all_obligations, obligations_v, verify_obligation, verify_v};

verus! {

broadcast use crate::sexpr::group_sexpr_view;

pub const ADEQUACY_SCHEMA: &'static str = "gymnast.adequacy/0.1";

// ===================================================================
// Mutations and mutants.
// ===================================================================

/// The closed set of mutation operators.
#[derive(Debug, PartialEq)]
pub enum Mutation {
    /// Drop every `requires` clause of the named behavior.
    WeakenPrecondition { behavior_name: String },
    /// Remove the named invariant from every partition.
    RemoveInvariant { invariant_name: String },
    /// Rewrite the limit inside the named invariant's `:always`
    /// predicate (see `replace_limit`).
    WeakenLimit { invariant_name: String, new_limit: i64 },
    /// Drop every `fails` clause of the named behavior.
    RemoveFailureMode { behavior_name: String },
    /// Empty the named behavior's `:writes` field.
    SkipStateWrite { behavior_name: String },
}

/// A seeded defect.
#[derive(Debug, PartialEq)]
pub struct Mutant {
    pub id: String,
    pub class: String,
    pub description: String,
    pub mutation: Mutation,
    pub critical: bool,
}

impl Mutant {
    /// A critical mutant.
    pub fn new(id: &str, class: &str, description: &str, mutation: Mutation) -> (r: Mutant)
        ensures
            r.id@ == id@,
            r.class@ == class@,
            r.description@ == description@,
            r.mutation == mutation,
            r.critical,
    {
        Mutant { id: owned(id), class: owned(class), description: owned(description), mutation, critical: true }
    }
}

/// What running one mutant found.
#[derive(Debug, PartialEq)]
pub struct MutantResult {
    pub mutant_id: String,
    pub class: String,
    pub critical: bool,
    /// Whether the mutation changed the IR at all.
    pub applied: bool,
    pub killed: bool,
    /// Obligations failed after the mutation that had not failed before.
    pub detecting_obligations: Vec<String>,
    /// Obligations that became indeterminate.
    pub degraded_obligations: Vec<String>,
    pub description: String,
}

pub struct MutantResultV {
    pub mutant_id: Seq<char>,
    pub class: Seq<char>,
    pub critical: bool,
    pub applied: bool,
    pub killed: bool,
    pub detecting: Seq<Seq<char>>,
    pub degraded: Seq<Seq<char>>,
    pub description: Seq<char>,
}

impl View for MutantResult {
    type V = MutantResultV;

    open spec fn view(&self) -> MutantResultV {
        MutantResultV {
            mutant_id: self.mutant_id@,
            class: self.class@,
            critical: self.critical,
            applied: self.applied,
            killed: self.killed,
            detecting: self.detecting_obligations@.map_values(|s: String| s@),
            degraded: self.degraded_obligations@.map_values(|s: String| s@),
            description: self.description@,
        }
    }
}

// ===================================================================
// The IR as plain values.
// ===================================================================

pub struct NodeV {
    pub id: Seq<char>,
    pub kind: Seq<char>,
    pub name: Seq<char>,
    pub fields: Seq<(Seq<char>, SexprV)>,
    pub clauses: Seq<SexprV>,
    pub mechanism: Seq<char>,
}

pub open spec fn node_view(n: IrNode) -> NodeV {
    NodeV {
        id: n.id@,
        kind: n.kind@,
        name: n.name@,
        fields: field_views(n.fields@),
        clauses: views_of(n.clauses@),
        mechanism: n.mechanism@,
    }
}

pub open spec fn nodes_view(ns: Seq<IrNode>) -> Seq<NodeV> {
    ns.map_values(|n: IrNode| node_view(n))
}

pub struct IrV {
    pub schema: Seq<char>,
    pub module_name: Seq<char>,
    pub module_fields: Seq<(Seq<char>, SexprV)>,
    pub design: Seq<NodeV>,
    pub transitions: Seq<NodeV>,
    pub obligations: Seq<NodeV>,
    pub synthesis: Seq<NodeV>,
    pub diagnostics: Seq<SexprV>,
    pub fingerprint: Seq<char>,
}

pub open spec fn ir_view(ir: Ir) -> IrV {
    IrV {
        schema: ir.schema@,
        module_name: ir.module_name@,
        module_fields: field_views(ir.module_fields@),
        design: nodes_view(ir.design@),
        transitions: nodes_view(ir.transitions@),
        obligations: nodes_view(ir.obligations@),
        synthesis: nodes_view(ir.synthesis@),
        diagnostics: views_of(ir.diagnostics@),
        fingerprint: ir.fingerprint@,
    }
}

/// Every node, partitions in order.
pub open spec fn all_v(ir: IrV) -> Seq<NodeV> {
    ir.design + ir.transitions + ir.obligations + ir.synthesis
}

fn fields_equal(a: &Vec<(String, Sexpr)>, b: &Vec<(String, Sexpr)>) -> (r: bool)
    ensures
        r == (field_views(a@) == field_views(b@)),
{
    if a.len() != b.len() {
        proof {
            assert(field_views(a@).len() != field_views(b@).len());
        }
        return false;
    }
    let mut i: usize = 0;
    while i < a.len()
        invariant
            i <= a.len(),
            a.len() == b.len(),
            forall|j: int| 0 <= j < i ==> field_views(a@)[j] == field_views(b@)[j],
        decreases a.len() - i,
    {
        if !str_eq(a[i].0.as_str(), b[i].0.as_str()) || !sexpr_eq(&a[i].1, &b[i].1) {
            proof {
                assert(field_views(a@)[i as int] != field_views(b@)[i as int]);
            }
            return false;
        }
        i = i + 1;
    }
    assert(field_views(a@) =~= field_views(b@));
    true
}

fn sexprs_equal(a: &Vec<Sexpr>, b: &Vec<Sexpr>) -> (r: bool)
    ensures
        r == (views_of(a@) == views_of(b@)),
{
    proof {
        lemma_views_of(a@);
        lemma_views_of(b@);
    }
    if a.len() != b.len() {
        return false;
    }
    let mut i: usize = 0;
    while i < a.len()
        invariant
            i <= a.len(),
            a.len() == b.len(),
            views_of(a@).len() == a.len(),
            views_of(b@).len() == b.len(),
            forall|j: int| 0 <= j < i ==> views_of(a@)[j] == views_of(b@)[j],
        decreases a.len() - i,
    {
        proof {
            lemma_views_of(a@);
            lemma_views_of(b@);
        }
        if !sexpr_eq(&a[i], &b[i]) {
            assert(views_of(a@)[i as int] != views_of(b@)[i as int]);
            return false;
        }
        i = i + 1;
    }
    assert(views_of(a@) =~= views_of(b@));
    true
}

fn node_equal(a: &IrNode, b: &IrNode) -> (r: bool)
    ensures
        r == (node_view(*a) == node_view(*b)),
{
    str_eq(a.id.as_str(), b.id.as_str()) && str_eq(a.kind.as_str(), b.kind.as_str()) && str_eq(
        a.name.as_str(),
        b.name.as_str(),
    ) && fields_equal(&a.fields, &b.fields) && sexprs_equal(&a.clauses, &b.clauses) && str_eq(
        a.mechanism.as_str(),
        b.mechanism.as_str(),
    )
}

fn nodes_equal(a: &Vec<IrNode>, b: &Vec<IrNode>) -> (r: bool)
    ensures
        r == (nodes_view(a@) == nodes_view(b@)),
{
    if a.len() != b.len() {
        proof {
            assert(nodes_view(a@).len() != nodes_view(b@).len());
        }
        return false;
    }
    let mut i: usize = 0;
    while i < a.len()
        invariant
            i <= a.len(),
            a.len() == b.len(),
            forall|j: int| 0 <= j < i ==> nodes_view(a@)[j] == nodes_view(b@)[j],
        decreases a.len() - i,
    {
        if !node_equal(&a[i], &b[i]) {
            proof {
                assert(nodes_view(a@)[i as int] != nodes_view(b@)[i as int]);
            }
            return false;
        }
        i = i + 1;
    }
    assert(nodes_view(a@) =~= nodes_view(b@));
    true
}

/// Whether two IRs are equal as values.
fn ir_equal(a: &Ir, b: &Ir) -> (r: bool)
    ensures
        r == (ir_view(*a) == ir_view(*b)),
{
    str_eq(a.schema.as_str(), b.schema.as_str()) && str_eq(a.module_name.as_str(), b.module_name.as_str())
        && fields_equal(&a.module_fields, &b.module_fields) && nodes_equal(&a.design, &b.design) && nodes_equal(
        &a.transitions,
        &b.transitions,
    ) && nodes_equal(&a.obligations, &b.obligations) && nodes_equal(&a.synthesis, &b.synthesis) && sexprs_equal(
        &a.diagnostics,
        &b.diagnostics,
    ) && str_eq(a.fingerprint.as_str(), b.fingerprint.as_str())
}

fn clone_fields(fs: &Vec<(String, Sexpr)>) -> (r: Vec<(String, Sexpr)>)
    ensures
        field_views(r@) == field_views(fs@),
{
    let mut out: Vec<(String, Sexpr)> = Vec::new();
    let mut i: usize = 0;
    while i < fs.len()
        invariant
            i <= fs.len(),
            field_views(out@) == field_views(fs@.take(i as int)),
        decreases fs.len() - i,
    {
        let k = fs[i].0.clone();
        let v = clone_sexpr(&fs[i].1);
        let ghost before = out@;
        out.push((k, v));
        proof {
            assert(fs@.take(i + 1) =~= fs@.take(i as int).push(fs@[i as int]));
            assert(out@ =~= before.push((k, v)));
            assert(field_views(out@) =~= field_views(before).push((k@, v@)));
            assert(field_views(fs@.take(i + 1)) =~= field_views(fs@.take(i as int)).push((fs@[i as int].0@, fs@[i as int].1@)));
        }
        i = i + 1;
    }
    assert(fs@.take(i as int) =~= fs@);
    out
}

// ===================================================================
// IR surgery.
// ===================================================================

/// The first node of `kind` named `name`.
pub open spec fn first_named(vs: Seq<NodeV>, kind: Seq<char>, name: Seq<char>) -> Option<NodeV>
    decreases vs.len(),
{
    if vs.len() == 0 {
        None
    } else if vs[0].kind == kind && vs[0].name == name {
        Some(vs[0])
    } else {
        first_named(vs.drop_first(), kind, name)
    }
}

/// Each node with id `id` replaced by `new`.
pub open spec fn replaced_v(vs: Seq<NodeV>, id: Seq<char>, new: NodeV) -> Seq<NodeV> {
    vs.map_values(|v: NodeV| if v.id == id { new } else { v })
}

/// The nodes whose id is not `id`, in order.
pub open spec fn without_id(vs: Seq<NodeV>, id: Seq<char>) -> Seq<NodeV>
    decreases vs.len(),
{
    if vs.len() == 0 {
        Seq::empty()
    } else if vs.last().id == id {
        without_id(vs.drop_last(), id)
    } else {
        without_id(vs.drop_last(), id).push(vs.last())
    }
}

pub open spec fn replace_node_v(ir: IrV, id: Seq<char>, new: NodeV) -> IrV {
    IrV {
        design: replaced_v(ir.design, id, new),
        transitions: replaced_v(ir.transitions, id, new),
        obligations: replaced_v(ir.obligations, id, new),
        synthesis: replaced_v(ir.synthesis, id, new),
        ..ir
    }
}

pub open spec fn remove_node_v(ir: IrV, id: Seq<char>) -> IrV {
    IrV {
        design: without_id(ir.design, id),
        transitions: without_id(ir.transitions, id),
        obligations: without_id(ir.obligations, id),
        synthesis: without_id(ir.synthesis, id),
        ..ir
    }
}

/// The clauses not headed by `head`, in order.
pub open spec fn without_head(cs: Seq<SexprV>, head: Seq<char>) -> Seq<SexprV>
    decreases cs.len(),
{
    if cs.len() == 0 {
        Seq::empty()
    } else if clause_head_v(cs.last(), head) {
        without_head(cs.drop_last(), head)
    } else {
        without_head(cs.drop_last(), head).push(cs.last())
    }
}

pub open spec fn drop_clauses_v(n: NodeV, head: Seq<char>) -> NodeV {
    NodeV { clauses: without_head(n.clauses, head), ..n }
}

/// The position of the first field named `key`, from `i` on.
pub open spec fn field_pos(fs: Seq<(Seq<char>, SexprV)>, key: Seq<char>, i: int) -> Option<int>
    decreases fs.len() - i,
{
    if i < 0 || i >= fs.len() {
        None
    } else if fs[i].0 == key {
        Some(i)
    } else {
        field_pos(fs, key, i + 1)
    }
}

/// `x` in front of the first field whose key sorts after its key.
pub open spec fn insert_field_v(s: Seq<(Seq<char>, SexprV)>, x: (Seq<char>, SexprV)) -> Seq<(Seq<char>, SexprV)>
    decreases s.len(),
{
    if s.len() == 0 {
        seq![x]
    } else if text_lt(x.0, s[0].0) {
        seq![x] + s
    } else {
        seq![s[0]] + insert_field_v(s.drop_first(), x)
    }
}

/// The stable sort of fields by key.
pub open spec fn sort_fields_v(s: Seq<(Seq<char>, SexprV)>) -> Seq<(Seq<char>, SexprV)>
    decreases s.len(),
{
    if s.len() == 0 {
        Seq::empty()
    } else {
        insert_field_v(sort_fields_v(s.drop_last()), s.last())
    }
}

/// The field `key` set to `value`: in place when present (the first
/// such field), else added and the fields stably sorted by key.
pub open spec fn with_field_v(n: NodeV, key: Seq<char>, value: SexprV) -> NodeV {
    match field_pos(n.fields, key, 0) {
        Some(p) => NodeV { fields: n.fields.update(p, (key, value)), ..n },
        None => NodeV { fields: sort_fields_v(n.fields.push((key, value))), ..n },
    }
}

/// The value of the first field named `key`.
pub open spec fn field_value(fs: Seq<(Seq<char>, SexprV)>, key: Seq<char>) -> Option<SexprV> {
    match field_pos(fs, key, 0) {
        Some(p) => Some(fs[p].1),
        None => None,
    }
}

pub open spec fn nil_sexpr() -> SexprV {
    SexprV::List(Seq::empty())
}

/// `(<= a N)` or `(< a N)` with an integer third element becomes
/// `(op a limit)`, exactly three elements; `(forall binders body)`
/// recurses into the body; anything else is unchanged.
pub open spec fn replace_limit_v(p: SexprV, limit: int) -> SexprV
    decreases p,
{
    match p {
        SexprV::List(items) => if items.len() == 0 {
            p
        } else {
            match items[0] {
                SexprV::Sym(op) => if (op == "<="@ || op == "<"@) && items.len() > 2 && items[2] is Int {
                    SexprV::List(seq![SexprV::Sym(op), items[1], SexprV::Int(limit)])
                } else if op == "forall"@ {
                    SexprV::List(seq![
                        SexprV::Sym("forall"@),
                        if items.len() > 1 { items[1] } else { nil_sexpr() },
                        if items.len() > 2 {
                            proof {
                                assert(decreases_to!(p => items[2]));
                            }
                            replace_limit_v(items[2], limit)
                        } else {
                            nil_sexpr()
                        },
                    ])
                } else {
                    p
                },
                _ => p,
            }
        },
        _ => p,
    }
}

/// The IR after `m`: unchanged when its target is absent.
pub open spec fn mutated_v(ir: IrV, m: Mutation) -> IrV {
    match m {
        Mutation::WeakenPrecondition { behavior_name } => match first_named(all_v(ir), "behavior"@, behavior_name@) {
            None => ir,
            Some(t) => replace_node_v(ir, t.id, drop_clauses_v(t, "requires"@)),
        },
        Mutation::RemoveInvariant { invariant_name } => match first_named(all_v(ir), "invariant"@, invariant_name@) {
            None => ir,
            Some(t) => remove_node_v(ir, t.id),
        },
        Mutation::WeakenLimit { invariant_name, new_limit } => match first_named(all_v(ir), "invariant"@, invariant_name@) {
            None => ir,
            Some(t) => {
                let old = match field_value(t.fields, ":always"@) {
                    Some(v) => v,
                    None => nil_sexpr(),
                };
                replace_node_v(ir, t.id, with_field_v(t, ":always"@, replace_limit_v(old, new_limit as int)))
            },
        },
        Mutation::RemoveFailureMode { behavior_name } => match first_named(all_v(ir), "behavior"@, behavior_name@) {
            None => ir,
            Some(t) => replace_node_v(ir, t.id, drop_clauses_v(t, "fails"@)),
        },
        Mutation::SkipStateWrite { behavior_name } => match first_named(all_v(ir), "behavior"@, behavior_name@) {
            None => ir,
            Some(t) => replace_node_v(ir, t.id, with_field_v(t, ":writes"@, nil_sexpr())),
        },
    }
}

proof fn lemma_all_view(ir: Ir)
    ensures
        nodes_view(all_nodes_v(ir)) == all_v(ir_view(ir)),
{
    assert(nodes_view(all_nodes_v(ir)) =~= all_v(ir_view(ir)));
}

/// The first node of `kind` named `name` (see `first_named`).
fn find_target<'a>(ir: &'a Ir, kind: &str, name: &str) -> (r: Option<&'a IrNode>)
    ensures
        match first_named(all_v(ir_view(*ir)), kind@, name@) {
            Some(v) => r is Some && node_view(*r->0) == v,
            None => r is None,
        },
{
    let all = ir.all_nodes();
    let ghost av = nodes_view(all@.map_values(|n: &IrNode| *n));
    proof {
        lemma_all_view(*ir);
        assert(av == all_v(ir_view(*ir)));
    }
    let mut i: usize = 0;
    assert(av.skip(0) =~= av);
    while i < all.len()
        invariant
            i <= all.len(),
            av == nodes_view(all@.map_values(|n: &IrNode| *n)),
            av == all_v(ir_view(*ir)),
            av.len() == all.len(),
            first_named(av, kind@, name@) == first_named(av.skip(i as int), kind@, name@),
        decreases all.len() - i,
    {
        let n = all[i];
        proof {
            assert(all@.map_values(|n: &IrNode| *n)[i as int] == *n);
            assert(av[i as int] == node_view(*n));
            assert(av.skip(i as int)[0] == node_view(*n));
            assert(av.skip(i as int).drop_first() =~= av.skip(i + 1));
        }
        if str_eq(n.kind.as_str(), kind) && str_eq(n.name.as_str(), name) {
            return Some(n);
        }
        i = i + 1;
    }
    None
}

fn replace_in(part: &Vec<IrNode>, id: &str, new: &IrNode) -> (r: Vec<IrNode>)
    ensures
        nodes_view(r@) == replaced_v(nodes_view(part@), id@, node_view(*new)),
{
    let mut out: Vec<IrNode> = Vec::new();
    let mut i: usize = 0;
    while i < part.len()
        invariant
            i <= part.len(),
            nodes_view(out@) == replaced_v(nodes_view(part@.take(i as int)), id@, node_view(*new)),
        decreases part.len() - i,
    {
        let n = if str_eq(part[i].id.as_str(), id) { clone_node(new) } else { clone_node(&part[i]) };
        let ghost before = out@;
        let ghost nv = node_view(n);
        out.push(n);
        proof {
            assert(out@ =~= before.push(n));
            assert(nodes_view(out@) =~= nodes_view(before).push(nv));
            assert(part@.take(i + 1) =~= part@.take(i as int).push(part@[i as int]));
            assert(nodes_view(part@.take(i + 1)) =~= nodes_view(part@.take(i as int)).push(node_view(part@[i as int])));
            assert(nodes_view(out@) =~= replaced_v(nodes_view(part@.take(i + 1)), id@, node_view(*new)));
        }
        i = i + 1;
    }
    assert(part@.take(i as int) =~= part@);
    out
}

fn remove_from(part: &Vec<IrNode>, id: &str) -> (r: Vec<IrNode>)
    ensures
        nodes_view(r@) == without_id(nodes_view(part@), id@),
{
    let mut out: Vec<IrNode> = Vec::new();
    let mut i: usize = 0;
    while i < part.len()
        invariant
            i <= part.len(),
            nodes_view(out@) == without_id(nodes_view(part@.take(i as int)), id@),
        decreases part.len() - i,
    {
        proof {
            assert(nodes_view(part@.take(i + 1)).drop_last() =~= nodes_view(part@.take(i as int)));
            assert(nodes_view(part@.take(i + 1)).last() == node_view(part@[i as int]));
        }
        if !str_eq(part[i].id.as_str(), id) {
            let n = clone_node(&part[i]);
            let ghost before = out@;
            let ghost nv = node_view(n);
            out.push(n);
            proof {
                assert(out@ =~= before.push(n));
                assert(nodes_view(out@) =~= nodes_view(before).push(nv));
                assert(nodes_view(out@) =~= without_id(nodes_view(part@.take(i as int)), id@).push(node_view(part@[i as int])));
            }
        }
        i = i + 1;
    }
    assert(part@.take(i as int) =~= part@);
    out
}

fn clone_nodes(part: &Vec<IrNode>) -> (r: Vec<IrNode>)
    ensures
        nodes_view(r@) == nodes_view(part@),
{
    let mut out: Vec<IrNode> = Vec::new();
    let mut i: usize = 0;
    while i < part.len()
        invariant
            i <= part.len(),
            nodes_view(out@) == nodes_view(part@.take(i as int)),
        decreases part.len() - i,
    {
        let n = clone_node(&part[i]);
        let ghost before = out@;
        let ghost nv = node_view(n);
        out.push(n);
        proof {
            assert(out@ =~= before.push(n));
            assert(nodes_view(out@) =~= nodes_view(before).push(nv));
            assert(part@.take(i + 1) =~= part@.take(i as int).push(part@[i as int]));
            assert(nodes_view(part@.take(i + 1)) =~= nodes_view(part@.take(i as int)).push(node_view(part@[i as int])));
        }
        i = i + 1;
    }
    assert(part@.take(i as int) =~= part@);
    out
}

/// A copy of the IR, equal to it as a value.
fn clone_ir(ir: &Ir) -> (r: Ir)
    ensures
        ir_view(r) == ir_view(*ir),
{
    Ir {
        schema: ir.schema.clone(),
        module_name: ir.module_name.clone(),
        module_fields: clone_fields(&ir.module_fields),
        design: clone_nodes(&ir.design),
        transitions: clone_nodes(&ir.transitions),
        obligations: clone_nodes(&ir.obligations),
        synthesis: clone_nodes(&ir.synthesis),
        diagnostics: crate::transition::clone_all(ir.diagnostics.as_slice()),
        fingerprint: ir.fingerprint.clone(),
    }
}

fn replace_ir_node(ir: &Ir, id: &str, new: &IrNode) -> (r: Ir)
    ensures
        ir_view(r) == replace_node_v(ir_view(*ir), id@, node_view(*new)),
{
    Ir {
        schema: ir.schema.clone(),
        module_name: ir.module_name.clone(),
        module_fields: clone_fields(&ir.module_fields),
        design: replace_in(&ir.design, id, new),
        transitions: replace_in(&ir.transitions, id, new),
        obligations: replace_in(&ir.obligations, id, new),
        synthesis: replace_in(&ir.synthesis, id, new),
        diagnostics: crate::transition::clone_all(ir.diagnostics.as_slice()),
        fingerprint: ir.fingerprint.clone(),
    }
}

fn remove_ir_node(ir: &Ir, id: &str) -> (r: Ir)
    ensures
        ir_view(r) == remove_node_v(ir_view(*ir), id@),
{
    Ir {
        schema: ir.schema.clone(),
        module_name: ir.module_name.clone(),
        module_fields: clone_fields(&ir.module_fields),
        design: remove_from(&ir.design, id),
        transitions: remove_from(&ir.transitions, id),
        obligations: remove_from(&ir.obligations, id),
        synthesis: remove_from(&ir.synthesis, id),
        diagnostics: crate::transition::clone_all(ir.diagnostics.as_slice()),
        fingerprint: ir.fingerprint.clone(),
    }
}

fn without_clauses(node: &IrNode, head: &str) -> (r: IrNode)
    ensures
        node_view(r) == drop_clauses_v(node_view(*node), head@),
{
    let ghost cv = views_of(node.clauses@);
    proof {
        lemma_views_of(node.clauses@);
    }
    let mut kept: Vec<Sexpr> = Vec::new();
    let mut i: usize = 0;
    while i < node.clauses.len()
        invariant
            i <= node.clauses.len(),
            cv == views_of(node.clauses@),
            cv.len() == node.clauses.len(),
            views_of(kept@) == without_head(cv.take(i as int), head@),
        decreases node.clauses.len() - i,
    {
        proof {
            assert(cv.take(i + 1).drop_last() =~= cv.take(i as int));
            assert(cv.take(i + 1).last() == node.clauses@[i as int]@);
        }
        if !clause_head_is(&node.clauses[i], head) {
            let c = clone_sexpr(&node.clauses[i]);
            proof {
                lemma_views_push(kept@, c);
            }
            kept.push(c);
        }
        i = i + 1;
    }
    assert(cv.take(i as int) =~= cv);
    IrNode {
        id: node.id.clone(),
        kind: node.kind.clone(),
        name: node.name.clone(),
        fields: clone_fields(&node.fields),
        clauses: kept,
        mechanism: node.mechanism.clone(),
    }
}

proof fn lemma_sort_fields_view(s: Seq<(String, Sexpr)>)
    ensures
        field_views(stable_sort(s)) == sort_fields_v(field_views(s)),
    decreases s.len(),
{
    if s.len() > 0 {
        lemma_sort_fields_view(s.drop_last());
        assert(field_views(s.drop_last()) =~= field_views(s).drop_last());
        lemma_insert_field_view(stable_sort(s.drop_last()), s.last());
    } else {
        assert(field_views(stable_sort(s)) =~= Seq::<(Seq<char>, SexprV)>::empty());
    }
}

proof fn lemma_insert_field_view(s: Seq<(String, Sexpr)>, x: (String, Sexpr))
    ensures
        field_views(crate::order::insert_sorted(s, x)) == insert_field_v(field_views(s), (x.0@, x.1@)),
    decreases s.len(),
{
    if s.len() > 0 {
        lemma_insert_field_view(s.drop_first(), x);
        assert(field_views(s.drop_first()) =~= field_views(s).drop_first());
        if s[0].rank_gt(x) {
            assert(field_views(seq![x] + s) =~= seq![(x.0@, x.1@)] + field_views(s));
        } else {
            assert(field_views(seq![s[0]] + crate::order::insert_sorted(s.drop_first(), x)) =~= seq![(s[0].0@, s[0].1@)]
                + field_views(crate::order::insert_sorted(s.drop_first(), x)));
        }
    } else {
        assert(field_views(seq![x]) =~= seq![(x.0@, x.1@)]);
    }
}

fn with_field(node: &IrNode, key: &str, value: Sexpr) -> (r: IrNode)
    ensures
        node_view(r) == with_field_v(node_view(*node), key@, value@),
{
    let ghost fv = field_views(node.fields@);
    let mut i: usize = 0;
    while i < node.fields.len() && !str_eq(node.fields[i].0.as_str(), key)
        invariant
            i <= node.fields.len(),
            fv == field_views(node.fields@),
            field_pos(fv, key@, 0) == field_pos(fv, key@, i as int),
        decreases node.fields.len() - i,
    {
        i = i + 1;
    }
    let mut fields = clone_fields(&node.fields);
    if i < node.fields.len() {
        let ghost before = field_views(fields@);
        fields.set(i, (owned(key), value));
        proof {
            assert(field_views(fields@) =~= before.update(i as int, (key@, value@)));
        }
    } else {
        let ghost before = field_views(fields@);
        fields.push((owned(key), value));
        proof {
            assert(field_views(fields@) =~= before.push((key@, value@)));
            lemma_sort_fields_view(fields@);
        }
        fields = sort_stable(fields);
    }
    IrNode {
        id: node.id.clone(),
        kind: node.kind.clone(),
        name: node.name.clone(),
        fields,
        clauses: crate::transition::clone_all(node.clauses.as_slice()),
        mechanism: node.mechanism.clone(),
    }
}

/// See `replace_limit_v`.
pub fn replace_limit(predicate: &Sexpr, new_limit: i64) -> (r: Sexpr)
    ensures
        r@ == replace_limit_v(predicate@, new_limit as int),
    decreases predicate,
{
    let items = match predicate {
        Sexpr::List(items) => items,
        _ => {
            return clone_sexpr(predicate);
        },
    };
    proof {
        lemma_views_of(items@);
    }
    if items.len() == 0 {
        return clone_sexpr(predicate);
    }
    let op = match items[0].as_sym() {
        Some(op) => op,
        None => {
            return clone_sexpr(predicate);
        },
    };
    if (str_eq(op, "<=") || str_eq(op, "<")) && items.len() > 2 && matches!(items[2], Sexpr::Int(_)) {
        let r = crate::sexpr::list3(Sexpr::sym(op), clone_sexpr(&items[1]), Sexpr::Int(new_limit));
        return r;
    }
    if str_eq(op, "forall") {
        let binders = if items.len() > 1 { clone_sexpr(&items[1]) } else { Sexpr::List(Vec::new()) };
        let body = if items.len() > 2 { replace_limit(&items[2], new_limit) } else { Sexpr::List(Vec::new()) };
        proof {
            assert(views_of(Seq::<Sexpr>::empty()) =~= Seq::<SexprV>::empty());
        }
        return crate::sexpr::list3(Sexpr::sym("forall"), binders, body);
    }
    clone_sexpr(predicate)
}

/// Applies one mutation as IR surgery (see `mutated_v`); a missing
/// target leaves the IR unchanged. The result keeps the original
/// fingerprint: it is a verification input, never serialized.
pub fn apply_mutation(ir: &Ir, mutation: &Mutation) -> (r: Ir)
    ensures
        ir_view(r) == mutated_v(ir_view(*ir), *mutation),
{
    match mutation {
        Mutation::WeakenPrecondition { behavior_name } => match find_target(ir, "behavior", behavior_name.as_str()) {
            None => clone_ir(ir),
            Some(t) => {
                let new = without_clauses(t, "requires");
                replace_ir_node(ir, t.id.as_str(), &new)
            },
        },
        Mutation::RemoveInvariant { invariant_name } => match find_target(ir, "invariant", invariant_name.as_str()) {
            None => clone_ir(ir),
            Some(t) => remove_ir_node(ir, t.id.as_str()),
        },
        Mutation::WeakenLimit { invariant_name, new_limit } => match find_target(ir, "invariant", invariant_name.as_str()) {
            None => clone_ir(ir),
            Some(t) => {
                let old = match t.field(":always") {
                    Some(v) => clone_sexpr(v),
                    None => Sexpr::List(Vec::new()),
                };
                proof {
                    assert(views_of(Seq::<Sexpr>::empty()) =~= Seq::<SexprV>::empty());
                    lemma_first_field_pos(t.fields@, ":always"@, 0);
                    assert(t.fields@.skip(0) =~= t.fields@);
                }
                let new_always = replace_limit(&old, *new_limit);
                let new = with_field(t, ":always", new_always);
                replace_ir_node(ir, t.id.as_str(), &new)
            },
        },
        Mutation::RemoveFailureMode { behavior_name } => match find_target(ir, "behavior", behavior_name.as_str()) {
            None => clone_ir(ir),
            Some(t) => {
                let new = without_clauses(t, "fails");
                replace_ir_node(ir, t.id.as_str(), &new)
            },
        },
        Mutation::SkipStateWrite { behavior_name } => match find_target(ir, "behavior", behavior_name.as_str()) {
            None => clone_ir(ir),
            Some(t) => {
                let empty = Sexpr::List(Vec::new());
                proof {
                    assert(views_of(Seq::<Sexpr>::empty()) =~= Seq::<SexprV>::empty());
                }
                let new = with_field(t, ":writes", empty);
                replace_ir_node(ir, t.id.as_str(), &new)
            },
        },
    }
}

proof fn lemma_first_field_pos(fs: Seq<(String, Sexpr)>, key: Seq<char>, i: int)
    requires
        0 <= i <= fs.len(),
    ensures
        crate::ir::first_field(fs.skip(i), key) == match field_pos(field_views(fs), key, i) {
            Some(p) => Some(field_views(fs)[p].1),
            None => None,
        },
    decreases fs.len() - i,
{
    if i < fs.len() {
        assert(fs.skip(i)[0] == fs[i]);
        assert(fs.skip(i).drop_first() =~= fs.skip(i + 1));
        lemma_first_field_pos(fs, key, i + 1);
    } else {
        assert(fs.skip(i).len() == 0);
    }
}

// ===================================================================
// Interleaving and fault scenarios (descriptions only).
// ===================================================================

/// The first transition with a non-empty write set.
pub open spec fn first_writer(ts: Seq<TransitionV>) -> Option<TransitionV>
    decreases ts.len(),
{
    if ts.len() == 0 {
        None
    } else if ts[0].writes.len() > 0 {
        Some(ts[0])
    } else {
        first_writer(ts.drop_first())
    }
}

pub open spec fn step_v(op: Seq<char>, n: nat) -> SexprV {
    SexprV::List(seq![
        SexprV::Sym(op),
        SexprV::Str("actor-"@ + nat_digits(n)),
        SexprV::Str("input-"@ + nat_digits(n)),
    ])
}

/// Steps `n`, `n - 1`, ..., `1`.
pub open spec fn steps_v(op: Seq<char>, n: nat) -> Seq<SexprV>
    decreases n,
{
    if n == 0 {
        Seq::empty()
    } else {
        seq![step_v(op, n)] + steps_v(op, (n - 1) as nat)
    }
}

/// An adversarial interleaving over the first writing transition, its
/// steps counting down from `boundary` to 1 (none when `boundary <= 0`);
/// `None` when no transition writes.
pub open spec fn interleaving_v(ir: Ir, boundary: int) -> Option<SexprV> {
    match first_writer(transitions_v(ir)) {
        None => None,
        Some(t) => Some(SexprV::List(seq![
            SexprV::Sym("interleaving-scenario"@),
            pair_v("operation"@, SexprV::Sym(t.operation)),
            pair_v("boundary"@, SexprV::Int(boundary)),
            pair_v("steps"@, SexprV::List(steps_v(t.operation, if boundary > 0 { boundary as nat } else { 0 }))),
            pair_v("expected-violations"@, SexprV::Int(0)),
        ])),
    }
}

/// See `interleaving_v`.
pub fn boundary_interleaving(ir: &Ir, boundary_count: i64) -> (r: Option<Sexpr>)
    ensures
        match interleaving_v(*ir, boundary_count as int) {
            Some(v) => r is Some && r->0@ == v,
            None => r is None,
        },
{
    let ts = extract_transitions(ir);
    let ghost tv = ts@.map_values(|t: crate::transition::Transition| t@);
    let mut i: usize = 0;
    assert(tv.skip(0) =~= tv);
    while i < ts.len() && ts[i].writes.len() == 0
        invariant
            i <= ts.len(),
            tv == ts@.map_values(|t: crate::transition::Transition| t@),
            tv == transitions_v(*ir),
            first_writer(tv) == first_writer(tv.skip(i as int)),
        decreases ts.len() - i,
    {
        proof {
            assert(tv.skip(i as int)[0] == ts@[i as int]@);
            assert(tv.skip(i as int).drop_first() =~= tv.skip(i + 1));
        }
        i = i + 1;
    }
    if i >= ts.len() {
        assert(tv.skip(i as int).len() == 0);
        return None;
    }
    proof {
        assert(tv.skip(i as int)[0] == ts@[i as int]@);
    }
    let op = ts[i].operation.as_str();
    let top: u64 = if boundary_count > 0 { boundary_count as u64 } else { 0 };
    let mut steps: Vec<Sexpr> = Vec::new();
    let mut n: u64 = top;
    while n > 0
        invariant
            n <= top,
            views_of(steps@) + steps_v(op@, n as nat) == steps_v(op@, top as nat),
        decreases n,
    {
        let mut actor = owned("actor-");
        push_u64_decimal(&mut actor, n);
        let mut input = owned("input-");
        push_u64_decimal(&mut input, n);
        let step = crate::sexpr::list3(Sexpr::sym(op), Sexpr::Str(actor), Sexpr::Str(input));
        proof {
            lemma_views_push(steps@, step);
            assert(views_of(steps@).push(step@) + steps_v(op@, (n - 1) as nat) =~= views_of(steps@) + steps_v(op@, n as nat));
        }
        steps.push(step);
        n = n - 1;
    }
    assert(views_of(steps@) =~= steps_v(op@, top as nat));
    let r = crate::sexpr::list5(
        Sexpr::sym("interleaving-scenario"),
        Sexpr::pair("operation", Sexpr::sym(op)),
        Sexpr::pair("boundary", Sexpr::Int(boundary_count)),
        Sexpr::pair("steps", Sexpr::List(steps)),
        Sexpr::pair("expected-violations", Sexpr::Int(0)),
    );
    Some(r)
}

/// `(fault-scenario (name n) (type t) (after a) (expected detected))`.
pub open spec fn fault_v(name: Seq<char>, fault_type: Seq<char>, after: Seq<char>) -> SexprV {
    SexprV::List(seq![
        SexprV::Sym("fault-scenario"@),
        pair_v("name"@, SexprV::Sym(name)),
        pair_v("type"@, SexprV::Sym(fault_type)),
        pair_v("after"@, SexprV::Sym(after)),
        pair_v("expected"@, SexprV::Sym("detected"@)),
    ])
}

fn fault_scenario(name: &str, fault_type: &str, after: &str) -> (r: Sexpr)
    ensures
        r@ == fault_v(name@, fault_type@, after@),
{
    crate::sexpr::list5(
        Sexpr::sym("fault-scenario"),
        Sexpr::pair("name", Sexpr::sym(name)),
        Sexpr::pair("type", Sexpr::sym(fault_type)),
        Sexpr::pair("after", Sexpr::sym(after)),
        Sexpr::pair("expected", Sexpr::sym("detected")),
    )
}

/// The four standard fault scenarios, in order.
pub fn standard_fault_scenarios() -> (r: Vec<Sexpr>)
    ensures
        views_of(r@) == seq![
            fault_v("restart-after-write"@, "restart"@, "acknowledged-write"@),
            fault_v("timeout-mid-operation"@, "timeout"@, "operation-start"@),
            fault_v("duplicate-delivery"@, "duplicate-delivery"@, "acknowledged-write"@),
            fault_v("stale-version"@, "stale-version"@, "read"@),
        ],
{
    let r = vec![
        fault_scenario("restart-after-write", "restart", "acknowledged-write"),
        fault_scenario("timeout-mid-operation", "timeout", "operation-start"),
        fault_scenario("duplicate-delivery", "duplicate-delivery", "acknowledged-write"),
        fault_scenario("stale-version", "stale-version", "read"),
    ];
    proof {
        lemma_views_of(r@);
    }
    assert(views_of(r@) =~= seq![
        fault_v("restart-after-write"@, "restart"@, "acknowledged-write"@),
        fault_v("timeout-mid-operation"@, "timeout"@, "operation-start"@),
        fault_v("duplicate-delivery"@, "duplicate-delivery"@, "acknowledged-write"@),
        fault_v("stale-version"@, "stale-version"@, "read"@),
    ]);
    r
}

/// The mutant `id` of `class`, critical, with `description`, whose
/// mutation is `m`.
pub open spec fn mutant_is(x: Mutant, id: Seq<char>, class: Seq<char>, description: Seq<char>, m: spec_fn(Mutation) -> bool) -> bool {
    x.id@ == id && x.class@ == class && x.description@ == description && x.critical && m(x.mutation)
}

/// The five standard mutants of the Todo specification, `m1` to `m5`.
pub fn standard_todo_mutants() -> (r: Vec<Mutant>)
    ensures
        r.len() == 5,
        mutant_is(r@[0], "m1"@, "weaken-precondition"@, "create_task accepts requests with all authorization preconditions dropped"@,
            |m: Mutation| m matches Mutation::WeakenPrecondition { behavior_name } && behavior_name@ == "create_task"@),
        mutant_is(r@[1], "m2"@, "remove-invariant"@, "the sharing_limit invariant is removed entirely"@,
            |m: Mutation| m matches Mutation::RemoveInvariant { invariant_name } && invariant_name@ == "sharing_limit"@),
        mutant_is(r@[2], "m3"@, "weaken-limit"@, "sharing_limit's cap is weakened from 256 to 512"@,
            |m: Mutation| m matches Mutation::WeakenLimit { invariant_name, new_limit } && invariant_name@ == "sharing_limit"@ && new_limit == 512),
        mutant_is(r@[3], "m4"@, "remove-failure-mode"@, "invite_user's declared failure modes are dropped"@,
            |m: Mutation| m matches Mutation::RemoveFailureMode { behavior_name } && behavior_name@ == "invite_user"@),
        mutant_is(r@[4], "m5"@, "skip-state-write"@, "create_task acknowledges without writing to tasks"@,
            |m: Mutation| m matches Mutation::SkipStateWrite { behavior_name } && behavior_name@ == "create_task"@),
{
    vec![
        Mutant::new(
            "m1",
            "weaken-precondition",
            "create_task accepts requests with all authorization preconditions dropped",
            Mutation::WeakenPrecondition { behavior_name: owned("create_task") },
        ),
        Mutant::new(
            "m2",
            "remove-invariant",
            "the sharing_limit invariant is removed entirely",
            Mutation::RemoveInvariant { invariant_name: owned("sharing_limit") },
        ),
        Mutant::new(
            "m3",
            "weaken-limit",
            "sharing_limit's cap is weakened from 256 to 512",
            Mutation::WeakenLimit { invariant_name: owned("sharing_limit"), new_limit: 512 },
        ),
        Mutant::new(
            "m4",
            "remove-failure-mode",
            "invite_user's declared failure modes are dropped",
            Mutation::RemoveFailureMode { behavior_name: owned("invite_user") },
        ),
        Mutant::new(
            "m5",
            "skip-state-write",
            "create_task acknowledges without writing to tasks",
            Mutation::SkipStateWrite { behavior_name: owned("create_task") },
        ),
    ]
}

// ===================================================================
// Running mutants.
// ===================================================================

pub open spec fn result_id(r: SexprV) -> Option<Seq<char>> {
    match assoc_v(r, "obligation-id"@) {
        Some(SexprV::Str(t)) => Some(t),
        _ => None,
    }
}

pub open spec fn result_status(r: SexprV) -> Option<Seq<char>> {
    match assoc_v(r, "status"@) {
        Some(SexprV::Sym(t)) => Some(t),
        _ => None,
    }
}

/// The status of the first baseline result for obligation `id`.
pub open spec fn baseline_status(bs: Seq<SexprV>, id: Seq<char>) -> Option<Seq<char>>
    decreases bs.len(),
{
    if bs.len() == 0 {
        None
    } else if result_id(bs[0]) == Some(id) {
        result_status(bs[0])
    } else {
        baseline_status(bs.drop_first(), id)
    }
}

/// The ids, in result order, of the results whose status is `status`
/// and was not `status` in the baseline.
pub open spec fn newly(results: Seq<SexprV>, bs: Seq<SexprV>, status: Seq<char>) -> Seq<Seq<char>>
    decreases results.len(),
{
    if results.len() == 0 {
        Seq::empty()
    } else {
        let prev = newly(results.drop_last(), bs, status);
        let r = results.last();
        match result_id(r) {
            Some(id) => if result_status(r) == Some(status) && baseline_status(bs, id) != Some(status) {
                prev.push(id)
            } else {
                prev
            },
            None => prev,
        }
    }
}

/// Every obligation of `ir`, verified.
pub open spec fn results_v(ir: Ir) -> Seq<SexprV> {
    obligations_v(ir).map_values(|o: SexprV| verify_v(ir, o))
}

/// The result of `m` given the mutated IR `mi`: inapplicable when `mi`
/// equals `ir`; otherwise killed exactly when some obligation newly
/// failed.
pub open spec fn mutant_result_v(ir: Ir, mi: Ir, bs: Seq<SexprV>, m: Mutant) -> MutantResultV {
    if ir_view(mi) == ir_view(ir) {
        MutantResultV {
            mutant_id: m.id@,
            class: m.class@,
            critical: m.critical,
            applied: false,
            killed: false,
            detecting: Seq::empty(),
            degraded: Seq::empty(),
            description: m.description@,
        }
    } else {
        let det = newly(results_v(mi), bs, "failed"@);
        MutantResultV {
            mutant_id: m.id@,
            class: m.class@,
            critical: m.critical,
            applied: true,
            killed: det.len() > 0,
            detecting: det,
            degraded: newly(results_v(mi), bs, "indeterminate"@),
            description: m.description@,
        }
    }
}

/// `r` is what running `m` against baseline `bs` gives: for the IR that
/// `apply_mutation` builds.
pub open spec fn mutant_ok(ir: Ir, bs: Seq<SexprV>, m: Mutant, r: MutantResultV) -> bool {
    exists|mi: Ir| ir_view(mi) == mutated_v(ir_view(ir), m.mutation) && r == #[trigger] mutant_result_v(ir, mi, bs, m)
}

fn result_id_exec(r: &Sexpr) -> (o: Option<&str>)
    ensures
        match result_id(r@) {
            Some(t) => o is Some && o->0@ == t,
            None => o is None,
        },
{
    match r.assoc("obligation-id") {
        Some(v) => v.as_str(),
        None => None,
    }
}

fn result_status_exec(r: &Sexpr) -> (o: Option<&str>)
    ensures
        match result_status(r@) {
            Some(t) => o is Some && o->0@ == t,
            None => o is None,
        },
{
    match r.assoc("status") {
        Some(v) => v.as_sym(),
        None => None,
    }
}

fn baseline_status_exec<'a>(bs: &'a [Sexpr], id: &str) -> (o: Option<&'a str>)
    ensures
        match baseline_status(views_of(bs@), id@) {
            Some(t) => o is Some && o->0@ == t,
            None => o is None,
        },
{
    let ghost bv = views_of(bs@);
    proof {
        lemma_views_of(bs@);
    }
    let mut i: usize = 0;
    assert(bv.skip(0) =~= bv);
    while i < bs.len()
        invariant
            i <= bs.len(),
            bv == views_of(bs@),
            bv.len() == bs.len(),
            baseline_status(bv, id@) == baseline_status(bv.skip(i as int), id@),
        decreases bs.len() - i,
    {
        proof {
            assert(bv.skip(i as int)[0] == bs@[i as int]@);
            assert(bv.skip(i as int).drop_first() =~= bv.skip(i + 1));
        }
        match result_id_exec(&bs[i]) {
            Some(t) => {
                if str_eq(t, id) {
                    return result_status_exec(&bs[i]);
                }
            },
            None => {},
        }
        i = i + 1;
    }
    None
}

fn opt_is(o: Option<&str>, t: &str) -> (r: bool)
    ensures
        r == (match o {
            Some(x) => x@ == t@,
            None => false,
        }),
{
    match o {
        Some(x) => str_eq(x, t),
        None => false,
    }
}

/// The ids of results newly reaching `status` (see `newly`).
fn newly_exec(results: &Vec<Sexpr>, baseline: &[Sexpr], status: &str) -> (r: Vec<String>)
    ensures
        r@.map_values(|s: String| s@) == newly(views_of(results@), views_of(baseline@), status@),
{
    let ghost rv = views_of(results@);
    let ghost bv = views_of(baseline@);
    proof {
        lemma_views_of(results@);
    }
    let mut out: Vec<String> = Vec::new();
    let mut i: usize = 0;
    while i < results.len()
        invariant
            i <= results.len(),
            rv == views_of(results@),
            bv == views_of(baseline@),
            rv.len() == results.len(),
            out@.map_values(|s: String| s@) == newly(rv.take(i as int), bv, status@),
        decreases results.len() - i,
    {
        proof {
            assert(rv.take(i + 1).drop_last() =~= rv.take(i as int));
            assert(rv.take(i + 1).last() == results@[i as int]@);
        }
        match result_id_exec(&results[i]) {
            Some(id) => {
                if opt_is(result_status_exec(&results[i]), status) && !opt_is(baseline_status_exec(baseline, id), status) {
                    let ghost prev = out@.map_values(|s: String| s@);
                    let t = owned(id);
                    out.push(t);
                    proof {
                        assert(out@.map_values(|s: String| s@) =~= prev.push(id@));
                    }
                }
            },
            None => {},
        }
        i = i + 1;
    }
    assert(rv.take(i as int) =~= rv);
    out
}

/// Every obligation of `ir`, verified (see `results_v`).
fn verify_all(ir: &Ir) -> (r: Vec<Sexpr>)
    ensures
        views_of(r@) == results_v(*ir),
{
    let obligations = lower_all_obligations(ir);
    let ghost ov = views_of(obligations@);
    proof {
        lemma_views_of(obligations@);
    }
    let mut out: Vec<Sexpr> = Vec::new();
    let mut i: usize = 0;
    while i < obligations.len()
        invariant
            i <= obligations.len(),
            ov == views_of(obligations@),
            ov == obligations_v(*ir),
            ov.len() == obligations.len(),
            views_of(out@) == ov.take(i as int).map_values(|o: SexprV| verify_v(*ir, o)),
        decreases obligations.len() - i,
    {
        let x = verify_obligation(ir, &obligations[i]);
        proof {
            lemma_views_push(out@, x);
            assert(ov[i as int] == obligations@[i as int]@);
            assert(ov.take(i + 1).map_values(|o: SexprV| verify_v(*ir, o)) =~= ov.take(i as int).map_values(
                |o: SexprV| verify_v(*ir, o),
            ).push(x@));
        }
        out.push(x);
        i = i + 1;
    }
    assert(ov.take(i as int) =~= ov);
    out
}

/// Runs one mutant against the baseline results of the unmutated IR
/// (see `mutant_result_v`): a mutation that changes nothing is reported
/// inapplicable, never a kill and never a survivor.
pub fn run_mutant(ir: &Ir, baseline: &[Sexpr], mutant: &Mutant) -> (r: MutantResult)
    ensures
        mutant_ok(*ir, views_of(baseline@), *mutant, r@),
{
    let mutated = apply_mutation(ir, &mutant.mutation);
    if ir_equal(&mutated, ir) {
        let r = MutantResult {
            mutant_id: mutant.id.clone(),
            class: mutant.class.clone(),
            critical: mutant.critical,
            applied: false,
            killed: false,
            detecting_obligations: Vec::new(),
            degraded_obligations: Vec::new(),
            description: mutant.description.clone(),
        };
        proof {
            assert(r@.detecting =~= Seq::<Seq<char>>::empty());
            assert(r@.degraded =~= Seq::<Seq<char>>::empty());
            assert(r@ == mutant_result_v(*ir, mutated, views_of(baseline@), *mutant));
        }
        return r;
    }
    let results = verify_all(&mutated);
    let detecting = newly_exec(&results, baseline, "failed");
    let degraded = newly_exec(&results, baseline, "indeterminate");
    let killed = detecting.len() > 0;
    let r = MutantResult {
        mutant_id: mutant.id.clone(),
        class: mutant.class.clone(),
        critical: mutant.critical,
        applied: true,
        killed,
        detecting_obligations: detecting,
        degraded_obligations: degraded,
        description: mutant.description.clone(),
    };
    proof {
        assert(r@ == mutant_result_v(*ir, mutated, views_of(baseline@), *mutant));
    }
    r
}

// ===================================================================
// The campaign.
// ===================================================================

pub open spec fn strs_v(ts: Seq<Seq<char>>) -> SexprV {
    SexprV::List(ts.map_values(|t: Seq<char>| SexprV::Str(t)))
}

/// `(mutant-result (mutant-id "..") (class c) (critical b) (applied b)
/// (killed b) (detecting-obligations (..)) (degraded-obligations (..))
/// (description ".."))`.
pub open spec fn mutant_result_sexpr_v(r: MutantResultV) -> SexprV {
    SexprV::List(seq![
        SexprV::Sym("mutant-result"@),
        pair_v("mutant-id"@, SexprV::Str(r.mutant_id)),
        pair_v("class"@, SexprV::Sym(r.class)),
        pair_v("critical"@, bool_v(r.critical)),
        pair_v("applied"@, bool_v(r.applied)),
        pair_v("killed"@, bool_v(r.killed)),
        pair_v("detecting-obligations"@, strs_v(r.detecting)),
        pair_v("degraded-obligations"@, strs_v(r.degraded)),
        pair_v("description"@, SexprV::Str(r.description)),
    ])
}

pub open spec fn blind_spot_v(r: MutantResultV) -> SexprV {
    SexprV::List(seq![
        SexprV::Sym("blind-spot"@),
        pair_v("mutant-id"@, SexprV::Str(r.mutant_id)),
        pair_v("class"@, SexprV::Sym(r.class)),
        pair_v("description"@, SexprV::Str(r.description)),
    ])
}

/// The tallies of a campaign: 0 killed, 1 survived (applied, not
/// killed), 2 inapplicable, 3 survived with a degradation, 4 critical
/// and survived.
pub open spec fn tally(r: MutantResultV, tag: int) -> bool {
    if tag == 0 {
        r.killed
    } else if tag == 1 {
        r.applied && !r.killed
    } else if tag == 2 {
        !r.applied
    } else if tag == 3 {
        r.applied && !r.killed && r.degraded.len() > 0
    } else {
        r.applied && !r.killed && r.critical
    }
}

pub open spec fn count_v(rs: Seq<MutantResultV>, tag: int) -> nat
    decreases rs.len(),
{
    if rs.len() == 0 {
        0
    } else {
        count_v(rs.drop_last(), tag) + if tally(rs.last(), tag) { 1nat } else { 0nat }
    }
}

/// The blind spots: the critical survivors, in order.
pub open spec fn blind_spots_v(rs: Seq<MutantResultV>) -> Seq<SexprV>
    decreases rs.len(),
{
    if rs.len() == 0 {
        Seq::empty()
    } else if tally(rs.last(), 4) {
        blind_spots_v(rs.drop_last()).push(blind_spot_v(rs.last()))
    } else {
        blind_spots_v(rs.drop_last())
    }
}

/// Every critical mutant was applied and killed.
pub open spec fn passes_v(rs: Seq<MutantResultV>) -> bool {
    forall|i: int| 0 <= i < rs.len() ==> !(#[trigger] rs[i]).critical || (rs[i].applied && rs[i].killed)
}

pub open spec fn count_int(n: nat) -> SexprV {
    SexprV::Int(((n as usize) as i64) as int)
}

pub open spec fn campaign_fields_v(ir: Ir, rs: Seq<MutantResultV>) -> Seq<SexprV> {
    seq![
        pair_v("schema"@, SexprV::Str(ADEQUACY_SCHEMA@)),
        pair_v("subject"@, SexprV::List(seq![
            pair_v("module"@, SexprV::Str(ir.module_name@)),
            pair_v("ir-fingerprint"@, SexprV::Str(ir.fingerprint@)),
        ])),
        pair_v("total"@, count_int(rs.len())),
        pair_v("killed"@, count_int(count_v(rs, 0))),
        pair_v("survived"@, count_int(count_v(rs, 1))),
        pair_v("inapplicable"@, count_int(count_v(rs, 2))),
        pair_v("degraded-only"@, count_int(count_v(rs, 3))),
        pair_v("critical-survived"@, count_int(count_v(rs, 4))),
        pair_v("pass"@, bool_v(passes_v(rs))),
        pair_v("results"@, SexprV::List(rs.map_values(|r: MutantResultV| mutant_result_sexpr_v(r)))),
        pair_v("blind-spots"@, SexprV::List(blind_spots_v(rs))),
    ]
}

/// `(campaign-result (... (fingerprint "..")))`: the fingerprint is that
/// of the form without it.
pub open spec fn campaign_v(ir: Ir, rs: Seq<MutantResultV>) -> SexprV {
    let fields = campaign_fields_v(ir, rs);
    let free = SexprV::List(seq![SexprV::Sym("campaign-result"@), SexprV::List(fields)]);
    SexprV::List(seq![
        SexprV::Sym("campaign-result"@),
        SexprV::List(fields.push(pair_v("fingerprint"@, SexprV::Str(fingerprint_text(print_v(free)))))),
    ])
}

fn strs_sexpr(ts: &Vec<String>) -> (r: Sexpr)
    ensures
        r@ == strs_v(ts@.map_values(|s: String| s@)),
{
    let mut out: Vec<Sexpr> = Vec::new();
    let mut i: usize = 0;
    while i < ts.len()
        invariant
            i <= ts.len(),
            views_of(out@) == ts@.take(i as int).map_values(|s: String| SexprV::Str(s@)),
        decreases ts.len() - i,
    {
        let x = Sexpr::Str(ts[i].clone());
        proof {
            lemma_views_push(out@, x);
            assert(ts@.take(i + 1).map_values(|s: String| SexprV::Str(s@)) =~= ts@.take(i as int).map_values(
                |s: String| SexprV::Str(s@),
            ).push(x@));
        }
        out.push(x);
        i = i + 1;
    }
    assert(ts@.take(i as int) =~= ts@);
    assert(views_of(out@) =~= ts@.map_values(|s: String| s@).map_values(|t: Seq<char>| SexprV::Str(t)));
    Sexpr::List(out)
}

fn mutant_result_to_sexpr(r: &MutantResult) -> (s: Sexpr)
    ensures
        s@ == mutant_result_sexpr_v(r@),
{
    let items = vec![
        Sexpr::sym("mutant-result"),
        Sexpr::pair("mutant-id", Sexpr::Str(r.mutant_id.clone())),
        Sexpr::pair("class", Sexpr::sym(r.class.as_str())),
        Sexpr::pair("critical", bool_sexpr(r.critical)),
        Sexpr::pair("applied", bool_sexpr(r.applied)),
        Sexpr::pair("killed", bool_sexpr(r.killed)),
        Sexpr::pair("detecting-obligations", strs_sexpr(&r.detecting_obligations)),
        Sexpr::pair("degraded-obligations", strs_sexpr(&r.degraded_obligations)),
        Sexpr::pair("description", Sexpr::Str(r.description.clone())),
    ];
    proof {
        lemma_views_of(items@);
        assert(views_of(items@) =~= mutant_result_sexpr_v(r@)->List_0);
    }
    Sexpr::List(items)
}

fn blind_spot_to_sexpr(r: &MutantResult) -> (s: Sexpr)
    ensures
        s@ == blind_spot_v(r@),
{
    crate::sexpr::list4(
        Sexpr::sym("blind-spot"),
        Sexpr::pair("mutant-id", Sexpr::Str(r.mutant_id.clone())),
        Sexpr::pair("class", Sexpr::sym(r.class.as_str())),
        Sexpr::pair("description", Sexpr::Str(r.description.clone())),
    )
}

proof fn lemma_count_bound(rs: Seq<MutantResultV>, tag: int)
    ensures
        count_v(rs, tag) <= rs.len(),
    decreases rs.len(),
{
    if rs.len() > 0 {
        lemma_count_bound(rs.drop_last(), tag);
    }
}

/// The campaign's fields (see `campaign_fields_v`) for the results `rs`.
fn campaign_fields(ir: &Ir, rs: &Vec<MutantResult>) -> (r: Vec<Sexpr>)
    ensures
        views_of(r@) == campaign_fields_v(*ir, rs@.map_values(|m: MutantResult| m@)),
{
    let ghost rv = rs@.map_values(|m: MutantResult| m@);
    let mut counts: [usize; 5] = [0, 0, 0, 0, 0];
    let mut pass = true;
    let mut printed: Vec<Sexpr> = Vec::new();
    let mut blind: Vec<Sexpr> = Vec::new();
    let mut i: usize = 0;
    while i < rs.len()
        invariant
            i <= rs.len(),
            rv == rs@.map_values(|m: MutantResult| m@),
            forall|t: int| 0 <= t < 5 ==> counts@[t] == count_v(rv.take(i as int), t),
            pass == passes_v(rv.take(i as int)),
            views_of(printed@) == rv.take(i as int).map_values(|r: MutantResultV| mutant_result_sexpr_v(r)),
            views_of(blind@) == blind_spots_v(rv.take(i as int)),
        decreases rs.len() - i,
    {
        let r = &rs[i];
        let ghost prefix = rv.take(i as int);
        proof {
            assert(rv.take(i + 1).drop_last() =~= prefix);
            assert(rv.take(i + 1).last() == r@);
            assert forall|t: int| 0 <= t < 5 implies count_v(prefix, t) <= i by {
                lemma_count_bound(prefix, t);
            }
        }
        let survived = r.applied && !r.killed;
        if r.killed {
            counts[0] = counts[0] + 1;
        }
        if survived {
            counts[1] = counts[1] + 1;
        }
        if !r.applied {
            counts[2] = counts[2] + 1;
        }
        if survived && r.degraded_obligations.len() > 0 {
            counts[3] = counts[3] + 1;
        }
        if survived && r.critical {
            counts[4] = counts[4] + 1;
            let b = blind_spot_to_sexpr(r);
            proof {
                lemma_views_push(blind@, b);
            }
            blind.push(b);
        }
        if r.critical && !(r.applied && r.killed) {
            pass = false;
        }
        let x = mutant_result_to_sexpr(r);
        proof {
            lemma_views_push(printed@, x);
            assert(rv.take(i + 1).map_values(|r: MutantResultV| mutant_result_sexpr_v(r)) =~= prefix.map_values(
                |r: MutantResultV| mutant_result_sexpr_v(r),
            ).push(x@));
            assert(passes_v(rv.take(i + 1)) == (passes_v(prefix) && (!r@.critical || (r@.applied && r@.killed)))) by {
                if passes_v(prefix) && (!r@.critical || (r@.applied && r@.killed)) {
                    assert forall|k: int| 0 <= k < i + 1 implies !(#[trigger] rv.take(i + 1)[k]).critical || (
                    rv.take(i + 1)[k].applied && rv.take(i + 1)[k].killed) by {
                        if k < i {
                            assert(rv.take(i + 1)[k] == prefix[k]);
                        }
                    }
                }
                if passes_v(rv.take(i + 1)) {
                    assert(rv.take(i + 1)[i as int] == r@);
                    assert forall|k: int| 0 <= k < i implies !(#[trigger] prefix[k]).critical || (prefix[k].applied
                        && prefix[k].killed) by {
                        assert(rv.take(i + 1)[k] == prefix[k]);
                    }
                }
            }
        }
        printed.push(x);
        i = i + 1;
    }
    assert(rv.take(i as int) =~= rv);
    proof {
        lemma_count_bound(rv, 0);
    }
    let subject = list2(
        Sexpr::pair("module", Sexpr::Str(ir.module_name.clone())),
        Sexpr::pair("ir-fingerprint", Sexpr::Str(ir.fingerprint.clone())),
    );
    let fields = vec![
        Sexpr::pair("schema", Sexpr::Str(owned(ADEQUACY_SCHEMA))),
        Sexpr::pair("subject", subject),
        Sexpr::pair("total", Sexpr::Int(rs.len() as i64)),
        Sexpr::pair("killed", Sexpr::Int(counts[0] as i64)),
        Sexpr::pair("survived", Sexpr::Int(counts[1] as i64)),
        Sexpr::pair("inapplicable", Sexpr::Int(counts[2] as i64)),
        Sexpr::pair("degraded-only", Sexpr::Int(counts[3] as i64)),
        Sexpr::pair("critical-survived", Sexpr::Int(counts[4] as i64)),
        Sexpr::pair("pass", bool_sexpr(pass)),
        Sexpr::pair("results", Sexpr::List(printed)),
        Sexpr::pair("blind-spots", Sexpr::List(blind)),
    ];
    proof {
        lemma_views_of(fields@);
        assert(views_of(fields@) =~= campaign_fields_v(*ir, rv));
    }
    fields
}

/// The whole campaign (see `campaign_v`): the baseline is verified
/// once, then every mutant is run against it.
pub fn run_campaign(ir: &Ir, mutants: &[Mutant]) -> (r: Sexpr)
    ensures
        exists|rs: Seq<MutantResultV>|
            rs.len() == mutants.len() && (forall|i: int| 0 <= i < rs.len() ==> mutant_ok(*ir, results_v(*ir), mutants@[i], #[trigger] rs[i]))
                && r@ == #[trigger] campaign_v(*ir, rs),
{
    let baseline = verify_all(ir);
    let mut results: Vec<MutantResult> = Vec::new();
    let mut i: usize = 0;
    while i < mutants.len()
        invariant
            i <= mutants.len(),
            views_of(baseline@) == results_v(*ir),
            results.len() == i,
            forall|j: int| 0 <= j < i ==> mutant_ok(*ir, results_v(*ir), mutants@[j], #[trigger] results@[j]@),
        decreases mutants.len() - i,
    {
        let m = run_mutant(ir, baseline.as_slice(), &mutants[i]);
        results.push(m);
        i = i + 1;
    }
    let fields = campaign_fields(ir, &results);
    let ghost rv = results@.map_values(|m: MutantResult| m@);
    let copy = crate::transition::clone_all(fields.as_slice());
    let free = list2(Sexpr::sym("campaign-result"), Sexpr::List(copy));
    let fp = fingerprint(&free);
    let mut all = fields;
    let x = Sexpr::pair("fingerprint", Sexpr::Str(fp));
    proof {
        lemma_views_push(all@, x);
    }
    all.push(x);
    let r = list2(Sexpr::sym("campaign-result"), Sexpr::List(all));
    proof {
        assert(r@ == campaign_v(*ir, rv));
        assert forall|k: int| 0 <= k < rv.len() implies mutant_ok(*ir, results_v(*ir), mutants@[k], #[trigger] rv[k]) by {
            assert(rv[k] == results@[k]@);
        }
    }
    r
}

// ===================================================================
// Laws.
// ===================================================================

/// A mutation never touches the IR's header: its schema, module name
/// and fields, diagnostics and fingerprint stay as they were (it is not
/// fingerprinted again).
pub proof fn lemma_mutation_keeps_header(ir: IrV, m: Mutation)
    ensures
        mutated_v(ir, m).schema == ir.schema,
        mutated_v(ir, m).module_name == ir.module_name,
        mutated_v(ir, m).module_fields == ir.module_fields,
        mutated_v(ir, m).diagnostics == ir.diagnostics,
        mutated_v(ir, m).fingerprint == ir.fingerprint,
{
}

/// Replacing the node with id `id` keeps every other node, in place.
pub proof fn lemma_replace_keeps_others(vs: Seq<NodeV>, id: Seq<char>, new: NodeV)
    ensures
        replaced_v(vs, id, new).len() == vs.len(),
        forall|k: int| 0 <= k < vs.len() && vs[k].id != id ==> #[trigger] replaced_v(vs, id, new)[k] == vs[k],
        forall|k: int| 0 <= k < vs.len() && vs[k].id == id ==> #[trigger] replaced_v(vs, id, new)[k] == new,
{
}

/// Removing the nodes with id `id` keeps every other node, in order.
pub proof fn lemma_remove_keeps_others(vs: Seq<NodeV>, id: Seq<char>)
    ensures
        without_id(vs, id) == vs.filter(|v: NodeV| v.id != id),
    decreases vs.len(),
{
    reveal(Seq::filter);
    if vs.len() > 0 {
        lemma_remove_keeps_others(vs.drop_last(), id);
    }
}

/// A mutation whose target the IR does not have changes nothing, so
/// the mutant is inapplicable: not killed, with nothing detected.
pub proof fn lemma_missing_target_inapplicable(ir: Ir, bs: Seq<SexprV>, m: Mutant, r: MutantResultV)
    requires
        mutant_ok(ir, bs, m, r),
        first_named(all_v(ir_view(ir)), "behavior"@, target_name(m.mutation)) is None,
        first_named(all_v(ir_view(ir)), "invariant"@, target_name(m.mutation)) is None,
    ensures
        !r.applied,
        !r.killed,
        r.detecting.len() == 0,
        r.degraded.len() == 0,
{
    let mi = choose|mi: Ir| ir_view(mi) == mutated_v(ir_view(ir), m.mutation) && r == #[trigger] mutant_result_v(ir, mi, bs, m);
    assert(mutated_v(ir_view(ir), m.mutation) == ir_view(ir));
}

/// The verdict on one mutant: it was applied exactly when the mutation
/// changed the IR; it is killed exactly when some obligation newly
/// fails; an inapplicable mutant is neither killed nor detected nor
/// degraded; and the mutant's id, class, criticality and description are
/// carried over.
pub proof fn lemma_mutant_verdict(ir: Ir, bs: Seq<SexprV>, m: Mutant, r: MutantResultV)
    requires
        mutant_ok(ir, bs, m, r),
    ensures
        r.applied == (mutated_v(ir_view(ir), m.mutation) != ir_view(ir)),
        r.killed == (r.detecting.len() > 0),
        !r.applied ==> !r.killed && r.detecting.len() == 0 && r.degraded.len() == 0,
        r.mutant_id == m.id@,
        r.class == m.class@,
        r.critical == m.critical,
        r.description == m.description@,
{
    let mi = choose|mi: Ir| ir_view(mi) == mutated_v(ir_view(ir), m.mutation) && r == #[trigger] mutant_result_v(ir, mi, bs, m);
}

/// The name a mutation targets.
pub open spec fn target_name(m: Mutation) -> Seq<char> {
    match m {
        Mutation::WeakenPrecondition { behavior_name } => behavior_name@,
        Mutation::RemoveInvariant { invariant_name } => invariant_name@,
        Mutation::WeakenLimit { invariant_name, .. } => invariant_name@,
        Mutation::RemoveFailureMode { behavior_name } => behavior_name@,
        Mutation::SkipStateWrite { behavior_name } => behavior_name@,
    }
}

proof fn lemma_partition(rs: Seq<MutantResultV>)
    requires
        forall|i: int| 0 <= i < rs.len() ==> (#[trigger] rs[i]).killed ==> rs[i].applied,
    ensures
        count_v(rs, 0) + count_v(rs, 1) + count_v(rs, 2) == rs.len(),
        count_v(rs, 4) <= count_v(rs, 1),
        count_v(rs, 3) <= count_v(rs, 1),
    decreases rs.len(),
{
    if rs.len() > 0 {
        assert forall|i: int| 0 <= i < rs.drop_last().len() && (#[trigger] rs.drop_last()[i]).killed implies rs.drop_last()[i].applied by {
            assert(rs.drop_last()[i] == rs[i]);
        }
        lemma_partition(rs.drop_last());
        assert(rs.last() == rs[rs.len() - 1]);
    }
}

/// Every mutant of a campaign is exactly one of killed, survived or
/// inapplicable; critical and degraded survivors are survivors; and the
/// campaign passes exactly when every critical mutant was applied and
/// killed.
pub proof fn lemma_campaign_partitions(ir: Ir, bs: Seq<SexprV>, ms: Seq<Mutant>, rs: Seq<MutantResultV>)
    requires
        rs.len() == ms.len(),
        forall|i: int| 0 <= i < rs.len() ==> mutant_ok(ir, bs, ms[i], #[trigger] rs[i]),
    ensures
        count_v(rs, 0) + count_v(rs, 1) + count_v(rs, 2) == rs.len(),
        count_v(rs, 4) <= count_v(rs, 1),
        count_v(rs, 3) <= count_v(rs, 1),
        passes_v(rs) <==> forall|i: int| 0 <= i < rs.len() && (#[trigger] rs[i]).critical ==> rs[i].applied && rs[i].killed,
{
    assert forall|i: int| 0 <= i < rs.len() && (#[trigger] rs[i]).killed implies rs[i].applied by {
        assert(mutant_ok(ir, bs, ms[i], rs[i]));
        let mi = choose|mi: Ir| ir_view(mi) == mutated_v(ir_view(ir), ms[i].mutation) && rs[i] == #[trigger] mutant_result_v(ir, mi, bs, ms[i]);
    }
    lemma_partition(rs);
}

/// A campaign's fingerprint is the fingerprint of its printed form
/// without the fingerprint entry.
pub proof fn lemma_campaign_fingerprint(ir: Ir, rs: Seq<MutantResultV>)
    ensures
        ({
            let items = campaign_v(ir, rs)->List_0[1]->List_0;
            &&& items.last() == pair_v("fingerprint"@, SexprV::Str(fingerprint_text(print_v(SexprV::List(seq![
                SexprV::Sym("campaign-result"@),
                SexprV::List(items.drop_last()),
            ])))))
        }),
{
    let fields = campaign_fields_v(ir, rs);
    let items = campaign_v(ir, rs)->List_0[1]->List_0;
    assert(items.drop_last() =~= fields);
}

} // verus!
