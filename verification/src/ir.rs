//! The semantic IR: nodes partitioned into design, transitions,
//! obligations and synthesis, canonically ordered, fingerprinted over
//! their canonical print.
use vstd::prelude::*;
use crate::fingerprint::{fingerprint, fingerprint_text};
use crate::order::{Ranked, sort_stable, stable_sort};
use crate::sexpr::{Sexpr, SexprV, assoc_v, clone_sexpr, lemma_views_of, lemma_views_push, list2, pair_v, print_v, views_of};
use crate::text::{concat, owned, push_str, str_eq, str_lt, text_lt};
use crate::diag::{diag_sexpr, diag_v};
use crate::order::texts;

verus! {

/// One semantic IR node. Fields are canonically sorted by key at
/// construction; clause order is preserved (sequence can be semantic).
#[derive(Debug, PartialEq)]
pub struct IrNode {
    pub id: String,
    pub kind: String,
    pub name: String,
    pub fields: Vec<(String, Sexpr)>,
    pub clauses: Vec<Sexpr>,
    pub mechanism: String,
}

impl Ranked for (String, Sexpr) {
    open spec fn rank_gt(self, other: Self) -> bool {
        text_lt(other.0@, self.0@)
    }

    fn gt(&self, other: &Self) -> (r: bool) {
        str_lt(other.0.as_str(), self.0.as_str())
    }
}

impl Ranked for IrNode {
    open spec fn rank_gt(self, other: Self) -> bool {
        text_lt(other.id@, self.id@)
    }

    fn gt(&self, other: &Self) -> (r: bool) {
        str_lt(other.id.as_str(), self.id.as_str())
    }
}

/// `(key value)` for one field.
pub open spec fn field_entry_v(f: (String, Sexpr)) -> SexprV {
    SexprV::List(seq![SexprV::Sym(f.0@), f.1@])
}

/// The alist of fields, in order.
pub open spec fn field_list_v(fs: Seq<(String, Sexpr)>) -> SexprV {
    SexprV::List(fs.map_values(|f: (String, Sexpr)| field_entry_v(f)))
}

/// `(ir-node ((id "...") (kind k) (name n) (fields (...)) (clauses (...)) (mechanism m)))`.
pub open spec fn ir_node_v(n: IrNode) -> SexprV {
    SexprV::List(seq![
        SexprV::Sym("ir-node"@),
        SexprV::List(seq![
            pair_v("id"@, SexprV::Str(n.id@)),
            pair_v("kind"@, SexprV::Sym(n.kind@)),
            pair_v("name"@, SexprV::Sym(n.name@)),
            pair_v("fields"@, field_list_v(n.fields@)),
            pair_v("clauses"@, SexprV::List(views_of(n.clauses@))),
            pair_v("mechanism"@, SexprV::Sym(n.mechanism@)),
        ]),
    ])
}

/// The fields alist as a fresh value.
pub fn field_list(fields: &[(String, Sexpr)]) -> (r: Sexpr)
    ensures
        r@ == field_list_v(fields@),
{
    let mut out: Vec<Sexpr> = Vec::new();
    let mut i: usize = 0;
    while i < fields.len()
        invariant
            i <= fields.len(),
            views_of(out@) == fields@.take(i as int).map_values(|f: (String, Sexpr)| field_entry_v(f)),
        decreases fields.len() - i,
    {
        let e = list2(Sexpr::Sym(fields[i].0.clone()), clone_sexpr(&fields[i].1));
        proof {
            lemma_views_push(out@, e);
        }
        out.push(e);
        assert(fields@.take(i + 1).map_values(|f: (String, Sexpr)| field_entry_v(f)) =~= fields@.take(i as int).map_values(|f: (String, Sexpr)| field_entry_v(f)).push(field_entry_v(fields@[i as int])));
        i = i + 1;
    }
    assert(fields@.take(fields.len() as int) =~= fields@);
    Sexpr::List(out)
}

/// A copy of a vector of values.
pub fn clone_sexprs(v: &Vec<Sexpr>) -> (r: Vec<Sexpr>)
    ensures
        views_of(r@) == views_of(v@),
{
    let mut out: Vec<Sexpr> = Vec::new();
    let mut i: usize = 0;
    while i < v.len()
        invariant
            i <= v.len(),
            views_of(out@) == views_of(v@.take(i as int)),
        decreases v.len() - i,
    {
        let e = clone_sexpr(&v[i]);
        proof {
            lemma_views_push(out@, e);
            lemma_views_push(v@.take(i as int), v@[i as int]);
            assert(v@.take(i + 1) =~= v@.take(i as int).push(v@[i as int]));
        }
        out.push(e);
        i = i + 1;
    }
    assert(v@.take(v.len() as int) =~= v@);
    out
}

impl IrNode {
    /// A node with its fields stably sorted by key (byte-wise order),
    /// mechanism `parsed`.
    pub fn new(id: String, kind: &str, name: String, fields: Vec<(String, Sexpr)>, clauses: Vec<Sexpr>) -> (r: IrNode)
        ensures
            r.id@ == id@,
            r.kind@ == kind@,
            r.name@ == name@,
            r.fields@ == stable_sort(fields@),
            r.clauses@ == clauses@,
            r.mechanism@ == "parsed"@,
    {
        let fields = sort_stable(fields);
        IrNode { id, kind: owned(kind), name, fields, clauses, mechanism: owned("parsed") }
    }

    pub fn to_sexpr(&self) -> (r: Sexpr)
        ensures
            r@ == ir_node_v(*self),
    {
        let items = vec![
            Sexpr::pair("id", Sexpr::Str(self.id.clone())),
            Sexpr::pair("kind", Sexpr::sym(self.kind.as_str())),
            Sexpr::pair("name", Sexpr::sym(self.name.as_str())),
            Sexpr::pair("fields", field_list(&self.fields)),
            Sexpr::pair("clauses", Sexpr::List(clone_sexprs(&self.clauses))),
            Sexpr::pair("mechanism", Sexpr::sym(self.mechanism.as_str())),
        ];
        let ghost iv = items@;
        let body = Sexpr::List(items);
        proof {
            lemma_views_of(iv);
            assert(views_of(iv) =~= ir_node_v(*self)->List_0[1]->List_0);
        }
        list2(Sexpr::sym("ir-node"), body)
    }

    /// Field lookup by exact key (keys carry the leading colon).
    pub fn field(&self, key: &str) -> (r: Option<&Sexpr>)
        ensures
            match first_field(self.fields@, key@) {
                Some(v) => r is Some && r->0@ == v,
                None => r is None,
            },
    {
        let mut i: usize = 0;
        assert(self.fields@.skip(0) =~= self.fields@);
        while i < self.fields.len()
            invariant
                i <= self.fields.len(),
                first_field(self.fields@, key@) == first_field(self.fields@.skip(i as int), key@),
            decreases self.fields.len() - i,
        {
            assert(self.fields@.skip(i as int).drop_first() =~= self.fields@.skip(i + 1));
            if str_eq(self.fields[i].0.as_str(), key) {
                return Some(&self.fields[i].1);
            }
            i = i + 1;
        }
        None
    }
}

/// The value of the first field whose key is `key`.
pub open spec fn first_field(fs: Seq<(String, Sexpr)>, key: Seq<char>) -> Option<SexprV>
    decreases fs.len(),
{
    if fs.len() == 0 {
        None
    } else if fs[0].0@ == key {
        Some(fs[0].1@)
    } else {
        first_field(fs.drop_first(), key)
    }
}


#[derive(Debug, PartialEq)]
pub struct Ir {
    pub schema: String,
    pub module_name: String,
    pub module_fields: Vec<(String, Sexpr)>,
    pub design: Vec<IrNode>,
    pub transitions: Vec<IrNode>,
    pub obligations: Vec<IrNode>,
    pub synthesis: Vec<IrNode>,
    pub diagnostics: Vec<Sexpr>,
    pub fingerprint: String,
}

/// `(n1 n2 ...)` of printed nodes.
pub open spec fn nodes_list_v(ns: Seq<IrNode>) -> SexprV {
    SexprV::List(ns.map_values(|n: IrNode| ir_node_v(n)))
}

/// The entries of the IR form before its fingerprint.
pub open spec fn ir_items_v(
    schema: Seq<char>,
    module_name: Seq<char>,
    module_fields: Seq<(String, Sexpr)>,
    design: Seq<IrNode>,
    transitions: Seq<IrNode>,
    obligations: Seq<IrNode>,
    synthesis: Seq<IrNode>,
    diagnostics: Seq<Sexpr>,
) -> Seq<SexprV> {
    seq![
        pair_v("schema"@, SexprV::Str(schema)),
        pair_v("module"@, SexprV::List(seq![
            pair_v("name"@, SexprV::Sym(module_name)),
            pair_v("fields"@, field_list_v(module_fields)),
        ])),
        pair_v("design"@, nodes_list_v(design)),
        pair_v("transitions"@, nodes_list_v(transitions)),
        pair_v("obligations"@, nodes_list_v(obligations)),
        pair_v("synthesis"@, nodes_list_v(synthesis)),
        pair_v("diagnostics"@, SexprV::List(views_of(diagnostics))),
    ]
}

/// `(ir (...))` without the fingerprint entry.
pub open spec fn ir_base_v(
    schema: Seq<char>,
    module_name: Seq<char>,
    module_fields: Seq<(String, Sexpr)>,
    design: Seq<IrNode>,
    transitions: Seq<IrNode>,
    obligations: Seq<IrNode>,
    synthesis: Seq<IrNode>,
    diagnostics: Seq<Sexpr>,
) -> SexprV {
    SexprV::List(seq![
        SexprV::Sym("ir"@),
        SexprV::List(ir_items_v(schema, module_name, module_fields, design, transitions, obligations, synthesis, diagnostics)),
    ])
}

/// The fingerprint-free form of an IR value.
pub open spec fn ir_unprinted_v(ir: Ir) -> SexprV {
    ir_base_v(ir.schema@, ir.module_name@, ir.module_fields@, ir.design@, ir.transitions@, ir.obligations@, ir.synthesis@, ir.diagnostics@)
}

/// The full IR form: the fingerprint-free entries plus `(fingerprint "...")`.
pub open spec fn ir_v(ir: Ir) -> SexprV {
    SexprV::List(seq![
        SexprV::Sym("ir"@),
        SexprV::List(ir_items_v(ir.schema@, ir.module_name@, ir.module_fields@, ir.design@, ir.transitions@, ir.obligations@, ir.synthesis@, ir.diagnostics@)
            .push(pair_v("fingerprint"@, SexprV::Str(ir.fingerprint@)))),
    ])
}

/// All nodes, partition by partition.
pub open spec fn all_nodes_v(ir: Ir) -> Seq<IrNode> {
    ir.design@ + ir.transitions@ + ir.obligations@ + ir.synthesis@
}

/// The nodes of `ns` whose kind is `kind`, in order.
pub open spec fn nodes_with_kind(ns: Seq<IrNode>, kind: Seq<char>) -> Seq<IrNode>
    decreases ns.len(),
{
    if ns.len() == 0 {
        Seq::empty()
    } else if ns.last().kind@ == kind {
        nodes_with_kind(ns.drop_last(), kind).push(ns.last())
    } else {
        nodes_with_kind(ns.drop_last(), kind)
    }
}

/// The first node of `ns` whose id is `id`.
pub open spec fn first_with_id(ns: Seq<IrNode>, id: Seq<char>) -> Option<IrNode>
    decreases ns.len(),
{
    if ns.len() == 0 {
        None
    } else if ns[0].id@ == id {
        Some(ns[0])
    } else {
        first_with_id(ns.drop_first(), id)
    }
}

/// Whether a diagnostic reads as error-severity: its `severity` entry
/// is the symbol `error`.
pub open spec fn is_error_diag_v(d: SexprV) -> bool {
    assoc_v(d, "severity"@) == Some(SexprV::Sym("error"@))
}

/// The printed nodes.
pub fn nodes_list(ns: &[IrNode]) -> (r: Sexpr)
    ensures
        r@ == nodes_list_v(ns@),
{
    let mut out: Vec<Sexpr> = Vec::new();
    let mut i: usize = 0;
    while i < ns.len()
        invariant
            i <= ns.len(),
            views_of(out@) == ns@.take(i as int).map_values(|n: IrNode| ir_node_v(n)),
        decreases ns.len() - i,
    {
        let e = ns[i].to_sexpr();
        proof {
            lemma_views_push(out@, e);
        }
        out.push(e);
        assert(ns@.take(i + 1).map_values(|n: IrNode| ir_node_v(n)) =~= ns@.take(i as int).map_values(|n: IrNode| ir_node_v(n)).push(ir_node_v(ns@[i as int])));
        i = i + 1;
    }
    assert(ns@.take(ns.len() as int) =~= ns@);
    Sexpr::List(out)
}

pub fn clone_slice_sexprs(v: &[Sexpr]) -> (r: Vec<Sexpr>)
    ensures
        views_of(r@) == views_of(v@),
{
    let mut out: Vec<Sexpr> = Vec::new();
    let mut i: usize = 0;
    while i < v.len()
        invariant
            i <= v.len(),
            views_of(out@) == views_of(v@.take(i as int)),
        decreases v.len() - i,
    {
        let e = clone_sexpr(&v[i]);
        proof {
            lemma_views_push(out@, e);
            lemma_views_push(v@.take(i as int), v@[i as int]);
            assert(v@.take(i + 1) =~= v@.take(i as int).push(v@[i as int]));
        }
        out.push(e);
        i = i + 1;
    }
    assert(v@.take(v.len() as int) =~= v@);
    out
}

fn ir_items(
    schema: &str,
    module_name: &str,
    module_fields: &[(String, Sexpr)],
    design: &[IrNode],
    transitions: &[IrNode],
    obligations: &[IrNode],
    synthesis: &[IrNode],
    diagnostics: &[Sexpr],
) -> (r: Vec<Sexpr>)
    ensures
        views_of(r@) == ir_items_v(schema@, module_name@, module_fields@, design@, transitions@, obligations@, synthesis@, diagnostics@),
{
    let module = list2(
        Sexpr::pair("name", Sexpr::sym(module_name)),
        Sexpr::pair("fields", field_list(module_fields)),
    );
    let items = vec![
        Sexpr::pair("schema", Sexpr::Str(owned(schema))),
        Sexpr::pair("module", module),
        Sexpr::pair("design", nodes_list(design)),
        Sexpr::pair("transitions", nodes_list(transitions)),
        Sexpr::pair("obligations", nodes_list(obligations)),
        Sexpr::pair("synthesis", nodes_list(synthesis)),
        Sexpr::pair("diagnostics", Sexpr::List(clone_slice_sexprs(diagnostics))),
    ];
    proof {
        lemma_views_of(items@);
        assert(views_of(items@) =~= ir_items_v(schema@, module_name@, module_fields@, design@, transitions@, obligations@, synthesis@, diagnostics@));
    }
    items
}

impl Ir {
    /// An IR value: module fields stably sorted by key, each partition
    /// stably sorted by node id, and the fingerprint of the
    /// fingerprint-free print stored.
    pub fn new(
        schema: String,
        module_name: String,
        module_fields: Vec<(String, Sexpr)>,
        design: Vec<IrNode>,
        transitions: Vec<IrNode>,
        obligations: Vec<IrNode>,
        synthesis: Vec<IrNode>,
        diagnostics: Vec<Sexpr>,
    ) -> (r: Ir)
        ensures
            r.schema@ == schema@,
            r.module_name@ == module_name@,
            r.module_fields@ == stable_sort(module_fields@),
            r.design@ == stable_sort(design@),
            r.transitions@ == stable_sort(transitions@),
            r.obligations@ == stable_sort(obligations@),
            r.synthesis@ == stable_sort(synthesis@),
            r.diagnostics@ == diagnostics@,
            r.fingerprint@ == fingerprint_text(print_v(ir_unprinted_v(r))),
    {
        let module_fields = sort_stable(module_fields);
        let design = sort_stable(design);
        let transitions = sort_stable(transitions);
        let obligations = sort_stable(obligations);
        let synthesis = sort_stable(synthesis);
        let base = Ir::to_sexpr_without_fingerprint(
            schema.as_str(),
            module_name.as_str(),
            module_fields.as_slice(),
            design.as_slice(),
            transitions.as_slice(),
            obligations.as_slice(),
            synthesis.as_slice(),
            diagnostics.as_slice(),
        );
        let fingerprint = fingerprint(&base);
        Ir { schema, module_name, module_fields, design, transitions, obligations, synthesis, diagnostics, fingerprint }
    }

    /// All nodes, partition by partition, each partition in id order.
    pub fn all_nodes(&self) -> (r: Vec<&IrNode>)
        ensures
            r@.map_values(|n: &IrNode| *n) == all_nodes_v(*self),
    {
        let mut all: Vec<&IrNode> = Vec::new();
        push_refs(&mut all, &self.design);
        push_refs(&mut all, &self.transitions);
        push_refs(&mut all, &self.obligations);
        push_refs(&mut all, &self.synthesis);
        all
    }

    /// All nodes whose `kind` equals `kind`, in `all_nodes` order.
    pub fn nodes_of_kind(&self, kind: &str) -> (r: Vec<&IrNode>)
        ensures
            r@.map_values(|n: &IrNode| *n) == nodes_with_kind(all_nodes_v(*self), kind@),
    {
        let all = self.all_nodes();
        let ghost av = all@.map_values(|n: &IrNode| *n);
        let mut out: Vec<&IrNode> = Vec::new();
        let mut i: usize = 0;
        while i < all.len()
            invariant
                i <= all.len(),
                av == all@.map_values(|n: &IrNode| *n),
                out@.map_values(|n: &IrNode| *n) == nodes_with_kind(av.take(i as int), kind@),
            decreases all.len() - i,
        {
            proof {
                assert(av.take(i + 1).drop_last() =~= av.take(i as int));
                assert(av.take(i + 1).last() == *all@[i as int]);
            }
            if str_eq(all[i].kind.as_str(), kind) {
                let ghost before = out@.map_values(|n: &IrNode| *n);
                out.push(all[i]);
                assert(out@.map_values(|n: &IrNode| *n) =~= before.push(*all@[i as int]));
            }
            i = i + 1;
        }
        assert(av.take(all.len() as int) =~= av);
        out
    }

    /// The node (any partition) with the given id, if any: the first in
    /// `all_nodes` order.
    pub fn find_node(&self, id: &str) -> (r: Option<&IrNode>)
        ensures
            match first_with_id(all_nodes_v(*self), id@) {
                Some(n) => r is Some && *r->0 == n,
                None => r is None,
            },
    {
        let all = self.all_nodes();
        let ghost av = all@.map_values(|n: &IrNode| *n);
        let mut i: usize = 0;
        assert(av.skip(0) =~= av);
        while i < all.len()
            invariant
                i <= all.len(),
                av == all@.map_values(|n: &IrNode| *n),
                av == all_nodes_v(*self),
                first_with_id(av, id@) == first_with_id(av.skip(i as int), id@),
            decreases all.len() - i,
        {
            assert(av.skip(i as int).drop_first() =~= av.skip(i + 1));
            assert(av.skip(i as int)[0] == *all@[i as int]);
            if str_eq(all[i].id.as_str(), id) {
                return Some(all[i]);
            }
            i = i + 1;
        }
        None
    }

    /// Whether any diagnostic reads as error-severity.
    pub fn has_errors(&self) -> (r: bool)
        ensures
            r == exists|i: int| 0 <= i < self.diagnostics@.len() && is_error_diag_v(#[trigger] self.diagnostics@[i]@),
    {
        let mut i: usize = 0;
        while i < self.diagnostics.len()
            invariant
                i <= self.diagnostics.len(),
                forall|j: int| 0 <= j < i ==> !is_error_diag_v(#[trigger] self.diagnostics@[j]@),
            decreases self.diagnostics.len() - i,
        {
            match self.diagnostics[i].assoc("severity") {
                Some(s) => match s.as_sym() {
                    Some(t) => {
                        if str_eq(t, "error") {
                            return true;
                        }
                    },
                    None => {},
                },
                None => {},
            }
            i = i + 1;
        }
        false
    }

    pub fn to_sexpr_without_fingerprint(
        schema: &str,
        module_name: &str,
        module_fields: &[(String, Sexpr)],
        design: &[IrNode],
        transitions: &[IrNode],
        obligations: &[IrNode],
        synthesis: &[IrNode],
        diagnostics: &[Sexpr],
    ) -> (r: Sexpr)
        ensures
            r@ == ir_base_v(schema@, module_name@, module_fields@, design@, transitions@, obligations@, synthesis@, diagnostics@),
    {
        let items = ir_items(schema, module_name, module_fields, design, transitions, obligations, synthesis, diagnostics);
        list2(Sexpr::sym("ir"), Sexpr::List(items))
    }

    /// The full IR form, ending with its stored fingerprint.
    pub fn to_sexpr(&self) -> (r: Sexpr)
        ensures
            r@ == ir_v(*self),
    {
        let mut items = ir_items(
            self.schema.as_str(),
            self.module_name.as_str(),
            self.module_fields.as_slice(),
            self.design.as_slice(),
            self.transitions.as_slice(),
            self.obligations.as_slice(),
            self.synthesis.as_slice(),
            self.diagnostics.as_slice(),
        );
        let fp = Sexpr::pair("fingerprint", Sexpr::Str(self.fingerprint.clone()));
        proof {
            lemma_views_push(items@, fp);
        }
        items.push(fp);
        list2(Sexpr::sym("ir"), Sexpr::List(items))
    }
}

fn push_refs<'a>(all: &mut Vec<&'a IrNode>, ns: &'a Vec<IrNode>)
    ensures
        final(all)@.map_values(|n: &IrNode| *n) == old(all)@.map_values(|n: &IrNode| *n) + ns@,
{
    let ghost start = old(all)@.map_values(|n: &IrNode| *n);
    let mut i: usize = 0;
    while i < ns.len()
        invariant
            i <= ns.len(),
            all@.map_values(|n: &IrNode| *n) == start + ns@.take(i as int),
        decreases ns.len() - i,
    {
        let ghost before = all@.map_values(|n: &IrNode| *n);
        all.push(&ns[i]);
        assert(all@.map_values(|n: &IrNode| *n) =~= before.push(ns@[i as int]));
        assert(start + ns@.take(i + 1) =~= (start + ns@.take(i as int)).push(ns@[i as int]));
        i = i + 1;
    }
    assert(ns@.take(ns.len() as int) =~= ns@);
}


/// W405: an input id of plan node `node` that names no IR node.
pub open spec fn unresolved_input_msg(node: Seq<char>, input: Seq<char>) -> Seq<char> {
    "unresolved-input: plan node "@ + node + " input "@ + input + " names no IR node"@
}

/// The IR nodes the `inputs` ids name (the first node with each id), in
/// input order, skipping ids that name none.
pub open spec fn resolved_v(ir: Ir, inputs: Seq<Seq<char>>) -> Seq<IrNode>
    decreases inputs.len(),
{
    if inputs.len() == 0 {
        Seq::empty()
    } else {
        match first_with_id(all_nodes_v(ir), inputs.last()) {
            Some(n) => resolved_v(ir, inputs.drop_last()).push(n),
            None => resolved_v(ir, inputs.drop_last()),
        }
    }
}

/// One W405 warning per input id that names no IR node, in order.
pub open spec fn unresolved_v(ir: Ir, node: Seq<char>, inputs: Seq<Seq<char>>) -> Seq<SexprV>
    decreases inputs.len(),
{
    if inputs.len() == 0 {
        Seq::empty()
    } else {
        match first_with_id(all_nodes_v(ir), inputs.last()) {
            Some(_) => unresolved_v(ir, node, inputs.drop_last()),
            None => unresolved_v(ir, node, inputs.drop_last()).push(
                diag_v("warning"@, "W405"@, 0, 0, unresolved_input_msg(node, inputs.last()))),
        }
    }
}

/// Resolves a plan node's input ids against the IR: the nodes they name,
/// in input order, and one W405 warning per id that names none.
pub fn resolve_ir_slice<'a>(ir: &'a Ir, node_id: &str, inputs: &[String]) -> (r: (Vec<&'a IrNode>, Vec<Sexpr>))
    ensures
        r.0@.map_values(|n: &IrNode| *n) == resolved_v(*ir, texts(inputs@)),
        views_of(r.1@) == unresolved_v(*ir, node_id@, texts(inputs@)),
{
    let mut nodes: Vec<&'a IrNode> = Vec::new();
    let mut warnings: Vec<Sexpr> = Vec::new();
    let mut i: usize = 0;
    while i < inputs.len()
        invariant
            i <= inputs.len(),
            nodes@.map_values(|n: &IrNode| *n) == resolved_v(*ir, texts(inputs@).take(i as int)),
            views_of(warnings@) == unresolved_v(*ir, node_id@, texts(inputs@).take(i as int)),
        decreases inputs.len() - i,
    {
        proof {
            assert(texts(inputs@).take(i + 1).drop_last() =~= texts(inputs@).take(i as int));
        }
        match ir.find_node(inputs[i].as_str()) {
            Some(n) => {
                let ghost before = nodes@.map_values(|n: &IrNode| *n);
                nodes.push(n);
                assert(nodes@.map_values(|n: &IrNode| *n) =~= before.push(*n));
            },
            None => {
                let mut m = concat("unresolved-input: plan node ", node_id);
                push_str(&mut m, " input ");
                push_str(&mut m, inputs[i].as_str());
                push_str(&mut m, " names no IR node");
                let d = diag_sexpr("warning", "W405", (0, 0), m);
                proof {
                    lemma_views_push(warnings@, d);
                }
                warnings.push(d);
            },
        }
        i = i + 1;
    }
    assert(texts(inputs@).take(inputs.len() as int) =~= texts(inputs@));
    (nodes, warnings)
}

/// Fields as text keys and values.
pub open spec fn field_views(fs: Seq<(String, Sexpr)>) -> Seq<(Seq<char>, SexprV)> {
    fs.map_values(|f: (String, Sexpr)| (f.0@, f.1@))
}

/// A copy of a node, equal to it as a value.
pub fn clone_node(n: &IrNode) -> (r: IrNode)
    ensures
        r.id@ == n.id@,
        r.kind@ == n.kind@,
        r.name@ == n.name@,
        r.mechanism@ == n.mechanism@,
        field_views(r.fields@) == field_views(n.fields@),
        views_of(r.clauses@) == views_of(n.clauses@),
        ir_node_v(r) == ir_node_v(*n),
{
    let mut fields: Vec<(String, Sexpr)> = Vec::new();
    let mut i: usize = 0;
    while i < n.fields.len()
        invariant
            i <= n.fields.len(),
            field_views(fields@) == field_views(n.fields@.take(i as int)),
        decreases n.fields.len() - i,
    {
        let key = n.fields[i].0.clone();
        let val = clone_sexpr(&n.fields[i].1);
        assert(key@ == n.fields@[i as int].0@);
        let ghost before = fields@;
        fields.push((key, val));
        assert(fields@ == before.push((key, val)));
        assert(n.fields@.take(i + 1) =~= n.fields@.take(i as int).push(n.fields@[i as int]));
        assert(field_views(fields@) =~= field_views(before).push((key@, val@)));
        assert(field_views(n.fields@.take(i + 1)) =~= field_views(n.fields@.take(i as int)).push((n.fields@[i as int].0@, n.fields@[i as int].1@)));
        i = i + 1;
    }
    assert(n.fields@.take(n.fields.len() as int) =~= n.fields@);
    let clauses = clone_sexprs(&n.clauses);
    let r = IrNode {
        id: n.id.clone(),
        kind: n.kind.clone(),
        name: n.name.clone(),
        fields,
        clauses,
        mechanism: n.mechanism.clone(),
    };
    proof {
        assert forall|k: int| 0 <= k < r.fields@.len() implies #[trigger] field_entry_v(r.fields@[k]) == field_entry_v(n.fields@[k]) by {
            assert(field_views(r.fields@)[k] == field_views(n.fields@)[k]);
        }
        assert(field_list_v(r.fields@)->List_0 =~= field_list_v(n.fields@)->List_0);
        assert(ir_node_v(r)->List_0[1]->List_0 =~= ir_node_v(*n)->List_0[1]->List_0);
    }
    r
}

} // verus!
