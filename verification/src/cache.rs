//! Content-addressed caching and incremental regeneration: an explicit
//! in-memory store every caller threads through, keys fingerprinted from
//! the node contract, its resolved IR slice and its dependencies, and no
//! clock (every timestamp is caller-supplied data).
use vstd::prelude::*;
use crate::fingerprint::{fingerprint, fingerprint_text};
use crate::ir::{Ir, IrNode, all_nodes_v, first_with_id, ir_node_v, resolve_ir_slice, resolved_v};
use crate::order::{text_in, texts};
use crate::plan::{Plan, PlanNode, first_node, sym_list_v};
use crate::prompt::{dep_slice_v, dependency_slice};
use crate::sexpr::{Sexpr, SexprV, clone_sexpr, lemma_views_of, lemma_views_push, list2, pair_v, print_v, views_of};
use crate::text::{owned, str_eq};

verus! {

pub const CACHE_SCHEMA: &'static str = "gymnast.cache/0.1";

/// One stored synthesis result. `timestamp` is caller-supplied opaque
/// data.
#[derive(Debug, PartialEq)]
pub struct CacheEntry {
    pub key: String,
    pub node_id: String,
    pub candidate: Sexpr,
    pub evidence: Sexpr,
    pub timestamp: Sexpr,
}

/// A cache entry as plain values.
pub struct EntryV {
    pub key: Seq<char>,
    pub node_id: Seq<char>,
    pub candidate: SexprV,
    pub evidence: SexprV,
    pub timestamp: SexprV,
}

impl View for CacheEntry {
    type V = EntryV;

    open spec fn view(&self) -> EntryV {
        EntryV {
            key: self.key@,
            node_id: self.node_id@,
            candidate: self.candidate@,
            evidence: self.evidence@,
            timestamp: self.timestamp@,
        }
    }
}

impl Clone for CacheEntry {
    fn clone(&self) -> (r: Self)
        ensures
            r@ == self@,
    {
        CacheEntry {
            key: self.key.clone(),
            node_id: self.node_id.clone(),
            candidate: clone_sexpr(&self.candidate),
            evidence: clone_sexpr(&self.evidence),
            timestamp: clone_sexpr(&self.timestamp),
        }
    }
}

/// The in-memory cache: insertion-ordered entries, at most one per key.
#[derive(Debug)]
pub struct CacheStore {
    entries: Vec<CacheEntry>,
}

/// No two entries share a key.
pub open spec fn keys_unique(es: Seq<EntryV>) -> bool {
    forall|i: int, j: int| 0 <= i < es.len() && 0 <= j < es.len() && i != j ==> (#[trigger] es[i]).key != (#[trigger] es[j]).key
}

/// The entry stored under `key`.
pub open spec fn entry_for(es: Seq<EntryV>, key: Seq<char>) -> Option<EntryV>
    decreases es.len(),
{
    if es.len() == 0 {
        None
    } else if es[0].key == key {
        Some(es[0])
    } else {
        entry_for(es.drop_first(), key)
    }
}

/// `es` with `e` stored: the entry under the same key replaced in
/// place, else `e` appended.
pub open spec fn store_v(es: Seq<EntryV>, e: EntryV) -> Seq<EntryV> {
    if exists|k: int| 0 <= k < es.len() && (#[trigger] es[k]).key == e.key {
        es.update(choose|k: int| 0 <= k < es.len() && (#[trigger] es[k]).key == e.key, e)
    } else {
        es.push(e)
    }
}

impl View for CacheStore {
    type V = Seq<EntryV>;

    closed spec fn view(&self) -> Seq<EntryV> {
        self.entries@.map_values(|e: CacheEntry| e@)
    }
}

impl CacheStore {
    #[verifier::type_invariant]
    spec fn inv(self) -> bool {
        keys_unique(self.entries@.map_values(|e: CacheEntry| e@))
    }

    /// An empty store.
    pub fn new() -> (r: Self)
        ensures
            r@ == Seq::<EntryV>::empty(),
    {
        let r = CacheStore { entries: Vec::new() };
        assert(r@ =~= Seq::<EntryV>::empty());
        r
    }

    /// Removes every entry.
    pub fn clear(&mut self)
        ensures
            final(self)@ == Seq::<EntryV>::empty(),
    {
        self.entries = Vec::new();
        assert(self@ =~= Seq::<EntryV>::empty());
    }

    /// Stores `entry`, replacing in place any entry under the same key;
    /// never two entries under one key.
    pub fn store(&mut self, entry: CacheEntry)
        ensures
            final(self)@ == store_v(old(self)@, entry@),
            keys_unique(final(self)@),
    {
        proof {
            use_type_invariant(&*self);
        }
        let ghost es = self@;
        let mut i: usize = 0;
        while i < self.entries.len()
            invariant
                i <= self.entries.len(),
                es == self.entries@.map_values(|e: CacheEntry| e@),
                keys_unique(es),
                es == old(self)@,
                forall|k: int| 0 <= k < i ==> (#[trigger] es[k]).key != entry.key@,
            decreases self.entries.len() - i,
        {
            if str_eq(self.entries[i].key.as_str(), entry.key.as_str()) {
                proof {
                    assert(es[i as int].key == entry.key@);
                    let c = choose|k: int| 0 <= k < es.len() && (#[trigger] es[k]).key == entry.key@;
                    if c != i {
                        assert(es[c].key == es[i as int].key);
                    }
                }
                let ghost ev = entry@;
                proof {
                    lemma_lookup_after_store(es, ev, ev.key);
                    assert(store_v(es, ev) == es.update(i as int, ev));
                }
                let mut entries: Vec<CacheEntry> = Vec::new();
                std::mem::swap(&mut entries, &mut self.entries);
                entries.set(i, entry);
                assert(entries@.map_values(|e: CacheEntry| e@) =~= es.update(i as int, ev));
                self.entries = entries;
                return;
            }
            i = i + 1;
        }
        let ghost ev = entry@;
        proof {
            lemma_lookup_after_store(es, ev, ev.key);
            assert(store_v(es, ev) == es.push(ev));
        }
        let mut entries: Vec<CacheEntry> = Vec::new();
        std::mem::swap(&mut entries, &mut self.entries);
        entries.push(entry);
        assert(entries@.map_values(|e: CacheEntry| e@) =~= es.push(ev));
        self.entries = entries;
    }

    /// The entry stored under `key`, if any.
    pub fn lookup(&self, key: &str) -> (r: Option<&CacheEntry>)
        ensures
            match entry_for(self@, key@) {
                Some(e) => r is Some && r->0@ == e,
                None => r is None,
            },
    {
        let ghost es = self@;
        let mut i: usize = 0;
        assert(es.skip(0) =~= es);
        while i < self.entries.len()
            invariant
                i <= self.entries.len(),
                es == self.entries@.map_values(|e: CacheEntry| e@),
                entry_for(es, key@) == entry_for(es.skip(i as int), key@),
            decreases self.entries.len() - i,
        {
            assert(es.skip(i as int)[0] == es[i as int]);
            assert(es.skip(i as int).drop_first() =~= es.skip(i + 1));
            if str_eq(self.entries[i].key.as_str(), key) {
                return Some(&self.entries[i]);
            }
            i = i + 1;
        }
        None
    }

    /// The number of entries.
    pub fn len(&self) -> (r: usize)
        ensures
            r == self@.len(),
    {
        self.entries.len()
    }

    /// Whether the store holds no entry.
    pub fn is_empty(&self) -> (r: bool)
        ensures
            r == (self@.len() == 0),
    {
        self.entries.len() == 0
    }

    /// The stored keys, in insertion order.
    pub fn keys(&self) -> (r: Vec<&str>)
        ensures
            r@.map_values(|k: &str| k@) == self@.map_values(|e: EntryV| e.key),
    {
        let ghost es = self@;
        let mut out: Vec<&str> = Vec::new();
        let mut i: usize = 0;
        while i < self.entries.len()
            invariant
                i <= self.entries.len(),
                es == self.entries@.map_values(|e: CacheEntry| e@),
                out@.map_values(|k: &str| k@) == es.take(i as int).map_values(|e: EntryV| e.key),
            decreases self.entries.len() - i,
        {
            let ghost before = out@.map_values(|k: &str| k@);
            out.push(self.entries[i].key.as_str());
            assert(out@.map_values(|k: &str| k@) =~= before.push(es[i as int].key));
            assert(es.take(i + 1).map_values(|e: EntryV| e.key) =~= es.take(i as int).map_values(|e: EntryV| e.key).push(es[i as int].key));
            i = i + 1;
        }
        assert(es.take(self.entries.len() as int) =~= es);
        out
    }

    /// The first entry recorded for plan node `node_id`, if any.
    pub fn entry_for_node(&self, node_id: &str) -> (r: Option<&CacheEntry>)
        ensures
            match first_for_node(self@, node_id@) {
                Some(e) => r is Some && r->0@ == e,
                None => r is None,
            },
    {
        let ghost es = self@;
        let mut i: usize = 0;
        assert(es.skip(0) =~= es);
        while i < self.entries.len()
            invariant
                i <= self.entries.len(),
                es == self.entries@.map_values(|e: CacheEntry| e@),
                first_for_node(es, node_id@) == first_for_node(es.skip(i as int), node_id@),
            decreases self.entries.len() - i,
        {
            assert(es.skip(i as int)[0] == es[i as int]);
            assert(es.skip(i as int).drop_first() =~= es.skip(i + 1));
            if str_eq(self.entries[i].node_id.as_str(), node_id) {
                return Some(&self.entries[i]);
            }
            i = i + 1;
        }
        None
    }
}

impl Default for CacheStore {
    fn default() -> (r: Self)
        ensures
            r@ == Seq::<EntryV>::empty(),
    {
        CacheStore::new()
    }
}

/// The first entry recorded for plan node `node_id`.
pub open spec fn first_for_node(es: Seq<EntryV>, node_id: Seq<char>) -> Option<EntryV>
    decreases es.len(),
{
    if es.len() == 0 {
        None
    } else if es[0].node_id == node_id {
        Some(es[0])
    } else {
        first_for_node(es.drop_first(), node_id)
    }
}

proof fn lemma_entry_for_at(es: Seq<EntryV>, key: Seq<char>, k: int)
    requires
        keys_unique(es),
        0 <= k < es.len(),
        es[k].key == key,
    ensures
        entry_for(es, key) == Some(es[k]),
    decreases es.len(),
{
    if k > 0 {
        assert(es[0].key != key);
        assert(es.drop_first()[k - 1] == es[k]);
        assert(keys_unique(es.drop_first())) by {
            assert forall|i: int, j: int| 0 <= i < es.drop_first().len() && 0 <= j < es.drop_first().len() && i != j
                implies (#[trigger] es.drop_first()[i]).key != (#[trigger] es.drop_first()[j]).key by {
                assert(es.drop_first()[i] == es[i + 1]);
                assert(es.drop_first()[j] == es[j + 1]);
            }
        }
        lemma_entry_for_at(es.drop_first(), key, k - 1);
    }
}

proof fn lemma_entry_for_absent(es: Seq<EntryV>, key: Seq<char>)
    requires
        forall|k: int| 0 <= k < es.len() ==> (#[trigger] es[k]).key != key,
    ensures
        entry_for(es, key) is None,
    decreases es.len(),
{
    if es.len() > 0 {
        assert forall|k: int| 0 <= k < es.drop_first().len() implies (#[trigger] es.drop_first()[k]).key != key by {
            assert(es.drop_first()[k] == es[k + 1]);
        }
        lemma_entry_for_absent(es.drop_first(), key);
    }
}

/// The keys of the entries, in order.
pub open spec fn keys_v(es: Seq<EntryV>) -> Seq<Seq<char>> {
    es.map_values(|x: EntryV| x.key)
}

/// Storing keeps the order of the keys: a stored key stays where it
/// was (the entry is replaced in place), and a new key goes last.
pub proof fn lemma_store_key_order(es: Seq<EntryV>, e: EntryV)
    requires
        keys_unique(es),
    ensures
        entry_for(es, e.key) is Some ==> keys_v(store_v(es, e)) == keys_v(es),
        entry_for(es, e.key) is None ==> keys_v(store_v(es, e)) == keys_v(es).push(e.key),
{
    let s = store_v(es, e);
    if exists|k: int| 0 <= k < es.len() && (#[trigger] es[k]).key == e.key {
        let c = choose|k: int| 0 <= k < es.len() && (#[trigger] es[k]).key == e.key;
        lemma_entry_for_at(es, e.key, c);
        assert(keys_v(s) =~= keys_v(es));
    } else {
        lemma_entry_for_absent(es, e.key);
        assert(keys_v(s) =~= keys_v(es).push(e.key));
    }
}

/// A read after a write: once `e` is stored, looking up its key gives
/// `e`, and every other key reads as it did before.
pub proof fn lemma_lookup_after_store(es: Seq<EntryV>, e: EntryV, key: Seq<char>)
    requires
        keys_unique(es),
    ensures
        keys_unique(store_v(es, e)),
        entry_for(store_v(es, e), e.key) == Some(e),
        key != e.key ==> entry_for(store_v(es, e), key) == entry_for(es, key),
        store_v(es, e).len() == es.len() + (if entry_for(es, e.key) is Some { 0int } else { 1int }),
{
    let s = store_v(es, e);
    if exists|k: int| 0 <= k < es.len() && (#[trigger] es[k]).key == e.key {
        let c = choose|k: int| 0 <= k < es.len() && (#[trigger] es[k]).key == e.key;
        assert(s == es.update(c, e));
        assert forall|i: int, j: int| 0 <= i < s.len() && 0 <= j < s.len() && i != j implies (#[trigger] s[i]).key != (#[trigger] s[j]).key by {
            if i != c && j != c {
                assert(s[i] == es[i] && s[j] == es[j]);
            } else if i == c {
                assert(s[j] == es[j]);
                assert(es[c].key != es[j].key);
            } else {
                assert(s[i] == es[i]);
                assert(es[c].key != es[i].key);
            }
        }
        lemma_entry_for_at(s, e.key, c);
        lemma_entry_for_at(es, e.key, c);
        if key != e.key {
            if exists|k: int| 0 <= k < es.len() && (#[trigger] es[k]).key == key {
                let d = choose|k: int| 0 <= k < es.len() && (#[trigger] es[k]).key == key;
                assert(d != c);
                assert(s[d] == es[d]);
                lemma_entry_for_at(es, key, d);
                lemma_entry_for_at(s, key, d);
            } else {
                assert forall|k: int| 0 <= k < s.len() implies (#[trigger] s[k]).key != key by {
                    if k != c {
                        assert(s[k] == es[k]);
                    }
                }
                lemma_entry_for_absent(es, key);
                lemma_entry_for_absent(s, key);
            }
        }
    } else {
        assert(s == es.push(e));
        assert forall|i: int, j: int| 0 <= i < s.len() && 0 <= j < s.len() && i != j implies (#[trigger] s[i]).key != (#[trigger] s[j]).key by {
            if i < es.len() && j < es.len() {
                assert(s[i] == es[i] && s[j] == es[j]);
            } else if i < es.len() {
                assert(s[i] == es[i]);
            } else {
                assert(s[j] == es[j]);
            }
        }
        lemma_entry_for_at(s, e.key, es.len() as int);
        lemma_entry_for_absent(es, e.key);
        if key != e.key {
            if exists|k: int| 0 <= k < es.len() && (#[trigger] es[k]).key == key {
                let d = choose|k: int| 0 <= k < es.len() && (#[trigger] es[k]).key == key;
                assert(s[d] == es[d]);
                lemma_entry_for_at(es, key, d);
                lemma_entry_for_at(s, key, d);
            } else {
                assert forall|k: int| 0 <= k < s.len() implies (#[trigger] s[k]).key != key by {
                    if k < es.len() {
                        assert(s[k] == es[k]);
                    }
                }
                lemma_entry_for_absent(es, key);
                lemma_entry_for_absent(s, key);
            }
        }
    }
}


// ---- cache keys ----

/// The fingerprint of `(ir-slice (<node> ...))` over the node's resolved
/// inputs.
pub open spec fn ir_slice_fp(ir: Ir, node: PlanNode) -> Seq<char> {
    fingerprint_text(print_v(SexprV::List(seq![
        SexprV::Sym("ir-slice"@),
        SexprV::List(resolved_v(ir, texts(node.inputs@)).map_values(|n: IrNode| ir_node_v(n))),
    ])))
}

/// Every input of `inputs` that names a node of the IR contributes that
/// node (the first with the id) to the resolved slice, in input order,
/// and the slice holds nothing else.
pub proof fn lemma_resolved_inputs(ir: Ir, inputs: Seq<Seq<char>>)
    ensures
        forall|k: int| 0 <= k < inputs.len() && (#[trigger] first_with_id(all_nodes_v(ir), inputs[k])) is Some
            ==> resolved_v(ir, inputs).contains(first_with_id(all_nodes_v(ir), inputs[k])->0),
        forall|m: int| #![trigger resolved_v(ir, inputs)[m]] 0 <= m < resolved_v(ir, inputs).len() ==> exists|k: int| 0 <= k < inputs.len()
            && #[trigger] first_with_id(all_nodes_v(ir), inputs[k]) == Some(resolved_v(ir, inputs)[m]),
        resolved_v(ir, inputs).len() <= inputs.len(),
    decreases inputs.len(),
{
    if inputs.len() > 0 {
        let front = inputs.drop_last();
        lemma_resolved_inputs(ir, front);
        let r0 = resolved_v(ir, front);
        let r = resolved_v(ir, inputs);
        assert forall|k: int| 0 <= k < inputs.len() && (#[trigger] first_with_id(all_nodes_v(ir), inputs[k])) is Some
            implies r.contains(first_with_id(all_nodes_v(ir), inputs[k])->0) by {
            if k < inputs.len() - 1 {
                assert(inputs[k] == front[k]);
                let x = first_with_id(all_nodes_v(ir), inputs[k])->0;
                assert(r0.contains(x));
                let j = choose|j: int| 0 <= j < r0.len() && r0[j] == x;
                assert(r[j] == r0[j]);
            } else {
                assert(r[r.len() - 1] == first_with_id(all_nodes_v(ir), inputs.last())->0);
            }
        }
        assert forall|m: int| #![trigger r[m]] 0 <= m < r.len() implies exists|k: int| 0 <= k < inputs.len()
            && #[trigger] first_with_id(all_nodes_v(ir), inputs[k]) == Some(r[m]) by {
            if m < r0.len() {
                assert(r[m] == r0[m]);
                let k = choose|k: int| 0 <= k < front.len() && #[trigger] first_with_id(all_nodes_v(ir), front[k]) == Some(r0[m]);
                assert(front[k] == inputs[k]);
            } else {
                assert(first_with_id(all_nodes_v(ir), inputs[inputs.len() - 1]) == Some(r[m]));
            }
        }
    }
}

/// The key material carries, as its `ir-slice-fingerprint`, the
/// fingerprint of `(ir-slice (n1 ... nk))` where `n1 ... nk` are the
/// printed forms of the IR nodes the node's inputs resolve to, in input
/// order: a change to any resolved input node changes what is
/// fingerprinted.
pub proof fn lemma_key_covers_ir_slice(ir: Ir, plan: Plan, node: PlanNode)
    ensures
        key_material_v(ir, plan, node)->List_0[2] == pair_v("ir-slice-fingerprint"@, SexprV::Str(fingerprint_text(print_v(
            SexprV::List(seq![
                SexprV::Sym("ir-slice"@),
                SexprV::List(resolved_v(ir, texts(node.inputs@)).map_values(|n: IrNode| ir_node_v(n))),
            ]),
        )))),
        forall|k: int| 0 <= k < node.inputs@.len() && (#[trigger] first_with_id(all_nodes_v(ir), node.inputs@[k]@)) is Some
            ==> resolved_v(ir, texts(node.inputs@)).map_values(|n: IrNode| ir_node_v(n)).contains(
                ir_node_v(first_with_id(all_nodes_v(ir), node.inputs@[k]@)->0)),
{
    let ins = texts(node.inputs@);
    lemma_resolved_inputs(ir, ins);
    let r = resolved_v(ir, ins);
    assert forall|k: int| 0 <= k < node.inputs@.len() && (#[trigger] first_with_id(all_nodes_v(ir), node.inputs@[k]@)) is Some
        implies r.map_values(|n: IrNode| ir_node_v(n)).contains(ir_node_v(first_with_id(all_nodes_v(ir), node.inputs@[k]@)->0)) by {
        assert(ins[k] == node.inputs@[k]@);
        let x = first_with_id(all_nodes_v(ir), ins[k])->0;
        assert(r.contains(x));
        let j = choose|j: int| 0 <= j < r.len() && r[j] == x;
        assert(r.map_values(|n: IrNode| ir_node_v(n))[j] == ir_node_v(x));
    }
}

/// The fingerprint of `(("dep-id" "fp") ...)` over the node's dependency
/// slice.
pub open spec fn dep_fp(plan: Plan, node: PlanNode) -> Seq<char> {
    fingerprint_text(print_v(SexprV::List(dep_slice_v(plan.nodes@, texts(node.depends_on@)).map_values(
        |p: (Seq<char>, Seq<char>)| SexprV::List(seq![SexprV::Str(p.0), SexprV::Str(p.1)])))))
}

/// `(cache-key-material (node-fingerprint "..") (ir-slice-fingerprint
/// "..") (dependency-fingerprint "..") (recipe r) (model m)
/// (capabilities (..)))`.
pub open spec fn key_material_v(ir: Ir, plan: Plan, node: PlanNode) -> SexprV {
    SexprV::List(seq![
        SexprV::Sym("cache-key-material"@),
        pair_v("node-fingerprint"@, SexprV::Str(node.fingerprint@)),
        pair_v("ir-slice-fingerprint"@, SexprV::Str(ir_slice_fp(ir, node))),
        pair_v("dependency-fingerprint"@, SexprV::Str(dep_fp(plan, node))),
        pair_v("recipe"@, SexprV::Sym(node.recipe@)),
        pair_v("model"@, node.model@),
        pair_v("capabilities"@, sym_list_v(node.capabilities@)),
    ])
}

pub open spec fn cache_key_v(ir: Ir, plan: Plan, node: PlanNode) -> Seq<char> {
    fingerprint_text(print_v(key_material_v(ir, plan, node)))
}

fn slice_form(resolved: &Vec<&IrNode>) -> (r: Sexpr)
    ensures
        r@ == SexprV::List(resolved@.map_values(|n: &IrNode| ir_node_v(*n))),
{
    let mut out: Vec<Sexpr> = Vec::new();
    let mut i: usize = 0;
    while i < resolved.len()
        invariant
            i <= resolved.len(),
            views_of(out@) == resolved@.take(i as int).map_values(|n: &IrNode| ir_node_v(*n)),
        decreases resolved.len() - i,
    {
        let e = resolved[i].to_sexpr();
        proof {
            lemma_views_push(out@, e);
        }
        out.push(e);
        assert(resolved@.take(i + 1).map_values(|n: &IrNode| ir_node_v(*n)) =~= resolved@.take(i as int).map_values(|n: &IrNode| ir_node_v(*n)).push(ir_node_v(*resolved@[i as int])));
        i = i + 1;
    }
    assert(resolved@.take(resolved.len() as int) =~= resolved@);
    Sexpr::List(out)
}

fn pairs_form(pairs: &Vec<(String, String)>) -> (r: Sexpr)
    ensures
        r@ == SexprV::List(pairs@.map_values(|p: (String, String)| SexprV::List(seq![SexprV::Str(p.0@), SexprV::Str(p.1@)]))),
{
    let mut out: Vec<Sexpr> = Vec::new();
    let mut i: usize = 0;
    while i < pairs.len()
        invariant
            i <= pairs.len(),
            views_of(out@) == pairs@.take(i as int).map_values(|p: (String, String)| SexprV::List(seq![SexprV::Str(p.0@), SexprV::Str(p.1@)])),
        decreases pairs.len() - i,
    {
        let e = list2(Sexpr::Str(pairs[i].0.clone()), Sexpr::Str(pairs[i].1.clone()));
        proof {
            lemma_views_push(out@, e);
        }
        out.push(e);
        assert(pairs@.take(i + 1).map_values(|p: (String, String)| SexprV::List(seq![SexprV::Str(p.0@), SexprV::Str(p.1@)]))
            =~= pairs@.take(i as int).map_values(|p: (String, String)| SexprV::List(seq![SexprV::Str(p.0@), SexprV::Str(p.1@)])).push(
                SexprV::List(seq![SexprV::Str(pairs@[i as int].0@), SexprV::Str(pairs@[i as int].1@)])));
        i = i + 1;
    }
    assert(pairs@.take(pairs.len() as int) =~= pairs@);
    Sexpr::List(out)
}

/// The flat key material of `(ir, plan, node)` (see `key_material_v`).
pub fn cache_key_material(ir: &Ir, plan: &Plan, node: &PlanNode) -> (r: Sexpr)
    ensures
        r@ == key_material_v(*ir, *plan, *node),
{
    let (resolved, _warnings) = resolve_ir_slice(ir, node.id.as_str(), node.inputs.as_slice());
    let slice = list2(Sexpr::sym("ir-slice"), slice_form(&resolved));
    proof {
        assert(resolved@.map_values(|n: &IrNode| ir_node_v(*n)) =~= resolved_v(*ir, texts(node.inputs@)).map_values(|n: IrNode| ir_node_v(n)));
    }
    let ir_slice_fingerprint = fingerprint(&slice);
    let deps = dependency_slice(plan, node);
    let dep_form = pairs_form(&deps);
    proof {
        assert(deps@.map_values(|p: (String, String)| SexprV::List(seq![SexprV::Str(p.0@), SexprV::Str(p.1@)]))
            =~= dep_slice_v(plan.nodes@, texts(node.depends_on@)).map_values(
                |p: (Seq<char>, Seq<char>)| SexprV::List(seq![SexprV::Str(p.0), SexprV::Str(p.1)])));
    }
    let dependency_fingerprint = fingerprint(&dep_form);
    let items = vec![
        Sexpr::sym("cache-key-material"),
        Sexpr::pair("node-fingerprint", Sexpr::Str(node.fingerprint.clone())),
        Sexpr::pair("ir-slice-fingerprint", Sexpr::Str(ir_slice_fingerprint)),
        Sexpr::pair("dependency-fingerprint", Sexpr::Str(dependency_fingerprint)),
        Sexpr::pair("recipe", Sexpr::sym(node.recipe.as_str())),
        Sexpr::pair("model", clone_sexpr(&node.model)),
        Sexpr::pair("capabilities", crate::plan::sym_list(node.capabilities.as_slice())),
    ];
    proof {
        lemma_views_of(items@);
    }
    let r = Sexpr::List(items);
    assert(views_of(r->List_0@) =~= key_material_v(*ir, *plan, *node)->List_0);
    r
}

/// The fingerprint of the key material: identical `(ir, plan, node)`
/// content always gives an identical key.
pub fn cache_key(ir: &Ir, plan: &Plan, node: &PlanNode) -> (r: String)
    ensures
        r@ == cache_key_v(*ir, *plan, *node),
{
    fingerprint(&cache_key_material(ir, plan, node))
}

/// Whether `entry` was stored under the current key of `(ir, plan,
/// node)`.
pub fn entry_valid(ir: &Ir, plan: &Plan, node: &PlanNode, entry: &CacheEntry) -> (r: bool)
    ensures
        r == (cache_key_v(*ir, *plan, *node) == entry.key@),
{
    let k = cache_key(ir, plan, node);
    str_eq(k.as_str(), entry.key.as_str())
}

// ---- dependency closure ----

/// The ids of the nodes of `ns` that depend directly on `id`, in table
/// order.
pub open spec fn dependent_ids(ns: Seq<PlanNode>, id: Seq<char>) -> Seq<Seq<char>>
    decreases ns.len(),
{
    if ns.len() == 0 {
        Seq::empty()
    } else if texts(ns.last().depends_on@).contains(id) {
        dependent_ids(ns.drop_last(), id).push(ns.last().id@)
    } else {
        dependent_ids(ns.drop_last(), id)
    }
}

/// `r` extended, in order, by the ids it does not yet hold.
pub open spec fn add_new(r: Seq<Seq<char>>, ids: Seq<Seq<char>>) -> Seq<Seq<char>>
    decreases ids.len(),
{
    if ids.len() == 0 {
        r
    } else {
        let r1 = add_new(r, ids.drop_last());
        if r1.contains(ids.last()) { r1 } else { r1.push(ids.last()) }
    }
}

/// Breadth-first discovery: the entry at `head` is expanded, its new
/// dependents appended, and the walk moves on, for at most `fuel` steps.
pub open spec fn bfs(ns: Seq<PlanNode>, r: Seq<Seq<char>>, head: int, fuel: nat) -> Seq<Seq<char>>
    decreases fuel,
{
    if fuel == 0 || head < 0 || head >= r.len() {
        r
    } else {
        bfs(ns, add_new(r, dependent_ids(ns, r[head])), head + 1, (fuel - 1) as nat)
    }
}

/// The transitive dependents of `seed`: itself, then every node reached
/// by following direct dependents, in breadth-first discovery order.
pub open spec fn closure_v(ns: Seq<PlanNode>, seed: Seq<char>) -> Seq<Seq<char>> {
    bfs(ns, seq![seed], 0, (ns.len() + 1) as nat)
}

pub open spec fn node_ids(ns: Seq<PlanNode>) -> Seq<Seq<char>> {
    ns.map_values(|n: PlanNode| n.id@)
}

proof fn lemma_dependent_ids_are_ids(ns: Seq<PlanNode>, id: Seq<char>)
    ensures
        forall|k: int| 0 <= k < dependent_ids(ns, id).len() ==> node_ids(ns).contains(#[trigger] dependent_ids(ns, id)[k]),
    decreases ns.len(),
{
    if ns.len() > 0 {
        lemma_dependent_ids_are_ids(ns.drop_last(), id);
        let d = dependent_ids(ns, id);
        let d0 = dependent_ids(ns.drop_last(), id);
        assert forall|k: int| 0 <= k < d.len() implies node_ids(ns).contains(#[trigger] d[k]) by {
            if k < d0.len() {
                assert(d[k] == d0[k]);
                let j = choose|j: int| 0 <= j < node_ids(ns.drop_last()).len() && node_ids(ns.drop_last())[j] == d0[k];
                assert(node_ids(ns)[j] == node_ids(ns.drop_last())[j]);
            } else {
                assert(node_ids(ns)[ns.len() - 1] == ns.last().id@);
            }
        }
    }
}

proof fn lemma_add_new(r: Seq<Seq<char>>, ids: Seq<Seq<char>>, pool: Seq<Seq<char>>)
    requires
        r.no_duplicates(),
        forall|k: int| 0 <= k < ids.len() ==> pool.contains(#[trigger] ids[k]),
    ensures
        add_new(r, ids).no_duplicates(),
        add_new(r, ids).len() >= r.len(),
        forall|k: int| 0 <= k < r.len() ==> #[trigger] add_new(r, ids)[k] == r[k],
        forall|k: int| r.len() <= k < add_new(r, ids).len() ==> pool.contains(#[trigger] add_new(r, ids)[k]),
    decreases ids.len(),
{
    if ids.len() > 0 {
        lemma_add_new(r, ids.drop_last(), pool);
        let r1 = add_new(r, ids.drop_last());
        if !r1.contains(ids.last()) {
            let r2 = r1.push(ids.last());
            assert forall|i: int, j: int| 0 <= i < r2.len() && 0 <= j < r2.len() && i != j implies r2[i] != r2[j] by {
                if i < r1.len() && j < r1.len() {
                } else if i < r1.len() {
                    assert(r1.contains(r2[i]));
                } else {
                    assert(r1.contains(r2[j]));
                }
            }
            assert(pool.contains(ids[ids.len() - 1]));
        }
    }
}

proof fn lemma_distinct_bound(r: Seq<Seq<char>>, pool: Seq<Seq<char>>)
    requires
        r.len() >= 1,
        r.no_duplicates(),
        forall|k: int| 1 <= k < r.len() ==> pool.contains(#[trigger] r[k]),
    ensures
        r.len() <= pool.len() + 1,
{
    let t = r.drop_first();
    assert(t.no_duplicates()) by {
        assert forall|i: int, j: int| 0 <= i < t.len() && 0 <= j < t.len() && i != j implies t[i] != t[j] by {
            assert(t[i] == r[i + 1] && t[j] == r[j + 1]);
        }
    }
    t.unique_seq_to_set();
    pool.lemma_cardinality_of_set();
    assert(t.to_set().subset_of(pool.to_set())) by {
        assert forall|x: Seq<char>| t.to_set().contains(x) implies pool.to_set().contains(x) by {
            let k = choose|k: int| 0 <= k < t.len() && t[k] == x;
            assert(r[k + 1] == x);
            assert(pool.contains(r[k + 1]));
        }
    }
    vstd::set_lib::lemma_len_subset(t.to_set(), pool.to_set());
}

/// The plan nodes that directly depend on `node_id` (whose `depends_on`
/// names it), in table order.
pub fn node_dependents<'a>(plan: &'a Plan, node_id: &str) -> (r: Vec<&'a PlanNode>)
    ensures
        r@.map_values(|n: &PlanNode| n.id@) == dependent_ids(plan.nodes@, node_id@),
        forall|k: int| 0 <= k < r@.len() ==> texts((#[trigger] r@[k]).depends_on@).contains(node_id@),
{
    let mut out: Vec<&'a PlanNode> = Vec::new();
    let mut i: usize = 0;
    while i < plan.nodes.len()
        invariant
            i <= plan.nodes.len(),
            out@.map_values(|n: &PlanNode| n.id@) == dependent_ids(plan.nodes@.take(i as int), node_id@),
            forall|k: int| 0 <= k < out@.len() ==> texts((#[trigger] out@[k]).depends_on@).contains(node_id@),
        decreases plan.nodes.len() - i,
    {
        proof {
            assert(plan.nodes@.take(i + 1).drop_last() =~= plan.nodes@.take(i as int));
            assert(plan.nodes@.take(i + 1).last() == plan.nodes@[i as int]);
        }
        if text_in(plan.nodes[i].depends_on.as_slice(), node_id) {
            let ghost before = out@.map_values(|n: &PlanNode| n.id@);
            out.push(&plan.nodes[i]);
            assert(out@.map_values(|n: &PlanNode| n.id@) =~= before.push(plan.nodes@[i as int].id@));
        }
        i = i + 1;
    }
    assert(plan.nodes@.take(plan.nodes.len() as int) =~= plan.nodes@);
    out
}

fn add_new_exec(result: &mut Vec<String>, deps: &Vec<&PlanNode>)
    ensures
        texts(final(result)@) == add_new(texts(old(result)@), deps@.map_values(|n: &PlanNode| n.id@)),
{
    let ghost start = texts(result@);
    let ghost ids = deps@.map_values(|n: &PlanNode| n.id@);
    let mut j: usize = 0;
    while j < deps.len()
        invariant
            j <= deps.len(),
            ids == deps@.map_values(|n: &PlanNode| n.id@),
            texts(result@) == add_new(start, ids.take(j as int)),
        decreases deps.len() - j,
    {
        proof {
            assert(ids.take(j + 1).drop_last() =~= ids.take(j as int));
            assert(ids.take(j + 1).last() == deps@[j as int].id@);
        }
        if !text_in(result.as_slice(), deps[j].id.as_str()) {
            let ghost before = texts(result@);
            result.push(deps[j].id.clone());
            assert(texts(result@) =~= before.push(deps@[j as int].id@));
        }
        j = j + 1;
    }
    assert(ids.take(deps.len() as int) =~= ids);
}

/// The transitive dependency closure of `node_id`: the seed, then every
/// node reachable by following `node_dependents`, in breadth-first
/// discovery order, each id once.
pub fn transitive_dependents(plan: &Plan, node_id: &str) -> (r: Vec<String>)
    ensures
        texts(r@) == closure_v(plan.nodes@, node_id@),
{
    let ghost ns = plan.nodes@;
    let mut result: Vec<String> = vec![owned(node_id)];
    let mut head: usize = 0;
    proof {
        assert(texts(result@) =~= seq![node_id@]);
    }
    while head < result.len()
        invariant
            ns == plan.nodes@,
            head <= result.len(),
            texts(result@).len() >= 1,
            texts(result@)[0] == node_id@,
            texts(result@).no_duplicates(),
            forall|k: int| 1 <= k < texts(result@).len() ==> node_ids(ns).contains(#[trigger] texts(result@)[k]),
            texts(result@).len() <= ns.len() + 1,
            closure_v(ns, node_id@) == bfs(ns, texts(result@), head as int, (ns.len() + 1 - head) as nat),
        decreases ns.len() + 2 - head,
    {
        let ghost before = texts(result@);
        let deps = node_dependents(plan, result[head].as_str());
        proof {
            assert(before[head as int] == result@[head as int]@);
            lemma_dependent_ids_are_ids(ns, before[head as int]);
            lemma_add_new(before, dependent_ids(ns, before[head as int]), node_ids(ns));
        }
        add_new_exec(&mut result, &deps);
        proof {
            let after = texts(result@);
            assert(after[0] == before[0]);
            lemma_distinct_bound(after, node_ids(ns));
        }
        head = head + 1;
    }
    result
}

/// The direct dependents of each of the first `h` entries of `r` are in
/// `r`.
pub open spec fn dependents_within(ns: Seq<PlanNode>, r: Seq<Seq<char>>, h: int) -> bool {
    forall|i: int, k: int|
        0 <= i < h && 0 <= k < dependent_ids(ns, r[i]).len() ==> r.contains(#[trigger] dependent_ids(ns, r[i])[k])
}

/// Entry `i` of `r` depends directly on an earlier entry.
pub open spec fn found_from_earlier(ns: Seq<PlanNode>, r: Seq<Seq<char>>, i: int) -> bool {
    exists|j: int| 0 <= j < i && #[trigger] dependent_ids(ns, r[j]).contains(r[i])
}

/// Every entry of `r` after the first depends directly on an earlier one.
pub open spec fn discovered_in_order(ns: Seq<PlanNode>, r: Seq<Seq<char>>) -> bool {
    forall|i: int| 1 <= i < r.len() ==> #[trigger] found_from_earlier(ns, r, i)
}

proof fn lemma_add_new_covers(r: Seq<Seq<char>>, ids: Seq<Seq<char>>)
    ensures
        forall|k: int| 0 <= k < ids.len() ==> add_new(r, ids).contains(#[trigger] ids[k]),
    decreases ids.len(),
{
    if ids.len() > 0 {
        lemma_add_new_covers(r, ids.drop_last());
        let r1 = add_new(r, ids.drop_last());
        let a = add_new(r, ids);
        assert forall|k: int| 0 <= k < ids.len() implies a.contains(#[trigger] ids[k]) by {
            if k < ids.len() - 1 {
                assert(ids.drop_last()[k] == ids[k]);
                assert(r1.contains(ids[k]));
                let j = choose|j: int| 0 <= j < r1.len() && r1[j] == ids[k];
                if !r1.contains(ids.last()) {
                    assert(a[j] == r1[j]);
                }
            } else if !r1.contains(ids.last()) {
                assert(a[r1.len() as int] == ids.last());
            }
        }
    }
}

proof fn lemma_bfs_laws(ns: Seq<PlanNode>, seed: Seq<char>, r: Seq<Seq<char>>, head: int, fuel: nat)
    requires
        r.len() >= 1,
        r[0] == seed,
        r.no_duplicates(),
        forall|k: int| 1 <= k < r.len() ==> node_ids(ns).contains(#[trigger] r[k]),
        0 <= head <= r.len(),
        head + fuel == ns.len() + 1,
        dependents_within(ns, r, head),
        discovered_in_order(ns, r),
    ensures
        bfs(ns, r, head, fuel).len() >= 1,
        bfs(ns, r, head, fuel)[0] == seed,
        bfs(ns, r, head, fuel).no_duplicates(),
        dependents_within(ns, bfs(ns, r, head, fuel), bfs(ns, r, head, fuel).len() as int),
        discovered_in_order(ns, bfs(ns, r, head, fuel)),
    decreases fuel,
{
    if fuel == 0 || head >= r.len() {
        if fuel == 0 {
            lemma_distinct_bound(r, node_ids(ns));
        }
        assert(head == r.len());
    } else {
        let ids = dependent_ids(ns, r[head]);
        let r2 = add_new(r, ids);
        lemma_dependent_ids_are_ids(ns, r[head]);
        lemma_add_new(r, ids, node_ids(ns));
        assert forall|k: int| 0 <= k < ids.len() implies ids.contains(#[trigger] ids[k]) by {}
        lemma_add_new(r, ids, ids);
        lemma_add_new_covers(r, ids);
        assert(r2[head] == r[head]);
        assert forall|i: int, k: int|
            0 <= i < head + 1 && 0 <= k < dependent_ids(ns, r2[i]).len() implies r2.contains(#[trigger] dependent_ids(ns, r2[i])[k]) by {
            assert(r2[i] == r[i]);
            if i < head {
                let x = dependent_ids(ns, r[i])[k];
                assert(r.contains(x));
                let j = choose|j: int| 0 <= j < r.len() && r[j] == x;
                assert(r2[j] == r[j]);
            } else {
                assert(ids.contains(ids[k]));
            }
        }
        assert forall|i: int| 1 <= i < r2.len() implies #[trigger] found_from_earlier(ns, r2, i) by {
            if i < r.len() {
                assert(r2[i] == r[i]);
                assert(found_from_earlier(ns, r, i));
                let j = choose|j: int| 0 <= j < i && #[trigger] dependent_ids(ns, r[j]).contains(r[i]);
                assert(r2[j] == r[j]);
                assert(dependent_ids(ns, r2[j]).contains(r2[i]));
            } else {
                assert(ids.contains(r2[i]));
                assert(dependent_ids(ns, r2[head]).contains(r2[i]));
            }
        }
        lemma_bfs_laws(ns, seed, r2, head + 1, (fuel - 1) as nat);
    }
}

/// The closure of `seed` starts with `seed`, holds each id once, holds
/// every direct dependent of each of its entries, and every entry after
/// the first depends directly on an earlier one: as a set it is exactly
/// `seed` and what can be reached from it by following dependents.
pub proof fn lemma_closure_laws(ns: Seq<PlanNode>, seed: Seq<char>)
    ensures
        closure_v(ns, seed).len() >= 1,
        closure_v(ns, seed)[0] == seed,
        closure_v(ns, seed).no_duplicates(),
        dependents_within(ns, closure_v(ns, seed), closure_v(ns, seed).len() as int),
        discovered_in_order(ns, closure_v(ns, seed)),
{
    let r = seq![seed];
    assert(r.no_duplicates());
    lemma_bfs_laws(ns, seed, r, 0, (ns.len() + 1) as nat);
}

/// The union of the closures of the seeds in `changed`, in first-seen
/// order.
pub open spec fn invalidated_v(ns: Seq<PlanNode>, seeds: Seq<Seq<char>>) -> Seq<Seq<char>>
    decreases seeds.len(),
{
    if seeds.len() == 0 {
        Seq::empty()
    } else {
        add_new(invalidated_v(ns, seeds.drop_last()), closure_v(ns, seeds.last()))
    }
}

fn add_new_strings(result: &mut Vec<String>, ids: &Vec<String>)
    ensures
        texts(final(result)@) == add_new(texts(old(result)@), texts(ids@)),
{
    let ghost start = texts(result@);
    let mut j: usize = 0;
    while j < ids.len()
        invariant
            j <= ids.len(),
            texts(result@) == add_new(start, texts(ids@).take(j as int)),
        decreases ids.len() - j,
    {
        proof {
            assert(texts(ids@).take(j + 1).drop_last() =~= texts(ids@).take(j as int));
        }
        if !text_in(result.as_slice(), ids[j].as_str()) {
            let ghost before = texts(result@);
            result.push(ids[j].clone());
            assert(texts(result@) =~= before.push(ids@[j as int]@));
        }
        j = j + 1;
    }
    assert(texts(ids@).take(ids.len() as int) =~= texts(ids@));
}

/// The union of `transitive_dependents` over every id in `changed`,
/// first-seen order, each id once.
pub fn invalidated_nodes(plan: &Plan, changed: &[String]) -> (r: Vec<String>)
    ensures
        texts(r@) == invalidated_v(plan.nodes@, texts(changed@)),
{
    let mut result: Vec<String> = Vec::new();
    let mut i: usize = 0;
    proof {
        assert(texts(result@) =~= Seq::<Seq<char>>::empty());
    }
    while i < changed.len()
        invariant
            i <= changed.len(),
            texts(result@) == invalidated_v(plan.nodes@, texts(changed@).take(i as int)),
        decreases changed.len() - i,
    {
        proof {
            assert(texts(changed@).take(i + 1).drop_last() =~= texts(changed@).take(i as int));
        }
        let closure = transitive_dependents(plan, changed[i].as_str());
        add_new_strings(&mut result, &closure);
        i = i + 1;
    }
    assert(texts(changed@).take(changed.len() as int) =~= texts(changed@));
    result
}

// ---- plan diffing ----

/// A node id is changed when it is in exactly one plan, or in both with
/// different fingerprints.
pub open spec fn node_changed_v(old: Seq<PlanNode>, new: Seq<PlanNode>, id: Seq<char>) -> bool {
    match (first_node(old, id), first_node(new, id)) {
        (None, None) => false,
        (Some(a), Some(b)) => a.fingerprint@ != b.fingerprint@,
        _ => true,
    }
}

/// Whether `node_id` was added, removed or re-fingerprinted between the
/// plans.
pub fn plan_node_changed(old: &Plan, new: &Plan, node_id: &str) -> (r: bool)
    ensures
        r == node_changed_v(old.nodes@, new.nodes@, node_id@),
{
    match (old.node(node_id), new.node(node_id)) {
        (None, None) => false,
        (Some(a), Some(b)) => !str_eq(a.fingerprint.as_str(), b.fingerprint.as_str()),
        _ => true,
    }
}

pub open spec fn not_in(other: Seq<Seq<char>>) -> spec_fn(Seq<char>) -> bool {
    |x: Seq<char>| !other.contains(x)
}

pub open spec fn modified_in(old: Seq<PlanNode>, new: Seq<PlanNode>) -> spec_fn(Seq<char>) -> bool {
    |x: Seq<char>| node_ids(old).contains(x) && node_changed_v(old, new, x)
}

pub open spec fn unchanged_in(old: Seq<PlanNode>, new: Seq<PlanNode>) -> spec_fn(Seq<char>) -> bool {
    |x: Seq<char>| node_ids(old).contains(x) && !node_changed_v(old, new, x)
}

/// `(plan-diff (added (..)) (removed (..)) (modified (..)) (unchanged
/// (..)) (affected-closure (..)))`: `added`, `modified` and `unchanged`
/// in new-plan order, `removed` in old-plan order, and the closure of
/// `added ++ removed ++ modified` over the new plan.
pub open spec fn diff_v(old: Seq<PlanNode>, new: Seq<PlanNode>) -> SexprV {
    let added = node_ids(new).filter(not_in(node_ids(old)));
    let removed = node_ids(old).filter(not_in(node_ids(new)));
    let modified = node_ids(new).filter(modified_in(old, new));
    let unchanged = node_ids(new).filter(unchanged_in(old, new));
    let closure = invalidated_v(new, added + removed + modified);
    SexprV::List(seq![
        SexprV::Sym("plan-diff"@),
        pair_v("added"@, text_list_v(added)),
        pair_v("removed"@, text_list_v(removed)),
        pair_v("modified"@, text_list_v(modified)),
        pair_v("unchanged"@, text_list_v(unchanged)),
        pair_v("affected-closure"@, text_list_v(closure)),
    ])
}

proof fn lemma_filter_split3(s: Seq<Seq<char>>, p: spec_fn(Seq<char>) -> bool, q: spec_fn(Seq<char>) -> bool, r: spec_fn(Seq<char>) -> bool)
    requires
        forall|k: int| 0 <= k < s.len() ==> {
            let x = #[trigger] s[k];
            (p(x) && !q(x) && !r(x)) || (!p(x) && q(x) && !r(x)) || (!p(x) && !q(x) && r(x))
        },
    ensures
        s.filter(p).len() + s.filter(q).len() + s.filter(r).len() == s.len(),
    decreases s.len(),
{
    reveal(Seq::filter);
    if s.len() > 0 {
        let t = s.drop_last();
        assert forall|k: int| 0 <= k < t.len() implies {
            let x = #[trigger] t[k];
            (p(x) && !q(x) && !r(x)) || (!p(x) && q(x) && !r(x)) || (!p(x) && !q(x) && r(x))
        } by {
            assert(t[k] == s[k]);
        }
        lemma_filter_split3(t, p, q, r);
        assert(s.last() == s[s.len() - 1]);
    }
}

/// The diff partitions the new plan's ids: each is exactly one of
/// added (not in the old plan), modified (in it, changed) or unchanged
/// (in it, same), so the three lists together are as long as the new
/// plan; and a removed id is one the new plan lacks.
pub proof fn lemma_diff_partitions(old: Seq<PlanNode>, new: Seq<PlanNode>)
    ensures
        node_ids(new).filter(not_in(node_ids(old))).len()
            + node_ids(new).filter(modified_in(old, new)).len()
            + node_ids(new).filter(unchanged_in(old, new)).len() == new.len(),
        forall|k: int| 0 <= k < node_ids(new).filter(not_in(node_ids(old))).len()
            ==> !node_ids(old).contains(#[trigger] node_ids(new).filter(not_in(node_ids(old)))[k]),
        forall|k: int| 0 <= k < node_ids(new).filter(modified_in(old, new)).len() ==> {
            let x = #[trigger] node_ids(new).filter(modified_in(old, new))[k];
            node_ids(old).contains(x) && node_changed_v(old, new, x)
        },
        forall|k: int| 0 <= k < node_ids(new).filter(unchanged_in(old, new)).len() ==> {
            let x = #[trigger] node_ids(new).filter(unchanged_in(old, new))[k];
            node_ids(old).contains(x) && !node_changed_v(old, new, x)
        },
        forall|k: int| 0 <= k < node_ids(old).filter(not_in(node_ids(new))).len()
            ==> !node_ids(new).contains(#[trigger] node_ids(old).filter(not_in(node_ids(new)))[k]),
{
    let ids = node_ids(new);
    let p = not_in(node_ids(old));
    let q = modified_in(old, new);
    let r = unchanged_in(old, new);
    broadcast use vstd::seq_lib::group_filter_ensures;
    lemma_filter_split3(ids, p, q, r);
}

pub open spec fn text_list_v(ts: Seq<Seq<char>>) -> SexprV {
    SexprV::List(ts.map_values(|t: Seq<char>| SexprV::Str(t)))
}

fn ids_of(ns: &[PlanNode]) -> (r: Vec<String>)
    ensures
        texts(r@) == node_ids(ns@),
{
    let mut out: Vec<String> = Vec::new();
    let mut i: usize = 0;
    while i < ns.len()
        invariant
            i <= ns.len(),
            texts(out@) == node_ids(ns@).take(i as int),
        decreases ns.len() - i,
    {
        let ghost before = texts(out@);
        out.push(ns[i].id.clone());
        assert(texts(out@) =~= before.push(ns@[i as int].id@));
        assert(node_ids(ns@).take(i + 1) =~= node_ids(ns@).take(i as int).push(ns@[i as int].id@));
        i = i + 1;
    }
    assert(node_ids(ns@).take(ns.len() as int) =~= node_ids(ns@));
    out
}

fn ids_not_in(a: &Vec<String>, b: &Vec<String>) -> (r: Vec<String>)
    ensures
        texts(r@) == texts(a@).filter(not_in(texts(b@))),
{
    reveal(Seq::filter);
    let mut out: Vec<String> = Vec::new();
    let mut i: usize = 0;
    while i < a.len()
        invariant
            i <= a.len(),
            texts(out@) == texts(a@).take(i as int).filter(not_in(texts(b@))),
        decreases a.len() - i,
    {
        proof {
            reveal(Seq::filter);
            assert(texts(a@).take(i + 1).drop_last() =~= texts(a@).take(i as int));
            assert(texts(a@).take(i + 1).last() == a@[i as int]@);
        }
        if !text_in(b.as_slice(), a[i].as_str()) {
            let ghost before = texts(out@);
            out.push(a[i].clone());
            assert(texts(out@) =~= before.push(a@[i as int]@));
        }
        i = i + 1;
    }
    assert(texts(a@).take(a.len() as int) =~= texts(a@));
    out
}

fn text_list(ts: &Vec<String>) -> (r: Sexpr)
    ensures
        r@ == text_list_v(texts(ts@)),
{
    let r = crate::plan::str_list(ts.as_slice());
    assert(ts@.map_values(|s: String| SexprV::Str(s@)) =~= texts(ts@).map_values(|t: Seq<char>| SexprV::Str(t)));
    r
}

/// The difference between two plans (see `diff_v`).
pub fn diff_plans(old: &Plan, new: &Plan) -> (r: Sexpr)
    ensures
        r@ == diff_v(old.nodes@, new.nodes@),
{
    reveal(Seq::filter);
    let old_ids = ids_of(old.nodes.as_slice());
    let new_ids = ids_of(new.nodes.as_slice());
    let added = ids_not_in(&new_ids, &old_ids);
    let removed = ids_not_in(&old_ids, &new_ids);
    let mut modified: Vec<String> = Vec::new();
    let mut unchanged: Vec<String> = Vec::new();
    let mut i: usize = 0;
    while i < new_ids.len()
        invariant
            i <= new_ids.len(),
            texts(old_ids@) == node_ids(old.nodes@),
            texts(modified@) == texts(new_ids@).take(i as int).filter(modified_in(old.nodes@, new.nodes@)),
            texts(unchanged@) == texts(new_ids@).take(i as int).filter(unchanged_in(old.nodes@, new.nodes@)),
        decreases new_ids.len() - i,
    {
        proof {
            reveal(Seq::filter);
            assert(texts(new_ids@).take(i + 1).drop_last() =~= texts(new_ids@).take(i as int));
            assert(texts(new_ids@).take(i + 1).last() == new_ids@[i as int]@);
        }
        if text_in(old_ids.as_slice(), new_ids[i].as_str()) {
            if plan_node_changed(old, new, new_ids[i].as_str()) {
                let ghost before = texts(modified@);
                modified.push(new_ids[i].clone());
                assert(texts(modified@) =~= before.push(new_ids@[i as int]@));
            } else {
                let ghost before = texts(unchanged@);
                unchanged.push(new_ids[i].clone());
                assert(texts(unchanged@) =~= before.push(new_ids@[i as int]@));
            }
        }
        i = i + 1;
    }
    assert(texts(new_ids@).take(new_ids.len() as int) =~= texts(new_ids@));
    let mut changed: Vec<String> = Vec::new();
    let mut k: usize = 0;
    while k < added.len()
        invariant
            k <= added.len(),
            texts(changed@) == texts(added@).take(k as int),
        decreases added.len() - k,
    {
        let ghost before = texts(changed@);
        changed.push(added[k].clone());
        assert(texts(changed@) =~= before.push(added@[k as int]@));
        assert(texts(added@).take(k + 1) =~= texts(added@).take(k as int).push(added@[k as int]@));
        k = k + 1;
    }
    let mut k: usize = 0;
    while k < removed.len()
        invariant
            k <= removed.len(),
            texts(changed@) == texts(added@) + texts(removed@).take(k as int),
        decreases removed.len() - k,
    {
        let ghost before = texts(changed@);
        changed.push(removed[k].clone());
        assert(texts(changed@) =~= before.push(removed@[k as int]@));
        assert(texts(removed@).take(k + 1) =~= texts(removed@).take(k as int).push(removed@[k as int]@));
        assert(texts(added@) + texts(removed@).take(k + 1) =~= (texts(added@) + texts(removed@).take(k as int)).push(removed@[k as int]@));
        k = k + 1;
    }
    let mut k: usize = 0;
    while k < modified.len()
        invariant
            k <= modified.len(),
            texts(changed@) == texts(added@) + texts(removed@) + texts(modified@).take(k as int),
        decreases modified.len() - k,
    {
        let ghost before = texts(changed@);
        changed.push(modified[k].clone());
        assert(texts(changed@) =~= before.push(modified@[k as int]@));
        assert(texts(modified@).take(k + 1) =~= texts(modified@).take(k as int).push(modified@[k as int]@));
        assert(texts(added@) + texts(removed@) + texts(modified@).take(k + 1) =~= (texts(added@) + texts(removed@) + texts(modified@).take(k as int)).push(modified@[k as int]@));
        k = k + 1;
    }
    proof {
        assert(texts(added@).take(added.len() as int) =~= texts(added@));
        assert(texts(removed@).take(removed.len() as int) =~= texts(removed@));
        assert(texts(modified@).take(modified.len() as int) =~= texts(modified@));
    }
    let affected = invalidated_nodes(new, changed.as_slice());
    let items = vec![
        Sexpr::sym("plan-diff"),
        Sexpr::pair("added", text_list(&added)),
        Sexpr::pair("removed", text_list(&removed)),
        Sexpr::pair("modified", text_list(&modified)),
        Sexpr::pair("unchanged", text_list(&unchanged)),
        Sexpr::pair("affected-closure", text_list(&affected)),
    ];
    proof {
        lemma_views_of(items@);
    }
    let r = Sexpr::List(items);
    assert(views_of(r->List_0@) =~= diff_v(old.nodes@, new.nodes@)->List_0);
    r
}

// ---- check, explain, store ----

/// `(cache-hit (node-id ..) (key ..) (candidate ..))` when the store
/// holds an entry under the node's current key, else `(cache-miss
/// (node-id ..) (key ..))`.
pub open spec fn check_v(es: Seq<EntryV>, ir: Ir, plan: Plan, node: PlanNode) -> SexprV {
    let key = cache_key_v(ir, plan, node);
    match entry_for(es, key) {
        Some(e) => SexprV::List(seq![
            SexprV::Sym("cache-hit"@),
            pair_v("node-id"@, SexprV::Str(node.id@)),
            pair_v("key"@, SexprV::Str(key)),
            pair_v("candidate"@, e.candidate),
        ]),
        None => SexprV::List(seq![
            SexprV::Sym("cache-miss"@),
            pair_v("node-id"@, SexprV::Str(node.id@)),
            pair_v("key"@, SexprV::Str(key)),
        ]),
    }
}

/// Whether the store holds a valid entry for the node (see `check_v`).
pub fn cache_check_node(store: &CacheStore, ir: &Ir, plan: &Plan, node: &PlanNode) -> (r: Sexpr)
    ensures
        r@ == check_v(store@, *ir, *plan, *node),
{
    let key = cache_key(ir, plan, node);
    match store.lookup(key.as_str()) {
        Some(entry) => {
            if entry_valid(ir, plan, node, entry) {
                return crate::sexpr::list4(
                    Sexpr::sym("cache-hit"),
                    Sexpr::pair("node-id", Sexpr::Str(node.id.clone())),
                    Sexpr::pair("key", Sexpr::Str(key)),
                    Sexpr::pair("candidate", clone_sexpr(&entry.candidate)),
                );
            }
            proof {
                lemma_entry_for_key(store@, key@);
            }
        },
        None => {},
    }
    crate::sexpr::list3(
        Sexpr::sym("cache-miss"),
        Sexpr::pair("node-id", Sexpr::Str(node.id.clone())),
        Sexpr::pair("key", Sexpr::Str(key)),
    )
}

proof fn lemma_entry_for_key(es: Seq<EntryV>, key: Seq<char>)
    ensures
        entry_for(es, key) matches Some(e) ==> e.key == key,
    decreases es.len(),
{
    if es.len() > 0 && es[0].key != key {
        lemma_entry_for_key(es.drop_first(), key);
    }
}

/// `cache_check_node` over every plan node, in table order.
pub fn cache_check_plan(store: &CacheStore, ir: &Ir, plan: &Plan) -> (r: Vec<Sexpr>)
    ensures
        views_of(r@) == plan.nodes@.map_values(|n: PlanNode| check_v(store@, *ir, *plan, n)),
{
    let mut out: Vec<Sexpr> = Vec::new();
    let mut i: usize = 0;
    while i < plan.nodes.len()
        invariant
            i <= plan.nodes.len(),
            views_of(out@) == plan.nodes@.take(i as int).map_values(|n: PlanNode| check_v(store@, *ir, *plan, n)),
        decreases plan.nodes.len() - i,
    {
        let e = cache_check_node(store, ir, plan, &plan.nodes[i]);
        proof {
            lemma_views_push(out@, e);
        }
        out.push(e);
        assert(plan.nodes@.take(i + 1).map_values(|n: PlanNode| check_v(store@, *ir, *plan, n))
            =~= plan.nodes@.take(i as int).map_values(|n: PlanNode| check_v(store@, *ir, *plan, n)).push(check_v(store@, *ir, *plan, plan.nodes@[i as int])));
        i = i + 1;
    }
    assert(plan.nodes@.take(plan.nodes.len() as int) =~= plan.nodes@);
    out
}

/// `(explanation (node-id ..) (status hit|miss) (reason
/// valid-entry|key-mismatch|no-cache-entry) (key ..)[ (stored-key ..)])`:
/// a hit when an entry sits under the current key; else a key mismatch
/// naming the first entry recorded for the same node; else no entry.
pub open spec fn explain_v(es: Seq<EntryV>, ir: Ir, plan: Plan, node: PlanNode) -> SexprV {
    let key = cache_key_v(ir, plan, node);
    let head = seq![SexprV::Sym("explanation"@), pair_v("node-id"@, SexprV::Str(node.id@))];
    if entry_for(es, key) is Some {
        SexprV::List(head + seq![
            pair_v("status"@, SexprV::Sym("hit"@)),
            pair_v("reason"@, SexprV::Sym("valid-entry"@)),
            pair_v("key"@, SexprV::Str(key)),
        ])
    } else {
        match first_for_node(es, node.id@) {
            Some(stale) => SexprV::List(head + seq![
                pair_v("status"@, SexprV::Sym("miss"@)),
                pair_v("reason"@, SexprV::Sym("key-mismatch"@)),
                pair_v("key"@, SexprV::Str(key)),
                pair_v("stored-key"@, SexprV::Str(stale.key)),
            ]),
            None => SexprV::List(head + seq![
                pair_v("status"@, SexprV::Sym("miss"@)),
                pair_v("reason"@, SexprV::Sym("no-cache-entry"@)),
                pair_v("key"@, SexprV::Str(key)),
            ]),
        }
    }
}

pub open spec fn explain_tail_v(es: Seq<EntryV>, node_id: Seq<char>, key: Seq<char>) -> Seq<SexprV> {
    if entry_for(es, key) is Some {
        seq![
            pair_v("status"@, SexprV::Sym("hit"@)),
            pair_v("reason"@, SexprV::Sym("valid-entry"@)),
            pair_v("key"@, SexprV::Str(key)),
        ]
    } else {
        match first_for_node(es, node_id) {
            Some(stale) => seq![
                pair_v("status"@, SexprV::Sym("miss"@)),
                pair_v("reason"@, SexprV::Sym("key-mismatch"@)),
                pair_v("key"@, SexprV::Str(key)),
                pair_v("stored-key"@, SexprV::Str(stale.key)),
            ],
            None => seq![
                pair_v("status"@, SexprV::Sym("miss"@)),
                pair_v("reason"@, SexprV::Sym("no-cache-entry"@)),
                pair_v("key"@, SexprV::Str(key)),
            ],
        }
    }
}

fn explain_tail(store: &CacheStore, node_id: &str, key: &str) -> (r: Vec<Sexpr>)
    ensures
        views_of(r@) == explain_tail_v(store@, node_id@, key@),
{
    if store.lookup(key).is_some() {
        let tail = vec![
            Sexpr::pair("status", Sexpr::sym("hit")),
            Sexpr::pair("reason", Sexpr::sym("valid-entry")),
            Sexpr::pair("key", Sexpr::Str(owned(key))),
        ];
        proof {
            lemma_views_of(tail@);
            assert(views_of(tail@) =~= explain_tail_v(store@, node_id@, key@));
        }
        return tail;
    }
    match store.entry_for_node(node_id) {
        Some(stale) => {
            let tail = vec![
                Sexpr::pair("status", Sexpr::sym("miss")),
                Sexpr::pair("reason", Sexpr::sym("key-mismatch")),
                Sexpr::pair("key", Sexpr::Str(owned(key))),
                Sexpr::pair("stored-key", Sexpr::Str(stale.key.clone())),
            ];
            proof {
                lemma_views_of(tail@);
                assert(views_of(tail@) =~= explain_tail_v(store@, node_id@, key@));
            }
            tail
        },
        None => {
            let tail = vec![
                Sexpr::pair("status", Sexpr::sym("miss")),
                Sexpr::pair("reason", Sexpr::sym("no-cache-entry")),
                Sexpr::pair("key", Sexpr::Str(owned(key))),
            ];
            proof {
                lemma_views_of(tail@);
                assert(views_of(tail@) =~= explain_tail_v(store@, node_id@, key@));
            }
            tail
        },
    }
}

/// Why the node hits or misses the cache (see `explain_v`).
pub fn cache_explain_node(store: &CacheStore, ir: &Ir, plan: &Plan, node: &PlanNode) -> (r: Sexpr)
    ensures
        r@ == explain_v(store@, *ir, *plan, *node),
{
    let key = cache_key(ir, plan, node);
    let items = vec![Sexpr::sym("explanation"), Sexpr::pair("node-id", Sexpr::Str(node.id.clone()))];
    proof {
        lemma_views_of(items@);
        assert(views_of(items@) =~= seq![SexprV::Sym("explanation"@), pair_v("node-id"@, SexprV::Str(node.id@))]);
    }
    let tail = explain_tail(store, node.id.as_str(), key.as_str());
    finish(items, tail)
}

fn finish(items: Vec<Sexpr>, tail: Vec<Sexpr>) -> (r: Sexpr)
    ensures
        r@ == SexprV::List(views_of(items@) + views_of(tail@)),
{
    let mut items = items;
    let mut tail = tail;
    let ghost iv = views_of(items@);
    let ghost tv = views_of(tail@);
    proof {
        lemma_views_of(items@);
        lemma_views_of(tail@);
    }
    items.append(&mut tail);
    proof {
        lemma_views_of(items@);
        assert(views_of(items@) =~= iv + tv);
    }
    Sexpr::List(items)
}

/// Stores the candidate, evidence and timestamp under the node's
/// current key.
pub fn cache_store_result(
    store: &mut CacheStore,
    ir: &Ir,
    plan: &Plan,
    node: &PlanNode,
    candidate: Sexpr,
    evidence: Sexpr,
    timestamp: Sexpr,
)
    ensures
        final(store)@ == store_v(old(store)@, EntryV {
            key: cache_key_v(*ir, *plan, *node),
            node_id: node.id@,
            candidate: candidate@,
            evidence: evidence@,
            timestamp: timestamp@,
        }),
{
    let key = cache_key(ir, plan, node);
    store.store(CacheEntry { key, node_id: node.id.clone(), candidate, evidence, timestamp });
}

/// Storing a result and then checking the same node hits, with the
/// stored candidate.
pub proof fn lemma_check_after_store(es: Seq<EntryV>, ir: Ir, plan: Plan, node: PlanNode, candidate: SexprV, evidence: SexprV, timestamp: SexprV)
    requires
        keys_unique(es),
    ensures
        check_v(store_v(es, EntryV {
            key: cache_key_v(ir, plan, node),
            node_id: node.id@,
            candidate,
            evidence,
            timestamp,
        }), ir, plan, node) == SexprV::List(seq![
            SexprV::Sym("cache-hit"@),
            pair_v("node-id"@, SexprV::Str(node.id@)),
            pair_v("key"@, SexprV::Str(cache_key_v(ir, plan, node))),
            pair_v("candidate"@, candidate),
        ]),
{
    let e = EntryV { key: cache_key_v(ir, plan, node), node_id: node.id@, candidate, evidence, timestamp };
    lemma_lookup_after_store(es, e, e.key);
}
} // verus!
