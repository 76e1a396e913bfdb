//! The candidate protocol and the validation firewall. A model can
//! propose data; it cannot mutate a plan node or decide whether its own
//! output is acceptable. Candidates are untrusted values: every accessor
//! and the firewall itself are total over arbitrary `Sexpr` input.
use vstd::prelude::*;
use crate::diag::{diag_sexpr, diag_v};
use crate::order::texts;
use crate::plan::{PlanNode, fingerprint_valid, target_language, target_language_v};
use crate::sexpr::{Sexpr, SexprV, assoc_items, assoc_v, is_pair_with_key, clone_sexpr, lemma_views_of, lemma_views_push, print_v, views_of};
use crate::text::{concat, contains, contains_text, owned, push_str, starts_with, is_prefix, str_eq};

verus! {

/// A parsed, untrusted model candidate. Field access is total: missing
/// or malformed fields read as empty.
#[derive(Debug, PartialEq)]
pub struct Candidate {
    pub sexpr: Sexpr,
}

impl Clone for Candidate {
    fn clone(&self) -> (r: Self)
        ensures
            r.sexpr@ == self.sexpr@,
    {
        Candidate { sexpr: clone_sexpr(&self.sexpr) }
    }
}

// ---- the protocol, over values ----

/// The field-pairs body of a `(candidate (...))` value: a two-element
/// list headed by the symbol `candidate` whose second element is a list.
pub open spec fn candidate_shape_v(v: SexprV) -> Option<SexprV> {
    match v {
        SexprV::List(items) => if items.len() == 2 && items[0] == SexprV::Sym("candidate"@) && items[1] is List {
            Some(items[1])
        } else {
            None
        },
        _ => None,
    }
}

/// The items of a list-valued field, or nothing.
pub open spec fn field_items(body: SexprV, key: Seq<char>) -> Seq<SexprV> {
    match assoc_v(body, key) {
        Some(SexprV::List(xs)) => xs,
        _ => Seq::empty(),
    }
}

/// The string-valued `node-id` field.
pub open spec fn node_id_v(body: SexprV) -> Option<Seq<char>> {
    match assoc_v(body, "node-id"@) {
        Some(SexprV::Str(s)) => Some(s),
        _ => None,
    }
}

/// A well-formed files entry: `(path content)`, both strings.
pub open spec fn is_file_pair(e: SexprV) -> bool {
    &&& e is List
    &&& e->List_0.len() == 2
    &&& e->List_0[0] is Str
    &&& e->List_0[1] is Str
}

/// The path a files entry claims: its first element, when that is a
/// string, whether or not the entry is well-formed.
pub open spec fn path_claim(e: SexprV) -> Option<Seq<char>> {
    if e is List && e->List_0.len() > 0 && e->List_0[0] is Str {
        Some(e->List_0[0]->Str_0)
    } else {
        None
    }
}

/// Every path claim of the entries, in order.
pub open spec fn audit_paths(es: Seq<SexprV>) -> Seq<Seq<char>>
    decreases es.len(),
{
    if es.len() == 0 {
        Seq::empty()
    } else {
        match path_claim(es.last()) {
            Some(p) => audit_paths(es.drop_last()).push(p),
            None => audit_paths(es.drop_last()),
        }
    }
}

/// The entries that are not well-formed file pairs, in order.
pub open spec fn audit_malformed(es: Seq<SexprV>) -> Seq<SexprV>
    decreases es.len(),
{
    if es.len() == 0 {
        Seq::empty()
    } else if is_file_pair(es.last()) {
        audit_malformed(es.drop_last())
    } else {
        audit_malformed(es.drop_last()).push(es.last())
    }
}

/// The `(path, content)` pairs of the well-formed entries, in order.
pub open spec fn files_v(es: Seq<SexprV>) -> Seq<(Seq<char>, Seq<char>)>
    decreases es.len(),
{
    if es.len() == 0 {
        Seq::empty()
    } else if is_file_pair(es.last()) {
        files_v(es.drop_last()).push((es.last()->List_0[0]->Str_0, es.last()->List_0[1]->Str_0))
    } else {
        files_v(es.drop_last())
    }
}

/// A vocabulary term: a string or a symbol, read as its text.
pub open spec fn vocab_v(s: SexprV) -> Option<Seq<char>> {
    match s {
        SexprV::Str(t) => Some(t),
        SexprV::Sym(t) => Some(t),
        _ => None,
    }
}

/// The vocabulary terms among `xs`, in order.
pub open spec fn vocab_list(xs: Seq<SexprV>) -> Seq<Seq<char>>
    decreases xs.len(),
{
    if xs.len() == 0 {
        Seq::empty()
    } else {
        match vocab_v(xs.last()) {
            Some(t) => vocab_list(xs.drop_last()).push(t),
            None => vocab_list(xs.drop_last()),
        }
    }
}

/// The entries of `xs` that are neither strings nor symbols, in order.
pub open spec fn malformed_vocab(xs: Seq<SexprV>) -> Seq<SexprV>
    decreases xs.len(),
{
    if xs.len() == 0 {
        Seq::empty()
    } else if vocab_v(xs.last()) is Some {
        malformed_vocab(xs.drop_last())
    } else {
        malformed_vocab(xs.drop_last()).push(xs.last())
    }
}

/// An absent field, or the empty list.
pub open spec fn nil_or_absent(o: Option<SexprV>) -> bool {
    match o {
        None => true,
        Some(SexprV::List(items)) => items.len() == 0,
        Some(_) => false,
    }
}

// ---- accessors ----

fn candidate_shape(v: &Sexpr) -> (r: Option<&Sexpr>)
    ensures
        match candidate_shape_v(v@) {
            Some(b) => r is Some && r->0@ == b,
            None => r is None,
        },
{
    match v {
        Sexpr::List(items) => {
            proof {
                lemma_views_of(items@);
            }
            if items.len() != 2 {
                return None;
            }
            match items[0].as_sym() {
                Some(s) => {
                    if !str_eq(s, "candidate") {
                        return None;
                    }
                },
                None => {
                    return None;
                },
            }
            match &items[1] {
                Sexpr::List(_) => Some(&items[1]),
                _ => None,
            }
        },
        _ => None,
    }
}

/// The items of the list-valued field `key` of `body` (empty when the
/// field is absent or not a list).
fn field_list<'a>(body: &'a Sexpr, key: &str) -> (r: &'a [Sexpr])
    ensures
        views_of(r@) == field_items(body@, key@),
{
    match body.assoc(key) {
        Some(v) => match v {
            Sexpr::List(items) => items.as_slice(),
            _ => {
                let e: &[Sexpr] = &[];
                assert(views_of(e@) =~= Seq::<SexprV>::empty());
                e
            },
        },
        None => {
            let e: &[Sexpr] = &[];
            assert(views_of(e@) =~= Seq::<SexprV>::empty());
            e
        },
    }
}

fn node_id_of(body: &Sexpr) -> (r: Option<&str>)
    ensures
        match node_id_v(body@) {
            Some(s) => r is Some && r->0@ == s,
            None => r is None,
        },
{
    match body.assoc("node-id") {
        Some(v) => v.as_str(),
        None => None,
    }
}

fn path_claim_of(e: &Sexpr) -> (r: Option<&str>)
    ensures
        match path_claim(e@) {
            Some(p) => r is Some && r->0@ == p,
            None => r is None,
        },
{
    match e {
        Sexpr::List(items) => {
            proof {
                lemma_views_of(items@);
            }
            if items.len() > 0 {
                items[0].as_str()
            } else {
                None
            }
        },
        _ => None,
    }
}

fn file_pair_of(e: &Sexpr) -> (r: Option<(&str, &str)>)
    ensures
        is_file_pair(e@) <==> r is Some,
        r matches Some(pc) ==> pc.0@ == e@->List_0[0]->Str_0 && pc.1@ == e@->List_0[1]->Str_0,
{
    match e {
        Sexpr::List(items) => {
            proof {
                lemma_views_of(items@);
            }
            if items.len() == 2 {
                match (items[0].as_str(), items[1].as_str()) {
                    (Some(p), Some(c)) => Some((p, c)),
                    _ => None,
                }
            } else {
                None
            }
        },
        _ => None,
    }
}

fn file_entries_audit_of(body: &Sexpr) -> (r: (Vec<String>, Vec<Sexpr>))
    ensures
        texts(r.0@) == audit_paths(field_items(body@, "files"@)),
        views_of(r.1@) == audit_malformed(field_items(body@, "files"@)),
{
    let es = field_list(body, "files");
    let ghost ev = views_of(es@);
    let mut paths: Vec<String> = Vec::new();
    let mut malformed: Vec<Sexpr> = Vec::new();
    let mut i: usize = 0;
    proof {
        lemma_views_of(es@);
    }
    while i < es.len()
        invariant
            i <= es.len(),
            ev == views_of(es@),
            ev.len() == es.len(),
            forall|k: int| 0 <= k < es.len() ==> #[trigger] ev[k] == es@[k]@,
            texts(paths@) == audit_paths(ev.take(i as int)),
            views_of(malformed@) == audit_malformed(ev.take(i as int)),
        decreases es.len() - i,
    {
        proof {
            assert(ev.take(i + 1).drop_last() =~= ev.take(i as int));
            assert(ev.take(i + 1).last() == es@[i as int]@);
        }
        match path_claim_of(&es[i]) {
            Some(p) => {
                let ghost before = texts(paths@);
                paths.push(owned(p));
                assert(texts(paths@) =~= before.push(p@));
            },
            None => {},
        }
        match file_pair_of(&es[i]) {
            Some(_) => {},
            None => {
                let e = clone_sexpr(&es[i]);
                proof {
                    lemma_views_push(malformed@, e);
                }
                malformed.push(e);
            },
        }
        i = i + 1;
    }
    assert(ev.take(es.len() as int) =~= ev);
    (paths, malformed)
}

fn files_of(body: &Sexpr) -> (r: Vec<(String, String)>)
    ensures
        r@.map_values(|f: (String, String)| (f.0@, f.1@)) == files_v(field_items(body@, "files"@)),
{
    let es = field_list(body, "files");
    let ghost ev = views_of(es@);
    let mut out: Vec<(String, String)> = Vec::new();
    let mut i: usize = 0;
    proof {
        lemma_views_of(es@);
    }
    while i < es.len()
        invariant
            i <= es.len(),
            ev == views_of(es@),
            ev.len() == es.len(),
            forall|k: int| 0 <= k < es.len() ==> #[trigger] ev[k] == es@[k]@,
            out@.map_values(|f: (String, String)| (f.0@, f.1@)) == files_v(ev.take(i as int)),
        decreases es.len() - i,
    {
        proof {
            assert(ev.take(i + 1).drop_last() =~= ev.take(i as int));
            assert(ev.take(i + 1).last() == es@[i as int]@);
        }
        match file_pair_of(&es[i]) {
            Some(pc) => {
                let ghost before = out@.map_values(|f: (String, String)| (f.0@, f.1@));
                out.push((owned(pc.0), owned(pc.1)));
                assert(out@.map_values(|f: (String, String)| (f.0@, f.1@)) =~= before.push((pc.0@, pc.1@)));
            },
            None => {},
        }
        i = i + 1;
    }
    assert(ev.take(es.len() as int) =~= ev);
    out
}

fn vocab_of(s: &Sexpr) -> (r: Option<&str>)
    ensures
        match vocab_v(s@) {
            Some(t) => r is Some && r->0@ == t,
            None => r is None,
        },
{
    match s {
        Sexpr::Str(t) => Some(t.as_str()),
        Sexpr::Sym(t) => Some(t.as_str()),
        _ => None,
    }
}

fn string_list_of(body: &Sexpr, key: &str) -> (r: Vec<String>)
    ensures
        texts(r@) == vocab_list(field_items(body@, key@)),
{
    let xs = field_list(body, key);
    let ghost xv = views_of(xs@);
    let mut out: Vec<String> = Vec::new();
    let mut i: usize = 0;
    proof {
        lemma_views_of(xs@);
    }
    while i < xs.len()
        invariant
            i <= xs.len(),
            xv == views_of(xs@),
            xv.len() == xs.len(),
            forall|k: int| 0 <= k < xs.len() ==> #[trigger] xv[k] == xs@[k]@,
            texts(out@) == vocab_list(xv.take(i as int)),
        decreases xs.len() - i,
    {
        proof {
            assert(xv.take(i + 1).drop_last() =~= xv.take(i as int));
            assert(xv.take(i + 1).last() == xs@[i as int]@);
        }
        match vocab_of(&xs[i]) {
            Some(t) => {
                let ghost before = texts(out@);
                out.push(owned(t));
                assert(texts(out@) =~= before.push(t@));
            },
            None => {},
        }
        i = i + 1;
    }
    assert(xv.take(xs.len() as int) =~= xv);
    out
}

fn malformed_vocab_entries_of(body: &Sexpr, key: &str) -> (r: Vec<Sexpr>)
    ensures
        views_of(r@) == malformed_vocab(field_items(body@, key@)),
{
    let xs = field_list(body, key);
    let ghost xv = views_of(xs@);
    let mut out: Vec<Sexpr> = Vec::new();
    let mut i: usize = 0;
    proof {
        lemma_views_of(xs@);
    }
    while i < xs.len()
        invariant
            i <= xs.len(),
            xv == views_of(xs@),
            xv.len() == xs.len(),
            forall|k: int| 0 <= k < xs.len() ==> #[trigger] xv[k] == xs@[k]@,
            views_of(out@) == malformed_vocab(xv.take(i as int)),
        decreases xs.len() - i,
    {
        proof {
            assert(xv.take(i + 1).drop_last() =~= xv.take(i as int));
            assert(xv.take(i + 1).last() == xs@[i as int]@);
        }
        match vocab_of(&xs[i]) {
            Some(_) => {},
            None => {
                let e = clone_sexpr(&xs[i]);
                proof {
                    lemma_views_push(out@, e);
                }
                out.push(e);
            },
        }
        i = i + 1;
    }
    assert(xv.take(xs.len() as int) =~= xv);
    out
}

fn is_nil_or_absent(v: Option<&Sexpr>) -> (r: bool)
    ensures
        r == nil_or_absent(match v { Some(s) => Some(s@), None => None }),
{
    match v {
        None => true,
        Some(Sexpr::List(items)) => {
            proof {
                lemma_views_of(items@);
            }
            items.len() == 0
        },
        Some(_) => false,
    }
}

fn assumptions_empty_of(body: &Sexpr) -> (r: bool)
    ensures
        r == nil_or_absent(assoc_v(body@, "assumptions"@)),
{
    is_nil_or_absent(body.assoc("assumptions"))
}

fn unresolved_empty_of(body: &Sexpr) -> (r: bool)
    ensures
        r == nil_or_absent(assoc_v(body@, "unresolved"@)),
{
    is_nil_or_absent(body.assoc("unresolved"))
}

impl Candidate {
    /// `Some(_)` iff `v` is exactly a `(candidate (...))` tagged alist.
    pub fn from_sexpr(v: Sexpr) -> (r: Option<Candidate>)
        ensures
            r is Some <==> candidate_shape_v(v@) is Some,
            r matches Some(c) ==> c.sexpr == v,
    {
        if candidate_shape(&v).is_none() {
            return None;
        }
        Some(Candidate { sexpr: v })
    }

    fn body(&self) -> (r: Option<&Sexpr>)
        ensures
            match candidate_shape_v(self.sexpr@) {
                Some(b) => r is Some && r->0@ == b,
                None => r is None,
            },
    {
        candidate_shape(&self.sexpr)
    }

    /// The `node-id` string, if the candidate carries one.
    pub fn node_id(&self) -> (r: Option<&str>)
        ensures
            match candidate_shape_v(self.sexpr@) {
                Some(b) => match node_id_v(b) {
                    Some(s) => r is Some && r->0@ == s,
                    None => r is None,
                },
                None => r is None,
            },
    {
        match self.body() {
            Some(b) => node_id_of(b),
            None => None,
        }
    }

    /// Every path claim in the `files` field, well-formed or not, and the
    /// malformed entries.
    pub fn file_entries_audit(&self) -> (r: (Vec<String>, Vec<Sexpr>))
        ensures
            match candidate_shape_v(self.sexpr@) {
                Some(b) => texts(r.0@) == audit_paths(field_items(b, "files"@))
                    && views_of(r.1@) == audit_malformed(field_items(b, "files"@)),
                None => r.0@.len() == 0 && r.1@.len() == 0,
            },
    {
        match self.body() {
            Some(b) => file_entries_audit_of(b),
            None => (Vec::new(), Vec::new()),
        }
    }

    /// `(path, content)` pairs from the `files` field, in list order.
    pub fn files(&self) -> (r: Vec<(String, String)>)
        ensures
            match candidate_shape_v(self.sexpr@) {
                Some(b) => r@.map_values(|f: (String, String)| (f.0@, f.1@)) == files_v(field_items(b, "files"@)),
                None => r@.len() == 0,
            },
    {
        match self.body() {
            Some(b) => files_of(b),
            None => Vec::new(),
        }
    }

    /// The vocabulary terms of the `implements` field.
    pub fn implements(&self) -> (r: Vec<String>)
        ensures
            match candidate_shape_v(self.sexpr@) {
                Some(b) => texts(r@) == vocab_list(field_items(b, "implements"@)),
                None => r@.len() == 0,
            },
    {
        match self.body() {
            Some(b) => string_list_of(b, "implements"),
            None => Vec::new(),
        }
    }

    /// The vocabulary terms of the `edge-uses` field.
    pub fn edge_uses(&self) -> (r: Vec<String>)
        ensures
            match candidate_shape_v(self.sexpr@) {
                Some(b) => texts(r@) == vocab_list(field_items(b, "edge-uses"@)),
                None => r@.len() == 0,
            },
    {
        match self.body() {
            Some(b) => string_list_of(b, "edge-uses"),
            None => Vec::new(),
        }
    }

    /// `true` when `assumptions` is absent or the empty list.
    pub fn assumptions_empty(&self) -> (r: bool)
        ensures
            r == match candidate_shape_v(self.sexpr@) {
                Some(b) => nil_or_absent(assoc_v(b, "assumptions"@)),
                None => true,
            },
    {
        match self.body() {
            Some(b) => assumptions_empty_of(b),
            None => true,
        }
    }

    /// `true` when `unresolved` is absent or the empty list.
    pub fn unresolved_empty(&self) -> (r: bool)
        ensures
            r == match candidate_shape_v(self.sexpr@) {
                Some(b) => nil_or_absent(assoc_v(b, "unresolved"@)),
                None => true,
            },
    {
        match self.body() {
            Some(b) => unresolved_empty_of(b),
            None => true,
        }
    }
}


// ---- the firewall ----

pub open spec fn err(code: Seq<char>, msg: Seq<char>) -> SexprV {
    diag_v("error"@, code, 0, 0, msg)
}

pub open spec fn e501() -> Seq<SexprV> {
    seq![err("E501"@, "model output is not a candidate value"@)]
}

/// E513: the node's own contract fingerprint must verify.
pub open spec fn e513(node: PlanNode) -> Seq<SexprV> {
    if fingerprint_valid(node) {
        Seq::empty()
    } else {
        seq![err("E513"@, "plan node contract fingerprint does not verify: "@ + node.id@)]
    }
}

/// E502: the candidate must name this node.
pub open spec fn e502(node: PlanNode, body: SexprV) -> Seq<SexprV> {
    if node_id_v(body) == Some(node.id@) {
        Seq::empty()
    } else {
        let got = match node_id_v(body) {
            Some(s) => s,
            None => "<none>"@,
        };
        seq![err("E502"@, "candidate names a different plan node: expected "@ + node.id@ + ", got "@ + got)]
    }
}

/// E503: one per claimed path outside `may_write`.
pub open spec fn e503(may_write: Seq<Seq<char>>, paths: Seq<Seq<char>>) -> Seq<SexprV>
    decreases paths.len(),
{
    if paths.len() == 0 {
        Seq::empty()
    } else if may_write.contains(paths.last()) {
        e503(may_write, paths.drop_last())
    } else {
        e503(may_write, paths.drop_last()).push(
            err("E503"@, "candidate writes outside its node contract: "@ + paths.last()))
    }
}

pub open spec fn has_file(files: Seq<(Seq<char>, Seq<char>)>, path: Seq<char>) -> bool {
    exists|k: int| 0 <= k < files.len() && (#[trigger] files[k]).0 == path
}

/// E504: one per `may_write` path missing from the well-formed files.
pub open spec fn e504(may_write: Seq<Seq<char>>, files: Seq<(Seq<char>, Seq<char>)>) -> Seq<SexprV>
    decreases may_write.len(),
{
    if may_write.len() == 0 {
        Seq::empty()
    } else if has_file(files, may_write.last()) {
        e504(may_write.drop_last(), files)
    } else {
        e504(may_write.drop_last(), files).push(
            err("E504"@, "candidate omitted a required artifact: "@ + may_write.last()))
    }
}

/// E512: one per malformed entry, printed.
pub open spec fn e512(entries: Seq<SexprV>) -> Seq<SexprV> {
    entries.map_values(|e: SexprV| err("E512"@, "malformed candidate entry: "@ + print_v(e)))
}

pub open spec fn e505(body: SexprV) -> Seq<SexprV> {
    if nil_or_absent(assoc_v(body, "assumptions"@)) {
        Seq::empty()
    } else {
        seq![err("E505"@, "candidate may not add assumptions"@)]
    }
}

pub open spec fn e506(body: SexprV) -> Seq<SexprV> {
    if nil_or_absent(assoc_v(body, "unresolved"@)) {
        Seq::empty()
    } else {
        seq![err("E506"@, "candidate reported an unresolved contract"@)]
    }
}

/// Content substrings that mark a file as Lisp-shaped.
pub open spec fn lisp_markers() -> Seq<Seq<char>> {
    seq!["(defun "@, "(defvar "@, "(defmacro "@, "(define "@, "(lambda "@, "(module "@, "(setq "@, "(let* "@]
}

pub open spec fn has_lisp_marker(content: Seq<char>) -> bool {
    exists|k: int| 0 <= k < lisp_markers().len() && contains_text(content, #[trigger] lisp_markers()[k])
}

/// A target whose language is known and is not a Lisp.
pub open spec fn non_lisp(lang: Option<Seq<char>>) -> bool {
    match lang {
        Some(l) => l != "lamedh"@ && l != "lisp"@ && l != "scheme"@,
        None => false,
    }
}

pub open spec fn e507_files(lang: Seq<char>, files: Seq<(Seq<char>, Seq<char>)>) -> Seq<SexprV>
    decreases files.len(),
{
    if files.len() == 0 {
        Seq::empty()
    } else if has_lisp_marker(files.last().1) {
        e507_files(lang, files.drop_last()).push(
            err("E507"@, "file content appears to be Lisp, not "@ + lang + " as required by TARGET: "@ + files.last().0))
    } else {
        e507_files(lang, files.drop_last())
    }
}

/// E507: for a non-Lisp target, one per file whose content looks Lisp.
pub open spec fn e507(lang: Option<Seq<char>>, files: Seq<(Seq<char>, Seq<char>)>) -> Seq<SexprV> {
    if non_lisp(lang) {
        e507_files(lang->0, files)
    } else {
        Seq::empty()
    }
}

/// E508: one per edge use that the node does not declare.
pub open spec fn e508(caps: Seq<Seq<char>>, edges: Seq<Seq<char>>) -> Seq<SexprV>
    decreases edges.len(),
{
    if edges.len() == 0 {
        Seq::empty()
    } else if caps.contains(edges.last()) {
        e508(caps, edges.drop_last())
    } else {
        e508(caps, edges.drop_last()).push(
            err("E508"@, "candidate uses capability edge not declared in node contract: "@ + edges.last()))
    }
}

/// Every firewall check against a candidate-shaped body, in table order.
pub open spec fn body_diags(node: PlanNode, body: SexprV) -> Seq<SexprV> {
    let es = field_items(body, "files"@);
    let files = files_v(es);
    e513(node)
        + e502(node, body)
        + e503(texts(node.may_write@), audit_paths(es))
        + e504(texts(node.may_write@), files)
        + e512(audit_malformed(es) + malformed_vocab(field_items(body, "edge-uses"@)))
        + e505(body)
        + e506(body)
        + e507(target_language_v(node.target@), files)
        + e508(texts(node.capabilities@), vocab_list(field_items(body, "edge-uses"@)))
}

/// The firewall's verdict on `cand` against `node`.
pub open spec fn candidate_diags(node: PlanNode, cand: SexprV) -> Seq<SexprV> {
    match candidate_shape_v(cand) {
        None => e501(),
        Some(body) => body_diags(node, body),
    }
}

fn push_err(out: &mut Vec<Sexpr>, code: &str, msg: String)
    ensures
        views_of(final(out)@) == views_of(old(out)@).push(err(code@, msg@)),
{
    let d = diag_sexpr("error", code, (0, 0), msg);
    proof {
        lemma_views_push(out@, d);
    }
    out.push(d);
}

fn check_e503(out: &mut Vec<Sexpr>, may_write: &[String], paths: &[String])
    ensures
        views_of(final(out)@) == views_of(old(out)@) + e503(texts(may_write@), texts(paths@)),
{
    let ghost start = views_of(out@);
    let mut i: usize = 0;
    while i < paths.len()
        invariant
            i <= paths.len(),
            views_of(out@) == start + e503(texts(may_write@), texts(paths@).take(i as int)),
        decreases paths.len() - i,
    {
        proof {
            assert(texts(paths@).take(i + 1).drop_last() =~= texts(paths@).take(i as int));
        }
        if !string_in(may_write, paths[i].as_str()) {
            push_err(out, "E503", concat("candidate writes outside its node contract: ", paths[i].as_str()));
        }
        assert(views_of(out@) =~= start + e503(texts(may_write@), texts(paths@).take(i + 1)));
        i = i + 1;
    }
    assert(texts(paths@).take(paths.len() as int) =~= texts(paths@));
}

fn string_in(v: &[String], x: &str) -> (r: bool)
    ensures
        r == texts(v@).contains(x@),
{
    let mut i: usize = 0;
    while i < v.len()
        invariant
            i <= v.len(),
            forall|k: int| 0 <= k < i ==> (#[trigger] v@[k])@ != x@,
        decreases v.len() - i,
    {
        if str_eq(v[i].as_str(), x) {
            assert(texts(v@)[i as int] == x@);
            return true;
        }
        i = i + 1;
    }
    proof {
        if texts(v@).contains(x@) {
            let k = choose|k: int| 0 <= k < texts(v@).len() && texts(v@)[k] == x@;
            assert(v@[k]@ == x@);
        }
    }
    false
}

fn file_in(files: &[(String, String)], path: &str) -> (r: bool)
    ensures
        r == has_file(files@.map_values(|f: (String, String)| (f.0@, f.1@)), path@),
{
    let ghost fv = files@.map_values(|f: (String, String)| (f.0@, f.1@));
    let mut i: usize = 0;
    while i < files.len()
        invariant
            i <= files.len(),
            fv == files@.map_values(|f: (String, String)| (f.0@, f.1@)),
            forall|k: int| 0 <= k < i ==> (#[trigger] fv[k]).0 != path@,
        decreases files.len() - i,
    {
        if str_eq(files[i].0.as_str(), path) {
            assert(fv[i as int].0 == path@);
            return true;
        }
        i = i + 1;
    }
    false
}

fn check_e504(out: &mut Vec<Sexpr>, may_write: &[String], files: &[(String, String)])
    ensures
        views_of(final(out)@) == views_of(old(out)@)
            + e504(texts(may_write@), files@.map_values(|f: (String, String)| (f.0@, f.1@))),
{
    let ghost start = views_of(out@);
    let ghost fv = files@.map_values(|f: (String, String)| (f.0@, f.1@));
    let mut i: usize = 0;
    while i < may_write.len()
        invariant
            i <= may_write.len(),
            fv == files@.map_values(|f: (String, String)| (f.0@, f.1@)),
            views_of(out@) == start + e504(texts(may_write@).take(i as int), fv),
        decreases may_write.len() - i,
    {
        proof {
            assert(texts(may_write@).take(i + 1).drop_last() =~= texts(may_write@).take(i as int));
        }
        if !file_in(files, may_write[i].as_str()) {
            push_err(out, "E504", concat("candidate omitted a required artifact: ", may_write[i].as_str()));
        }
        assert(views_of(out@) =~= start + e504(texts(may_write@).take(i + 1), fv));
        i = i + 1;
    }
    assert(texts(may_write@).take(may_write.len() as int) =~= texts(may_write@));
}

fn check_e512(out: &mut Vec<Sexpr>, entries: &[Sexpr])
    ensures
        views_of(final(out)@) == views_of(old(out)@) + e512(views_of(entries@)),
{
    let ghost start = views_of(out@);
    let ghost ev = views_of(entries@);
    proof {
        lemma_views_of(entries@);
    }
    let mut i: usize = 0;
    while i < entries.len()
        invariant
            i <= entries.len(),
            ev == views_of(entries@),
            ev.len() == entries.len(),
            forall|k: int| 0 <= k < entries.len() ==> #[trigger] ev[k] == entries@[k]@,
            views_of(out@) == start + e512(ev.take(i as int)),
        decreases entries.len() - i,
    {
        let p = entries[i].print();
        push_err(out, "E512", concat("malformed candidate entry: ", p.as_str()));
        assert(e512(ev.take(i + 1)) =~= e512(ev.take(i as int)).push(err("E512"@, "malformed candidate entry: "@ + print_v(ev[i as int]))));
        assert(views_of(out@) =~= start + e512(ev.take(i + 1)));
        i = i + 1;
    }
    assert(ev.take(entries.len() as int) =~= ev);
}

fn has_lisp_marker_exec(content: &str) -> (r: bool)
    ensures
        r == has_lisp_marker(content@),
{
    let markers = ["(defun ", "(defvar ", "(defmacro ", "(define ", "(lambda ", "(module ", "(setq ", "(let* "];
    assert(markers@.map_values(|m: &str| m@) =~= lisp_markers());
    let mut i: usize = 0;
    while i < 8
        invariant
            i <= 8,
            markers@.map_values(|m: &str| m@) == lisp_markers(),
            forall|k: int| 0 <= k < i ==> !contains_text(content@, #[trigger] lisp_markers()[k]),
        decreases 8 - i,
    {
        if contains(content, markers[i]) {
            assert(lisp_markers()[i as int] == markers@[i as int]@);
            return true;
        }
        assert(lisp_markers()[i as int] == markers@[i as int]@);
        i = i + 1;
    }
    false
}

fn check_e507(out: &mut Vec<Sexpr>, target: &Sexpr, files: &[(String, String)])
    ensures
        views_of(final(out)@) == views_of(old(out)@)
            + e507(target_language_v(target@), files@.map_values(|f: (String, String)| (f.0@, f.1@))),
{
    let lang = target_language(target);
    let lang_name = match &lang {
        Some(l) => {
            if str_eq(l.as_str(), "lamedh") || str_eq(l.as_str(), "lisp") || str_eq(l.as_str(), "scheme") {
                return;
            }
            l.as_str()
        },
        None => {
            return;
        },
    };
    let ghost start = views_of(out@);
    let ghost fv = files@.map_values(|f: (String, String)| (f.0@, f.1@));
    let mut i: usize = 0;
    while i < files.len()
        invariant
            i <= files.len(),
            fv == files@.map_values(|f: (String, String)| (f.0@, f.1@)),
            views_of(out@) == start + e507_files(lang_name@, fv.take(i as int)),
        decreases files.len() - i,
    {
        proof {
            assert(fv.take(i + 1).drop_last() =~= fv.take(i as int));
            assert(fv.take(i + 1).last() == fv[i as int]);
        }
        if has_lisp_marker_exec(files[i].1.as_str()) {
            let mut m = concat("file content appears to be Lisp, not ", lang_name);
            push_str(&mut m, " as required by TARGET: ");
            push_str(&mut m, files[i].0.as_str());
            push_err(out, "E507", m);
        }
        assert(views_of(out@) =~= start + e507_files(lang_name@, fv.take(i + 1)));
        i = i + 1;
    }
    assert(fv.take(files.len() as int) =~= fv);
}

fn check_e508(out: &mut Vec<Sexpr>, caps: &[String], edges: &[String])
    ensures
        views_of(final(out)@) == views_of(old(out)@) + e508(texts(caps@), texts(edges@)),
{
    let ghost start = views_of(out@);
    let mut i: usize = 0;
    while i < edges.len()
        invariant
            i <= edges.len(),
            views_of(out@) == start + e508(texts(caps@), texts(edges@).take(i as int)),
        decreases edges.len() - i,
    {
        proof {
            assert(texts(edges@).take(i + 1).drop_last() =~= texts(edges@).take(i as int));
        }
        if !string_in(caps, edges[i].as_str()) {
            push_err(out, "E508", concat("candidate uses capability edge not declared in node contract: ", edges[i].as_str()));
        }
        assert(views_of(out@) =~= start + e508(texts(caps@), texts(edges@).take(i + 1)));
        i = i + 1;
    }
    assert(texts(edges@).take(edges.len() as int) =~= texts(edges@));
}

fn check_node_and_id(out: &mut Vec<Sexpr>, node: &PlanNode, body: &Sexpr)
    ensures
        views_of(final(out)@) == views_of(old(out)@) + e513(*node) + e502(*node, body@),
{
    let ghost start = views_of(out@);
    if !node.verify_fingerprint() {
        push_err(out, "E513", concat("plan node contract fingerprint does not verify: ", node.id.as_str()));
    }
    assert(views_of(out@) =~= start + e513(*node));
    let ghost mid = views_of(out@);
    let cid = node_id_of(body);
    let same = match cid {
        Some(c) => str_eq(c, node.id.as_str()),
        None => false,
    };
    if !same {
        let mut m = concat("candidate names a different plan node: expected ", node.id.as_str());
        push_str(&mut m, ", got ");
        match cid {
            Some(c) => push_str(&mut m, c),
            None => push_str(&mut m, "<none>"),
        }
        push_err(out, "E502", m);
    }
    assert(views_of(out@) =~= mid + e502(*node, body@));
}

fn check_flags(out: &mut Vec<Sexpr>, body: &Sexpr)
    ensures
        views_of(final(out)@) == views_of(old(out)@) + e505(body@) + e506(body@),
{
    let ghost start = views_of(out@);
    if !assumptions_empty_of(body) {
        push_err(out, "E505", owned("candidate may not add assumptions"));
    }
    assert(views_of(out@) =~= start + e505(body@));
    let ghost mid = views_of(out@);
    if !unresolved_empty_of(body) {
        push_err(out, "E506", owned("candidate reported an unresolved contract"));
    }
    assert(views_of(out@) =~= mid + e506(body@));
}

fn body_diagnostics(node: &PlanNode, body: &Sexpr) -> (r: Vec<Sexpr>)
    ensures
        views_of(r@) == body_diags(*node, body@),
{
    let mut diags: Vec<Sexpr> = Vec::new();
    assert(views_of(diags@) =~= Seq::<SexprV>::empty());
    check_node_and_id(&mut diags, node, body);
    let (claimed, malformed) = file_entries_audit_of(body);
    check_e503(&mut diags, node.may_write.as_slice(), claimed.as_slice());
    let files = files_of(body);
    check_e504(&mut diags, node.may_write.as_slice(), files.as_slice());
    let mut bad = malformed;
    let mut bad_edges = malformed_vocab_entries_of(body, "edge-uses");
    let ghost bv = views_of(bad@);
    let ghost ev = views_of(bad_edges@);
    proof {
        lemma_views_of(bad@);
        lemma_views_of(bad_edges@);
    }
    bad.append(&mut bad_edges);
    proof {
        lemma_views_of(bad@);
        assert(views_of(bad@) =~= bv + ev);
    }
    check_e512(&mut diags, bad.as_slice());
    check_flags(&mut diags, body);
    check_e507(&mut diags, &node.target, files.as_slice());
    let edges = string_list_of(body, "edge-uses");
    check_e508(&mut diags, node.capabilities.as_slice(), edges.as_slice());
    proof {
        let es = field_items(body@, "files"@);
        assert(views_of(diags@) =~= body_diags(*node, body@));
    }
    diags
}

/// The firewall: every check, as diagnostics against `node`'s contract,
/// in table order. E501 is exclusive: when the value is not a
/// `(candidate (...))` tagged alist, it is the one diagnostic. Otherwise
/// E513, E502, E503, E504, E512, E505, E506, E507 and E508 all run.
pub fn candidate_diagnostics(node: &PlanNode, candidate: &Sexpr) -> (r: Vec<Sexpr>)
    ensures
        views_of(r@) == candidate_diags(*node, candidate@),
{
    match candidate_shape(candidate) {
        Some(body) => body_diagnostics(node, body),
        None => {
            let mut diags: Vec<Sexpr> = Vec::new();
            assert(views_of(diags@) =~= Seq::<SexprV>::empty());
            push_err(&mut diags, "E501", owned("model output is not a candidate value"));
            assert(views_of(diags@) =~= e501());
            diags
        },
    }
}

/// A diagnostic that reads as error-severity: a `severity` entry that is
/// the symbol `error`, or no symbol `severity` entry at all.
pub open spec fn counts_as_error(d: SexprV) -> bool {
    match assoc_v(d, "severity"@) {
        Some(SexprV::Sym(s)) => s == "error"@,
        _ => true,
    }
}

/// `true` iff the firewall reports no error-severity diagnostic.
pub fn candidate_valid(node: &PlanNode, candidate: &Sexpr) -> (r: bool)
    ensures
        r == forall|i: int| 0 <= i < candidate_diags(*node, candidate@).len()
            ==> !counts_as_error(#[trigger] candidate_diags(*node, candidate@)[i]),
{
    let diags = candidate_diagnostics(node, candidate);
    let ghost dv = views_of(diags@);
    proof {
        lemma_views_of(diags@);
    }
    let mut i: usize = 0;
    while i < diags.len()
        invariant
            i <= diags.len(),
            dv == views_of(diags@),
            dv == candidate_diags(*node, candidate@),
            dv.len() == diags.len(),
            forall|k: int| 0 <= k < diags.len() ==> #[trigger] dv[k] == diags@[k]@,
            forall|k: int| 0 <= k < i ==> !counts_as_error(#[trigger] dv[k]),
        decreases diags.len() - i,
    {
        let is_error = match diags[i].assoc("severity") {
            Some(s) => match s.as_sym() {
                Some(t) => str_eq(t, "error"),
                None => true,
            },
            None => true,
        };
        if is_error {
            assert(counts_as_error(dv[i as int]));
            return false;
        }
        i = i + 1;
    }
    true
}

/// A path that could escape the output directory: it starts with `/`,
/// or contains `..` (deliberately over-rejecting names such as
/// `a..b.rb`), or contains a backslash.
pub open spec fn unsafe_path(path: Seq<char>) -> bool {
    is_prefix("/"@, path) || contains_text(path, ".."@) || contains_text(path, "\\"@)
}

/// Rejects any path that starts with `/`, contains a backslash, or
/// contains the two-character run `..`.
pub fn is_unsafe_output_path(path: &str) -> (r: bool)
    ensures
        r == unsafe_path(path@),
{
    starts_with(path, "/") || contains(path, "..") || contains(path, "\\")
}

// ---- every firewall diagnostic is an error ----

pub open spec fn all_errors(s: Seq<SexprV>) -> bool {
    forall|i: int| 0 <= i < s.len() ==> counts_as_error(#[trigger] s[i])
}

proof fn lemma_err_is_error(code: Seq<char>, msg: Seq<char>)
    ensures
        counts_as_error(err(code, msg)),
{
    let items = err(code, msg)->List_0;
    assert(!is_pair_with_key(items[0], "severity"@));
    assert(items.drop_first()[0] == items[1]);
    assert(is_pair_with_key(items[1], "severity"@));
    reveal_with_fuel(assoc_items, 2);
}

proof fn lemma_all_errors_push(s: Seq<SexprV>, code: Seq<char>, msg: Seq<char>)
    requires
        all_errors(s),
    ensures
        all_errors(s.push(err(code, msg))),
{
    lemma_err_is_error(code, msg);
    assert forall|i: int| 0 <= i < s.push(err(code, msg)).len() implies counts_as_error(#[trigger] s.push(err(code, msg))[i]) by {
        if i < s.len() {
            assert(s.push(err(code, msg))[i] == s[i]);
        }
    }
}

proof fn lemma_all_errors_add(a: Seq<SexprV>, b: Seq<SexprV>)
    requires
        all_errors(a),
        all_errors(b),
    ensures
        all_errors(a + b),
{
    assert forall|i: int| 0 <= i < (a + b).len() implies counts_as_error(#[trigger] (a + b)[i]) by {
        if i < a.len() {
            assert((a + b)[i] == a[i]);
        } else {
            assert((a + b)[i] == b[i - a.len()]);
        }
    }
}

proof fn lemma_one_error(code: Seq<char>, msg: Seq<char>)
    ensures
        all_errors(seq![err(code, msg)]),
{
    lemma_all_errors_push(Seq::empty(), code, msg);
    assert(Seq::<SexprV>::empty().push(err(code, msg)) =~= seq![err(code, msg)]);
}

proof fn lemma_e503_errors(m: Seq<Seq<char>>, ps: Seq<Seq<char>>)
    ensures
        all_errors(e503(m, ps)),
    decreases ps.len(),
{
    if ps.len() > 0 {
        lemma_e503_errors(m, ps.drop_last());
        if !m.contains(ps.last()) {
            lemma_all_errors_push(e503(m, ps.drop_last()), "E503"@, "candidate writes outside its node contract: "@ + ps.last());
        }
    }
}

proof fn lemma_e504_errors(m: Seq<Seq<char>>, fs: Seq<(Seq<char>, Seq<char>)>)
    ensures
        all_errors(e504(m, fs)),
    decreases m.len(),
{
    if m.len() > 0 {
        lemma_e504_errors(m.drop_last(), fs);
        if !has_file(fs, m.last()) {
            lemma_all_errors_push(e504(m.drop_last(), fs), "E504"@, "candidate omitted a required artifact: "@ + m.last());
        }
    }
}

proof fn lemma_e512_errors(es: Seq<SexprV>)
    ensures
        all_errors(e512(es)),
{
    assert forall|i: int| 0 <= i < e512(es).len() implies counts_as_error(#[trigger] e512(es)[i]) by {
        lemma_err_is_error("E512"@, "malformed candidate entry: "@ + print_v(es[i]));
    }
}

proof fn lemma_e507_errors(lang: Seq<char>, fs: Seq<(Seq<char>, Seq<char>)>)
    ensures
        all_errors(e507_files(lang, fs)),
    decreases fs.len(),
{
    if fs.len() > 0 {
        lemma_e507_errors(lang, fs.drop_last());
        if has_lisp_marker(fs.last().1) {
            lemma_all_errors_push(e507_files(lang, fs.drop_last()), "E507"@,
                "file content appears to be Lisp, not "@ + lang + " as required by TARGET: "@ + fs.last().0);
        }
    }
}

proof fn lemma_e508_errors(c: Seq<Seq<char>>, es: Seq<Seq<char>>)
    ensures
        all_errors(e508(c, es)),
    decreases es.len(),
{
    if es.len() > 0 {
        lemma_e508_errors(c, es.drop_last());
        if !c.contains(es.last()) {
            lemma_all_errors_push(e508(c, es.drop_last()), "E508"@,
                "candidate uses capability edge not declared in node contract: "@ + es.last());
        }
    }
}

/// Every diagnostic the firewall reports is error-severity.
pub proof fn lemma_firewall_reports_errors(node: PlanNode, cand: SexprV)
    ensures
        all_errors(candidate_diags(node, cand)),
{
    match candidate_shape_v(cand) {
        None => {
            lemma_one_error("E501"@, "model output is not a candidate value"@);
        },
        Some(body) => {
            let es = field_items(body, "files"@);
            let files = files_v(es);
            let lang = target_language_v(node.target@);
            if !fingerprint_valid(node) {
                lemma_one_error("E513"@, "plan node contract fingerprint does not verify: "@ + node.id@);
            }
            if node_id_v(body) != Some(node.id@) {
                let got = match node_id_v(body) {
                    Some(s) => s,
                    None => "<none>"@,
                };
                lemma_one_error("E502"@, "candidate names a different plan node: expected "@ + node.id@ + ", got "@ + got);
            }
            lemma_e503_errors(texts(node.may_write@), audit_paths(es));
            lemma_e504_errors(texts(node.may_write@), files);
            lemma_e512_errors(audit_malformed(es) + malformed_vocab(field_items(body, "edge-uses"@)));
            if !nil_or_absent(assoc_v(body, "assumptions"@)) {
                lemma_one_error("E505"@, "candidate may not add assumptions"@);
            }
            if !nil_or_absent(assoc_v(body, "unresolved"@)) {
                lemma_one_error("E506"@, "candidate reported an unresolved contract"@);
            }
            if non_lisp(lang) {
                lemma_e507_errors(lang->0, files);
            }
            lemma_e508_errors(texts(node.capabilities@), vocab_list(field_items(body, "edge-uses"@)));
            let a1 = e513(node) + e502(node, body);
            lemma_all_errors_add(e513(node), e502(node, body));
            let a2 = a1 + e503(texts(node.may_write@), audit_paths(es));
            lemma_all_errors_add(a1, e503(texts(node.may_write@), audit_paths(es)));
            let a3 = a2 + e504(texts(node.may_write@), files);
            lemma_all_errors_add(a2, e504(texts(node.may_write@), files));
            let a4 = a3 + e512(audit_malformed(es) + malformed_vocab(field_items(body, "edge-uses"@)));
            lemma_all_errors_add(a3, e512(audit_malformed(es) + malformed_vocab(field_items(body, "edge-uses"@))));
            let a5 = a4 + e505(body);
            lemma_all_errors_add(a4, e505(body));
            let a6 = a5 + e506(body);
            lemma_all_errors_add(a5, e506(body));
            let a7 = a6 + e507(lang, files);
            lemma_all_errors_add(a6, e507(lang, files));
            lemma_all_errors_add(a7, e508(texts(node.capabilities@), vocab_list(field_items(body, "edge-uses"@))));
        },
    }
}

/// A candidate is valid exactly when the firewall reports nothing.
pub proof fn lemma_valid_iff_no_diagnostics(node: PlanNode, cand: SexprV)
    ensures
        (forall|i: int| 0 <= i < candidate_diags(node, cand).len()
            ==> !counts_as_error(#[trigger] candidate_diags(node, cand)[i]))
            <==> candidate_diags(node, cand).len() == 0,
{
    lemma_firewall_reports_errors(node, cand);
    if candidate_diags(node, cand).len() > 0 {
        assert(counts_as_error(candidate_diags(node, cand)[0]));
    }
}
} // verus!
