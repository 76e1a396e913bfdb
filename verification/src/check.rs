//! Semantic checks over a parsed specification: duplicate declarations,
//! unresolved references, undeclared exports and naming conventions,
//! with nearest-name suggestions by edit distance.
use vstd::prelude::*;
use crate::ast::{BehaviorDecl, Decl, Field, File, Ident, InterfaceDecl, ModeExpr, OpDecl};
use crate::diag::{Diagnostic, Severity};
use crate::lexer::{DiagV, diag_view};
use crate::span::Span;
use crate::text::{chars_of, nat_digits, owned, push_char, push_str, push_u64_decimal, str_eq};

verus! {

// ===================================================================
// Edit distance.
// ===================================================================

pub open spec fn min_nat(a: nat, b: nat) -> nat {
    if a <= b { a } else { b }
}

/// The Levenshtein distance between two character sequences.
pub open spec fn lev(a: Seq<char>, b: Seq<char>) -> nat
    decreases a.len() + b.len(),
{
    if a.len() == 0 {
        b.len()
    } else if b.len() == 0 {
        a.len()
    } else {
        min_nat(
            min_nat(lev(a.drop_last(), b) + 1, lev(a, b.drop_last()) + 1),
            lev(a.drop_last(), b.drop_last()) + if a.last() == b.last() { 0nat } else { 1nat },
        )
    }
}

pub open spec fn cap3(n: nat) -> nat {
    if n < 3 { n } else { 3 }
}

/// `min(lev(a, b), 3)`: the distance as far as a suggestion needs it
/// (only distances up to 2 qualify).
pub fn bounded_edit_distance(a: &[char], b: &[char]) -> (r: usize)
    ensures
        r == cap3(lev(a@, b@)),
{
    let len1 = a.len();
    let len2 = b.len();
    // prev[k] == cap3(lev(a[..i-1], b[..k]))
    let mut prev: Vec<usize> = Vec::new();
    prev.push(0);
    let mut j: usize = 0;
    while j < len2
        invariant
            j <= len2,
            len2 == b@.len(),
            prev.len() == j + 1,
            forall|k: int| 0 <= k <= j ==> prev@[k] == cap3(k as nat),
        decreases len2 - j,
    {
        j = j + 1;
        prev.push(if j < 3 { j } else { 3 });
    }
    assert forall|k: int| 0 <= k <= len2 implies prev@[k] == cap3(lev(a@.take(0), b@.take(k))) by {
        assert(a@.take(0).len() == 0);
    }
    let mut i: usize = 0;
    while i < len1
        invariant
            i <= len1,
            len1 == a@.len(),
            len2 == b@.len(),
            prev.len() == len2 + 1,
            forall|k: int| 0 <= k <= len2 ==> prev@[k] == cap3(lev(a@.take(i as int), b@.take(k))),
        decreases len1 - i,
    {
        i = i + 1;
        let mut cur: Vec<usize> = Vec::new();
        cur.push(if i < 3 { i } else { 3 });
        proof {
            assert(b@.take(0).len() == 0);
            assert(lev(a@.take(i as int), b@.take(0)) == i);
        }
        let mut k: usize = 0;
        while k < len2
            invariant
                1 <= i <= len1,
                k <= len2,
                len1 == a@.len(),
                len2 == b@.len(),
                prev.len() == len2 + 1,
                cur.len() == k + 1,
                forall|m: int| 0 <= m <= len2 ==> prev@[m] == cap3(lev(a@.take(i - 1), b@.take(m))),
                forall|m: int| 0 <= m <= k ==> cur@[m] == cap3(lev(a@.take(i as int), b@.take(m))),
            decreases len2 - k,
        {
            k = k + 1;
            let ghost x = a@.take(i as int);
            let ghost y = b@.take(k as int);
            proof {
                assert(x.drop_last() =~= a@.take(i - 1));
                assert(y.drop_last() =~= b@.take(k - 1));
                assert(x.last() == a@[i - 1]);
                assert(y.last() == b@[k - 1]);
            }
            let cost: usize = if a[i - 1] == b[k - 1] { 0 } else { 1 };
            let del = prev[k] + 1;
            let ins = cur[k - 1] + 1;
            let sub = prev[k - 1] + cost;
            let m1 = if del <= ins { del } else { ins };
            let v0 = if m1 <= sub { m1 } else { sub };
            let v = if v0 < 3 { v0 } else { 3 };
            cur.push(v);
        }
        prev = cur;
    }
    assert(a@.take(len1 as int) =~= a@);
    assert(b@.take(len2 as int) =~= b@);
    prev[len2]
}

// ===================================================================
// The model of the checker.
// ===================================================================

/// A name table entry: the name and where it was first declared.
pub type EntryV = (Seq<char>, Span);

/// The symbol tables of the first pass, in declaration order.
pub struct TablesV {
    pub modes: Seq<EntryV>,
    pub actors: Seq<EntryV>,
    pub interfaces: Seq<EntryV>,
    /// `(interface, operation)` pairs.
    pub ops: Seq<(Seq<char>, Seq<char>)>,
    pub states: Seq<EntryV>,
    pub components: Seq<EntryV>,
    pub behaviors: Seq<EntryV>,
    pub flows: Seq<EntryV>,
    pub has_use: bool,
}

pub open spec fn zero_span() -> Span {
    Span { start: 0, end: 0 }
}

/// The built-in modes every specification has.
pub open spec fn builtin_modes() -> Seq<EntryV> {
    seq![
        ("text"@, zero_span()),
        ("int"@, zero_span()),
        ("bool"@, zero_span()),
        ("local_date"@, zero_span()),
        ("zoned_datetime"@, zero_span()),
        ("void"@, zero_span()),
    ]
}

pub open spec fn initial_tables() -> TablesV {
    TablesV {
        modes: builtin_modes(),
        actors: Seq::empty(),
        interfaces: Seq::empty(),
        ops: Seq::empty(),
        states: Seq::empty(),
        components: Seq::empty(),
        behaviors: Seq::empty(),
        flows: Seq::empty(),
        has_use: false,
    }
}

/// Where `name` was first declared in table `t`.
pub open spec fn find_t(t: Seq<EntryV>, name: Seq<char>) -> Option<Span>
    decreases t.len(),
{
    if t.len() == 0 {
        None
    } else if t[0].0 == name {
        Some(t[0].1)
    } else {
        find_t(t.drop_first(), name)
    }
}

pub open spec fn names_of(t: Seq<EntryV>) -> Seq<Seq<char>> {
    t.map_values(|e: EntryV| e.0)
}

pub open spec fn dv(severity: Severity, code: Seq<char>, span: Span, message: Seq<char>) -> DiagV {
    DiagV { severity, code, start: span.start as int, end: span.end as int, message }
}

pub open spec fn quoted(s: Seq<char>) -> Seq<char> {
    "'"@ + s + "'"@
}

/// Adding a name: an E201 duplicate error when it is already declared,
/// otherwise the table grows by it.
pub open spec fn add_v(t: Seq<EntryV>, id: Ident, kind: Seq<char>) -> (Seq<EntryV>, Seq<DiagV>) {
    match find_t(t, id.text@) {
        Some(sp) => (t, seq![dv(Severity::Error, "E201"@, id.span,
            "duplicate "@ + kind + " name "@ + quoted(id.text@) + " (previously declared at "@ + nat_digits(sp.start as nat) + ":"@
                + nat_digits(sp.end as nat) + ")"@)]),
        None => (t.push((id.text@, id.span)), Seq::empty()),
    }
}

pub open spec fn add_op_v(ops: Seq<(Seq<char>, Seq<char>)>, iface: Ident, op: Ident) -> (Seq<(Seq<char>, Seq<char>)>, Seq<DiagV>) {
    if ops.contains((iface.text@, op.text@)) {
        (ops, seq![dv(Severity::Error, "E201"@, op.span,
            "duplicate operation name "@ + quoted(op.text@) + " in interface "@ + quoted(iface.text@))])
    } else {
        (ops.push((iface.text@, op.text@)), Seq::empty())
    }
}

pub open spec fn is_upper_ascii(c: char) -> bool {
    'A' <= c && c <= 'Z'
}

/// The name is empty or starts with an ASCII character.
pub open spec fn ascii_led(s: Seq<char>) -> bool {
    s.len() == 0 || (s[0] as u32) < 128
}

pub open spec fn lower_ascii(c: char) -> char {
    ((c as u32) + 32) as char
}

pub open spec fn cap_mode_v(id: Ident) -> Seq<DiagV> {
    let n = id.text@;
    if n.len() > 0 && !is_upper_ascii(n[0]) {
        seq![dv(Severity::Warning, "W302"@, id.span, "mode name "@ + quoted(n) + " should be capitalized (like 'Task')"@)]
    } else {
        Seq::empty()
    }
}

pub open spec fn cap_other_v(id: Ident) -> Seq<DiagV> {
    let n = id.text@;
    if n.len() > 0 && is_upper_ascii(n[0]) {
        seq![dv(Severity::Warning, "W302"@, id.span,
            "non-mode declaration "@ + quoted(n) + " should not be capitalized (like "@ + quoted(seq![lower_ascii(n[0])] + n.drop_first())
                + ")"@)]
    } else {
        Seq::empty()
    }
}

/// The first-pass state: the tables and the diagnostics so far.
pub struct Pass1V {
    pub t: TablesV,
    pub diags: Seq<DiagV>,
}

pub open spec fn ops_step(st: Pass1V, iface: Ident, ops: Seq<OpDecl>) -> Pass1V
    decreases ops.len(),
{
    if ops.len() == 0 {
        st
    } else {
        let prev = ops_step(st, iface, ops.drop_last());
        let r = add_op_v(prev.t.ops, iface, ops.last().name);
        Pass1V { t: TablesV { ops: r.0, ..prev.t }, diags: prev.diags + r.1 }
    }
}

/// One declaration of the first pass: `use` sets the flag, named
/// declarations are checked for capitalization and added to their table.
pub open spec fn pass1_step(st: Pass1V, d: Decl) -> Pass1V {
    let t = st.t;
    match d {
        Decl::Use(_) => Pass1V { t: TablesV { has_use: true, ..t }, diags: st.diags },
        Decl::Mode(m) => {
            let r = add_v(t.modes, m.name, "mode"@);
            Pass1V { t: TablesV { modes: r.0, ..t }, diags: st.diags + cap_mode_v(m.name) + r.1 }
        },
        Decl::Actor(a) => {
            let r = add_v(t.actors, a.name, "actor"@);
            Pass1V { t: TablesV { actors: r.0, ..t }, diags: st.diags + cap_other_v(a.name) + r.1 }
        },
        Decl::Interface(i) => {
            let r = add_v(t.interfaces, i.name, "interface"@);
            ops_step(Pass1V { t: TablesV { interfaces: r.0, ..t }, diags: st.diags + cap_other_v(i.name) + r.1 }, i.name, i.ops@)
        },
        Decl::State(s) => {
            let r = add_v(t.states, s.name, "state"@);
            Pass1V { t: TablesV { states: r.0, ..t }, diags: st.diags + cap_other_v(s.name) + r.1 }
        },
        Decl::Component(c) => {
            let r = add_v(t.components, c.name, "component"@);
            Pass1V { t: TablesV { components: r.0, ..t }, diags: st.diags + cap_other_v(c.name) + r.1 }
        },
        Decl::Behavior(b) => {
            let r = add_v(t.behaviors, b.name, "behavior"@);
            Pass1V { t: TablesV { behaviors: r.0, ..t }, diags: st.diags + cap_other_v(b.name) + r.1 }
        },
        Decl::Flow(f) => {
            let r = add_v(t.flows, f.name, "flow"@);
            Pass1V { t: TablesV { flows: r.0, ..t }, diags: st.diags + cap_other_v(f.name) + r.1 }
        },
        _ => st,
    }
}

pub open spec fn pass1(ds: Seq<Decl>) -> Pass1V
    decreases ds.len(),
{
    if ds.len() == 0 {
        Pass1V { t: initial_tables(), diags: Seq::empty() }
    } else {
        pass1_step(pass1(ds.drop_last()), ds.last())
    }
}

/// The name the first pass checks for capitalization, if any.
pub open spec fn checked_name(d: Decl) -> Option<Seq<char>> {
    match d {
        Decl::Mode(m) => Some(m.name.text@),
        Decl::Actor(a) => Some(a.name.text@),
        Decl::Interface(i) => Some(i.name.text@),
        Decl::State(s) => Some(s.name.text@),
        Decl::Component(c) => Some(c.name.text@),
        Decl::Behavior(b) => Some(b.name.text@),
        Decl::Flow(f) => Some(f.name.text@),
        _ => None,
    }
}

/// Every checked name starts with an ASCII character (or is empty).
pub open spec fn names_ascii_led(ds: Seq<Decl>) -> bool {
    forall|i: int| 0 <= i < ds.len() ==> match checked_name(#[trigger] ds[i]) {
        Some(n) => ascii_led(n),
        None => true,
    }
}

/// Whether every checked name of `file` starts with an ASCII character
/// (see `names_ascii_led`), as `check` requires.
pub fn names_ascii_led_exec(file: &File) -> (r: bool)
    ensures
        r == names_ascii_led(file.decls@),
{
    let mut i: usize = 0;
    while i < file.decls.len()
        invariant
            i <= file.decls.len(),
            forall|k: int| 0 <= k < i ==> match checked_name(#[trigger] file.decls@[k]) {
                Some(n) => ascii_led(n),
                None => true,
            },
        decreases file.decls.len() - i,
    {
        let name: Option<&String> = match &file.decls[i] {
            Decl::Mode(m) => Some(&m.name.text),
            Decl::Actor(a) => Some(&a.name.text),
            Decl::Interface(x) => Some(&x.name.text),
            Decl::State(x) => Some(&x.name.text),
            Decl::Component(x) => Some(&x.name.text),
            Decl::Behavior(x) => Some(&x.name.text),
            Decl::Flow(x) => Some(&x.name.text),
            _ => None,
        };
        match name {
            Some(t) => {
                let cs = crate::text::chars_of(t.as_str());
                if cs.len() > 0 && (cs[0] as u32) >= 128 {
                    return false;
                }
            },
            None => {},
        }
        i = i + 1;
    }
    true
}

// ---- nearest names ----

/// The first name with the least distance to `target`, among those at
/// distance at most 2.
pub open spec fn nearest(names: Seq<Seq<char>>, target: Seq<char>) -> Option<(nat, Seq<char>)>
    decreases names.len(),
{
    if names.len() == 0 {
        None
    } else {
        let prev = nearest(names.drop_last(), target);
        let d = lev(target, names.last());
        if d <= 2 && match prev {
            Some(best) => d < best.0,
            None => true,
        } {
            Some((d, names.last()))
        } else {
            prev
        }
    }
}

pub open spec fn suggestion(n: Option<(nat, Seq<char>)>) -> Seq<char> {
    match n {
        Some(x) => "; did you mean "@ + quoted(x.1) + "?"@,
        None => Seq::empty(),
    }
}

pub open spec fn unknown_sev(t: TablesV) -> Severity {
    if t.has_use { Severity::Warning } else { Severity::Error }
}

/// A reference to a mode: nothing when declared, else an unknown-mode
/// diagnostic (W301 after a `use`, else E202) with a suggestion.
pub open spec fn mode_ref_v(t: TablesV, name: Ident) -> Seq<DiagV> {
    if find_t(t.modes, name.text@) is Some {
        Seq::empty()
    } else {
        seq![dv(unknown_sev(t), if t.has_use { "W301"@ } else { "E202"@ }, name.span,
            "unknown mode "@ + quoted(name.text@) + suggestion(nearest(names_of(t.modes), name.text@)))]
    }
}

/// The mode names a mode expression refers to, in traversal order.
pub open spec fn mode_refs(e: ModeExpr) -> Seq<Ident>
    decreases e,
{
    match e {
        ModeExpr::Opaque(inner) => mode_refs(*inner),
        ModeExpr::Enum(_) => Seq::empty(),
        ModeExpr::Union(vs) => union_refs(vs@),
        ModeExpr::Struct(fs) => field_refs(fs@),
        ModeExpr::Opt(inner) => mode_refs(*inner),
        ModeExpr::Row(inner) => mode_refs(*inner),
        ModeExpr::Named { name, args } => seq![name] + args_refs(args@),
        ModeExpr::Refined { name, .. } => seq![name],
    }
}

pub open spec fn union_refs(vs: Seq<(Ident, ModeExpr)>) -> Seq<Ident>
    decreases vs,
{
    if vs.len() == 0 {
        Seq::empty()
    } else {
        union_refs(vs.drop_last()) + mode_refs(vs.last().1)
    }
}

pub open spec fn field_refs(fs: Seq<Field>) -> Seq<Ident>
    decreases fs,
{
    if fs.len() == 0 {
        Seq::empty()
    } else {
        field_refs(fs.drop_last()) + mode_refs(fs.last().mode)
    }
}

pub open spec fn args_refs(es: Seq<ModeExpr>) -> Seq<Ident>
    decreases es,
{
    if es.len() == 0 {
        Seq::empty()
    } else {
        args_refs(es.drop_last()) + mode_refs(es.last())
    }
}

pub open spec fn refs_diags(t: TablesV, refs: Seq<Ident>) -> Seq<DiagV>
    decreases refs.len(),
{
    if refs.len() == 0 {
        Seq::empty()
    } else {
        refs_diags(t, refs.drop_last()) + mode_ref_v(t, refs.last())
    }
}

pub open spec fn op_refs(op: OpDecl) -> Seq<Ident> {
    field_refs(op.params@) + mode_refs(op.output)
}

pub open spec fn ops_refs(ops: Seq<OpDecl>) -> Seq<Ident>
    decreases ops.len(),
{
    if ops.len() == 0 {
        Seq::empty()
    } else {
        ops_refs(ops.drop_last()) + op_refs(ops.last())
    }
}

pub open spec fn interface_v(t: TablesV, i: InterfaceDecl) -> Seq<DiagV> {
    (if find_t(t.actors, i.default_actor.text@) is Some {
        Seq::empty()
    } else {
        seq![dv(Severity::Error, "E203"@, i.default_actor.span,
            "interface "@ + quoted(i.name.text@) + " references unknown actor "@ + quoted(i.default_actor.text@))]
    }) + refs_diags(t, ops_refs(i.ops@))
}

pub open spec fn behavior_v(t: TablesV, b: BehaviorDecl) -> Seq<DiagV> {
    if find_t(t.interfaces, b.on_interface.text@) is None {
        seq![dv(Severity::Error, "E204"@, b.on_interface.span,
            "behavior "@ + quoted(b.name.text@) + " references unknown interface "@ + quoted(b.on_interface.text@))]
    } else if t.ops.contains((b.on_interface.text@, b.on_op.text@)) {
        Seq::empty()
    } else {
        seq![dv(Severity::Error, "E204"@, b.on_op.span,
            "interface "@ + quoted(b.on_interface.text@) + " has no operation "@ + quoted(b.on_op.text@))]
    }
}

pub open spec fn scope_known(t: TablesV, s: Seq<char>) -> bool {
    find_t(t.states, s) is Some || find_t(t.interfaces, s) is Some || find_t(t.components, s) is Some
}

pub open spec fn scope_v(t: TablesV, what: Seq<char>, name: Ident, scope: Ident) -> Seq<DiagV> {
    if scope_known(t, scope.text@) {
        Seq::empty()
    } else {
        seq![dv(Severity::Error, "E205"@, scope.span,
            what + " "@ + quoted(name.text@) + " references unknown scope "@ + quoted(scope.text@)
                + " (must be a state, interface, or component)"@)]
    }
}

/// The reference checks of one declaration against the tables.
pub open spec fn pass2_decl(t: TablesV, d: Decl) -> Seq<DiagV> {
    match d {
        Decl::Mode(m) => refs_diags(t, mode_refs(m.expr)),
        Decl::Interface(i) => interface_v(t, i),
        Decl::Behavior(b) => behavior_v(t, b),
        Decl::Invariant(inv) => scope_v(t, "invariant"@, inv.name, inv.scope),
        Decl::Constraint(c) => scope_v(t, "constraint"@, c.name, c.scope),
        _ => Seq::empty(),
    }
}

pub open spec fn pass2(t: TablesV, ds: Seq<Decl>) -> Seq<DiagV>
    decreases ds.len(),
{
    if ds.len() == 0 {
        Seq::empty()
    } else {
        pass2(t, ds.drop_last()) + pass2_decl(t, ds.last())
    }
}

/// Every declared name, table by table.
pub open spec fn all_names(t: TablesV) -> Seq<Seq<char>> {
    names_of(t.modes) + names_of(t.actors) + names_of(t.interfaces) + names_of(t.states) + names_of(t.components)
        + names_of(t.behaviors) + names_of(t.flows)
}

pub open spec fn export_v(t: TablesV, e: Ident) -> Seq<DiagV> {
    if all_names(t).contains(e.text@) {
        Seq::empty()
    } else {
        seq![dv(unknown_sev(t), if t.has_use { "W301"@ } else { "E206"@ }, e.span,
            "exported name "@ + quoted(e.text@) + " is not declared"@ + suggestion(nearest(all_names(t), e.text@)))]
    }
}

pub open spec fn exports_v(t: TablesV, es: Seq<Ident>) -> Seq<DiagV>
    decreases es.len(),
{
    if es.len() == 0 {
        Seq::empty()
    } else {
        exports_v(t, es.drop_last()) + export_v(t, es.last())
    }
}

/// All diagnostics of a file: the first pass (capitalization and
/// duplicates), then the reference checks, then the exports.
pub open spec fn check_v(f: File) -> Seq<DiagV> {
    let p1 = pass1(f.decls@);
    p1.diags + pass2(p1.t, f.decls@) + exports_v(p1.t, f.spec.exports@)
}


// ===================================================================
// Executable code.
// ===================================================================

pub open spec fn ent_v(t: Seq<(String, Span)>) -> Seq<EntryV> {
    t.map_values(|e: (String, Span)| (e.0@, e.1))
}

pub open spec fn ops_v(t: Seq<(String, String)>) -> Seq<(Seq<char>, Seq<char>)> {
    t.map_values(|e: (String, String)| (e.0@, e.1@))
}

pub open spec fn diag_views(ds: Seq<Diagnostic>) -> Seq<DiagV> {
    ds.map_values(|d: Diagnostic| diag_view(d))
}

/// The symbol tables, in declaration order.
struct Tables {
    modes: Vec<(String, Span)>,
    actors: Vec<(String, Span)>,
    interfaces: Vec<(String, Span)>,
    ops: Vec<(String, String)>,
    states: Vec<(String, Span)>,
    components: Vec<(String, Span)>,
    behaviors: Vec<(String, Span)>,
    flows: Vec<(String, Span)>,
    has_use: bool,
}

spec fn tables_v(t: Tables) -> TablesV {
    TablesV {
        modes: ent_v(t.modes@),
        actors: ent_v(t.actors@),
        interfaces: ent_v(t.interfaces@),
        ops: ops_v(t.ops@),
        states: ent_v(t.states@),
        components: ent_v(t.components@),
        behaviors: ent_v(t.behaviors@),
        flows: ent_v(t.flows@),
        has_use: t.has_use,
    }
}

fn new_tables() -> (r: Tables)
    ensures
        tables_v(r) == initial_tables(),
{
    let z = Span { start: 0, end: 0 };
    let modes = vec![
        (owned("text"), z),
        (owned("int"), z),
        (owned("bool"), z),
        (owned("local_date"), z),
        (owned("zoned_datetime"), z),
        (owned("void"), z),
    ];
    let r = Tables {
        modes,
        actors: Vec::new(),
        interfaces: Vec::new(),
        ops: Vec::new(),
        states: Vec::new(),
        components: Vec::new(),
        behaviors: Vec::new(),
        flows: Vec::new(),
        has_use: false,
    };
    assert(ent_v(r.modes@) =~= builtin_modes());
    assert(ent_v(r.actors@) =~= Seq::<EntryV>::empty());
    assert(ops_v(r.ops@) =~= Seq::<(Seq<char>, Seq<char>)>::empty());
    assert(ent_v(r.interfaces@) =~= Seq::<EntryV>::empty());
    assert(ent_v(r.states@) =~= Seq::<EntryV>::empty());
    assert(ent_v(r.components@) =~= Seq::<EntryV>::empty());
    assert(ent_v(r.behaviors@) =~= Seq::<EntryV>::empty());
    assert(ent_v(r.flows@) =~= Seq::<EntryV>::empty());
    r
}

fn find_entry(t: &[(String, Span)], name: &str) -> (r: Option<Span>)
    ensures
        r == find_t(ent_v(t@), name@),
{
    let ghost tv = ent_v(t@);
    let mut i: usize = 0;
    assert(tv.skip(0) =~= tv);
    while i < t.len()
        invariant
            i <= t.len(),
            tv == ent_v(t@),
            find_t(tv, name@) == find_t(tv.skip(i as int), name@),
        decreases t.len() - i,
    {
        assert(tv.skip(i as int).drop_first() =~= tv.skip(i + 1));
        assert(tv.skip(i as int)[0] == tv[i as int]);
        if str_eq(t[i].0.as_str(), name) {
            return Some(t[i].1);
        }
        i = i + 1;
    }
    None
}

fn push_diag(diags: &mut Vec<Diagnostic>, severity: Severity, code: &'static str, span: Span, message: String)
    ensures
        diag_views(final(diags)@) == diag_views(old(diags)@).push(dv(severity, code@, span, message@)),
{
    let d = Diagnostic { severity, code, span, message };
    diags.push(d);
    assert(diag_views(diags@) =~= diag_views(old(diags)@).push(dv(severity, code@, span, message@)));
}

fn quote_into(s: &mut String, t: &str)
    ensures
        final(s)@ == old(s)@ + quoted(t@),
{
    push_str(s, "'");
    push_str(s, t);
    push_str(s, "'");
}

fn add_name(t: &mut Vec<(String, Span)>, id: &Ident, kind: &str, diags: &mut Vec<Diagnostic>)
    ensures
        ent_v(final(t)@) == add_v(ent_v(old(t)@), *id, kind@).0,
        diag_views(final(diags)@) == diag_views(old(diags)@) + add_v(ent_v(old(t)@), *id, kind@).1,
{
    match find_entry(t.as_slice(), id.text.as_str()) {
        Some(sp) => {
            let mut m = owned("duplicate ");
            push_str(&mut m, kind);
            push_str(&mut m, " name ");
            quote_into(&mut m, id.text.as_str());
            push_str(&mut m, " (previously declared at ");
            push_u64_decimal(&mut m, sp.start as u64);
            push_str(&mut m, ":");
            push_u64_decimal(&mut m, sp.end as u64);
            push_str(&mut m, ")");
            push_diag(diags, Severity::Error, "E201", id.span, m);
        },
        None => {
            t.push((id.text.clone(), id.span));
            assert(ent_v(t@) =~= ent_v(old(t)@).push((id.text@, id.span)));
        },
    }
    assert(diag_views(diags@) =~= diag_views(old(diags)@) + add_v(ent_v(old(t)@), *id, kind@).1);
}

fn has_pair(ops: &[(String, String)], a: &str, b: &str) -> (r: bool)
    ensures
        r == ops_v(ops@).contains((a@, b@)),
{
    let ghost ov = ops_v(ops@);
    let mut i: usize = 0;
    while i < ops.len()
        invariant
            i <= ops.len(),
            ov == ops_v(ops@),
            forall|j: int| 0 <= j < i ==> ov[j] != (a@, b@),
        decreases ops.len() - i,
    {
        if str_eq(ops[i].0.as_str(), a) && str_eq(ops[i].1.as_str(), b) {
            assert(ov[i as int] == (a@, b@));
            return true;
        }
        i = i + 1;
    }
    false
}

fn add_op(ops: &mut Vec<(String, String)>, iface: &Ident, op: &Ident, diags: &mut Vec<Diagnostic>)
    ensures
        ops_v(final(ops)@) == add_op_v(ops_v(old(ops)@), *iface, *op).0,
        diag_views(final(diags)@) == diag_views(old(diags)@) + add_op_v(ops_v(old(ops)@), *iface, *op).1,
{
    if has_pair(ops.as_slice(), iface.text.as_str(), op.text.as_str()) {
        let mut m = owned("duplicate operation name ");
        quote_into(&mut m, op.text.as_str());
        push_str(&mut m, " in interface ");
        quote_into(&mut m, iface.text.as_str());
        push_diag(diags, Severity::Error, "E201", op.span, m);
    } else {
        ops.push((iface.text.clone(), op.text.clone()));
        assert(ops_v(ops@) =~= ops_v(old(ops)@).push((iface.text@, op.text@)));
    }
    assert(diag_views(diags@) =~= diag_views(old(diags)@) + add_op_v(ops_v(old(ops)@), *iface, *op).1);
}

fn is_upper(c: char) -> (r: bool)
    ensures
        r == is_upper_ascii(c),
{
    'A' <= c && c <= 'Z'
}

fn cap_mode(id: &Ident, diags: &mut Vec<Diagnostic>)
    ensures
        diag_views(final(diags)@) == diag_views(old(diags)@) + cap_mode_v(*id),
{
    let cs = chars_of(id.text.as_str());
    if cs.len() > 0 && !is_upper(cs[0]) {
        let mut m = owned("mode name ");
        quote_into(&mut m, id.text.as_str());
        push_str(&mut m, " should be capitalized (like 'Task')");
        push_diag(diags, Severity::Warning, "W302", id.span, m);
    }
    assert(diag_views(diags@) =~= diag_views(old(diags)@) + cap_mode_v(*id));
}

fn cap_other(id: &Ident, diags: &mut Vec<Diagnostic>)
    requires
        ascii_led(id.text@),
    ensures
        diag_views(final(diags)@) == diag_views(old(diags)@) + cap_other_v(*id),
{
    let cs = chars_of(id.text.as_str());
    if cs.len() > 0 && is_upper(cs[0]) {
        let c = cs[0];
        let lc: char = ((c as u8) + 32) as char;
        assert(lc == lower_ascii(c));
        let mut m = owned("non-mode declaration ");
        quote_into(&mut m, id.text.as_str());
        push_str(&mut m, " should not be capitalized (like '");
        push_char(&mut m, lc);
        let mut k: usize = 1;
        let ghost base = m@;
        while k < cs.len()
            invariant
                1 <= k <= cs.len(),
                m@ == base + cs@.subrange(1, k as int),
            decreases cs.len() - k,
        {
            push_char(&mut m, cs[k]);
            assert(cs@.subrange(1, k + 1) =~= cs@.subrange(1, k as int).push(cs@[k as int]));
            k = k + 1;
        }
        assert(cs@.subrange(1, cs.len() as int) =~= cs@.drop_first());
        push_str(&mut m, "')");
        assert(m@ =~= "non-mode declaration "@ + quoted(id.text@) + " should not be capitalized (like "@
            + quoted(seq![lower_ascii(id.text@[0])] + id.text@.drop_first()) + ")"@) by {
            reveal_strlit(" should not be capitalized (like '");
            reveal_strlit(" should not be capitalized (like ");
            reveal_strlit("')");
            reveal_strlit(")");
            reveal_strlit("'");
        }
        push_diag(diags, Severity::Warning, "W302", id.span, m);
    }
    assert(diag_views(diags@) =~= diag_views(old(diags)@) + cap_other_v(*id));
}

fn first_pass(decls: &[Decl], t: &mut Tables, diags: &mut Vec<Diagnostic>)
    requires
        tables_v(*old(t)) == initial_tables(),
        diag_views(old(diags)@) == Seq::<DiagV>::empty(),
        names_ascii_led(decls@),
    ensures
        (Pass1V { t: tables_v(*final(t)), diags: diag_views(final(diags)@) }) == pass1(decls@),
{
    let mut i: usize = 0;
    assert(decls@.take(0) =~= Seq::<Decl>::empty());
    while i < decls.len()
        invariant
            i <= decls.len(),
            names_ascii_led(decls@),
            (Pass1V { t: tables_v(*t), diags: diag_views(diags@) }) == pass1(decls@.take(i as int)),
        decreases decls.len() - i,
    {
        assert(decls@.take(i + 1).drop_last() =~= decls@.take(i as int));
        assert(decls@.take(i + 1).last() == decls@[i as int]);
        let ghost before = pass1(decls@.take(i as int));
        assert(match checked_name(decls@[i as int]) {
            Some(n) => ascii_led(n),
            None => true,
        });
        match &decls[i] {
            Decl::Use(_) => {
                t.has_use = true;
            },
            Decl::Mode(m) => {
                cap_mode(&m.name, diags);
                add_name(&mut t.modes, &m.name, "mode", diags);
            },
            Decl::Actor(a) => {
                cap_other(&a.name, diags);
                add_name(&mut t.actors, &a.name, "actor", diags);
            },
            Decl::Interface(itf) => {
                cap_other(&itf.name, diags);
                add_name(&mut t.interfaces, &itf.name, "interface", diags);
                let ghost mid = Pass1V { t: tables_v(*t), diags: diag_views(diags@) };
                let mut k: usize = 0;
                assert(itf.ops@.take(0) =~= Seq::<OpDecl>::empty());
                while k < itf.ops.len()
                    invariant
                        k <= itf.ops.len(),
                        (Pass1V { t: tables_v(*t), diags: diag_views(diags@) }) == ops_step(mid, itf.name, itf.ops@.take(k as int)),
                    decreases itf.ops.len() - k,
                {
                    assert(itf.ops@.take(k + 1).drop_last() =~= itf.ops@.take(k as int));
                    assert(itf.ops@.take(k + 1).last() == itf.ops@[k as int]);
                    add_op(&mut t.ops, &itf.name, &itf.ops[k].name, diags);
                    k = k + 1;
                }
                assert(itf.ops@.take(itf.ops.len() as int) =~= itf.ops@);
            },
            Decl::State(st) => {
                cap_other(&st.name, diags);
                add_name(&mut t.states, &st.name, "state", diags);
            },
            Decl::Component(c) => {
                cap_other(&c.name, diags);
                add_name(&mut t.components, &c.name, "component", diags);
            },
            Decl::Behavior(b) => {
                cap_other(&b.name, diags);
                add_name(&mut t.behaviors, &b.name, "behavior", diags);
            },
            Decl::Flow(f) => {
                cap_other(&f.name, diags);
                add_name(&mut t.flows, &f.name, "flow", diags);
            },
            _ => {},
        }
        assert((Pass1V { t: tables_v(*t), diags: diag_views(diags@) }) == pass1_step(before, decls@[i as int]));
        i = i + 1;
    }
    assert(decls@.take(decls.len() as int) =~= decls@);
}

fn names_vec(t: &[(String, Span)], out: &mut Vec<String>)
    ensures
        crate::order::texts(final(out)@) == crate::order::texts(old(out)@) + names_of(ent_v(t@)),
{
    let ghost start = crate::order::texts(out@);
    let mut i: usize = 0;
    while i < t.len()
        invariant
            i <= t.len(),
            crate::order::texts(out@) == start + names_of(ent_v(t@.take(i as int))),
        decreases t.len() - i,
    {
        let ghost before = out@;
        out.push(t[i].0.clone());
        assert(crate::order::texts(out@) =~= crate::order::texts(before).push(t@[i as int].0@));
        assert(names_of(ent_v(t@.take(i + 1))) =~= names_of(ent_v(t@.take(i as int))).push(t@[i as int].0@));
        assert(crate::order::texts(out@) =~= start + names_of(ent_v(t@.take(i + 1))));
        i = i + 1;
    }
    assert(t@.take(t.len() as int) =~= t@);
}

/// The nearest name (see `nearest`), with its distance.
fn nearest_exec(names: &[String], target: &str) -> (r: Option<(usize, usize)>)
    ensures
        match (nearest(crate::order::texts(names@), target@), r) {
            (Some(best), Some(x)) => x.0 as nat == best.0 && x.1 < names.len() && names@[x.1 as int]@ == best.1,
            (None, None) => true,
            _ => false,
        },
{
    let ghost xs = crate::order::texts(names@);
    let tc = chars_of(target);
    let mut best: Option<(usize, usize)> = None;
    let mut i: usize = 0;
    while i < names.len()
        invariant
            i <= names.len(),
            xs == crate::order::texts(names@),
            tc@ == target@,
            match (nearest(xs.take(i as int), target@), best) {
                (Some(b), Some(x)) => x.0 as nat == b.0 && x.1 < i && names@[x.1 as int]@ == b.1,
                (None, None) => true,
                _ => false,
            },
        decreases names.len() - i,
    {
        assert(xs.take(i + 1).drop_last() =~= xs.take(i as int));
        assert(xs.take(i + 1).last() == names@[i as int]@);
        let nc = chars_of(names[i].as_str());
        let c = bounded_edit_distance(tc.as_slice(), nc.as_slice());
        let better = match best {
            Some(b) => c < b.0,
            None => true,
        };
        if c <= 2 && better {
            best = Some((c, i));
        }
        i = i + 1;
    }
    assert(xs.take(names.len() as int) =~= xs);
    best
}

fn push_suggestion(m: &mut String, names: &[String], target: &str)
    ensures
        final(m)@ == old(m)@ + suggestion(nearest(crate::order::texts(names@), target@)),
{
    match nearest_exec(names, target) {
        Some(b) => {
            push_str(m, "; did you mean ");
            quote_into(m, names[b.1].as_str());
            push_str(m, "?");
        },
        None => {
            assert(m@ =~= old(m)@ + Seq::<char>::empty());
        },
    }
}

fn check_mode_ref(t: &Tables, name: &Ident, diags: &mut Vec<Diagnostic>)
    ensures
        diag_views(final(diags)@) == diag_views(old(diags)@) + mode_ref_v(tables_v(*t), *name),
{
    if find_entry(t.modes.as_slice(), name.text.as_str()).is_none() {
        let mut names: Vec<String> = Vec::new();
        names_vec(t.modes.as_slice(), &mut names);
        assert(crate::order::texts(names@) =~= names_of(ent_v(t.modes@)));
        let mut m = owned("unknown mode ");
        quote_into(&mut m, name.text.as_str());
        push_suggestion(&mut m, names.as_slice(), name.text.as_str());
        if t.has_use {
            push_diag(diags, Severity::Warning, "W301", name.span, m);
        } else {
            push_diag(diags, Severity::Error, "E202", name.span, m);
        }
    }
    assert(diag_views(diags@) =~= diag_views(old(diags)@) + mode_ref_v(tables_v(*t), *name));
}

pub proof fn lemma_refs_diags_concat(t: TablesV, a: Seq<Ident>, b: Seq<Ident>)
    ensures
        refs_diags(t, a + b) == refs_diags(t, a) + refs_diags(t, b),
    decreases b.len(),
{
    if b.len() == 0 {
        assert(a + b =~= a);
    } else {
        lemma_refs_diags_concat(t, a, b.drop_last());
        assert((a + b).drop_last() =~= a + b.drop_last());
        assert((a + b).last() == b.last());
    }
}

fn check_mode_expr(t: &Tables, e: &ModeExpr, diags: &mut Vec<Diagnostic>)
    ensures
        diag_views(final(diags)@) == diag_views(old(diags)@) + refs_diags(tables_v(*t), mode_refs(*e)),
    decreases e,
{
    let ghost tv = tables_v(*t);
    match e {
        ModeExpr::Opaque(inner) => {
            check_mode_expr(t, &**inner, diags);
            assert(mode_refs(*e) == mode_refs(**inner));
            assert(diag_views(diags@) =~= diag_views(old(diags)@) + refs_diags(tv, mode_refs(*e)));
        },
        ModeExpr::Opt(inner) => {
            check_mode_expr(t, &**inner, diags);
            assert(mode_refs(*e) == mode_refs(**inner));
            assert(diag_views(diags@) =~= diag_views(old(diags)@) + refs_diags(tv, mode_refs(*e)));
        },
        ModeExpr::Row(inner) => {
            check_mode_expr(t, &**inner, diags);
            assert(mode_refs(*e) == mode_refs(**inner));
            assert(diag_views(diags@) =~= diag_views(old(diags)@) + refs_diags(tv, mode_refs(*e)));
        },
        ModeExpr::Enum(_) => {
            assert(diag_views(diags@) =~= diag_views(old(diags)@) + refs_diags(tv, mode_refs(*e)));
        },
        ModeExpr::Union(vs) => {
            let ghost start = diag_views(diags@);
            let mut i: usize = 0;
            assert(vs@.take(0) =~= Seq::<(Ident, ModeExpr)>::empty());
            while i < vs.len()
                invariant
                    i <= vs.len(),
                    tv == tables_v(*t),
                    *e == ModeExpr::Union(*vs),
                    diag_views(diags@) == start + refs_diags(tv, union_refs(vs@.take(i as int))),
                decreases vs.len() - i,
            {
                proof {
                    vstd::std_specs::vec::axiom_vec_index_decreases(*vs, i as int);
                    assert(decreases_to!(*e => (*e)->Union_0));
                    assert(decreases_to!(*e => vs@[i as int].1));
                }
                check_mode_expr(t, &vs[i].1, diags);
                proof {
                    assert(vs@.take(i + 1).drop_last() =~= vs@.take(i as int));
                    assert(vs@.take(i + 1).last() == vs@[i as int]);
                    lemma_refs_diags_concat(tv, union_refs(vs@.take(i as int)), mode_refs(vs@[i as int].1));
                }
                i = i + 1;
            }
            assert(vs@.take(vs.len() as int) =~= vs@);
        },
        ModeExpr::Struct(fs) => {
            let ghost start = diag_views(diags@);
            let mut i: usize = 0;
            assert(fs@.take(0) =~= Seq::<Field>::empty());
            while i < fs.len()
                invariant
                    i <= fs.len(),
                    tv == tables_v(*t),
                    *e == ModeExpr::Struct(*fs),
                    diag_views(diags@) == start + refs_diags(tv, field_refs(fs@.take(i as int))),
                decreases fs.len() - i,
            {
                proof {
                    vstd::std_specs::vec::axiom_vec_index_decreases(*fs, i as int);
                    assert(decreases_to!(*e => (*e)->Struct_0));
                    assert(decreases_to!(*e => fs@[i as int].mode));
                }
                check_mode_expr(t, &fs[i].mode, diags);
                proof {
                    assert(fs@.take(i + 1).drop_last() =~= fs@.take(i as int));
                    assert(fs@.take(i + 1).last() == fs@[i as int]);
                    lemma_refs_diags_concat(tv, field_refs(fs@.take(i as int)), mode_refs(fs@[i as int].mode));
                }
                i = i + 1;
            }
            assert(fs@.take(fs.len() as int) =~= fs@);
        },
        ModeExpr::Named { name, args } => {
            check_mode_ref(t, name, diags);
            let ghost start = diag_views(diags@);
            let mut i: usize = 0;
            assert(args@.take(0) =~= Seq::<ModeExpr>::empty());
            while i < args.len()
                invariant
                    i <= args.len(),
                    tv == tables_v(*t),
                    *e == (ModeExpr::Named { name: *name, args: *args }),
                    diag_views(diags@) == start + refs_diags(tv, args_refs(args@.take(i as int))),
                decreases args.len() - i,
            {
                proof {
                    vstd::std_specs::vec::axiom_vec_index_decreases(*args, i as int);
                    assert(decreases_to!(*e => (*e)->Named_args));
                    assert(decreases_to!(*e => args@[i as int]));
                }
                check_mode_expr(t, &args[i], diags);
                proof {
                    assert(args@.take(i + 1).drop_last() =~= args@.take(i as int));
                    assert(args@.take(i + 1).last() == args@[i as int]);
                    lemma_refs_diags_concat(tv, args_refs(args@.take(i as int)), mode_refs(args@[i as int]));
                }
                i = i + 1;
            }
            assert(args@.take(args.len() as int) =~= args@);
            proof {
                lemma_refs_diags_concat(tv, seq![*name], args_refs(args@));
                assert(seq![*name].drop_last() =~= Seq::<Ident>::empty());
                assert(refs_diags(tv, seq![*name]) =~= refs_diags(tv, Seq::<Ident>::empty()) + mode_ref_v(tv, *name));
            }
            assert(diag_views(diags@) =~= diag_views(old(diags)@) + refs_diags(tv, mode_refs(*e)));
        },
        ModeExpr::Refined { name, .. } => {
            check_mode_ref(t, name, diags);
            assert(seq![*name].drop_last() =~= Seq::<Ident>::empty());
                assert(refs_diags(tv, seq![*name]) =~= refs_diags(tv, Seq::<Ident>::empty()) + mode_ref_v(tv, *name));
            assert(diag_views(diags@) =~= diag_views(old(diags)@) + refs_diags(tv, mode_refs(*e)));
        },
    }
}

fn check_interface_decl(t: &Tables, itf: &InterfaceDecl, diags: &mut Vec<Diagnostic>)
    ensures
        diag_views(final(diags)@) == diag_views(old(diags)@) + interface_v(tables_v(*t), *itf),
{
    let ghost tv = tables_v(*t);
    if find_entry(t.actors.as_slice(), itf.default_actor.text.as_str()).is_none() {
        let mut m = owned("interface ");
        quote_into(&mut m, itf.name.text.as_str());
        push_str(&mut m, " references unknown actor ");
        quote_into(&mut m, itf.default_actor.text.as_str());
        push_diag(diags, Severity::Error, "E203", itf.default_actor.span, m);
    }
    let ghost start = diag_views(diags@);
    let mut k: usize = 0;
    assert(itf.ops@.take(0) =~= Seq::<OpDecl>::empty());
    while k < itf.ops.len()
        invariant
            k <= itf.ops.len(),
            tv == tables_v(*t),
            diag_views(diags@) == start + refs_diags(tv, ops_refs(itf.ops@.take(k as int))),
        decreases itf.ops.len() - k,
    {
        let op = &itf.ops[k];
        let ghost s0 = diag_views(diags@);
        let mut j: usize = 0;
        assert(op.params@.take(0) =~= Seq::<Field>::empty());
        while j < op.params.len()
            invariant
                j <= op.params.len(),
                tv == tables_v(*t),
                diag_views(diags@) == s0 + refs_diags(tv, field_refs(op.params@.take(j as int))),
            decreases op.params.len() - j,
        {
            check_mode_expr(t, &op.params[j].mode, diags);
            proof {
                assert(op.params@.take(j + 1).drop_last() =~= op.params@.take(j as int));
                assert(op.params@.take(j + 1).last() == op.params@[j as int]);
                lemma_refs_diags_concat(tv, field_refs(op.params@.take(j as int)), mode_refs(op.params@[j as int].mode));
            }
            j = j + 1;
        }
        assert(op.params@.take(op.params.len() as int) =~= op.params@);
        check_mode_expr(t, &op.output, diags);
        proof {
            lemma_refs_diags_concat(tv, field_refs(op.params@), mode_refs(op.output));
            assert(itf.ops@.take(k + 1).drop_last() =~= itf.ops@.take(k as int));
            assert(itf.ops@.take(k + 1).last() == itf.ops@[k as int]);
            lemma_refs_diags_concat(tv, ops_refs(itf.ops@.take(k as int)), op_refs(itf.ops@[k as int]));
        }
        k = k + 1;
    }
    assert(itf.ops@.take(itf.ops.len() as int) =~= itf.ops@);
    assert(diag_views(diags@) =~= diag_views(old(diags)@) + interface_v(tv, *itf));
}

fn check_behavior_decl(t: &Tables, b: &BehaviorDecl, diags: &mut Vec<Diagnostic>)
    ensures
        diag_views(final(diags)@) == diag_views(old(diags)@) + behavior_v(tables_v(*t), *b),
{
    if find_entry(t.interfaces.as_slice(), b.on_interface.text.as_str()).is_none() {
        let mut m = owned("behavior ");
        quote_into(&mut m, b.name.text.as_str());
        push_str(&mut m, " references unknown interface ");
        quote_into(&mut m, b.on_interface.text.as_str());
        push_diag(diags, Severity::Error, "E204", b.on_interface.span, m);
    } else if !has_pair(t.ops.as_slice(), b.on_interface.text.as_str(), b.on_op.text.as_str()) {
        let mut m = owned("interface ");
        quote_into(&mut m, b.on_interface.text.as_str());
        push_str(&mut m, " has no operation ");
        quote_into(&mut m, b.on_op.text.as_str());
        push_diag(diags, Severity::Error, "E204", b.on_op.span, m);
    }
    assert(diag_views(diags@) =~= diag_views(old(diags)@) + behavior_v(tables_v(*t), *b));
}

fn check_scope(t: &Tables, what: &str, name: &Ident, scope: &Ident, diags: &mut Vec<Diagnostic>)
    ensures
        diag_views(final(diags)@) == diag_views(old(diags)@) + scope_v(tables_v(*t), what@, *name, *scope),
{
    let s = scope.text.as_str();
    if find_entry(t.states.as_slice(), s).is_none() && find_entry(t.interfaces.as_slice(), s).is_none()
        && find_entry(t.components.as_slice(), s).is_none() {
        let mut m = owned(what);
        push_str(&mut m, " ");
        quote_into(&mut m, name.text.as_str());
        push_str(&mut m, " references unknown scope ");
        quote_into(&mut m, s);
        push_str(&mut m, " (must be a state, interface, or component)");
        push_diag(diags, Severity::Error, "E205", scope.span, m);
    }
    assert(diag_views(diags@) =~= diag_views(old(diags)@) + scope_v(tables_v(*t), what@, *name, *scope));
}

fn second_pass(t: &Tables, decls: &[Decl], diags: &mut Vec<Diagnostic>)
    ensures
        diag_views(final(diags)@) == diag_views(old(diags)@) + pass2(tables_v(*t), decls@),
{
    let ghost tv = tables_v(*t);
    let ghost start = diag_views(diags@);
    let mut i: usize = 0;
    assert(decls@.take(0) =~= Seq::<Decl>::empty());
    assert(diag_views(diags@) =~= start + pass2(tv, decls@.take(0)));
    while i < decls.len()
        invariant
            i <= decls.len(),
            tv == tables_v(*t),
            diag_views(diags@) == start + pass2(tv, decls@.take(i as int)),
        decreases decls.len() - i,
    {
        assert(decls@.take(i + 1).drop_last() =~= decls@.take(i as int));
        assert(decls@.take(i + 1).last() == decls@[i as int]);
        let ghost prev = diag_views(diags@);
        match &decls[i] {
            Decl::Mode(m) => check_mode_expr(t, &m.expr, diags),
            Decl::Interface(itf) => check_interface_decl(t, itf, diags),
            Decl::Behavior(b) => check_behavior_decl(t, b, diags),
            Decl::Invariant(inv) => check_scope(t, "invariant", &inv.name, &inv.scope, diags),
            Decl::Constraint(c) => check_scope(t, "constraint", &c.name, &c.scope, diags),
            _ => {},
        }
        assert(diag_views(diags@) =~= prev + pass2_decl(tv, decls@[i as int]));
        i = i + 1;
    }
    assert(decls@.take(decls.len() as int) =~= decls@);
}

fn check_exports(t: &Tables, exports: &[Ident], diags: &mut Vec<Diagnostic>)
    ensures
        diag_views(final(diags)@) == diag_views(old(diags)@) + exports_v(tables_v(*t), exports@),
{
    let ghost tv = tables_v(*t);
    let mut names: Vec<String> = Vec::new();
    names_vec(t.modes.as_slice(), &mut names);
    names_vec(t.actors.as_slice(), &mut names);
    names_vec(t.interfaces.as_slice(), &mut names);
    names_vec(t.states.as_slice(), &mut names);
    names_vec(t.components.as_slice(), &mut names);
    names_vec(t.behaviors.as_slice(), &mut names);
    names_vec(t.flows.as_slice(), &mut names);
    assert(crate::order::texts(names@) =~= all_names(tv));
    let ghost start = diag_views(diags@);
    let mut i: usize = 0;
    assert(exports@.take(0) =~= Seq::<Ident>::empty());
    assert(diag_views(diags@) =~= start + exports_v(tv, exports@.take(0)));
    while i < exports.len()
        invariant
            i <= exports.len(),
            tv == tables_v(*t),
            crate::order::texts(names@) == all_names(tv),
            diag_views(diags@) == start + exports_v(tv, exports@.take(i as int)),
        decreases exports.len() - i,
    {
        assert(exports@.take(i + 1).drop_last() =~= exports@.take(i as int));
        assert(exports@.take(i + 1).last() == exports@[i as int]);
        let ghost prev = diag_views(diags@);
        let e = &exports[i];
        if !crate::order::text_in(names.as_slice(), e.text.as_str()) {
            let mut m = owned("exported name ");
            quote_into(&mut m, e.text.as_str());
            push_str(&mut m, " is not declared");
            push_suggestion(&mut m, names.as_slice(), e.text.as_str());
            if t.has_use {
                push_diag(diags, Severity::Warning, "W301", e.span, m);
            } else {
                push_diag(diags, Severity::Error, "E206", e.span, m);
            }
        }
        assert(diag_views(diags@) =~= prev + export_v(tv, exports@[i as int]));
        i = i + 1;
    }
    assert(exports@.take(exports.len() as int) =~= exports@);
}

/// Checks a parsed file (see `check_v`): duplicate declarations and
/// capitalization, then references, then exports.
pub fn check(file: &File) -> (r: Vec<Diagnostic>)
    requires
        names_ascii_led(file.decls@),
    ensures
        diag_views(r@) == check_v(*file),
{
    let mut t = new_tables();
    let mut diags: Vec<Diagnostic> = Vec::new();
    assert(diag_views(diags@) =~= Seq::<DiagV>::empty());
    first_pass(file.decls.as_slice(), &mut t, &mut diags);
    second_pass(&t, file.decls.as_slice(), &mut diags);
    check_exports(&t, file.spec.exports.as_slice(), &mut diags);
    diags
}


// ===================================================================
// Laws.
// ===================================================================

/// A suggested name is a declared one, within distance 2 of the unknown
/// name, and no declared name is nearer; without a suggestion every
/// declared name is more than 2 away.
pub proof fn lemma_suggestion_is_nearest(names: Seq<Seq<char>>, target: Seq<char>)
    ensures
        match nearest(names, target) {
            Some(b) => {
                &&& b.0 <= 2
                &&& names.contains(b.1)
                &&& lev(target, b.1) == b.0
                &&& forall|i: int| 0 <= i < names.len() ==> lev(target, #[trigger] names[i]) >= b.0
            },
            None => forall|i: int| 0 <= i < names.len() ==> lev(target, #[trigger] names[i]) > 2,
        },
    decreases names.len(),
{
    if names.len() > 0 {
        let p = names.drop_last();
        lemma_suggestion_is_nearest(p, target);
        assert forall|i: int| 0 <= i < p.len() implies #[trigger] names[i] == p[i] by {}
        match nearest(names, target) {
            Some(b) => {
                if b.1 == names.last() && lev(target, names.last()) == b.0 {
                    assert(names[names.len() - 1] == b.1);
                } else {
                    let j = choose|j: int| 0 <= j < p.len() && p[j] == b.1;
                    assert(names[j] == b.1);
                }
            },
            None => {},
        }
    }
}


// ===================================================================
// Laws: duplicate declarations.
// ===================================================================

/// The kind (0 mode, 1 actor, 2 interface, 3 state, 4 component,
/// 5 behavior, 6 flow) and name of a named declaration.
pub open spec fn named_decl(d: Decl) -> Option<(int, Ident)> {
    match d {
        Decl::Mode(m) => Some((0int, m.name)),
        Decl::Actor(a) => Some((1int, a.name)),
        Decl::Interface(i) => Some((2int, i.name)),
        Decl::State(s) => Some((3int, s.name)),
        Decl::Component(c) => Some((4int, c.name)),
        Decl::Behavior(b) => Some((5int, b.name)),
        Decl::Flow(f) => Some((6int, f.name)),
        _ => None,
    }
}

/// The kind of a named declaration (see `named_decl`).
pub open spec fn decl_kind(d: Decl) -> int {
    match named_decl(d) {
        Some(p) => p.0,
        None => -1,
    }
}

/// The name of a named declaration (see `named_decl`).
pub open spec fn decl_name(d: Decl) -> Ident {
    match named_decl(d) {
        Some(p) => p.1,
        None => arbitrary(),
    }
}

/// The declaration table of kind `c`.
pub open spec fn table_of(t: TablesV, c: int) -> Seq<EntryV> {
    if c == 0 { t.modes }
    else if c == 1 { t.actors }
    else if c == 2 { t.interfaces }
    else if c == 3 { t.states }
    else if c == 4 { t.components }
    else if c == 5 { t.behaviors }
    else if c == 6 { t.flows }
    else { Seq::empty() }
}

/// A duplicate-name error at `span`.
pub open spec fn is_e201_at(d: DiagV, span: Span) -> bool {
    d.severity == Severity::Error && d.code == "E201"@ && d.start == span.start && d.end == span.end
}

/// Adding a name already in the table leaves the table as it is and
/// yields exactly one E201 error at the new name's span, naming the span
/// of the first entry with that name; adding a new name appends it and
/// yields nothing.
pub proof fn lemma_add_name_law(t: Seq<EntryV>, id: Ident, kind: Seq<char>)
    ensures
        forall|k: int| 0 <= k < t.len() && (#[trigger] t[k]).0 == id.text@
            && (forall|j: int| 0 <= j < k ==> (#[trigger] t[j]).0 != id.text@)
            ==> add_v(t, id, kind).0 == t && add_v(t, id, kind).1 == seq![DiagV {
                severity: Severity::Error,
                code: "E201"@,
                start: id.span.start as int,
                end: id.span.end as int,
                message: "duplicate "@ + kind + " name "@ + quoted(id.text@) + " (previously declared at "@
                    + nat_digits(t[k].1.start as nat) + ":"@ + nat_digits(t[k].1.end as nat) + ")"@,
            }],
        (forall|k: int| 0 <= k < t.len() ==> (#[trigger] t[k]).0 != id.text@)
            ==> add_v(t, id, kind).0 == t.push((id.text@, id.span)) && add_v(t, id, kind).1.len() == 0,
{
    assert forall|k: int| 0 <= k < t.len() && (#[trigger] t[k]).0 == id.text@
        && (forall|j: int| 0 <= j < k ==> (#[trigger] t[j]).0 != id.text@)
        implies find_t(t, id.text@) == Some(t[k].1) by {
        lemma_find_t_first(t, id.text@, k);
    }
    if forall|k: int| 0 <= k < t.len() ==> (#[trigger] t[k]).0 != id.text@ {
        lemma_find_t_none(t, id.text@);
    }
}

proof fn lemma_find_t_first(t: Seq<EntryV>, name: Seq<char>, k: int)
    requires
        0 <= k < t.len(),
        t[k].0 == name,
        forall|j: int| 0 <= j < k ==> (#[trigger] t[j]).0 != name,
    ensures
        find_t(t, name) == Some(t[k].1),
    decreases k,
{
    if k > 0 {
        let u = t.drop_first();
        assert(t[0].0 != name);
        assert forall|j: int| 0 <= j < k - 1 implies (#[trigger] u[j]).0 != name by {
            assert(u[j] == t[j + 1]);
        }
        lemma_find_t_first(u, name, k - 1);
    }
}

proof fn lemma_find_t_none(t: Seq<EntryV>, name: Seq<char>)
    requires
        forall|k: int| 0 <= k < t.len() ==> (#[trigger] t[k]).0 != name,
    ensures
        find_t(t, name) is None,
    decreases t.len(),
{
    if t.len() > 0 {
        let u = t.drop_first();
        assert forall|k: int| 0 <= k < u.len() implies (#[trigger] u[k]).0 != name by {
            assert(u[k] == t[k + 1]);
        }
        assert(t[0].0 != name);
        lemma_find_t_none(u, name);
    }
}

proof fn lemma_find_t_push(t: Seq<EntryV>, e: EntryV, name: Seq<char>)
    ensures
        find_t(t, name) is Some ==> find_t(t.push(e), name) is Some,
        e.0 == name ==> find_t(t.push(e), name) is Some,
    decreases t.len(),
{
    if t.len() == 0 {
        assert(t.push(e)[0] == e);
    } else {
        assert(t.push(e)[0] == t[0]);
        assert(t.push(e).drop_first() =~= t.drop_first().push(e));
        lemma_find_t_push(t.drop_first(), e, name);
    }
}

proof fn lemma_ops_step_keeps(st: Pass1V, iface: Ident, ops: Seq<OpDecl>)
    ensures
        forall|c: int| #[trigger] table_of(ops_step(st, iface, ops).t, c) == table_of(st.t, c),
        ops_step(st, iface, ops).diags.len() >= st.diags.len(),
        ops_step(st, iface, ops).diags.subrange(0, st.diags.len() as int) == st.diags,
    decreases ops.len(),
{
    if ops.len() > 0 {
        lemma_ops_step_keeps(st, iface, ops.drop_last());
        let prev = ops_step(st, iface, ops.drop_last());
        let r = add_op_v(prev.t.ops, iface, ops.last().name);
        assert((prev.diags + r.1).subrange(0, st.diags.len() as int) == prev.diags.subrange(0, st.diags.len() as int));
        assert forall|c: int| #[trigger] table_of(ops_step(st, iface, ops).t, c) == table_of(st.t, c) by {
            assert(table_of(prev.t, c) == table_of(st.t, c));
        }
    }
}

/// The word for a kind of declaration in messages.
pub open spec fn kind_word(c: int) -> Seq<char> {
    if c == 0 { "mode"@ } else if c == 1 { "actor"@ } else if c == 2 { "interface"@ } else if c == 3 { "state"@ }
    else if c == 4 { "component"@ } else if c == 5 { "behavior"@ } else { "flow"@ }
}

pub open spec fn cap_of(c: int, id: Ident) -> Seq<DiagV> {
    if c == 0 { cap_mode_v(id) } else { cap_other_v(id) }
}

proof fn lemma_step_shape(st: Pass1V, d: Decl)
    ensures
        named_decl(d) is None ==> pass1_step(st, d).diags == st.diags
            && forall|c: int| #[trigger] table_of(pass1_step(st, d).t, c) == table_of(st.t, c),
        named_decl(d) is Some && decl_kind(d) != 2 ==> {
            let c = decl_kind(d);
            let r = add_v(table_of(st.t, c), decl_name(d), kind_word(c));
            &&& pass1_step(st, d).diags == st.diags + cap_of(c, decl_name(d)) + r.1
            &&& forall|cc: int| #[trigger] table_of(pass1_step(st, d).t, cc) == (if cc == c { r.0 } else { table_of(st.t, cc) })
        },
        match d {
            Decl::Interface(iv) => {
                let r = add_v(st.t.interfaces, iv.name, "interface"@);
                pass1_step(st, d) == ops_step(Pass1V { t: TablesV { interfaces: r.0, ..st.t }, diags: st.diags + cap_other_v(iv.name) + r.1 }, iv.name, iv.ops@)
            },
            _ => true,
        },
{
    let c = decl_kind(d);
    let r = add_v(table_of(st.t, c), decl_name(d), kind_word(c));
    match d {
        Decl::Mode(m) => {
            assert(kind_word(0) == "mode"@);
            assert forall|cc: int| #[trigger] table_of(pass1_step(st, d).t, cc) == (if cc == c { r.0 } else { table_of(st.t, cc) }) by {}
        },
        Decl::Actor(a) => {
            assert forall|cc: int| #[trigger] table_of(pass1_step(st, d).t, cc) == (if cc == c { r.0 } else { table_of(st.t, cc) }) by {}
        },
        Decl::Interface(i) => {},
        Decl::State(x) => {
            assert forall|cc: int| #[trigger] table_of(pass1_step(st, d).t, cc) == (if cc == c { r.0 } else { table_of(st.t, cc) }) by {}
        },
        Decl::Component(x) => {
            assert forall|cc: int| #[trigger] table_of(pass1_step(st, d).t, cc) == (if cc == c { r.0 } else { table_of(st.t, cc) }) by {}
        },
        Decl::Behavior(x) => {
            assert forall|cc: int| #[trigger] table_of(pass1_step(st, d).t, cc) == (if cc == c { r.0 } else { table_of(st.t, cc) }) by {}
        },
        Decl::Flow(x) => {
            assert forall|cc: int| #[trigger] table_of(pass1_step(st, d).t, cc) == (if cc == c { r.0 } else { table_of(st.t, cc) }) by {}
        },
        _ => {},
    }
}

/// One first-pass step: the diagnostics only grow; only the table of the
/// declaration's own kind changes; a name once in a table stays; the
/// step's own name is in its table afterwards; and a name already in its
/// table gets an E201 error at the new declaration.
proof fn lemma_pass1_step_facts(st: Pass1V, d: Decl)
    ensures
        pass1_step(st, d).diags.len() >= st.diags.len(),
        pass1_step(st, d).diags.subrange(0, st.diags.len() as int) == st.diags,
        forall|c: int, n: Seq<char>| find_t(table_of(st.t, c), n) is Some ==> #[trigger] find_t(table_of(pass1_step(st, d).t, c), n) is Some,
        named_decl(d) is Some ==> find_t(table_of(pass1_step(st, d).t, decl_kind(d)), decl_name(d).text@) is Some,
        named_decl(d) is Some && find_t(table_of(st.t, decl_kind(d)), decl_name(d).text@) is Some
            ==> exists|m: int| 0 <= m < pass1_step(st, d).diags.len() && is_e201_at(#[trigger] pass1_step(st, d).diags[m], decl_name(d).span),
{
    reveal_strlit("E201");
    let t = st.t;
    let s2 = pass1_step(st, d);
    lemma_step_shape(st, d);
    if named_decl(d) is Some {
        let c = decl_kind(d);
        let id = decl_name(d);
        let tab = table_of(t, c);
        let r = add_v(tab, id, kind_word(c));
        let cap = cap_of(c, id);
        if c == 2 {
            let iv = match d { Decl::Interface(i) => i, _ => arbitrary() };
            assert(d == Decl::Interface(iv));
            assert(id == iv.name);
            let s1 = Pass1V { t: TablesV { interfaces: r.0, ..t }, diags: st.diags + cap + r.1 };
            lemma_ops_step_keeps(s1, iv.name, iv.ops@);
            assert(s2 == ops_step(s1, iv.name, iv.ops@));
            assert forall|k: int| 0 <= k < s1.diags.len() implies s2.diags[k] == s1.diags[k] by {
                assert(s2.diags.subrange(0, s1.diags.len() as int)[k] == s2.diags[k]);
            }
            assert(s2.diags.subrange(0, st.diags.len() as int) =~= st.diags);
            assert forall|cc: int| #[trigger] table_of(s2.t, cc) == (if cc == 2 { r.0 } else { table_of(t, cc) }) by {
                assert(table_of(s2.t, cc) == table_of(s1.t, cc));
            }
            if find_t(tab, id.text@) is Some {
                let m: int = (st.diags.len() + cap.len()) as int;
                assert(s1.diags[m] == r.1[0]);
                assert(is_e201_at(s2.diags[m], id.span));
            }
        } else {
            assert(s2.diags.subrange(0, st.diags.len() as int) =~= st.diags);
            if find_t(tab, id.text@) is Some {
                let m: int = (st.diags.len() + cap.len()) as int;
                assert((st.diags + cap + r.1)[m] == r.1[0]);
                assert(is_e201_at(s2.diags[m], id.span));
            }
        }
        assert forall|cc: int, n: Seq<char>| find_t(table_of(st.t, cc), n) is Some implies #[trigger] find_t(table_of(s2.t, cc), n) is Some by {
            if cc == c {
                lemma_find_t_push(tab, (id.text@, id.span), n);
            }
        }
        lemma_find_t_push(tab, (id.text@, id.span), id.text@);
    } else {
        assert(s2.diags.subrange(0, st.diags.len() as int) =~= st.diags);
    }
}

proof fn lemma_pass1_take(ds: Seq<Decl>, n: int)
    requires
        0 <= n < ds.len(),
    ensures
        pass1(ds.take(n + 1)) == pass1_step(pass1(ds.take(n)), ds[n]),
{
    assert(ds.take(n + 1).drop_last() =~= ds.take(n));
    assert(ds.take(n + 1).last() == ds[n]);
}

proof fn lemma_pass1_grows(ds: Seq<Decl>, a: int, b: int)
    requires
        0 <= a <= b <= ds.len(),
    ensures
        pass1(ds.take(b)).diags.len() >= pass1(ds.take(a)).diags.len(),
        pass1(ds.take(b)).diags.subrange(0, pass1(ds.take(a)).diags.len() as int) == pass1(ds.take(a)).diags,
        forall|c: int, n: Seq<char>| find_t(table_of(pass1(ds.take(a)).t, c), n) is Some
            ==> #[trigger] find_t(table_of(pass1(ds.take(b)).t, c), n) is Some,
    decreases b - a,
{
    if a < b {
        lemma_pass1_grows(ds, a, b - 1);
        lemma_pass1_take(ds, b - 1);
        lemma_pass1_step_facts(pass1(ds.take(b - 1)), ds[b - 1]);
        let x = pass1(ds.take(a)).diags;
        let y = pass1(ds.take(b - 1)).diags;
        let z = pass1(ds.take(b)).diags;
        assert(z.subrange(0, x.len() as int) =~= z.subrange(0, y.len() as int).subrange(0, x.len() as int));
    } else {
        assert(pass1(ds.take(a)).diags.subrange(0, pass1(ds.take(a)).diags.len() as int) =~= pass1(ds.take(a)).diags);
    }
}

/// Two declarations of the same kind with the same name: checking the
/// file reports an E201 duplicate error at the later one's name.
pub proof fn lemma_duplicate_declaration_reported(f: File, i: int, j: int)
    requires
        0 <= i < j < f.decls@.len(),
        named_decl(f.decls@[i]) is Some,
        named_decl(f.decls@[j]) is Some,
        decl_kind(f.decls@[i]) == decl_kind(f.decls@[j]),
        decl_name(f.decls@[i]).text@ == decl_name(f.decls@[j]).text@,
    ensures
        exists|m: int| 0 <= m < check_v(f).len() && is_e201_at(#[trigger] check_v(f)[m], decl_name(f.decls@[j]).span),
{
    let ds = f.decls@;
    let c = decl_kind(ds[j]);
    let name = decl_name(ds[j]).text@;
    lemma_pass1_take(ds, i);
    lemma_pass1_step_facts(pass1(ds.take(i)), ds[i]);
    lemma_pass1_grows(ds, i + 1, j);
    lemma_pass1_take(ds, j);
    lemma_pass1_step_facts(pass1(ds.take(j)), ds[j]);
    let pj = pass1(ds.take(j + 1)).diags;
    let mm = choose|m: int| 0 <= m < pj.len() && is_e201_at(#[trigger] pj[m], decl_name(ds[j]).span);
    lemma_pass1_grows(ds, j + 1, ds.len() as int);
    assert(ds.take(ds.len() as int) =~= ds);
    let all = pass1(ds).diags;
    assert(all.subrange(0, pj.len() as int)[mm] == all[mm]);
    assert(check_v(f)[mm] == all[mm]);
}

} // verus!
