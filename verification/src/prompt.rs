//! Prompt compilation: each plan-node contract projected into a prompt
//! package.
use vstd::prelude::*;
use crate::fingerprint::{fingerprint, fingerprint_text};
use crate::ir::{Ir, IrNode, clone_node, first_field, ir_node_v, nodes_with_kind, resolve_ir_slice, resolved_v, unresolved_v};
use crate::order::texts;
use crate::plan::{Plan, PlanNode, extension_for, extension_for_v, first_node, target_language, target_language_v};
use crate::sexpr::{Sexpr, SexprV, clone_sexpr, lemma_views_of, lemma_views_push, list2, pair_v, print_v, views_of};
use crate::text::{ends_with, is_suffix, join, join_v, owned, push_str, str_eq};
use crate::transition::{list_items_v, nil_v};

verus! {

/// The fingerprint of the first plan node with id `dep`, or `missing`.
pub open spec fn dep_fingerprint(ns: Seq<PlanNode>, dep: Seq<char>) -> Seq<char> {
    match first_node(ns, dep) {
        Some(n) => n.fingerprint@,
        None => "missing"@,
    }
}

/// `(dependency-id, fingerprint)` for each of a node's dependencies.
pub open spec fn dep_slice_v(ns: Seq<PlanNode>, deps: Seq<Seq<char>>) -> Seq<(Seq<char>, Seq<char>)> {
    deps.map_values(|d: Seq<char>| (d, dep_fingerprint(ns, d)))
}

/// The node's dependencies, each with the fingerprint of the plan node
/// it names (`missing` when none does), in `depends_on` order.
pub fn dependency_slice(plan: &Plan, node: &PlanNode) -> (r: Vec<(String, String)>)
    ensures
        r@.map_values(|p: (String, String)| (p.0@, p.1@)) == dep_slice_v(plan.nodes@, texts(node.depends_on@)),
{
    let mut out: Vec<(String, String)> = Vec::new();
    let mut i: usize = 0;
    while i < node.depends_on.len()
        invariant
            i <= node.depends_on.len(),
            out@.map_values(|p: (String, String)| (p.0@, p.1@)) == dep_slice_v(plan.nodes@, texts(node.depends_on@).take(i as int)),
        decreases node.depends_on.len() - i,
    {
        let dep = &node.depends_on[i];
        let fp = match plan.node(dep.as_str()) {
            Some(n) => n.fingerprint.clone(),
            None => owned("missing"),
        };
        let ghost before = out@.map_values(|p: (String, String)| (p.0@, p.1@));
        out.push((dep.clone(), fp));
        assert(out@.map_values(|p: (String, String)| (p.0@, p.1@)) =~= before.push((dep@, dep_fingerprint(plan.nodes@, dep@))));
        assert(dep_slice_v(plan.nodes@, texts(node.depends_on@).take(i + 1)) =~= dep_slice_v(plan.nodes@, texts(node.depends_on@).take(i as int)).push((dep@, dep_fingerprint(plan.nodes@, dep@))));
        i = i + 1;
    }
    assert(texts(node.depends_on@).take(node.depends_on.len() as int) =~= texts(node.depends_on@));
    out
}


// ===================================================================
// The model of a prompt.
// ===================================================================

pub open spec fn role_text_v(class: Seq<char>) -> Seq<char> {
    if class == "generative"@ {
        "Produce one candidate implementation for this closed node contract."@
    } else if class == "verification"@ {
        "Materialize the independent verifier projection. Do not inspect or trust generator rationale."@
    } else if class == "structural"@ {
        "Apply the named deterministic compiler recipe exactly."@
    } else {
        "Assemble only the declared artifacts and capability edges."@
    }
}

/// The content placeholder for the target language.
pub open spec fn content_hint_v(target: SexprV) -> Seq<char> {
    match target_language_v(target) {
        Some(l) => if l == "ruby"@ {
            "<valid Ruby source code>"@
        } else if l == "go"@ {
            "<valid Go source code>"@
        } else if l == "java"@ {
            "<valid Java source code>"@
        } else if l == "python"@ {
            "<valid Python source code>"@
        } else if l == "rust"@ {
            "<valid Rust source code>"@
        } else {
            "<complete-content>"@
        },
        None => "<complete-content>"@,
    }
}

/// `.sexpr` outputs hold a canonical S-expression, never source code.
pub open spec fn path_hint_v(path: Seq<char>, hint: Seq<char>) -> Seq<char> {
    if is_suffix(".sexpr"@, path) {
        "<canonical S-expression>"@
    } else {
        hint
    }
}

pub open spec fn file_entry_v(path: Seq<char>, hint: Seq<char>) -> SexprV {
    SexprV::List(seq![SexprV::Str(path), SexprV::Str(path_hint_v(path, hint))])
}

/// The candidate skeleton the model is asked to fill in.
pub open spec fn output_protocol_v(node: PlanNode) -> SexprV {
    let hint = content_hint_v(node.target@);
    SexprV::List(seq![
        SexprV::Sym("candidate"@),
        SexprV::List(seq![
            pair_v("schema"@, SexprV::Str("gymnast.candidate/0.1"@)),
            pair_v("node-id"@, SexprV::Str(node.id@)),
            pair_v("files"@, SexprV::List(texts(node.may_write@).map_values(|p: Seq<char>| file_entry_v(p, hint)))),
            pair_v("implements"@, SexprV::Str("<ir-node-id-list>"@)),
            pair_v("edge-uses"@, nil_v()),
            pair_v("assumptions"@, nil_v()),
            pair_v("unresolved"@, nil_v()),
        ]),
    ])
}

pub open spec fn sym_at(items: Seq<SexprV>, k: int) -> Option<Seq<char>> {
    if 0 <= k < items.len() && items[k] is Sym {
        Some(items[k]->Sym_0)
    } else {
        None
    }
}

pub open spec fn django_hint() -> Seq<char> {
    "\nUse Django conventions: models.Model subclasses, Manager/QuerySet patterns, transaction.atomic blocks.\nPYTHON STRING REQUIREMENT: use ONLY single-quoted strings ('...') everywhere in the Python code. Never use double-quoted strings or triple-double-quoted docstrings — use triple-single-quoted ('''...''') for docstrings instead. This is mandatory because the code is inside an S-expression double-quoted string."@
}

/// Framework conventions for a `(language framework)` target.
pub open spec fn framework_hint_v(target: SexprV) -> Seq<char> {
    match target {
        SexprV::List(items) => {
            let lang = sym_at(items, 0);
            match sym_at(items, 1) {
                Some(f) => if lang == Some("ruby"@) && f == "rails"@ {
                    "\nUse Rails conventions: ActiveRecord models, ApplicationRecord base class, standard Rails error handling."@
                } else if lang == Some("go"@) && f == "stdlib"@ {
                    "\nUse Go stdlib conventions: exported types with receiver methods, error returns, context.Context parameters."@
                } else if lang == Some("java"@) && f == "spring"@ {
                    "\nUse Spring conventions: @Repository/@Service annotations, JPA entities, @Transactional methods."@
                } else if lang == Some("python"@) && f == "django"@ {
                    django_hint()
                } else if lang == Some("rust"@) && f == "actix"@ {
                    "\nUse Actix-web conventions: extractors, App::new().service() routing, impl Handler patterns, Result<HttpResponse>."@
                } else {
                    "\nUse "@ + f + " conventions."@
                },
                None => Seq::empty(),
            }
        },
        _ => Seq::empty(),
    }
}

pub open spec fn header_v(node: PlanNode) -> Seq<char> {
    "GYMNAST NODE CONTRACT\nNode: "@ + node.id@ + "\nRecipe: "@ + node.recipe@ + "\nRole: "@ + role_text_v(node.class@)
}

pub open spec fn target_lang_text(target: SexprV) -> Seq<char> {
    match target_language_v(target) {
        Some(l) => l,
        None => "unknown"@,
    }
}

pub open spec fn target_section_v(node: PlanNode) -> Seq<char> {
    let lang = target_lang_text(node.target@);
    "TARGET\n"@ + print_v(node.target@) + "\n\nCRITICAL: Every file content string in FILES must be valid "@ + lang
        + " source code.\nThe output files end in "@ + extension_for_v(target_language_v(node.target@)) + " — their content is "@ + lang
        + ", never Lisp/Scheme/Clojure/pseudocode.\nThe S-expression envelope (candidate ...) is metadata framing; file content strings inside it are real "@
        + lang
        + " source code.\nESCAPING: file content is inside S-expression double-quoted strings. Backslash-escape every literal double-quote and every literal backslash in file content. Prefer single-quoted strings in "@
        + lang + " where the language allows it."@ + framework_hint_v(node.target@)
}

pub open spec fn indent_v(prefix: Seq<char>, xs: Seq<Seq<char>>) -> Seq<Seq<char>> {
    xs.map_values(|x: Seq<char>| prefix + x)
}

pub open spec fn capability_v(node: PlanNode) -> Seq<char> {
    if node.capabilities@.len() == 0 {
        Seq::empty()
    } else {
        "CAPABILITY CONTRACTS\n"@ + join_v(indent_v("  "@, texts(node.capabilities@)), "\n"@)
    }
}

pub open spec fn prints_v(xs: Seq<SexprV>) -> Seq<Seq<char>> {
    xs.map_values(|x: SexprV| print_v(x))
}

/// The entities of an `:of` value, an `(aggregate ...)` head dropped.
pub open spec fn entities_v(of: SexprV) -> Seq<char> {
    let items = match of {
        SexprV::List(xs) => if xs.len() > 0 && xs[0] == SexprV::Sym("aggregate"@) { xs.drop_first() } else { xs },
        other => seq![other],
    };
    join_v(prints_v(items), ", "@)
}

pub open spec fn opt_line(o: Option<SexprV>, label: Seq<char>) -> Seq<Seq<char>> {
    match o {
        Some(v) => seq![label + print_v(v)],
        None => Seq::empty(),
    }
}

pub open spec fn ff(n: IrNode, key: Seq<char>) -> Option<SexprV> {
    first_field(n.fields@, key)
}

pub open spec fn state_lines_v(n: IrNode) -> Seq<Seq<char>> {
    seq!["  "@ + n.name@ + ":"@] + opt_line(ff(n, ":aggregate"@), "    Aggregate: "@)
        + opt_line(ff(n, ":versioned"@), "    Versioning: "@) + opt_line(ff(n, ":consistency"@), "    Consistency: "@)
        + opt_line(ff(n, ":durability"@), "    Durability: "@) + match ff(n, ":of"@) {
        Some(v) => seq!["    Entities: "@ + entities_v(v)],
        None => Seq::empty(),
    }
}

pub open spec fn state_block_v(n: IrNode) -> Seq<char> {
    join_v(state_lines_v(n), "\n"@)
}

pub open spec fn state_model_v(slice: Seq<IrNode>) -> Seq<char> {
    let ns = nodes_with_kind(slice, "state"@);
    if ns.len() == 0 {
        Seq::empty()
    } else {
        "STATE MODEL\n"@ + join_v(ns.map_values(|n: IrNode| state_block_v(n)), "\n\n"@)
    }
}

pub open spec fn record_line_v(item: SexprV) -> Seq<char> {
    match item {
        SexprV::List(p) => if p.len() == 2 {
            "    "@ + print_v(p[0]) + ": "@ + print_v(p[1])
        } else {
            "    "@ + print_v(item)
        },
        _ => "    "@ + print_v(item),
    }
}

pub open spec fn variant_item_v(item: SexprV) -> Seq<char> {
    match item {
        SexprV::List(p) => if p.len() == 2 {
            print_v(p[0]) + " "@ + print_v(p[1])
        } else {
            print_v(item)
        },
        _ => print_v(item),
    }
}

/// A type node by its first defining field: opaque, enum, record,
/// variant, else its bare name.
pub open spec fn type_block_v(n: IrNode) -> Seq<char> {
    match ff(n, ":opaque"@) {
        Some(v) => "  "@ + n.name@ + " (opaque "@ + print_v(v) + ")"@,
        None => match ff(n, ":enum"@) {
            Some(v) => "  "@ + n.name@ + " (enum): "@ + match v {
                SexprV::List(xs) => join_v(prints_v(xs), " | "@),
                _ => print_v(v),
            },
            None => match ff(n, ":record"@) {
                Some(v) => join_v(seq!["  "@ + n.name@ + " (record):"@]
                    + list_items_v(v).map_values(|x: SexprV| record_line_v(x)), "\n"@),
                None => match ff(n, ":variant"@) {
                    Some(v) => "  "@ + n.name@ + " (variant): "@
                        + join_v(list_items_v(v).map_values(|x: SexprV| variant_item_v(x)), " | "@),
                    None => "  "@ + n.name@,
                },
            },
        },
    }
}

pub open spec fn type_reference_v(slice: Seq<IrNode>) -> Seq<char> {
    let ns = nodes_with_kind(slice, "type"@);
    if ns.len() == 0 {
        Seq::empty()
    } else {
        "TYPE REFERENCE\n"@ + join_v(ns.map_values(|n: IrNode| type_block_v(n)), "\n"@)
    }
}

/// The printed body of a `(tag arg)` clause, or the whole clause when
/// its arity is off.
pub open spec fn tagged_body_v(c: SexprV, tag: Seq<char>) -> Option<Seq<char>> {
    match c {
        SexprV::List(items) => if items.len() > 0 && items[0] == SexprV::Sym(tag) {
            if items.len() == 2 { Some(print_v(items[1])) } else { Some(print_v(c)) }
        } else {
            None
        },
        _ => None,
    }
}

/// The `:when` and `:preserves` values of a `fails` clause, a later
/// occurrence replacing an earlier one.
pub open spec fn fails_scan(items: Seq<SexprV>, i: int, w: Option<SexprV>, p: Option<SexprV>) -> (Option<SexprV>, Option<SexprV>)
    decreases items.len() - i,
{
    if i < 0 || i >= items.len() {
        (w, p)
    } else if items[i] == SexprV::Sym(":when"@) && i + 1 < items.len() {
        fails_scan(items, i + 2, Some(items[i + 1]), p)
    } else if items[i] == SexprV::Sym(":preserves"@) && i + 1 < items.len() {
        fails_scan(items, i + 2, w, Some(items[i + 1]))
    } else {
        fails_scan(items, i + 1, w, p)
    }
}

pub open spec fn fails_named(name: Seq<char>, wp: (Option<SexprV>, Option<SexprV>)) -> Seq<char> {
    name + match wp.0 {
        Some(x) => " when "@ + print_v(x),
        None => Seq::empty(),
    } + match wp.1 {
        Some(x) => ", preserves "@ + print_v(x),
        None => Seq::empty(),
    }
}

/// `(fails e :when p :preserves s)` as `e when p, preserves s`.
pub open spec fn fails_text_v(c: SexprV) -> Option<Seq<char>> {
    match c {
        SexprV::List(items) => if items.len() > 0 && items[0] == SexprV::Sym("fails"@) {
            match sym_at(items, 1) {
                Some(name) => Some(fails_named(name, fails_scan(items, 2, None, None))),
                None => Some(print_v(c)),
            }
        } else {
            None
        },
        _ => None,
    }
}

/// `(emits ...)` printed without its tag.
pub open spec fn emits_text_v(c: SexprV) -> Option<Seq<char>> {
    match c {
        SexprV::List(items) => if items.len() > 0 && items[0] == SexprV::Sym("emits"@) {
            let rest = items.drop_first();
            if rest.len() == 1 { Some(print_v(rest[0])) } else { Some(print_v(SexprV::List(rest))) }
        } else {
            None
        },
        _ => None,
    }
}

/// One clause's text in section `which`: 0 preconditions, 1
/// postconditions, 2 failures, 3 emissions.
pub open spec fn clause_text_v(c: SexprV, which: int) -> Option<Seq<char>> {
    if which == 0 {
        tagged_body_v(c, "requires"@)
    } else if which == 1 {
        tagged_body_v(c, "ensures"@)
    } else if which == 2 {
        fails_text_v(c)
    } else {
        emits_text_v(c)
    }
}

pub open spec fn clause_texts_v(cs: Seq<SexprV>, which: int) -> Seq<Seq<char>>
    decreases cs.len(),
{
    if cs.len() == 0 {
        Seq::empty()
    } else {
        match clause_text_v(cs.last(), which) {
            Some(t) => clause_texts_v(cs.drop_last(), which).push(t),
            None => clause_texts_v(cs.drop_last(), which),
        }
    }
}

pub open spec fn join_symbols_v(v: SexprV) -> Seq<char> {
    match v {
        SexprV::List(xs) => join_v(prints_v(xs), ", "@),
        _ => print_v(v),
    }
}

pub open spec fn sym_line(o: Option<SexprV>, label: Seq<char>) -> Seq<Seq<char>> {
    match o {
        Some(v) => seq![label + join_symbols_v(v)],
        None => Seq::empty(),
    }
}

pub open spec fn section_lines(title: Seq<char>, xs: Seq<Seq<char>>) -> Seq<Seq<char>> {
    if xs.len() == 0 {
        Seq::empty()
    } else {
        seq![title] + indent_v("      "@, xs)
    }
}

/// `:on` as the operation label and the actor binders after it.
pub open spec fn on_parts(n: IrNode) -> (Option<Seq<char>>, Seq<SexprV>) {
    match ff(n, ":on"@) {
        Some(SexprV::List(xs)) => if xs.len() > 0 { (sym_at(xs, 0), xs.drop_first()) } else { (None, Seq::empty()) },
        _ => (None, Seq::empty()),
    }
}

pub open spec fn behavior_head_v(n: IrNode) -> Seq<Seq<char>> {
    let on = on_parts(n);
    seq![match on.0 {
        Some(op) => "  "@ + n.name@ + " ("@ + op + "):"@,
        None => "  "@ + n.name@ + ":"@,
    }] + (if on.1.len() > 0 { seq!["    Actor: "@ + print_v(SexprV::List(on.1))] } else { Seq::empty() })
        + sym_line(ff(n, ":reads"@), "    Reads: "@) + sym_line(ff(n, ":writes"@), "    Writes: "@)
        + opt_line(ff(n, ":atomic"@), "    Atomic scope: "@) + opt_line(ff(n, ":idempotency"@), "    Idempotency: "@)
}

pub open spec fn behavior_lines_v(n: IrNode) -> Seq<Seq<char>> {
    let cs = views_of(n.clauses@);
    behavior_head_v(n)
        + section_lines("    Preconditions:"@, clause_texts_v(cs, 0)) + section_lines("    Postconditions:"@, clause_texts_v(cs, 1))
        + section_lines("    Failures:"@, clause_texts_v(cs, 2)) + section_lines("    Emissions:"@, clause_texts_v(cs, 3))
}

pub open spec fn behavior_block_v(n: IrNode) -> Seq<char> {
    join_v(behavior_lines_v(n), "\n"@)
}

pub open spec fn behavioral_v(slice: Seq<IrNode>) -> Seq<char> {
    let ns = nodes_with_kind(slice, "behavior"@);
    if ns.len() == 0 {
        Seq::empty()
    } else {
        "BEHAVIORAL REFERENCE\n"@ + join_v(ns.map_values(|n: IrNode| behavior_block_v(n)), "\n\n"@)
    }
}

pub open spec fn listed_v(title: Seq<char>, xs: Seq<Seq<char>>) -> Seq<char> {
    title + join_v(indent_v("  "@, xs), "\n"@)
}

pub open spec fn strs_v(xs: Seq<Seq<char>>) -> SexprV {
    SexprV::List(xs.map_values(|x: Seq<char>| SexprV::Str(x)))
}

pub open spec fn dep_entry_v(d: (Seq<char>, Seq<char>)) -> SexprV {
    SexprV::List(seq![SexprV::Str(d.0), SexprV::Str(d.1)])
}

pub open spec fn deps_sexpr_v(ds: Seq<(Seq<char>, Seq<char>)>) -> SexprV {
    SexprV::List(ds.map_values(|d: (Seq<char>, Seq<char>)| dep_entry_v(d)))
}

pub open spec fn slice_sexpr_v(slice: Seq<IrNode>) -> SexprV {
    SexprV::List(slice.map_values(|n: IrNode| ir_node_v(n)))
}

pub open spec fn nonempty(t: Seq<char>) -> Seq<Seq<char>> {
    if t.len() == 0 {
        Seq::empty()
    } else {
        seq![t]
    }
}

pub open spec fn closing_v() -> Seq<char> {
    "Return only the candidate S-expression. Report no confidence score. If the contract is not locally closed, return an unresolved entry and no files."@
}

/// The sections of a prompt, in order; the projection sections drop out
/// when they have nothing to project.
pub open spec fn parts_v(node: PlanNode, slice: Seq<IrNode>, deps: Seq<(Seq<char>, Seq<char>)>, op: SexprV) -> Seq<Seq<char>> {
    head_parts_v(node, slice) + tail_parts_v(node, slice, deps, op)
}

pub open spec fn head_parts_v(node: PlanNode, slice: Seq<IrNode>) -> Seq<Seq<char>> {
    seq![header_v(node), target_section_v(node)] + nonempty(capability_v(node)) + nonempty(state_model_v(slice))
        + nonempty(type_reference_v(slice)) + nonempty(behavioral_v(slice))
}

pub open spec fn tail_parts_v(node: PlanNode, slice: Seq<IrNode>, deps: Seq<(Seq<char>, Seq<char>)>, op: SexprV) -> Seq<Seq<char>> {
    seq![
        listed_v("OBLIGATIONS\n"@, texts(node.obligations@)),
        listed_v("PROHIBITIONS\n"@, texts(node.prohibitions@)),
        "AUTHORIZED FILES\n"@ + print_v(strs_v(texts(node.may_write@))),
        "DEPENDENCIES\n"@ + print_v(deps_sexpr_v(deps)),
        "OUTPUT PROTOCOL\n"@ + print_v(op),
        "AUTHORITATIVE INPUT (reference)\n"@ + print_v(slice_sexpr_v(slice)),
        closing_v(),
    ]
}

/// The prompt text: the sections joined by blank lines, newline-ended.
pub open spec fn text_v(node: PlanNode, slice: Seq<IrNode>, deps: Seq<(Seq<char>, Seq<char>)>, op: SexprV) -> Seq<char> {
    join_v(parts_v(node, slice, deps, op), "\n\n"@) + "\n"@
}

pub open spec fn fields_items_v(
    schema: Seq<char>,
    node_id: Seq<char>,
    node_fp: Seq<char>,
    executor: Seq<char>,
    model: SexprV,
    slice: SexprV,
    deps: Seq<(Seq<char>, Seq<char>)>,
    op: SexprV,
    text: Seq<char>,
) -> Seq<SexprV> {
    seq![
        pair_v("schema"@, SexprV::Str(schema)),
        pair_v("node-id"@, SexprV::Str(node_id)),
        pair_v("node-fingerprint"@, SexprV::Str(node_fp)),
        pair_v("executor"@, SexprV::Sym(executor)),
        pair_v("model-policy"@, model),
        pair_v("ir-slice"@, slice),
        pair_v("dependency-slice"@, deps_sexpr_v(deps)),
        pair_v("output-protocol"@, op),
        pair_v("text"@, SexprV::Str(text)),
    ]
}

pub open spec fn pairs_v(ps: Seq<(String, String)>) -> Seq<(Seq<char>, Seq<char>)> {
    ps.map_values(|p: (String, String)| (p.0@, p.1@))
}

pub open spec fn package_items_v(p: PromptPackage) -> Seq<SexprV> {
    fields_items_v(p.schema@, p.node_id@, p.node_fingerprint@, p.executor@, p.model_policy@, slice_sexpr_v(p.ir_slice@),
        pairs_v(p.dependency_slice@), p.output_protocol@, p.text@)
}

/// `(prompt-package (... (fingerprint "...")))`.
pub open spec fn package_v(p: PromptPackage) -> SexprV {
    SexprV::List(seq![
        SexprV::Sym("prompt-package"@),
        SexprV::List(package_items_v(p).push(pair_v("fingerprint"@, SexprV::Str(p.fingerprint@)))),
    ])
}

/// What `compile_prompt` returns for `node`: the resolved IR slice, the
/// dependency slice, the output protocol, the text built from them, and
/// the fingerprint of the package's fingerprint-free form.
pub open spec fn prompt_ok(ir: Ir, plan: Plan, node: PlanNode, p: PromptPackage) -> bool {
    let slice = resolved_v(ir, texts(node.inputs@));
    let deps = dep_slice_v(plan.nodes@, texts(node.depends_on@));
    let op = output_protocol_v(node);
    &&& p.schema@ == "gymnast.prompt/0.1"@
    &&& p.node_id@ == node.id@
    &&& p.node_fingerprint@ == node.fingerprint@
    &&& p.executor@ == node.class@
    &&& p.model_policy@ == node.model@
    &&& slice_sexpr_v(p.ir_slice@) == slice_sexpr_v(slice)
    &&& pairs_v(p.dependency_slice@) == deps
    &&& p.output_protocol@ == op
    &&& p.text@ == text_v(node, slice, deps, op)
    &&& p.fingerprint@ == fingerprint_text(print_v(SexprV::List(seq![SexprV::Sym("prompt-package"@), SexprV::List(package_items_v(p))])))
}

/// One compiled prompt package: a plan node's contract projected into
/// model-facing text plus the structured pieces behind it.
#[derive(Debug)]
pub struct PromptPackage {
    pub schema: String,
    pub node_id: String,
    pub node_fingerprint: String,
    pub executor: String,
    pub model_policy: Sexpr,
    pub ir_slice: Vec<IrNode>,
    pub dependency_slice: Vec<(String, String)>,
    pub output_protocol: Sexpr,
    pub text: String,
    pub fingerprint: String,
}


// ===================================================================
// Executable code.
// ===================================================================

/// The instruction every prompt ends with.
pub const CLOSING_INSTRUCTION: &'static str = "Return only the candidate S-expression. Report no confidence score. If the contract is not locally closed, return an unresolved entry and no files.";

fn nil() -> (r: Sexpr)
    ensures
        r@ == nil_v(),
{
    let r = Sexpr::List(Vec::new());
    assert(views_of(Seq::<Sexpr>::empty()) =~= Seq::<SexprV>::empty());
    r
}

fn empty_text() -> (r: String)
    ensures
        r@ == Seq::<char>::empty(),
{
    proof {
        reveal_strlit("");
    }
    owned("")
}

fn is_empty_text(s: &str) -> (r: bool)
    ensures
        r == (s@.len() == 0),
{
    proof {
        reveal_strlit("");
    }
    let r = str_eq(s, "");
    assert(s@.len() == 0 ==> s@ =~= ""@);
    r
}

fn cat(a: &str, b: &str) -> (r: String)
    ensures
        r@ == a@ + b@,
{
    let mut r = owned(a);
    push_str(&mut r, b);
    r
}

fn push_line(lines: &mut Vec<String>, s: String)
    ensures
        texts(final(lines)@) == texts(old(lines)@).push(s@),
{
    lines.push(s);
    assert(texts(lines@) =~= texts(old(lines)@).push(s@));
}

fn push_nonempty(parts: &mut Vec<String>, s: String)
    ensures
        texts(final(parts)@) == texts(old(parts)@) + nonempty(s@),
{
    if !is_empty_text(s.as_str()) {
        push_line(parts, s);
    }
    assert(texts(parts@) =~= texts(old(parts)@) + nonempty(s@));
}

fn append_lines(lines: &mut Vec<String>, more: Vec<String>)
    ensures
        texts(final(lines)@) == texts(old(lines)@) + texts(more@),
{
    let ghost mv = more@;
    let mut more = more;
    lines.append(&mut more);
    assert(texts(lines@) =~= texts(old(lines)@) + texts(mv));
}

fn drop_first_slice(items: &[Sexpr]) -> (r: &[Sexpr])
    requires
        items.len() > 0,
    ensures
        views_of(r@) == views_of(items@).drop_first(),
{
    let t = items.split_at(1).1;
    proof {
        lemma_views_of(t@);
        lemma_views_of(items@);
        assert(views_of(t@) =~= views_of(items@).drop_first());
    }
    t
}

fn sym_at_exec(items: &[Sexpr], k: usize) -> (r: Option<&str>)
    ensures
        match sym_at(views_of(items@), k as int) {
            Some(s) => r is Some && r->0@ == s,
            None => r is None,
        },
{
    proof {
        lemma_views_of(items@);
    }
    if k < items.len() {
        items[k].as_sym()
    } else {
        None
    }
}

fn is_sym(x: &Sexpr, s: &str) -> (r: bool)
    ensures
        r == (x@ == SexprV::Sym(s@)),
{
    match x.as_sym() {
        Some(t) => str_eq(t, s),
        None => false,
    }
}

fn role_text(class: &str) -> (r: &'static str)
    ensures
        r@ == role_text_v(class@),
{
    if str_eq(class, "generative") {
        "Produce one candidate implementation for this closed node contract."
    } else if str_eq(class, "verification") {
        "Materialize the independent verifier projection. Do not inspect or trust generator rationale."
    } else if str_eq(class, "structural") {
        "Apply the named deterministic compiler recipe exactly."
    } else {
        "Assemble only the declared artifacts and capability edges."
    }
}

fn content_hint(target: &Sexpr) -> (r: &'static str)
    ensures
        r@ == content_hint_v(target@),
{
    match target_language(target) {
        Some(l) => {
            let l = l.as_str();
            if str_eq(l, "ruby") {
                "<valid Ruby source code>"
            } else if str_eq(l, "go") {
                "<valid Go source code>"
            } else if str_eq(l, "java") {
                "<valid Java source code>"
            } else if str_eq(l, "python") {
                "<valid Python source code>"
            } else if str_eq(l, "rust") {
                "<valid Rust source code>"
            } else {
                "<complete-content>"
            }
        },
        None => "<complete-content>",
    }
}

fn path_hint(path: &str, hint: &str) -> (r: String)
    ensures
        r@ == path_hint_v(path@, hint@),
{
    if ends_with(path, ".sexpr") {
        owned("<canonical S-expression>")
    } else {
        owned(hint)
    }
}

fn build_output_protocol(node: &PlanNode) -> (r: Sexpr)
    ensures
        r@ == output_protocol_v(*node),
{
    let hint = content_hint(&node.target);
    let ghost pv = texts(node.may_write@);
    let mut files: Vec<Sexpr> = Vec::new();
    let mut i: usize = 0;
    while i < node.may_write.len()
        invariant
            i <= node.may_write.len(),
            pv == texts(node.may_write@),
            hint@ == content_hint_v(node.target@),
            views_of(files@) == pv.take(i as int).map_values(|p: Seq<char>| file_entry_v(p, hint@)),
        decreases node.may_write.len() - i,
    {
        let path = node.may_write[i].as_str();
        let e = list2(Sexpr::Str(owned(path)), Sexpr::Str(path_hint(path, hint)));
        proof {
            lemma_views_push(files@, e);
            assert(pv.take(i + 1).map_values(|p: Seq<char>| file_entry_v(p, hint@)) =~= pv.take(i as int).map_values(|p: Seq<char>| file_entry_v(p, hint@)).push(file_entry_v(pv[i as int], hint@)));
        }
        files.push(e);
        i = i + 1;
    }
    assert(pv.take(node.may_write.len() as int) =~= pv);
    let items = vec![
        Sexpr::pair("schema", Sexpr::Str(owned("gymnast.candidate/0.1"))),
        Sexpr::pair("node-id", Sexpr::Str(node.id.clone())),
        Sexpr::pair("files", Sexpr::List(files)),
        Sexpr::pair("implements", Sexpr::Str(owned("<ir-node-id-list>"))),
        Sexpr::pair("edge-uses", nil()),
        Sexpr::pair("assumptions", nil()),
        Sexpr::pair("unresolved", nil()),
    ];
    proof {
        lemma_views_of(items@);
        assert(views_of(items@) =~= output_protocol_v(*node)->List_0[1]->List_0);
    }
    let r = list2(Sexpr::sym("candidate"), Sexpr::List(items));
    assert(r@->List_0 =~= output_protocol_v(*node)->List_0);
    r
}

fn lang_is(lang: Option<&str>, l: &str) -> (r: bool)
    ensures
        r == (match lang {
            Some(x) => Some(x@),
            None => None::<Seq<char>>,
        } == Some(l@)),
{
    match lang {
        Some(x) => str_eq(x, l),
        None => false,
    }
}

fn framework_hint(target: &Sexpr) -> (r: String)
    ensures
        r@ == framework_hint_v(target@),
{
    match target {
        Sexpr::List(items) => {
            let lang = sym_at_exec(items.as_slice(), 0);
            match sym_at_exec(items.as_slice(), 1) {
                Some(f) => {
                    if lang_is(lang, "ruby") && str_eq(f, "rails") {
                        owned("\nUse Rails conventions: ActiveRecord models, ApplicationRecord base class, standard Rails error handling.")
                    } else if lang_is(lang, "go") && str_eq(f, "stdlib") {
                        owned("\nUse Go stdlib conventions: exported types with receiver methods, error returns, context.Context parameters.")
                    } else if lang_is(lang, "java") && str_eq(f, "spring") {
                        owned("\nUse Spring conventions: @Repository/@Service annotations, JPA entities, @Transactional methods.")
                    } else if lang_is(lang, "python") && str_eq(f, "django") {
                        owned("\nUse Django conventions: models.Model subclasses, Manager/QuerySet patterns, transaction.atomic blocks.\nPYTHON STRING REQUIREMENT: use ONLY single-quoted strings ('...') everywhere in the Python code. Never use double-quoted strings or triple-double-quoted docstrings — use triple-single-quoted ('''...''') for docstrings instead. This is mandatory because the code is inside an S-expression double-quoted string.")
                    } else if lang_is(lang, "rust") && str_eq(f, "actix") {
                        owned("\nUse Actix-web conventions: extractors, App::new().service() routing, impl Handler patterns, Result<HttpResponse>.")
                    } else {
                        let mut s = owned("\nUse ");
                        push_str(&mut s, f);
                        push_str(&mut s, " conventions.");
                        s
                    }
                },
                None => empty_text(),
            }
        },
        _ => empty_text(),
    }
}

fn header_block(node: &PlanNode) -> (r: String)
    ensures
        r@ == header_v(*node),
{
    let mut s = owned("GYMNAST NODE CONTRACT\nNode: ");
    push_str(&mut s, node.id.as_str());
    push_str(&mut s, "\nRecipe: ");
    push_str(&mut s, node.recipe.as_str());
    push_str(&mut s, "\nRole: ");
    push_str(&mut s, role_text(node.class.as_str()));
    s
}

fn target_section(node: &PlanNode) -> (r: String)
    ensures
        r@ == target_section_v(*node),
{
    let lo = target_language(&node.target);
    let lang: String = match &lo {
        Some(l) => l.clone(),
        None => owned("unknown"),
    };
    let ext = extension_for(match &lo {
        Some(l) => Some(l.as_str()),
        None => None,
    });
    let l = lang.as_str();
    let mut s = owned("TARGET\n");
    let p = node.target.print();
    push_str(&mut s, p.as_str());
    push_str(&mut s, "\n\nCRITICAL: Every file content string in FILES must be valid ");
    push_str(&mut s, l);
    push_str(&mut s, " source code.\nThe output files end in ");
    push_str(&mut s, ext);
    push_str(&mut s, " — their content is ");
    push_str(&mut s, l);
    push_str(&mut s, ", never Lisp/Scheme/Clojure/pseudocode.\nThe S-expression envelope (candidate ...) is metadata framing; file content strings inside it are real ");
    push_str(&mut s, l);
    push_str(&mut s, " source code.\nESCAPING: file content is inside S-expression double-quoted strings. Backslash-escape every literal double-quote and every literal backslash in file content. Prefer single-quoted strings in ");
    push_str(&mut s, l);
    push_str(&mut s, " where the language allows it.");
    let h = framework_hint(&node.target);
    push_str(&mut s, h.as_str());
    s
}

/// `prefix` before each text.
fn indented(prefix: &str, xs: &[String]) -> (r: Vec<String>)
    ensures
        texts(r@) == indent_v(prefix@, texts(xs@)),
{
    let ghost xv = texts(xs@);
    let mut out: Vec<String> = Vec::new();
    let mut i: usize = 0;
    while i < xs.len()
        invariant
            i <= xs.len(),
            xv == texts(xs@),
            texts(out@) == indent_v(prefix@, xv.take(i as int)),
        decreases xs.len() - i,
    {
        push_line(&mut out, cat(prefix, xs[i].as_str()));
        assert(indent_v(prefix@, xv.take(i + 1)) =~= indent_v(prefix@, xv.take(i as int)).push(prefix@ + xv[i as int]));
        i = i + 1;
    }
    assert(xv.take(xs.len() as int) =~= xv);
    out
}

fn capability_section(node: &PlanNode) -> (r: String)
    ensures
        r@ == capability_v(*node),
{
    if node.capabilities.len() == 0 {
        return empty_text();
    }
    let lines = indented("  ", node.capabilities.as_slice());
    let j = join(lines.as_slice(), "\n");
    cat("CAPABILITY CONTRACTS\n", j.as_str())
}

/// The printed form of each value.
fn prints(xs: &[Sexpr]) -> (r: Vec<String>)
    ensures
        texts(r@) == prints_v(views_of(xs@)),
{
    let ghost xv = views_of(xs@);
    proof {
        lemma_views_of(xs@);
    }
    let mut out: Vec<String> = Vec::new();
    let mut i: usize = 0;
    while i < xs.len()
        invariant
            i <= xs.len(),
            xv == views_of(xs@),
            xv.len() == xs.len(),
            forall|j: int| 0 <= j < xs.len() ==> #[trigger] xv[j] == xs@[j]@,
            texts(out@) == prints_v(xv.take(i as int)),
        decreases xs.len() - i,
    {
        push_line(&mut out, xs[i].print());
        assert(prints_v(xv.take(i + 1)) =~= prints_v(xv.take(i as int)).push(print_v(xv[i as int])));
        i = i + 1;
    }
    assert(xv.take(xs.len() as int) =~= xv);
    out
}

fn entities_list(of_val: &Sexpr) -> (r: String)
    ensures
        r@ == entities_v(of_val@),
{
    match of_val {
        Sexpr::List(items) => {
            proof {
                lemma_views_of(items@);
            }
            let skip = items.len() > 0 && is_sym(&items[0], "aggregate");
            let xs: &[Sexpr] = if skip { drop_first_slice(items.as_slice()) } else { items.as_slice() };
            let ps = prints(xs);
            join(ps.as_slice(), ", ")
        },
        other => {
            let ps = vec![other.print()];
            assert(texts(ps@) =~= prints_v(seq![other@]));
            join(ps.as_slice(), ", ")
        },
    }
}

fn opt_line_exec(lines: &mut Vec<String>, o: Option<&Sexpr>, label: &str)
    ensures
        texts(final(lines)@) == texts(old(lines)@) + opt_line(crate::transition::opt_ref_v(o), label@),
{
    match o {
        Some(v) => {
            let p = v.print();
            push_line(lines, cat(label, p.as_str()));
        },
        None => {},
    }
    assert(texts(lines@) =~= texts(old(lines)@) + opt_line(crate::transition::opt_ref_v(o), label@));
}

fn field_of<'a>(n: &'a IrNode, key: &str) -> (r: Option<&'a Sexpr>)
    ensures
        crate::transition::opt_ref_v(r) == ff(*n, key@),
{
    n.field(key)
}

fn format_state_block(n: &IrNode) -> (r: String)
    ensures
        r@ == state_block_v(*n),
{
    let mut lines: Vec<String> = Vec::new();
    let mut h = cat("  ", n.name.as_str());
    push_str(&mut h, ":");
    push_line(&mut lines, h);
    opt_line_exec(&mut lines, field_of(n, ":aggregate"), "    Aggregate: ");
    opt_line_exec(&mut lines, field_of(n, ":versioned"), "    Versioning: ");
    opt_line_exec(&mut lines, field_of(n, ":consistency"), "    Consistency: ");
    opt_line_exec(&mut lines, field_of(n, ":durability"), "    Durability: ");
    match field_of(n, ":of") {
        Some(v) => {
            let e = entities_list(v);
            push_line(&mut lines, cat("    Entities: ", e.as_str()));
        },
        None => {},
    }
    assert(texts(lines@) =~= state_lines_v(*n));
    join(lines.as_slice(), "\n")
}

fn record_line(item: &Sexpr) -> (r: String)
    ensures
        r@ == record_line_v(item@),
{
    match item {
        Sexpr::List(p) => {
            proof {
                lemma_views_of(p@);
            }
            if p.len() == 2 {
                let mut s = owned("    ");
                let a = p[0].print();
                push_str(&mut s, a.as_str());
                push_str(&mut s, ": ");
                let b = p[1].print();
                push_str(&mut s, b.as_str());
                s
            } else {
                let x = item.print();
                cat("    ", x.as_str())
            }
        },
        _ => {
            let x = item.print();
            cat("    ", x.as_str())
        },
    }
}

fn variant_item(item: &Sexpr) -> (r: String)
    ensures
        r@ == variant_item_v(item@),
{
    match item {
        Sexpr::List(p) => {
            proof {
                lemma_views_of(p@);
            }
            if p.len() == 2 {
                let mut s = p[0].print();
                push_str(&mut s, " ");
                let b = p[1].print();
                push_str(&mut s, b.as_str());
                s
            } else {
                item.print()
            }
        },
        _ => item.print(),
    }
}

fn list_items_of(v: &Sexpr) -> (r: &[Sexpr])
    ensures
        views_of(r@) == list_items_v(v@),
{
    match v {
        Sexpr::List(items) => items.as_slice(),
        _ => {
            let e: &[Sexpr] = &[];
            assert(views_of(e@) =~= Seq::<SexprV>::empty());
            e
        },
    }
}

fn format_type_block(n: &IrNode) -> (r: String)
    ensures
        r@ == type_block_v(*n),
{
    let name = n.name.as_str();
    match field_of(n, ":opaque") {
        Some(v) => {
            let mut s = cat("  ", name);
            push_str(&mut s, " (opaque ");
            let p = v.print();
            push_str(&mut s, p.as_str());
            push_str(&mut s, ")");
            return s;
        },
        None => {},
    }
    match field_of(n, ":enum") {
        Some(v) => {
            let joined = match v {
                Sexpr::List(items) => {
                    let ps = prints(items.as_slice());
                    join(ps.as_slice(), " | ")
                },
                _ => v.print(),
            };
            let mut s = cat("  ", name);
            push_str(&mut s, " (enum): ");
            push_str(&mut s, joined.as_str());
            return s;
        },
        None => {},
    }
    match field_of(n, ":record") {
        Some(v) => {
            let items = list_items_of(v);
            let ghost iv = views_of(items@);
            proof {
                lemma_views_of(items@);
            }
            let mut lines: Vec<String> = Vec::new();
            let mut h = cat("  ", name);
            push_str(&mut h, " (record):");
            push_line(&mut lines, h);
            let ghost head = texts(lines@);
            let mut i: usize = 0;
            while i < items.len()
                invariant
                    i <= items.len(),
                    iv == views_of(items@),
                    iv.len() == items.len(),
                    forall|j: int| 0 <= j < items.len() ==> #[trigger] iv[j] == items@[j]@,
                    texts(lines@) == head + iv.take(i as int).map_values(|x: SexprV| record_line_v(x)),
                    head == seq!["  "@ + n.name@ + " (record):"@],
                    iv == list_items_v(v@),
                    ff(*n, ":opaque"@) is None,
                    ff(*n, ":enum"@) is None,
                    ff(*n, ":record"@) == Some(v@),
                decreases items.len() - i,
            {
                push_line(&mut lines, record_line(&items[i]));
                assert(iv.take(i + 1).map_values(|x: SexprV| record_line_v(x)) =~= iv.take(i as int).map_values(|x: SexprV| record_line_v(x)).push(record_line_v(iv[i as int])));
                i = i + 1;
            }
            assert(iv.take(items.len() as int) =~= iv);
            return join(lines.as_slice(), "\n");
        },
        None => {},
    }
    match field_of(n, ":variant") {
        Some(v) => {
            let items = list_items_of(v);
            let ghost iv = views_of(items@);
            proof {
                lemma_views_of(items@);
            }
            let mut parts: Vec<String> = Vec::new();
            let mut i: usize = 0;
            while i < items.len()
                invariant
                    i <= items.len(),
                    iv == views_of(items@),
                    iv.len() == items.len(),
                    forall|j: int| 0 <= j < items.len() ==> #[trigger] iv[j] == items@[j]@,
                    texts(parts@) == iv.take(i as int).map_values(|x: SexprV| variant_item_v(x)),
                    iv == list_items_v(v@),
                    ff(*n, ":opaque"@) is None,
                    ff(*n, ":enum"@) is None,
                    ff(*n, ":record"@) is None,
                    ff(*n, ":variant"@) == Some(v@),
                decreases items.len() - i,
            {
                push_line(&mut parts, variant_item(&items[i]));
                assert(iv.take(i + 1).map_values(|x: SexprV| variant_item_v(x)) =~= iv.take(i as int).map_values(|x: SexprV| variant_item_v(x)).push(variant_item_v(iv[i as int])));
                i = i + 1;
            }
            assert(iv.take(items.len() as int) =~= iv);
            let j = join(parts.as_slice(), " | ");
            let mut s = cat("  ", name);
            push_str(&mut s, " (variant): ");
            push_str(&mut s, j.as_str());
            return s;
        },
        None => {},
    }
    cat("  ", name)
}

fn tagged_body(c: &Sexpr, tag: &str) -> (r: Option<String>)
    ensures
        match tagged_body_v(c@, tag@) {
            Some(t) => r is Some && r->0@ == t,
            None => r is None,
        },
{
    match c {
        Sexpr::List(items) => {
            proof {
                lemma_views_of(items@);
            }
            if items.len() > 0 && is_sym(&items[0], tag) {
                if items.len() == 2 {
                    Some(items[1].print())
                } else {
                    Some(c.print())
                }
            } else {
                None
            }
        },
        _ => None,
    }
}

/// `(fails e :when p :preserves s)` as `e when p, preserves s` (see
/// `fails_text_v`); an off-shape `fails` clause prints whole, any other
/// value gives `None`.
pub fn format_fails_clause(c: &Sexpr) -> (r: Option<String>)
    ensures
        match fails_text_v(c@) {
            Some(t) => r is Some && r->0@ == t,
            None => r is None,
        },
{
    match c {
        Sexpr::List(items) => {
            let ghost iv = views_of(items@);
            proof {
                lemma_views_of(items@);
            }
            if !(items.len() > 0 && is_sym(&items[0], "fails")) {
                return None;
            }
            let name = match sym_at_exec(items.as_slice(), 1) {
                Some(n) => n,
                None => return Some(c.print()),
            };
            let mut w: Option<&Sexpr> = None;
            let mut p: Option<&Sexpr> = None;
            let mut i: usize = 2;
            while i < items.len()
                invariant
                    2 <= i,
                    i <= items.len() || items.len() < 2,
                    iv == views_of(items@),
                    iv.len() == items.len(),
                    forall|j: int| 0 <= j < items.len() ==> #[trigger] iv[j] == items@[j]@,
                    fails_scan(iv, 2, None, None) == fails_scan(iv, i as int, crate::transition::opt_ref_v(w), crate::transition::opt_ref_v(p)),
                decreases items.len() - i,
            {
                if is_sym(&items[i], ":when") && i + 1 < items.len() {
                    w = Some(&items[i + 1]);
                    i = i + 2;
                } else if is_sym(&items[i], ":preserves") && i + 1 < items.len() {
                    p = Some(&items[i + 1]);
                    i = i + 2;
                } else {
                    i = i + 1;
                }
            }
            let mut s = owned(name);
            match w {
                Some(x) => {
                    push_str(&mut s, " when ");
                    let t = x.print();
                    push_str(&mut s, t.as_str());
                },
                None => {},
            }
            match p {
                Some(x) => {
                    push_str(&mut s, ", preserves ");
                    let t = x.print();
                    push_str(&mut s, t.as_str());
                },
                None => {},
            }
            Some(s)
        },
        _ => None,
    }
}

/// `(emits ...)` printed without its tag: the single item, or the rest
/// as a list (see `emits_text_v`); any other value gives `None`.
pub fn format_emits_clause(c: &Sexpr) -> (r: Option<String>)
    ensures
        match emits_text_v(c@) {
            Some(t) => r is Some && r->0@ == t,
            None => r is None,
        },
{
    match c {
        Sexpr::List(items) => {
            proof {
                lemma_views_of(items@);
            }
            if !(items.len() > 0 && is_sym(&items[0], "emits")) {
                return None;
            }
            let rest = drop_first_slice(items.as_slice());
            proof {
                lemma_views_of(rest@);
            }
            if rest.len() == 1 {
                Some(rest[0].print())
            } else {
                let copy = crate::ir::clone_slice_sexprs(rest);
                let l = Sexpr::List(copy);
                Some(l.print())
            }
        },
        _ => None,
    }
}

fn clause_text(c: &Sexpr, which: u8) -> (r: Option<String>)
    ensures
        match clause_text_v(c@, which as int) {
            Some(t) => r is Some && r->0@ == t,
            None => r is None,
        },
{
    if which == 0 {
        tagged_body(c, "requires")
    } else if which == 1 {
        tagged_body(c, "ensures")
    } else if which == 2 {
        format_fails_clause(c)
    } else {
        format_emits_clause(c)
    }
}

fn clause_texts(cs: &[Sexpr], which: u8) -> (r: Vec<String>)
    ensures
        texts(r@) == clause_texts_v(views_of(cs@), which as int),
{
    let ghost cv = views_of(cs@);
    proof {
        lemma_views_of(cs@);
    }
    let mut out: Vec<String> = Vec::new();
    let mut i: usize = 0;
    while i < cs.len()
        invariant
            i <= cs.len(),
            cv == views_of(cs@),
            cv.len() == cs.len(),
            forall|j: int| 0 <= j < cs.len() ==> #[trigger] cv[j] == cs@[j]@,
            texts(out@) == clause_texts_v(cv.take(i as int), which as int),
        decreases cs.len() - i,
    {
        assert(cv.take(i + 1).drop_last() =~= cv.take(i as int));
        assert(cv.take(i + 1).last() == cs@[i as int]@);
        match clause_text(&cs[i], which) {
            Some(t) => push_line(&mut out, t),
            None => {},
        }
        i = i + 1;
    }
    assert(cv.take(cs.len() as int) =~= cv);
    out
}

fn join_symbols(v: &Sexpr) -> (r: String)
    ensures
        r@ == join_symbols_v(v@),
{
    match v {
        Sexpr::List(items) => {
            let ps = prints(items.as_slice());
            join(ps.as_slice(), ", ")
        },
        _ => v.print(),
    }
}

fn sym_line_exec(lines: &mut Vec<String>, o: Option<&Sexpr>, label: &str)
    ensures
        texts(final(lines)@) == texts(old(lines)@) + sym_line(crate::transition::opt_ref_v(o), label@),
{
    match o {
        Some(v) => {
            let j = join_symbols(v);
            push_line(lines, cat(label, j.as_str()));
        },
        None => {},
    }
    assert(texts(lines@) =~= texts(old(lines)@) + sym_line(crate::transition::opt_ref_v(o), label@));
}

fn push_section(lines: &mut Vec<String>, title: &str, xs: Vec<String>)
    ensures
        texts(final(lines)@) == texts(old(lines)@) + section_lines(title@, texts(xs@)),
{
    if xs.len() > 0 {
        push_line(lines, owned(title));
        let body = indented("      ", xs.as_slice());
        append_lines(lines, body);
    }
    assert(texts(lines@) =~= texts(old(lines)@) + section_lines(title@, texts(xs@)));
}

fn format_behavior_block(n: &IrNode) -> (r: String)
    ensures
        r@ == behavior_block_v(*n),
{
    let mut op_label: Option<&str> = None;
    let empty: Vec<Sexpr> = Vec::new();
    let mut binders: &[Sexpr] = empty.as_slice();
    match field_of(n, ":on") {
        Some(v) => match v {
            Sexpr::List(items) => {
                if items.len() > 0 {
                    op_label = sym_at_exec(items.as_slice(), 0);
                    binders = drop_first_slice(items.as_slice());
                }
            },
            _ => {},
        },
        None => {},
    }
    assert(views_of(empty@) =~= Seq::<SexprV>::empty());
    assert(views_of(binders@) == on_parts(*n).1);
    let mut lines: Vec<String> = Vec::new();
    let mut h = cat("  ", n.name.as_str());
    match op_label {
        Some(op) => {
            push_str(&mut h, " (");
            push_str(&mut h, op);
            push_str(&mut h, "):");
        },
        None => {
            push_str(&mut h, ":");
        },
    }
    push_line(&mut lines, h);
    if binders.len() > 0 {
        let copy = crate::ir::clone_slice_sexprs(binders);
        let l = Sexpr::List(copy);
        let p = l.print();
        push_line(&mut lines, cat("    Actor: ", p.as_str()));
    }
    proof {
        lemma_views_of(binders@);
    }
    sym_line_exec(&mut lines, field_of(n, ":reads"), "    Reads: ");
    sym_line_exec(&mut lines, field_of(n, ":writes"), "    Writes: ");
    opt_line_exec(&mut lines, field_of(n, ":atomic"), "    Atomic scope: ");
    opt_line_exec(&mut lines, field_of(n, ":idempotency"), "    Idempotency: ");
    assert(texts(lines@) =~= behavior_head_v(*n));
    push_section(&mut lines, "    Preconditions:", clause_texts(n.clauses.as_slice(), 0));
    push_section(&mut lines, "    Postconditions:", clause_texts(n.clauses.as_slice(), 1));
    push_section(&mut lines, "    Failures:", clause_texts(n.clauses.as_slice(), 2));
    push_section(&mut lines, "    Emissions:", clause_texts(n.clauses.as_slice(), 3));
    assert(texts(lines@) =~= behavior_lines_v(*n));
    join(lines.as_slice(), "\n")
}

pub open spec fn block_v(n: IrNode, which: int) -> Seq<char> {
    if which == 0 {
        state_block_v(n)
    } else if which == 1 {
        type_block_v(n)
    } else {
        behavior_block_v(n)
    }
}

fn block(n: &IrNode, which: u8) -> (r: String)
    ensures
        r@ == block_v(*n, which as int),
{
    if which == 0 {
        format_state_block(n)
    } else if which == 1 {
        format_type_block(n)
    } else {
        format_behavior_block(n)
    }
}

/// The blocks of the slice's nodes of one kind, in slice order.
fn kind_blocks(slice: &[&IrNode], kind: &str, which: u8) -> (r: Vec<String>)
    ensures
        texts(r@) == nodes_with_kind(slice@.map_values(|n: &IrNode| *n), kind@).map_values(|n: IrNode| block_v(n, which as int)),
{
    let ghost sv = slice@.map_values(|n: &IrNode| *n);
    let mut out: Vec<String> = Vec::new();
    let mut i: usize = 0;
    while i < slice.len()
        invariant
            i <= slice.len(),
            sv == slice@.map_values(|n: &IrNode| *n),
            texts(out@) == nodes_with_kind(sv.take(i as int), kind@).map_values(|n: IrNode| block_v(n, which as int)),
        decreases slice.len() - i,
    {
        assert(sv.take(i + 1).drop_last() =~= sv.take(i as int));
        assert(sv.take(i + 1).last() == *slice@[i as int]);
        if str_eq(slice[i].kind.as_str(), kind) {
            let b = block(slice[i], which);
            push_line(&mut out, b);
            assert(nodes_with_kind(sv.take(i + 1), kind@).map_values(|n: IrNode| block_v(n, which as int)) =~= nodes_with_kind(sv.take(i as int), kind@).map_values(|n: IrNode| block_v(n, which as int)).push(block_v(*slice@[i as int], which as int)));
        }
        i = i + 1;
    }
    assert(sv.take(slice.len() as int) =~= sv);
    out
}

fn state_model_section(slice: &[&IrNode]) -> (r: String)
    ensures
        r@ == state_model_v(slice@.map_values(|n: &IrNode| *n)),
{
    let ghost ns = nodes_with_kind(slice@.map_values(|n: &IrNode| *n), "state"@);
    let blocks = kind_blocks(slice, "state", 0);
    assert(texts(blocks@) =~= ns.map_values(|n: IrNode| state_block_v(n)));
    if blocks.len() == 0 {
        return empty_text();
    }
    let j = join(blocks.as_slice(), "\n\n");
    cat("STATE MODEL\n", j.as_str())
}

fn type_reference_section(slice: &[&IrNode]) -> (r: String)
    ensures
        r@ == type_reference_v(slice@.map_values(|n: &IrNode| *n)),
{
    let ghost ns = nodes_with_kind(slice@.map_values(|n: &IrNode| *n), "type"@);
    let blocks = kind_blocks(slice, "type", 1);
    assert(texts(blocks@) =~= ns.map_values(|n: IrNode| type_block_v(n)));
    if blocks.len() == 0 {
        return empty_text();
    }
    let j = join(blocks.as_slice(), "\n");
    cat("TYPE REFERENCE\n", j.as_str())
}

fn behavioral_reference_section(slice: &[&IrNode]) -> (r: String)
    ensures
        r@ == behavioral_v(slice@.map_values(|n: &IrNode| *n)),
{
    let ghost ns = nodes_with_kind(slice@.map_values(|n: &IrNode| *n), "behavior"@);
    let blocks = kind_blocks(slice, "behavior", 2);
    assert(texts(blocks@) =~= ns.map_values(|n: IrNode| behavior_block_v(n)));
    if blocks.len() == 0 {
        return empty_text();
    }
    let j = join(blocks.as_slice(), "\n\n");
    cat("BEHAVIORAL REFERENCE\n", j.as_str())
}

fn listed(title: &str, xs: &[String]) -> (r: String)
    ensures
        r@ == listed_v(title@, texts(xs@)),
{
    let lines = indented("  ", xs);
    let j = join(lines.as_slice(), "\n");
    cat(title, j.as_str())
}

fn strs_sexpr(xs: &[String]) -> (r: Sexpr)
    ensures
        r@ == strs_v(texts(xs@)),
{
    let ghost xv = texts(xs@);
    let mut out: Vec<Sexpr> = Vec::new();
    let mut i: usize = 0;
    while i < xs.len()
        invariant
            i <= xs.len(),
            xv == texts(xs@),
            views_of(out@) == xv.take(i as int).map_values(|x: Seq<char>| SexprV::Str(x)),
        decreases xs.len() - i,
    {
        let e = Sexpr::Str(xs[i].clone());
        proof {
            lemma_views_push(out@, e);
            assert(xv.take(i + 1).map_values(|x: Seq<char>| SexprV::Str(x)) =~= xv.take(i as int).map_values(|x: Seq<char>| SexprV::Str(x)).push(SexprV::Str(xv[i as int])));
        }
        out.push(e);
        i = i + 1;
    }
    assert(xv.take(xs.len() as int) =~= xv);
    Sexpr::List(out)
}

fn deps_sexpr(ds: &[(String, String)]) -> (r: Sexpr)
    ensures
        r@ == deps_sexpr_v(pairs_v(ds@)),
{
    let ghost dv = pairs_v(ds@);
    let mut out: Vec<Sexpr> = Vec::new();
    let mut i: usize = 0;
    while i < ds.len()
        invariant
            i <= ds.len(),
            dv == pairs_v(ds@),
            views_of(out@) == dv.take(i as int).map_values(|d: (Seq<char>, Seq<char>)| dep_entry_v(d)),
        decreases ds.len() - i,
    {
        let e = list2(Sexpr::Str(ds[i].0.clone()), Sexpr::Str(ds[i].1.clone()));
        proof {
            lemma_views_push(out@, e);
            assert(dv.take(i + 1).map_values(|d: (Seq<char>, Seq<char>)| dep_entry_v(d)) =~= dv.take(i as int).map_values(|d: (Seq<char>, Seq<char>)| dep_entry_v(d)).push(dep_entry_v(dv[i as int])));
        }
        out.push(e);
        i = i + 1;
    }
    assert(dv.take(ds.len() as int) =~= dv);
    Sexpr::List(out)
}

fn slice_sexpr(slice: &[&IrNode]) -> (r: Sexpr)
    ensures
        r@ == slice_sexpr_v(slice@.map_values(|n: &IrNode| *n)),
{
    let ghost sv = slice@.map_values(|n: &IrNode| *n);
    let mut out: Vec<Sexpr> = Vec::new();
    let mut i: usize = 0;
    while i < slice.len()
        invariant
            i <= slice.len(),
            sv == slice@.map_values(|n: &IrNode| *n),
            views_of(out@) == sv.take(i as int).map_values(|n: IrNode| ir_node_v(n)),
        decreases slice.len() - i,
    {
        let e = slice[i].to_sexpr();
        proof {
            lemma_views_push(out@, e);
            assert(sv.take(i + 1).map_values(|n: IrNode| ir_node_v(n)) =~= sv.take(i as int).map_values(|n: IrNode| ir_node_v(n)).push(ir_node_v(sv[i as int])));
        }
        out.push(e);
        i = i + 1;
    }
    assert(sv.take(slice.len() as int) =~= sv);
    Sexpr::List(out)
}

fn head_parts(node: &PlanNode, slice: &[&IrNode]) -> (r: Vec<String>)
    ensures
        texts(r@) == head_parts_v(*node, slice@.map_values(|n: &IrNode| *n)),
{
    let mut parts: Vec<String> = Vec::new();
    push_line(&mut parts, header_block(node));
    push_line(&mut parts, target_section(node));
    push_nonempty(&mut parts, capability_section(node));
    push_nonempty(&mut parts, state_model_section(slice));
    push_nonempty(&mut parts, type_reference_section(slice));
    push_nonempty(&mut parts, behavioral_reference_section(slice));
    assert(texts(parts@) =~= head_parts_v(*node, slice@.map_values(|n: &IrNode| *n)));
    parts
}

fn tail_parts(node: &PlanNode, slice: &[&IrNode], deps: &[(String, String)], op: &Sexpr) -> (r: Vec<String>)
    ensures
        texts(r@) == tail_parts_v(*node, slice@.map_values(|n: &IrNode| *n), pairs_v(deps@), op@),
{
    let mut parts: Vec<String> = Vec::new();
    push_line(&mut parts, listed("OBLIGATIONS\n", node.obligations.as_slice()));
    push_line(&mut parts, listed("PROHIBITIONS\n", node.prohibitions.as_slice()));
    let af = strs_sexpr(node.may_write.as_slice()).print();
    push_line(&mut parts, cat("AUTHORIZED FILES\n", af.as_str()));
    let ds = deps_sexpr(deps).print();
    push_line(&mut parts, cat("DEPENDENCIES\n", ds.as_str()));
    let ops = op.print();
    push_line(&mut parts, cat("OUTPUT PROTOCOL\n", ops.as_str()));
    let ai = slice_sexpr(slice).print();
    push_line(&mut parts, cat("AUTHORITATIVE INPUT (reference)\n", ai.as_str()));
    push_line(&mut parts, owned(CLOSING_INSTRUCTION));
    assert(texts(parts@) =~= tail_parts_v(*node, slice@.map_values(|n: &IrNode| *n), pairs_v(deps@), op@));
    parts
}

fn build_text(node: &PlanNode, slice: &[&IrNode], deps: &[(String, String)], op: &Sexpr) -> (r: String)
    ensures
        r@ == text_v(*node, slice@.map_values(|n: &IrNode| *n), pairs_v(deps@), op@),
{
    let mut parts = head_parts(node, slice);
    let tail = tail_parts(node, slice, deps, op);
    append_lines(&mut parts, tail);
    let mut t = join(parts.as_slice(), "\n\n");
    push_str(&mut t, "\n");
    t
}

pub(crate) fn fields_items(
    schema: &str,
    node_id: &str,
    node_fp: &str,
    executor: &str,
    model: &Sexpr,
    slice: Sexpr,
    deps: &[(String, String)],
    op: &Sexpr,
    text: &str,
) -> (r: Vec<Sexpr>)
    ensures
        views_of(r@) == fields_items_v(schema@, node_id@, node_fp@, executor@, model@, slice@, pairs_v(deps@), op@, text@),
{
    let r = vec![
        Sexpr::pair("schema", Sexpr::Str(owned(schema))),
        Sexpr::pair("node-id", Sexpr::Str(owned(node_id))),
        Sexpr::pair("node-fingerprint", Sexpr::Str(owned(node_fp))),
        Sexpr::pair("executor", Sexpr::sym(executor)),
        Sexpr::pair("model-policy", clone_sexpr(model)),
        Sexpr::pair("ir-slice", slice),
        Sexpr::pair("dependency-slice", deps_sexpr(deps)),
        Sexpr::pair("output-protocol", clone_sexpr(op)),
        Sexpr::pair("text", Sexpr::Str(owned(text))),
    ];
    proof {
        lemma_views_of(r@);
        assert(views_of(r@) =~= fields_items_v(schema@, node_id@, node_fp@, executor@, model@, slice@, pairs_v(deps@), op@, text@));
    }
    r
}

impl PromptPackage {
    /// `(prompt-package (... (fingerprint "...")))` (see `package_v`).
    pub fn to_sexpr(&self) -> (r: Sexpr)
        ensures
            r@ == package_v(*self),
    {
        let slice = crate::ir::nodes_list(self.ir_slice.as_slice());
        let mut items = fields_items(
            self.schema.as_str(),
            self.node_id.as_str(),
            self.node_fingerprint.as_str(),
            self.executor.as_str(),
            &self.model_policy,
            slice,
            self.dependency_slice.as_slice(),
            &self.output_protocol,
            self.text.as_str(),
        );
        let x = Sexpr::pair("fingerprint", Sexpr::Str(self.fingerprint.clone()));
        proof {
            lemma_views_push(items@, x);
        }
        items.push(x);
        let r = list2(Sexpr::sym("prompt-package"), Sexpr::List(items));
        assert(r@->List_0 =~= package_v(*self)->List_0);
        r
    }
}

/// Compiles one plan node's contract into a prompt package (see
/// `prompt_ok`): a pure function of `(ir, plan, node)`.
pub fn compile_prompt(ir: &Ir, plan: &Plan, node: &PlanNode) -> (r: PromptPackage)
    ensures
        prompt_ok(*ir, *plan, *node, r),
{
    let (resolved, _warnings) = resolve_ir_slice(ir, node.id.as_str(), node.inputs.as_slice());
    let ghost rv = resolved@.map_values(|n: &IrNode| *n);
    let dependency_slice = dependency_slice(plan, node);
    let output_protocol = build_output_protocol(node);
    let text = build_text(node, resolved.as_slice(), dependency_slice.as_slice(), &output_protocol);
    let mut ir_slice: Vec<IrNode> = Vec::new();
    let mut i: usize = 0;
    while i < resolved.len()
        invariant
            i <= resolved.len(),
            rv == resolved@.map_values(|n: &IrNode| *n),
            ir_slice@.map_values(|n: IrNode| ir_node_v(n)) == rv.take(i as int).map_values(|n: IrNode| ir_node_v(n)),
        decreases resolved.len() - i,
    {
        let c = clone_node(resolved[i]);
        let ghost before = ir_slice@;
        ir_slice.push(c);
        assert(ir_slice@.map_values(|n: IrNode| ir_node_v(n)) =~= before.map_values(|n: IrNode| ir_node_v(n)).push(ir_node_v(c)));
        assert(rv.take(i + 1).map_values(|n: IrNode| ir_node_v(n)) =~= rv.take(i as int).map_values(|n: IrNode| ir_node_v(n)).push(ir_node_v(rv[i as int])));
        i = i + 1;
    }
    assert(rv.take(resolved.len() as int) =~= rv);
    let slice = crate::ir::nodes_list(ir_slice.as_slice());
    let items = fields_items(
        "gymnast.prompt/0.1",
        node.id.as_str(),
        node.fingerprint.as_str(),
        node.class.as_str(),
        &node.model,
        slice,
        dependency_slice.as_slice(),
        &output_protocol,
        text.as_str(),
    );
    let base = list2(Sexpr::sym("prompt-package"), Sexpr::List(items));
    let fp = fingerprint(&base);
    let r = PromptPackage {
        schema: owned("gymnast.prompt/0.1"),
        node_id: node.id.clone(),
        node_fingerprint: node.fingerprint.clone(),
        executor: node.class.clone(),
        model_policy: clone_sexpr(&node.model),
        ir_slice,
        dependency_slice,
        output_protocol,
        text,
        fingerprint: fp,
    };
    assert(base@ =~= SexprV::List(seq![SexprV::Sym("prompt-package"@), SexprV::List(package_items_v(r))]));
    r
}

/// One prompt package per plan node, in plan order.
pub fn compile_prompts(ir: &Ir, plan: &Plan) -> (r: Vec<PromptPackage>)
    ensures
        r.len() == plan.nodes.len(),
        forall|i: int| 0 <= i < r.len() ==> prompt_ok(*ir, *plan, plan.nodes@[i], #[trigger] r@[i]),
{
    let mut out: Vec<PromptPackage> = Vec::new();
    let mut i: usize = 0;
    while i < plan.nodes.len()
        invariant
            i <= plan.nodes.len(),
            out.len() == i,
            forall|j: int| 0 <= j < i ==> prompt_ok(*ir, *plan, plan.nodes@[j], #[trigger] out@[j]),
        decreases plan.nodes.len() - i,
    {
        let p = compile_prompt(ir, plan, &plan.nodes[i]);
        out.push(p);
        i = i + 1;
    }
    out
}

/// The W405 `unresolved-input` warnings for the node's inputs, which
/// `compile_prompt` itself does not carry.
pub fn prompt_ir_slice_warnings(ir: &Ir, node: &PlanNode) -> (r: Vec<Sexpr>)
    ensures
        views_of(r@) == unresolved_v(*ir, node.id@, texts(node.inputs@)),
{
    let (_nodes, warnings) = resolve_ir_slice(ir, node.id.as_str(), node.inputs.as_slice());
    warnings
}

// ===================================================================
// Laws.
// ===================================================================

/// Compiling a prompt is a pure function of `(ir, plan, node)`: any two
/// packages it can return print identically.
pub proof fn lemma_prompt_deterministic(ir: Ir, plan: Plan, node: PlanNode, p1: PromptPackage, p2: PromptPackage)
    requires
        prompt_ok(ir, plan, node, p1),
        prompt_ok(ir, plan, node, p2),
    ensures
        package_v(p1) == package_v(p2),
{
    assert(package_items_v(p1) =~= package_items_v(p2));
}

/// A package's fingerprint is the fingerprint of its printed form with
/// the fingerprint entry taken out.
pub proof fn lemma_prompt_fingerprint_recomputes(ir: Ir, plan: Plan, node: PlanNode, p: PromptPackage)
    requires
        prompt_ok(ir, plan, node, p),
    ensures
        ({
            let items = package_v(p)->List_0[1]->List_0;
            p.fingerprint@ == fingerprint_text(print_v(SexprV::List(seq![SexprV::Sym("prompt-package"@), SexprV::List(items.drop_last())])))
        }),
{
    let items = package_v(p)->List_0[1]->List_0;
    assert(items.drop_last() =~= package_items_v(p));
}

/// The prompt text always ends with the closing instruction and a
/// newline.
pub proof fn lemma_prompt_ends_with_closing(node: PlanNode, slice: Seq<IrNode>, deps: Seq<(Seq<char>, Seq<char>)>, op: SexprV)
    ensures
        crate::text::is_suffix(closing_v() + "\n"@, text_v(node, slice, deps, op)),
{
    let parts = parts_v(node, slice, deps, op);
    assert(parts.len() >= 2);
    assert(parts.last() == closing_v());
    let t = text_v(node, slice, deps, op);
    let j = join_v(parts, "\n\n"@);
    assert(j == join_v(parts.drop_last(), "\n\n"@) + "\n\n"@ + parts.last());
    let suf = closing_v() + "\n"@;
    assert(t.subrange(t.len() - suf.len(), t.len() as int) =~= suf);
}

} // verus!
