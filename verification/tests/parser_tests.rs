use lib::ast::{AcceptanceBlock, Clause, CmpOp, Decl, Expr, ModeExpr, OpKind, PackValue, Pred};
use lib::diag::Severity;
use lib::parser::parse;

const SPEC: &str = "spec todo = v 0.1 owner team exports Api, Task
mode Id = opaque text
mode Task = struct (Id id, text(1..200) title, opt Id parent)
mode Status = enum (open, done)
interface Api = for user (cmd create = (Task t) Id ! (denied, bad), qry get = (Id id) opt Task)
state tasks = (store kv, ttl 5 min)
behavior create = on Api.create(actor, input) (writes tasks; requires ok(actor); fails denied when not ok(actor) preserves tasks; emits created now)
inv cap = on tasks always count(tasks) <= 256
acceptance acc = of Api (property p = (runs 10), scenario s = (given (a (b)) when x), fault f = (kill node) must ok(node), coverage (create, get))
";

#[test]
fn test_parse_small_spec() {
    let (file, diags) = parse(SPEC);
    assert!(diags.is_empty(), "{:?}", diags);
    let file = file.expect("file");
    assert_eq!(file.spec.name.text, "todo");
    assert_eq!(file.spec.version, "0.1");
    assert_eq!(file.spec.owner.text, "team");
    let exports: Vec<&str> = file.spec.exports.iter().map(|e| e.text.as_str()).collect();
    assert_eq!(exports, vec!["Api", "Task"]);
    assert_eq!(file.decls.len(), 8);
    match &file.decls[0] {
        Decl::Mode(m) => {
            assert_eq!(m.name.text, "Id");
            assert!(matches!(&m.expr, ModeExpr::Opaque(inner) if matches!(&**inner, ModeExpr::Named { name, args } if name.text == "text" && args.is_empty())));
        },
        other => panic!("expected a mode, got {:?}", other),
    }
    match &file.decls[1] {
        Decl::Mode(m) => match &m.expr {
            ModeExpr::Struct(fields) => {
                assert_eq!(fields.len(), 3);
                assert_eq!(fields[1].name.text, "title");
                assert!(matches!(&fields[1].mode, ModeExpr::Refined { lo: Some(1), hi: Some(200), .. }));
                assert!(matches!(&fields[2].mode, ModeExpr::Opt(_)));
            },
            other => panic!("expected a struct, got {:?}", other),
        },
        other => panic!("expected a mode, got {:?}", other),
    }
    match &file.decls[2] {
        Decl::Mode(m) => assert!(matches!(&m.expr, ModeExpr::Enum(vs) if vs.len() == 2)),
        other => panic!("expected a mode, got {:?}", other),
    }
    match &file.decls[3] {
        Decl::Interface(i) => {
            assert_eq!(i.default_actor.text, "user");
            assert_eq!(i.ops.len(), 2);
            assert_eq!(i.ops[0].kind, OpKind::Cmd);
            assert_eq!(i.ops[0].errors.len(), 2);
            assert_eq!(i.ops[1].kind, OpKind::Qry);
        },
        other => panic!("expected an interface, got {:?}", other),
    }
    match &file.decls[4] {
        Decl::State(s) => {
            assert_eq!(s.attrs.len(), 2);
            assert!(matches!(&s.attrs[1].value, PackValue::Quantity { value: 5, unit } if unit.text == "min"));
        },
        other => panic!("expected a state, got {:?}", other),
    }
    match &file.decls[5] {
        Decl::Behavior(b) => {
            assert_eq!(b.binders.len(), 2);
            assert_eq!(b.attrs.len(), 1);
            assert_eq!(b.clauses.len(), 3);
            assert!(matches!(&b.clauses[0], Clause::Requires(Pred::Call { name, .. }) if name.text == "ok"));
            assert!(matches!(&b.clauses[1], Clause::Fails { when: Pred::Not(_), preserves: Some(_), .. }));
            assert!(matches!(&b.clauses[2], Clause::Emits { qualifier, .. } if qualifier.len() == 1));
        },
        other => panic!("expected a behavior, got {:?}", other),
    }
    match &file.decls[6] {
        Decl::Invariant(i) => {
            assert!(matches!(&i.always, Pred::Cmp { op: CmpOp::Le, lhs: Expr::Call { .. }, rhs: Expr::Int(256) }));
        },
        other => panic!("expected an invariant, got {:?}", other),
    }
    match &file.decls[7] {
        Decl::Acceptance(a) => {
            assert_eq!(a.blocks.len(), 4);
            assert!(matches!(&a.blocks[1], AcceptanceBlock::Scenario { steps, .. } if steps.is_empty()));
            assert!(matches!(&a.blocks[2], AcceptanceBlock::Fault { must: Some(_), .. }));
            assert!(matches!(&a.blocks[3], AcceptanceBlock::Coverage(names) if names.len() == 2));
        },
        other => panic!("expected an acceptance, got {:?}", other),
    }
}

#[test]
fn test_parse_empty_source_reports_missing_spec() {
    let (file, diags) = parse("");
    assert!(file.is_none());
    assert_eq!(diags.len(), 1);
    assert_eq!(diags[0].code, "E101");
    assert_eq!(diags[0].message, "expected spec declaration");
}

#[test]
fn test_parse_bad_version() {
    let (file, diags) = parse("spec x = v 1 owner o exports a");
    assert!(file.is_none());
    assert_eq!(diags[0].code, "E103");
    assert_eq!(diags[0].message, "expected `.` in version");
}

#[test]
fn test_parse_recovers_at_next_declaration() {
    let src = "spec x = v 0.1 owner o exports a\nfrobnicate y = 1\nmode M = text\n";
    let (file, diags) = parse(src);
    let file = file.expect("the spec header parsed");
    assert_eq!(diags.len(), 1);
    assert_eq!(diags[0].code, "E104");
    assert_eq!(diags[0].message, "unknown declaration keyword `frobnicate`");
    assert_eq!(file.decls.len(), 1);
    assert!(matches!(&file.decls[0], Decl::Mode(m) if m.name.text == "M"));
}

#[test]
fn test_parse_stops_where_an_interface_would_spin() {
    let src = "spec x = v 0.1 owner o exports a\ninterface A = for u (bogus)\n";
    let (file, diags) = parse(src);
    assert!(file.is_some());
    assert!(diags.iter().all(|d| d.severity == Severity::Error));
    assert!(diags.iter().any(|d| d.message == "expected `cmd` or `qry`"));
}

#[test]
fn test_parse_expected_token_message() {
    let (_, diags) = parse("spec x v 0.1 owner o exports a");
    assert_eq!(diags[0].code, "E101");
    assert_eq!(diags[0].message, "unexpected token `v`, expected `=`");
}

const HEADER: &str = "spec x = v 0.1 owner o exports a\n";

#[test]
fn test_parse_pack_values() {
    let src = format!(
        "{}state s = (retry backoff(base 10 ms; max 3), tags (a, b, c), route a.b d, mix (k 1; m \"x\"), none ())\n",
        HEADER
    );
    let (file, diags) = parse(&src);
    assert!(diags.is_empty(), "{:?}", diags);
    let file = file.expect("file");
    let attrs = match &file.decls[0] {
        Decl::State(s) => &s.attrs,
        other => panic!("expected a state, got {:?}", other),
    };
    assert_eq!(attrs.len(), 5);
    match &attrs[0].value {
        PackValue::Call { name, args } => {
            assert_eq!(name.text, "backoff");
            assert_eq!(args.len(), 2);
            assert!(matches!(&args[0], PackValue::Nested(items) if items.len() == 1 && items[0].key.text == "base"
                && matches!(&items[0].value, PackValue::Quantity { value: 10, unit } if unit.text == "ms")));
            assert!(matches!(&args[1], PackValue::Nested(items) if items.len() == 1
                && matches!(items[0].value, PackValue::Int(3))));
        },
        other => panic!("expected a call, got {:?}", other),
    }
    match &attrs[1].value {
        PackValue::List(vs) => {
            let words: Vec<&str> = vs
                .iter()
                .map(|v| match v {
                    PackValue::Word(w) => w.text.as_str(),
                    _ => "?",
                })
                .collect();
            assert_eq!(words, vec!["a", "b", "c"]);
        },
        other => panic!("expected a list, got {:?}", other),
    }
    match &attrs[2].value {
        PackValue::List(vs) => {
            assert_eq!(vs.len(), 2);
            assert!(matches!(&vs[0], PackValue::Path(p) if p.len() == 2 && p[1].text == "b"));
            assert!(matches!(&vs[1], PackValue::Word(w) if w.text == "d"));
        },
        other => panic!("expected a list, got {:?}", other),
    }
    match &attrs[3].value {
        PackValue::Nested(items) => {
            assert_eq!(items.len(), 2);
            assert!(matches!(items[0].value, PackValue::Int(1)));
            assert!(matches!(&items[1].value, PackValue::Str(t) if t == "x"));
            assert_eq!(items[1].span, items[1].key.span);
        },
        other => panic!("expected a nested pack, got {:?}", other),
    }
    assert!(matches!(&attrs[4].value, PackValue::List(vs) if vs.is_empty()));
}

#[test]
fn test_parse_behavior_skips_a_failed_clause() {
    let src = format!("{}behavior b = on Api.create(x) (reads t; requires ; ensures ok(x))\n", HEADER);
    let (file, diags) = parse(&src);
    let file = file.expect("file");
    assert_eq!(diags.len(), 1);
    assert_eq!(diags[0].message, "expected expression, got `;`");
    match &file.decls[0] {
        Decl::Behavior(b) => {
            assert_eq!(b.attrs.len(), 1);
            assert!(matches!(&b.attrs[0].value, PackValue::Word(w) if w.text == "t"));
            assert_eq!(b.clauses.len(), 1);
            assert!(matches!(&b.clauses[0], Clause::Ensures(Pred::Call { name, args }) if name.text == "ok" && args.len() == 1));
        },
        other => panic!("expected a behavior, got {:?}", other),
    }
}

#[test]
fn test_parse_acceptance_skips_a_failed_block() {
    let src = format!("{}acceptance acc = of Api (property = 1, coverage (x))\n", HEADER);
    let (file, diags) = parse(&src);
    let file = file.expect("file");
    assert_eq!(diags.len(), 1);
    assert_eq!(diags[0].severity, Severity::Error);
    match &file.decls[0] {
        Decl::Acceptance(a) => {
            assert_eq!(a.blocks.len(), 1);
            assert!(matches!(&a.blocks[0], AcceptanceBlock::Coverage(names) if names.len() == 1 && names[0].text == "x"));
        },
        other => panic!("expected an acceptance, got {:?}", other),
    }
}

#[test]
fn test_parse_recovery_passes_over_a_group() {
    let src = format!("{}frobnicate (mode X = t)\nmode M = text\n", HEADER);
    let (file, diags) = parse(&src);
    let file = file.expect("file");
    assert_eq!(diags.len(), 1);
    assert_eq!(diags[0].code, "E104");
    assert_eq!(file.decls.len(), 1);
    assert!(matches!(&file.decls[0], Decl::Mode(m) if m.name.text == "M"));
}

#[test]
fn test_parse_mode_forms() {
    let src = format!(
        "{}mode U = union (ok text, err Id,)\nmode R = int..9\nmode S = int(..5)\nmode T = map(text, Id)\nuse std/core @ 1.2 (strict)\n",
        HEADER
    );
    let (file, diags) = parse(&src);
    assert!(diags.is_empty(), "{:?}", diags);
    let file = file.expect("file");
    assert_eq!(file.decls.len(), 5);
    match &file.decls[0] {
        Decl::Mode(m) => assert!(matches!(&m.expr, ModeExpr::Union(vs) if vs.len() == 2 && vs[1].0.text == "err")),
        other => panic!("expected a mode, got {:?}", other),
    }
    match &file.decls[1] {
        Decl::Mode(m) => assert!(matches!(&m.expr, ModeExpr::Refined { lo: None, hi: Some(9), .. })),
        other => panic!("expected a mode, got {:?}", other),
    }
    match &file.decls[2] {
        Decl::Mode(m) => assert!(matches!(&m.expr, ModeExpr::Refined { lo: None, hi: Some(5), .. })),
        other => panic!("expected a mode, got {:?}", other),
    }
    match &file.decls[3] {
        Decl::Mode(m) => assert!(matches!(&m.expr, ModeExpr::Named { name, args } if name.text == "map" && args.len() == 2)),
        other => panic!("expected a mode, got {:?}", other),
    }
    match &file.decls[4] {
        Decl::Use(u) => {
            let path: Vec<&str> = u.path.iter().map(|i| i.text.as_str()).collect();
            assert_eq!(path, vec!["std", "core"]);
            assert_eq!(u.version, "1.2");
            assert_eq!(u.args.len(), 1);
            assert!(matches!(u.args[0].value, PackValue::Unit));
        },
        other => panic!("expected a use, got {:?}", other),
    }
}

#[test]
fn test_parse_clean_spec_reports_nothing() {
    let src = "spec todo = v 0.1 owner me exports Task, Item";
    let (file, diags) = parse(src);
    assert!(diags.is_empty(), "{:?}", diags);
    let file = file.expect("file");
    assert_eq!(file.spec.name.text, "todo");
    assert_eq!(file.spec.span.start, 0);
    assert_eq!(file.spec.span.end, 45);
    assert!(file.decls.is_empty());
}

#[test]
fn test_parse_trailing_export_comma_is_reported() {
    let (file, diags) = parse("spec x = v 0.1 owner o exports a,");
    assert!(file.is_some());
    assert_eq!(diags.len(), 1);
    assert_eq!(diags[0].severity, Severity::Error);
}
