use lib::ast::{Decl, ModeExpr};
use lib::profile::{lookup, ParamDefault};

#[test]
fn test_lookup_hit() {
    let profile = lookup("oddities/profiles/todo_standard", "1.0");
    assert!(profile.is_some());
    let p = profile.unwrap();
    assert_eq!(p.name, "oddities/profiles/todo_standard");
    assert_eq!(p.version, "1.0");
}

#[test]
fn test_lookup_miss() {
    let profile = lookup("unknown/profile", "1.0");
    assert!(profile.is_none());
}

#[test]
fn test_lookup_wrong_version() {
    let profile = lookup("oddities/profiles/todo_standard", "2.0");
    assert!(profile.is_none());
}

#[test]
fn test_params_structure() {
    let profile = lookup("oddities/profiles/todo_standard", "1.0").unwrap();
    assert_eq!(profile.params.len(), 2);
    assert_eq!(profile.params[0].key, "sharing_limit");
    assert_eq!(profile.params[1].key, "identity_provider");
    assert!(matches!(profile.params[0].default, ParamDefault::Required));
    assert!(matches!(profile.params[1].default, ParamDefault::Required));
}

#[test]
fn test_generator_output() {
    let profile = lookup("oddities/profiles/todo_standard", "1.0").unwrap();
    let args = vec![];
    let decls = profile.generate(&args);
    assert_eq!(decls.len(), 4);
    for decl in &decls {
        assert!(matches!(decl, Decl::Mode(_)));
    }
    if let Decl::Mode(mode_decl) = &decls[0] {
        assert_eq!(mode_decl.name.text, "Cursor");
    }
    if let Decl::Mode(mode_decl) = &decls[1] {
        assert_eq!(mode_decl.name.text, "Page");
    }
    if let Decl::Mode(mode_decl) = &decls[2] {
        assert_eq!(mode_decl.name.text, "Membership");
    }
    if let Decl::Mode(mode_decl) = &decls[3] {
        assert_eq!(mode_decl.name.text, "Invitation");
    }
}

fn check_struct_fields(decls: &[Decl], i: usize, what: &str) {
    if let Decl::Mode(mode_decl) = &decls[i] {
        if let ModeExpr::Struct(fields) = &mode_decl.expr {
            assert_eq!(fields.len(), 4);
            assert_eq!(fields[0].name.text, "list");
            assert_eq!(fields[1].name.text, "principal");
            assert_eq!(fields[2].name.text, "role");
            assert_eq!(fields[3].name.text, "version");
        } else {
            panic!("{} should be a struct", what);
        }
    } else {
        panic!("{} should be a Mode declaration", what);
    }
}

#[test]
fn test_membership_struct_fields() {
    let profile = lookup("oddities/profiles/todo_standard", "1.0").unwrap();
    let decls = profile.generate(&[]);
    check_struct_fields(&decls, 2, "Membership");
}

#[test]
fn test_invitation_struct_fields() {
    let profile = lookup("oddities/profiles/todo_standard", "1.0").unwrap();
    let decls = profile.generate(&[]);
    check_struct_fields(&decls, 3, "Invitation");
}

fn check_opaque_text(decls: &[Decl], i: usize, what: &str) {
    if let Decl::Mode(mode_decl) = &decls[i] {
        if let ModeExpr::Opaque(inner) = &mode_decl.expr {
            if let ModeExpr::Named { name, args } = &**inner {
                assert_eq!(name.text, "text");
                assert!(args.is_empty());
            } else {
                panic!("{} inner should be Named", what);
            }
        } else {
            panic!("{} should be Opaque", what);
        }
    } else {
        panic!("{} should be a Mode declaration", what);
    }
}

#[test]
fn test_cursor_opaque() {
    let profile = lookup("oddities/profiles/todo_standard", "1.0").unwrap();
    let decls = profile.generate(&[]);
    check_opaque_text(&decls, 0, "Cursor");
}

#[test]
fn test_page_opaque() {
    let profile = lookup("oddities/profiles/todo_standard", "1.0").unwrap();
    let decls = profile.generate(&[]);
    check_opaque_text(&decls, 1, "Page");
}
