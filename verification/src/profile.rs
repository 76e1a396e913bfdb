//! Built-in semantic profiles: versioned declaration generators that a
//! `use` declaration imports by name.
use vstd::prelude::*;
use crate::ast::{Decl, Field, Ident, ModeDecl, ModeExpr};
use crate::sexpr::Sexpr;
use crate::span::Span;
use crate::text::{owned, str_eq};

verus! {

/// A parameter default value for a profile.
#[derive(Debug, PartialEq)]
pub enum ParamDefault {
    /// Parameter is required; no default.
    Required,
    /// Parameter has a default value.
    Value(Sexpr),
}

/// A parameter definition for a profile.
#[derive(Debug)]
pub struct Param {
    /// Parameter key name.
    pub key: &'static str,
    /// Default value or required.
    pub default: ParamDefault,
}

/// Which built-in generator a profile runs.
#[derive(Debug, Clone, Copy, PartialEq, Eq, Structural)]
pub enum Generator {
    /// `oddities/profiles/todo_standard` 1.0.
    TodoStandard,
}

/// A resolved profile: name, version, parameters, and its generator.
#[derive(Debug)]
pub struct Profile {
    /// Profile name (e.g., "oddities/profiles/todo_standard").
    pub name: &'static str,
    /// Profile version (e.g., "1.0").
    pub version: &'static str,
    /// Parameter definitions.
    pub params: Vec<Param>,
    /// The generator that produces declarations from validated args.
    pub generator: Generator,
}

pub open spec fn zero_span() -> Span {
    Span { start: 0, end: 0 }
}

/// An identifier with the given text and no source location.
pub open spec fn generated_ident(i: Ident, text: Seq<char>) -> bool {
    i.text@ == text && i.span == zero_span()
}

/// `Named { name, args: [] }` with the given name.
pub open spec fn is_named(e: ModeExpr, name: Seq<char>) -> bool {
    match e {
        ModeExpr::Named { name: n, args } => generated_ident(n, name) && args@.len() == 0,
        _ => false,
    }
}

/// `mode <name> = opaque text`.
pub open spec fn is_opaque_text_mode(d: Decl, name: Seq<char>) -> bool {
    match d {
        Decl::Mode(m) => {
            &&& generated_ident(m.name, name)
            &&& m.span == zero_span()
            &&& match m.expr {
                ModeExpr::Opaque(inner) => is_named(*inner, "text"@),
                _ => false,
            }
        },
        _ => false,
    }
}

pub open spec fn is_field(f: Field, mode: Seq<char>, name: Seq<char>) -> bool {
    is_named(f.mode, mode) && generated_ident(f.name, name)
}

/// `mode <name> = struct (ListId list, UserId principal, Role role, Version version)`.
pub open spec fn is_grant_struct_mode(d: Decl, name: Seq<char>) -> bool {
    match d {
        Decl::Mode(m) => {
            &&& generated_ident(m.name, name)
            &&& m.span == zero_span()
            &&& match m.expr {
                ModeExpr::Struct(fs) => {
                    &&& fs@.len() == 4
                    &&& is_field(fs@[0], "ListId"@, "list"@)
                    &&& is_field(fs@[1], "UserId"@, "principal"@)
                    &&& is_field(fs@[2], "Role"@, "role"@)
                    &&& is_field(fs@[3], "Version"@, "version"@)
                },
                _ => false,
            }
        },
        _ => false,
    }
}

/// The declarations `todo_standard` generates: `Cursor` and `Page` as
/// opaque text, `Membership` and `Invitation` as grant structs.
pub open spec fn todo_standard_decls(ds: Seq<Decl>) -> bool {
    &&& ds.len() == 4
    &&& is_opaque_text_mode(ds[0], "Cursor"@)
    &&& is_opaque_text_mode(ds[1], "Page"@)
    &&& is_grant_struct_mode(ds[2], "Membership"@)
    &&& is_grant_struct_mode(ds[3], "Invitation"@)
}

fn ident(text: &str) -> (r: Ident)
    ensures
        generated_ident(r, text@),
{
    Ident { text: owned(text), span: Span { start: 0, end: 0 } }
}

fn named(name: &str) -> (r: ModeExpr)
    ensures
        is_named(r, name@),
{
    ModeExpr::Named { name: ident(name), args: Vec::new() }
}

fn opaque_text_mode(name: &str) -> (r: Decl)
    ensures
        is_opaque_text_mode(r, name@),
{
    Decl::Mode(ModeDecl { name: ident(name), expr: ModeExpr::Opaque(Box::new(named("text"))), span: Span { start: 0, end: 0 } })
}

fn field(mode: &str, name: &str) -> (r: Field)
    ensures
        is_field(r, mode@, name@),
{
    Field { mode: named(mode), name: ident(name) }
}

fn grant_struct_mode(name: &str) -> (r: Decl)
    ensures
        is_grant_struct_mode(r, name@),
{
    let fields = vec![
        field("ListId", "list"),
        field("UserId", "principal"),
        field("Role", "role"),
        field("Version", "version"),
    ];
    Decl::Mode(ModeDecl { name: ident(name), expr: ModeExpr::Struct(fields), span: Span { start: 0, end: 0 } })
}

/// Generate declarations for the todo_standard profile: four mode
/// declarations, Cursor, Page, Membership, Invitation.
pub fn generate_todo_standard(_args: &[(String, Sexpr)]) -> (r: Vec<Decl>)
    ensures
        todo_standard_decls(r@),
{
    vec![
        opaque_text_mode("Cursor"),
        opaque_text_mode("Page"),
        grant_struct_mode("Membership"),
        grant_struct_mode("Invitation"),
    ]
}

impl Profile {
    /// Run the profile's generator over validated arguments.
    pub fn generate(&self, args: &[(String, Sexpr)]) -> (r: Vec<Decl>)
        ensures
            self.generator == Generator::TodoStandard ==> todo_standard_decls(r@),
    {
        match self.generator {
            Generator::TodoStandard => generate_todo_standard(args),
        }
    }
}

/// Look up a built-in profile by (name, version); `None` if not found.
/// The one built-in profile is `oddities/profiles/todo_standard` 1.0,
/// with two required parameters, `sharing_limit` and `identity_provider`.
pub fn lookup(name: &str, version: &str) -> (r: Option<Profile>)
    ensures
        r is Some <==> (name@ == "oddities/profiles/todo_standard"@ && version@ == "1.0"@),
        r matches Some(p) ==> {
            &&& p.name@ == "oddities/profiles/todo_standard"@
            &&& p.version@ == "1.0"@
            &&& p.generator == Generator::TodoStandard
            &&& p.params@.len() == 2
            &&& p.params@[0].key@ == "sharing_limit"@
            &&& p.params@[0].default == ParamDefault::Required
            &&& p.params@[1].key@ == "identity_provider"@
            &&& p.params@[1].default == ParamDefault::Required
        },
{
    if str_eq(name, "oddities/profiles/todo_standard") && str_eq(version, "1.0") {
        Some(Profile {
            name: "oddities/profiles/todo_standard",
            version: "1.0",
            params: vec![
                Param { key: "sharing_limit", default: ParamDefault::Required },
                Param { key: "identity_provider", default: ParamDefault::Required },
            ],
            generator: Generator::TodoStandard,
        })
    } else {
        None
    }
}

} // verus!
