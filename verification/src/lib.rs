pub mod text;
pub mod sexpr;
pub mod sexpr_parse;
pub mod order;
pub mod fingerprint;
pub mod span;
pub mod diag;
pub mod ir;
pub mod ast;
pub mod profile;
pub mod plan;
pub mod platform;
pub mod candidate;
pub mod transition;
pub mod prompt;
pub mod cache;
pub mod recipe;
pub mod lexer;
pub mod verify;
pub mod check;
pub mod assembly;
pub mod runner;
pub mod adequacy;
pub mod parser;
