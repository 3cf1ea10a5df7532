//! Semantic front end for a small compiler: a tagged-tree syntax
//! representation, two-pass name resolution over nested namespaces, and a
//! lowering transform that rewrites resolved references and assigns node
//! identities.

pub mod ast;
pub mod bui;
pub mod context;
pub mod def;
pub mod error;
pub mod hil;
pub mod lower;
pub mod resolve;
pub mod s_expr;
pub mod t;
