//! A generic, tree-sitter-based static-analysis framework for authoring
//! multi-language linters.
//!
//! The heart of the library is the analysis engine: a scope-resolution
//! algorithm that turns a flat stream of captured nodes into a nested tree
//! of lexical scopes with resolved definitions and references, an injection
//! pipeline that reparses captured sub-ranges under a second grammar, and a
//! context object that makes both available to lint rules.

pub mod context;
pub mod err;
pub mod harness;
pub mod injection;
pub mod lint;
pub mod linter;
pub mod range;
pub mod report;
pub mod resolver;
pub mod rules;
pub mod rx;
pub mod scope;
pub mod text;
pub mod ts;
