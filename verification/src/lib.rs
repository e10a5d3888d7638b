//! A documentation model for parsed C++ symbol trees.
//!
//! Given an already-parsed set of translation units, described by plain data
//! (see [`ast`]), this crate classifies and deduplicates declarations into a
//! namespace tree, resolves documentation URLs (including redirects to
//! external references), computes reverse relationships such as "who derives
//! from X", rewrites free-text mentions of known symbol names into links, and
//! plans the per-node render tasks whose results an orchestrator aggregates.

pub mod ast;
pub mod autolink;
pub mod orchestrator;
pub mod config;
pub mod entries;
pub mod html;
pub mod namespace;
pub mod nav;
pub mod process;
pub mod resolver;
pub mod text;
pub mod url;
pub mod xref;
