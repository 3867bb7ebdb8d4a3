//! A semantic-layer query-rewriting engine.
//!
//! The library accepts a declarative virtual data model (a [`manifest::Manifest`]
//! of models, views and row-level access rules over physical tables), validates
//! it, derives its reference graph, and rewrites queries written against the
//! virtual model into queries against the physical tables: view references are
//! expanded into their defining subqueries and access-control predicates are
//! injected into scans of their target models.

pub mod analyze;
pub mod cache;
pub mod error;
pub mod expand;
pub mod hashing;
pub mod lineage;
pub mod manifest;
pub mod parser;
pub mod pipeline;
pub mod plan;
pub mod profiling;
pub mod text;
pub mod validator;
