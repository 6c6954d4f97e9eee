//! An in-memory system-table catalog and a `SHOW CREATE TABLE` renderer.
//!
//! The catalog side is a registry of built-in tables, built once and then
//! shared read-only behind the schema/catalog lookup operations. The DDL
//! side deterministically renders a table's metadata back into `CREATE
//! TABLE` SQL text and wraps it as a one-row result set.
pub mod metadata;
pub mod show_create;
pub mod system_tables;
pub mod text;
