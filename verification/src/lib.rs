//! Module-level definition and export resolution for the static analysis of Python.
//!
//! Given the statements of a module, `definitions::Definitions::new` records every name
//! bound at module scope, how it was bound and how often, the modules imported by wildcard,
//! and the ordered log of operations on the export list `__all__`. It runs nothing: it
//! reads the shapes of statements, and where it cannot tell it errs on a stated side.
//!
//! - `ast`: the shapes of syntax that the scan reads.
//! - `scan`: what the scan computes, as functions from table to table.
//! - `definitions`: the table, the scan itself, and what enriches the table afterwards.
//! - `bindings`: the definitions as the module's bindings merged one after the other.
//! - `laws`: what holds of every scan.
//! - `module_name`: dotted names and relative imports.
//! - `qname`: names qualified by the place that defines them.
//! - `ordered_map`: the insertion-ordered maps behind the table.
//! - `type_order`: what deciding the subtype relation needs to know of classes.
//! - `text`: source ranges and the order of texts.

pub mod ast;
pub mod bindings;
pub mod definitions;
pub mod laws;
pub mod module_name;
pub mod ordered_map;
pub mod qname;
pub mod scan;
pub mod text;
pub mod type_order;
