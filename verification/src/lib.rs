//! Declarative operational TBox: the spec model, its validation, the class
//! expression grammar, and the axioms that the spec denotes.

pub mod spec;
pub mod class_expr;
pub mod text;
pub mod tbox;
pub mod owl;
pub mod laws;
