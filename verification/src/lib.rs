//! Core of an L-system renderer: a textual grammar for describing L-systems,
//! a rewriting engine that expands an axiom under production rules, and a
//! turtle-graphics interpreter that walks the expanded symbol sequence and
//! emits abstract vector-drawing primitives for an external renderer.

pub mod draw;
pub mod examples;
pub mod l_system;
pub mod laws;
pub mod num;
pub mod parser;
pub mod stream;
pub mod turtle;
