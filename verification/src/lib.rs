//! The verified core of the `resist` circuit tools: how circuits number
//! their nodes, how a drawn schematic becomes circuit nodes (union-find over
//! wired pins), the editor's block naming and wiring rules, schematic grid
//! geometry, the reading of ResistScript parse trees and of functional
//! source expressions, and the keyword tables and bookkeeping of the
//! ResistScript interpreter.
use vstd::prelude::*;

pub mod nodes;
pub mod dsu;
pub mod sim_state;
pub mod schematic;
pub mod text;
pub mod lexical;
pub mod layout;
pub mod editor;
pub mod ast;
pub mod parser;
pub mod script_tree;
pub mod source_expr;
pub mod interp;
pub mod eval_api;

verus! {
} // verus!
