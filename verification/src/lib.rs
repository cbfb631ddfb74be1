//! Verified core of a DWARF variable-location toolkit.
//!
//! Two families of operations share the types in this crate:
//!
//! * measuring how well the location descriptions of a function's variables
//!   cover a set of program counters, and comparing two such measurements;
//! * editing the location lists of a function's variables so that a new
//!   location expression takes over a given range of program counters.
//!
//! The functions work on plain values: the entries of a unit as a vector,
//! sections as bytes, scripts and instruction maps as text. Opening object
//! files and writing sections back is the caller's business. Expressions
//! are decoded and built with `gimli`, and code is disassembled with
//! `capstone`; what is taken on trust of them is said where they are called.

pub mod address;
pub mod splice;
pub mod text;
pub mod expr;
pub mod die;
pub mod interval;
pub mod covmap;
pub mod coverage;
pub mod coverage_laws;
pub mod diff;
pub mod tree;
pub mod tree_laws;
pub mod record;
pub mod rewrite;
pub mod insnmap;
pub mod script;
pub mod reloc;
pub mod report;
pub mod evaluate;
pub mod rewriter;
