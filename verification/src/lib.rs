//! A small expression language in the manner of CEL: texts are read into
//! trees, and trees are evaluated to values.
//!
//! [`parse`] reads a text by the grammar of the module `grammar`, and
//! [`evaluate`] evaluates a tree by the rules of the module `semantics`. Both
//! are total: every text and every tree gives a result or a failure that says
//! why there is none.
//!
//! The library holds floating-point numbers but does not compute with them.
//! An evaluation that comes to a floating-point computation stops with a
//! request that names it; the host computes it and puts the answer in place
//! with `floats::resolve`. The module `laws` shows that answering the
//! requests one by one comes to an end and gives the value.
//!
//! `printer::print` writes a tree as a text of the language, and the module
//! `roundtrip` shows that the text of every tree that was read reads as the
//! same tree. The module `whitespace` shows that white space around a text
//! changes neither its tree nor the kind of its rejection.
pub mod errors;
pub mod floats;
pub mod grammar;
pub mod interpreter;
pub mod laws;
pub mod lexical;
pub mod model;
pub mod parsers;
pub mod printer;
pub mod roundtrip;
pub mod semantics;
pub mod text;
pub mod values;
pub mod whitespace;

pub use crate::interpreter::evaluate;
pub use crate::parsers::parse;
