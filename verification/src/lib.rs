//! Interpreter for a compact, stack-based, array-oriented language whose
//! source text is written over a fixed 256-glyph alphabet: a bijective
//! codec between glyphs and byte codes, a tokenizer that builds a forest
//! of nested quoted blocks, and a stack-machine evaluator over
//! arbitrary-precision integers and nested lists, with elementwise
//! broadcasting and map/fold combinators.

pub mod atom;
pub mod codec;
pub mod eval;
pub mod bignum;
pub mod token;
