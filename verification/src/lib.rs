//! Back end of a small compiler: an arena-based intermediate representation,
//! the pass that lowers a statement tree into it, and the emitter that turns
//! it into assembly text for an x86-64 target.
//!
//! - [`ast`]: the statement tree that the pass consumes.
//! - [`source`] and [`diag`]: source text, places in it, and what is said
//!   about them when something is wrong.
//! - [`ir`]: functions, blocks, locals, labels and operations; the rewriting
//!   of operations that the target cannot encode; the emitter.
//! - [`middle`]: the lowering pass.
//! - [`text`]: decimal numbers and padding, as the emitter writes them.

pub mod ast;
pub mod diag;
pub mod ir;
pub mod middle;
pub mod source;
pub mod text;
