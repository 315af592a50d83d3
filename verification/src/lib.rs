//! A tree-walking interpreter for a shader program's already-parsed
//! intermediate representation.
//!
//! The library evaluates one entry point of a module directly - no code
//! generation, no GPU - so that shader logic can be fed scalar and vector
//! inputs and observed outside a graphics pipeline.  Values are typed
//! byte buffers ([`value`]); variables live in a copy-down scope stack
//! ([`scope`]); expressions and statements are walked recursively
//! ([`interpreter`]), with binary operators applied lane by lane
//! ([`binary`], [`lanes`]).  What each step may produce is stated by the
//! relations in [`expression`] and [`statement`] and by the laws in
//! [`laws`].
//!
//! Floating-point arithmetic, formatting and parsing cannot be carried
//! out here; the interpreter takes them as an injected capability - the
//! [`host`] - whose requests and responses are plain bit patterns and
//! strings, and pins every float result to that host's own contract.

pub mod binary;
pub mod error;
pub mod expression;
pub mod host;
pub mod interpreter;
pub mod ir;
pub mod lanes;
pub mod laws;
pub mod scope;
pub mod statement;
pub mod text;
pub mod value;
