//! Error chains that record where a failure passed through the call graph,
//! and the generation-time engine that instruments propagation points so
//! that they record it.
//!
//! * [`chain`]: the run-time model, an [`Error`] made of a root cause and an
//!   append-only sequence of frames, and its rendering as text.
//! * [`directive`]: the parser of the override list that a directive carries.
//! * [`capture`]: the resolution of a function's parameters and the overrides
//!   into the ordered list of captures.
//! * [`rewrite`]: what a propagation point is replaced with, in both modes.
//! * [`text`]: decimal numbers and string literals as text.
//! * [`laws`]: properties of the above that relate several functions.
//!
//! Texts of the host language are read by syn and proc-macro2. The library
//! is built without their `proc-macro` feature, so that they lex by
//! themselves in every process; a build that turns the feature on hands
//! lexing to the compiler inside a macro expansion, and what the library
//! states of these readings then holds of that lexer only as far as the two
//! agree.

pub mod capture;
pub mod chain;
pub mod directive;
pub mod laws;
pub mod rewrite;
pub mod text;

pub use capture::{collect_args, Capture, Param};
pub use chain::{render, Context, Error};
pub use directive::{ArgsReplace, Override, OverrideEntry, ParseError, ParseErrorKind, Token};
pub use rewrite::{
    chain_err, error, walk_enters, ChainErr, FnItem, ImplItem, Item, Node, PushContext, Rejected,
};
