//! Signals and effects with automatic dependency tracking.
//!
//! A [`Runtime`] owns signals, which are mutable cells, and effects, which
//! are computations with side effects. While an effect executes, every signal
//! it reads records it as a subscriber; a later write to one of those signals
//! re-runs the effect at once, after dropping what its earlier run had
//! subscribed to. Writes are neither batched nor deferred, and nothing stops
//! an effect that writes a signal it reads from re-running without end.
//!
//! A runtime holds signals of one type `V` and effects of one type `B`, so a
//! [`Signal`] can never meet a value of another type. Every operation takes
//! the runtime as an explicit `&mut` argument, which rules out two accesses
//! to one signal at a time. Signals and effects are never removed.
//!
//! # Layout
//!
//! - [`graph`]: the state of a runtime as a mathematical value, and the steps
//!   that change it.
//! - [`laws`]: what holds of every such state.
//! - [`slots`]: slot storage from the `slotmap` crate, behind contracts that
//!   are taken on trust.
//! - [`store`]: the tables of a runtime and the single steps on them, each
//!   with the step of the model that it performs.
//! - [`runtime`]: the runtime itself, which calls effect bodies. Its state is
//!   well formed by a type invariant, so nothing has to be assumed of a body.
//!   An operation that runs bodies says which bodies it runs, on what, in
//!   what order, and what it makes of what they hand back.
//! - [`signal`]: the handles through which signals are read and written. A
//!   handle is a bare id and belongs with the runtime that made it.

pub mod graph;
pub mod laws;
pub mod runtime;
pub mod signal;
pub mod slots;
pub mod store;

pub use graph::{Graph, Step};
pub use runtime::{Effect, Runtime};
pub use signal::Signal;
