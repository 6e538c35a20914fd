//! A typestate-checked annotation store for compiler pipelines.
//!
//! The crate has two halves. The relation half ([`relation`], [`generator`])
//! defines, for every history of recorded marker kinds and every kind, a
//! membership verdict — the kind is `Present` in the history or `Absent`
//! from it. The store half ([`node`]) wraps an opaque payload together with a
//! kind-to-value mapping, gated by the history of checked insertions; every
//! gated operation carries its membership precondition as a `requires`
//! clause, so a misuse is rejected when the caller is verified, and the
//! `try_` variants report the same violation as a recoverable error at run
//! time. [`marks`] walks a small phase-tracked node through legal chains of
//! transitions.

pub mod ast;
pub mod generator;
pub mod marks;
pub mod node;
pub mod relation;
