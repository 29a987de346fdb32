//! A closure-to-callback adapter for a native callback interface that stores
//! a single function and argument pair.
//!
//! The adapter owns at most one boxed closure. It decides which requests go
//! to the allocator and to the native layer, and in which order; the caller
//! carries them out. Every registration is known by a token, so that no
//! address ever has to be compared or reused.
//!
//! * [`step`] names the requests.
//! * [`world`] is the mathematical model of the allocator and the native
//!   layer against which the requests are judged.
//! * [`closure`] is the adapter.
//! * [`laws`] states what holds of every sequence of calls.

pub mod closure;
pub mod laws;
pub mod step;
pub mod world;
