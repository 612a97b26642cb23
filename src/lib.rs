//! The value and heap layer of a small, deterministic configuration
//! language: value handles, a mutable arena per evaluation with a compacting
//! collection pass, an append-only frozen heap, the freeze that turns a live
//! object graph into a frozen one, and typed handles over complex values.

pub mod value;
pub mod frozen;
pub mod heap;
pub mod reach;
pub mod freeze;
pub mod trace;
pub mod complex;
pub mod laws;
pub mod text;
pub mod as_type;
pub mod module;
