//! Core of a managed ECMAScript engine: the heap object model with a
//! compacting mark-and-sweep collector, the Array exotic object's internal
//! method protocol over packed element storage, the bytecode-level iteration
//! protocol, and the `eval` declaration-instantiation preamble.
//!
//! Values, property keys and heap records are modelled as plain data; handles
//! are arena indices. Operations that would re-enter user script code (a
//! getter, an iterator's `next` method) stop at a `TryResult::Break` so that
//! the surrounding host can perform the call and hand the result back.

pub mod agent;
pub mod array;
pub mod elements;
pub mod env;
pub mod eval;
pub mod gc;
pub mod global;
pub mod heap;
pub mod iterator;
pub mod object;
pub mod strconv;
pub mod value;
