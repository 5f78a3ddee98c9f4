//! Dense matrix multiplication under several algorithms: the naive triple
//! loop, a cache-friendly transpose-based variant, and Strassen's recursive
//! divide-and-conquer method, together with the row-major matrix container
//! they operate on and a small wall-clock timer for benchmarking them.
//!
//! Elements are 64-bit integers with two's-complement wrap-around semantics;
//! every multiplication contract pins each result entry to the wrapped dot
//! product of the corresponding row and column.

pub mod arith;
pub mod matrix;
pub mod mult;
pub mod par_mult;
pub mod timer;
