//! A deterministic fixed-point and integer arithmetic kernel, instrumented
//! so that the resource cost of each primitive can be measured in isolation.
//!
//! The library offers:
//! - floor square roots of 64-bit and 128-bit unsigned integers;
//! - a non-negative fixed-point decimal type with checked arithmetic,
//!   a widened multiply-then-divide, and a Newton-iteration square root;
//! - decoding of the tagged request format that selects one primitive,
//!   execution of that primitive, and the corrected-cost arithmetic of the
//!   measurement harness.
//!
//! Reading the remaining resource budget, emitting log lines, and the
//! floating-point baseline primitives belong to the host shell around this
//! library; the library itself is pure and fully verified.

pub mod error;
pub mod instruction;
pub mod integer_sqrt;
pub mod precise_number;
pub mod processor;
mod wide;
