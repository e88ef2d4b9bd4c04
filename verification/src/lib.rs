//! Small arithmetic routines on machine integers and two fixed texts, each
//! with a contract over the mathematical integers or the exact characters.
//!
//! - [`calculator`]: addition, subtraction, multiplication, truncating
//!   division, powers and the sum of a slice, on `i32`.
//! - [`hello`]: addition on `i32` and the factorial on `u32`.
//! - [`playground`]: a greeting and a sample program's source text.
//! - [`wrap`]: what it means for a 32-bit result to wrap.
//!
//! Overflow never stops an operation: a result that does not fit is the exact
//! mathematical result reduced into the range of its type, as the machine's
//! own wrapping arithmetic does. Every contract states that wrapped result,
//! and the exact result where it fits. The one input that is not accepted is
//! a zero divisor.
pub mod calculator;
pub mod hello;
pub mod playground;
pub mod wrap;
