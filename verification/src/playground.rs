//! The two fixed texts that a host page shows: a greeting and a sample
//! program.
use vstd::prelude::*;
use vstd::string::to_string_from_display_ensures_for_str;

verus! {

/// The greeting.
pub const GREETING: &'static str = "Hello, World from Rust via WebAssembly!";

/// The source text of the sample program, three lines without a final line
/// break.
pub const SAMPLE_CODE: &'static str =
    "fn main() {\n    println!(\"Hello, World from Rust via WebAssembly!\");\n}";

/// A fresh copy of the greeting.
pub fn run_hello_world() -> (text: String)
    ensures
        text@ == GREETING@,
{
    broadcast use to_string_from_display_ensures_for_str;

    GREETING.to_string()
}

/// A fresh copy of the sample program's source text.
pub fn get_sample_code() -> (text: String)
    ensures
        text@ == SAMPLE_CODE@,
{
    broadcast use to_string_from_display_ensures_for_str;

    SAMPLE_CODE.to_string()
}

} // verus!
