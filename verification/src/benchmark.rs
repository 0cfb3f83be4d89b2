//! The load that the benchmark client sends.
use vstd::prelude::*;
use crate::text::{decimal, push_decimal, push_str};

verus! {

broadcast use vstd::string::group_string_axioms;

/// How many writes the benchmark sends, one connection each.
pub const CONNECTION_COUNT: u64 = 1000;

/// The `i`-th write the benchmark sends: `SET key<i> value<i>` and a line
/// break.
pub fn benchmark_command(i: u64) -> (c: String)
    ensures
        c@ == "SET key"@ + decimal(i as nat) + " value"@ + decimal(i as nat) + "\n"@,
{
    let mut c = String::new();
    push_str(&mut c, "SET key");
    push_decimal(&mut c, i);
    push_str(&mut c, " value");
    push_decimal(&mut c, i);
    push_str(&mut c, "\n");
    assert(c@ =~= "SET key"@ + decimal(i as nat) + " value"@ + decimal(i as nat) + "\n"@);
    c
}

} // verus!
