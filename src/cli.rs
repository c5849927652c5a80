//! The commands the program understands, as plain values.
use vstd::prelude::*;

verus! {

/// Which address family a command works on.
#[derive(Debug, PartialEq, Eq)]
pub enum IpMode {
    V4(Command),
    V6(Command),
}

/// What to do: generate exercises, or solve one given as text.
#[derive(Debug, PartialEq, Eq)]
pub enum Command {
    Gen { count: u32, max_subnets: u32, min_subnets: u32, min_cidr: u8, max_cidr: u8 },
    Solve { input: String },
}

} // verus!
