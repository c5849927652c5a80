//! Splitting IPv4 and IPv6 networks into equally sized subnets.
//!
//! `word` holds the width-generic bit arithmetic, `net` the address families,
//! addresses and networks built on it, `task` the partitioning of a network,
//! and `cli` the commands of the program as plain values.
pub mod cli;
pub mod word;
pub mod net;
pub mod task;
