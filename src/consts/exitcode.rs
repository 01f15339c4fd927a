//! Process exit statuses, one per class of failure.
use vstd::prelude::*;

verus! {

pub const OK: i32 = 0;

pub const GENERIC_ERR: i32 = 1;

/// The status that clap uses for a usage error.
pub const USAGE_ERR: i32 = 2;

pub const IO_ERR: i32 = 3;

pub const SCANNER_ERR: i32 = 50;

} // verus!
