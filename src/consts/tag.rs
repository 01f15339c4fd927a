//! Message tags.
use vstd::prelude::*;

verus! {

/// `error` in bold red, for terminals.
pub const ERROR: &'static str = "\x1b[1;31merror\x1b[0m";

} // verus!
