//! Fixed values shared by the library and the shell around it.
pub mod exitcode;
pub mod tag;
