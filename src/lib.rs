//! Lexical front end of a small scripting language: a byte scanner that yields
//! classified tokens or the full set of lexical errors, and lazily resolved
//! diagnostic locations with rendered source snippets.
pub mod ast;
pub mod consts;
pub mod loc;
pub mod prompt;
pub mod scanner;
pub mod src;
pub mod token;
pub mod utils;

use vstd::prelude::*;
use crate::consts::exitcode;
use crate::consts::tag::ERROR;
use crate::scanner::{scan, scan_from};
use crate::src::{ResolveSnippet, SnippetResolver};

verus! {

/// `std::io::Error`, carried as an opaque value.
#[verifier::external_type_specification]
#[verifier::external_body]
pub struct ExIoError(std::io::Error);

/// A failure of a run: reading the input, or the lexical errors found in it.
#[derive(Debug)]
pub enum Error {
    Io(std::io::Error),
    Scanner(Vec<scanner::Error>),
}

impl Error {
    /// The process exit status for this failure.
    pub fn exit_code(&self) -> (r: i32)
        ensures
            r == match *self {
                Error::Io(_) => exitcode::IO_ERR,
                Error::Scanner(_) => exitcode::SCANNER_ERR,
            },
    {
        match self {
            Error::Io(_) => exitcode::IO_ERR,
            Error::Scanner(_) => exitcode::SCANNER_ERR,
        }
    }
}

/// The messages of `es`, each followed by a line feed.
pub open spec fn messages(es: Seq<scanner::Error>) -> Seq<char>
    decreases es.len(),
{
    if es.len() == 0 {
        Seq::empty()
    } else {
        messages(es.drop_last()) + es.last().message_text() + "\n"@
    }
}

/// Relies on the `Display` of `std::io::Error`, which describes the failure in
/// words that depend on the platform.
#[verifier::external_body]
fn describe_io_error(e: &std::io::Error) -> String {
    e.to_string()
}

impl Error {
    /// The message shown for this failure: the tag and the cause of an I/O
    /// failure, or the message of every lexical error.
    pub fn message(&self) -> (r: String)
        ensures
            self is Io ==> exists|cause: Seq<char>| r@ == ERROR@ + ": "@ + cause + "\n"@,
            self is Scanner ==> r@ == messages(self->Scanner_0@),
    {
        match self {
            Error::Io(e) => {
                let mut s = String::new();
                s.append(ERROR);
                s.append(": ");
                let cause = describe_io_error(e);
                s.append(cause.as_str());
                s.append("\n");
                assert(s@ == ERROR@ + ": "@ + cause@ + "\n"@);
                s
            },
            Error::Scanner(es) => {
                let mut s = String::new();
                let mut i: usize = 0;
                while i < es.len()
                    invariant
                        i <= es@.len(),
                        s@ == messages(es@.subrange(0, i as int)),
                    decreases es@.len() - i,
                {
                    let m = es[i].message();
                    s.append(m.as_str());
                    s.append("\n");
                    proof {
                        let next = es@.subrange(0, i + 1);
                        assert(next.drop_last() =~= es@.subrange(0, i as int));
                    }
                    i = i + 1;
                }
                assert(es@.subrange(0, es@.len() as int) =~= es@);
                s
            },
        }
    }
}

/// The command line: an optional script to run.
#[derive(Debug, Clone, PartialEq)]
pub struct Args {
    pub filename: Option<String>,
}

/// The interpreter's front end, as configured by its command line.
pub struct Lox {
    pub args: Args,
}

impl Lox {
    pub fn new(args: Args) -> (r: Self)
        ensures
            r.args == args,
    {
        Lox { args }
    }

    /// The program's name.
    pub fn name() -> (r: &'static str)
        ensures
            r@ == "qlox"@,
    {
        "qlox"
    }

    /// The program's version.
    pub fn version() -> (r: &'static str)
        ensures
            r@ == "0.1.0"@,
    {
        "0.1.0"
    }

    /// Scans `source`; where that fails, every error comes back with its
    /// snippet resolved against `source`.
    pub fn run(&self, source: &[u8]) -> (r: Result<(), Error>)
        ensures
            r is Ok <==> scan_from(source@, 0).1.len() == 0,
            r is Err ==> match r->Err_0 {
                Error::Scanner(es) => {
                    let found = scan_from(source@, 0).1;
                    &&& es@.len() == found.len()
                    &&& forall|i: int|
                        0 <= i < found.len() ==> #[trigger] found[i].resolved_into(es@[i], source@)
                },
                _ => false,
            },
    {
        // A slice's length fits in `usize`.
        let _ = source.len();
        let resolver = SnippetResolver::new(source);
        let scanned = scan(source);
        proof {
            scanner::lemma_errors_in_order(source@, scanned);
        }
        match scanned {
            Ok(_) => Ok(()),
            Err(errors) => Err(Error::Scanner(resolver.resolve(errors))),
        }
    }
}

} // verus!
