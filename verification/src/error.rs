//! Diagnostics reported during resolution.
//!
//! Errors are collected in an explicit sink owned by the caller that runs the
//! pipeline; one resolution run appends to it and the caller drains it at the
//! end. Each error renders as one line of the form `E<4-digit code> <message>`.

use vstd::prelude::*;
use vstd::string::*;

verus! {

/// A recoverable diagnostic.
pub enum Error {
    /// A reference to an identifier with no local binding and no namespace
    /// entry.
    UndefinedName(String),
}

/// The rendered line of an undefined-name diagnostic.
pub open spec fn undefined_line(name: Seq<char>) -> Seq<char> {
    "E0001 Undefined name: "@ + name
}

impl Error {
    /// The rendered one-line message of this error.
    pub open spec fn line_of(self) -> Seq<char> {
        match self {
            Error::UndefinedName(name) => undefined_line(name@),
        }
    }

    /// Renders the error as its one-line message.
    pub fn render(&self) -> (r: String)
        ensures
            r@ == self.line_of(),
    {
        match self {
            Error::UndefinedName(name) => {
                let mut s = "E0001 Undefined name: ".to_owned();
                s.append(name.as_str());
                s
            },
        }
    }
}

/// Appends one rendered error line to the sink.
pub fn report_error(errors: &mut Vec<String>, error: Error)
    ensures
        final(errors).deep_view() == old(errors).deep_view().push(error.line_of()),
{
    let line = error.render();
    errors.push(line);
    proof {
        assert(errors.deep_view() =~= old(errors).deep_view().push(error.line_of()));
    }
}

} // verus!
