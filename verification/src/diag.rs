//! Diagnostics policy: informational and warning lines respect `--quiet`;
//! only hard errors are reported unconditionally.  The library decides what
//! a line says and whether it is shown; the program prints it to stderr.

use vstd::prelude::*;

use crate::text::{push_str, string_from_chars};

verus! {

/// The diagnostics handle threaded through a run.
#[derive(Debug, Clone, Copy)]
pub struct Diag {
    quiet: bool,
}

impl Diag {
    /// Whether informational and warning lines are suppressed.
    pub closed spec fn is_quiet(&self) -> bool {
        self.quiet
    }

    pub fn new(quiet: bool) -> (r: Self)
        ensures
            r.is_quiet() == quiet,
    {
        Diag { quiet }
    }

    /// The line a warning prints: a condition worth telling the user about
    /// that does not invalidate the output.  Suppressed by `--quiet`.
    pub fn warn(&self, msg: &str) -> (r: Option<String>)
        ensures
            self.is_quiet() ==> r is None,
            !self.is_quiet() ==> (r matches Some(l) && l@ == "gloam: warning: "@ + msg@),
    {
        if self.quiet {
            None
        } else {
            let mut l: Vec<char> = Vec::new();
            push_str(&mut l, "gloam: warning: ");
            push_str(&mut l, msg);
            Some(string_from_chars(l.as_slice()))
        }
    }

    /// The line a progress or status message prints.  Suppressed by
    /// `--quiet`.
    pub fn info(&self, msg: &str) -> (r: Option<String>)
        ensures
            self.is_quiet() ==> r is None,
            !self.is_quiet() ==> (r matches Some(l) && l@ == "gloam: "@ + msg@),
    {
        if self.quiet {
            None
        } else {
            let mut l: Vec<char> = Vec::new();
            push_str(&mut l, "gloam: ");
            push_str(&mut l, msg);
            Some(string_from_chars(l.as_slice()))
        }
    }
}

} // verus!
