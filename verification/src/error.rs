//! The diagnostic sink: records lexical errors as values.
//!
//! The scanner reports malformed input here and continues, so that one
//! scan surfaces every lexical error.  Displaying the recorded
//! diagnostics is the caller's concern.

use vstd::prelude::*;

verus! {

/// One recorded lexical error: the 1-based source line at which it was
/// reported, and a human-readable message.
#[derive(Debug, Clone, PartialEq)]
pub struct Diagnostic {
    pub line: usize,
    pub message: String,
}

/// The mathematical value of a `Diagnostic`.
pub struct SpecDiagnostic {
    pub line: int,
    pub message: Seq<char>,
}

impl View for Diagnostic {
    type V = SpecDiagnostic;

    open spec fn view(&self) -> SpecDiagnostic {
        SpecDiagnostic { line: self.line as int, message: self.message@ }
    }
}

/// The mathematical values of a sequence of diagnostics, element-wise.
pub open spec fn diag_views(ds: Seq<Diagnostic>) -> Seq<SpecDiagnostic> {
    ds.map_values(|d: Diagnostic| d@)
}

pub proof fn lemma_diag_views_push(ds: Seq<Diagnostic>, d: Diagnostic)
    ensures
        diag_views(ds.push(d)) == diag_views(ds).push(d@),
{
    assert(diag_views(ds.push(d)) =~= diag_views(ds).push(d@));
}

/// Accumulates error state across one scan.  The error flag records
/// whether any diagnostic was ever reported; `reset` clears the flag
/// between independent scans.
pub struct ErrorReporter {
    pub had_error: bool,
    pub diagnostics: Vec<Diagnostic>,
}

impl ErrorReporter {
    pub fn new() -> (r: Self)
        ensures
            !r.had_error,
            r.diagnostics@.len() == 0,
    {
        Self { had_error: false, diagnostics: Vec::new() }
    }

    /// Records one error at the given line and sets the error flag.
    pub fn error(&mut self, line: usize, message: &str)
        ensures
            final(self).had_error,
            diag_views(final(self).diagnostics@) == diag_views(old(self).diagnostics@).push(
                SpecDiagnostic { line: line as int, message: message@ },
            ),
    {
        let d = Diagnostic { line, message: String::from_str(message) };
        proof {
            lemma_diag_views_push(self.diagnostics@, d);
        }
        self.diagnostics.push(d);
        self.had_error = true;
    }

    pub fn had_error(&self) -> (r: bool)
        ensures
            r == self.had_error,
    {
        self.had_error
    }

    /// Clears the error flag; the recorded diagnostics are kept.
    pub fn reset(&mut self)
        ensures
            !final(self).had_error,
            final(self).diagnostics == old(self).diagnostics,
    {
        if self.had_error {
            self.had_error = false;
        }
    }
}

} // verus!
