use vstd::prelude::*;

use crate::types::LexError;

verus! {

/// One reported problem: the line it was found on and what it is.
pub struct Diagnostic {
    pub line: usize,
    pub message: String,
}

impl View for Diagnostic {
    type V = (nat, Seq<char>);

    open spec fn view(&self) -> (nat, Seq<char>) {
        (self.line as nat, self.message@)
    }
}

/// Collects the diagnostics of a run and remembers whether any was made.
pub struct Lox {
    had_error: bool,
    diagnostics: Vec<Diagnostic>,
}

/// The `(line, message)` pairs that the given diagnostics are reported as.
pub open spec fn reports_of(ds: Seq<(nat, LexError)>) -> Seq<(nat, Seq<char>)> {
    ds.map_values(|d: (nat, LexError)| { let (line, e) = d; (line, e.spec_message()) })
}

impl Lox {
    /// The `(line, message)` pairs reported so far, oldest first.
    pub closed spec fn reports(&self) -> Seq<(nat, Seq<char>)> {
        self.diagnostics@.map_values(|d: Diagnostic| d@)
    }

    /// Whether an error was reported since the flag was last cleared.
    pub closed spec fn flagged(&self) -> bool {
        self.had_error
    }

    pub fn new() -> (r: Lox)
        ensures
            r.reports() == Seq::<(nat, Seq<char>)>::empty(),
            !r.flagged(),
    {
        let r = Lox { had_error: false, diagnostics: Vec::new() };
        assert(r.reports() =~= Seq::<(nat, Seq<char>)>::empty());
        r
    }

    /// Records an error found on line `line_number`.
    pub fn error(&mut self, line_number: usize, message: &str)
        ensures
            final(self).reports() == old(self).reports().push((line_number as nat, message@)),
            final(self).flagged(),
    {
        self.diagnostics.push(Diagnostic { line: line_number, message: message.to_owned() });
        self.had_error = true;
        assert(self.reports() =~= old(self).reports().push((line_number as nat, message@)));
    }

    pub fn had_error(&self) -> (r: bool)
        ensures
            r == self.flagged(),
    {
        self.had_error
    }

    /// Clears the error flag; the recorded diagnostics stay.
    pub fn clear_error(&mut self)
        ensures
            final(self).reports() == old(self).reports(),
            !final(self).flagged(),
    {
        self.had_error = false;
    }

    /// The diagnostics reported so far, oldest first.
    pub fn diagnostics(&self) -> (r: &Vec<Diagnostic>)
        ensures
            r@.map_values(|d: Diagnostic| d@) == self.reports(),
    {
        &self.diagnostics
    }
}

} // verus!
