//! Diagnostics: messages with a severity and, where they have one, a place in the source.

use vstd::prelude::*;

use crate::span::Span;

verus! {

/// How serious a diagnostic is.
#[derive(Copy, Clone, Eq, PartialEq, Debug, Structural)]
pub enum Severity {
    Error,
    Warning,
    Note,
}

/// One message for the user, with the place in the source that it is about, if it has one.
#[derive(Clone, Eq, PartialEq, Debug)]
pub struct Diagnostic {
    pub severity: Severity,
    pub message: String,
    pub span: Option<Span>,
}

/// The diagnostics of a run, in the order in which they were recorded. Nothing is ever
/// taken out.
#[derive(Clone, Eq, PartialEq, Debug)]
pub struct Diagnostics {
    items: Vec<Diagnostic>,
}

impl View for Diagnostics {
    type V = Seq<Diagnostic>;

    closed spec fn view(&self) -> Seq<Diagnostic> {
        self.items@
    }
}

/// Whether one of `items` is an error.
pub open spec fn any_error(items: Seq<Diagnostic>) -> bool {
    exists|i: int| 0 <= i < items.len() && (#[trigger] items[i]).severity == Severity::Error
}

impl Diagnostics {
    /// An empty collection.
    #[must_use]
    pub fn new() -> (diagnostics: Diagnostics)
        ensures
            diagnostics@ == Seq::<Diagnostic>::empty(),
    {
        Diagnostics { items: Vec::new() }
    }

    /// Appends `diagnostic`.
    pub fn push(&mut self, diagnostic: Diagnostic)
        ensures
            final(self)@ == old(self)@.push(diagnostic),
    {
        self.items.push(diagnostic);
    }

    /// Whether an error was recorded.
    #[must_use]
    pub fn has_errors(&self) -> (found: bool)
        ensures
            found == any_error(self@),
    {
        let mut i: usize = 0;
        while i < self.items.len()
            invariant
                i <= self.items@.len(),
                forall|j: int|
                    0 <= j < i ==> (#[trigger] self.items@[j]).severity != Severity::Error,
            decreases self.items@.len() - i,
        {
            if self.items[i].severity == Severity::Error {
                return true;
            }
            i += 1;
        }
        false
    }

    /// The diagnostics in the order in which they were recorded.
    pub fn iter(&self) -> (iter: core::slice::Iter<'_, Diagnostic>)
        ensures
            vstd::std_specs::slice::into_iter_elts(iter) == self@,
    {
        let iter = self.items.as_slice().iter();
        iter
    }

    /// How many diagnostics were recorded.
    #[must_use]
    pub fn len(&self) -> (len: usize)
        ensures
            len == self@.len(),
    {
        self.items.len()
    }

    /// Whether nothing was recorded.
    #[must_use]
    pub fn is_empty(&self) -> (empty: bool)
        ensures
            empty <==> self@.len() == 0,
    {
        self.items.len() == 0
    }
}

impl Default for Diagnostics {
    fn default() -> (diagnostics: Diagnostics)
        ensures
            diagnostics@ == Seq::<Diagnostic>::empty(),
    {
        Diagnostics::new()
    }
}

} // verus!
