//! Diagnostics: the error taxonomy of the type-checking pass, source spans,
//! and the sink that accumulates reported errors without aborting the pass.

use crate::ty::{Symbol, TypeRef};
use vstd::prelude::*;

verus! {

/// The errors this core can report.
///
/// The first four are user-facing and are accumulated by a [`Diagnostics`]
/// sink while checking continues. `UnresolvedNameInvariantViolation` is
/// internal and fatal: it means a placeholder that the resolver was required
/// to fill was observed unfilled, a bug in the core's caller rather than a
/// user mistake.
#[derive(Clone, Copy, PartialEq, Eq, Structural, Debug)]
pub enum TypeError {
    /// The same name was declared twice within one mutually recursive batch.
    DuplicateDeclaration(Symbol),
    /// A name reference has no binding in any enclosing scope.
    UnknownType(Symbol),
    /// A pure-alias chain returns to itself with no record/array indirection.
    IllegalCycle(Symbol),
    /// Two types required to agree are incompatible: the expected and the
    /// found type, both as resolved handles addressable through
    /// [`crate::table::TypeTable::resolve`].
    TypeMismatch(TypeRef, TypeRef),
    /// Internal/fatal: a never-filled placeholder reached the unifier.
    UnresolvedNameInvariantViolation,
}

/// A source region, byte offsets of its start and end.
#[derive(Clone, Copy, PartialEq, Eq, Structural, Debug)]
pub struct Span {
    pub lo: usize,
    pub hi: usize,
}

/// One accumulated report: an error and the offending source region.
#[derive(Clone, Copy, PartialEq, Eq, Structural, Debug)]
pub struct Diagnostic {
    pub error: TypeError,
    pub span: Span,
}

/// The ordered sequence of diagnostics reported so far. Reports are only ever
/// appended, so the order of discovery is the order of the sequence.
pub struct Diagnostics {
    items: Vec<Diagnostic>,
}

impl View for Diagnostics {
    type V = Seq<Diagnostic>;

    closed spec fn view(&self) -> Seq<Diagnostic> {
        self.items@
    }
}

impl Diagnostics {
    /// An empty sink.
    pub fn new() -> (d: Diagnostics)
        ensures
            d@ == Seq::<Diagnostic>::empty(),
    {
        Diagnostics { items: Vec::new() }
    }

    /// Appends one report; everything reported before stays in place.
    pub fn report(&mut self, error: TypeError, span: Span)
        ensures
            final(self)@ == old(self)@.push(Diagnostic { error, span }),
    {
        self.items.push(Diagnostic { error, span });
    }

    /// How many diagnostics have been reported.
    pub fn len(&self) -> (n: usize)
        ensures
            n == self@.len(),
    {
        self.items.len()
    }

    /// Whether nothing has been reported; code generation is expected to
    /// proceed only in that case.
    pub fn is_empty(&self) -> (b: bool)
        ensures
            b <==> self@.len() == 0,
    {
        self.items.len() == 0
    }

    /// The `i`-th report, in order of discovery.
    pub fn get(&self, i: usize) -> (d: Diagnostic)
        requires
            i < self@.len(),
        ensures
            d == self@[i as int],
    {
        self.items[i]
    }
}

} // verus!
