//! Source locations: a byte offset into the source text, which may later be refined by a
//! handle to a richer location.

use std::rc::Rc;
use vstd::prelude::*;
use vstd::std_specs::cmp::PartialEqSpecImpl;
use vstd::std_specs::convert::FromSpecImpl;

verus! {

/// Names a location that the host of the compiler knows in more detail than a byte offset,
/// such as an entry in its table of token positions. The library never looks inside a
/// handle: it only carries handles from tokens to diagnostics.
#[derive(Clone, Copy, Debug, PartialEq, Eq, Structural)]
pub struct SpanHandle(pub usize);

/// Where a diagnostic points: always a byte offset, and a richer location once one is known.
#[derive(Clone, Copy, Debug)]
pub struct Span {
    /// Byte offset into the source text. It is not checked against the length of any text.
    pub offset: usize,
    /// The richer location, absent until the span has been resolved.
    pub span: Option<SpanHandle>,
}

impl Span {
    /// A span that knows only its byte offset.
    pub fn new(offset: usize) -> (span: Span)
        ensures
            span == (Span { offset, span: None }),
    {
        Span { offset, span: None }
    }

    /// Whether the span carries a richer location.
    pub open spec fn is_resolved(self) -> bool {
        self.span is Some
    }
}

impl Default for Span {
    /// The span at offset zero, without a richer location.
    fn default() -> (span: Span)
        ensures
            span == (Span { offset: 0, span: None }),
    {
        Span { offset: 0, span: None }
    }
}

impl PartialEq for Span {
    /// Two spans are equal when their offsets are: the richer location takes no part.
    fn eq(&self, other: &Span) -> (equal: bool) {
        self.offset == other.offset
    }
}

impl PartialEqSpecImpl for Span {
    open spec fn obeys_eq_spec() -> bool {
        true
    }

    open spec fn eq_spec(&self, other: &Span) -> bool {
        self.offset == other.offset
    }
}

impl From<SpanHandle> for Span {
    /// A span that starts from a richer location; its offset is zero.
    fn from(handle: SpanHandle) -> (span: Span) {
        Span { offset: 0, span: Some(handle) }
    }
}

impl FromSpecImpl<SpanHandle> for Span {
    open spec fn obeys_from_spec() -> bool {
        true
    }

    open spec fn from_spec(handle: SpanHandle) -> Span {
        Span { offset: 0, span: Some(handle) }
    }
}

/// Anything that has a place in the source text, such as a token or a syntax node.
pub trait Spanned {
    fn span(&self) -> Span;
}

/// The path of a source file, shared between the diagnostics and whoever else names the file.
pub type SourceFile = Rc<String>;

/// Anything that has a place in the source text and may know which file it came from.
pub trait SpannedWithSourceFile: Spanned {
    fn source_file(&self) -> Option<&SourceFile>;
}

/// A second handle to the path that `file` names (`Rc::clone`). Cloning an `Rc` copies the
/// pointer and leaves the value behind it alone, so both handles name the same path.
#[verifier::external_body]
pub(crate) fn share(file: &SourceFile) -> (shared: SourceFile)
    ensures
        shared == *file,
{
    Rc::clone(file)
}

} // verus!
