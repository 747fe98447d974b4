//! A single diagnostic: either a whole file that could not be loaded, or a message from the
//! compiler with a place in the source and a severity.

use crate::span::Span;
use vstd::prelude::*;
use vstd::std_specs::convert::FromSpecImpl;
use vstd::string::to_string_from_display_ensures;

verus! {

/// The failure of an input or output operation, as `std::io` reports it. Nothing is known
/// of what is inside; its text is whatever its `Display` writes.
#[verifier::external_type_specification]
#[verifier::external_body]
pub struct ExIoError(std::io::Error);

/// How severe a compiler diagnostic is.
#[derive(Clone, Copy, Debug, PartialEq, Eq, Structural)]
pub enum Level {
    Error,
    Warning,
}

impl Default for Level {
    /// A diagnostic is an error unless it says otherwise.
    fn default() -> (level: Level)
        ensures
            level == Level::Error,
    {
        Level::Error
    }
}

/// A message from the compiler about a place in the source text.
#[derive(Debug)]
pub struct CompilerDiagnostic {
    pub message: String,
    pub span: Span,
    pub level: Level,
}

/// What a `CompilerDiagnostic` stands for: its message as a sequence of characters, with
/// its span and level.
pub struct CompilerDiagnosticView {
    pub message: Seq<char>,
    pub span: Span,
    pub level: Level,
}

impl View for CompilerDiagnostic {
    type V = CompilerDiagnosticView;

    open spec fn view(&self) -> CompilerDiagnosticView {
        CompilerDiagnosticView { message: self.message@, span: self.span, level: self.level }
    }
}

impl Default for CompilerDiagnostic {
    /// An error with an empty message at offset zero.
    fn default() -> (diagnostic: CompilerDiagnostic)
        ensures
            diagnostic@ == (CompilerDiagnosticView {
                message: Seq::empty(),
                span: Span { offset: 0, span: None },
                level: Level::Error,
            }),
    {
        CompilerDiagnostic { message: String::new(), span: Span::default(), level: Level::default() }
    }
}

impl CompilerDiagnostic {
    /// The text shown for this diagnostic: its message.
    pub fn to_string(&self) -> (text: String)
        ensures
            text@ == self@.message,
    {
        self.message.clone()
    }
}

/// One entry of a file's diagnostics.
#[derive(Debug)]
pub enum Diagnostic {
    /// The file could not be read at all.
    FileLoadError(std::io::Error),
    /// The compiler has something to say about the file's text.
    CompilerDiagnostic(CompilerDiagnostic),
}

/// What a `Diagnostic` stands for.
pub enum DiagnosticView {
    FileLoadError(std::io::Error),
    CompilerDiagnostic(CompilerDiagnosticView),
}

/// Whether `text` is what the `Display` of `err` writes.
pub open spec fn shows_failure(err: std::io::Error, text: Seq<char>) -> bool {
    exists|shown: String|
        shown@ == text && #[trigger] to_string_from_display_ensures::<std::io::Error>(&err, shown)
}

impl DiagnosticView {
    /// Whether this entry makes a build fail: every load failure does, and every compiler
    /// diagnostic whose level is `Error`. A warning never does.
    pub open spec fn is_error(self) -> bool {
        match self {
            DiagnosticView::FileLoadError(_) => true,
            DiagnosticView::CompilerDiagnostic(d) => d.level == Level::Error,
        }
    }

    /// Whether `text` is a line that may be shown for this entry. For a compiler diagnostic
    /// that is its message and nothing else; for a load failure it is whatever the failure's
    /// `Display` writes.
    pub open spec fn renders_as(self, text: Seq<char>) -> bool {
        match self {
            DiagnosticView::FileLoadError(err) => shows_failure(err, text),
            DiagnosticView::CompilerDiagnostic(d) => text == d.message,
        }
    }
}

impl View for Diagnostic {
    type V = DiagnosticView;

    open spec fn view(&self) -> DiagnosticView {
        match self {
            Diagnostic::FileLoadError(err) => DiagnosticView::FileLoadError(*err),
            Diagnostic::CompilerDiagnostic(d) => DiagnosticView::CompilerDiagnostic(d@),
        }
    }
}

impl Diagnostic {
    /// The text shown for this entry.
    pub fn to_string(&self) -> (text: String)
        ensures
            self@.renders_as(text@),
    {
        match self {
            Diagnostic::FileLoadError(err) => {
                let shown = err.to_string();
                assert(to_string_from_display_ensures::<std::io::Error>(&*err, shown));
                assert(shows_failure(*err, shown@));
                shown
            },
            Diagnostic::CompilerDiagnostic(d) => d.to_string(),
        }
    }

    /// Whether this entry makes a build fail.
    pub fn is_error(&self) -> (failing: bool)
        ensures
            failing == self@.is_error(),
    {
        match self {
            Diagnostic::FileLoadError(_) => true,
            Diagnostic::CompilerDiagnostic(d) => matches!(d.level, Level::Error),
        }
    }
}

impl From<std::io::Error> for Diagnostic {
    /// A failure to load a file is a diagnostic of that file.
    fn from(err: std::io::Error) -> (diagnostic: Diagnostic) {
        Diagnostic::FileLoadError(err)
    }
}

impl FromSpecImpl<std::io::Error> for Diagnostic {
    open spec fn obeys_from_spec() -> bool {
        true
    }

    open spec fn from_spec(err: std::io::Error) -> Diagnostic {
        Diagnostic::FileLoadError(err)
    }
}

impl From<CompilerDiagnostic> for Diagnostic {
    /// A compiler diagnostic is a diagnostic of the file it speaks of.
    fn from(diagnostic: CompilerDiagnostic) -> (wrapped: Diagnostic) {
        Diagnostic::CompilerDiagnostic(diagnostic)
    }
}

impl FromSpecImpl<CompilerDiagnostic> for Diagnostic {
    open spec fn obeys_from_spec() -> bool {
        true
    }

    open spec fn from_spec(diagnostic: CompilerDiagnostic) -> Diagnostic {
        Diagnostic::CompilerDiagnostic(diagnostic)
    }
}

} // verus!
