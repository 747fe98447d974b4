//! The diagnostics of one source file, in the order in which they were found.

use crate::diagnostic::{CompilerDiagnostic, CompilerDiagnosticView, Diagnostic, DiagnosticView, Level};
use crate::span::{SourceFile, Span, Spanned};
use std::rc::Rc;
use vstd::prelude::*;

verus! {

/// The diagnostics of one source file, with the file's path and, once it is loaded, its text.
#[derive(Debug)]
pub struct FileDiagnostics {
    /// The diagnostics, oldest first.
    pub inner: Vec<Diagnostic>,
    /// The path of the file that the diagnostics speak of.
    pub current_path: SourceFile,
    /// The text of the file; absent where there is no file to show, or none was loaded.
    pub source: Option<String>,
}

/// What a `FileDiagnostics` stands for.
pub struct FileDiagnosticsView {
    pub diagnostics: Seq<DiagnosticView>,
    pub path: Seq<char>,
    pub source: Option<Seq<char>>,
}

/// The diagnostic that a message, a span and a level make.
pub open spec fn compiler_diagnostic(message: Seq<char>, span: Span, level: Level) -> DiagnosticView {
    DiagnosticView::CompilerDiagnostic(CompilerDiagnosticView { message, span, level })
}

/// What a vector of diagnostics stands for, entry by entry.
pub open spec fn diagnostics_view(diagnostics: Seq<Diagnostic>) -> Seq<DiagnosticView> {
    diagnostics.map_values(|d: Diagnostic| d@)
}

impl FileDiagnosticsView {
    /// Whether any entry makes the build fail.
    pub open spec fn has_error(self) -> bool {
        exists|i: int| 0 <= i < self.diagnostics.len() && #[trigger] self.diagnostics[i].is_error()
    }

    /// The same file with one more diagnostic at the end.
    pub open spec fn with(self, diagnostic: DiagnosticView) -> FileDiagnosticsView {
        FileDiagnosticsView { diagnostics: self.diagnostics.push(diagnostic), ..self }
    }

    /// The same file with `more` after its own diagnostics.
    pub open spec fn with_all(self, more: Seq<DiagnosticView>) -> FileDiagnosticsView {
        FileDiagnosticsView { diagnostics: self.diagnostics + more, ..self }
    }

    /// Whether `lines` shows the diagnostics one by one, in their order.
    pub open spec fn rendered_by(self, lines: Seq<Seq<char>>) -> bool {
        &&& lines.len() == self.diagnostics.len()
        &&& forall|i: int| 0 <= i < lines.len() ==> (#[trigger] self.diagnostics[i]).renders_as(lines[i])
    }
}

impl View for FileDiagnostics {
    type V = FileDiagnosticsView;

    open spec fn view(&self) -> FileDiagnosticsView {
        FileDiagnosticsView {
            diagnostics: diagnostics_view(self.inner@),
            path: self.current_path@,
            source: match self.source {
                Some(text) => Some(text@),
                None => None,
            },
        }
    }
}

/// What a vector of lines stands for, line by line.
pub open spec fn lines_view(lines: Seq<String>) -> Seq<Seq<char>> {
    lines.map_values(|line: String| line@)
}

impl Default for FileDiagnostics {
    /// No diagnostics, an empty path and no source text.
    fn default() -> (file: FileDiagnostics)
        ensures
            file@ == (FileDiagnosticsView { diagnostics: Seq::empty(), path: Seq::empty(), source: None }),
    {
        let file = FileDiagnostics { inner: Vec::new(), current_path: Rc::new(String::new()), source: None };
        assert(file@.diagnostics =~= Seq::empty());
        file
    }
}

impl IntoIterator for FileDiagnostics {
    type Item = Diagnostic;

    type IntoIter = std::vec::IntoIter<Diagnostic>;

    /// The diagnostics, oldest first.
    fn into_iter(self) -> (diagnostics: std::vec::IntoIter<Diagnostic>)
        ensures
            diagnostics == vstd::std_specs::vec::spec_into_iter(self.inner),
    {
        self.inner.into_iter()
    }
}

impl FileDiagnostics {
    /// Adds a diagnostic from its parts. The message is taken as it is.
    pub fn push_diagnostic_with_span(&mut self, message: String, span: Span, level: Level)
        ensures
            final(self)@ == old(self)@.with(compiler_diagnostic(message@, span, level)),
    {
        self.push_compiler_error(CompilerDiagnostic { message, span, level });
    }

    /// Adds an error at `span`.
    pub fn push_error_with_span(&mut self, message: String, span: Span)
        ensures
            final(self)@ == old(self)@.with(compiler_diagnostic(message@, span, Level::Error)),
    {
        self.push_diagnostic_with_span(message, span, Level::Error)
    }

    /// Adds an error at a place that `source` gave when asked for its span.
    pub fn push_error<S: Spanned + ?Sized>(&mut self, message: String, source: &S)
        ensures
            exists|span: Span|
                #[trigger] call_ensures(S::span, (source,), span) && final(self)@ == old(self)@.with(
                    compiler_diagnostic(message@, span, Level::Error),
                ),
    {
        let span = source.span();
        self.push_error_with_span(message, span);
        assert(call_ensures(S::span, (source,), span));
    }

    /// Adds a diagnostic that is already built.
    pub fn push_compiler_error(&mut self, error: CompilerDiagnostic)
        ensures
            final(self)@ == old(self)@.with(DiagnosticView::CompilerDiagnostic(error@)),
    {
        self.push_entry(Diagnostic::CompilerDiagnostic(error));
    }

    /// Adds any diagnostic at the end.
    pub fn push_entry(&mut self, entry: Diagnostic)
        ensures
            final(self)@ == old(self)@.with(entry@),
    {
        self.inner.push(entry);
        assert(final(self)@.diagnostics =~= old(self)@.diagnostics.push(entry@));
    }

    /// Whether the file has a diagnostic that makes the build fail: a load failure, or
    /// a compiler diagnostic of level `Error`.
    pub fn has_error(&self) -> (failing: bool)
        ensures
            failing == self@.has_error(),
    {
        let mut i: usize = 0;
        while i < self.inner.len()
            invariant
                i <= self.inner.len(),
                forall|k: int| 0 <= k < i ==> !(#[trigger] self@.diagnostics[k]).is_error(),
            decreases self.inner.len() - i,
        {
            if self.inner[i].is_error() {
                assert(self@.diagnostics[i as int].is_error());
                return true;
            }
            i += 1;
        }
        false
    }

    /// One line of text for each diagnostic, in their order.
    pub fn to_string_vec(&self) -> (lines: Vec<String>)
        ensures
            self@.rendered_by(lines_view(lines@)),
    {
        let mut lines: Vec<String> = Vec::new();
        let mut i: usize = 0;
        while i < self.inner.len()
            invariant
                i <= self.inner.len(),
                lines@.len() == i,
                forall|k: int| 0 <= k < i ==> (#[trigger] self@.diagnostics[k]).renders_as(lines@[k]@),
            decreases self.inner.len() - i,
        {
            let line = self.inner[i].to_string();
            lines.push(line);
            i += 1;
        }
        lines
    }

    /// The diagnostics of a file that could not be loaded: the failure is the one entry,
    /// and there is no source text.
    pub fn new_from_error(path: String, err: std::io::Error) -> (file: FileDiagnostics)
        ensures
            file@ == (FileDiagnosticsView {
                diagnostics: seq![DiagnosticView::FileLoadError(err)],
                path: path@,
                source: None,
            }),
    {
        let mut inner: Vec<Diagnostic> = Vec::new();
        inner.push(Diagnostic::FileLoadError(err));
        let file = FileDiagnostics { inner, current_path: Rc::new(path), source: None };
        assert(file@.diagnostics =~= seq![DiagnosticView::FileLoadError(err)]);
        file
    }
}

/// A file with one more diagnostic fails the build exactly if it did before or the new
/// diagnostic does.
pub proof fn lemma_has_error_with(file: FileDiagnosticsView, diagnostic: DiagnosticView)
    ensures
        file.with(diagnostic).has_error() == (file.has_error() || diagnostic.is_error()),
{
    let more = file.with(diagnostic);
    let last = file.diagnostics.len() as int;
    if file.has_error() {
        let i = choose|i: int| 0 <= i < file.diagnostics.len() && (#[trigger] file.diagnostics[i]).is_error();
        assert(more.diagnostics[i].is_error());
    }
    if diagnostic.is_error() {
        assert(more.diagnostics[last].is_error());
    }
    if more.has_error() {
        let i = choose|i: int| 0 <= i < more.diagnostics.len() && (#[trigger] more.diagnostics[i]).is_error();
        if i < last {
            assert(file.diagnostics[i].is_error());
        }
    }
}

/// A warning never makes a file fail the build: with one more warning the file fails
/// exactly if it did before.
pub proof fn lemma_warning_never_fails(file: FileDiagnosticsView, message: Seq<char>, span: Span)
    ensures
        file.with(compiler_diagnostic(message, span, Level::Warning)).has_error() == file.has_error(),
{
    lemma_has_error_with(file, compiler_diagnostic(message, span, Level::Warning));
}

/// A file that holds nothing but warnings does not fail the build.
pub proof fn lemma_only_warnings(file: FileDiagnosticsView)
    requires
        forall|i: int|
            0 <= i < file.diagnostics.len() ==> (#[trigger] file.diagnostics[i]
                matches DiagnosticView::CompilerDiagnostic(d) && d.level == Level::Warning),
    ensures
        !file.has_error(),
{
}

/// Lines that show a file are as many as its diagnostics and in their order: the line of
/// each compiler diagnostic is its message.
pub proof fn lemma_rendered_messages(file: FileDiagnosticsView, lines: Seq<Seq<char>>)
    requires
        file.rendered_by(lines),
    ensures
        lines.len() == file.diagnostics.len(),
        forall|i: int|
            0 <= i < lines.len() ==> (#[trigger] file.diagnostics[i]
                matches DiagnosticView::CompilerDiagnostic(d) ==> lines[i] == d.message),
{
}

} // verus!
