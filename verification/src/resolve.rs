//! Resolving spans: a diagnostic that knows only a byte offset gets the richer location of
//! the first token that starts at or after that offset.

use crate::diagnostic::{CompilerDiagnosticView, Diagnostic, DiagnosticView};
use crate::file_diagnostics::{FileDiagnostics, FileDiagnosticsView};
use crate::span::{SourceFile, Span, SpanHandle};
use vstd::prelude::*;

verus! {

/// What resolution needs to know of a lexical token: how long its text is, in bytes, and
/// its richer location, where it has one.
#[derive(Clone, Copy, Debug)]
pub struct Token {
    pub text_len: usize,
    pub span: Option<SpanHandle>,
}

/// The tokens of one source file, for resolving the diagnostics of that file.
#[derive(Debug)]
pub struct TokenSource {
    /// The path of the file that the tokens were read from.
    pub path: SourceFile,
    /// The tokens of the file, in the order of its text.
    pub tokens: Vec<Token>,
}

/// The offset at which token `index` starts: the lengths of the tokens before it, added up.
/// The sum is a mathematical integer, however long the tokens are.
pub open spec fn token_start(tokens: Seq<Token>, index: int) -> int
    decreases index,
{
    if index <= 0 {
        0
    } else {
        token_start(tokens, index - 1) + tokens[index - 1].text_len
    }
}

/// Whether token `index` starts at or after `offset`.
pub open spec fn reaches(tokens: Seq<Token>, offset: int, index: int) -> bool {
    &&& 0 <= index < tokens.len()
    &&& offset <= token_start(tokens, index)
}

/// The first token from `from` on that starts at or after `offset`, if there is one.
pub open spec fn first_reached_from(tokens: Seq<Token>, offset: int, from: int) -> Option<int>
    decreases tokens.len() - from,
{
    if from < 0 || from >= tokens.len() {
        None
    } else if reaches(tokens, offset, from) {
        Some(from)
    } else {
        first_reached_from(tokens, offset, from + 1)
    }
}

/// The location that a span at `offset` resolves to: that of the first token that starts
/// at or after the offset, which is none where that token has none. Where no token
/// starts at or after the offset there is none either.
pub open spec fn resolved_handle(tokens: Seq<Token>, offset: int) -> Option<SpanHandle> {
    match first_reached_from(tokens, offset, 0) {
        Some(index) => tokens[index].span,
        None => None,
    }
}

/// A span after resolution. One that has a location keeps it.
pub open spec fn resolve_span(span: Span, tokens: Seq<Token>) -> Span {
    if span.span is Some {
        span
    } else {
        Span { offset: span.offset, span: resolved_handle(tokens, span.offset as int) }
    }
}

/// A diagnostic after resolution. Only the span of a compiler diagnostic can change.
pub open spec fn resolve_diagnostic(diagnostic: DiagnosticView, tokens: Seq<Token>) -> DiagnosticView {
    match diagnostic {
        DiagnosticView::FileLoadError(_) => diagnostic,
        DiagnosticView::CompilerDiagnostic(d) => DiagnosticView::CompilerDiagnostic(
            CompilerDiagnosticView { span: resolve_span(d.span, tokens), ..d },
        ),
    }
}

impl FileDiagnosticsView {
    /// The file after resolution: each diagnostic resolved, in place.
    pub open spec fn resolved(self, tokens: Seq<Token>) -> FileDiagnosticsView {
        FileDiagnosticsView {
            diagnostics: self.diagnostics.map_values(
                |d: DiagnosticView| resolve_diagnostic(d, tokens),
            ),
            ..self
        }
    }
}

/// The tokens that `sources` hold for the file at `path`, looking from `from` on: those of
/// the first source for that path, and none where no source is for it.
pub open spec fn tokens_from(sources: Seq<TokenSource>, path: Seq<char>, from: int) -> Seq<Token>
    decreases sources.len() - from,
{
    if from < 0 || from >= sources.len() {
        Seq::empty()
    } else if sources[from].path@ == path {
        sources[from].tokens@
    } else {
        tokens_from(sources, path, from + 1)
    }
}

/// The tokens that `sources` hold for the file at `path`.
pub open spec fn tokens_for(sources: Seq<TokenSource>, path: Seq<char>) -> Seq<Token> {
    tokens_from(sources, path, 0)
}

/// A token that starts at or after `offset`, with none such between `from` and it, is
/// the first one reached.
pub proof fn lemma_reached(tokens: Seq<Token>, offset: int, from: int, index: int)
    requires
        0 <= from <= index,
        reaches(tokens, offset, index),
        forall|k: int| from <= k < index ==> !reaches(tokens, offset, k),
    ensures
        first_reached_from(tokens, offset, from) == Some(index),
    decreases index - from,
{
    if from < index {
        lemma_reached(tokens, offset, from + 1, index);
    }
}

/// Where no token from `from` on starts at or after `offset`, none is reached.
pub proof fn lemma_unreached(tokens: Seq<Token>, offset: int, from: int)
    requires
        0 <= from,
        forall|k: int| from <= k < tokens.len() ==> !reaches(tokens, offset, k),
    ensures
        first_reached_from(tokens, offset, from) is None,
    decreases tokens.len() - from,
{
    if from < tokens.len() {
        lemma_unreached(tokens, offset, from + 1);
    }
}

/// The first token reached from `from` on starts at or after `offset`, and no token
/// between `from` and it does; where none is reached, no token from `from` on does.
pub proof fn lemma_first_reached_is_least(tokens: Seq<Token>, offset: int, from: int)
    requires
        0 <= from,
    ensures
        match first_reached_from(tokens, offset, from) {
            Some(index) => from <= index && reaches(tokens, offset, index) && forall|k: int|
                from <= k < index ==> !reaches(tokens, offset, k),
            None => forall|k: int| from <= k < tokens.len() ==> !reaches(tokens, offset, k),
        },
    decreases tokens.len() - from,
{
    if from < tokens.len() && !reaches(tokens, offset, from) {
        lemma_first_reached_is_least(tokens, offset, from + 1);
    }
}

/// A span at `offset` resolves to the least token whose start is at or after the offset:
/// it gets what that token has for a location, be it one or none.
pub proof fn lemma_resolves_to_least_token(tokens: Seq<Token>, offset: int, index: int)
    requires
        0 <= index < tokens.len(),
        offset <= token_start(tokens, index),
        forall|k: int| 0 <= k < index ==> token_start(tokens, k) < offset,
    ensures
        resolved_handle(tokens, offset) == tokens[index].span,
{
    lemma_reached(tokens, offset, 0, index);
}

/// A span whose offset lies behind the start of every token stays as it is.
pub proof fn lemma_unreached_span_stays(tokens: Seq<Token>, span: Span)
    requires
        forall|k: int| 0 <= k < tokens.len() ==> token_start(tokens, k) < span.offset,
    ensures
        resolve_span(span, tokens) == span,
{
    lemma_unreached(tokens, span.offset as int, 0);
}

/// A span that has a location is left alone, whatever the tokens.
pub proof fn lemma_resolved_span_stays(tokens: Seq<Token>, span: Span)
    requires
        span.span is Some,
    ensures
        resolve_span(span, tokens) == span,
{
}

/// Resolving a span a second time against the same tokens changes nothing.
pub proof fn lemma_resolve_span_twice(tokens: Seq<Token>, span: Span)
    ensures
        resolve_span(resolve_span(span, tokens), tokens) == resolve_span(span, tokens),
{
}

/// Resolving a file a second time against the same tokens changes nothing.
pub proof fn lemma_resolve_twice(file: FileDiagnosticsView, tokens: Seq<Token>)
    ensures
        file.resolved(tokens).resolved(tokens) == file.resolved(tokens),
{
    let once = file.resolved(tokens);
    assert forall|i: int| 0 <= i < once.diagnostics.len() implies resolve_diagnostic(
        #[trigger] once.diagnostics[i],
        tokens,
    ) == once.diagnostics[i] by {
        match file.diagnostics[i] {
            DiagnosticView::FileLoadError(_) => {},
            DiagnosticView::CompilerDiagnostic(d) => {
                lemma_resolve_span_twice(tokens, d.span);
            },
        }
    }
    assert(once.resolved(tokens).diagnostics =~= once.diagnostics);
}

/// Without tokens nothing is resolved: the file stays as it is.
pub proof fn lemma_resolve_without_tokens(file: FileDiagnosticsView)
    ensures
        file.resolved(Seq::empty()) == file,
{
    assert(file.resolved(Seq::empty()).diagnostics =~= file.diagnostics);
}

/// The source for `path` that has no source for the same path before it, from `from` on,
/// is the one whose tokens are used.
pub proof fn lemma_tokens_found(sources: Seq<TokenSource>, path: Seq<char>, from: int, index: int)
    requires
        0 <= from <= index < sources.len(),
        sources[index].path@ == path,
        forall|k: int| from <= k < index ==> (#[trigger] sources[k]).path@ != path,
    ensures
        tokens_from(sources, path, from) == sources[index].tokens@,
    decreases index - from,
{
    if from < index {
        lemma_tokens_found(sources, path, from + 1, index);
    }
}

/// Where no source from `from` on is for `path`, there are no tokens for it.
pub proof fn lemma_tokens_missing(sources: Seq<TokenSource>, path: Seq<char>, from: int)
    requires
        0 <= from,
        forall|k: int| from <= k < sources.len() ==> (#[trigger] sources[k]).path@ != path,
    ensures
        tokens_from(sources, path, from) == Seq::<Token>::empty(),
    decreases sources.len() - from,
{
    if from < sources.len() {
        lemma_tokens_missing(sources, path, from + 1);
    }
}

/// Where the tokens for the file at `path` are kept in `sources`.
pub fn find_tokens(sources: &[TokenSource], path: &SourceFile) -> (found: Option<usize>)
    ensures
        match found {
            Some(index) => index < sources@.len() && sources@[index as int].path@ == path@ && tokens_for(
                sources@,
                path@,
            ) == sources@[index as int].tokens@,
            None => tokens_for(sources@, path@) == Seq::<Token>::empty(),
        },
{
    let mut i: usize = 0;
    while i < sources.len()
        invariant
            i <= sources.len(),
            forall|k: int| 0 <= k < i ==> (#[trigger] sources@[k]).path@ != path@,
        decreases sources.len() - i,
    {
        if *sources[i].path == **path {
            proof {
                lemma_tokens_found(sources@, path@, 0, i as int);
            }
            return Some(i);
        }
        i += 1;
    }
    proof {
        lemma_tokens_missing(sources@, path@, 0);
    }
    None
}

/// The location for a span at `offset`, found by one pass over the tokens.
///
/// The pass keeps a running start offset. Where adding to it would pass `usize::MAX` it
/// stays there, and has then reached every `offset` there can be.
pub fn resolve_offset(tokens: &[Token], offset: usize) -> (handle: Option<SpanHandle>)
    ensures
        handle == resolved_handle(tokens@, offset as int),
{
    let mut running: usize = 0;
    let mut i: usize = 0;
    while i < tokens.len()
        invariant
            i <= tokens.len(),
            forall|k: int| 0 <= k < i ==> !reaches(tokens@, offset as int, k),
            offset <= running <==> offset <= token_start(tokens@, i as int),
            offset > running ==> running == token_start(tokens@, i as int),
        decreases tokens.len() - i,
    {
        if offset <= running {
            proof {
                lemma_reached(tokens@, offset as int, 0, i as int);
            }
            return tokens[i].span;
        }
        assert(token_start(tokens@, i + 1) == token_start(tokens@, i as int) + tokens@[i as int].text_len);
        running = running.saturating_add(tokens[i].text_len);
        i += 1;
    }
    proof {
        lemma_unreached(tokens@, offset as int, 0);
    }
    None
}

impl FileDiagnostics {
    /// Resolves every diagnostic whose span knows only its offset, against the tokens of
    /// the file. A span that has a location keeps it; one whose offset no token start
    /// reaches, or whose token has no location, stays as it is.
    pub fn map_offsets_to_span(&mut self, span_map: &[Token])
        ensures
            final(self)@ == old(self)@.resolved(span_map@),
    {
        let mut i: usize = 0;
        while i < self.inner.len()
            invariant
                i <= self.inner.len(),
                self.inner.len() == old(self).inner.len(),
                self.current_path == old(self).current_path,
                self.source == old(self).source,
                forall|k: int| 0 <= k < i ==> (#[trigger] self.inner[k])@ == resolve_diagnostic(old(self).inner[k]@, span_map@),
                forall|k: int| i <= k < self.inner.len() ==> #[trigger] self.inner[k] == old(self).inner[k],
            decreases self.inner.len() - i,
        {
            match &mut self.inner[i] {
                Diagnostic::CompilerDiagnostic(d) => {
                    if d.span.span.is_none() {
                        d.span.span = resolve_offset(span_map, d.span.offset);
                    }
                },
                Diagnostic::FileLoadError(_) => {},
            }
            i += 1;
        }
        assert(self@.diagnostics =~= old(self)@.resolved(span_map@).diagnostics);
    }
}

} // verus!
