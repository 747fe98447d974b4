//! What the diagnostics of a file come to for those who show them: a report for a renderer
//! of annotated source text, and markers for a host that turns diagnostics into items of
//! the program it builds.

use crate::diagnostic::{shows_failure, Diagnostic, DiagnosticView, Level};
use crate::file_diagnostics::{FileDiagnostics, FileDiagnosticsView};
use crate::span::SpanHandle;
use vstd::prelude::*;
use vstd::string::StringExecFns;

verus! {

/// One diagnostic as a renderer is to show it.
#[derive(Debug)]
pub struct ReportEntry {
    pub level: Level,
    pub message: String,
    /// The byte offset in the file's text to point at, or none where the entry is to be
    /// shown without a place.
    pub anchor: Option<usize>,
}

/// What a `ReportEntry` stands for.
pub struct ReportEntryView {
    pub level: Level,
    pub message: Seq<char>,
    pub anchor: Option<usize>,
}

impl View for ReportEntry {
    type V = ReportEntryView;

    open spec fn view(&self) -> ReportEntryView {
        ReportEntryView { level: self.level, message: self.message@, anchor: self.anchor }
    }
}

/// The diagnostics of one file as a renderer is to show them.
#[derive(Debug)]
pub struct Report {
    /// The name to show for the file.
    pub file_name: String,
    /// The text to quote from; empty where none was loaded.
    pub source: String,
    pub entries: Vec<ReportEntry>,
}

/// What a `Report` stands for.
pub struct ReportView {
    pub file_name: Seq<char>,
    pub source: Seq<char>,
    pub entries: Seq<ReportEntryView>,
}

impl View for Report {
    type V = ReportView;

    open spec fn view(&self) -> ReportView {
        ReportView {
            file_name: self.file_name@,
            source: self.source@,
            entries: self.entries@.map_values(|e: ReportEntry| e@),
        }
    }
}

/// Whether `entry` is how `diagnostic` is to be shown. A compiler diagnostic keeps its
/// level and message, and points at its offset if `anchored`; a load failure is an error
/// with the failure's own text, and never points anywhere.
pub open spec fn reports(diagnostic: DiagnosticView, anchored: bool, entry: ReportEntryView) -> bool {
    match diagnostic {
        DiagnosticView::FileLoadError(err) => {
            &&& entry.level == Level::Error
            &&& shows_failure(err, entry.message)
            &&& entry.anchor is None
        },
        DiagnosticView::CompilerDiagnostic(d) => entry == (ReportEntryView {
            level: d.level,
            message: d.message,
            anchor: if anchored {
                Some(d.span.offset)
            } else {
                None
            },
        }),
    }
}

impl FileDiagnosticsView {
    /// Whether `report` is what a renderer is to show for this file: the file's path and
    /// text, and one entry for each diagnostic, in their order. The entries point into
    /// the text only where there is a text: without one, none of them has a place.
    pub open spec fn reported_by(self, report: ReportView) -> bool {
        &&& report.file_name == self.path
        &&& report.source == match self.source {
            Some(text) => text,
            None => Seq::empty(),
        }
        &&& report.entries.len() == self.diagnostics.len()
        &&& forall|i: int|
            0 <= i < self.diagnostics.len() ==> reports(
                #[trigger] self.diagnostics[i],
                self.source is Some,
                report.entries[i],
            )
    }
}

/// A marker that a host is to leave in the program it builds, so that the compiler of
/// that program reports the diagnostic.
#[derive(Debug)]
pub enum Marker {
    /// An error with this message.
    Error { message: String, span: Option<SpanHandle> },
    /// A warning, made by an unused constant of this name.
    Warning { symbol: String, span: Option<SpanHandle> },
}

/// What a `Marker` stands for.
pub enum MarkerView {
    Error { message: Seq<char>, span: Option<SpanHandle> },
    Warning { symbol: Seq<char>, span: Option<SpanHandle> },
}

impl View for Marker {
    type V = MarkerView;

    open spec fn view(&self) -> MarkerView {
        match self {
            Marker::Error { message, span } => MarkerView::Error { message: message@, span: *span },
            Marker::Warning { symbol, span } => MarkerView::Warning { symbol: symbol@, span: *span },
        }
    }
}

/// What a vector of markers stands for, marker by marker.
pub open spec fn markers_view(markers: Seq<Marker>) -> Seq<MarkerView> {
    markers.map_values(|m: Marker| m@)
}

/// `text` with `to` in the place of every `from`.
pub open spec fn replaced(text: Seq<char>, from: char, to: Seq<char>) -> Seq<char>
    decreases text.len(),
{
    if text.len() == 0 {
        Seq::empty()
    } else {
        replaced(text.drop_last(), from, to) + (if text.last() == from {
            to
        } else {
            seq![text.last()]
        })
    }
}

/// The name of the constant that stands for a warning: `WARNING_`, then the message with
/// an underscore for every hyphen.
pub open spec fn warning_symbol(message: Seq<char>) -> Seq<char> {
    "WARNING_"@ + replaced(message, '-', "_"@)
}

/// The marker for one diagnostic. A load failure leaves none.
pub open spec fn marker_of(diagnostic: DiagnosticView) -> Option<MarkerView> {
    match diagnostic {
        DiagnosticView::FileLoadError(_) => None,
        DiagnosticView::CompilerDiagnostic(d) => Some(
            match d.level {
                Level::Error => MarkerView::Error { message: d.message, span: d.span.span },
                Level::Warning => MarkerView::Warning { symbol: warning_symbol(d.message), span: d.span.span },
            },
        ),
    }
}

/// The markers for a sequence of diagnostics, in their order.
pub open spec fn markers_of(diagnostics: Seq<DiagnosticView>) -> Seq<MarkerView>
    decreases diagnostics.len(),
{
    if diagnostics.len() == 0 {
        Seq::empty()
    } else {
        let before = markers_of(diagnostics.drop_last());
        match marker_of(diagnostics.last()) {
            Some(marker) => before.push(marker),
            None => before,
        }
    }
}

/// The markers for the first `count` of some buckets, bucket after bucket.
pub open spec fn markers_of_buckets(buckets: Seq<FileDiagnosticsView>, count: int) -> Seq<MarkerView>
    decreases count,
{
    if count <= 0 {
        Seq::empty()
    } else {
        markers_of_buckets(buckets, count - 1) + markers_of(buckets[count - 1].diagnostics)
    }
}

/// `str::replace` with a character as the pattern. Every occurrence of `from` in `text`
/// is a match, matches of one character cannot overlap, and each is replaced by `to`;
/// the characters between them are kept.
#[verifier::external_body]
fn replace_char(text: &str, from: char, to: &str) -> (changed: String)
    ensures
        changed@ == replaced(text@, from, to@),
{
    text.replace(from, to)
}

impl FileDiagnostics {
    /// What a renderer is to show for this file.
    pub fn into_report(self) -> (report: Report)
        ensures
            self@.reported_by(report@),
    {
        let anchored = self.source.is_some();
        let file_name: String = (*self.current_path).clone();
        let source = match self.source {
            Some(text) => text,
            None => String::new(),
        };
        let mut entries: Vec<ReportEntry> = Vec::new();
        let ghost all = self@.diagnostics;
        for diagnostic in it: self.inner
            invariant
                it.seq() == self.inner@,
                all == self@.diagnostics,
                entries@.len() == it.index(),
                forall|i: int| 0 <= i < it.index() ==> reports(#[trigger] all[i], anchored, entries@[i]@),
        {
            assert(all[it.index() as int] == diagnostic@);
            let entry = match diagnostic {
                Diagnostic::FileLoadError(err) => {
                    let message = err.to_string();
                    assert(shows_failure(err, message@));
                    ReportEntry { level: Level::Error, message, anchor: None }
                },
                Diagnostic::CompilerDiagnostic(d) => ReportEntry {
                    level: d.level,
                    message: d.message,
                    anchor: if anchored {
                        Some(d.span.offset)
                    } else {
                        None
                    },
                },
            };
            entries.push(entry);
        }
        Report { file_name, source, entries }
    }

    /// Adds the markers for this file's diagnostics to `markers`.
    pub(crate) fn push_markers(&self, markers: &mut Vec<Marker>)
        ensures
            markers_view(final(markers)@) == markers_view(old(markers)@) + markers_of(self@.diagnostics),
    {
        let mut i: usize = 0;
        assert(self@.diagnostics.take(0) =~= Seq::empty());
        while i < self.inner.len()
            invariant
                i <= self.inner.len(),
                markers_view(markers@) == markers_view(old(markers)@) + markers_of(
                    self@.diagnostics.take(i as int),
                ),
            decreases self.inner.len() - i,
        {
            let ghost before = markers_view(markers@);
            proof {
                let sofar = self@.diagnostics.take(i + 1);
                assert(sofar.drop_last() =~= self@.diagnostics.take(i as int));
                assert(sofar.last() == self.inner[i as int]@);
            }
            match &self.inner[i] {
                Diagnostic::FileLoadError(_) => {},
                Diagnostic::CompilerDiagnostic(d) => {
                    let marker = match d.level {
                        Level::Error => Marker::Error { message: d.message.clone(), span: d.span.span },
                        Level::Warning => {
                            let mut symbol = "WARNING_".to_owned();
                            let changed = replace_char(d.message.as_str(), '-', "_");
                            symbol.append(changed.as_str());
                            Marker::Warning { symbol, span: d.span.span }
                        },
                    };
                    markers.push(marker);
                    assert(markers_view(markers@) =~= before.push(marker@));
                },
            }
            i += 1;
        }
        assert(self@.diagnostics.take(i as int) =~= self@.diagnostics);
    }

    /// The markers for this file's diagnostics, in their order: one for each compiler
    /// diagnostic, none for a load failure.
    pub fn markers(&self) -> (markers: Vec<Marker>)
        ensures
            markers_view(markers@) == markers_of(self@.diagnostics),
    {
        let mut markers: Vec<Marker> = Vec::new();
        self.push_markers(&mut markers);
        assert(markers_view(markers@) =~= markers_of(self@.diagnostics));
        markers
    }
}

} // verus!
