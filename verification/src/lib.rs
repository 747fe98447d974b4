//! Collecting compiler diagnostics: errors and warnings are gathered per source file while a
//! build runs, located by byte offset, and later refined to richer locations, queried or
//! turned into text.

pub mod span;
pub mod diagnostic;
pub mod file_diagnostics;
pub mod resolve;
pub mod build_diagnostics;
pub mod report;

pub use crate::build_diagnostics::{BuildDiagnostics, BuildDiagnosticsView};
pub use crate::diagnostic::{CompilerDiagnostic, CompilerDiagnosticView, Diagnostic, DiagnosticView, Level};
pub use crate::file_diagnostics::{FileDiagnostics, FileDiagnosticsView};
pub use crate::report::{Marker, MarkerView, Report, ReportEntry, ReportEntryView, ReportView};
pub use crate::resolve::{Token, TokenSource};
pub use crate::span::{SourceFile, Span, SpanHandle, Spanned, SpannedWithSourceFile};
