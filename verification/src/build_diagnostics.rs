//! The diagnostics of a whole build: one bucket for each source file, found by the file's
//! path, and one more for what no file can be blamed for.

use crate::diagnostic::{CompilerDiagnostic, Diagnostic, DiagnosticView, Level};
use crate::file_diagnostics::{compiler_diagnostic, lines_view, FileDiagnostics, FileDiagnosticsView};
use crate::report::{markers_of_buckets, markers_view, Marker};
use crate::resolve::{find_tokens, lemma_resolve_twice, lemma_resolve_without_tokens, tokens_for, Token, TokenSource};
use crate::span::{share, SourceFile, Span, SpannedWithSourceFile};
use std::rc::Rc;
use vstd::prelude::*;

verus! {

/// The diagnostics of a build. Each file has at most one bucket, however often diagnostics
/// for it arrive; the buckets keep the order in which their files were first seen.
pub struct BuildDiagnostics {
    per_input_file_diagnostics: Vec<FileDiagnostics>,
    internal_errors: Option<FileDiagnostics>,
}

/// What a `BuildDiagnostics` stands for.
pub struct BuildDiagnosticsView {
    /// The buckets of the files, in the order in which the files were first seen.
    pub per_file: Seq<FileDiagnosticsView>,
    /// The bucket for diagnostics that belong to no file, once there is such a diagnostic.
    pub internal: Option<FileDiagnosticsView>,
}

/// The path under which the diagnostics that belong to no file are shown.
pub open spec fn internal_path() -> Seq<char> {
    "[internal error]"@
}

/// What a vector of buckets stands for, bucket by bucket.
pub open spec fn files_view(files: Seq<FileDiagnostics>) -> Seq<FileDiagnosticsView> {
    files.map_values(|f: FileDiagnostics| f@)
}

/// A bucket that holds one diagnostic and no source text.
pub open spec fn fresh_bucket(path: Seq<char>, diagnostic: DiagnosticView) -> FileDiagnosticsView {
    FileDiagnosticsView { diagnostics: seq![diagnostic], path, source: None }
}

impl BuildDiagnosticsView {
    /// No two buckets are for the same path.
    pub open spec fn well_formed(self) -> bool {
        forall|i: int, j: int|
            0 <= i < j < self.per_file.len() ==> (#[trigger] self.per_file[i]).path != (
            #[trigger] self.per_file[j]).path
    }

    /// Whether a bucket is kept for `path`.
    pub open spec fn has_bucket(self, path: Seq<char>) -> bool {
        exists|i: int| 0 <= i < self.per_file.len() && (#[trigger] self.per_file[i]).path == path
    }

    /// Where the bucket for `path` is, if there is one.
    pub open spec fn position(self, path: Seq<char>) -> Option<int> {
        if self.has_bucket(path) {
            Some(choose|i: int| 0 <= i < self.per_file.len() && (#[trigger] self.per_file[i]).path == path)
        } else {
            None
        }
    }

    /// The diagnostics kept for `path`: those of its bucket, and none where it has no bucket.
    pub open spec fn diagnostics_for(self, path: Seq<char>) -> Seq<DiagnosticView> {
        match self.position(path) {
            Some(i) => self.per_file[i].diagnostics,
            None => Seq::empty(),
        }
    }

    /// The build after the diagnostics of one file have been added. Where the file has a
    /// bucket, the new diagnostics go behind those it holds, and the bucket keeps its path
    /// and source text; where it has none, what was added becomes its bucket, the last one.
    pub open spec fn added(self, file: FileDiagnosticsView) -> BuildDiagnosticsView {
        match self.position(file.path) {
            Some(i) => BuildDiagnosticsView {
                per_file: self.per_file.update(i, self.per_file[i].with_all(file.diagnostics)),
                ..self
            },
            None => BuildDiagnosticsView { per_file: self.per_file.push(file), ..self },
        }
    }

    /// The build after the files of `files` have been added one after the other.
    pub open spec fn extended(self, files: Seq<FileDiagnosticsView>) -> BuildDiagnosticsView
        decreases files.len(),
    {
        if files.len() == 0 {
            self
        } else {
            self.extended(files.drop_last()).added(files.last())
        }
    }

    /// What `files` hold for `path`, file after file.
    pub open spec fn gathered(files: Seq<FileDiagnosticsView>, path: Seq<char>) -> Seq<DiagnosticView>
        decreases files.len(),
    {
        if files.len() == 0 {
            Seq::empty()
        } else {
            Self::gathered(files.drop_last(), path) + (if files.last().path == path {
                files.last().diagnostics
            } else {
                Seq::empty()
            })
        }
    }

    /// The build after one diagnostic has gone to the bucket for no file. The first such
    /// diagnostic makes that bucket.
    pub open spec fn with_internal(self, diagnostic: DiagnosticView) -> BuildDiagnosticsView {
        BuildDiagnosticsView {
            internal: Some(
                match self.internal {
                    Some(bucket) => bucket.with(diagnostic),
                    None => fresh_bucket(internal_path(), diagnostic),
                },
            ),
            ..self
        }
    }

    /// The build after one diagnostic has been sent where it belongs: to the bucket of
    /// the file at `path`, made on the spot where the file has none, or to the bucket for
    /// no file where there is no path.
    pub open spec fn routed(self, path: Option<Seq<char>>, diagnostic: DiagnosticView) -> BuildDiagnosticsView {
        match path {
            Some(path) => match self.position(path) {
                Some(i) => BuildDiagnosticsView {
                    per_file: self.per_file.update(i, self.per_file[i].with(diagnostic)),
                    ..self
                },
                None => BuildDiagnosticsView {
                    per_file: self.per_file.push(fresh_bucket(path, diagnostic)),
                    ..self
                },
            },
            None => self.with_internal(diagnostic),
        }
    }

    /// Every bucket: those of the files in their order, then the one for no file.
    pub open spec fn buckets(self) -> Seq<FileDiagnosticsView> {
        match self.internal {
            Some(bucket) => self.per_file.push(bucket),
            None => self.per_file,
        }
    }

    /// Whether any bucket has a diagnostic that makes the build fail.
    pub open spec fn has_error(self) -> bool {
        exists|i: int| 0 <= i < self.buckets().len() && (#[trigger] self.buckets()[i]).has_error()
    }
}

impl View for BuildDiagnostics {
    type V = BuildDiagnosticsView;

    closed spec fn view(&self) -> BuildDiagnosticsView {
        BuildDiagnosticsView {
            per_file: files_view(self.per_input_file_diagnostics@),
            internal: match self.internal_errors {
                Some(bucket) => Some(bucket@),
                None => None,
            },
        }
    }
}

impl Default for BuildDiagnostics {
    /// A build without any diagnostic.
    fn default() -> (build: BuildDiagnostics)
        ensures
            build@ == (BuildDiagnosticsView { per_file: Seq::empty(), internal: None }),
    {
        let build = BuildDiagnostics { per_input_file_diagnostics: Vec::new(), internal_errors: None };
        assert(build@.per_file =~= Seq::empty());
        build
    }
}

/// How many lines the first `count` buckets are shown in: one for each diagnostic.
pub open spec fn lines_before(buckets: Seq<FileDiagnosticsView>, count: int) -> int
    decreases count,
{
    if count <= 0 {
        0
    } else {
        lines_before(buckets, count - 1) + buckets[count - 1].diagnostics.len()
    }
}

/// The place, among the lines of all buckets, of the line for diagnostic `entry` of bucket
/// `bucket`.
pub open spec fn line_index(buckets: Seq<FileDiagnosticsView>, bucket: int, entry: int) -> int {
    lines_before(buckets, bucket) + entry
}

/// Whether `line` shows `diagnostic` for the file at `path`: the path, a colon and a
/// space, then a line for the diagnostic itself.
pub open spec fn shows_with_path(path: Seq<char>, diagnostic: DiagnosticView, line: Seq<char>) -> bool {
    let prefix = path + seq![':', ' '];
    &&& prefix.is_prefix_of(line)
    &&& diagnostic.renders_as(line.skip(prefix.len() as int))
}

/// Whether `lines` shows the first `count` buckets and nothing else: bucket after bucket,
/// and within a bucket diagnostic after diagnostic, each line with the path of its bucket
/// before it.
pub open spec fn shows_buckets(buckets: Seq<FileDiagnosticsView>, count: int, lines: Seq<Seq<char>>) -> bool {
    &&& lines.len() == lines_before(buckets, count)
    &&& forall|b: int, i: int|
        0 <= b < count && 0 <= i < buckets[b].diagnostics.len() ==> shows_with_path(
            buckets[b].path,
            buckets[b].diagnostics[i],
            lines[#[trigger] line_index(buckets, b, i)],
        )
}

impl BuildDiagnosticsView {
    /// Whether `lines` shows the whole build, every bucket in its place.
    pub open spec fn rendered_by(self, lines: Seq<Seq<char>>) -> bool {
        shows_buckets(self.buckets(), self.buckets().len() as int, lines)
    }

    /// The build after resolution: the bucket of each file resolved against the tokens
    /// that `sources` hold for that file, and the bucket for no file against `internal`.
    pub open spec fn resolved(self, sources: Seq<TokenSource>, internal: Seq<Token>) -> BuildDiagnosticsView {
        BuildDiagnosticsView {
            per_file: self.per_file.map_values(
                |f: FileDiagnosticsView| f.resolved(tokens_for(sources, f.path)),
            ),
            internal: match self.internal {
                Some(bucket) => Some(bucket.resolved(internal)),
                None => None,
            },
        }
    }
}

/// Adds to `lines` one line for each diagnostic of `bucket`, with the bucket's path
/// before it.
fn push_bucket_lines(bucket: &FileDiagnostics, lines: &mut Vec<String>)
    ensures
        final(lines)@.len() == old(lines)@.len() + bucket@.diagnostics.len(),
        forall|k: int| 0 <= k < old(lines)@.len() ==> final(lines)@[k] == old(lines)@[k],
        forall|i: int|
            0 <= i < bucket@.diagnostics.len() ==> shows_with_path(
                bucket@.path,
                #[trigger] bucket@.diagnostics[i],
                final(lines)@[old(lines)@.len() + i]@,
            ),
{
    let texts = bucket.to_string_vec();
    let mut i: usize = 0;
    while i < texts.len()
        invariant
            i <= texts.len(),
            texts@.len() == bucket@.diagnostics.len(),
            bucket@.rendered_by(lines_view(texts@)),
            lines@.len() == old(lines)@.len() + i,
            forall|k: int| 0 <= k < old(lines)@.len() ==> lines@[k] == old(lines)@[k],
            forall|k: int|
                0 <= k < i ==> shows_with_path(
                    bucket@.path,
                    #[trigger] bucket@.diagnostics[k],
                    lines@[old(lines)@.len() + k]@,
                ),
        decreases texts.len() - i,
    {
        let mut line: String = (*bucket.current_path).clone();
        line.append(": ");
        line.append(texts[i].as_str());
        proof {
            reveal_strlit(": ");
            let prefix = bucket@.path + seq![':', ' '];
            assert(": "@ =~= seq![':', ' ']);
            assert(line@ =~= prefix + texts@[i as int]@);
            assert(line@.skip(prefix.len() as int) =~= texts@[i as int]@);
            assert(lines_view(texts@)[i as int] == texts@[i as int]@);
            assert(bucket@.diagnostics[i as int].renders_as(texts@[i as int]@));
        }
        lines.push(line);
        i += 1;
    }
}

impl BuildDiagnostics {
    #[verifier::type_invariant]
    spec fn distinct_paths(self) -> bool {
        self@.well_formed()
    }

    /// Where the bucket for `path` is kept.
    fn find(&self, path: &SourceFile) -> (found: Option<usize>)
        ensures
            self@.well_formed(),
            match found {
                Some(i) => self@.position(path@) == Some(i as int) && i < self@.per_file.len(),
                None => self@.position(path@) is None,
            },
    {
        proof {
            use_type_invariant(self);
        }
        let mut i: usize = 0;
        while i < self.per_input_file_diagnostics.len()
            invariant
                i <= self.per_input_file_diagnostics.len(),
                self@.well_formed(),
                forall|k: int| 0 <= k < i ==> (#[trigger] self@.per_file[k]).path != path@,
            decreases self.per_input_file_diagnostics.len() - i,
        {
            if *self.per_input_file_diagnostics[i].current_path == **path {
                assert(self@.per_file[i as int].path == path@);
                return Some(i);
            }
            i += 1;
        }
        None
    }

    /// Takes the buckets of the files out, leaving none behind.
    fn take_files(&mut self) -> (files: Vec<FileDiagnostics>)
        ensures
            files_view(files@) == old(self)@.per_file,
            old(self)@.well_formed(),
            final(self)@ == (BuildDiagnosticsView { per_file: Seq::empty(), internal: old(self)@.internal }),
    {
        proof {
            use_type_invariant(&*self);
        }
        let mut files: Vec<FileDiagnostics> = Vec::new();
        std::mem::swap(&mut files, &mut self.per_input_file_diagnostics);
        assert(self@.per_file =~= Seq::empty());
        files
    }

    /// Puts buckets for distinct paths in the place of those of the files.
    fn put_files(&mut self, files: Vec<FileDiagnostics>)
        requires
            (BuildDiagnosticsView { per_file: files_view(files@), internal: None }).well_formed(),
        ensures
            final(self)@ == (BuildDiagnosticsView { per_file: files_view(files@), internal: old(self)@.internal }),
    {
        self.per_input_file_diagnostics = files;
    }

    /// Takes the bucket for no file out, leaving none behind.
    fn take_internal(&mut self) -> (bucket: Option<FileDiagnostics>)
        ensures
            old(self)@.internal == match bucket {
                Some(b) => Some(b@),
                None => None,
            },
            final(self)@ == (BuildDiagnosticsView { per_file: old(self)@.per_file, internal: None }),
    {
        proof {
            use_type_invariant(&*self);
        }
        let mut bucket: Option<FileDiagnostics> = None;
        std::mem::swap(&mut bucket, &mut self.internal_errors);
        bucket
    }

    /// Adds the diagnostics of one file. They join the bucket that the file has, behind
    /// what it holds, and the bucket keeps its own path and source text; a file without
    /// a bucket gets what was added as its bucket.
    pub fn add(&mut self, diagnostics: FileDiagnostics)
        ensures
            final(self)@ == old(self)@.added(diagnostics@),
            final(self)@.well_formed(),
    {
        let ghost added = diagnostics@;
        let mut incoming = diagnostics;
        let found = self.find(&incoming.current_path);
        let mut files = self.take_files();
        match found {
            Some(i) => {
                files[i].inner.append(&mut incoming.inner);
                assert(files[i as int]@.diagnostics =~= old(self)@.per_file[i as int].diagnostics
                    + added.diagnostics);
                assert(files_view(files@) =~= old(self)@.added(added).per_file);
            },
            None => {
                files.push(incoming);
                assert(files_view(files@) =~= old(self)@.added(added).per_file);
            },
        }
        self.put_files(files);
    }

    /// Adds the diagnostics of several files, one file after the other.
    pub fn extend(&mut self, files: Vec<FileDiagnostics>)
        ensures
            final(self)@ == old(self)@.extended(files_view(files@)),
            final(self)@.well_formed(),
    {
        proof {
            use_type_invariant(&*self);
        }
        for file in it: files
            invariant
                self@ == old(self)@.extended(files_view(files@).take(it.index() as int)),
                self@.well_formed(),
                it.seq() == files@,
        {
            proof {
                let sofar = files_view(files@).take(it.index() + 1);
                assert(sofar.drop_last() =~= files_view(files@).take(it.index() as int));
                assert(sofar.last() == file@);
            }
            self.add(file);
        }
        assert(files_view(files@).take(files@.len() as int) =~= files_view(files@));
    }

    /// Sends a diagnostic where it belongs: with a file, to the bucket of that file, which
    /// is made on the spot, without source text, where the file has none; without a file,
    /// to the bucket for no file.
    pub fn route_diagnostic(&mut self, message: String, source_file: Option<&SourceFile>, span: Span, level: Level)
        ensures
            final(self)@ == old(self)@.routed(
                match source_file {
                    Some(file) => Some(file@),
                    None => None,
                },
                compiler_diagnostic(message@, span, level),
            ),
            final(self)@.well_formed(),
    {
        match source_file {
            Some(file) => {
                let found = self.find(file);
                let mut files = self.take_files();
                match found {
                    Some(i) => {
                        files[i].push_diagnostic_with_span(message, span, level);
                    },
                    None => {
                        let mut bucket = FileDiagnostics {
                            inner: Vec::new(),
                            current_path: share(file),
                            source: None,
                        };
                        assert(bucket@.diagnostics =~= Seq::empty());
                        bucket.push_diagnostic_with_span(message, span, level);
                        assert(bucket@.diagnostics =~= seq![compiler_diagnostic(message@, span, level)]);
                        files.push(bucket);
                    },
                }
                assert(files_view(files@) =~= old(self)@.routed(
                    Some(file@),
                    compiler_diagnostic(message@, span, level),
                ).per_file);
                self.put_files(files);
            },
            None => {
                self.push_internal_error(Diagnostic::CompilerDiagnostic(CompilerDiagnostic { message, span, level }));
            },
        }
    }

    /// Sends a diagnostic to the bucket of the file that `source` names, or to the bucket
    /// for no file where it names none: the diagnostic is routed by a file and a span that
    /// `source` gave when asked, with this message and level.
    pub fn push_diagnostic<S: SpannedWithSourceFile + ?Sized>(&mut self, message: String, source: &S, level: Level)
        ensures
            exists|file: Option<&SourceFile>, path: Option<Seq<char>>, span: Span|
                call_ensures(S::span, (source,), span) && #[trigger] call_ensures(
                    S::source_file,
                    (source,),
                    file,
                ) && path == (match file {
                    Some(f) => Some(f@),
                    None => None,
                }) && final(self)@ == #[trigger] old(self)@.routed(
                    path,
                    compiler_diagnostic(message@, span, level),
                ),
            final(self)@.well_formed(),
    {
        let span = source.span();
        let source_file = source.source_file();
        let ghost path: Option<Seq<char>> = match source_file {
            Some(file) => Some(file@),
            None => None,
        };
        self.route_diagnostic(message, source_file, span, level);
        assert(call_ensures(S::span, (source,), span));
        assert(call_ensures(S::source_file, (source,), source_file));
        assert(self@ == old(self)@.routed(path, compiler_diagnostic(message@, span, level)));
    }

    /// Sends an error to the bucket of the file that `source` names, or to the bucket for
    /// no file where it names none.
    pub fn push_error<S: SpannedWithSourceFile + ?Sized>(&mut self, message: String, source: &S)
        ensures
            exists|file: Option<&SourceFile>, path: Option<Seq<char>>, span: Span|
                call_ensures(S::span, (source,), span) && #[trigger] call_ensures(
                    S::source_file,
                    (source,),
                    file,
                ) && path == (match file {
                    Some(f) => Some(f@),
                    None => None,
                }) && final(self)@ == #[trigger] old(self)@.routed(
                    path,
                    compiler_diagnostic(message@, span, Level::Error),
                ),
            final(self)@.well_formed(),
    {
        self.push_diagnostic(message, source, Level::Error)
    }

    /// Puts a diagnostic into the bucket for no file, whatever it speaks of.
    pub fn push_internal_error(&mut self, err: Diagnostic)
        ensures
            final(self)@ == old(self)@.with_internal(err@),
            final(self)@.well_formed(),
    {
        proof {
            use_type_invariant(&*self);
        }
        let mut bucket = match self.take_internal() {
            Some(bucket) => bucket,
            None => {
                let fresh = FileDiagnostics {
                    inner: Vec::new(),
                    current_path: Rc::new("[internal error]".to_owned()),
                    source: None,
                };
                assert(fresh@.diagnostics =~= Seq::empty());
                fresh
            },
        };
        bucket.push_entry(err);
        assert(old(self)@.internal is None ==> bucket@.diagnostics =~= seq![err@]);
        self.internal_errors = Some(bucket);
    }

    /// Whether any bucket, of a file or of none, has a diagnostic that makes the build
    /// fail.
    pub fn has_error(&self) -> (failing: bool)
        ensures
            failing == self@.has_error(),
            self@.well_formed(),
    {
        proof {
            use_type_invariant(self);
        }
        let mut i: usize = 0;
        while i < self.per_input_file_diagnostics.len()
            invariant
                i <= self.per_input_file_diagnostics.len(),
                self@.well_formed(),
                forall|k: int| 0 <= k < i ==> !(#[trigger] self@.per_file[k]).has_error(),
            decreases self.per_input_file_diagnostics.len() - i,
        {
            if self.per_input_file_diagnostics[i].has_error() {
                assert(self@.buckets()[i as int].has_error());
                return true;
            }
            i += 1;
        }
        match &self.internal_errors {
            Some(bucket) => {
                let failing = bucket.has_error();
                assert(self@.buckets()[self@.per_file.len() as int] == bucket@);
                failing
            },
            None => false,
        }
    }

    /// One line for each diagnostic of the build: bucket after bucket, the files first
    /// and in the order in which they were first seen, and each line with the path of its
    /// bucket, a colon and a space before it.
    pub fn to_string_vec(&self) -> (lines: Vec<String>)
        ensures
            self@.rendered_by(lines_view(lines@)),
            self@.well_formed(),
    {
        proof {
            use_type_invariant(self);
        }
        let mut lines: Vec<String> = Vec::new();
        let ghost buckets = self@.buckets();
        let mut b: usize = 0;
        while b < self.per_input_file_diagnostics.len()
            invariant
                b <= self.per_input_file_diagnostics.len(),
                buckets == self@.buckets(),
                self@.well_formed(),
                shows_buckets(buckets, b as int, lines_view(lines@)),
            decreases self.per_input_file_diagnostics.len() - b,
        {
            let ghost shown = lines_view(lines@);
            push_bucket_lines(&self.per_input_file_diagnostics[b], &mut lines);
            proof {
                assert(buckets[b as int] == self.per_input_file_diagnostics[b as int]@);
                lemma_bucket_shown(buckets, b as int, shown, lines_view(lines@));
            }
            b += 1;
        }
        match &self.internal_errors {
            Some(bucket) => {
                let ghost shown = lines_view(lines@);
                push_bucket_lines(bucket, &mut lines);
                proof {
                    assert(buckets[b as int] == bucket@);
                    lemma_bucket_shown(buckets, b as int, shown, lines_view(lines@));
                }
            },
            None => {},
        }
        lines
    }

    /// The markers for the whole build: those of each bucket, bucket after bucket, the
    /// files first and then the bucket for no file.
    pub fn markers(&self) -> (markers: Vec<Marker>)
        ensures
            markers_view(markers@) == markers_of_buckets(self@.buckets(), self@.buckets().len() as int),
            self@.well_formed(),
    {
        proof {
            use_type_invariant(self);
        }
        let mut markers: Vec<Marker> = Vec::new();
        let ghost buckets = self@.buckets();
        let mut b: usize = 0;
        assert(markers_view(markers@) =~= markers_of_buckets(buckets, 0));
        while b < self.per_input_file_diagnostics.len()
            invariant
                b <= self.per_input_file_diagnostics.len(),
                buckets == self@.buckets(),
                self@.well_formed(),
                markers_view(markers@) == markers_of_buckets(buckets, b as int),
            decreases self.per_input_file_diagnostics.len() - b,
        {
            assert(buckets[b as int] == self.per_input_file_diagnostics[b as int]@);
            self.per_input_file_diagnostics[b].push_markers(&mut markers);
            b += 1;
        }
        match &self.internal_errors {
            Some(bucket) => {
                assert(buckets[b as int] == bucket@);
                bucket.push_markers(&mut markers);
            },
            None => {},
        }
        markers
    }

    /// Every bucket, handed over: those of the files in the order in which the files
    /// were first seen, then the one for no file, where there is one.
    pub fn into_iter(self) -> (files: Vec<FileDiagnostics>)
        ensures
            files_view(files@) == self@.buckets(),
            self@.well_formed(),
    {
        proof {
            use_type_invariant(&self);
        }
        let mut build = self;
        let internal = build.take_internal();
        let mut files = build.take_files();
        match internal {
            Some(bucket) => {
                files.push(bucket);
            },
            None => {},
        }
        assert(files_view(files@) =~= self@.buckets());
        files
    }

    /// Resolves, in every bucket, the diagnostics whose spans know only their offset.
    /// The bucket of a file is resolved against the tokens that `sources` hold for that
    /// file: those of the first source with the file's path. A file without a source
    /// stays as it is. The bucket for no file is resolved against `internal`.
    pub fn map_offsets_to_span(&mut self, sources: &[TokenSource], internal: &[Token])
        ensures
            final(self)@ == old(self)@.resolved(sources@, internal@),
            final(self)@.well_formed(),
    {
        let mut files = self.take_files();
        let ghost before = files_view(files@);
        let mut i: usize = 0;
        while i < files.len()
            invariant
                i <= files.len(),
                files@.len() == before.len(),
                forall|k: int|
                    0 <= k < i ==> (#[trigger] files@[k])@ == before[k].resolved(
                        tokens_for(sources@, before[k].path),
                    ),
                forall|k: int| i <= k < files.len() ==> (#[trigger] files@[k])@ == before[k],
            decreases files.len() - i,
        {
            match find_tokens(sources, &files[i].current_path) {
                Some(at) => {
                    files[i].map_offsets_to_span(sources[at].tokens.as_slice());
                },
                None => {
                    proof {
                        lemma_resolve_without_tokens(before[i as int]);
                    }
                },
            }
            i += 1;
        }
        assert(files_view(files@) =~= old(self)@.resolved(sources@, internal@).per_file);
        self.put_files(files);
        match self.take_internal() {
            Some(bucket) => {
                let mut bucket = bucket;
                bucket.map_offsets_to_span(internal);
                self.internal_errors = Some(bucket);
            },
            None => {},
        }
    }
}

/// The lines of the first `count` buckets are never negative in number, and one more
/// bucket adds as many lines as it has diagnostics.
pub proof fn lemma_lines_before_grows(buckets: Seq<FileDiagnosticsView>, count: int)
    requires
        0 <= count,
    ensures
        0 <= lines_before(buckets, count),
        lines_before(buckets, count + 1) == lines_before(buckets, count) + buckets[count].diagnostics.len(),
    decreases count,
{
    if count > 0 {
        lemma_lines_before_grows(buckets, count - 1);
    }
}

/// More buckets never take fewer lines.
pub proof fn lemma_lines_before_monotone(buckets: Seq<FileDiagnosticsView>, fewer: int, more: int)
    requires
        0 <= fewer <= more,
    ensures
        lines_before(buckets, fewer) <= lines_before(buckets, more),
    decreases more - fewer,
{
    if fewer < more {
        lemma_lines_before_monotone(buckets, fewer, more - 1);
        lemma_lines_before_grows(buckets, more - 1);
    }
}

/// Lines that show the first `count` buckets, with the lines of the next bucket behind
/// them, show one bucket more.
pub proof fn lemma_bucket_shown(
    buckets: Seq<FileDiagnosticsView>,
    count: int,
    shown: Seq<Seq<char>>,
    lines: Seq<Seq<char>>,
)
    requires
        0 <= count,
        shows_buckets(buckets, count, shown),
        lines.len() == shown.len() + buckets[count].diagnostics.len(),
        forall|k: int| 0 <= k < shown.len() ==> lines[k] == shown[k],
        forall|i: int|
            0 <= i < buckets[count].diagnostics.len() ==> shows_with_path(
                buckets[count].path,
                #[trigger] buckets[count].diagnostics[i],
                lines[shown.len() + i],
            ),
    ensures
        shows_buckets(buckets, count + 1, lines),
{
    lemma_lines_before_grows(buckets, count);
    assert forall|b: int, i: int|
        0 <= b < count + 1 && 0 <= i < buckets[b].diagnostics.len() implies shows_with_path(
        buckets[b].path,
        buckets[b].diagnostics[i],
        lines[#[trigger] line_index(buckets, b, i)],
    ) by {
        lemma_lines_before_grows(buckets, b);
        if b < count {
            lemma_lines_before_monotone(buckets, b + 1, count);
            assert(lines[line_index(buckets, b, i)] == shown[line_index(buckets, b, i)]);
        } else {
            assert(buckets[count].diagnostics[i] == buckets[b].diagnostics[i]);
        }
    }
}

/// In a build whose buckets are for distinct paths, a bucket is found at its own place.
pub proof fn lemma_position(build: BuildDiagnosticsView, index: int)
    requires
        build.well_formed(),
        0 <= index < build.per_file.len(),
    ensures
        build.position(build.per_file[index].path) == Some(index),
{
    assert(build.has_bucket(build.per_file[index].path));
}

/// What adding the diagnostics of one file does: the file has a bucket afterwards, which
/// holds what was kept for the file before and then what was added; no other file is
/// touched; a bucket is made only where the file had none; the bucket for no file stays.
pub proof fn lemma_added(build: BuildDiagnosticsView, file: FileDiagnosticsView)
    requires
        build.well_formed(),
    ensures
        build.added(file).well_formed(),
        build.added(file).has_bucket(file.path),
        build.added(file).diagnostics_for(file.path) == build.diagnostics_for(file.path) + file.diagnostics,
        forall|other: Seq<char>|
            other != file.path ==> #[trigger] build.added(file).has_bucket(other) == build.has_bucket(other),
        forall|other: Seq<char>|
            other != file.path ==> #[trigger] build.added(file).diagnostics_for(other)
                == build.diagnostics_for(other),
        build.added(file).per_file.len() == build.per_file.len() + (if build.has_bucket(file.path) {
            0int
        } else {
            1int
        }),
        build.added(file).internal == build.internal,
{
    let after = build.added(file);
    match build.position(file.path) {
        Some(i) => {
            assert(after.per_file[i].path == file.path);
            assert(after.well_formed()) by {
                assert forall|a: int, b: int| 0 <= a < b < after.per_file.len() implies (
                #[trigger] after.per_file[a]).path != (#[trigger] after.per_file[b]).path by {
                    assert(after.per_file[a].path == build.per_file[a].path);
                    assert(after.per_file[b].path == build.per_file[b].path);
                }
            }
            lemma_position(after, i);
            assert forall|other: Seq<char>| other != file.path implies #[trigger] after.has_bucket(other)
                == build.has_bucket(other) by {
                lemma_same_paths(build, after, other);
            }
            assert forall|other: Seq<char>| other != file.path implies #[trigger] after.diagnostics_for(
                other,
            ) == build.diagnostics_for(other) by {
                lemma_same_paths(build, after, other);
            }
        },
        None => {
            let last = build.per_file.len() as int;
            assert(after.per_file[last] == file);
            assert(after.well_formed()) by {
                assert forall|a: int, b: int| 0 <= a < b < after.per_file.len() implies (
                #[trigger] after.per_file[a]).path != (#[trigger] after.per_file[b]).path by {
                    assert(after.per_file[a] == build.per_file[a]);
                    if b < last {
                        assert(after.per_file[b] == build.per_file[b]);
                    }
                }
            }
            lemma_position(after, last);
            assert(file.diagnostics =~= Seq::<DiagnosticView>::empty() + file.diagnostics);
            assert forall|other: Seq<char>| other != file.path implies #[trigger] after.has_bucket(other)
                == build.has_bucket(other) by {
                lemma_kept_buckets(build, file, other);
            }
            assert forall|other: Seq<char>| other != file.path implies #[trigger] after.diagnostics_for(
                other,
            ) == build.diagnostics_for(other) by {
                lemma_kept_buckets(build, file, other);
            }
        },
    }
}

/// A bucket put behind the others, for a path that none of them has, leaves what is kept
/// for every other path.
proof fn lemma_kept_buckets(build: BuildDiagnosticsView, file: FileDiagnosticsView, other: Seq<char>)
    requires
        build.well_formed(),
        !build.has_bucket(file.path),
        other != file.path,
    ensures
        ({
            let after = BuildDiagnosticsView { per_file: build.per_file.push(file), ..build };
            &&& after.well_formed()
            &&& after.has_bucket(other) == build.has_bucket(other)
            &&& after.diagnostics_for(other) == build.diagnostics_for(other)
        }),
{
    let after = BuildDiagnosticsView { per_file: build.per_file.push(file), ..build };
    let last = build.per_file.len() as int;
    assert forall|a: int, b: int| 0 <= a < b < after.per_file.len() implies (#[trigger] after.per_file[a]).path
        != (#[trigger] after.per_file[b]).path by {
        assert(after.per_file[a] == build.per_file[a]);
        if b < last {
            assert(after.per_file[b] == build.per_file[b]);
        }
    }
    if build.has_bucket(other) {
        let k = build.position(other)->0;
        assert(after.per_file[k] == build.per_file[k]);
        lemma_position(after, k);
        lemma_position(build, k);
    }
    if after.has_bucket(other) {
        let k = after.position(other)->0;
        assert(after.per_file[k] == build.per_file[k]);
        lemma_position(after, k);
        lemma_position(build, k);
    }
}

/// Two builds with the same paths in the same places, and the same diagnostics under
/// `other`, keep the same for `other`.
proof fn lemma_same_paths(before: BuildDiagnosticsView, after: BuildDiagnosticsView, other: Seq<char>)
    requires
        before.well_formed(),
        after.well_formed(),
        before.per_file.len() == after.per_file.len(),
        forall|k: int| 0 <= k < before.per_file.len() ==> (#[trigger] before.per_file[k]).path == after.per_file[k].path,
        forall|k: int|
            0 <= k < before.per_file.len() && (#[trigger] before.per_file[k]).path == other
                ==> before.per_file[k].diagnostics == after.per_file[k].diagnostics,
    ensures
        after.has_bucket(other) == before.has_bucket(other),
        after.diagnostics_for(other) == before.diagnostics_for(other),
{
    if before.has_bucket(other) {
        let k = before.position(other)->0;
        assert(after.per_file[k].path == other);
        lemma_position(after, k);
        lemma_position(before, k);
    }
    if after.has_bucket(other) {
        let k = after.position(other)->0;
        assert(before.per_file[k].path == other);
        lemma_position(after, k);
        lemma_position(before, k);
    }
}

/// Adding twice for one file appends twice: the file's bucket then holds what it held,
/// then the first addition, then the second, and the second addition makes no bucket.
pub proof fn lemma_add_twice_same_path(
    build: BuildDiagnosticsView,
    first: FileDiagnosticsView,
    second: FileDiagnosticsView,
)
    requires
        build.well_formed(),
        first.path == second.path,
    ensures
        build.added(first).added(second).well_formed(),
        build.added(first).added(second).diagnostics_for(first.path) == build.diagnostics_for(first.path)
            + first.diagnostics + second.diagnostics,
        build.added(first).added(second).diagnostics_for(first.path).len() == build.diagnostics_for(
            first.path,
        ).len() + first.diagnostics.len() + second.diagnostics.len(),
        build.added(first).added(second).per_file.len() == build.added(first).per_file.len(),
{
    lemma_added(build, first);
    lemma_added(build.added(first), second);
}

/// Adding for two different files gives two buckets in two places, each with what was
/// added for its file behind what the file had.
pub proof fn lemma_add_distinct_paths(
    build: BuildDiagnosticsView,
    first: FileDiagnosticsView,
    second: FileDiagnosticsView,
)
    requires
        build.well_formed(),
        first.path != second.path,
    ensures
        build.added(first).added(second).well_formed(),
        build.added(first).added(second).position(first.path) is Some,
        build.added(first).added(second).position(second.path) is Some,
        build.added(first).added(second).position(first.path) != build.added(first).added(second).position(
            second.path,
        ),
        build.added(first).added(second).diagnostics_for(first.path) == build.diagnostics_for(first.path)
            + first.diagnostics,
        build.added(first).added(second).diagnostics_for(second.path) == build.diagnostics_for(second.path)
            + second.diagnostics,
{
    lemma_added(build, first);
    lemma_added(build.added(first), second);
    let after = build.added(first).added(second);
    assert(build.added(first).has_bucket(first.path));
    assert(after.has_bucket(first.path) == build.added(first).has_bucket(first.path));
    assert(after.diagnostics_for(first.path) == build.added(first).diagnostics_for(first.path));
    assert(build.added(first).diagnostics_for(second.path) == build.diagnostics_for(second.path));
    let i = after.position(first.path)->0;
    let j = after.position(second.path)->0;
    assert(after.per_file[i].path == first.path);
    assert(after.per_file[j].path == second.path);
}

/// Adding several files loses nothing: afterwards each path has what it had, and behind
/// that what the added files hold for it, file after file. The bucket for no file stays.
pub proof fn lemma_extended(build: BuildDiagnosticsView, files: Seq<FileDiagnosticsView>, path: Seq<char>)
    requires
        build.well_formed(),
    ensures
        build.extended(files).well_formed(),
        build.extended(files).diagnostics_for(path) == build.diagnostics_for(path)
            + BuildDiagnosticsView::gathered(files, path),
        build.extended(files).internal == build.internal,
    decreases files.len(),
{
    if files.len() == 0 {
        assert(build.diagnostics_for(path) + Seq::<DiagnosticView>::empty() =~= build.diagnostics_for(path));
    } else {
        let before = build.extended(files.drop_last());
        let gathered = BuildDiagnosticsView::gathered(files.drop_last(), path);
        lemma_extended(build, files.drop_last(), path);
        lemma_added(before, files.last());
        if files.last().path == path {
            assert((build.diagnostics_for(path) + gathered) + files.last().diagnostics
                =~= build.diagnostics_for(path) + (gathered + files.last().diagnostics));
        } else {
            assert(gathered + Seq::<DiagnosticView>::empty() =~= gathered);
        }
    }
}

/// Resolving a build a second time against the same tokens changes nothing.
pub proof fn lemma_resolve_build_twice(
    build: BuildDiagnosticsView,
    sources: Seq<TokenSource>,
    internal: Seq<Token>,
)
    ensures
        build.resolved(sources, internal).resolved(sources, internal) == build.resolved(sources, internal),
{
    let once = build.resolved(sources, internal);
    assert forall|i: int| 0 <= i < once.per_file.len() implies (#[trigger] once.per_file[i]).resolved(
        tokens_for(sources, once.per_file[i].path),
    ) == once.per_file[i] by {
        lemma_resolve_twice(build.per_file[i], tokens_for(sources, build.per_file[i].path));
    }
    assert(once.resolved(sources, internal).per_file =~= once.per_file);
    match build.internal {
        Some(bucket) => {
            lemma_resolve_twice(bucket, internal);
        },
        None => {},
    }
}

/// Resolution changes no bucket but in the spans of its diagnostics: the buckets, their
/// paths and source texts, and the number of diagnostics in each stay.
pub proof fn lemma_resolved_keeps_buckets(
    build: BuildDiagnosticsView,
    sources: Seq<TokenSource>,
    internal: Seq<Token>,
)
    ensures
        build.resolved(sources, internal).per_file.len() == build.per_file.len(),
        forall|i: int|
            0 <= i < build.per_file.len() ==> {
                let after = #[trigger] build.resolved(sources, internal).per_file[i];
                &&& after.path == build.per_file[i].path
                &&& after.source == build.per_file[i].source
                &&& after.diagnostics.len() == build.per_file[i].diagnostics.len()
            },
        build.resolved(sources, internal).internal is Some == build.internal is Some,
        build.well_formed() ==> build.resolved(sources, internal).well_formed(),
{
}

/// A build fails exactly if the bucket of some file does, or the bucket for no file.
pub proof fn lemma_has_error_by_bucket(build: BuildDiagnosticsView)
    ensures
        build.has_error() == ((exists|i: int|
            0 <= i < build.per_file.len() && (#[trigger] build.per_file[i]).has_error()) || (build.internal
            matches Some(bucket) && bucket.has_error())),
{
    let buckets = build.buckets();
    if build.has_error() {
        let i = choose|i: int| 0 <= i < buckets.len() && (#[trigger] buckets[i]).has_error();
        if i < build.per_file.len() {
            assert(build.per_file[i].has_error());
        }
    }
    if exists|i: int| 0 <= i < build.per_file.len() && (#[trigger] build.per_file[i]).has_error() {
        let i = choose|i: int| 0 <= i < build.per_file.len() && (#[trigger] build.per_file[i]).has_error();
        assert(buckets[i].has_error());
    }
    if build.internal matches Some(bucket) && bucket.has_error() {
        assert(buckets[build.per_file.len() as int].has_error());
    }
}

} // verus!
