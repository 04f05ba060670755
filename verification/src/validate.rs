//! Repository-wide validation.
//!
//! Schema conformance is only the easy half. The interesting failures are
//! *referential*: a lesson pointing at a quiz that was renamed, two Trials
//! sharing a slug, an OSS example pinned to a branch instead of a commit, a
//! wrong answer with no explanation of why it is wrong. Those are what this
//! module looks for.
//!
//! Every check appends its findings to a [`ValidationReport`] in discovery
//! order, and each function states exactly which findings it appends.

use vstd::prelude::*;
use vstd::seq_lib::lemma_concat_associative;

use crate::docmap::{compare_keys, DocMap};
use crate::model::{
    Cheatsheet, Example, LearningPath, Lesson, Limits, OssExample, Quiz, QuizOption, TestCase,
    Trial, Versioned, Visibility, CONTENT_FORMAT_VERSION,
};
use crate::text::{
    all_hex, any_upper, chars_of, concat2, concat3, count, count_of, debug_quoted, debug_text,
    decimal, doubled, has_doubled, is_blank, is_digit, is_lower, push_decimal, spec_is_digit,
    spec_is_hex, spec_is_lower, spec_is_upper, text, trim, trimmed_shorter_than, utf8_len,
};

verus! {

/// How bad a finding is.
#[derive(Debug, Clone, Copy, PartialEq, Eq, Structural, PartialOrd, Ord)]
pub enum Severity {
    /// Blocks the build.
    Error,
    /// Worth fixing, does not block.
    Warning,
}

/// One finding.
#[derive(Debug, Clone, PartialEq, Eq)]
pub struct Diagnostic {
    /// How bad it is.
    pub severity: Severity,
    /// Where it was found.
    pub location: String,
    /// What is wrong.
    pub message: String,
}

/// A finding as plain values: severity, location, message.
pub type Finding = (Severity, Seq<char>, Seq<char>);

impl View for Diagnostic {
    type V = Finding;

    open spec fn view(&self) -> Finding {
        (self.severity, self.location@, self.message@)
    }
}

/// The word that introduces a finding of this severity.
pub open spec fn severity_label(s: Severity) -> Seq<char> {
    match s {
        Severity::Error => "error"@,
        Severity::Warning => "warning"@,
    }
}

/// How a finding is printed: `{label}: {location}: {message}`.
pub open spec fn rendered(f: Finding) -> Seq<char> {
    severity_label(f.0) + ": "@ + f.1 + ": "@ + f.2
}

impl Diagnostic {
    /// The one-line form of this finding, as the command line prints it.
    pub fn render(&self) -> (r: String)
        ensures
            r@ == rendered(self@),
    {
        let mut r = match self.severity {
            Severity::Error => text("error"),
            Severity::Warning => text("warning"),
        };
        r.append(": ");
        r.append(self.location.as_str());
        r.append(": ");
        r.append(self.message.as_str());
        r
    }
}

/// Everything loaded from the repository, each kind keyed by identifier
/// (Trials by slug). Each entry holds the document's file path and the
/// document.
#[derive(Debug)]
pub struct Content {
    /// Learning paths, keyed by id.
    pub paths: DocMap<LearningPath>,
    /// Lessons, keyed by id.
    pub lessons: DocMap<Lesson>,
    /// Quizzes, keyed by id.
    pub quizzes: DocMap<Quiz>,
    /// Cheatsheets, keyed by id.
    pub cheatsheets: DocMap<Cheatsheet>,
    /// OSS examples, keyed by id.
    pub oss: DocMap<OssExample>,
    /// Trials, keyed by slug.
    pub trials: DocMap<Trial>,
}

/// Content with no documents of any kind.
pub open spec fn is_empty_content(c: Content) -> bool {
    &&& c.paths.size() == 0
    &&& c.lessons.size() == 0
    &&& c.quizzes.size() == 0
    &&& c.cheatsheets.size() == 0
    &&& c.oss.size() == 0
    &&& c.trials.size() == 0
}

impl Default for Content {
    fn default() -> (c: Self)
        ensures
            is_empty_content(c),
    {
        Content {
            paths: DocMap::new(),
            lessons: DocMap::new(),
            quizzes: DocMap::new(),
            cheatsheets: DocMap::new(),
            oss: DocMap::new(),
            trials: DocMap::new(),
        }
    }
}

/// The outcome of validating a repository.
#[derive(Debug)]
pub struct ValidationReport {
    /// Findings, in discovery order.
    pub diagnostics: Vec<Diagnostic>,
    /// How many documents were checked.
    pub documents: usize,
}

impl Default for ValidationReport {
    fn default() -> (r: Self)
        ensures
            r.findings().len() == 0,
            r.documents == 0,
    {
        ValidationReport { diagnostics: Vec::new(), documents: 0 }
    }
}

/// Number of blocking findings in `f`.
pub open spec fn count_errors(f: Seq<Finding>) -> nat
    decreases f.len(),
{
    if f.len() == 0 {
        0
    } else {
        count_errors(f.drop_last()) + if f.last().0 == Severity::Error {
            1nat
        } else {
            0nat
        }
    }
}

/// Some finding in `f` blocks the build.
pub open spec fn any_error(f: Seq<Finding>) -> bool {
    exists|i: int| 0 <= i < f.len() && (#[trigger] f[i]).0 == Severity::Error
}

/// A blocking finding.
pub open spec fn error_at(location: Seq<char>, message: Seq<char>) -> Finding {
    (Severity::Error, location, message)
}

/// A non-blocking finding.
pub open spec fn warning_at(location: Seq<char>, message: Seq<char>) -> Finding {
    (Severity::Warning, location, message)
}

/// `f` when `c` holds, nothing otherwise.
pub open spec fn when(c: bool, f: Finding) -> Seq<Finding> {
    if c {
        seq![f]
    } else {
        Seq::empty()
    }
}

/// There are blocking findings exactly when the error count is positive.
pub proof fn lemma_any_error_iff_count(f: Seq<Finding>)
    ensures
        any_error(f) == (count_errors(f) > 0),
        count_errors(f) <= f.len(),
    decreases f.len(),
{
    if f.len() > 0 {
        let g = f.drop_last();
        lemma_any_error_iff_count(g);
        if any_error(g) {
            let i = choose|i: int| 0 <= i < g.len() && (#[trigger] g[i]).0 == Severity::Error;
            assert(f[i] == g[i]);
        }
        if any_error(f) {
            let i = choose|i: int| 0 <= i < f.len() && (#[trigger] f[i]).0 == Severity::Error;
            if i < g.len() {
                assert(f[i] == g[i]);
            }
        }
        if f.last().0 == Severity::Error {
            assert(f[f.len() - 1].0 == Severity::Error);
        }
    }
}

/// Appending findings never removes an error already reported.
pub proof fn lemma_count_errors_append(a: Seq<Finding>, b: Seq<Finding>)
    ensures
        count_errors(a + b) == count_errors(a) + count_errors(b),
    decreases b.len(),
{
    if b.len() == 0 {
        assert(a + b =~= a);
    } else {
        lemma_count_errors_append(a, b.drop_last());
        assert((a + b).drop_last() =~= a + b.drop_last());
    }
}

/// A warning never blocks the build: recording one leaves the error count as
/// it was, while recording an error raises it by one.
pub proof fn lemma_warnings_do_not_block(f: Seq<Finding>, location: Seq<char>, message: Seq<char>)
    ensures
        count_errors(f.push(warning_at(location, message))) == count_errors(f),
        count_errors(f.push(error_at(location, message))) == count_errors(f) + 1,
        any_error(f.push(error_at(location, message))),
{
    assert(f.push(warning_at(location, message)).drop_last() =~= f);
    assert(f.push(error_at(location, message)).drop_last() =~= f);
    assert(f.push(error_at(location, message))[f.len() as int].0 == Severity::Error);
}

impl ValidationReport {
    /// The findings as plain values, in discovery order.
    pub open spec fn findings(&self) -> Seq<Finding> {
        self.diagnostics@.map_values(|d: Diagnostic| d@)
    }

    /// Whether any finding blocks the build.
    pub fn has_errors(&self) -> (b: bool)
        ensures
            b == any_error(self.findings()),
            b == (count_errors(self.findings()) > 0),
    {
        proof {
            lemma_any_error_iff_count(self.findings());
        }
        let n = self.diagnostics.len();
        let mut i: usize = 0;
        while i < n
            invariant
                n == self.diagnostics@.len(),
                i <= n,
                forall|j: int| 0 <= j < i ==> (#[trigger] self.findings()[j]).0 != Severity::Error,
                any_error(self.findings()) == (count_errors(self.findings()) > 0),
            decreases n - i,
        {
            if self.diagnostics[i].severity == Severity::Error {
                assert(self.findings()[i as int].0 == Severity::Error);
                return true;
            }
            i = i + 1;
        }
        false
    }

    /// Number of blocking findings.
    pub fn error_count(&self) -> (n: usize)
        ensures
            n == count_errors(self.findings()),
    {
        let len = self.diagnostics.len();
        let mut k: usize = 0;
        let mut i: usize = 0;
        while i < len
            invariant
                len == self.diagnostics@.len(),
                i <= len,
                k == count_errors(self.findings().take(i as int)),
                k <= i,
            decreases len - i,
        {
            assert(self.findings().take(i + 1).drop_last() =~= self.findings().take(i as int));
            if self.diagnostics[i].severity == Severity::Error {
                k = k + 1;
            }
            i = i + 1;
        }
        assert(self.findings().take(len as int) =~= self.findings());
        k
    }

    /// Records a blocking finding.
    pub fn error(&mut self, location: String, message: String)
        ensures
            final(self).findings() == old(self).findings().push(error_at(location@, message@)),
            final(self).documents == old(self).documents,
    {
        self.diagnostics.push(Diagnostic { severity: Severity::Error, location, message });
        assert(self.findings() =~= old(self).findings().push(error_at(location@, message@)));
    }

    /// Records a non-blocking finding.
    pub fn warn(&mut self, location: String, message: String)
        ensures
            final(self).findings() == old(self).findings().push(warning_at(location@, message@)),
            final(self).documents == old(self).documents,
    {
        self.diagnostics.push(Diagnostic { severity: Severity::Warning, location, message });
        assert(self.findings() =~= old(self).findings().push(warning_at(location@, message@)));
    }

    /// Records `f` when `c` holds.
    fn record_if(&mut self, c: bool, severity: Severity, location: &String, message: String)
        ensures
            final(self).findings() == old(self).findings() + when(
                c,
                (severity, location@, message@),
            ),
            final(self).documents == old(self).documents,
    {
        if c {
            self.diagnostics.push(
                Diagnostic { severity, location: location.clone(), message },
            );
            assert(self.findings() =~= old(self).findings() + when(
                c,
                (severity, location@, message@),
            ));
        } else {
            assert(self.findings() =~= old(self).findings() + when(
                c,
                (severity, location@, message@),
            ));
        }
    }
}

// ---------------------------------------------------------------------------
// Loading
// ---------------------------------------------------------------------------

/// Whether one of `parents` is exactly `name`.
pub open spec fn has_component(parents: Seq<Seq<char>>, name: Seq<char>) -> bool {
    exists|i: int| 0 <= i < parents.len() && #[trigger] parents[i] == name
}

/// The kind of document a file holds, judged by its name and the names of the
/// components of its path.
pub open spec fn spec_classify(name: Seq<char>, parents: Seq<Seq<char>>) -> Seq<char> {
    if name == "path.json"@ {
        "learning path"@
    } else if name == "trial.json"@ {
        "trial"@
    } else if has_component(parents, "quizzes"@) {
        "quiz"@
    } else if has_component(parents, "cheatsheets"@) {
        "cheatsheet"@
    } else if has_component(parents, "oss"@) {
        "OSS example"@
    } else if has_component(parents, "learn"@) {
        "lesson"@
    } else {
        "unknown"@
    }
}

/// The views of a list of strings.
pub open spec fn views(v: Seq<String>) -> Seq<Seq<char>> {
    v.map_values(|s: String| s@)
}

fn component_present(parents: &Vec<String>, name: &str) -> (b: bool)
    ensures
        b == has_component(views(parents@), name@),
{
    let n = parents.len();
    let mut i: usize = 0;
    while i < n
        invariant
            n == parents@.len(),
            i <= n,
            forall|j: int| 0 <= j < i ==> #[trigger] parents@[j]@ != name@,
        decreases n - i,
    {
        if compare_keys(parents[i].as_str(), name) == 0 {
            assert(views(parents@)[i as int] == name@);
            return true;
        }
        i = i + 1;
    }
    assert forall|j: int| 0 <= j < views(parents@).len() implies #[trigger] views(parents@)[j]
        != name@ by {
        assert(views(parents@)[j] == parents@[j]@);
    }
    false
}

/// The kind of document at a path whose file name is `name` and whose
/// components are `parents`.
pub fn classify(name: &str, parents: &Vec<String>) -> (kind: &'static str)
    ensures
        kind@ == spec_classify(name@, views(parents@)),
{
    if compare_keys(name, "path.json") == 0 {
        return "learning path";
    }
    if compare_keys(name, "trial.json") == 0 {
        return "trial";
    }
    if component_present(parents, "quizzes") {
        return "quiz";
    }
    if component_present(parents, "cheatsheets") {
        return "cheatsheet";
    }
    if component_present(parents, "oss") {
        return "OSS example";
    }
    if component_present(parents, "learn") {
        return "lesson";
    }
    "unknown"
}

/// A document read and parsed from its file.
#[derive(Debug)]
pub enum Document {
    /// A learning path.
    LearningPath(LearningPath),
    /// A lesson.
    Lesson(Lesson),
    /// A quiz.
    Quiz(Quiz),
    /// A cheatsheet.
    Cheatsheet(Cheatsheet),
    /// An OSS example.
    OssExample(OssExample),
    /// A Trial.
    Trial(Trial),
}

/// What became of one JSON file found under the content root.
#[derive(Debug)]
pub enum Reading {
    /// The file could not be read.
    Unreadable,
    /// The file is of no known kind and was not parsed.
    Skipped,
    /// The file does not parse as its kind; the parser's message.
    Malformed(String),
    /// The file parsed as its kind.
    Parsed(Document),
}

/// One JSON file found under the content root.
#[derive(Debug)]
pub struct SourceFile {
    /// The file's path, as stored with its document.
    pub path: String,
    /// The path relative to the content root, for findings.
    pub relative: String,
    /// The file name.
    pub file_name: String,
    /// The names of the path's components.
    pub components: Vec<String>,
    /// What reading and parsing it gave.
    pub reading: Reading,
}

/// The kind of `f`, from its name and components.
pub open spec fn file_kind(f: SourceFile) -> Seq<char> {
    spec_classify(f.file_name@, views(f.components@))
}

/// The reading agrees with the kind: a file of a known kind was parsed as
/// that kind, and a file of no known kind was not parsed.
pub open spec fn reading_fits_kind(f: SourceFile) -> bool {
    let kind = file_kind(f);
    match f.reading {
        Reading::Unreadable => true,
        Reading::Malformed(_) => kind != "unknown"@,
        Reading::Skipped => kind == "unknown"@,
        Reading::Parsed(d) => match d {
            Document::LearningPath(_) => kind == "learning path"@,
            Document::Lesson(_) => kind == "lesson"@,
            Document::Quiz(_) => kind == "quiz"@,
            Document::Cheatsheet(_) => kind == "cheatsheet"@,
            Document::OssExample(_) => kind == "OSS example"@,
            Document::Trial(_) => kind == "trial"@,
        },
    }
}

/// The findings that loading `f` reports.
pub open spec fn load_file_findings(f: SourceFile) -> Seq<Finding> {
    match f.reading {
        Reading::Unreadable => seq![error_at(f.relative@, "cannot be read"@)],
        Reading::Malformed(e) => seq![
            error_at(
                f.relative@,
                "does not match the "@ + file_kind(f) + " schema: "@ + e@,
            ),
        ],
        _ => Seq::empty(),
    }
}

/// The findings that loading the first `n` files reports.
pub open spec fn load_findings(files: Seq<SourceFile>, n: nat) -> Seq<Finding>
    decreases n,
{
    if n == 0 {
        Seq::empty()
    } else {
        load_findings(files, (n - 1) as nat) + load_file_findings(files[n - 1])
    }
}

/// Whether `f` counts as a checked document: it was read and is of a known kind.
pub open spec fn counts_as_document(f: SourceFile) -> bool {
    match f.reading {
        Reading::Unreadable => false,
        Reading::Skipped => false,
        _ => true,
    }
}

/// How many of the first `n` files count as documents.
pub open spec fn document_count(files: Seq<SourceFile>, n: nat) -> nat
    decreases n,
{
    if n == 0 {
        0
    } else {
        document_count(files, (n - 1) as nat) + if counts_as_document(files[n - 1]) {
            1nat
        } else {
            0nat
        }
    }
}

/// The learning path with id `k` that the last of the first `n` files holding
/// one provides, with its file path.
pub open spec fn loaded_path(files: Seq<SourceFile>, n: nat, k: Seq<char>) -> Option<(String, LearningPath)>
    decreases n,
{
    if n == 0 {
        None
    } else {
        let f = files[n - 1];
        match f.reading {
            Reading::Parsed(Document::LearningPath(v)) if v.id@ == k => Some((f.path, v)),
            _ => loaded_path(files, (n - 1) as nat, k),
        }
    }
}

/// As [`loaded_path`], for lessons.
pub open spec fn loaded_lesson(files: Seq<SourceFile>, n: nat, k: Seq<char>) -> Option<(String, Lesson)>
    decreases n,
{
    if n == 0 {
        None
    } else {
        let f = files[n - 1];
        match f.reading {
            Reading::Parsed(Document::Lesson(v)) if v.id@ == k => Some((f.path, v)),
            _ => loaded_lesson(files, (n - 1) as nat, k),
        }
    }
}

/// As [`loaded_path`], for quizzes.
pub open spec fn loaded_quiz(files: Seq<SourceFile>, n: nat, k: Seq<char>) -> Option<(String, Quiz)>
    decreases n,
{
    if n == 0 {
        None
    } else {
        let f = files[n - 1];
        match f.reading {
            Reading::Parsed(Document::Quiz(v)) if v.id@ == k => Some((f.path, v)),
            _ => loaded_quiz(files, (n - 1) as nat, k),
        }
    }
}

/// As [`loaded_path`], for cheatsheets.
pub open spec fn loaded_cheatsheet(files: Seq<SourceFile>, n: nat, k: Seq<char>) -> Option<
    (String, Cheatsheet),
>
    decreases n,
{
    if n == 0 {
        None
    } else {
        let f = files[n - 1];
        match f.reading {
            Reading::Parsed(Document::Cheatsheet(v)) if v.id@ == k => Some((f.path, v)),
            _ => loaded_cheatsheet(files, (n - 1) as nat, k),
        }
    }
}

/// As [`loaded_path`], for OSS examples.
pub open spec fn loaded_oss(files: Seq<SourceFile>, n: nat, k: Seq<char>) -> Option<(String, OssExample)>
    decreases n,
{
    if n == 0 {
        None
    } else {
        let f = files[n - 1];
        match f.reading {
            Reading::Parsed(Document::OssExample(v)) if v.id@ == k => Some((f.path, v)),
            _ => loaded_oss(files, (n - 1) as nat, k),
        }
    }
}

/// As [`loaded_path`], for Trials, keyed by slug.
pub open spec fn loaded_trial(files: Seq<SourceFile>, n: nat, k: Seq<char>) -> Option<(String, Trial)>
    decreases n,
{
    if n == 0 {
        None
    } else {
        let f = files[n - 1];
        match f.reading {
            Reading::Parsed(Document::Trial(v)) if v.slug@ == k => Some((f.path, v)),
            _ => loaded_trial(files, (n - 1) as nat, k),
        }
    }
}

/// `c` holds exactly the documents that the first `n` files provide, the last
/// file winning where two share an identifier.
pub open spec fn holds_loaded(c: Content, files: Seq<SourceFile>, n: nat) -> bool {
    &&& forall|k: Seq<char>| #[trigger] c.paths.lookup(k) == loaded_path(files, n, k)
    &&& forall|k: Seq<char>| #[trigger] c.lessons.lookup(k) == loaded_lesson(files, n, k)
    &&& forall|k: Seq<char>| #[trigger] c.quizzes.lookup(k) == loaded_quiz(files, n, k)
    &&& forall|k: Seq<char>| #[trigger] c.cheatsheets.lookup(k) == loaded_cheatsheet(files, n, k)
    &&& forall|k: Seq<char>| #[trigger] c.oss.lookup(k) == loaded_oss(files, n, k)
    &&& forall|k: Seq<char>| #[trigger] c.trials.lookup(k) == loaded_trial(files, n, k)
}

/// Loads the documents of `files`, in the order given.
///
/// A file that cannot be read or does not parse is reported and skipped, so
/// one broken document does not hide every other problem in the repository.
/// Files of no known kind are neither counted nor reported.
pub fn load(files: Vec<SourceFile>, report: &mut ValidationReport) -> (content: Content)
    requires
        forall|i: int| 0 <= i < files@.len() ==> reading_fits_kind(#[trigger] files@[i]),
        old(report).documents + files@.len() <= usize::MAX,
    ensures
        holds_loaded(content, files@, files@.len()),
        final(report).findings() == old(report).findings() + load_findings(files@, files@.len()),
        final(report).documents == old(report).documents + document_count(files@, files@.len()),
{
    let mut content = Content::default();
    let ghost all = files@;
    let mut rest = files;
    let mut i: usize = 0;
    let n = rest.len();
    while rest.len() > 0
        invariant
            i + rest@.len() == n,
            n == all.len(),
            rest@ == all.skip(i as int),
            forall|j: int| 0 <= j < all.len() ==> reading_fits_kind(#[trigger] all[j]),
            holds_loaded(content, all, i as nat),
            report.findings() == old(report).findings() + load_findings(all, i as nat),
            report.documents == old(report).documents + document_count(all, i as nat),
            document_count(all, i as nat) <= i,
            old(report).documents + n <= usize::MAX,
        decreases rest@.len(),
    {
        let file = rest.remove(0);
        assert(file == all[i as int]);
        assert(rest@ =~= all.skip(i + 1));
        let SourceFile { path, relative, file_name, components, reading } = file;
        match reading {
            Reading::Unreadable => {
                report.error(relative, text("cannot be read"));
            },
            Reading::Skipped => {},
            Reading::Malformed(e) => {
                report.documents = report.documents + 1;
                let kind = classify(file_name.as_str(), &components);
                let mut message = concat3("does not match the ", kind, " schema: ");
                message.append(e.as_str());
                report.error(relative, message);
            },
            Reading::Parsed(document) => {
                report.documents = report.documents + 1;
                match document {
                    Document::LearningPath(v) => {
                        let key = v.id.clone();
                        content.paths.insert(key, (path, v));
                    },
                    Document::Lesson(v) => {
                        let key = v.id.clone();
                        content.lessons.insert(key, (path, v));
                    },
                    Document::Quiz(v) => {
                        let key = v.id.clone();
                        content.quizzes.insert(key, (path, v));
                    },
                    Document::Cheatsheet(v) => {
                        let key = v.id.clone();
                        content.cheatsheets.insert(key, (path, v));
                    },
                    Document::OssExample(v) => {
                        let key = v.id.clone();
                        content.oss.insert(key, (path, v));
                    },
                    Document::Trial(v) => {
                        let key = v.slug.clone();
                        content.trials.insert(key, (path, v));
                    },
                }
            },
        }
        proof {
            assert(report.findings() =~= old(report).findings() + load_findings(all, (i + 1) as nat));
        }
        i = i + 1;
    }
    assert(i == n);
    content
}

// ---------------------------------------------------------------------------
// Format versions
// ---------------------------------------------------------------------------

/// The message for a document at format version `v`.
pub open spec fn version_message(v: u32) -> Seq<char> {
    "format_version "@ + decimal(v as nat) + " is not supported (expected "@ + decimal(
        CONTENT_FORMAT_VERSION as nat,
    ) + ")"@
}

/// Findings for the first `n` documents of `m` whose format version is not
/// the supported one.
pub open spec fn version_findings<T: Versioned>(m: DocMap<T>, n: nat) -> Seq<Finding>
    decreases n,
{
    if n == 0 {
        Seq::empty()
    } else {
        let v = m.doc_at(n - 1).spec_format_version();
        version_findings(m, (n - 1) as nat) + when(
            v != CONTENT_FORMAT_VERSION,
            error_at(m.key_at(n - 1), version_message(v)),
        )
    }
}

/// Findings for every document of `c` at an unsupported format version, in
/// the order paths, lessons, quizzes, cheatsheets, OSS examples, Trials.
pub open spec fn all_version_findings(c: Content) -> Seq<Finding> {
    version_findings(c.paths, c.paths.size()) + version_findings(c.lessons, c.lessons.size())
        + version_findings(c.quizzes, c.quizzes.size()) + version_findings(
        c.cheatsheets,
        c.cheatsheets.size(),
    ) + version_findings(c.oss, c.oss.size()) + version_findings(c.trials, c.trials.size())
}

fn check_versions_in<T: Versioned>(m: &DocMap<T>, report: &mut ValidationReport)
    ensures
        final(report).findings() == old(report).findings() + version_findings(*m, m.size()),
        final(report).documents == old(report).documents,
{
    let n = m.len();
    let mut i: usize = 0;
    while i < n
        invariant
            n == m.size(),
            i <= n,
            report.findings() == old(report).findings() + version_findings(*m, i as nat),
            report.documents == old(report).documents,
        decreases n - i,
    {
        let v = m.entry(i).1.format_version();
        if v != CONTENT_FORMAT_VERSION {
            let mut message = text("format_version ");
            push_decimal(&mut message, v as u64);
            message.append(" is not supported (expected ");
            push_decimal(&mut message, CONTENT_FORMAT_VERSION as u64);
            message.append(")");
            report.error(m.key(i).clone(), message);
        }
        assert(report.findings() =~= old(report).findings() + version_findings(*m, (i + 1) as nat));
        i = i + 1;
    }
}

/// Reports every document whose format version is not
/// [`CONTENT_FORMAT_VERSION`].
pub fn check_format_versions(content: &Content, report: &mut ValidationReport)
    ensures
        final(report).findings() == old(report).findings() + all_version_findings(*content),
        final(report).documents == old(report).documents,
{
    check_versions_in(&content.paths, report);
    check_versions_in(&content.lessons, report);
    check_versions_in(&content.quizzes, report);
    check_versions_in(&content.cheatsheets, report);
    check_versions_in(&content.oss, report);
    check_versions_in(&content.trials, report);
    assert(report.findings() =~= old(report).findings() + all_version_findings(*content));
}

// ---------------------------------------------------------------------------
// Identifiers
// ---------------------------------------------------------------------------

/// A character allowed in identifiers: `a-z`, `0-9`, `-`, `/`.
pub open spec fn id_char(c: char) -> bool {
    spec_is_lower(c) || spec_is_digit(c) || c == '-' || c == '/'
}

/// A URL-safe identifier: 1 to 96 characters of `a-z`, `0-9`, `-` and `/`,
/// with no leading, trailing or doubled separator.
pub open spec fn valid_id(s: Seq<char>) -> bool {
    &&& 1 <= s.len() <= 96
    &&& forall|i: int| 0 <= i < s.len() ==> id_char(#[trigger] s[i])
    &&& s[0] != '-' && s[0] != '/'
    &&& s.last() != '-' && s.last() != '/'
    &&& !has_doubled(s, '/')
    &&& !has_doubled(s, '-')
}

/// Which identifiers are valid, in terms of their characters alone: 1 to 96
/// characters, each an ASCII lowercase letter, an ASCII digit, `-` or `/`,
/// neither the first nor the last a separator, and no separator directly
/// repeated.
pub proof fn lemma_valid_id_characterised(s: Seq<char>)
    ensures
        valid_id(s) <==> {
            &&& 1 <= s.len() <= 96
            &&& forall|i: int|
                0 <= i < s.len() ==> ('a' <= #[trigger] s[i] && s[i] <= 'z') || ('0' <= s[i] && s[i]
                    <= '9') || s[i] == '-' || s[i] == '/'
            &&& s[0] != '-' && s[0] != '/'
            &&& s[s.len() - 1] != '-' && s[s.len() - 1] != '/'
            &&& forall|i: int|
                0 <= i && i + 1 < s.len() ==> !(s[i] == '/' && #[trigger] s[i + 1] == '/') && !(s[i]
                    == '-' && s[i + 1] == '-')
        },
{
}

/// Every ASCII digit alone is a valid identifier, and so is an identifier
/// that mixes words, digits and both separators.
pub proof fn lemma_digits_are_valid_id_characters(c: char)
    requires
        '0' <= c && c <= '9',
    ensures
        valid_id(seq![c]),
        valid_id("ownership/move-semantics-2"@),
{
    reveal_strlit("ownership/move-semantics-2");
    let s = "ownership/move-semantics-2"@;
    assert(!has_doubled(s, '/'));
    assert(!has_doubled(s, '-'));
    assert(!has_doubled(seq![c], '/'));
    assert(!has_doubled(seq![c], '-'));
}

/// Whether `id` is a valid identifier.
pub fn is_valid_id(id: &str) -> (b: bool)
    ensures
        b == valid_id(id@),
{
    let cs = chars_of(id);
    let n = cs.len();
    if n == 0 || n > 96 {
        return false;
    }
    let mut i: usize = 0;
    while i < n
        invariant
            n == cs@.len(),
            cs@ == id@,
            1 <= n <= 96,
            i <= n,
            forall|j: int| 0 <= j < i ==> id_char(#[trigger] cs@[j]),
        decreases n - i,
    {
        let c = cs[i];
        if !(is_lower(c) || is_digit(c) || c == '-' || c == '/') {
            assert(!id_char(cs@[i as int]));
            return false;
        }
        i = i + 1;
    }
    let first = cs[0];
    let last = cs[n - 1];
    if first == '-' || first == '/' || last == '-' || last == '/' {
        return false;
    }
    !doubled(&cs, '/') && !doubled(&cs, '-')
}

/// The message for an invalid identifier of the given kind.
pub open spec fn id_message(kind: Seq<char>) -> Seq<char> {
    kind
        + " id must be 1-96 characters of a-z, 0-9, '-' and '/', with no leading, trailing, or doubled separator"@
}

/// Findings for the invalid keys among the first `n` of `m`.
pub open spec fn id_findings<T>(m: DocMap<T>, kind: Seq<char>, n: nat) -> Seq<Finding>
    decreases n,
{
    if n == 0 {
        Seq::empty()
    } else {
        id_findings(m, kind, (n - 1) as nat) + when(
            !valid_id(m.key_at(n - 1)),
            error_at(m.key_at(n - 1), id_message(kind)),
        )
    }
}

/// Findings for every invalid identifier of `c`, kind by kind.
pub open spec fn all_id_findings(c: Content) -> Seq<Finding> {
    id_findings(c.paths, "learning path"@, c.paths.size()) + id_findings(
        c.lessons,
        "lesson"@,
        c.lessons.size(),
    ) + id_findings(c.quizzes, "quiz"@, c.quizzes.size()) + id_findings(
        c.cheatsheets,
        "cheatsheet"@,
        c.cheatsheets.size(),
    ) + id_findings(c.oss, "OSS example"@, c.oss.size()) + id_findings(
        c.trials,
        "trial"@,
        c.trials.size(),
    )
}

fn check_ids_in<T>(m: &DocMap<T>, kind: &str, report: &mut ValidationReport)
    ensures
        final(report).findings() == old(report).findings() + id_findings(*m, kind@, m.size()),
        final(report).documents == old(report).documents,
{
    let n = m.len();
    let mut i: usize = 0;
    while i < n
        invariant
            n == m.size(),
            i <= n,
            report.findings() == old(report).findings() + id_findings(*m, kind@, i as nat),
            report.documents == old(report).documents,
        decreases n - i,
    {
        let id = m.key(i);
        if !is_valid_id(id.as_str()) {
            report.error(
                id.clone(),
                concat2(
                    kind,
                    " id must be 1-96 characters of a-z, 0-9, '-' and '/', with no leading, trailing, or doubled separator",
                ),
            );
        }
        assert(report.findings() =~= old(report).findings() + id_findings(*m, kind@, (i + 1) as nat));
        i = i + 1;
    }
}

/// How many documents `c` holds, all kinds together.
pub open spec fn kept_documents(c: Content) -> nat {
    c.paths.size() + c.lessons.size() + c.quizzes.size() + c.cheatsheets.size() + c.oss.size()
        + c.trials.size()
}

/// The message for documents that were read but are not held.
pub open spec fn dropped_message(read: nat, kept: nat) -> Seq<char> {
    decimal(read) + " documents were read and "@ + decimal(kept)
        + " kept: an id must be unique within its kind, and a document whose id repeats another's, or that does not match its schema, is dropped"@
}

/// The finding for `read` checked documents of which `c` holds fewer: some
/// document repeated the id of another of its kind and replaced it, or did
/// not match its schema.
pub open spec fn dropped_findings(read: nat, c: Content) -> Seq<Finding> {
    when(
        read > kept_documents(c),
        error_at("content"@, dropped_message(read, kept_documents(c))),
    )
}

/// Identifiers must be URL-safe and unique within their own kind. Reports each
/// invalid one, kind by kind; then, as a map holds one document per id,
/// reports when more documents were checked than `content` holds.
pub fn check_ids(content: &Content, report: &mut ValidationReport)
    ensures
        final(report).findings() == old(report).findings() + all_id_findings(*content)
            + dropped_findings(old(report).documents as nat, *content),
        final(report).documents == old(report).documents,
{
    check_ids_in(&content.paths, "learning path", report);
    check_ids_in(&content.lessons, "lesson", report);
    check_ids_in(&content.quizzes, "quiz", report);
    check_ids_in(&content.cheatsheets, "cheatsheet", report);
    check_ids_in(&content.oss, "OSS example", report);
    check_ids_in(&content.trials, "trial", report);
    let kept: u128 = content.paths.len() as u128 + content.lessons.len() as u128
        + content.quizzes.len() as u128 + content.cheatsheets.len() as u128
        + content.oss.len() as u128 + content.trials.len() as u128;
    let read = report.documents;
    if read as u128 > kept {
        let mut message = String::new();
        push_decimal(&mut message, read as u64);
        message.append(" documents were read and ");
        push_decimal(&mut message, kept as u64);
        message.append(
            " kept: an id must be unique within its kind, and a document whose id repeats another's, or that does not match its schema, is dropped",
        );
        proof {
            reveal_strlit(" documents were read and ");
            reveal_strlit(
                " kept: an id must be unique within its kind, and a document whose id repeats another's, or that does not match its schema, is dropped",
            );
        }
        report.error(text("content"), message);
        proof {
            reveal_strlit("content");
        }
    }
    assert(report.findings() =~= old(report).findings() + all_id_findings(*content)
        + dropped_findings(old(report).documents as nat, *content));
}

/// Every finding of `s` is an error located at an invalid identifier.
pub open spec fn only_invalid_ids(s: Seq<Finding>) -> bool {
    forall|x: int| 0 <= x < s.len() ==> (#[trigger] s[x]).0 == Severity::Error && !valid_id(s[x].1)
}

proof fn lemma_only_invalid_concat(a: Seq<Finding>, b: Seq<Finding>)
    requires
        only_invalid_ids(a),
        only_invalid_ids(b),
    ensures
        only_invalid_ids(a + b),
{
    assert forall|x: int| 0 <= x < (a + b).len() implies (#[trigger] (a + b)[x]).0 == Severity::Error
        && !valid_id((a + b)[x].1) by {
        if x < a.len() {
            assert((a + b)[x] == a[x]);
        } else {
            assert((a + b)[x] == b[x - a.len()]);
        }
    }
}

proof fn lemma_id_findings_invalid<T>(m: DocMap<T>, kind: Seq<char>, n: nat)
    ensures
        only_invalid_ids(id_findings(m, kind, n)),
    decreases n,
{
    if n > 0 {
        lemma_id_findings_invalid(m, kind, (n - 1) as nat);
        lemma_only_invalid_concat(
            id_findings(m, kind, (n - 1) as nat),
            when(!valid_id(m.key_at(n - 1)), error_at(m.key_at(n - 1), id_message(kind))),
        );
    }
}

proof fn lemma_id_finding_present<T>(m: DocMap<T>, kind: Seq<char>, n: nat, j: int)
    requires
        0 <= j < n,
        !valid_id(m.key_at(j)),
    ensures
        id_findings(m, kind, n).contains(error_at(m.key_at(j), id_message(kind))),
    decreases n,
{
    let f = error_at(m.key_at(j), id_message(kind));
    let prev = id_findings(m, kind, (n - 1) as nat);
    let last = when(!valid_id(m.key_at(n - 1)), error_at(m.key_at(n - 1), id_message(kind)));
    if j < n - 1 {
        lemma_id_finding_present(m, kind, (n - 1) as nat, j);
        lemma_contains_left(prev, last, f);
    } else {
        assert(last[0] == f);
        lemma_contains_right(prev, last, f);
    }
}

/// The identifier error for `kind`, spelled out.
proof fn lemma_id_message_spelled()
    ensures
        id_message("learning path"@)
            == "learning path id must be 1-96 characters of a-z, 0-9, '-' and '/', with no leading, trailing, or doubled separator"@,
        id_message("lesson"@)
            == "lesson id must be 1-96 characters of a-z, 0-9, '-' and '/', with no leading, trailing, or doubled separator"@,
        id_message("quiz"@)
            == "quiz id must be 1-96 characters of a-z, 0-9, '-' and '/', with no leading, trailing, or doubled separator"@,
        id_message("cheatsheet"@)
            == "cheatsheet id must be 1-96 characters of a-z, 0-9, '-' and '/', with no leading, trailing, or doubled separator"@,
        id_message("OSS example"@)
            == "OSS example id must be 1-96 characters of a-z, 0-9, '-' and '/', with no leading, trailing, or doubled separator"@,
        id_message("trial"@)
            == "trial id must be 1-96 characters of a-z, 0-9, '-' and '/', with no leading, trailing, or doubled separator"@,
{
    reveal_strlit(" id must be 1-96 characters of a-z, 0-9, '-' and '/', with no leading, trailing, or doubled separator");
    reveal_strlit("learning path");
    reveal_strlit("lesson");
    reveal_strlit("quiz");
    reveal_strlit("cheatsheet");
    reveal_strlit("OSS example");
    reveal_strlit("trial");
    reveal_strlit("learning path id must be 1-96 characters of a-z, 0-9, '-' and '/', with no leading, trailing, or doubled separator");
    reveal_strlit("lesson id must be 1-96 characters of a-z, 0-9, '-' and '/', with no leading, trailing, or doubled separator");
    reveal_strlit("quiz id must be 1-96 characters of a-z, 0-9, '-' and '/', with no leading, trailing, or doubled separator");
    reveal_strlit("cheatsheet id must be 1-96 characters of a-z, 0-9, '-' and '/', with no leading, trailing, or doubled separator");
    reveal_strlit("OSS example id must be 1-96 characters of a-z, 0-9, '-' and '/', with no leading, trailing, or doubled separator");
    reveal_strlit("trial id must be 1-96 characters of a-z, 0-9, '-' and '/', with no leading, trailing, or doubled separator");
    assert(id_message("learning path"@) =~= "learning path id must be 1-96 characters of a-z, 0-9, '-' and '/', with no leading, trailing, or doubled separator"@);
    assert(id_message("lesson"@) =~= "lesson id must be 1-96 characters of a-z, 0-9, '-' and '/', with no leading, trailing, or doubled separator"@);
    assert(id_message("quiz"@) =~= "quiz id must be 1-96 characters of a-z, 0-9, '-' and '/', with no leading, trailing, or doubled separator"@);
    assert(id_message("cheatsheet"@) =~= "cheatsheet id must be 1-96 characters of a-z, 0-9, '-' and '/', with no leading, trailing, or doubled separator"@);
    assert(id_message("OSS example"@) =~= "OSS example id must be 1-96 characters of a-z, 0-9, '-' and '/', with no leading, trailing, or doubled separator"@);
    assert(id_message("trial"@) =~= "trial id must be 1-96 characters of a-z, 0-9, '-' and '/', with no leading, trailing, or doubled separator"@);
}

/// `check_ids` reports exactly the invalid identifiers: every identifier
/// finding is an error at an invalid identifier, and every document of each
/// kind stored under an invalid identifier draws the error naming its kind.
pub proof fn lemma_id_findings_are_the_invalid_ids(c: Content)
    ensures
        only_invalid_ids(all_id_findings(c)),
        forall|j: int|
            0 <= j < c.paths.size() && !valid_id(#[trigger] c.paths.key_at(j))
                ==> all_id_findings(c).contains(
                (
                    Severity::Error,
                    c.paths.key_at(j),
                    "learning path id must be 1-96 characters of a-z, 0-9, '-' and '/', with no leading, trailing, or doubled separator"@,
                ),
            ),
        forall|j: int|
            0 <= j < c.lessons.size() && !valid_id(#[trigger] c.lessons.key_at(j))
                ==> all_id_findings(c).contains(
                (
                    Severity::Error,
                    c.lessons.key_at(j),
                    "lesson id must be 1-96 characters of a-z, 0-9, '-' and '/', with no leading, trailing, or doubled separator"@,
                ),
            ),
        forall|j: int|
            0 <= j < c.quizzes.size() && !valid_id(#[trigger] c.quizzes.key_at(j))
                ==> all_id_findings(c).contains(
                (
                    Severity::Error,
                    c.quizzes.key_at(j),
                    "quiz id must be 1-96 characters of a-z, 0-9, '-' and '/', with no leading, trailing, or doubled separator"@,
                ),
            ),
        forall|j: int|
            0 <= j < c.cheatsheets.size() && !valid_id(#[trigger] c.cheatsheets.key_at(j))
                ==> all_id_findings(c).contains(
                (
                    Severity::Error,
                    c.cheatsheets.key_at(j),
                    "cheatsheet id must be 1-96 characters of a-z, 0-9, '-' and '/', with no leading, trailing, or doubled separator"@,
                ),
            ),
        forall|j: int|
            0 <= j < c.oss.size() && !valid_id(#[trigger] c.oss.key_at(j))
                ==> all_id_findings(c).contains(
                (
                    Severity::Error,
                    c.oss.key_at(j),
                    "OSS example id must be 1-96 characters of a-z, 0-9, '-' and '/', with no leading, trailing, or doubled separator"@,
                ),
            ),
        forall|j: int|
            0 <= j < c.trials.size() && !valid_id(#[trigger] c.trials.key_at(j))
                ==> all_id_findings(c).contains(
                (
                    Severity::Error,
                    c.trials.key_at(j),
                    "trial id must be 1-96 characters of a-z, 0-9, '-' and '/', with no leading, trailing, or doubled separator"@,
                ),
            ),
{
    lemma_id_message_spelled();
    let a = id_findings(c.paths, "learning path"@, c.paths.size());
    let b = id_findings(c.lessons, "lesson"@, c.lessons.size());
    let q = id_findings(c.quizzes, "quiz"@, c.quizzes.size());
    let h = id_findings(c.cheatsheets, "cheatsheet"@, c.cheatsheets.size());
    let o = id_findings(c.oss, "OSS example"@, c.oss.size());
    let t = id_findings(c.trials, "trial"@, c.trials.size());
    assert(all_id_findings(c) == a + b + q + h + o + t);
    lemma_id_findings_invalid(c.paths, "learning path"@, c.paths.size());
    lemma_id_findings_invalid(c.lessons, "lesson"@, c.lessons.size());
    lemma_id_findings_invalid(c.quizzes, "quiz"@, c.quizzes.size());
    lemma_id_findings_invalid(c.cheatsheets, "cheatsheet"@, c.cheatsheets.size());
    lemma_id_findings_invalid(c.oss, "OSS example"@, c.oss.size());
    lemma_id_findings_invalid(c.trials, "trial"@, c.trials.size());
    lemma_only_invalid_concat(a, b);
    lemma_only_invalid_concat(a + b, q);
    lemma_only_invalid_concat(a + b + q, h);
    lemma_only_invalid_concat(a + b + q + h, o);
    lemma_only_invalid_concat(a + b + q + h + o, t);
    assert forall|j: int| 0 <= j < c.paths.size() && !valid_id(#[trigger] c.paths.key_at(j)) implies all_id_findings(
        c,
    ).contains(error_at(c.paths.key_at(j), id_message("learning path"@))) by {
        let f = error_at(c.paths.key_at(j), id_message("learning path"@));
        lemma_id_finding_present(c.paths, "learning path"@, c.paths.size(), j);
        lemma_contains_left(a, b, f);
        lemma_contains_left(a + b, q, f);
        lemma_contains_left(a + b + q, h, f);
        lemma_contains_left(a + b + q + h, o, f);
        lemma_contains_left(a + b + q + h + o, t, f);
    }
    assert forall|j: int| 0 <= j < c.lessons.size() && !valid_id(#[trigger] c.lessons.key_at(j)) implies all_id_findings(
        c,
    ).contains(error_at(c.lessons.key_at(j), id_message("lesson"@))) by {
        let f = error_at(c.lessons.key_at(j), id_message("lesson"@));
        lemma_id_finding_present(c.lessons, "lesson"@, c.lessons.size(), j);
        lemma_contains_right(a, b, f);
        lemma_contains_left(a + b, q, f);
        lemma_contains_left(a + b + q, h, f);
        lemma_contains_left(a + b + q + h, o, f);
        lemma_contains_left(a + b + q + h + o, t, f);
    }
    assert forall|j: int| 0 <= j < c.quizzes.size() && !valid_id(#[trigger] c.quizzes.key_at(j)) implies all_id_findings(
        c,
    ).contains(error_at(c.quizzes.key_at(j), id_message("quiz"@))) by {
        let f = error_at(c.quizzes.key_at(j), id_message("quiz"@));
        lemma_id_finding_present(c.quizzes, "quiz"@, c.quizzes.size(), j);
        lemma_contains_right(a + b, q, f);
        lemma_contains_left(a + b + q, h, f);
        lemma_contains_left(a + b + q + h, o, f);
        lemma_contains_left(a + b + q + h + o, t, f);
    }
    assert forall|j: int| 0 <= j < c.cheatsheets.size() && !valid_id(#[trigger] c.cheatsheets.key_at(j)) implies all_id_findings(
        c,
    ).contains(error_at(c.cheatsheets.key_at(j), id_message("cheatsheet"@))) by {
        let f = error_at(c.cheatsheets.key_at(j), id_message("cheatsheet"@));
        lemma_id_finding_present(c.cheatsheets, "cheatsheet"@, c.cheatsheets.size(), j);
        lemma_contains_right(a + b + q, h, f);
        lemma_contains_left(a + b + q + h, o, f);
        lemma_contains_left(a + b + q + h + o, t, f);
    }
    assert forall|j: int| 0 <= j < c.oss.size() && !valid_id(#[trigger] c.oss.key_at(j)) implies all_id_findings(
        c,
    ).contains(error_at(c.oss.key_at(j), id_message("OSS example"@))) by {
        let f = error_at(c.oss.key_at(j), id_message("OSS example"@));
        lemma_id_finding_present(c.oss, "OSS example"@, c.oss.size(), j);
        lemma_contains_right(a + b + q + h, o, f);
        lemma_contains_left(a + b + q + h + o, t, f);
    }
    assert forall|j: int| 0 <= j < c.trials.size() && !valid_id(#[trigger] c.trials.key_at(j)) implies all_id_findings(
        c,
    ).contains(error_at(c.trials.key_at(j), id_message("trial"@))) by {
        let f = error_at(c.trials.key_at(j), id_message("trial"@));
        lemma_id_finding_present(c.trials, "trial"@, c.trials.size(), j);
        lemma_contains_right(a + b + q + h + o, t, f);
    }
}

/// `check_ids` reports duplicates exactly when more documents were read than
/// the content holds, counting every kind.
pub proof fn lemma_dropped_documents_reported(read: nat, c: Content)
    ensures
        dropped_findings(read, c).len() == if read > c.paths.size() + c.lessons.size()
            + c.quizzes.size() + c.cheatsheets.size() + c.oss.size() + c.trials.size() {
            1int
        } else {
            0int
        },
        forall|x: int|
            0 <= x < dropped_findings(read, c).len() ==> (#[trigger] dropped_findings(read, c)[x]).0
                == Severity::Error && dropped_findings(read, c)[x].1 == "content"@,
{
}

// ---------------------------------------------------------------------------
// References between documents
// ---------------------------------------------------------------------------

/// The message for a reference to a missing document.
pub open spec fn unknown_message(what: Seq<char>, target: Seq<char>) -> Seq<char> {
    "references unknown "@ + what + " `"@ + target + "`"@
}

/// Findings for the first `n` of `refs` that `m` holds no document for.
pub open spec fn missing_ref_findings<T>(
    m: DocMap<T>,
    owner: Seq<char>,
    refs: Seq<String>,
    what: Seq<char>,
    n: nat,
) -> Seq<Finding>
    decreases n,
{
    if n == 0 {
        Seq::empty()
    } else {
        missing_ref_findings(m, owner, refs, what, (n - 1) as nat) + when(
            !m.has_key(refs[n - 1]@),
            error_at(owner, unknown_message(what, refs[n - 1]@)),
        )
    }
}

/// Findings for the first `n` prerequisites of the path `owner`.
pub open spec fn prerequisite_findings(
    paths: DocMap<LearningPath>,
    owner: Seq<char>,
    refs: Seq<String>,
    n: nat,
) -> Seq<Finding>
    decreases n,
{
    if n == 0 {
        Seq::empty()
    } else {
        let r = refs[n - 1]@;
        prerequisite_findings(paths, owner, refs, (n - 1) as nat) + when(
            !paths.has_key(r),
            error_at(owner, unknown_message("prerequisite path"@, r)),
        ) + when(r == owner, error_at(owner, "a path cannot be its own prerequisite"@))
    }
}

/// Findings for the learning path `p` stored under `owner`.
pub open spec fn path_ref_findings(c: Content, owner: Seq<char>, p: LearningPath) -> Seq<Finding> {
    when(
        p.lessons@.len() == 0,
        error_at(owner, "a learning path must contain at least one lesson"@),
    ) + missing_ref_findings(c.lessons, owner, p.lessons@, "lesson"@, p.lessons@.len())
        + prerequisite_findings(c.paths, owner, p.prerequisites@, p.prerequisites@.len())
}

/// Findings for the first `n` learning paths.
pub open spec fn paths_ref_findings(c: Content, n: nat) -> Seq<Finding>
    decreases n,
{
    if n == 0 {
        Seq::empty()
    } else {
        paths_ref_findings(c, (n - 1) as nat) + path_ref_findings(
            c,
            c.paths.key_at(n - 1),
            c.paths.doc_at(n - 1),
        )
    }
}

/// Findings for the first `n` quiz ids of the lesson `owner`.
pub open spec fn quiz_ref_findings(
    quizzes: DocMap<Quiz>,
    owner: Seq<char>,
    refs: Seq<String>,
    n: nat,
) -> Seq<Finding>
    decreases n,
{
    if n == 0 {
        Seq::empty()
    } else {
        let r = refs[n - 1]@;
        quiz_ref_findings(quizzes, owner, refs, (n - 1) as nat) + match quizzes.lookup(r) {
            None => seq![error_at(owner, unknown_message("quiz"@, r))],
            Some(entry) => when(
                entry.1.lesson@ != owner,
                error_at(
                    owner,
                    "quiz `"@ + r + "` belongs to lesson `"@ + entry.1.lesson@ + "`, not this one"@,
                ),
            ),
        }
    }
}

/// Example `j` repeats the id of an earlier example.
pub open spec fn repeats_earlier_example(examples: Seq<Example>, j: int) -> bool {
    exists|k: int| 0 <= k < j && #[trigger] examples[k].id@ == examples[j].id@
}

/// Findings for the repeated ids among the first `n` examples of `owner`.
pub open spec fn duplicate_example_findings(owner: Seq<char>, examples: Seq<Example>, n: nat) -> Seq<
    Finding,
>
    decreases n,
{
    if n == 0 {
        Seq::empty()
    } else {
        duplicate_example_findings(owner, examples, (n - 1) as nat) + when(
            repeats_earlier_example(examples, n - 1),
            error_at(owner, "duplicate example id `"@ + examples[n - 1].id@ + "`"@),
        )
    }
}

/// Findings for the lesson `l` stored under `owner`.
pub open spec fn lesson_ref_findings(c: Content, owner: Seq<char>, l: Lesson) -> Seq<Finding> {
    quiz_ref_findings(c.quizzes, owner, l.quizzes@, l.quizzes@.len()) + missing_ref_findings(
        c.cheatsheets,
        owner,
        l.cheatsheets@,
        "cheatsheet"@,
        l.cheatsheets@.len(),
    ) + missing_ref_findings(c.oss, owner, l.oss_examples@, "OSS example"@, l.oss_examples@.len())
        + missing_ref_findings(c.trials, owner, l.trials@, "Trial"@, l.trials@.len())
        + duplicate_example_findings(owner, l.examples@, l.examples@.len())
}

/// Findings for the first `n` lessons.
pub open spec fn lessons_ref_findings(c: Content, n: nat) -> Seq<Finding>
    decreases n,
{
    if n == 0 {
        Seq::empty()
    } else {
        lessons_ref_findings(c, (n - 1) as nat) + lesson_ref_findings(
            c,
            c.lessons.key_at(n - 1),
            c.lessons.doc_at(n - 1),
        )
    }
}

/// Some learning path lists the lesson id `k`.
pub open spec fn reachable(c: Content, k: Seq<char>) -> bool {
    exists|i: int, j: int|
        0 <= i < c.paths.size() && 0 <= j < c.paths.doc_at(i).lessons@.len()
            && #[trigger] c.paths.doc_at(i).lessons@[j]@ == k
}

/// Warnings for the first `n` lessons that no learning path lists.
pub open spec fn unreachable_findings(c: Content, n: nat) -> Seq<Finding>
    decreases n,
{
    if n == 0 {
        Seq::empty()
    } else {
        unreachable_findings(c, (n - 1) as nat) + when(
            !reachable(c, c.lessons.key_at(n - 1)),
            warning_at(c.lessons.key_at(n - 1), "this lesson is not listed in any learning path"@),
        )
    }
}

/// Everything `check_references` reports for `c`.
pub open spec fn all_ref_findings(c: Content) -> Seq<Finding> {
    paths_ref_findings(c, c.paths.size()) + lessons_ref_findings(c, c.lessons.size())
        + unreachable_findings(c, c.lessons.size())
}

fn unknown_text(what: &str, target: &str) -> (r: String)
    ensures
        r@ == unknown_message(what@, target@),
{
    let mut r = concat3("references unknown ", what, " `");
    r.append(target);
    r.append("`");
    r
}

fn check_missing_refs<T>(
    m: &DocMap<T>,
    owner: &String,
    refs: &Vec<String>,
    what: &str,
    report: &mut ValidationReport,
)
    ensures
        final(report).findings() == old(report).findings() + missing_ref_findings(
            *m,
            owner@,
            refs@,
            what@,
            refs@.len(),
        ),
        final(report).documents == old(report).documents,
{
    let n = refs.len();
    let mut i: usize = 0;
    while i < n
        invariant
            n == refs@.len(),
            i <= n,
            report.findings() == old(report).findings() + missing_ref_findings(
                *m,
                owner@,
                refs@,
                what@,
                i as nat,
            ),
            report.documents == old(report).documents,
        decreases n - i,
    {
        let r = &refs[i];
        let present = m.contains_key(r.as_str());
        report.record_if(!present, Severity::Error, owner, unknown_text(what, r.as_str()));
        assert(report.findings() =~= old(report).findings() + missing_ref_findings(
            *m,
            owner@,
            refs@,
            what@,
            (i + 1) as nat,
        ));
        i = i + 1;
    }
}

fn check_prerequisites(
    paths: &DocMap<LearningPath>,
    owner: &String,
    refs: &Vec<String>,
    report: &mut ValidationReport,
)
    ensures
        final(report).findings() == old(report).findings() + prerequisite_findings(
            *paths,
            owner@,
            refs@,
            refs@.len(),
        ),
        final(report).documents == old(report).documents,
{
    let n = refs.len();
    let mut i: usize = 0;
    while i < n
        invariant
            n == refs@.len(),
            i <= n,
            report.findings() == old(report).findings() + prerequisite_findings(
                *paths,
                owner@,
                refs@,
                i as nat,
            ),
            report.documents == old(report).documents,
        decreases n - i,
    {
        let r = &refs[i];
        let present = paths.contains_key(r.as_str());
        report.record_if(
            !present,
            Severity::Error,
            owner,
            unknown_text("prerequisite path", r.as_str()),
        );
        let same = *r == *owner;
        report.record_if(same, Severity::Error, owner, text("a path cannot be its own prerequisite"));
        assert(report.findings() =~= old(report).findings() + prerequisite_findings(
            *paths,
            owner@,
            refs@,
            (i + 1) as nat,
        ));
        i = i + 1;
    }
}

fn check_quiz_refs(
    quizzes: &DocMap<Quiz>,
    owner: &String,
    refs: &Vec<String>,
    report: &mut ValidationReport,
)
    ensures
        final(report).findings() == old(report).findings() + quiz_ref_findings(
            *quizzes,
            owner@,
            refs@,
            refs@.len(),
        ),
        final(report).documents == old(report).documents,
{
    let n = refs.len();
    let mut i: usize = 0;
    while i < n
        invariant
            n == refs@.len(),
            i <= n,
            report.findings() == old(report).findings() + quiz_ref_findings(
                *quizzes,
                owner@,
                refs@,
                i as nat,
            ),
            report.documents == old(report).documents,
        decreases n - i,
    {
        let r = &refs[i];
        match quizzes.get(r.as_str()) {
            None => {
                report.error(owner.clone(), unknown_text("quiz", r.as_str()));
            },
            Some(entry) => {
                let q = &entry.1;
                let other = !(q.lesson == *owner);
                let mut message = concat3("quiz `", r.as_str(), "` belongs to lesson `");
                message.append(q.lesson.as_str());
                message.append("`, not this one");
                report.record_if(other, Severity::Error, owner, message);
            },
        }
        assert(report.findings() =~= old(report).findings() + quiz_ref_findings(
            *quizzes,
            owner@,
            refs@,
            (i + 1) as nat,
        ));
        i = i + 1;
    }
}

fn check_duplicate_examples(owner: &String, examples: &Vec<Example>, report: &mut ValidationReport)
    ensures
        final(report).findings() == old(report).findings() + duplicate_example_findings(
            owner@,
            examples@,
            examples@.len(),
        ),
        final(report).documents == old(report).documents,
{
    let n = examples.len();
    let mut j: usize = 0;
    while j < n
        invariant
            n == examples@.len(),
            j <= n,
            report.findings() == old(report).findings() + duplicate_example_findings(
                owner@,
                examples@,
                j as nat,
            ),
            report.documents == old(report).documents,
        decreases n - j,
    {
        let mut seen = false;
        let mut k: usize = 0;
        while k < j
            invariant
                n == examples@.len(),
                j < n,
                k <= j,
                seen == exists|m: int| 0 <= m < k && #[trigger] examples@[m].id@ == examples@[j as int].id@,
            decreases j - k,
        {
            if examples[k].id == examples[j].id {
                seen = true;
            }
            k = k + 1;
        }
        let message = concat3("duplicate example id `", examples[j].id.as_str(), "`");
        report.record_if(seen, Severity::Error, owner, message);
        assert(report.findings() =~= old(report).findings() + duplicate_example_findings(
            owner@,
            examples@,
            (j + 1) as nat,
        ));
        j = j + 1;
    }
}

fn is_reachable(content: &Content, id: &String) -> (b: bool)
    ensures
        b == reachable(*content, id@),
{
    let n = content.paths.len();
    let mut i: usize = 0;
    while i < n
        invariant
            n == content.paths.size(),
            i <= n,
            forall|a: int, b: int|
                0 <= a < i && 0 <= b < content.paths.doc_at(a).lessons@.len() ==> #[trigger] content.paths.doc_at(
                    a,
                ).lessons@[b]@ != id@,
        decreases n - i,
    {
        let lessons = &content.paths.entry(i).1.lessons;
        let m = lessons.len();
        let mut j: usize = 0;
        while j < m
            invariant
                n == content.paths.size(),
                i < n,
                *lessons == content.paths.doc_at(i as int).lessons,
                m == lessons@.len(),
                j <= m,
                forall|b: int| 0 <= b < j ==> #[trigger] lessons@[b]@ != id@,
            decreases m - j,
        {
            if lessons[j] == *id {
                assert(content.paths.doc_at(i as int).lessons@[j as int]@ == id@);
                return true;
            }
            j = j + 1;
        }
        i = i + 1;
    }
    false
}

fn check_path_refs(
    content: &Content,
    owner: &String,
    path: &LearningPath,
    report: &mut ValidationReport,
)
    ensures
        final(report).findings() == old(report).findings() + path_ref_findings(
            *content,
            owner@,
            *path,
        ),
        final(report).documents == old(report).documents,
{
    let empty = path.lessons.len() == 0;
    report.record_if(
        empty,
        Severity::Error,
        owner,
        text("a learning path must contain at least one lesson"),
    );
    check_missing_refs(&content.lessons, owner, &path.lessons, "lesson", report);
    check_prerequisites(&content.paths, owner, &path.prerequisites, report);
    assert(report.findings() =~= old(report).findings() + path_ref_findings(
        *content,
        owner@,
        *path,
    ));
}

fn check_lesson_refs(content: &Content, owner: &String, lesson: &Lesson, report: &mut ValidationReport)
    ensures
        final(report).findings() == old(report).findings() + lesson_ref_findings(
            *content,
            owner@,
            *lesson,
        ),
        final(report).documents == old(report).documents,
{
    check_quiz_refs(&content.quizzes, owner, &lesson.quizzes, report);
    check_missing_refs(&content.cheatsheets, owner, &lesson.cheatsheets, "cheatsheet", report);
    check_missing_refs(&content.oss, owner, &lesson.oss_examples, "OSS example", report);
    check_missing_refs(&content.trials, owner, &lesson.trials, "Trial", report);
    check_duplicate_examples(owner, &lesson.examples, report);
    assert(report.findings() =~= old(report).findings() + lesson_ref_findings(
        *content,
        owner@,
        *lesson,
    ));
}

/// Reports references to documents that do not exist, quizzes attached to the
/// wrong lesson, repeated example ids, and lessons no learning path lists
/// (warnings: a lesson nobody can reach is almost always an oversight).
pub fn check_references(content: &Content, report: &mut ValidationReport)
    ensures
        final(report).findings() == old(report).findings() + all_ref_findings(*content),
        final(report).documents == old(report).documents,
{
    let n = content.paths.len();
    let mut i: usize = 0;
    while i < n
        invariant
            n == content.paths.size(),
            i <= n,
            report.findings() == old(report).findings() + paths_ref_findings(*content, i as nat),
            report.documents == old(report).documents,
        decreases n - i,
    {
        check_path_refs(content, content.paths.key(i), &content.paths.entry(i).1, report);
        assert(report.findings() =~= old(report).findings() + paths_ref_findings(
            *content,
            (i + 1) as nat,
        ));
        i = i + 1;
    }
    let ghost after_paths = report.findings();
    let m = content.lessons.len();
    let mut i: usize = 0;
    while i < m
        invariant
            m == content.lessons.size(),
            i <= m,
            report.findings() == after_paths + lessons_ref_findings(*content, i as nat),
            report.documents == old(report).documents,
        decreases m - i,
    {
        check_lesson_refs(content, content.lessons.key(i), &content.lessons.entry(i).1, report);
        assert(report.findings() =~= after_paths + lessons_ref_findings(*content, (i + 1) as nat));
        i = i + 1;
    }
    let ghost after_lessons = report.findings();
    let mut i: usize = 0;
    while i < m
        invariant
            m == content.lessons.size(),
            i <= m,
            report.findings() == after_lessons + unreachable_findings(*content, i as nat),
            report.documents == old(report).documents,
        decreases m - i,
    {
        let id = content.lessons.key(i);
        let listed = is_reachable(content, id);
        report.record_if(
            !listed,
            Severity::Warning,
            id,
            text("this lesson is not listed in any learning path"),
        );
        assert(report.findings() =~= after_lessons + unreachable_findings(*content, (i + 1) as nat));
        i = i + 1;
    }
    assert(report.findings() =~= old(report).findings() + all_ref_findings(*content));
}

/// The finding `f` is not the error "references unknown `what` `r`".
pub open spec fn not_unknown(f: Finding, what: Seq<char>, r: Seq<char>) -> bool {
    !(f.0 == Severity::Error && f.2 == unknown_message(what, r))
}

/// No finding of `s` is the error "references unknown `what` `r`".
pub open spec fn none_unknown(s: Seq<Finding>, what: Seq<char>, r: Seq<char>) -> bool {
    forall|x: int| 0 <= x < s.len() ==> not_unknown(#[trigger] s[x], what, r)
}

/// `what` names one kind of referenced document, and `c` holds a document of
/// that kind under `r`. The kinds differ in their first character.
pub open spec fn resolves(c: Content, what: Seq<char>, r: Seq<char>) -> bool {
    &&& what.len() > 0
    &&& what[0] == 'l' ==> what == "lesson"@ && c.lessons.has_key(r)
    &&& what[0] == 'p' ==> what == "prerequisite path"@ && c.paths.has_key(r)
    &&& what[0] == 'q' ==> what == "quiz"@ && c.quizzes.has_key(r)
    &&& what[0] == 'c' ==> what == "cheatsheet"@ && c.cheatsheets.has_key(r)
    &&& what[0] == 'O' ==> what == "OSS example"@ && c.oss.has_key(r)
    &&& what[0] == 'T' ==> what == "Trial"@ && c.trials.has_key(r)
}

proof fn lemma_unknown_message_shape(what: Seq<char>, target: Seq<char>)
    ensures
        unknown_message(what, target).len() == 22 + what.len() + target.len(),
        unknown_message(what, target)[0] == 'r',
        what.len() > 0 ==> unknown_message(what, target)[19] == what[0],
        forall|k: int|
            0 <= k < target.len() ==> unknown_message(what, target)[21 + what.len() + k]
                == #[trigger] target[k],
{
    reveal_strlit("references unknown ");
    reveal_strlit(" `");
    reveal_strlit("`");
    let m = unknown_message(what, target);
    assert(m == "references unknown "@ + what + " `"@ + target + "`"@);
    assert forall|k: int| 0 <= k < target.len() implies m[21 + what.len() + k] == #[trigger] target[k] by {
        assert(("references unknown "@ + what + " `"@ + target)[21 + what.len() + k] == target[k]);
    }
}

proof fn lemma_unknown_message_injective(what: Seq<char>, a: Seq<char>, b: Seq<char>)
    requires
        unknown_message(what, a) == unknown_message(what, b),
    ensures
        a == b,
{
    lemma_unknown_message_shape(what, a);
    lemma_unknown_message_shape(what, b);
    assert forall|k: int| 0 <= k < a.len() implies a[k] == b[k] by {
        assert(unknown_message(what, a)[21 + what.len() + k] == a[k]);
        assert(unknown_message(what, b)[21 + what.len() + k] == b[k]);
    }
    assert(a =~= b);
}

/// A message that starts with a character other than `r` is no
/// unknown-reference message.
proof fn lemma_not_unknown_by_first(f: Finding, what: Seq<char>, r: Seq<char>)
    requires
        f.2.len() > 0,
        f.2[0] != 'r',
    ensures
        not_unknown(f, what, r),
{
    lemma_unknown_message_shape(what, r);
}

/// The unknown-reference message about `other` document `y` is the one
/// about `what` document `r` only for the same kind and the same document.
proof fn lemma_not_unknown_by_kind(f: Finding, other: Seq<char>, y: Seq<char>, what: Seq<char>, r: Seq<char>)
    requires
        f.2 == unknown_message(other, y),
        other.len() > 0,
        what.len() > 0,
        other[0] != what[0] || y != r,
        other[0] != what[0] || other == what,
    ensures
        not_unknown(f, what, r),
{
    lemma_unknown_message_shape(what, r);
    lemma_unknown_message_shape(other, y);
    if other[0] == what[0] && f.2 == unknown_message(what, r) {
        lemma_unknown_message_injective(what, y, r);
    }
}

proof fn lemma_none_concat(a: Seq<Finding>, b: Seq<Finding>, what: Seq<char>, r: Seq<char>)
    requires
        none_unknown(a, what, r),
        none_unknown(b, what, r),
    ensures
        none_unknown(a + b, what, r),
{
    assert forall|x: int| 0 <= x < (a + b).len() implies not_unknown(#[trigger] (a + b)[x], what, r) by {
        if x < a.len() {
            assert((a + b)[x] == a[x]);
        } else {
            assert((a + b)[x] == b[x - a.len()]);
        }
    }
}

proof fn lemma_none_when(c: bool, f: Finding, what: Seq<char>, r: Seq<char>)
    requires
        c ==> not_unknown(f, what, r),
    ensures
        none_unknown(when(c, f), what, r),
{
}

proof fn lemma_missing_refs_none<T>(
    m: DocMap<T>,
    owner: Seq<char>,
    refs: Seq<String>,
    other: Seq<char>,
    n: nat,
    what: Seq<char>,
    r: Seq<char>,
)
    requires
        other.len() > 0,
        what.len() > 0,
        other[0] != what[0] || (other == what && m.has_key(r)),
    ensures
        none_unknown(missing_ref_findings(m, owner, refs, other, n), what, r),
    decreases n,
{
    if n > 0 {
        lemma_missing_refs_none(m, owner, refs, other, (n - 1) as nat, what, r);
        let y = refs[n - 1]@;
        let f = error_at(owner, unknown_message(other, y));
        if !m.has_key(y) {
            lemma_not_unknown_by_kind(f, other, y, what, r);
        }
        lemma_none_when(!m.has_key(y), f, what, r);
        lemma_none_concat(
            missing_ref_findings(m, owner, refs, other, (n - 1) as nat),
            when(!m.has_key(y), f),
            what,
            r,
        );
    }
}

proof fn lemma_prerequisites_none(
    paths: DocMap<LearningPath>,
    owner: Seq<char>,
    refs: Seq<String>,
    n: nat,
    what: Seq<char>,
    r: Seq<char>,
)
    requires
        what.len() > 0,
        what[0] != 'p' || (what == "prerequisite path"@ && paths.has_key(r)),
    ensures
        none_unknown(prerequisite_findings(paths, owner, refs, n), what, r),
    decreases n,
{
    if n > 0 {
        lemma_prerequisites_none(paths, owner, refs, (n - 1) as nat, what, r);
        let y = refs[n - 1]@;
        reveal_strlit("prerequisite path");
        reveal_strlit("a path cannot be its own prerequisite");
        let f1 = error_at(owner, unknown_message("prerequisite path"@, y));
        let f2 = error_at(owner, "a path cannot be its own prerequisite"@);
        if !paths.has_key(y) {
            lemma_not_unknown_by_kind(f1, "prerequisite path"@, y, what, r);
        }
        lemma_not_unknown_by_first(f2, what, r);
        let prev = prerequisite_findings(paths, owner, refs, (n - 1) as nat);
        lemma_none_when(!paths.has_key(y), f1, what, r);
        lemma_none_when(y == owner, f2, what, r);
        lemma_none_concat(prev, when(!paths.has_key(y), f1), what, r);
        lemma_none_concat(prev + when(!paths.has_key(y), f1), when(y == owner, f2), what, r);
    }
}

proof fn lemma_paths_refs_none(c: Content, n: nat, what: Seq<char>, r: Seq<char>)
    requires
        resolves(c, what, r),
    ensures
        none_unknown(paths_ref_findings(c, n), what, r),
    decreases n,
{
    if n > 0 {
        lemma_paths_refs_none(c, (n - 1) as nat, what, r);
        let owner = c.paths.key_at(n - 1);
        let p = c.paths.doc_at(n - 1);
        reveal_strlit("a learning path must contain at least one lesson");
        reveal_strlit("lesson");
        reveal_strlit("prerequisite path");
        let f = error_at(owner, "a learning path must contain at least one lesson"@);
        lemma_not_unknown_by_first(f, what, r);
        lemma_none_when(p.lessons@.len() == 0, f, what, r);
        let a = when(p.lessons@.len() == 0, f);
        let b = missing_ref_findings(c.lessons, owner, p.lessons@, "lesson"@, p.lessons@.len());
        let d = prerequisite_findings(c.paths, owner, p.prerequisites@, p.prerequisites@.len());
        lemma_missing_refs_none(c.lessons, owner, p.lessons@, "lesson"@, p.lessons@.len(), what, r);
        lemma_prerequisites_none(c.paths, owner, p.prerequisites@, p.prerequisites@.len(), what, r);
        lemma_none_concat(a, b, what, r);
        lemma_none_concat(a + b, d, what, r);
        lemma_none_concat(paths_ref_findings(c, (n - 1) as nat), a + b + d, what, r);
    }
}

proof fn lemma_quiz_refs_none(
    quizzes: DocMap<Quiz>,
    owner: Seq<char>,
    refs: Seq<String>,
    n: nat,
    what: Seq<char>,
    r: Seq<char>,
)
    requires
        what.len() > 0,
        what[0] != 'q' || (what == "quiz"@ && quizzes.has_key(r)),
    ensures
        none_unknown(quiz_ref_findings(quizzes, owner, refs, n), what, r),
    decreases n,
{
    if n > 0 {
        lemma_quiz_refs_none(quizzes, owner, refs, (n - 1) as nat, what, r);
        let y = refs[n - 1]@;
        reveal_strlit("quiz");
        reveal_strlit("quiz `");
        let last = match quizzes.lookup(y) {
            None => seq![error_at(owner, unknown_message("quiz"@, y))],
            Some(entry) => when(
                entry.1.lesson@ != owner,
                error_at(
                    owner,
                    "quiz `"@ + y + "` belongs to lesson `"@ + entry.1.lesson@ + "`, not this one"@,
                ),
            ),
        };
        match quizzes.lookup(y) {
            None => {
                lemma_not_unknown_by_kind(
                    error_at(owner, unknown_message("quiz"@, y)),
                    "quiz"@,
                    y,
                    what,
                    r,
                );
            },
            Some(entry) => {
                let msg = "quiz `"@ + y + "` belongs to lesson `"@ + entry.1.lesson@
                    + "`, not this one"@;
                assert(msg[0] == 'q');
                lemma_not_unknown_by_first(error_at(owner, msg), what, r);
            },
        }
        assert(none_unknown(last, what, r));
        lemma_none_concat(quiz_ref_findings(quizzes, owner, refs, (n - 1) as nat), last, what, r);
    }
}

proof fn lemma_duplicate_examples_none(
    owner: Seq<char>,
    examples: Seq<Example>,
    n: nat,
    what: Seq<char>,
    r: Seq<char>,
)
    ensures
        none_unknown(duplicate_example_findings(owner, examples, n), what, r),
    decreases n,
{
    if n > 0 {
        lemma_duplicate_examples_none(owner, examples, (n - 1) as nat, what, r);
        reveal_strlit("duplicate example id `");
        let msg = "duplicate example id `"@ + examples[n - 1].id@ + "`"@;
        assert(msg[0] == 'd');
        lemma_not_unknown_by_first(error_at(owner, msg), what, r);
        lemma_none_when(repeats_earlier_example(examples, n - 1), error_at(owner, msg), what, r);
        lemma_none_concat(
            duplicate_example_findings(owner, examples, (n - 1) as nat),
            when(repeats_earlier_example(examples, n - 1), error_at(owner, msg)),
            what,
            r,
        );
    }
}

proof fn lemma_lesson_refs_none(c: Content, owner: Seq<char>, l: Lesson, what: Seq<char>, r: Seq<char>)
    requires
        resolves(c, what, r),
    ensures
        none_unknown(lesson_ref_findings(c, owner, l), what, r),
{
    reveal_strlit("quiz");
    reveal_strlit("cheatsheet");
    reveal_strlit("OSS example");
    reveal_strlit("Trial");
    let a = quiz_ref_findings(c.quizzes, owner, l.quizzes@, l.quizzes@.len());
    let b = missing_ref_findings(
        c.cheatsheets,
        owner,
        l.cheatsheets@,
        "cheatsheet"@,
        l.cheatsheets@.len(),
    );
    let d = missing_ref_findings(c.oss, owner, l.oss_examples@, "OSS example"@, l.oss_examples@.len());
    let e = missing_ref_findings(c.trials, owner, l.trials@, "Trial"@, l.trials@.len());
    let g = duplicate_example_findings(owner, l.examples@, l.examples@.len());
    lemma_quiz_refs_none(c.quizzes, owner, l.quizzes@, l.quizzes@.len(), what, r);
    lemma_missing_refs_none(
        c.cheatsheets,
        owner,
        l.cheatsheets@,
        "cheatsheet"@,
        l.cheatsheets@.len(),
        what,
        r,
    );
    lemma_missing_refs_none(c.oss, owner, l.oss_examples@, "OSS example"@, l.oss_examples@.len(), what, r);
    lemma_missing_refs_none(c.trials, owner, l.trials@, "Trial"@, l.trials@.len(), what, r);
    lemma_duplicate_examples_none(owner, l.examples@, l.examples@.len(), what, r);
    lemma_none_concat(a, b, what, r);
    lemma_none_concat(a + b, d, what, r);
    lemma_none_concat(a + b + d, e, what, r);
    lemma_none_concat(a + b + d + e, g, what, r);
}

proof fn lemma_lessons_refs_none(c: Content, n: nat, what: Seq<char>, r: Seq<char>)
    requires
        resolves(c, what, r),
    ensures
        none_unknown(lessons_ref_findings(c, n), what, r),
    decreases n,
{
    if n > 0 {
        lemma_lessons_refs_none(c, (n - 1) as nat, what, r);
        lemma_lesson_refs_none(c, c.lessons.key_at(n - 1), c.lessons.doc_at(n - 1), what, r);
        lemma_none_concat(
            lessons_ref_findings(c, (n - 1) as nat),
            lesson_ref_findings(c, c.lessons.key_at(n - 1), c.lessons.doc_at(n - 1)),
            what,
            r,
        );
    }
}

proof fn lemma_unreachable_none(c: Content, n: nat, what: Seq<char>, r: Seq<char>)
    ensures
        none_unknown(unreachable_findings(c, n), what, r),
    decreases n,
{
    if n > 0 {
        lemma_unreachable_none(c, (n - 1) as nat, what, r);
        let f = warning_at(c.lessons.key_at(n - 1), "this lesson is not listed in any learning path"@);
        lemma_none_when(!reachable(c, c.lessons.key_at(n - 1)), f, what, r);
        lemma_none_concat(
            unreachable_findings(c, (n - 1) as nat),
            when(!reachable(c, c.lessons.key_at(n - 1)), f),
            what,
            r,
        );
    }
}

/// When `c` holds the referenced document, no unknown-reference error names it.
proof fn lemma_resolved_never_reported(c: Content, what: Seq<char>, r: Seq<char>, f: Finding)
    requires
        resolves(c, what, r),
        f.0 == Severity::Error,
        f.2 == unknown_message(what, r),
    ensures
        !all_ref_findings(c).contains(f),
{
    let p = paths_ref_findings(c, c.paths.size());
    let ls = lessons_ref_findings(c, c.lessons.size());
    let u = unreachable_findings(c, c.lessons.size());
    lemma_paths_refs_none(c, c.paths.size(), what, r);
    lemma_lessons_refs_none(c, c.lessons.size(), what, r);
    lemma_unreachable_none(c, c.lessons.size(), what, r);
    lemma_none_concat(p, ls, what, r);
    lemma_none_concat(p + ls, u, what, r);
    assert(all_ref_findings(c) == p + ls + u);
    if all_ref_findings(c).contains(f) {
        let x = choose|x: int| 0 <= x < all_ref_findings(c).len() && all_ref_findings(c)[x] == f;
        assert(not_unknown(all_ref_findings(c)[x], what, r));
    }
}

proof fn lemma_contains_left(a: Seq<Finding>, b: Seq<Finding>, f: Finding)
    requires
        a.contains(f),
    ensures
        (a + b).contains(f),
{
    let x = choose|x: int| 0 <= x < a.len() && a[x] == f;
    assert((a + b)[x] == f);
}

proof fn lemma_contains_right(a: Seq<Finding>, b: Seq<Finding>, f: Finding)
    requires
        b.contains(f),
    ensures
        (a + b).contains(f),
{
    let x = choose|x: int| 0 <= x < b.len() && b[x] == f;
    assert((a + b)[a.len() + x] == f);
}

proof fn lemma_missing_ref_present<T>(
    m: DocMap<T>,
    owner: Seq<char>,
    refs: Seq<String>,
    what: Seq<char>,
    n: nat,
    i: int,
)
    requires
        0 <= i < n,
        !m.has_key(refs[i]@),
    ensures
        missing_ref_findings(m, owner, refs, what, n).contains(
            error_at(owner, unknown_message(what, refs[i]@)),
        ),
    decreases n,
{
    let prev = missing_ref_findings(m, owner, refs, what, (n - 1) as nat);
    let last = when(
        !m.has_key(refs[n - 1]@),
        error_at(owner, unknown_message(what, refs[n - 1]@)),
    );
    if i < n - 1 {
        lemma_missing_ref_present(m, owner, refs, what, (n - 1) as nat, i);
        lemma_contains_left(prev, last, error_at(owner, unknown_message(what, refs[i]@)));
    } else {
        assert(last[0] == error_at(owner, unknown_message(what, refs[i]@)));
        lemma_contains_right(prev, last, error_at(owner, unknown_message(what, refs[i]@)));
    }
}

proof fn lemma_prerequisite_present(
    paths: DocMap<LearningPath>,
    owner: Seq<char>,
    refs: Seq<String>,
    n: nat,
    i: int,
)
    requires
        0 <= i < n,
        !paths.has_key(refs[i]@),
    ensures
        prerequisite_findings(paths, owner, refs, n).contains(
            error_at(owner, unknown_message("prerequisite path"@, refs[i]@)),
        ),
    decreases n,
{
    let f = error_at(owner, unknown_message("prerequisite path"@, refs[i]@));
    let y = refs[n - 1]@;
    let prev = prerequisite_findings(paths, owner, refs, (n - 1) as nat);
    let a = when(!paths.has_key(y), error_at(owner, unknown_message("prerequisite path"@, y)));
    let b = when(y == owner, error_at(owner, "a path cannot be its own prerequisite"@));
    if i < n - 1 {
        lemma_prerequisite_present(paths, owner, refs, (n - 1) as nat, i);
        lemma_contains_left(prev, a, f);
    } else {
        assert(a[0] == f);
        lemma_contains_right(prev, a, f);
    }
    lemma_contains_left(prev + a, b, f);
}

proof fn lemma_quiz_ref_present(quizzes: DocMap<Quiz>, owner: Seq<char>, refs: Seq<String>, n: nat, i: int)
    requires
        0 <= i < n,
        !quizzes.has_key(refs[i]@),
    ensures
        quiz_ref_findings(quizzes, owner, refs, n).contains(
            error_at(owner, unknown_message("quiz"@, refs[i]@)),
        ),
    decreases n,
{
    let f = error_at(owner, unknown_message("quiz"@, refs[i]@));
    let y = refs[n - 1]@;
    let prev = quiz_ref_findings(quizzes, owner, refs, (n - 1) as nat);
    let last = match quizzes.lookup(y) {
        None => seq![error_at(owner, unknown_message("quiz"@, y))],
        Some(entry) => when(
            entry.1.lesson@ != owner,
            error_at(
                owner,
                "quiz `"@ + y + "` belongs to lesson `"@ + entry.1.lesson@ + "`, not this one"@,
            ),
        ),
    };
    assert(quiz_ref_findings(quizzes, owner, refs, n) == prev + last);
    if i < n - 1 {
        lemma_quiz_ref_present(quizzes, owner, refs, (n - 1) as nat, i);
        lemma_contains_left(prev, last, f);
    } else {
        assert(last[0] == f);
        lemma_contains_right(prev, last, f);
    }
}

proof fn lemma_lessons_refs_present(c: Content, n: nat, j: int, f: Finding)
    requires
        0 <= j < n,
        lesson_ref_findings(c, c.lessons.key_at(j), c.lessons.doc_at(j)).contains(f),
    ensures
        lessons_ref_findings(c, n).contains(f),
    decreases n,
{
    let prev = lessons_ref_findings(c, (n - 1) as nat);
    let last = lesson_ref_findings(c, c.lessons.key_at(n - 1), c.lessons.doc_at(n - 1));
    if j < n - 1 {
        lemma_lessons_refs_present(c, (n - 1) as nat, j, f);
        lemma_contains_left(prev, last, f);
    } else {
        lemma_contains_right(prev, last, f);
    }
}

proof fn lemma_paths_refs_present(c: Content, n: nat, j: int, f: Finding)
    requires
        0 <= j < n,
        path_ref_findings(c, c.paths.key_at(j), c.paths.doc_at(j)).contains(f),
    ensures
        paths_ref_findings(c, n).contains(f),
    decreases n,
{
    let prev = paths_ref_findings(c, (n - 1) as nat);
    let last = path_ref_findings(c, c.paths.key_at(n - 1), c.paths.doc_at(n - 1));
    if j < n - 1 {
        lemma_paths_refs_present(c, (n - 1) as nat, j, f);
        lemma_contains_left(prev, last, f);
    } else {
        lemma_contains_right(prev, last, f);
    }
}

/// A finding of the lesson stored at `j` is one of all the reference findings.
proof fn lemma_lesson_finding_reported(c: Content, j: int, f: Finding)
    requires
        0 <= j < c.lessons.size(),
        lesson_ref_findings(c, c.lessons.key_at(j), c.lessons.doc_at(j)).contains(f),
    ensures
        all_ref_findings(c).contains(f),
{
    let p = paths_ref_findings(c, c.paths.size());
    let ls = lessons_ref_findings(c, c.lessons.size());
    let u = unreachable_findings(c, c.lessons.size());
    lemma_lessons_refs_present(c, c.lessons.size(), j, f);
    lemma_contains_right(p, ls, f);
    lemma_contains_left(p + ls, u, f);
    assert(all_ref_findings(c) == p + ls + u);
}

/// A finding of the learning path stored at `j` is one of all the reference
/// findings.
proof fn lemma_path_finding_reported(c: Content, j: int, f: Finding)
    requires
        0 <= j < c.paths.size(),
        path_ref_findings(c, c.paths.key_at(j), c.paths.doc_at(j)).contains(f),
    ensures
        all_ref_findings(c).contains(f),
{
    let p = paths_ref_findings(c, c.paths.size());
    let ls = lessons_ref_findings(c, c.lessons.size());
    let u = unreachable_findings(c, c.lessons.size());
    lemma_paths_refs_present(c, c.paths.size(), j, f);
    lemma_contains_left(p, ls, f);
    lemma_contains_left(p + ls, u, f);
    assert(all_ref_findings(c) == p + ls + u);
}

/// The unknown-reference message, spelled out.
proof fn lemma_unknown_message_spelled(what: Seq<char>, r: Seq<char>)
    ensures
        what == "lesson"@ ==> unknown_message(what, r) == "references unknown lesson `"@ + r + "`"@,
        what == "prerequisite path"@ ==> unknown_message(what, r)
            == "references unknown prerequisite path `"@ + r + "`"@,
        what == "quiz"@ ==> unknown_message(what, r) == "references unknown quiz `"@ + r + "`"@,
        what == "cheatsheet"@ ==> unknown_message(what, r) == "references unknown cheatsheet `"@ + r
            + "`"@,
        what == "OSS example"@ ==> unknown_message(what, r) == "references unknown OSS example `"@
            + r + "`"@,
        what == "Trial"@ ==> unknown_message(what, r) == "references unknown Trial `"@ + r + "`"@,
{
    reveal_strlit("references unknown ");
    reveal_strlit(" `");
    reveal_strlit("`");
    reveal_strlit("lesson");
    reveal_strlit("prerequisite path");
    reveal_strlit("quiz");
    reveal_strlit("cheatsheet");
    reveal_strlit("OSS example");
    reveal_strlit("Trial");
    reveal_strlit("references unknown lesson `");
    reveal_strlit("references unknown prerequisite path `");
    reveal_strlit("references unknown quiz `");
    reveal_strlit("references unknown cheatsheet `");
    reveal_strlit("references unknown OSS example `");
    reveal_strlit("references unknown Trial `");
    if what == "lesson"@ {
        assert(unknown_message(what, r) =~= "references unknown lesson `"@ + r + "`"@);
    }
    if what == "prerequisite path"@ {
        assert(unknown_message(what, r) =~= "references unknown prerequisite path `"@ + r + "`"@);
    }
    if what == "quiz"@ {
        assert(unknown_message(what, r) =~= "references unknown quiz `"@ + r + "`"@);
    }
    if what == "cheatsheet"@ {
        assert(unknown_message(what, r) =~= "references unknown cheatsheet `"@ + r + "`"@);
    }
    if what == "OSS example"@ {
        assert(unknown_message(what, r) =~= "references unknown OSS example `"@ + r + "`"@);
    }
    if what == "Trial"@ {
        assert(unknown_message(what, r) =~= "references unknown Trial `"@ + r + "`"@);
    }
}

/// A lesson's reference to a Trial is reported exactly when no Trial has that
/// slug: the error "references unknown Trial `r`" at the lesson, for its
/// `i`-th Trial reference `r`, is among the reference findings if and only if
/// the content holds no Trial under `r`.
pub proof fn lemma_unknown_trials_are_reported_exactly(c: Content, j: int, i: int)
    requires
        0 <= j < c.lessons.size(),
        0 <= i < c.lessons.doc_at(j).trials@.len(),
    ensures
        all_ref_findings(c).contains(
            (
                Severity::Error,
                c.lessons.key_at(j),
                "references unknown Trial `"@ + c.lessons.doc_at(j).trials@[i]@ + "`"@,
            ),
        ) <==> !c.trials.has_key(c.lessons.doc_at(j).trials@[i]@),
{
    let k = c.lessons.key_at(j);
    let l = c.lessons.doc_at(j);
    let r = l.trials@[i]@;
    reveal_strlit("Trial");
    lemma_unknown_message_spelled("Trial"@, r);
    let f = error_at(k, unknown_message("Trial"@, r));
    if c.trials.has_key(r) {
        lemma_resolved_never_reported(c, "Trial"@, r, f);
    } else {
        lemma_missing_ref_present(c.trials, k, l.trials@, "Trial"@, l.trials@.len(), i);
        let a = quiz_ref_findings(c.quizzes, k, l.quizzes@, l.quizzes@.len());
        let b = missing_ref_findings(c.cheatsheets, k, l.cheatsheets@, "cheatsheet"@, l.cheatsheets@.len());
        let d = missing_ref_findings(c.oss, k, l.oss_examples@, "OSS example"@, l.oss_examples@.len());
        let e = missing_ref_findings(c.trials, k, l.trials@, "Trial"@, l.trials@.len());
        let g = duplicate_example_findings(k, l.examples@, l.examples@.len());
        lemma_contains_right(a + b + d, e, f);
        lemma_contains_left(a + b + d + e, g, f);
        lemma_lesson_finding_reported(c, j, f);
    }
}

/// A lesson's reference to an OSS example is reported exactly when no OSS
/// example has that id: the error "references unknown OSS example `r`" at the
/// lesson, for its `i`-th OSS reference `r`, is among the reference findings
/// if and only if the content holds no OSS example under `r`.
pub proof fn lemma_unknown_oss_examples_are_reported_exactly(c: Content, j: int, i: int)
    requires
        0 <= j < c.lessons.size(),
        0 <= i < c.lessons.doc_at(j).oss_examples@.len(),
    ensures
        all_ref_findings(c).contains(
            (
                Severity::Error,
                c.lessons.key_at(j),
                "references unknown OSS example `"@ + c.lessons.doc_at(j).oss_examples@[i]@ + "`"@,
            ),
        ) <==> !c.oss.has_key(c.lessons.doc_at(j).oss_examples@[i]@),
{
    let k = c.lessons.key_at(j);
    let l = c.lessons.doc_at(j);
    let r = l.oss_examples@[i]@;
    reveal_strlit("OSS example");
    lemma_unknown_message_spelled("OSS example"@, r);
    let f = error_at(k, unknown_message("OSS example"@, r));
    if c.oss.has_key(r) {
        lemma_resolved_never_reported(c, "OSS example"@, r, f);
    } else {
        lemma_missing_ref_present(c.oss, k, l.oss_examples@, "OSS example"@, l.oss_examples@.len(), i);
        let a = quiz_ref_findings(c.quizzes, k, l.quizzes@, l.quizzes@.len());
        let b = missing_ref_findings(c.cheatsheets, k, l.cheatsheets@, "cheatsheet"@, l.cheatsheets@.len());
        let d = missing_ref_findings(c.oss, k, l.oss_examples@, "OSS example"@, l.oss_examples@.len());
        let e = missing_ref_findings(c.trials, k, l.trials@, "Trial"@, l.trials@.len());
        let g = duplicate_example_findings(k, l.examples@, l.examples@.len());
        lemma_contains_right(a + b, d, f);
        lemma_contains_left(a + b + d, e, f);
        lemma_contains_left(a + b + d + e, g, f);
        lemma_lesson_finding_reported(c, j, f);
    }
}

/// A lesson's reference to a cheatsheet is reported exactly when no cheatsheet
/// has that id: the error "references unknown cheatsheet `r`" at the lesson,
/// for its `i`-th cheatsheet reference `r`, is among the reference findings if
/// and only if the content holds no cheatsheet under `r`.
pub proof fn lemma_unknown_cheatsheets_are_reported_exactly(c: Content, j: int, i: int)
    requires
        0 <= j < c.lessons.size(),
        0 <= i < c.lessons.doc_at(j).cheatsheets@.len(),
    ensures
        all_ref_findings(c).contains(
            (
                Severity::Error,
                c.lessons.key_at(j),
                "references unknown cheatsheet `"@ + c.lessons.doc_at(j).cheatsheets@[i]@ + "`"@,
            ),
        ) <==> !c.cheatsheets.has_key(c.lessons.doc_at(j).cheatsheets@[i]@),
{
    let k = c.lessons.key_at(j);
    let l = c.lessons.doc_at(j);
    let r = l.cheatsheets@[i]@;
    reveal_strlit("cheatsheet");
    lemma_unknown_message_spelled("cheatsheet"@, r);
    let f = error_at(k, unknown_message("cheatsheet"@, r));
    if c.cheatsheets.has_key(r) {
        lemma_resolved_never_reported(c, "cheatsheet"@, r, f);
    } else {
        lemma_missing_ref_present(c.cheatsheets, k, l.cheatsheets@, "cheatsheet"@, l.cheatsheets@.len(), i);
        let a = quiz_ref_findings(c.quizzes, k, l.quizzes@, l.quizzes@.len());
        let b = missing_ref_findings(c.cheatsheets, k, l.cheatsheets@, "cheatsheet"@, l.cheatsheets@.len());
        let d = missing_ref_findings(c.oss, k, l.oss_examples@, "OSS example"@, l.oss_examples@.len());
        let e = missing_ref_findings(c.trials, k, l.trials@, "Trial"@, l.trials@.len());
        let g = duplicate_example_findings(k, l.examples@, l.examples@.len());
        lemma_contains_right(a, b, f);
        lemma_contains_left(a + b, d, f);
        lemma_contains_left(a + b + d, e, f);
        lemma_contains_left(a + b + d + e, g, f);
        lemma_lesson_finding_reported(c, j, f);
    }
}

/// A lesson's reference to a quiz is reported as unknown exactly when no quiz
/// has that id: the error "references unknown quiz `r`" at the lesson, for its
/// `i`-th quiz reference `r`, is among the reference findings if and only if
/// the content holds no quiz under `r`.
pub proof fn lemma_unknown_quizzes_are_reported_exactly(c: Content, j: int, i: int)
    requires
        0 <= j < c.lessons.size(),
        0 <= i < c.lessons.doc_at(j).quizzes@.len(),
    ensures
        all_ref_findings(c).contains(
            (
                Severity::Error,
                c.lessons.key_at(j),
                "references unknown quiz `"@ + c.lessons.doc_at(j).quizzes@[i]@ + "`"@,
            ),
        ) <==> !c.quizzes.has_key(c.lessons.doc_at(j).quizzes@[i]@),
{
    let k = c.lessons.key_at(j);
    let l = c.lessons.doc_at(j);
    let r = l.quizzes@[i]@;
    reveal_strlit("quiz");
    lemma_unknown_message_spelled("quiz"@, r);
    let f = error_at(k, unknown_message("quiz"@, r));
    if c.quizzes.has_key(r) {
        lemma_resolved_never_reported(c, "quiz"@, r, f);
    } else {
        lemma_quiz_ref_present(c.quizzes, k, l.quizzes@, l.quizzes@.len(), i);
        let a = quiz_ref_findings(c.quizzes, k, l.quizzes@, l.quizzes@.len());
        let b = missing_ref_findings(c.cheatsheets, k, l.cheatsheets@, "cheatsheet"@, l.cheatsheets@.len());
        let d = missing_ref_findings(c.oss, k, l.oss_examples@, "OSS example"@, l.oss_examples@.len());
        let e = missing_ref_findings(c.trials, k, l.trials@, "Trial"@, l.trials@.len());
        let g = duplicate_example_findings(k, l.examples@, l.examples@.len());
        lemma_contains_left(a, b, f);
        lemma_contains_left(a + b, d, f);
        lemma_contains_left(a + b + d, e, f);
        lemma_contains_left(a + b + d + e, g, f);
        lemma_lesson_finding_reported(c, j, f);
    }
}

/// A learning path's reference to a lesson is reported exactly when no lesson
/// has that id: the error "references unknown lesson `r`" at the path, for its
/// `i`-th lesson `r`, is among the reference findings if and only if the
/// content holds no lesson under `r`.
pub proof fn lemma_unknown_lessons_are_reported_exactly(c: Content, j: int, i: int)
    requires
        0 <= j < c.paths.size(),
        0 <= i < c.paths.doc_at(j).lessons@.len(),
    ensures
        all_ref_findings(c).contains(
            (
                Severity::Error,
                c.paths.key_at(j),
                "references unknown lesson `"@ + c.paths.doc_at(j).lessons@[i]@ + "`"@,
            ),
        ) <==> !c.lessons.has_key(c.paths.doc_at(j).lessons@[i]@),
{
    let k = c.paths.key_at(j);
    let p = c.paths.doc_at(j);
    let r = p.lessons@[i]@;
    reveal_strlit("lesson");
    lemma_unknown_message_spelled("lesson"@, r);
    let f = error_at(k, unknown_message("lesson"@, r));
    if c.lessons.has_key(r) {
        lemma_resolved_never_reported(c, "lesson"@, r, f);
    } else {
        lemma_missing_ref_present(c.lessons, k, p.lessons@, "lesson"@, p.lessons@.len(), i);
        let a = when(
            p.lessons@.len() == 0,
            error_at(k, "a learning path must contain at least one lesson"@),
        );
        let b = missing_ref_findings(c.lessons, k, p.lessons@, "lesson"@, p.lessons@.len());
        let d = prerequisite_findings(c.paths, k, p.prerequisites@, p.prerequisites@.len());
        lemma_contains_right(a, b, f);
        lemma_contains_left(a + b, d, f);
        lemma_path_finding_reported(c, j, f);
    }
}

/// A learning path's prerequisite is reported as unknown exactly when no path
/// has that id: the error "references unknown prerequisite path `r`" at the
/// path, for its `i`-th prerequisite `r`, is among the reference findings if
/// and only if the content holds no learning path under `r`.
pub proof fn lemma_unknown_prerequisites_are_reported_exactly(c: Content, j: int, i: int)
    requires
        0 <= j < c.paths.size(),
        0 <= i < c.paths.doc_at(j).prerequisites@.len(),
    ensures
        all_ref_findings(c).contains(
            (
                Severity::Error,
                c.paths.key_at(j),
                "references unknown prerequisite path `"@ + c.paths.doc_at(j).prerequisites@[i]@
                    + "`"@,
            ),
        ) <==> !c.paths.has_key(c.paths.doc_at(j).prerequisites@[i]@),
{
    let k = c.paths.key_at(j);
    let p = c.paths.doc_at(j);
    let r = p.prerequisites@[i]@;
    reveal_strlit("prerequisite path");
    lemma_unknown_message_spelled("prerequisite path"@, r);
    let f = error_at(k, unknown_message("prerequisite path"@, r));
    if c.paths.has_key(r) {
        lemma_resolved_never_reported(c, "prerequisite path"@, r, f);
    } else {
        lemma_prerequisite_present(c.paths, k, p.prerequisites@, p.prerequisites@.len(), i);
        let a = when(
            p.lessons@.len() == 0,
            error_at(k, "a learning path must contain at least one lesson"@),
        );
        let b = missing_ref_findings(c.lessons, k, p.lessons@, "lesson"@, p.lessons@.len());
        let d = prerequisite_findings(c.paths, k, p.prerequisites@, p.prerequisites@.len());
        lemma_contains_right(a + b, d, f);
        lemma_path_finding_reported(c, j, f);
    }
}

// ---------------------------------------------------------------------------
// Quizzes
// ---------------------------------------------------------------------------

/// How many of the first `n` options are marked correct.
pub open spec fn correct_count(options: Seq<QuizOption>, n: nat) -> nat
    decreases n,
{
    if n == 0 {
        0
    } else {
        correct_count(options, (n - 1) as nat) + if options[n - 1].correct {
            1nat
        } else {
            0nat
        }
    }
}

/// The explanation a wrong option gives, or nothing.
pub open spec fn why_text(o: QuizOption) -> Seq<char> {
    match o.why_wrong {
        Some(w) => w@,
        None => Seq::empty(),
    }
}

/// Findings for the first `n` options of the quiz `owner`.
pub open spec fn option_findings(owner: Seq<char>, options: Seq<QuizOption>, n: nat) -> Seq<Finding>
    decreases n,
{
    if n == 0 {
        Seq::empty()
    } else {
        let o = options[n - 1];
        option_findings(owner, options, (n - 1) as nat) + when(
            !o.correct && trim(why_text(o)).len() == 0,
            error_at(owner, "option "@ + debug_text(o.text@) + " is wrong but does not say why"@),
        ) + when(
            o.correct && o.why_wrong is Some,
            warning_at(owner, "the correct option should not carry a `why_wrong`"@),
        )
    }
}

/// Findings for the quiz `q` stored under `owner`.
pub open spec fn quiz_findings(c: Content, owner: Seq<char>, q: Quiz) -> Seq<Finding> {
    let correct = correct_count(q.options@, q.options@.len());
    when(
        !c.lessons.has_key(q.lesson@),
        error_at(owner, "belongs to unknown lesson `"@ + q.lesson@ + "`"@),
    ) + when(q.options@.len() < 2, error_at(owner, "a quiz needs at least two options"@)) + when(
        correct != 1,
        error_at(owner, "exactly one option must be correct, found "@ + decimal(correct)),
    ) + option_findings(owner, q.options@, q.options@.len()) + when(
        utf8_len(trim(q.explanation@)) < 20,
        error_at(owner, "the explanation is too short to be useful"@),
    )
}

/// Findings for the first `n` quizzes.
pub open spec fn quizzes_findings(c: Content, n: nat) -> Seq<Finding>
    decreases n,
{
    if n == 0 {
        Seq::empty()
    } else {
        quizzes_findings(c, (n - 1) as nat) + quiz_findings(
            c,
            c.quizzes.key_at(n - 1),
            c.quizzes.doc_at(n - 1),
        )
    }
}

fn count_correct(options: &Vec<QuizOption>) -> (k: usize)
    ensures
        k == correct_count(options@, options@.len()),
{
    let n = options.len();
    let mut k: usize = 0;
    let mut i: usize = 0;
    while i < n
        invariant
            n == options@.len(),
            i <= n,
            k == correct_count(options@, i as nat),
            k <= i,
        decreases n - i,
    {
        if options[i].correct {
            k = k + 1;
        }
        i = i + 1;
    }
    k
}

fn check_options(owner: &String, options: &Vec<QuizOption>, report: &mut ValidationReport)
    ensures
        final(report).findings() == old(report).findings() + option_findings(
            owner@,
            options@,
            options@.len(),
        ),
        final(report).documents == old(report).documents,
{
    let n = options.len();
    let mut i: usize = 0;
    while i < n
        invariant
            n == options@.len(),
            i <= n,
            report.findings() == old(report).findings() + option_findings(owner@, options@, i as nat),
            report.documents == old(report).documents,
        decreases n - i,
    {
        let o = &options[i];
        let unexplained = if o.correct {
            false
        } else {
            match &o.why_wrong {
                Some(w) => is_blank(w.as_str()),
                None => true,
            }
        };
        proof {
            if o.why_wrong is None {
                assert(trim(why_text(*o)) =~= Seq::<char>::empty());
            }
        }
        let mut message = text("option ");
        message.append(debug_quoted(o.text.as_str()).as_str());
        message.append(" is wrong but does not say why");
        report.record_if(unexplained, Severity::Error, owner, message);
        report.record_if(
            o.correct && o.why_wrong.is_some(),
            Severity::Warning,
            owner,
            text("the correct option should not carry a `why_wrong`"),
        );
        assert(report.findings() =~= old(report).findings() + option_findings(
            owner@,
            options@,
            (i + 1) as nat,
        ));
        i = i + 1;
    }
}

/// Checks the quiz stored under `owner`: that its lesson exists, that it has
/// at least two options of which exactly one is correct, that every wrong
/// option says why it is wrong, and that its explanation is long enough.
pub fn check_quiz(content: &Content, owner: &String, quiz: &Quiz, report: &mut ValidationReport)
    ensures
        final(report).findings() == old(report).findings() + quiz_findings(*content, owner@, *quiz),
        final(report).documents == old(report).documents,
{
    let known = content.lessons.contains_key(quiz.lesson.as_str());
    report.record_if(
        !known,
        Severity::Error,
        owner,
        concat3("belongs to unknown lesson `", quiz.lesson.as_str(), "`"),
    );
    report.record_if(
        quiz.options.len() < 2,
        Severity::Error,
        owner,
        text("a quiz needs at least two options"),
    );
    let correct = count_correct(&quiz.options);
    let mut message = text("exactly one option must be correct, found ");
    push_decimal(&mut message, correct as u64);
    report.record_if(correct != 1, Severity::Error, owner, message);
    check_options(owner, &quiz.options, report);
    let short = trimmed_shorter_than(quiz.explanation.as_str(), 20);
    report.record_if(
        short,
        Severity::Error,
        owner,
        text("the explanation is too short to be useful"),
    );
    assert(report.findings() =~= old(report).findings() + quiz_findings(*content, owner@, *quiz));
}

/// Reports quizzes attached to unknown lessons, with fewer than two options,
/// without exactly one correct option, with a wrong option that does not say
/// why it is wrong, or with an explanation too short to teach anything.
pub fn check_quizzes(content: &Content, report: &mut ValidationReport)
    ensures
        final(report).findings() == old(report).findings() + quizzes_findings(
            *content,
            content.quizzes.size(),
        ),
        final(report).documents == old(report).documents,
{
    let n = content.quizzes.len();
    let mut i: usize = 0;
    while i < n
        invariant
            n == content.quizzes.size(),
            i <= n,
            report.findings() == old(report).findings() + quizzes_findings(*content, i as nat),
            report.documents == old(report).documents,
        decreases n - i,
    {
        check_quiz(content, content.quizzes.key(i), &content.quizzes.entry(i).1, report);
        assert(report.findings() =~= old(report).findings() + quizzes_findings(
            *content,
            (i + 1) as nat,
        ));
        i = i + 1;
    }
}

// ---------------------------------------------------------------------------
// OSS attribution
// ---------------------------------------------------------------------------

/// A full commit hash: forty hexadecimal digits.
pub open spec fn full_sha(s: Seq<char>) -> bool {
    s.len() == 40 && forall|i: int| 0 <= i < s.len() ==> spec_is_hex(#[trigger] s[i])
}

/// `owner/name`: exactly one slash, with a non-empty owner before it and a
/// non-empty name after it.
pub open spec fn owner_and_name(s: Seq<char>) -> bool {
    &&& s.len() > 0
    &&& count_of(s, '/') == 1
    &&& s[0] != '/'
    &&& s[s.len() - 1] != '/'
}

/// A path relative to the repository root that does not climb out of it.
pub open spec fn relative_inside(s: Seq<char>) -> bool {
    s.len() > 0 && s[0] != '/' && !has_doubled(s, '.')
}

/// Findings about where the OSS example `e` (stored under `owner`) comes from.
pub open spec fn oss_source_findings(owner: Seq<char>, e: OssExample) -> Seq<Finding> {
    when(
        !full_sha(e.commit@),
        error_at(
            owner,
            "commit must be a full 40-character SHA, never a branch or tag: "@ + debug_text(
                e.commit@,
            ),
        ),
    ) + when(
        exists|i: int| 0 <= i < e.commit@.len() && spec_is_upper(#[trigger] e.commit@[i]),
        error_at(owner, "commit SHA must be lowercase"@),
    ) + when(
        !owner_and_name(e.repository@),
        error_at(owner, "repository must be `owner/name`, got "@ + debug_text(e.repository@)),
    ) + when(
        !relative_inside(e.path@),
        error_at(owner, "path must be a relative path inside the repository"@),
    )
}

/// Findings about the line range of the OSS example `e`.
pub open spec fn oss_lines_findings(owner: Seq<char>, e: OssExample) -> Seq<Finding> {
    when(
        e.line_start == 0,
        error_at(owner, "line numbers are 1-based; line_start must be at least 1"@),
    ) + when(e.line_end < e.line_start, error_at(owner, "line_end must not precede line_start"@))
        + when(
        e.line_end >= e.line_start && e.line_end - e.line_start + 1 > 60,
        warning_at(owner, "excerpts longer than 60 lines are hard to learn from"@),
    )
}

/// Findings about the license, attribution and topics of the OSS example `e`.
pub open spec fn oss_credit_findings(owner: Seq<char>, e: OssExample) -> Seq<Finding> {
    when(trim(e.license@).len() == 0, error_at(owner, "the upstream license must be recorded"@))
        + when(trim(e.attribution@).len() == 0, error_at(owner, "attribution must be recorded"@))
        + when(e.topics@.len() == 0, error_at(owner, "an OSS example needs at least one topic tag"@))
}

/// Findings for the OSS example `e` stored under `owner`.
pub open spec fn oss_findings(owner: Seq<char>, e: OssExample) -> Seq<Finding> {
    oss_source_findings(owner, e) + oss_lines_findings(owner, e) + oss_credit_findings(owner, e)
}

/// Findings for the first `n` OSS examples.
pub open spec fn all_oss_findings(c: Content, n: nat) -> Seq<Finding>
    decreases n,
{
    if n == 0 {
        Seq::empty()
    } else {
        all_oss_findings(c, (n - 1) as nat) + oss_findings(c.oss.key_at(n - 1), c.oss.doc_at(n - 1))
    }
}

/// Checks where the OSS example stored under `owner` comes from: a full,
/// lowercase commit hash, an `owner/name` repository, and a path inside it.
pub fn check_oss_source(owner: &String, e: &OssExample, report: &mut ValidationReport)
    ensures
        final(report).findings() == old(report).findings() + oss_source_findings(owner@, *e),
        final(report).documents == old(report).documents,
{
    let commit = chars_of(e.commit.as_str());
    let sha = commit.len() == 40 && all_hex(&commit);
    report.record_if(
        !sha,
        Severity::Error,
        owner,
        concat2(
            "commit must be a full 40-character SHA, never a branch or tag: ",
            debug_quoted(e.commit.as_str()).as_str(),
        ),
    );
    let upper = any_upper(&commit);
    report.record_if(upper, Severity::Error, owner, text("commit SHA must be lowercase"));
    let repository = chars_of(e.repository.as_str());
    let slashes = count(&repository, '/');
    let n = repository.len();
    let well_formed = n > 0 && slashes == 1 && repository[0] != '/' && repository[n - 1] != '/';
    report.record_if(
        !well_formed,
        Severity::Error,
        owner,
        concat2(
            "repository must be `owner/name`, got ",
            debug_quoted(e.repository.as_str()).as_str(),
        ),
    );
    let path = chars_of(e.path.as_str());
    let inside = path.len() > 0 && path[0] != '/' && !doubled(&path, '.');
    report.record_if(
        !inside,
        Severity::Error,
        owner,
        text("path must be a relative path inside the repository"),
    );
    assert(report.findings() =~= old(report).findings() + oss_source_findings(owner@, *e));
}

fn check_oss_lines(owner: &String, e: &OssExample, report: &mut ValidationReport)
    ensures
        final(report).findings() == old(report).findings() + oss_lines_findings(owner@, *e),
        final(report).documents == old(report).documents,
{
    report.record_if(
        e.line_start == 0,
        Severity::Error,
        owner,
        text("line numbers are 1-based; line_start must be at least 1"),
    );
    report.record_if(
        e.line_end < e.line_start,
        Severity::Error,
        owner,
        text("line_end must not precede line_start"),
    );
    let long = e.line_end >= e.line_start && e.line_end - e.line_start >= 60;
    report.record_if(
        long,
        Severity::Warning,
        owner,
        text("excerpts longer than 60 lines are hard to learn from"),
    );
    assert(report.findings() =~= old(report).findings() + oss_lines_findings(owner@, *e));
}

fn check_oss_credit(owner: &String, e: &OssExample, report: &mut ValidationReport)
    ensures
        final(report).findings() == old(report).findings() + oss_credit_findings(owner@, *e),
        final(report).documents == old(report).documents,
{
    let no_license = is_blank(e.license.as_str());
    report.record_if(
        no_license,
        Severity::Error,
        owner,
        text("the upstream license must be recorded"),
    );
    let no_attribution = is_blank(e.attribution.as_str());
    report.record_if(no_attribution, Severity::Error, owner, text("attribution must be recorded"));
    report.record_if(
        e.topics.len() == 0,
        Severity::Error,
        owner,
        text("an OSS example needs at least one topic tag"),
    );
    assert(report.findings() =~= old(report).findings() + oss_credit_findings(owner@, *e));
}

fn check_oss_example(owner: &String, e: &OssExample, report: &mut ValidationReport)
    ensures
        final(report).findings() == old(report).findings() + oss_findings(owner@, *e),
        final(report).documents == old(report).documents,
{
    let ghost start = report.findings();
    let ghost source = oss_source_findings(owner@, *e);
    let ghost lines = oss_lines_findings(owner@, *e);
    let ghost credit = oss_credit_findings(owner@, *e);
    check_oss_source(owner, e, report);
    check_oss_lines(owner, e, report);
    check_oss_credit(owner, e, report);
    assert(report.findings() == start + source + lines + credit);
    assert(oss_findings(owner@, *e) == source + lines + credit);
    assert(start + source + lines + credit =~= start + (source + lines + credit));
}

/// Reports OSS examples whose citation is not exact: a commit that is not a
/// full lowercase SHA, a repository not of the form `owner/name`, a path
/// outside the repository, a bad line range, a missing license, attribution
/// or topic. Excerpts over 60 lines draw a warning.
pub fn check_oss_attribution(content: &Content, report: &mut ValidationReport)
    ensures
        final(report).findings() == old(report).findings() + all_oss_findings(
            *content,
            content.oss.size(),
        ),
        final(report).documents == old(report).documents,
{
    let n = content.oss.len();
    let mut i: usize = 0;
    while i < n
        invariant
            n == content.oss.size(),
            i <= n,
            report.findings() == old(report).findings() + all_oss_findings(*content, i as nat),
            report.documents == old(report).documents,
        decreases n - i,
    {
        check_oss_example(content.oss.key(i), &content.oss.entry(i).1, report);
        assert(report.findings() =~= old(report).findings() + all_oss_findings(
            *content,
            (i + 1) as nat,
        ));
        i = i + 1;
    }
}

// ---------------------------------------------------------------------------
// Locations
// ---------------------------------------------------------------------------

/// What `location` returns for `path` and `root`: `path` relative to `root`
/// when `root` is a leading part of it, else `path` itself, as displayed.
pub uninterp spec fn path_location(path: Seq<char>, root: Seq<char>) -> Seq<char>;

/// `path` relative to `root` where it lies under `root`, else `path`
/// unchanged, displayed as text: `Path::strip_prefix`, which compares whole
/// components. Trusted only to depend on the two paths alone; how components
/// are compared is left unstated.
#[verifier::external_body]
pub fn location(path: &str, root: &str) -> (r: String)
    ensures
        r@ == path_location(path@, root@),
{
    let p = std::path::Path::new(path);
    p.strip_prefix(root).unwrap_or(p).display().to_string()
}

// ---------------------------------------------------------------------------
// Trials
// ---------------------------------------------------------------------------

/// Test `j` repeats the id of an earlier test.
pub open spec fn repeats_earlier_test(tests: Seq<TestCase>, j: int) -> bool {
    exists|k: int| 0 <= k < j && #[trigger] tests[k].id@ == tests[j].id@
}

/// Findings for the first `n` tests of a Trial reported at `at`.
pub open spec fn test_findings(at: Seq<char>, tests: Seq<TestCase>, n: nat) -> Seq<Finding>
    decreases n,
{
    if n == 0 {
        Seq::empty()
    } else {
        let t = tests[n - 1];
        test_findings(at, tests, (n - 1) as nat) + when(
            repeats_earlier_test(tests, n - 1),
            error_at(at, "duplicate test id `"@ + t.id@ + "`"@),
        ) + when(
            t.expected_stdout@.len() == 0,
            warning_at(at, "test `"@ + t.id@ + "` expects no output"@),
        )
    }
}

/// Some test has visibility `v`.
pub open spec fn has_visibility(tests: Seq<TestCase>, v: Visibility) -> bool {
    exists|i: int| 0 <= i < tests.len() && (#[trigger] tests[i]).visibility == v
}

/// The message for a limit set to zero.
pub open spec fn zero_limit_message(field: Seq<char>) -> Seq<char> {
    field + " must be greater than zero, not unlimited"@
}

/// Findings for limits of zero, which would read as "unlimited", one for each
/// limit that is zero.
pub open spec fn limit_findings(at: Seq<char>, limits: Option<Limits>) -> Seq<Finding> {
    match limits {
        Some(l) => when(l.wall_ms == 0, error_at(at, zero_limit_message("wall_ms"@))) + when(
            l.memory_bytes == 0,
            error_at(at, zero_limit_message("memory_bytes"@)),
        ) + when(l.output_bytes == 0, error_at(at, zero_limit_message("output_bytes"@))) + when(
            l.fuel == 0,
            error_at(at, zero_limit_message("fuel"@)),
        ) + when(l.table_elements == 0, error_at(at, zero_limit_message("table_elements"@)))
            + when(l.instances == 0, error_at(at, zero_limit_message("instances"@))),
        None => Seq::empty(),
    }
}

/// Findings about the version and tests of the Trial `t`, reported at `at`.
pub open spec fn trial_test_findings(at: Seq<char>, t: Trial) -> Seq<Finding> {
    when(t.version == 0, error_at(at, "version must be at least 1"@)) + when(
        t.tests@.len() == 0,
        error_at(at, "a Trial needs at least one test"@),
    ) + test_findings(at, t.tests@, t.tests@.len()) + when(
        !has_visibility(t.tests@, Visibility::Public),
        error_at(at, "a Trial must expose at least one public test"@),
    ) + when(
        !has_visibility(t.tests@, Visibility::Hidden),
        warning_at(
            at,
            "this Trial has no hidden tests, so a solution tuned to the public cases passes"@,
        ),
    )
}

/// Findings for the Trial `t` stored under `slug`, reported at `at`.
pub open spec fn trial_findings(at: Seq<char>, slug: Seq<char>, t: Trial) -> Seq<Finding> {
    trial_test_findings(at, t) + limit_findings(at, t.limits) + when(
        slug != t.slug@,
        error_at(at, "the Trial slug does not match its directory key"@),
    )
}

/// Findings for the first `n` Trials, located relative to `root`.
pub open spec fn trials_findings(root: Seq<char>, c: Content, n: nat) -> Seq<Finding>
    decreases n,
{
    if n == 0 {
        Seq::empty()
    } else {
        trials_findings(root, c, (n - 1) as nat) + trial_findings(
            path_location(c.trials.path_at(n - 1), root),
            c.trials.key_at(n - 1),
            c.trials.doc_at(n - 1),
        )
    }
}

fn check_tests(at: &String, tests: &Vec<TestCase>, report: &mut ValidationReport)
    ensures
        final(report).findings() == old(report).findings() + test_findings(
            at@,
            tests@,
            tests@.len(),
        ),
        final(report).documents == old(report).documents,
{
    let n = tests.len();
    let mut j: usize = 0;
    while j < n
        invariant
            n == tests@.len(),
            j <= n,
            report.findings() == old(report).findings() + test_findings(at@, tests@, j as nat),
            report.documents == old(report).documents,
        decreases n - j,
    {
        let mut seen = false;
        let mut k: usize = 0;
        while k < j
            invariant
                n == tests@.len(),
                j < n,
                k <= j,
                seen == exists|m: int| 0 <= m < k && #[trigger] tests@[m].id@ == tests@[j as int].id@,
            decreases j - k,
        {
            if tests[k].id == tests[j].id {
                seen = true;
            }
            k = k + 1;
        }
        let t = &tests[j];
        report.record_if(
            seen,
            Severity::Error,
            at,
            concat3("duplicate test id `", t.id.as_str(), "`"),
        );
        let silent = t.expected_stdout.as_str().is_empty();
        report.record_if(
            silent,
            Severity::Warning,
            at,
            concat3("test `", t.id.as_str(), "` expects no output"),
        );
        assert(report.findings() =~= old(report).findings() + test_findings(
            at@,
            tests@,
            (j + 1) as nat,
        ));
        j = j + 1;
    }
}

fn any_with_visibility(tests: &Vec<TestCase>, v: Visibility) -> (b: bool)
    ensures
        b == has_visibility(tests@, v),
{
    let n = tests.len();
    let mut i: usize = 0;
    while i < n
        invariant
            n == tests@.len(),
            i <= n,
            forall|j: int| 0 <= j < i ==> (#[trigger] tests@[j]).visibility != v,
        decreases n - i,
    {
        if tests[i].visibility == v {
            return true;
        }
        i = i + 1;
    }
    false
}

fn check_limits(at: &String, limits: Option<Limits>, report: &mut ValidationReport)
    ensures
        final(report).findings() == old(report).findings() + limit_findings(at@, limits),
        final(report).documents == old(report).documents,
{
    if let Some(l) = limits {
        report.record_if(
            l.wall_ms == 0,
            Severity::Error,
            at,
            text("wall_ms must be greater than zero, not unlimited"),
        );
        report.record_if(
            l.memory_bytes == 0,
            Severity::Error,
            at,
            text("memory_bytes must be greater than zero, not unlimited"),
        );
        report.record_if(
            l.output_bytes == 0,
            Severity::Error,
            at,
            text("output_bytes must be greater than zero, not unlimited"),
        );
        report.record_if(
            l.fuel == 0,
            Severity::Error,
            at,
            text("fuel must be greater than zero, not unlimited"),
        );
        report.record_if(
            l.table_elements == 0,
            Severity::Error,
            at,
            text("table_elements must be greater than zero, not unlimited"),
        );
        report.record_if(
            l.instances == 0,
            Severity::Error,
            at,
            text("instances must be greater than zero, not unlimited"),
        );
        proof {
            reveal_strlit("wall_ms must be greater than zero, not unlimited");
            reveal_strlit("memory_bytes must be greater than zero, not unlimited");
            reveal_strlit("output_bytes must be greater than zero, not unlimited");
            reveal_strlit("fuel must be greater than zero, not unlimited");
            reveal_strlit("table_elements must be greater than zero, not unlimited");
            reveal_strlit("instances must be greater than zero, not unlimited");
            reveal_strlit("wall_ms");
            reveal_strlit("memory_bytes");
            reveal_strlit("output_bytes");
            reveal_strlit("fuel");
            reveal_strlit("table_elements");
            reveal_strlit("instances");
            reveal_strlit(" must be greater than zero, not unlimited");
            assert("wall_ms must be greater than zero, not unlimited"@ =~= zero_limit_message(
                "wall_ms"@,
            ));
            assert("memory_bytes must be greater than zero, not unlimited"@ =~= zero_limit_message(
                "memory_bytes"@,
            ));
            assert("output_bytes must be greater than zero, not unlimited"@ =~= zero_limit_message(
                "output_bytes"@,
            ));
            assert("fuel must be greater than zero, not unlimited"@ =~= zero_limit_message(
                "fuel"@,
            ));
            assert("table_elements must be greater than zero, not unlimited"@ =~= zero_limit_message(
                "table_elements"@,
            ));
            assert("instances must be greater than zero, not unlimited"@ =~= zero_limit_message(
                "instances"@,
            ));
        }
    }
    assert(report.findings() =~= old(report).findings() + limit_findings(at@, limits));
}

fn check_trial_tests(at: &String, trial: &Trial, report: &mut ValidationReport)
    ensures
        final(report).findings() == old(report).findings() + trial_test_findings(at@, *trial),
        final(report).documents == old(report).documents,
{
    report.record_if(trial.version == 0, Severity::Error, at, text("version must be at least 1"));
    report.record_if(
        trial.tests.len() == 0,
        Severity::Error,
        at,
        text("a Trial needs at least one test"),
    );
    check_tests(at, &trial.tests, report);
    let public = any_with_visibility(&trial.tests, Visibility::Public);
    report.record_if(
        !public,
        Severity::Error,
        at,
        text("a Trial must expose at least one public test"),
    );
    let hidden = any_with_visibility(&trial.tests, Visibility::Hidden);
    report.record_if(
        !hidden,
        Severity::Warning,
        at,
        text("this Trial has no hidden tests, so a solution tuned to the public cases passes"),
    );
    assert(report.findings() =~= old(report).findings() + trial_test_findings(at@, *trial));
}

/// Checks the Trial stored under `slug`, reporting at `at`, the location of
/// its file: its version and tests, its limits, and that its own slug matches
/// the key.
#[verifier::spinoff_prover]
pub fn check_trial(at: &String, slug: &String, trial: &Trial, report: &mut ValidationReport)
    ensures
        final(report).findings() == old(report).findings() + trial_findings(at@, slug@, *trial),
        final(report).documents == old(report).documents,
{
    let ghost start = report.findings();
    let ghost tests_part = trial_test_findings(at@, *trial);
    let ghost limits_part = limit_findings(at@, trial.limits);
    let ghost slug_part = when(
        slug@ != trial.slug@,
        error_at(at@, "the Trial slug does not match its directory key"@),
    );
    check_trial_tests(at, trial, report);
    check_limits(at, trial.limits, report);
    let mismatch = !(*slug == trial.slug);
    report.record_if(
        mismatch,
        Severity::Error,
        at,
        text("the Trial slug does not match its directory key"),
    );
    proof {
        lemma_concat_associative(start, tests_part, limits_part);
        lemma_concat_associative(start, tests_part + limits_part, slug_part);
    }
}

/// Reports Trials with version 0, no tests, repeated test ids, no public test,
/// a limit of zero, or a slug that differs from its key; a test expecting no
/// output and a Trial without hidden tests draw warnings. Findings are located
/// at the Trial file's path relative to `root`.
pub fn check_trials(root: &str, content: &Content, report: &mut ValidationReport)
    ensures
        final(report).findings() == old(report).findings() + trials_findings(
            root@,
            *content,
            content.trials.size(),
        ),
        final(report).documents == old(report).documents,
{
    let n = content.trials.len();
    let mut i: usize = 0;
    while i < n
        invariant
            n == content.trials.size(),
            i <= n,
            report.findings() == old(report).findings() + trials_findings(
                root@,
                *content,
                i as nat,
            ),
            report.documents == old(report).documents,
        decreases n - i,
    {
        let entry = content.trials.entry(i);
        let at = location(entry.0.as_str(), root);
        check_trial(&at, content.trials.key(i), &entry.1, report);
        assert(report.findings() =~= old(report).findings() + trials_findings(
            root@,
            *content,
            (i + 1) as nat,
        ));
        i = i + 1;
    }
}

// ---------------------------------------------------------------------------
// Files that documents point at
// ---------------------------------------------------------------------------

/// A file a document points at: the document's own path, the path it names
/// (relative to the document's directory), and what the file is for.
#[derive(Debug, Clone, PartialEq, Eq)]
pub struct FileRequirement {
    /// Path of the document that names the file.
    pub owner: String,
    /// The file, relative to the owner's directory.
    pub relative: String,
    /// What the file is, for the message.
    pub what: String,
}

impl View for FileRequirement {
    type V = (Seq<char>, Seq<char>, Seq<char>);

    open spec fn view(&self) -> (Seq<char>, Seq<char>, Seq<char>) {
        (self.owner@, self.relative@, self.what@)
    }
}

/// The files the first `n` lessons name: each lesson's body.
pub open spec fn lesson_requirements(c: Content, n: nat) -> Seq<(Seq<char>, Seq<char>, Seq<char>)>
    decreases n,
{
    if n == 0 {
        Seq::empty()
    } else {
        lesson_requirements(c, (n - 1) as nat).push(
            (c.lessons.path_at(n - 1), c.lessons.doc_at(n - 1).body@, "body"@),
        )
    }
}

/// The files the first `n` Trials name: statement, starter and reference solution.
pub open spec fn trial_requirements(c: Content, n: nat) -> Seq<(Seq<char>, Seq<char>, Seq<char>)>
    decreases n,
{
    if n == 0 {
        Seq::empty()
    } else {
        let p = c.trials.path_at(n - 1);
        let t = c.trials.doc_at(n - 1);
        trial_requirements(c, (n - 1) as nat).push((p, t.statement@, "statement"@)).push(
            (p, t.starter@, "starter"@),
        ).push((p, t.reference_solution@, "reference solution"@))
    }
}

/// Every file that the documents of `c` name, lessons first.
pub open spec fn spec_required_files(c: Content) -> Seq<(Seq<char>, Seq<char>, Seq<char>)> {
    lesson_requirements(c, c.lessons.size()) + trial_requirements(c, c.trials.size())
}

/// The views of a list of requirements.
pub open spec fn requirement_views(v: Seq<FileRequirement>) -> Seq<(Seq<char>, Seq<char>, Seq<char>)> {
    v.map_values(|r: FileRequirement| r@)
}

fn requirement(owner: &String, relative: &String, what: &str) -> (r: FileRequirement)
    ensures
        r@ == (owner@, relative@, what@),
{
    FileRequirement { owner: owner.clone(), relative: relative.clone(), what: text(what) }
}

/// The files that the documents of `content` name and that must exist.
pub fn required_files(content: &Content) -> (r: Vec<FileRequirement>)
    ensures
        requirement_views(r@) == spec_required_files(*content),
{
    let mut r: Vec<FileRequirement> = Vec::new();
    let n = content.lessons.len();
    let mut i: usize = 0;
    while i < n
        invariant
            n == content.lessons.size(),
            i <= n,
            requirement_views(r@) == lesson_requirements(*content, i as nat),
        decreases n - i,
    {
        let entry = content.lessons.entry(i);
        r.push(requirement(&entry.0, &entry.1.body, "body"));
        assert(requirement_views(r@) =~= lesson_requirements(*content, (i + 1) as nat));
        i = i + 1;
    }
    let ghost lessons_part = requirement_views(r@);
    let m = content.trials.len();
    let mut i: usize = 0;
    while i < m
        invariant
            m == content.trials.size(),
            i <= m,
            requirement_views(r@) == lessons_part + trial_requirements(*content, i as nat),
        decreases m - i,
    {
        let entry = content.trials.entry(i);
        let ghost r0 = requirement_views(r@);
        let a = requirement(&entry.0, &entry.1.statement, "statement");
        let b = requirement(&entry.0, &entry.1.starter, "starter");
        let c = requirement(&entry.0, &entry.1.reference_solution, "reference solution");
        r.push(a);
        assert(requirement_views(r@) =~= r0.push(a@));
        r.push(b);
        assert(requirement_views(r@) =~= r0.push(a@).push(b@));
        r.push(c);
        assert(requirement_views(r@) =~= r0.push(a@).push(b@).push(c@));
        assert(requirement_views(r@) =~= lessons_part + trial_requirements(*content, (i + 1) as nat));
        i = i + 1;
    }
    r
}

/// Errors for the first `n` required files that do not exist.
pub open spec fn missing_file_findings(
    root: Seq<char>,
    required: Seq<(Seq<char>, Seq<char>, Seq<char>)>,
    exists: Seq<bool>,
    n: nat,
) -> Seq<Finding>
    decreases n,
{
    if n == 0 {
        Seq::empty()
    } else {
        let req = required[n - 1];
        missing_file_findings(root, required, exists, (n - 1) as nat) + when(
            !exists[n - 1],
            error_at(path_location(req.0, root), req.2 + " `"@ + req.1 + "` does not exist"@),
        )
    }
}

/// Every path a document points at must exist. `exists[i]` tells whether
/// `required[i]` was found; each that was not is reported at its owner's
/// location relative to `root`.
pub fn check_files_exist(
    root: &str,
    required: &Vec<FileRequirement>,
    exists: &Vec<bool>,
    report: &mut ValidationReport,
)
    requires
        exists@.len() == required@.len(),
    ensures
        final(report).findings() == old(report).findings() + missing_file_findings(
            root@,
            requirement_views(required@),
            exists@,
            required@.len(),
        ),
        final(report).documents == old(report).documents,
{
    let n = required.len();
    let mut i: usize = 0;
    while i < n
        invariant
            n == required@.len(),
            n == exists@.len(),
            i <= n,
            report.findings() == old(report).findings() + missing_file_findings(
                root@,
                requirement_views(required@),
                exists@,
                i as nat,
            ),
            report.documents == old(report).documents,
        decreases n - i,
    {
        let req = &required[i];
        if !exists[i] {
            let mut message = concat3(req.what.as_str(), " `", req.relative.as_str());
            message.append("` does not exist");
            report.error(location(req.owner.as_str(), root), message);
        }
        assert(requirement_views(required@)[i as int] == req@);
        assert(report.findings() =~= old(report).findings() + missing_file_findings(
            root@,
            requirement_views(required@),
            exists@,
            (i + 1) as nat,
        ));
        i = i + 1;
    }
}

// ---------------------------------------------------------------------------
// Everything
// ---------------------------------------------------------------------------

/// Everything [`check`] reports, in order.
pub open spec fn check_findings(
    root: Seq<char>,
    c: Content,
    exists: Seq<bool>,
    read: nat,
) -> Seq<Finding> {
    all_version_findings(c) + all_id_findings(c) + dropped_findings(read, c) + all_ref_findings(c) + quizzes_findings(
        c,
        c.quizzes.size(),
    ) + all_oss_findings(c, c.oss.size()) + trials_findings(root, c, c.trials.size())
        + missing_file_findings(
        root,
        spec_required_files(c),
        exists,
        spec_required_files(c).len(),
    )
}

/// Validates everything that cannot be expressed in a schema: format
/// versions, identifiers, references, quizzes, OSS attribution, Trials, and
/// the files documents point at. `files_exist[i]` tells whether the `i`-th of
/// [`required_files`] exists.
#[verifier::spinoff_prover]
pub fn check(root: &str, content: &Content, files_exist: &Vec<bool>, report: &mut ValidationReport)
    requires
        files_exist@.len() == spec_required_files(*content).len(),
    ensures
        final(report).findings() == old(report).findings() + check_findings(
            root@,
            *content,
            files_exist@,
            old(report).documents as nat,
        ),
        final(report).documents == old(report).documents,
{
    let ghost c = *content;
    let ghost start = report.findings();
    let ghost versions = all_version_findings(c);
    let ghost ids = all_id_findings(c);
    let ghost dropped = dropped_findings(report.documents as nat, c);
    let ghost refs = all_ref_findings(c);
    let ghost quizzes = quizzes_findings(c, c.quizzes.size());
    let ghost oss = all_oss_findings(c, c.oss.size());
    let ghost trials = trials_findings(root@, c, c.trials.size());
    let ghost files = missing_file_findings(
        root@,
        spec_required_files(c),
        files_exist@,
        spec_required_files(c).len(),
    );
    check_format_versions(content, report);
    check_ids(content, report);
    proof {
        lemma_concat_associative(start, versions, ids);
        lemma_concat_associative(start, versions + ids, dropped);
    }
    let ghost so_far = versions + ids + dropped;
    check_references(content, report);
    proof {
        lemma_concat_associative(start, so_far, refs);
    }
    let ghost so_far = so_far + refs;
    check_quizzes(content, report);
    proof {
        lemma_concat_associative(start, so_far, quizzes);
    }
    let ghost so_far = so_far + quizzes;
    check_oss_attribution(content, report);
    proof {
        lemma_concat_associative(start, so_far, oss);
    }
    let ghost so_far = so_far + oss;
    check_trials(root, content, report);
    proof {
        lemma_concat_associative(start, so_far, trials);
    }
    let ghost so_far = so_far + trials;
    let required = required_files(content);
    check_files_exist(root, &required, files_exist, report);
    proof {
        lemma_concat_associative(start, so_far, files);
    }
}

} // verus!
