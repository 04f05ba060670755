//! The content model.
//!
//! Every content type here is plain data: identifiers, prose, code and the
//! small enums that classify them. Reading and writing these documents as JSON
//! happens around the library, which works on the values once loaded.

use vstd::prelude::*;

use crate::text::{decimal, push_decimal, text};

verus! {

/// Format version for every content document in this repository.
pub const CONTENT_FORMAT_VERSION: u32 = 1;

/// Difficulty tier, matching the control plane's vocabulary.
#[derive(Debug, Clone, Copy, PartialEq, Eq, Structural, PartialOrd, Ord, Hash)]
pub enum Difficulty {
    /// First contact with a concept.
    Intro,
    /// Routine application of one concept.
    Easy,
    /// Combines concepts or needs a non-obvious step.
    Medium,
    /// Requires real design judgement.
    Hard,
    /// Deep or adversarial.
    Expert,
}

/// A topic tag.
#[derive(Debug, Clone, Copy, PartialEq, Eq, Structural, Hash, PartialOrd, Ord)]
pub enum Topic {
    /// Ownership, moves, `Copy`.
    Ownership,
    /// Shared and unique borrows.
    Borrowing,
    /// Lifetimes and variance.
    Lifetimes,
    /// Traits and generics.
    Traits,
    /// Enums, pattern matching, `Option`/`Result`.
    Enums,
    /// Collections and iterators.
    Collections,
    /// Error handling.
    Errors,
    /// Concurrency and `Send`/`Sync`.
    Concurrency,
    /// Unsafe and FFI.
    Unsafe,
    /// Modules, crates, Cargo.
    Tooling,
}

/// Editorial state.
#[derive(Debug, Clone, Copy, PartialEq, Eq, Structural, PartialOrd, Ord, Hash)]
pub enum Lifecycle {
    /// Author is still working; not published.
    Draft,
    /// Published with a beta marker; does not count for ranking.
    Beta,
    /// Reviewed and accepted.
    Verified,
    /// Curated by maintainers as canonical for a concept.
    Official,
}

/// A learning path: an ordered sequence of lessons.
#[derive(Debug, Clone, PartialEq)]
pub struct LearningPath {
    /// Format version.
    pub format_version: u32,
    /// Stable identifier, e.g. `ownership`.
    pub id: String,
    /// Human title.
    pub title: String,
    /// One-sentence summary shown on the Learn index.
    pub summary: String,
    /// Topics this path covers.
    pub topics: Vec<Topic>,
    /// Editorial state.
    pub lifecycle: Lifecycle,
    /// Lesson ids, in teaching order.
    pub lessons: Vec<String>,
    /// Paths a learner should complete first.
    pub prerequisites: Vec<String>,
}

/// What a runnable example is expected to do when compiled.
///
/// Declaring the expectation is what makes a broken-on-purpose example
/// testable: without it nobody can tell "meant to fail" from "broken".
#[derive(Debug, Clone, PartialEq, Eq)]
pub enum ExpectedOutcome {
    /// Compiles and runs, producing this stdout.
    Runs {
        /// Expected stdout, compared after trimming trailing whitespace.
        stdout: String,
    },
    /// Compiles cleanly. Output is not asserted.
    Compiles,
    /// Fails to compile with this diagnostic code, e.g. `E0382`.
    CompileError {
        /// The `rustc` error code the example must produce.
        code: String,
    },
}

/// A runnable code example inside a lesson.
#[derive(Debug, Clone, PartialEq)]
pub struct Example {
    /// Identifier, unique within the lesson.
    pub id: String,
    /// One-line description of what the reader should notice.
    pub caption: String,
    /// The code, as a complete compilable program.
    pub code: String,
    /// What it is expected to do.
    pub expect: ExpectedOutcome,
}

/// A micro quiz question.
#[derive(Debug, Clone, PartialEq)]
pub struct Quiz {
    /// Format version.
    pub format_version: u32,
    /// Stable identifier.
    pub id: String,
    /// Lesson this quiz belongs to.
    pub lesson: String,
    /// The question.
    pub prompt: String,
    /// Optional code the question is about.
    pub code: Option<String>,
    /// Answer options.
    pub options: Vec<QuizOption>,
    /// Shown after answering, whether right or wrong.
    pub explanation: String,
}

/// One quiz answer option.
#[derive(Debug, Clone, PartialEq)]
pub struct QuizOption {
    /// The option text.
    pub text: String,
    /// Whether this option is correct.
    pub correct: bool,
    /// Why this option is wrong, shown when it is chosen. Required for wrong
    /// options: a learner who picked it had a reason worth addressing.
    pub why_wrong: Option<String>,
}

/// A lesson.
#[derive(Debug, Clone, PartialEq)]
pub struct Lesson {
    /// Format version.
    pub format_version: u32,
    /// Stable identifier, e.g. `ownership/move-semantics`.
    pub id: String,
    /// Human title.
    pub title: String,
    /// One-sentence summary.
    pub summary: String,
    /// Topics.
    pub topics: Vec<Topic>,
    /// Editorial state.
    pub lifecycle: Lifecycle,
    /// Path to the Markdown body, relative to the lesson file.
    pub body: String,
    /// Mental-model visualisation to render, if any.
    pub visualisation: Option<Visualisation>,
    /// Runnable examples.
    pub examples: Vec<Example>,
    /// Quiz ids attached to this lesson.
    pub quizzes: Vec<String>,
    /// Cheatsheet ids to surface alongside this lesson.
    pub cheatsheets: Vec<String>,
    /// OSS example ids to surface alongside this lesson.
    pub oss_examples: Vec<String>,
    /// Trial slugs this lesson prepares the reader for.
    pub trials: Vec<String>,
    /// References: sources, not sources of text.
    pub references: Vec<Reference>,
}

/// A mental-model visualisation.
#[derive(Debug, Clone, PartialEq)]
pub struct Visualisation {
    /// Which visualisation the web application should render.
    pub kind: VisualisationKind,
    /// The program the visualisation steps through.
    pub code: String,
    /// Ordered steps, each describing the state after one line executes.
    pub steps: Vec<VisualisationStep>,
}

/// The kinds of visualisation the web application knows how to render.
#[derive(Debug, Clone, Copy, PartialEq, Eq, Structural)]
pub enum VisualisationKind {
    /// Stack and heap cells, showing who owns what.
    Ownership,
    /// Active borrows over a span of lines.
    Borrows,
    /// Lifetime extents.
    Lifetimes,
}

/// One step of a visualisation.
#[derive(Debug, Clone, PartialEq)]
pub struct VisualisationStep {
    /// 1-based line in the visualised code this step describes.
    pub line: u32,
    /// What is true after that line runs.
    pub note: String,
    /// Named bindings and their state after that line.
    pub bindings: Vec<Binding>,
}

/// A binding's state at one step.
#[derive(Debug, Clone, PartialEq)]
pub struct Binding {
    /// Variable name.
    pub name: String,
    /// What it holds, or why it cannot be used.
    pub state: BindingState,
}

/// What a binding is doing at a point in the program.
#[derive(Debug, Clone, Copy, PartialEq, Eq, Structural)]
pub enum BindingState {
    /// Owns its value.
    Owns,
    /// Was moved out of and can no longer be used.
    Moved,
    /// Holds a shared reference.
    BorrowedShared,
    /// Holds a unique reference.
    BorrowedUnique,
    /// Out of scope; its value has been dropped.
    Dropped,
    /// Declared but not yet initialised.
    Uninitialised,
}

/// A citation.
#[derive(Debug, Clone, PartialEq)]
pub struct Reference {
    /// What is being cited.
    pub title: String,
    /// Where to find it.
    pub url: String,
}

/// A cheatsheet.
#[derive(Debug, Clone, PartialEq)]
pub struct Cheatsheet {
    /// Format version.
    pub format_version: u32,
    /// Stable identifier.
    pub id: String,
    /// Human title.
    pub title: String,
    /// One-sentence summary.
    pub summary: String,
    /// Topics.
    pub topics: Vec<Topic>,
    /// Editorial state.
    pub lifecycle: Lifecycle,
    /// Entries.
    pub entries: Vec<CheatsheetEntry>,
}

/// One cheatsheet entry.
#[derive(Debug, Clone, PartialEq)]
pub struct CheatsheetEntry {
    /// What the reader is trying to do.
    pub want: String,
    /// The code that does it.
    pub code: String,
    /// A short note, when the code alone is not enough.
    pub note: Option<String>,
}

/// A curated example from an open-source Rust project.
///
/// Every field is required because attribution is not optional and a moving
/// branch is not a citation.
#[derive(Debug, Clone, PartialEq)]
pub struct OssExample {
    /// Format version.
    pub format_version: u32,
    /// Stable identifier.
    pub id: String,
    /// What the reader should notice in this code.
    pub caption: String,
    /// Upstream repository, `owner/name`.
    pub repository: String,
    /// The exact commit this was taken from. Forty hex characters, never a branch.
    pub commit: String,
    /// Path within the repository at that commit.
    pub path: String,
    /// First line of the excerpt, 1-based and inclusive.
    pub line_start: u32,
    /// Last line of the excerpt, inclusive.
    pub line_end: u32,
    /// Upstream SPDX license expression.
    pub license: String,
    /// Attribution line to display.
    pub attribution: String,
    /// Concept tags.
    pub topics: Vec<Topic>,
    /// A simplified rewrite of the same idea, for readers not ready for the original.
    pub simplified: Option<String>,
}

/// The address of the pinned excerpt:
/// `https://github.com/{repository}/blob/{commit}/{path}#L{line_start}-L{line_end}`.
pub open spec fn spec_permalink(e: OssExample) -> Seq<char> {
    "https://github.com/"@ + e.repository@ + "/blob/"@ + e.commit@ + "/"@ + e.path@ + "#L"@
        + decimal(e.line_start as nat) + "-L"@ + decimal(e.line_end as nat)
}

impl OssExample {
    /// A permalink to the exact lines at the pinned commit.
    pub fn permalink(&self) -> (link: String)
        ensures
            link@ == spec_permalink(*self),
    {
        let mut link = text("https://github.com/");
        link.append(self.repository.as_str());
        link.append("/blob/");
        link.append(self.commit.as_str());
        link.append("/");
        link.append(self.path.as_str());
        link.append("#L");
        push_decimal(&mut link, self.line_start as u64);
        link.append("-L");
        push_decimal(&mut link, self.line_end as u64);
        link
    }
}

/// Who may see a Trial test case.
#[derive(Debug, Clone, Copy, PartialEq, Eq, Structural)]
pub enum Visibility {
    /// Shown to learners and sent to every judge worker.
    Public,
    /// Kept back; removed from packages sent to non-trusted workers.
    Hidden,
}

/// A Trial: the judged practice unit.
#[derive(Debug, Clone, PartialEq)]
pub struct Trial {
    /// Format version.
    pub format_version: u32,
    /// URL slug and identifier.
    pub slug: String,
    /// Human title.
    pub title: String,
    /// One-sentence summary.
    pub summary: String,
    /// Difficulty tier.
    pub difficulty: Difficulty,
    /// Topics.
    pub topics: Vec<Topic>,
    /// Editorial state.
    pub lifecycle: Lifecycle,
    /// Content version. Bump whenever tests or the statement change meaningfully.
    pub version: u32,
    /// Path to the Markdown statement, relative to the Trial file.
    pub statement: String,
    /// Path to the starter code the editor opens with.
    pub starter: String,
    /// Path to the reference solution, which must pass every test.
    pub reference_solution: String,
    /// What the starter is expected to do before the learner changes anything.
    pub starter_expect: ExpectedOutcome,
    /// Test cases, public and hidden.
    pub tests: Vec<TestCase>,
    /// Resource limits, if the defaults are not right for this Trial.
    pub limits: Option<Limits>,
}

/// One Trial test case.
#[derive(Debug, Clone, PartialEq)]
pub struct TestCase {
    /// Identifier, unique within the Trial.
    pub id: String,
    /// Whether learners see this case.
    pub visibility: Visibility,
    /// Bytes written to the program's stdin.
    pub stdin: String,
    /// Expected stdout.
    pub expected_stdout: String,
}

/// Resource limits, mirroring the judge's.
#[derive(Debug, Clone, Copy, PartialEq, Eq, Structural)]
pub struct Limits {
    /// Wall-clock limit per execution, milliseconds.
    pub wall_ms: u64,
    /// Memory limit, bytes.
    pub memory_bytes: u64,
    /// Combined stdout+stderr limit, bytes.
    pub output_bytes: u64,
    /// Abstract work bound.
    pub fuel: u64,
    /// Maximum guest table elements.
    pub table_elements: u64,
    /// Maximum concurrent guest instances.
    pub instances: u64,
}

/// The limits a Trial gets when it names none.
pub open spec fn default_limits() -> Limits {
    Limits {
        wall_ms: 2_000,
        memory_bytes: 67_108_864,
        output_bytes: 262_144,
        fuel: 500_000_000,
        table_elements: 10_000,
        instances: 1,
    }
}

impl Default for Limits {
    fn default() -> (l: Self)
        ensures
            l == default_limits(),
    {
        Limits {
            wall_ms: 2_000,
            memory_bytes: 64 * 1024 * 1024,
            output_bytes: 256 * 1024,
            fuel: 500_000_000,
            table_elements: 10_000,
            instances: 1,
        }
    }
}

/// Documents that carry a format version.
pub trait Versioned {
    /// The document's format version.
    spec fn spec_format_version(&self) -> u32;

    /// The document's format version.
    fn format_version(&self) -> (v: u32)
        ensures
            v == self.spec_format_version(),
    ;
}

impl Versioned for LearningPath {
    open spec fn spec_format_version(&self) -> u32 {
        self.format_version
    }

    fn format_version(&self) -> (v: u32) {
        self.format_version
    }
}

impl Versioned for Lesson {
    open spec fn spec_format_version(&self) -> u32 {
        self.format_version
    }

    fn format_version(&self) -> (v: u32) {
        self.format_version
    }
}

impl Versioned for Quiz {
    open spec fn spec_format_version(&self) -> u32 {
        self.format_version
    }

    fn format_version(&self) -> (v: u32) {
        self.format_version
    }
}

impl Versioned for Cheatsheet {
    open spec fn spec_format_version(&self) -> u32 {
        self.format_version
    }

    fn format_version(&self) -> (v: u32) {
        self.format_version
    }
}

impl Versioned for OssExample {
    open spec fn spec_format_version(&self) -> u32 {
        self.format_version
    }

    fn format_version(&self) -> (v: u32) {
        self.format_version
    }
}

impl Versioned for Trial {
    open spec fn spec_format_version(&self) -> u32 {
        self.format_version
    }

    fn format_version(&self) -> (v: u32) {
        self.format_version
    }
}

} // verus!
