//! Judging runnable examples and Trials.
//!
//! Compiling and running programs happens outside the library; what the
//! library decides is whether what the compiler and the program did is what
//! the content claims, which message to give when it is not, and what a judge
//! package holds.

use vstd::prelude::*;

use crate::model::{default_limits, ExpectedOutcome, Limits, TestCase, Trial, Visibility};
use crate::text::{
    chars_of, concat3, debug_quoted, debug_text, push_char, push_chars, text, trim, trim_end,
    trim_range, spec_is_whitespace,
};

verus! {

// ---------------------------------------------------------------------------
// Lines
// ---------------------------------------------------------------------------

/// The pieces of `s` between newline characters (one more than there are
/// newlines; the last piece is empty when `s` ends with a newline).
pub open spec fn split_newlines(s: Seq<char>) -> Seq<Seq<char>>
    decreases s.len(),
{
    if s.len() == 0 {
        seq![Seq::empty()]
    } else if s.last() == '\n' {
        split_newlines(s.drop_last()).push(Seq::empty())
    } else {
        let parts = split_newlines(s.drop_last());
        parts.update(parts.len() - 1, parts.last().push(s.last()))
    }
}

proof fn lemma_split_nonempty(s: Seq<char>)
    ensures
        split_newlines(s).len() >= 1,
    decreases s.len(),
{
    if s.len() > 0 {
        lemma_split_nonempty(s.drop_last());
    }
}

/// The lines of `s` as `str::lines` gives them: the pieces between newlines,
/// without a final empty piece, and with one carriage return removed from the
/// end of each piece that a newline ends.
pub open spec fn text_lines(s: Seq<char>) -> Seq<Seq<char>> {
    let parts = split_newlines(s);
    let kept = if parts.last().len() == 0 {
        parts.drop_last()
    } else {
        parts
    };
    Seq::new(
        kept.len(),
        |i: int|
            if i < parts.len() - 1 && kept[i].len() > 0 && kept[i].last() == '\r' {
                kept[i].drop_last()
            } else {
                kept[i]
            },
    )
}

/// `lines` without the empty lines at its end.
pub open spec fn drop_trailing_empty(lines: Seq<Seq<char>>) -> Seq<Seq<char>>
    decreases lines.len(),
{
    if lines.len() > 0 && lines.last().len() == 0 {
        drop_trailing_empty(lines.drop_last())
    } else {
        lines
    }
}

/// Output as the judge's default checker compares it: split into lines,
/// trailing white space removed from each, trailing empty lines dropped.
pub open spec fn spec_normalise(s: Seq<char>) -> Seq<Seq<char>> {
    drop_trailing_empty(trim_ends(split_newlines(s)))
}

/// Each line without its trailing white space.
pub open spec fn trim_ends(lines: Seq<Seq<char>>) -> Seq<Seq<char>> {
    lines.map_values(|l: Seq<char>| trim_end(l))
}

/// The views of a list of strings.
pub open spec fn line_views(v: Seq<String>) -> Seq<Seq<char>> {
    v.map_values(|s: String| s@)
}

/// The pieces of `cs` between newlines, as strings.
fn split_pieces(cs: &Vec<char>) -> (r: Vec<String>)
    ensures
        line_views(r@) == split_newlines(cs@),
{
    let mut done: Vec<String> = Vec::new();
    let mut current = String::new();
    let n = cs.len();
    let mut i: usize = 0;
    assert(cs@.take(0) =~= Seq::<char>::empty());
    while i < n
        invariant
            n == cs@.len(),
            i <= n,
            line_views(done@).push(current@) == split_newlines(cs@.take(i as int)),
        decreases n - i,
    {
        let c = cs[i];
        let ghost before = line_views(done@).push(current@);
        assert(cs@.take(i + 1).drop_last() =~= cs@.take(i as int));
        assert(cs@.take(i + 1).last() == c);
        if c == '\n' {
            let finished = current;
            done.push(finished);
            current = String::new();
            assert(line_views(done@).push(current@) =~= before.push(Seq::empty()));
        } else {
            let ghost prior = current@;
            push_char(&mut current, c);
            assert(line_views(done@).push(current@) =~= before.update(
                before.len() - 1,
                prior.push(c),
            ));
        }
        i = i + 1;
    }
    assert(cs@.take(n as int) =~= cs@);
    done.push(current);
    done
}

fn trimmed_end(s: &String) -> (r: String)
    ensures
        r@ == trim_end(s@),
{
    let cs = chars_of(s.as_str());
    let n = cs.len();
    let mut e = n;
    while e > 0 && crate::text::is_whitespace(cs[e - 1])
        invariant
            n == cs@.len(),
            e <= n,
            forall|j: int| e <= j < n ==> spec_is_whitespace(#[trigger] cs@[j]),
        decreases e,
    {
        e = e - 1;
    }
    proof {
        lemma_trim_end_at(cs@, e as int);
    }
    let mut r = String::new();
    push_chars(&mut r, &cs, 0, e);
    assert(r@ =~= cs@.subrange(0, e as int));
    r
}

proof fn lemma_trim_end_at(s: Seq<char>, e: int)
    requires
        0 <= e <= s.len(),
        forall|j: int| e <= j < s.len() ==> spec_is_whitespace(#[trigger] s[j]),
        e == 0 || !spec_is_whitespace(s[e - 1]),
    ensures
        trim_end(s) == s.subrange(0, e),
    decreases s.len() - e,
{
    if s.len() == e {
        assert(s.subrange(0, e) =~= s);
    } else {
        let t = s.drop_last();
        assert forall|j: int| e <= j < t.len() implies spec_is_whitespace(#[trigger] t[j]) by {
            assert(t[j] == s[j]);
        }
        if e > 0 {
            assert(t[e - 1] == s[e - 1]);
        }
        assert(spec_is_whitespace(s[s.len() - 1]));
        lemma_trim_end_at(t, e);
        assert(t.subrange(0, e) =~= s.subrange(0, e));
    }
}

/// Output split into lines with trailing white space removed from each and
/// trailing empty lines dropped; two outputs match when these agree.
pub fn normalise(text: &str) -> (lines: Vec<String>)
    ensures
        line_views(lines@) == spec_normalise(text@),
{
    let cs = chars_of(text);
    let pieces = split_pieces(&cs);
    let mut lines: Vec<String> = Vec::new();
    let n = pieces.len();
    let mut i: usize = 0;
    while i < n
        invariant
            n == pieces@.len(),
            i <= n,
            line_views(pieces@) == split_newlines(cs@),
            line_views(lines@) == trim_ends(line_views(pieces@).take(i as int)),
        decreases n - i,
    {
        let t = trimmed_end(&pieces[i]);
        let ghost before = line_views(lines@);
        lines.push(t);
        assert(line_views(pieces@)[i as int] == pieces@[i as int]@);
        assert(line_views(lines@) =~= before.push(t@));
        let ghost x = line_views(pieces@);
        assert(trim_ends(x.take(i + 1)) =~= trim_ends(x.take(i as int)).push(trim_end(x[i as int])));
        assert(line_views(lines@) =~= trim_ends(line_views(pieces@).take(i + 1)));
        i = i + 1;
    }
    assert(line_views(pieces@).take(n as int) =~= line_views(pieces@));
    assert(line_views(lines@) == trim_ends(split_newlines(text@)));
    while lines.len() > 0 && lines[lines.len() - 1].as_str().is_empty()
        invariant
            drop_trailing_empty(line_views(lines@)) == spec_normalise(text@),
        decreases lines@.len(),
    {
        let ghost before = line_views(lines@);
        lines.pop();
        assert(line_views(lines@) =~= before.drop_last());
    }
    lines
}

/// Whether two lists of lines are equal.
pub fn same_lines(a: &Vec<String>, b: &Vec<String>) -> (r: bool)
    ensures
        r == (line_views(a@) == line_views(b@)),
{
    if a.len() != b.len() {
        assert(line_views(a@).len() != line_views(b@).len());
        return false;
    }
    let n = a.len();
    let mut i: usize = 0;
    while i < n
        invariant
            n == a@.len(),
            n == b@.len(),
            i <= n,
            forall|j: int| 0 <= j < i ==> #[trigger] a@[j]@ == b@[j]@,
        decreases n - i,
    {
        if !(a[i] == b[i]) {
            assert(line_views(a@)[i as int] != line_views(b@)[i as int]);
            return false;
        }
        i = i + 1;
    }
    assert(line_views(a@) =~= line_views(b@));
    true
}

// ---------------------------------------------------------------------------
// Indenting compiler output
// ---------------------------------------------------------------------------

/// `lines` each prefixed by six spaces, joined by newlines.
pub open spec fn indented(lines: Seq<Seq<char>>) -> Seq<char>
    decreases lines.len(),
{
    if lines.len() == 0 {
        Seq::empty()
    } else if lines.len() == 1 {
        "      "@ + lines[0]
    } else {
        indented(lines.drop_last()) + "\n"@ + "      "@ + lines.last()
    }
}

/// Each line of `text` prefixed by six spaces, joined by newlines.
pub open spec fn spec_indent(text: Seq<char>) -> Seq<char> {
    indented(text_lines(text))
}

/// Indents every line of `text` by six spaces, for nesting compiler output
/// under a message.
pub fn indent(text: &str) -> (r: String)
    ensures
        r@ == spec_indent(text@),
{
    let cs = chars_of(text);
    let pieces = split_pieces(&cs);
    proof {
        lemma_split_nonempty(cs@);
    }
    let np = pieces.len();
    let last_empty = pieces[np - 1].as_str().is_empty();
    let kept = if last_empty {
        np - 1
    } else {
        np
    };
    let ghost parts = split_newlines(cs@);
    let ghost lines = text_lines(text@);
    assert(lines.len() == kept);
    let mut r = String::new();
    let mut i: usize = 0;
    while i < kept
        invariant
            kept <= np,
            np == pieces@.len(),
            line_views(pieces@) == parts,
            parts == split_newlines(text@),
            lines == text_lines(text@),
            lines.len() == kept,
            i <= kept,
            r@ == indented(lines.take(i as int)),
        decreases kept - i,
    {
        if i > 0 {
            r.append("\n");
        }
        r.append("      ");
        let piece = &pieces[i];
        let pc = chars_of(piece.as_str());
        let mut len = pc.len();
        if i + 1 < np && len > 0 && pc[len - 1] == '\r' {
            len = len - 1;
        }
        push_chars(&mut r, &pc, 0, len);
        proof {
            assert(parts[i as int] == piece@);
            assert(pc@.subrange(0, len as int) =~= lines[i as int]);
            assert(lines.take(i + 1).drop_last() =~= lines.take(i as int));
            if i == 0 {
                assert(lines.take(1) =~= seq![lines[0]]);
            }
        }
        i = i + 1;
    }
    assert(lines.take(kept as int) =~= lines);
    r
}

// ---------------------------------------------------------------------------
// Examples
// ---------------------------------------------------------------------------

/// Whether `t` occurs in `s` as a contiguous run.
pub open spec fn occurs_in(t: Seq<char>, s: Seq<char>) -> bool {
    exists|i: int| 0 <= i && i + t.len() <= s.len() && #[trigger] s.subrange(i, i + t.len()) == t
}

fn occurs(t: &Vec<char>, s: &Vec<char>) -> (r: bool)
    ensures
        r == occurs_in(t@, s@),
{
    let n = s.len();
    let m = t.len();
    if m > n {
        return false;
    }
    let mut i: usize = 0;
    while i <= n - m
        invariant
            n == s@.len(),
            m == t@.len(),
            m <= n,
            i <= n - m + 1,
            forall|k: int| 0 <= k < i ==> #[trigger] s@.subrange(k, k + m) != t@,
        decreases n - m + 1 - i,
    {
        let mut j: usize = 0;
        let mut matched = true;
        while j < m
            invariant
                n == s@.len(),
                m == t@.len(),
                i + m <= n,
                j <= m,
                matched == (forall|q: int| 0 <= q < j ==> s@[i + q] == t@[q]),
            decreases m - j,
        {
            if s[i + j] != t[j] {
                matched = false;
            }
            j = j + 1;
        }
        if matched {
            assert(s@.subrange(i as int, i + m) =~= t@);
            return true;
        } else {
            proof {
                let q = choose|q: int| 0 <= q < m && s@[i + q] != t@[q];
                assert(s@.subrange(i as int, i + m)[q] != t@[q]);
            }
        }
        i = i + 1;
    }
    assert forall|k: int| 0 <= k && k + t@.len() <= s@.len() implies #[trigger] s@.subrange(
        k,
        k + t@.len(),
    ) != t@ by {
        assert(k < i);
    }
    false
}

/// What to do after compiling an example.
#[derive(Debug, Clone, PartialEq, Eq)]
pub enum Verdict {
    /// The example behaves as declared.
    Pass,
    /// It does not; the message says how.
    Fail(String),
    /// It compiled; run it and compare its output with [`judge_output`].
    Run,
}

/// What the verdict is after compiling an example declared as `expect`, given
/// whether it compiled and the compiler's diagnostics.
pub open spec fn spec_judge_compilation(
    expect: ExpectedOutcome,
    compiled: bool,
    diagnostics: Seq<char>,
) -> Option<Seq<char>> {
    match expect {
        ExpectedOutcome::CompileError { code } => if compiled {
            Some(
                "expected this example to fail with "@ + code@ + ", but it compiled"@,
            )
        } else if !occurs_in(code@, diagnostics) {
            Some("expected "@ + code@ + ", got:\n"@ + spec_indent(trim(diagnostics)))
        } else {
            None
        },
        _ => if compiled {
            None
        } else {
            Some("expected this to compile:\n"@ + spec_indent(trim(diagnostics)))
        },
    }
}

fn trimmed(s: &str) -> (r: String)
    ensures
        r@ == trim(s@),
{
    let cs = chars_of(s);
    let (b, e) = trim_range(&cs);
    let mut r = String::new();
    push_chars(&mut r, &cs, b, e);
    assert(r@ =~= trim(s@));
    r
}

/// Judges an example from the outcome of compiling it: it must fail with the
/// declared code, compile, or compile so it can be run, as declared.
pub fn judge_compilation(expect: &ExpectedOutcome, compiled: bool, diagnostics: &str) -> (v:
    Verdict)
    ensures
        spec_judge_compilation(*expect, compiled, diagnostics@) matches Some(m) ==> (v matches Verdict::Fail(
            f,
        ) && f@ == m),
        spec_judge_compilation(*expect, compiled, diagnostics@) is None ==> (if *expect is Runs {
            v is Run
        } else {
            v is Pass
        }),
{
    match expect {
        ExpectedOutcome::CompileError { code } => {
            if compiled {
                return Verdict::Fail(
                    concat3(
                        "expected this example to fail with ",
                        code.as_str(),
                        ", but it compiled",
                    ),
                );
            }
            let d = chars_of(diagnostics);
            let c = chars_of(code.as_str());
            if !occurs(&c, &d) {
                let mut m = concat3("expected ", code.as_str(), ", got:\n");
                m.append(indent(trimmed(diagnostics).as_str()).as_str());
                return Verdict::Fail(m);
            }
            Verdict::Pass
        },
        ExpectedOutcome::Compiles => {
            if compiled {
                Verdict::Pass
            } else {
                let mut m = text("expected this to compile:\n");
                m.append(indent(trimmed(diagnostics).as_str()).as_str());
                Verdict::Fail(m)
            }
        },
        ExpectedOutcome::Runs { .. } => {
            if compiled {
                Verdict::Run
            } else {
                let mut m = text("expected this to compile:\n");
                m.append(indent(trimmed(diagnostics).as_str()).as_str());
                Verdict::Fail(m)
            }
        },
    }
}

fn trimmed_end_str(s: &str) -> (r: String)
    ensures
        r@ == trim_end(s@),
{
    trimmed_end(&String::from_str(s))
}

/// The message when an example's output differs from what it declares.
pub open spec fn output_mismatch(expected: Seq<char>, actual: Seq<char>) -> Seq<char> {
    "expected stdout "@ + debug_text(trim_end(expected)) + ", got "@ + debug_text(trim_end(actual))
}

/// Judges what a compiled example printed: it passes when the output equals
/// the declared output once trailing white space is removed from both.
pub fn judge_output(expected: &str, actual: &str) -> (r: Result<(), String>)
    ensures
        r is Ok == (trim_end(expected@) == trim_end(actual@)),
        r matches Err(m) ==> m@ == output_mismatch(expected@, actual@),
{
    let e = trimmed_end_str(expected);
    let a = trimmed_end_str(actual);
    if e == a {
        Ok(())
    } else {
        let mut m = text("expected stdout ");
        m.append(debug_quoted(e.as_str()).as_str());
        m.append(", got ");
        m.append(debug_quoted(a.as_str()).as_str());
        Err(m)
    }
}

// ---------------------------------------------------------------------------
// Trial solutions
// ---------------------------------------------------------------------------

/// Judges the build of a reference solution: it must compile.
pub fn judge_solution_build(compiled: bool, diagnostics: &str) -> (r: Result<(), String>)
    ensures
        r is Ok == compiled,
        r matches Err(m) ==> m@ == "the reference solution does not compile:\n"@ + spec_indent(
            trim(diagnostics@),
        ),
{
    if compiled {
        Ok(())
    } else {
        let mut m = text("the reference solution does not compile:\n");
        m.append(indent(trimmed(diagnostics).as_str()).as_str());
        Err(m)
    }
}

/// The message when a solution's output differs from a test's.
pub open spec fn test_mismatch(id: Seq<char>, expected: Seq<char>, actual: Seq<char>) -> Seq<char> {
    "test `"@ + id + "`: expected "@ + debug_text(trim_end(expected)) + ", got "@ + debug_text(
        trim_end(actual),
    )
}

/// Judges one run of a reference solution on `test`: the program must exit
/// successfully and print what the test expects, compared line by line with
/// trailing white space and trailing empty lines ignored — the comparison
/// the judge's default checker makes.
pub fn judge_test(test: &TestCase, exited_ok: bool, stdout: &str) -> (r: Result<(), String>)
    ensures
        !exited_ok ==> (r matches Err(m) && m@ == "test `"@ + test.id@
            + "`: the solution exited non-zero"@),
        exited_ok ==> (r is Ok == (spec_normalise(stdout@) == spec_normalise(
            test.expected_stdout@,
        ))),
        exited_ok && r is Err ==> (r matches Err(m) && m@ == test_mismatch(
            test.id@,
            test.expected_stdout@,
            stdout@,
        )),
{
    if !exited_ok {
        return Err(concat3("test `", test.id.as_str(), "`: the solution exited non-zero"));
    }
    let actual = normalise(stdout);
    let expected = normalise(test.expected_stdout.as_str());
    if same_lines(&actual, &expected) {
        Ok(())
    } else {
        let mut m = concat3("test `", test.id.as_str(), "`: expected ");
        m.append(debug_quoted(trimmed_end(&test.expected_stdout).as_str()).as_str());
        m.append(", got ");
        m.append(debug_quoted(trimmed_end_str(stdout).as_str()).as_str());
        Err(m)
    }
}

// ---------------------------------------------------------------------------
// Judge packages
// ---------------------------------------------------------------------------

/// The toolchain a judge builds Trial solutions with.
#[derive(Debug, Clone, Copy, PartialEq, Eq)]
pub struct JudgeEnvironment {
    /// Environment identifier.
    pub id: &'static str,
    /// Rust edition.
    pub edition: &'static str,
    /// Toolchain version.
    pub toolchain: &'static str,
    /// Compilation target.
    pub target: &'static str,
}

/// One test as a judge receives it.
#[derive(Debug, Clone, PartialEq, Eq)]
pub struct JudgeTest {
    /// Identifier, unique within the Trial.
    pub id: String,
    /// `public` or `hidden`.
    pub visibility: &'static str,
    /// Bytes written to the program's stdin.
    pub stdin: String,
    /// Expected stdout.
    pub expected_stdout: String,
}

/// A judge test as plain values: id, visibility word, stdin, expected stdout.
pub type JudgeTestView = (Seq<char>, Seq<char>, Seq<char>, Seq<char>);

impl View for JudgeTest {
    type V = JudgeTestView;

    open spec fn view(&self) -> JudgeTestView {
        (self.id@, self.visibility@, self.stdin@, self.expected_stdout@)
    }
}

/// The judge Trial package built from a Trial.
#[derive(Debug, Clone, PartialEq, Eq)]
pub struct JudgePackage {
    /// Package format version.
    pub format_version: u32,
    /// Trial slug.
    pub slug: String,
    /// Trial content version.
    pub version: u32,
    /// Judging mode.
    pub mode: &'static str,
    /// Toolchain.
    pub environment: JudgeEnvironment,
    /// Resource limits.
    pub limits: Limits,
    /// Which output checker the judge uses.
    pub checker_kind: &'static str,
    /// How tests combine into a score.
    pub scoring: &'static str,
    /// Whether judging stops at the first failing test.
    pub fail_fast: bool,
    /// Tests, in the Trial's order.
    pub tests: Vec<JudgeTest>,
}

/// The word for a visibility in a package.
pub open spec fn visibility_word(v: Visibility) -> Seq<char> {
    match v {
        Visibility::Public => "public"@,
        Visibility::Hidden => "hidden"@,
    }
}

/// The package tests for the first `n` of `tests`: all of them, or only the
/// public ones when `public_only`.
pub open spec fn package_tests(tests: Seq<TestCase>, public_only: bool, n: nat) -> Seq<JudgeTestView>
    decreases n,
{
    if n == 0 {
        Seq::empty()
    } else {
        let t = tests[n - 1];
        package_tests(tests, public_only, (n - 1) as nat) + if !public_only || t.visibility
            == Visibility::Public {
            seq![(t.id@, visibility_word(t.visibility), t.stdin@, t.expected_stdout@)]
        } else {
            Seq::empty()
        }
    }
}

/// The views of a list of package tests.
pub open spec fn judge_test_views(v: Seq<JudgeTest>) -> Seq<JudgeTestView> {
    v.map_values(|t: JudgeTest| t@)
}

/// Builds the judge package for `trial`. With `public_only`, hidden tests are
/// left out, as for a non-trusted worker: they are deleted rather than
/// flagged, since a flag protects nothing once the bytes are on someone
/// else's machine.
pub fn build_package(trial: &Trial, public_only: bool) -> (p: JudgePackage)
    ensures
        p.format_version == 1,
        p.slug@ == trial.slug@,
        p.version == trial.version,
        p.mode@ == "batch"@,
        p.environment.id@ == "rust-1.88-wasm32-wasip1"@,
        p.environment.edition@ == "2021"@,
        p.environment.toolchain@ == "1.88"@,
        p.environment.target@ == "wasm32-wasip1"@,
        p.limits == match trial.limits {
            Some(l) => l,
            None => default_limits(),
        },
        p.checker_kind@ == "trimmed_lines"@,
        p.scoring@ == "all_or_nothing"@,
        p.fail_fast,
        judge_test_views(p.tests@) == package_tests(trial.tests@, public_only, trial.tests@.len()),
{
    let mut tests: Vec<JudgeTest> = Vec::new();
    let n = trial.tests.len();
    let mut i: usize = 0;
    while i < n
        invariant
            n == trial.tests@.len(),
            i <= n,
            judge_test_views(tests@) == package_tests(trial.tests@, public_only, i as nat),
        decreases n - i,
    {
        let t = &trial.tests[i];
        if !public_only || t.visibility == Visibility::Public {
            let visibility = match t.visibility {
                Visibility::Public => "public",
                Visibility::Hidden => "hidden",
            };
            let jt = JudgeTest {
                id: t.id.clone(),
                visibility,
                stdin: t.stdin.clone(),
                expected_stdout: t.expected_stdout.clone(),
            };
            let ghost before = judge_test_views(tests@);
            tests.push(jt);
            assert(judge_test_views(tests@) =~= before.push(jt@));
        }
        assert(judge_test_views(tests@) =~= package_tests(trial.tests@, public_only, (i + 1) as nat));
        i = i + 1;
    }
    let limits = match trial.limits {
        Some(l) => l,
        None => Limits::default(),
    };
    JudgePackage {
        format_version: 1,
        slug: trial.slug.clone(),
        version: trial.version,
        mode: "batch",
        environment: JudgeEnvironment {
            id: "rust-1.88-wasm32-wasip1",
            edition: "2021",
            toolchain: "1.88",
            target: "wasm32-wasip1",
        },
        limits,
        checker_kind: "trimmed_lines",
        scoring: "all_or_nothing",
        fail_fast: true,
        tests,
    }
}

/// A package built for a non-trusted worker holds no hidden test, and holds
/// every public test of the Trial.
pub proof fn lemma_public_package_has_no_hidden_tests(tests: Seq<TestCase>, n: nat)
    requires
        n <= tests.len(),
    ensures
        forall|i: int|
            0 <= i < package_tests(tests, true, n).len() ==> (#[trigger] package_tests(
                tests,
                true,
                n,
            )[i]).1 == "public"@,
        forall|j: int|
            0 <= j < n && (#[trigger] tests[j]).visibility == Visibility::Public ==> exists|i: int|
                0 <= i < package_tests(tests, true, n).len() && #[trigger] package_tests(
                    tests,
                    true,
                    n,
                )[i] == (tests[j].id@, "public"@, tests[j].stdin@, tests[j].expected_stdout@),
    decreases n,
{
    if n > 0 {
        lemma_public_package_has_no_hidden_tests(tests, (n - 1) as nat);
        let prev = package_tests(tests, true, (n - 1) as nat);
        let all = package_tests(tests, true, n);
        let t = tests[n - 1];
        assert forall|i: int| 0 <= i < all.len() implies (#[trigger] all[i]).1 == "public"@ by {
            if i < prev.len() {
                assert(all[i] == prev[i]);
            }
        }
        assert forall|j: int|
            0 <= j < n && (#[trigger] tests[j]).visibility == Visibility::Public implies exists|i: int|
            0 <= i < all.len() && #[trigger] all[i] == (
                tests[j].id@,
                "public"@,
                tests[j].stdin@,
                tests[j].expected_stdout@,
            ) by {
            if j < n - 1 {
                let i = choose|i: int|
                    0 <= i < prev.len() && #[trigger] prev[i] == (
                        tests[j].id@,
                        "public"@,
                        tests[j].stdin@,
                        tests[j].expected_stdout@,
                    );
                assert(all[i] == prev[i]);
            } else {
                assert(all[prev.len() as int] == (
                    t.id@,
                    "public"@,
                    t.stdin@,
                    t.expected_stdout@,
                ));
            }
        }
    }
}

/// A public test as plain values: id, stdin, expected stdout.
pub type PublicTestView = (Seq<char>, Seq<char>, Seq<char>);

/// The public tests among the first `n` of `tests`, in order.
pub open spec fn public_upto(tests: Seq<TestCase>, n: nat) -> Seq<PublicTestView>
    decreases n,
{
    if n == 0 {
        Seq::empty()
    } else {
        let t = tests[n - 1];
        public_upto(tests, (n - 1) as nat) + if t.visibility == Visibility::Public {
            seq![(t.id@, t.stdin@, t.expected_stdout@)]
        } else {
            Seq::empty()
        }
    }
}

/// A public test as a package holds it.
pub open spec fn as_package_test(p: PublicTestView) -> JudgeTestView {
    (p.0, "public"@, p.1, p.2)
}

/// The package tests for a list of public tests.
pub open spec fn public_package_tests(ps: Seq<PublicTestView>) -> Seq<JudgeTestView> {
    ps.map_values(|p: PublicTestView| as_package_test(p))
}

/// The tests of a package for a non-trusted worker are the public tests of
/// the Trial, in order, and nothing else.
pub proof fn lemma_public_package_is_the_public_tests(tests: Seq<TestCase>, n: nat)
    requires
        n <= tests.len(),
    ensures
        package_tests(tests, true, n) == public_package_tests(public_upto(tests, n)),
    decreases n,
{
    if n > 0 {
        lemma_public_package_is_the_public_tests(tests, (n - 1) as nat);
        let t = tests[n - 1];
        let before = public_upto(tests, (n - 1) as nat);
        if t.visibility == Visibility::Public {
            assert(public_upto(tests, n) =~= before.push((t.id@, t.stdin@, t.expected_stdout@)));
            assert(public_package_tests(public_upto(tests, n)) =~= public_package_tests(before).push(
                as_package_test((t.id@, t.stdin@, t.expected_stdout@)),
            ));
        } else {
            assert(public_upto(tests, n) =~= before);
        }
        assert(package_tests(tests, true, n) =~= public_package_tests(public_upto(tests, n)));
    }
}

/// Hidden tests never reach a package for a non-trusted worker: two Trials
/// whose public tests are the same, in the same order, get the same package
/// tests, whatever hidden tests either of them holds.
pub proof fn lemma_hidden_tests_do_not_reach_public_package(a: Seq<TestCase>, b: Seq<TestCase>)
    requires
        public_upto(a, a.len()) == public_upto(b, b.len()),
    ensures
        package_tests(a, true, a.len()) == package_tests(b, true, b.len()),
{
    lemma_public_package_is_the_public_tests(a, a.len());
    lemma_public_package_is_the_public_tests(b, b.len());
}

/// A full package keeps every test of the Trial, in order, each with its own
/// id, the word for its visibility, its stdin and its expected stdout.
pub proof fn lemma_full_package_keeps_every_test(tests: Seq<TestCase>, n: nat)
    requires
        n <= tests.len(),
    ensures
        package_tests(tests, false, n).len() == n,
        forall|i: int|
            0 <= i < n ==> #[trigger] package_tests(tests, false, n)[i] == (
                tests[i].id@,
                if tests[i].visibility == Visibility::Public {
                    "public"@
                } else {
                    "hidden"@
                },
                tests[i].stdin@,
                tests[i].expected_stdout@,
            ),
    decreases n,
{
    if n > 0 {
        lemma_full_package_keeps_every_test(tests, (n - 1) as nat);
        let before = package_tests(tests, false, (n - 1) as nat);
        let all = package_tests(tests, false, n);
        assert forall|i: int| 0 <= i < n implies #[trigger] all[i] == (
            tests[i].id@,
            if tests[i].visibility == Visibility::Public {
                "public"@
            } else {
                "hidden"@
            },
            tests[i].stdin@,
            tests[i].expected_stdout@,
        ) by {
            if i < n - 1 {
                assert(all[i] == before[i]);
            }
        }
    }
}

/// `trim_end(l)` is `l` cut before its trailing white space: a prefix of `l`
/// whose last character, if any, is not white space, followed in `l` by white
/// space only.
pub proof fn lemma_trim_end_cuts_trailing_white_space(l: Seq<char>)
    ensures
        trim_end(l).len() <= l.len(),
        trim_end(l) == l.take(trim_end(l).len() as int),
        forall|k: int| trim_end(l).len() <= k < l.len() ==> spec_is_whitespace(#[trigger] l[k]),
        trim_end(l).len() > 0 ==> !spec_is_whitespace(trim_end(l).last()),
    decreases l.len(),
{
    if l.len() > 0 && spec_is_whitespace(l.last()) {
        lemma_trim_end_cuts_trailing_white_space(l.drop_last());
        let t = trim_end(l.drop_last());
        assert(t == l.take(t.len() as int));
        assert forall|k: int| t.len() <= k < l.len() implies spec_is_whitespace(#[trigger] l[k]) by {
            if k < l.len() - 1 {
                assert(l[k] == l.drop_last()[k]);
            }
        }
    } else {
        assert(l == l.take(l.len() as int));
    }
}

/// `drop_trailing_empty(lines)` is a prefix of `lines` that ends, if it is not
/// empty, with a non-empty line; what it leaves out is empty lines only.
pub proof fn lemma_drop_trailing_empty(lines: Seq<Seq<char>>)
    ensures
        drop_trailing_empty(lines).len() <= lines.len(),
        drop_trailing_empty(lines) == lines.take(drop_trailing_empty(lines).len() as int),
        forall|i: int|
            drop_trailing_empty(lines).len() <= i < lines.len() ==> (#[trigger] lines[i]).len() == 0,
        drop_trailing_empty(lines).len() > 0 ==> drop_trailing_empty(lines).last().len() > 0,
    decreases lines.len(),
{
    if lines.len() > 0 && lines.last().len() == 0 {
        lemma_drop_trailing_empty(lines.drop_last());
        let d = drop_trailing_empty(lines.drop_last());
        assert(d == lines.take(d.len() as int));
        assert forall|i: int| d.len() <= i < lines.len() implies (#[trigger] lines[i]).len() == 0 by {
            if i < lines.len() - 1 {
                assert(lines[i] == lines.drop_last()[i]);
            }
        }
    } else {
        assert(lines == lines.take(lines.len() as int));
    }
}

/// Normalising output removes only trailing white space: the `i`-th
/// normalised line is the `i`-th piece of the output between newlines, cut
/// before its trailing white space, and keeps every other character, leading
/// white space included; the pieces it drops at the end are white space only,
/// and the last line it keeps is not blank.
pub proof fn lemma_normalise_removes_only_trailing_white_space(s: Seq<char>)
    ensures
        spec_normalise(s).len() <= split_newlines(s).len(),
        forall|i: int|
            0 <= i < spec_normalise(s).len() ==> {
                let out = #[trigger] spec_normalise(s)[i];
                let raw = split_newlines(s)[i];
                &&& out.len() <= raw.len()
                &&& out == raw.take(out.len() as int)
                &&& forall|k: int| out.len() <= k < raw.len() ==> spec_is_whitespace(#[trigger] raw[k])
                &&& out.len() > 0 ==> !spec_is_whitespace(out.last())
            },
        forall|i: int, k: int|
            spec_normalise(s).len() <= i < split_newlines(s).len() && 0 <= k < split_newlines(
                s,
            )[i].len() ==> spec_is_whitespace(#[trigger] split_newlines(s)[i][k]),
        spec_normalise(s).len() > 0 ==> spec_normalise(s).last().len() > 0,
{
    let raw = split_newlines(s);
    let trimmed = trim_ends(raw);
    lemma_drop_trailing_empty(trimmed);
    let out = spec_normalise(s);
    assert forall|i: int| 0 <= i < out.len() implies {
        let o = #[trigger] out[i];
        let r = raw[i];
        &&& o.len() <= r.len()
        &&& o == r.take(o.len() as int)
        &&& forall|k: int| o.len() <= k < r.len() ==> spec_is_whitespace(#[trigger] r[k])
        &&& o.len() > 0 ==> !spec_is_whitespace(o.last())
    } by {
        assert(out[i] == trimmed[i]);
        lemma_trim_end_cuts_trailing_white_space(raw[i]);
    }
    assert forall|i: int, k: int|
        out.len() <= i < raw.len() && 0 <= k < raw[i].len() implies spec_is_whitespace(
        #[trigger] raw[i][k],
    ) by {
        assert(trimmed[i].len() == 0);
        lemma_trim_end_cuts_trailing_white_space(raw[i]);
    }
}

/// `pieces` joined with a newline between each two.
pub open spec fn joined(pieces: Seq<Seq<char>>) -> Seq<char>
    decreases pieces.len(),
{
    if pieces.len() == 0 {
        Seq::empty()
    } else if pieces.len() == 1 {
        pieces[0]
    } else {
        joined(pieces.drop_last()) + seq!['\n'] + pieces.last()
    }
}

/// Splitting at newlines loses nothing and cuts only there: there is at least
/// one piece, no piece holds a newline, and joining the pieces with newlines
/// gives the text back.
pub proof fn lemma_split_newlines_undone_by_joining(s: Seq<char>)
    ensures
        split_newlines(s).len() >= 1,
        joined(split_newlines(s)) == s,
        forall|i: int, k: int|
            0 <= i < split_newlines(s).len() && 0 <= k < split_newlines(s)[i].len()
                ==> #[trigger] split_newlines(s)[i][k] != '\n',
    decreases s.len(),
{
    if s.len() == 0 {
        assert(joined(split_newlines(s)) =~= s);
    } else {
        let t = s.drop_last();
        lemma_split_newlines_undone_by_joining(t);
        let p = split_newlines(t);
        let q = split_newlines(s);
        if s.last() == '\n' {
            assert(q == p.push(Seq::empty()));
            assert(q.drop_last() =~= p);
            assert(joined(q) =~= s);
            assert forall|i: int, k: int|
                0 <= i < q.len() && 0 <= k < q[i].len() implies #[trigger] q[i][k] != '\n' by {
                assert(q[i] == p[i]);
            }
        } else {
            let c = s.last();
            assert(q == p.update(p.len() - 1, p.last().push(c)));
            if p.len() == 1 {
                assert(joined(q) =~= s);
            } else {
                assert(q.drop_last() =~= p.drop_last());
                assert(joined(p) == joined(p.drop_last()) + seq!['\n'] + p.last());
                assert(q.last() == p.last().push(c));
                assert(joined(q) == joined(q.drop_last()) + seq!['\n'] + q.last());
                assert(joined(q) =~= joined(p).push(c));
                assert(t.push(c) =~= s);
            }
            assert forall|i: int, k: int|
                0 <= i < q.len() && 0 <= k < q[i].len() implies #[trigger] q[i][k] != '\n' by {
                if i < p.len() - 1 {
                    assert(q[i] == p[i]);
                } else if k < p.last().len() {
                    assert(q[i][k] == p.last()[k]);
                    assert(p[p.len() - 1][k] != '\n');
                }
            }
        }
    }
}

} // verus!
