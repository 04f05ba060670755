use rustly_content::index::{build, truncate, EntryKind};
use rustly_content::judge::{
    build_package, indent, judge_compilation, judge_output, judge_solution_build, judge_test,
    normalise, Verdict,
};
use rustly_content::model::{
    Cheatsheet, Difficulty, Example, ExpectedOutcome, LearningPath, Lesson, Lifecycle, Limits,
    OssExample, Quiz, QuizOption, TestCase, Topic, Trial, Visibility, CONTENT_FORMAT_VERSION,
};
use rustly_content::validate::{
    check, check_format_versions, check_ids, check_oss_source, check_quiz, check_quizzes,
    check_references, check_trial, check_trials, classify, load, required_files, Content,
    Diagnostic, Document, Reading, SourceFile,
};
use rustly_content::{Severity, ValidationReport};

fn lesson(id: &str, lifecycle: Lifecycle) -> Lesson {
    Lesson {
        format_version: CONTENT_FORMAT_VERSION,
        id: id.into(),
        title: "Title".into(),
        summary: "Summary".into(),
        topics: vec![Topic::Borrowing],
        lifecycle,
        body: "body.md".into(),
        visualisation: None,
        examples: vec![],
        quizzes: vec![],
        cheatsheets: vec![],
        oss_examples: vec![],
        trials: vec![],
        references: vec![],
    }
}

fn path(id: &str, lessons: &[&str]) -> LearningPath {
    LearningPath {
        format_version: CONTENT_FORMAT_VERSION,
        id: id.into(),
        title: "Path".into(),
        summary: "A path".into(),
        topics: vec![],
        lifecycle: Lifecycle::Beta,
        lessons: lessons.iter().map(|s| s.to_string()).collect(),
        prerequisites: vec![],
    }
}

fn oss() -> OssExample {
    OssExample {
        format_version: CONTENT_FORMAT_VERSION,
        id: "ownership/builder-move".into(),
        caption: "A builder".into(),
        repository: "clap-rs/clap".into(),
        commit: "af3044228bd76a87a3f46a3c7c3343563c059527".into(),
        path: "src/lib.rs".into(),
        line_start: 1,
        line_end: 9,
        license: "MIT".into(),
        attribution: "clap contributors".into(),
        topics: vec![Topic::Ownership],
        simplified: None,
    }
}

fn trial(slug: &str, tests: Vec<TestCase>) -> Trial {
    Trial {
        format_version: CONTENT_FORMAT_VERSION,
        slug: slug.into(),
        title: "T".into(),
        summary: "s".into(),
        difficulty: Difficulty::Medium,
        topics: vec![Topic::Errors],
        lifecycle: Lifecycle::Verified,
        version: 1,
        statement: "statement.md".into(),
        starter: "starter.rs".into(),
        reference_solution: "solution.rs".into(),
        starter_expect: ExpectedOutcome::Compiles,
        tests,
        limits: None,
    }
}

fn case(id: &str, visibility: Visibility, expected: &str) -> TestCase {
    TestCase {
        id: id.into(),
        visibility,
        stdin: "in".into(),
        expected_stdout: expected.into(),
    }
}

fn messages(report: &ValidationReport) -> Vec<String> {
    report.diagnostics.iter().map(|d| d.message.clone()).collect()
}

#[test]
fn permalink_formats_both_line_numbers() {
    let mut e = oss();
    e.line_start = 1200;
    e.line_end = 1234567;
    assert_eq!(
        e.permalink(),
        "https://github.com/clap-rs/clap/blob/af3044228bd76a87a3f46a3c7c3343563c059527/src/lib.rs#L1200-L1234567"
    );
}

#[test]
fn default_limits_are_the_judge_defaults() {
    let l = Limits::default();
    assert_eq!(l.wall_ms, 2_000);
    assert_eq!(l.memory_bytes, 64 * 1024 * 1024);
    assert_eq!(l.output_bytes, 256 * 1024);
    assert_eq!(l.fuel, 500_000_000);
    assert_eq!(l.table_elements, 10_000);
    assert_eq!(l.instances, 1);
}

#[test]
fn a_warning_does_not_make_errors_and_an_error_does() {
    let mut report = ValidationReport::default();
    assert!(!report.has_errors());
    report.warn("a".into(), "w".into());
    assert!(!report.has_errors());
    assert_eq!(report.error_count(), 0);
    report.error("b".into(), "e".into());
    report.error("c".into(), "e".into());
    assert!(report.has_errors());
    assert_eq!(report.error_count(), 2);
    assert_eq!(report.diagnostics.len(), 3);
}

#[test]
fn a_diagnostic_renders_as_one_line() {
    let d = Diagnostic {
        severity: Severity::Warning,
        location: "trials/t/trial.json".into(),
        message: "m".into(),
    };
    assert_eq!(d.render(), "warning: trials/t/trial.json: m");
    let d = Diagnostic {
        severity: Severity::Error,
        location: "x".into(),
        message: "y".into(),
    };
    assert_eq!(d.render(), "error: x: y");
}

#[test]
fn documents_are_classified_by_name_then_directory() {
    let parts = |v: &[&str]| v.iter().map(|s| s.to_string()).collect::<Vec<String>>();
    assert_eq!(classify("path.json", &parts(&["content", "learn", "path.json"])), "learning path");
    assert_eq!(classify("trial.json", &parts(&["quizzes", "trial.json"])), "trial");
    assert_eq!(classify("q.json", &parts(&["content", "quizzes", "q.json"])), "quiz");
    assert_eq!(classify("c.json", &parts(&["cheatsheets", "c.json"])), "cheatsheet");
    assert_eq!(classify("o.json", &parts(&["oss", "o.json"])), "OSS example");
    assert_eq!(classify("l.json", &parts(&["learn", "own", "l.json"])), "lesson");
    assert_eq!(classify("x.json", &parts(&["misc", "x.json"])), "unknown");
    assert_eq!(classify("x.json", &parts(&["learning", "x.json"])), "unknown");
}

fn file(path: &str, components: &[&str], reading: Reading) -> SourceFile {
    SourceFile {
        path: path.into(),
        relative: path.into(),
        file_name: components.last().unwrap().to_string(),
        components: components.iter().map(|s| s.to_string()).collect(),
        reading,
    }
}

#[test]
fn loading_reports_broken_files_and_keeps_the_last_of_two_ids() {
    let files = vec![
        file("learn/a.json", &["learn", "a.json"], Reading::Parsed(Document::Lesson(lesson("a", Lifecycle::Draft)))),
        file("learn/b.json", &["learn", "b.json"], Reading::Unreadable),
        file("learn/c.json", &["learn", "c.json"], Reading::Malformed("missing field `id`".into())),
        file("misc/d.json", &["misc", "d.json"], Reading::Skipped),
        file("learn/e.json", &["learn", "e.json"], Reading::Parsed(Document::Lesson(lesson("a", Lifecycle::Official)))),
    ];
    let mut report = ValidationReport::default();
    let content = load(files, &mut report);
    assert_eq!(report.documents, 3);
    assert_eq!(
        messages(&report),
        vec![
            "cannot be read".to_string(),
            "does not match the lesson schema: missing field `id`".to_string(),
        ]
    );
    assert_eq!(report.diagnostics[0].location, "learn/b.json");
    assert_eq!(content.lessons.len(), 1);
    let (p, l) = content.lessons.get("a").unwrap();
    assert_eq!(p, "learn/e.json");
    assert_eq!(l.lifecycle, Lifecycle::Official);
}

#[test]
fn a_missing_file_is_reported_at_its_owner() {
    let mut content = Content::default();
    content
        .lessons
        .insert("a".into(), ("/r/learn/a.json".into(), lesson("a", Lifecycle::Beta)));
    content.paths.insert("p".into(), ("/r/learn/path.json".into(), path("p", &["a"])));
    let required = required_files(&content);
    assert_eq!(required.len(), 1);
    assert_eq!(required[0].relative, "body.md");
    let mut report = ValidationReport::default();
    check("/r", &content, &vec![false], &mut report);
    assert_eq!(messages(&report), vec!["body `body.md` does not exist".to_string()]);
    assert_eq!(report.diagnostics[0].location, "learn/a.json");
    let mut report = ValidationReport::default();
    check("/r", &content, &vec![true], &mut report);
    assert!(report.diagnostics.is_empty(), "{:?}", report.diagnostics);
}

#[test]
fn trial_findings_are_located_relative_to_the_root() {
    let mut content = Content::default();
    let mut t = trial("other", vec![case("a", Visibility::Public, ""), case("a", Visibility::Hidden, "x")]);
    t.version = 0;
    content.trials.insert("t".into(), ("/r/trials/t/trial.json".into(), t));
    let mut report = ValidationReport::default();
    check_trials("/r", &content, &mut report);
    assert_eq!(
        messages(&report),
        vec![
            "version must be at least 1".to_string(),
            "test `a` expects no output".to_string(),
            "duplicate test id `a`".to_string(),
            "the Trial slug does not match its directory key".to_string(),
        ]
    );
    assert!(report.diagnostics.iter().all(|d| d.location == "trials/t/trial.json"));
    assert_eq!(report.error_count(), 3);
}

#[test]
fn every_zero_limit_is_named() {
    let mut content = Content::default();
    let mut t = trial("t", vec![case("a", Visibility::Public, "x"), case("b", Visibility::Hidden, "y")]);
    t.limits = Some(Limits {
        wall_ms: 0,
        memory_bytes: 0,
        output_bytes: 0,
        fuel: 0,
        table_elements: 0,
        instances: 0,
    });
    content.trials.insert("t".into(), ("trial.json".into(), t));
    let mut report = ValidationReport::default();
    check_trials(".", &content, &mut report);
    assert_eq!(
        messages(&report),
        vec![
            "wall_ms must be greater than zero, not unlimited".to_string(),
            "memory_bytes must be greater than zero, not unlimited".to_string(),
            "output_bytes must be greater than zero, not unlimited".to_string(),
            "fuel must be greater than zero, not unlimited".to_string(),
            "table_elements must be greater than zero, not unlimited".to_string(),
            "instances must be greater than zero, not unlimited".to_string(),
        ]
    );
}

#[test]
fn format_versions_other_than_one_are_errors() {
    let mut content = Content::default();
    let mut l = lesson("a", Lifecycle::Beta);
    l.format_version = 2;
    content.lessons.insert("a".into(), ("a.json".into(), l));
    let mut report = ValidationReport::default();
    check_format_versions(&content, &mut report);
    assert_eq!(
        messages(&report),
        vec!["format_version 2 is not supported (expected 1)".to_string()]
    );
    assert_eq!(report.diagnostics[0].location, "a");
}

#[test]
fn quiz_findings_name_the_problem() {
    let mut content = Content::default();
    content.quizzes.insert(
        "q".into(),
        (
            "q.json".into(),
            Quiz {
                format_version: 1,
                id: "q".into(),
                lesson: "nowhere".into(),
                prompt: "?".into(),
                code: None,
                options: vec![QuizOption {
                    text: "yes \"really\"".into(),
                    correct: true,
                    why_wrong: Some("because".into()),
                }],
                explanation: "  too short   ".into(),
            },
        ),
    );
    let mut report = ValidationReport::default();
    check_quizzes(&content, &mut report);
    assert_eq!(
        messages(&report),
        vec![
            "belongs to unknown lesson `nowhere`".to_string(),
            "a quiz needs at least two options".to_string(),
            "the correct option should not carry a `why_wrong`".to_string(),
            "the explanation is too short to be useful".to_string(),
        ]
    );
    assert_eq!(report.diagnostics[2].severity, Severity::Warning);
}

#[test]
fn wrong_options_are_quoted_and_correct_counts_are_given() {
    let mut content = Content::default();
    content.lessons.insert("l".into(), ("l.json".into(), lesson("l", Lifecycle::Beta)));
    content.quizzes.insert(
        "q".into(),
        (
            "q.json".into(),
            Quiz {
                format_version: 1,
                id: "q".into(),
                lesson: "l".into(),
                prompt: "?".into(),
                code: None,
                options: vec![
                    QuizOption { text: "say \"hi\"".into(), correct: false, why_wrong: Some(" \t ".into()) },
                    QuizOption { text: "b".into(), correct: false, why_wrong: Some("no".into()) },
                ],
                explanation: "An explanation that is long enough.".into(),
            },
        ),
    );
    let mut report = ValidationReport::default();
    check_quizzes(&content, &mut report);
    assert_eq!(
        messages(&report),
        vec![
            "exactly one option must be correct, found 0".to_string(),
            "option \"say \\\"hi\\\"\" is wrong but does not say why".to_string(),
        ]
    );
}

#[test]
fn an_explanation_is_measured_in_bytes_after_trimming() {
    let mut content = Content::default();
    content.lessons.insert("l".into(), ("l.json".into(), lesson("l", Lifecycle::Beta)));
    let options = vec![
        QuizOption { text: "a".into(), correct: true, why_wrong: None },
        QuizOption { text: "b".into(), correct: false, why_wrong: Some("no".into()) },
    ];
    for (explanation, short) in [
        ("ééééééééé", true),
        ("éééééééééé", false),
        ("   0123456789012345678   ", true),
        ("01234567890123456789", false),
    ] {
        content.quizzes.insert(
            "q".into(),
            (
                "q.json".into(),
                Quiz {
                    format_version: 1,
                    id: "q".into(),
                    lesson: "l".into(),
                    prompt: "?".into(),
                    code: None,
                    options: options.clone(),
                    explanation: explanation.into(),
                },
            ),
        );
        let mut report = ValidationReport::default();
        check_quizzes(&content, &mut report);
        assert_eq!(report.has_errors(), short, "{explanation:?}");
    }
}

#[test]
fn references_between_documents_are_checked() {
    let mut content = Content::default();
    let mut p = path("p", &["missing"]);
    p.prerequisites = vec!["p".into(), "q".into()];
    content.paths.insert("p".into(), ("p.json".into(), p));
    content.paths.insert("e".into(), ("e.json".into(), path("e", &[])));
    let mut l = lesson("l", Lifecycle::Beta);
    l.quizzes = vec!["qz".into()];
    l.cheatsheets = vec!["cs".into()];
    l.oss_examples = vec!["ox".into()];
    l.trials = vec!["tr".into()];
    let example = Example {
        id: "ex".into(),
        caption: "c".into(),
        code: "fn main() {}".into(),
        expect: ExpectedOutcome::Compiles,
    };
    l.examples = vec![example.clone(), example];
    content.lessons.insert("l".into(), ("l.json".into(), l));
    content.quizzes.insert(
        "qz".into(),
        (
            "qz.json".into(),
            Quiz {
                format_version: 1,
                id: "qz".into(),
                lesson: "other".into(),
                prompt: "?".into(),
                code: None,
                options: vec![],
                explanation: String::new(),
            },
        ),
    );
    let mut report = ValidationReport::default();
    check_references(&content, &mut report);
    assert_eq!(
        messages(&report),
        vec![
            "a learning path must contain at least one lesson".to_string(),
            "references unknown lesson `missing`".to_string(),
            "a path cannot be its own prerequisite".to_string(),
            "references unknown prerequisite path `q`".to_string(),
            "quiz `qz` belongs to lesson `other`, not this one".to_string(),
            "references unknown cheatsheet `cs`".to_string(),
            "references unknown OSS example `ox`".to_string(),
            "references unknown Trial `tr`".to_string(),
            "duplicate example id `ex`".to_string(),
            "this lesson is not listed in any learning path".to_string(),
        ]
    );
    assert_eq!(report.diagnostics[0].location, "e");
    assert_eq!(report.error_count(), 9);
}

#[test]
fn oss_messages_quote_what_was_found() {
    let mut e = oss();
    e.commit = "main".into();
    e.repository = "a/b/c".into();
    e.path = "../x".into();
    e.line_end = 100;
    let mut content = Content::default();
    content.oss.insert(e.id.clone(), ("o.json".into(), e));
    let mut report = rustly_content::ValidationReport::default();
    rustly_content::validate::check_oss_attribution(&content, &mut report);
    assert_eq!(
        messages(&report),
        vec![
            "commit must be a full 40-character SHA, never a branch or tag: \"main\"".to_string(),
            "repository must be `owner/name`, got \"a/b/c\"".to_string(),
            "path must be a relative path inside the repository".to_string(),
            "excerpts longer than 60 lines are hard to learn from".to_string(),
        ]
    );
}

#[test]
fn truncation_keeps_160_characters_at_most() {
    let exact = "é".repeat(160);
    assert_eq!(truncate(&exact), exact);
    let long = "é".repeat(161);
    let cut = truncate(&long);
    assert_eq!(cut.chars().count(), 160);
    assert_eq!(cut, format!("{}…", "é".repeat(159)));
    assert_eq!(truncate(""), "");
}

#[test]
fn the_index_orders_kinds_then_ids() {
    let mut content = Content::default();
    content.oss.insert("o".into(), ("o.json".into(), oss()));
    content.lessons.insert("b".into(), ("b.json".into(), lesson("b", Lifecycle::Beta)));
    content.lessons.insert("a".into(), ("a.json".into(), lesson("a", Lifecycle::Verified)));
    content.paths.insert("z".into(), ("z.json".into(), path("z", &["a"])));
    content.cheatsheets.insert(
        "c".into(),
        (
            "c.json".into(),
            Cheatsheet {
                format_version: 1,
                id: "c".into(),
                title: "Cheat".into(),
                summary: "s".into(),
                topics: vec![],
                lifecycle: Lifecycle::Draft,
                entries: vec![],
            },
        ),
    );
    content.trials.insert("t".into(), ("t.json".into(), trial("t", vec![])));
    let index = build(&content);
    let got: Vec<(EntryKind, &str, &str)> = index
        .entries
        .iter()
        .map(|e| (e.kind, e.id.as_str(), e.href.as_str()))
        .collect();
    assert_eq!(
        got,
        vec![
            (EntryKind::Path, "z", "/learn/z"),
            (EntryKind::Lesson, "a", "/learn/a"),
            (EntryKind::Lesson, "b", "/learn/b"),
            (EntryKind::Trial, "t", "/trials/t"),
            (EntryKind::Oss, "o", "https://github.com/clap-rs/clap/blob/af3044228bd76a87a3f46a3c7c3343563c059527/src/lib.rs#L1-L9"),
        ]
    );
    assert_eq!(index.entries[4].title, "clap-rs/clap: A builder");
    assert_eq!(index.entries[4].summary, "A builder");
    assert_eq!(index.entries[0].topics, Vec::<Topic>::new());
    assert_eq!(index.entries[1].topics, vec![Topic::Borrowing]);
}

#[test]
fn compilation_verdicts_follow_the_declared_outcome() {
    let error = ExpectedOutcome::CompileError { code: "E0382".into() };
    assert_eq!(
        judge_compilation(&error, true, ""),
        Verdict::Fail("expected this example to fail with E0382, but it compiled".into())
    );
    assert_eq!(judge_compilation(&error, false, "error[E0382]: borrow of moved value"), Verdict::Pass);
    assert_eq!(
        judge_compilation(&error, false, "  error[E0499]\nnote  \n"),
        Verdict::Fail("expected E0382, got:\n      error[E0499]\n      note".into())
    );
    assert_eq!(judge_compilation(&ExpectedOutcome::Compiles, true, "warning"), Verdict::Pass);
    assert_eq!(
        judge_compilation(&ExpectedOutcome::Compiles, false, "boom"),
        Verdict::Fail("expected this to compile:\n      boom".into())
    );
    let runs = ExpectedOutcome::Runs { stdout: "5 5".into() };
    assert_eq!(judge_compilation(&runs, true, ""), Verdict::Run);
    assert_eq!(
        judge_compilation(&runs, false, ""),
        Verdict::Fail("expected this to compile:\n".into())
    );
}

#[test]
fn output_is_compared_without_trailing_white_space() {
    assert_eq!(judge_output("5 5", "5 5\n"), Ok(()));
    assert_eq!(
        judge_output("5 5\n", "5 6 \n"),
        Err("expected stdout \"5 5\", got \"5 6\"".into())
    );
}

#[test]
fn indenting_follows_lines() {
    assert_eq!(indent("a\r\nb\n"), "      a\n      b");
    assert_eq!(indent(""), "");
    assert_eq!(indent("\n"), "      ");
    assert_eq!(indent("x\ry"), "      x\ry");
}

#[test]
fn normalising_drops_trailing_white_space_and_empty_lines() {
    assert_eq!(normalise("a  \nb\t\r\n\n \n"), vec!["a".to_string(), "b".to_string()]);
    assert_eq!(normalise(""), Vec::<String>::new());
    assert_eq!(normalise("\n\nx"), vec!["".to_string(), "".to_string(), "x".to_string()]);
}

#[test]
fn solution_runs_are_judged_like_the_judge() {
    let t = case("a", Visibility::Public, "1\n2\n");
    assert_eq!(judge_test(&t, true, "1  \n2\n\n"), Ok(()));
    assert_eq!(
        judge_test(&t, false, "1\n2\n"),
        Err("test `a`: the solution exited non-zero".into())
    );
    assert_eq!(
        judge_test(&t, true, "1\n3\n"),
        Err("test `a`: expected \"1\\n2\", got \"1\\n3\"".into())
    );
    assert_eq!(judge_solution_build(true, ""), Ok(()));
    assert_eq!(
        judge_solution_build(false, "bad\n"),
        Err("the reference solution does not compile:\n      bad".into())
    );
}

#[test]
fn a_public_package_has_no_hidden_tests() {
    let mut t = trial(
        "t",
        vec![
            case("a", Visibility::Public, "x"),
            case("b", Visibility::Hidden, "y"),
            case("c", Visibility::Public, "z"),
        ],
    );
    let all = build_package(&t, false);
    assert_eq!(all.tests.len(), 3);
    assert_eq!(all.tests[1].visibility, "hidden");
    assert_eq!(all.limits, Limits::default());
    let public = build_package(&t, true);
    let ids: Vec<&str> = public.tests.iter().map(|t| t.id.as_str()).collect();
    assert_eq!(ids, ["a", "c"]);
    assert!(public.tests.iter().all(|t| t.visibility == "public"));
    assert_eq!(public.slug, "t");
    assert_eq!(public.mode, "batch");
    assert_eq!(public.checker_kind, "trimmed_lines");
    t.limits = Some(Limits { fuel: 7, ..Limits::default() });
    assert_eq!(build_package(&t, true).limits.fuel, 7);
}

#[test]
fn a_lone_zero_table_element_limit_is_an_error() {
    let mut t = trial("t", vec![case("a", Visibility::Public, "x"), case("b", Visibility::Hidden, "y")]);
    t.limits = Some(Limits { table_elements: 0, ..Limits::default() });
    let mut report = ValidationReport::default();
    check_trial(&"trials/t/trial.json".to_string(), &"t".to_string(), &t, &mut report);
    assert_eq!(
        messages(&report),
        vec!["table_elements must be greater than zero, not unlimited".to_string()]
    );
    assert_eq!(report.error_count(), 1);
    assert_eq!(report.diagnostics[0].location, "trials/t/trial.json");
}

#[test]
fn a_trial_is_checked_on_its_own() {
    let t = trial("t", vec![case("a", Visibility::Public, "x"), case("b", Visibility::Hidden, "y")]);
    let mut report = ValidationReport::default();
    check_trial(&"at".to_string(), &"t".to_string(), &t, &mut report);
    assert!(report.diagnostics.is_empty(), "{:?}", report.diagnostics);
    let mut report = ValidationReport::default();
    check_trial(&"at".to_string(), &"u".to_string(), &t, &mut report);
    assert_eq!(
        messages(&report),
        vec!["the Trial slug does not match its directory key".to_string()]
    );
    assert_eq!(report.diagnostics[0].location, "at");
}

#[test]
fn duplicate_ids_are_caught_by_counting_documents() {
    let mut content = Content::default();
    content.lessons.insert("a".into(), ("learn/a2.json".into(), lesson("a", Lifecycle::Beta)));
    let mut report = ValidationReport::default();
    report.documents = 2;
    check_ids(&content, &mut report);
    assert_eq!(report.error_count(), 1);
    assert_eq!(report.diagnostics[0].location, "content");
    assert_eq!(
        report.diagnostics[0].message,
        "2 documents were read and 1 kept: an id must be unique within its kind, and a document whose id repeats another's, or that does not match its schema, is dropped"
    );
    let mut report = ValidationReport::default();
    report.documents = 1;
    check_ids(&content, &mut report);
    assert!(report.diagnostics.is_empty(), "{:?}", report.diagnostics);
}

#[test]
fn loading_two_lessons_with_one_id_is_reported() {
    let files = vec![
        file("learn/a.json", &["learn", "a.json"], Reading::Parsed(Document::Lesson(lesson("a", Lifecycle::Beta)))),
        file("learn/b.json", &["learn", "b.json"], Reading::Parsed(Document::Lesson(lesson("a", Lifecycle::Beta)))),
    ];
    let mut report = ValidationReport::default();
    let content = load(files, &mut report);
    assert_eq!(report.documents, 2);
    check_ids(&content, &mut report);
    assert!(report.has_errors());
    assert!(report.diagnostics[0].message.starts_with("2 documents were read and 1 kept"));
}

#[test]
fn a_repository_needs_both_owner_and_name() {
    for (repository, ok) in [
        ("clap-rs/clap", true),
        ("owner/", false),
        ("/name", false),
        ("/", false),
        ("clap", false),
        ("", false),
        ("a/b/c", false),
    ] {
        let mut e = oss();
        e.repository = repository.into();
        let mut report = ValidationReport::default();
        check_oss_source(&"o".to_string(), &e, &mut report);
        assert_eq!(report.has_errors(), !ok, "{repository:?}: {:?}", report.diagnostics);
        if !ok {
            assert_eq!(
                messages(&report),
                vec![format!("repository must be `owner/name`, got {repository:?}")]
            );
        }
    }
}

#[test]
fn an_uppercase_commit_is_checked_on_its_own() {
    let mut e = oss();
    e.commit = e.commit.to_uppercase();
    let mut report = ValidationReport::default();
    check_oss_source(&"o".to_string(), &e, &mut report);
    assert_eq!(messages(&report), vec!["commit SHA must be lowercase".to_string()]);
    assert_eq!(report.diagnostics[0].location, "o");
}

#[test]
fn excerpts_warn_from_the_sixty_first_line() {
    for (start, end, warns) in [(1, 60, false), (1, 61, true), (10, 69, false), (10, 70, true)] {
        let mut e = oss();
        e.line_start = start;
        e.line_end = end;
        let mut content = Content::default();
        content.oss.insert(e.id.clone(), ("o.json".into(), e));
        let mut report = ValidationReport::default();
        rustly_content::validate::check_oss_attribution(&content, &mut report);
        assert!(!report.has_errors(), "{:?}", report.diagnostics);
        if warns {
            assert_eq!(report.diagnostics.len(), 1);
            assert_eq!(report.diagnostics[0].severity, Severity::Warning);
            assert_eq!(report.diagnostics[0].location, "ownership/builder-move");
            assert_eq!(
                report.diagnostics[0].message,
                "excerpts longer than 60 lines are hard to learn from"
            );
        } else {
            assert!(report.diagnostics.is_empty(), "{:?}", report.diagnostics);
        }
    }
}

#[test]
fn a_quiz_is_checked_on_its_own() {
    let mut content = Content::default();
    content.lessons.insert("l".into(), ("l.json".into(), lesson("l", Lifecycle::Beta)));
    let quiz = Quiz {
        format_version: 1,
        id: "q".into(),
        lesson: "l".into(),
        prompt: "Which?".into(),
        code: None,
        options: vec![
            QuizOption { text: "a".into(), correct: true, why_wrong: None },
            QuizOption { text: "b".into(), correct: false, why_wrong: Some("it moves".into()) },
        ],
        explanation: "An explanation that is long enough.".into(),
    };
    let mut report = ValidationReport::default();
    check_quiz(&content, &"q".to_string(), &quiz, &mut report);
    assert!(report.diagnostics.is_empty(), "{:?}", report.diagnostics);
    let mut orphan = quiz.clone();
    orphan.lesson = "gone".into();
    check_quiz(&content, &"q".to_string(), &orphan, &mut report);
    assert_eq!(messages(&report), vec!["belongs to unknown lesson `gone`".to_string()]);
}

#[test]
fn drafts_leave_the_index_unchanged() {
    let mut published = Content::default();
    published.lessons.insert("a".into(), ("a.json".into(), lesson("a", Lifecycle::Beta)));
    published.oss.insert("o".into(), ("o.json".into(), oss()));
    let mut with_drafts = Content::default();
    with_drafts.lessons.insert("a".into(), ("elsewhere/a.json".into(), lesson("a", Lifecycle::Beta)));
    with_drafts.lessons.insert("b".into(), ("b.json".into(), lesson("b", Lifecycle::Draft)));
    with_drafts.paths.insert("p".into(), ("p.json".into(), LearningPath { lifecycle: Lifecycle::Draft, ..path("p", &["a"]) }));
    let mut draft_trial = trial("t", vec![]);
    draft_trial.lifecycle = Lifecycle::Draft;
    with_drafts.trials.insert("t".into(), ("t.json".into(), draft_trial));
    with_drafts.oss.insert("o".into(), ("o.json".into(), oss()));
    assert_eq!(build(&published), build(&with_drafts));
    assert_eq!(build(&published).entries.len(), 2);
}

#[test]
fn hidden_tests_leave_the_public_package_unchanged() {
    let a = trial("t", vec![case("a", Visibility::Public, "x"), case("c", Visibility::Public, "z")]);
    let b = trial(
        "t",
        vec![
            case("h1", Visibility::Hidden, "secret"),
            case("a", Visibility::Public, "x"),
            case("h2", Visibility::Hidden, "other"),
            case("c", Visibility::Public, "z"),
        ],
    );
    assert_eq!(build_package(&a, true), build_package(&b, true));
    assert_ne!(build_package(&a, false), build_package(&b, false));
}
