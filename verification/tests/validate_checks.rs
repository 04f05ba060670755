use rustly_content::docmap::DocMap;
use rustly_content::model::{
    Cheatsheet, Difficulty, ExpectedOutcome, Lesson, Lifecycle, Limits, OssExample, Quiz,
    QuizOption, TestCase, Topic, Trial, Visibility, CONTENT_FORMAT_VERSION,
};
use rustly_content::validate::{
    check_ids, check_oss_attribution, check_quizzes, check_references, check_trials, Content,
};
use rustly_content::{Severity, ValidationReport};

fn quiz(options: Vec<QuizOption>) -> Quiz {
    Quiz {
        format_version: CONTENT_FORMAT_VERSION,
        id: "ownership/predict".into(),
        lesson: "ownership/move-semantics".into(),
        prompt: "What does this print?".into(),
        code: None,
        options,
        explanation: "A move invalidates the original binding, so it cannot be used.".into(),
    }
}

fn oss() -> OssExample {
    OssExample {
        format_version: CONTENT_FORMAT_VERSION,
        id: "ownership/builder-move".into(),
        caption: "A builder that consumes and returns self".into(),
        repository: "clap-rs/clap".into(),
        commit: "af3044228bd76a87a3f46a3c7c3343563c059527".into(),
        path: "clap_builder/src/builder/command.rs".into(),
        line_start: 170,
        line_end: 175,
        license: "MIT OR Apache-2.0".into(),
        attribution: "clap contributors".into(),
        topics: vec![Topic::Ownership],
        simplified: None,
    }
}

fn content_with_oss(example: OssExample) -> Content {
    let mut content = Content::default();
    content
        .oss
        .insert(example.id.clone(), (String::from("oss/x.json"), example));
    content
}

#[test]
fn a_moving_branch_is_not_a_valid_citation() {
    for bad in ["main", "master", "v1.0.0", "abc123", ""] {
        let mut example = oss();
        example.commit = bad.into();
        let mut report = ValidationReport::default();
        check_oss_attribution(&content_with_oss(example), &mut report);
        assert!(report.has_errors(), "should reject commit {bad:?}");
    }
}

#[test]
fn an_uppercase_sha_is_rejected_so_permalinks_are_canonical() {
    let mut example = oss();
    example.commit = example.commit.to_uppercase();
    let mut report = ValidationReport::default();
    check_oss_attribution(&content_with_oss(example), &mut report);
    assert!(report.has_errors());
}

#[test]
fn a_well_formed_oss_example_passes() {
    let mut report = ValidationReport::default();
    check_oss_attribution(&content_with_oss(oss()), &mut report);
    assert!(!report.has_errors(), "{:?}", report.diagnostics);
}

#[test]
fn missing_attribution_or_license_is_an_error() {
    for mutate in [
        (|e: &mut OssExample| e.license = "  ".into()) as fn(&mut OssExample),
        |e| e.attribution = String::new(),
        |e| e.topics.clear(),
    ] {
        let mut example = oss();
        mutate(&mut example);
        let mut report = ValidationReport::default();
        check_oss_attribution(&content_with_oss(example), &mut report);
        assert!(report.has_errors());
    }
}

#[test]
fn line_ranges_must_be_sane() {
    let mut example = oss();
    example.line_start = 0;
    let mut report = ValidationReport::default();
    check_oss_attribution(&content_with_oss(example), &mut report);
    assert!(report.has_errors());

    let mut example = oss();
    example.line_start = 90;
    example.line_end = 10;
    let mut report = ValidationReport::default();
    check_oss_attribution(&content_with_oss(example), &mut report);
    assert!(report.has_errors());
}

#[test]
fn the_permalink_points_at_the_pinned_commit() {
    assert_eq!(
        oss().permalink(),
        "https://github.com/clap-rs/clap/blob/af3044228bd76a87a3f46a3c7c3343563c059527/clap_builder/src/builder/command.rs#L170-L175"
    );
}

fn lesson() -> Lesson {
    Lesson {
        format_version: CONTENT_FORMAT_VERSION,
        id: "ownership/move-semantics".into(),
        title: "Move semantics".into(),
        summary: "What happens when you assign a String".into(),
        topics: vec![Topic::Ownership],
        lifecycle: Lifecycle::Official,
        body: "move-semantics.md".into(),
        visualisation: None,
        examples: vec![],
        quizzes: vec![],
        cheatsheets: vec![],
        oss_examples: vec![],
        trials: vec![],
        references: vec![],
    }
}

#[test]
fn a_wrong_quiz_option_must_explain_why_it_is_wrong() {
    let mut content = Content::default();
    content.lessons.insert(
        "ownership/move-semantics".into(),
        (String::from("l.json"), lesson()),
    );
    let q = quiz(vec![
        QuizOption {
            text: "It prints 5".into(),
            correct: true,
            why_wrong: None,
        },
        QuizOption {
            text: "It panics".into(),
            correct: false,
            why_wrong: None,
        },
    ]);
    content
        .quizzes
        .insert(q.id.clone(), (String::from("q.json"), q));

    let mut report = ValidationReport::default();
    check_quizzes(&content, &mut report);
    assert!(report.has_errors());
    assert!(report
        .diagnostics
        .iter()
        .any(|d| d.message.contains("does not say why")));
}

#[test]
fn a_quiz_needs_exactly_one_correct_option() {
    let mut content = Content::default();
    content.lessons.insert(
        "ownership/move-semantics".into(),
        (String::from("l.json"), lesson()),
    );

    for options in [
        vec![
            QuizOption {
                text: "a".into(),
                correct: true,
                why_wrong: None,
            },
            QuizOption {
                text: "b".into(),
                correct: true,
                why_wrong: None,
            },
        ],
        vec![
            QuizOption {
                text: "a".into(),
                correct: false,
                why_wrong: Some("no".into()),
            },
            QuizOption {
                text: "b".into(),
                correct: false,
                why_wrong: Some("no".into()),
            },
        ],
    ] {
        let q = quiz(options);
        content
            .quizzes
            .insert(q.id.clone(), (String::from("q.json"), q));
        let mut report = ValidationReport::default();
        check_quizzes(&content, &mut report);
        assert!(report.has_errors());
    }
}

#[test]
fn a_dangling_reference_is_an_error() {
    let mut content = Content::default();
    let mut l = lesson();
    l.quizzes = vec!["ownership/does-not-exist".into()];
    content
        .lessons
        .insert(l.id.clone(), (String::from("l.json"), l));

    let mut report = ValidationReport::default();
    check_references(&content, &mut report);
    assert!(report.has_errors());
    assert!(report
        .diagnostics
        .iter()
        .any(|d| d.message.contains("unknown quiz")));
}

#[test]
fn an_unreachable_lesson_is_a_warning_not_an_error() {
    let mut content = Content::default();
    let l = lesson();
    content
        .lessons
        .insert(l.id.clone(), (String::from("l.json"), l));

    let mut report = ValidationReport::default();
    check_references(&content, &mut report);
    assert!(!report.has_errors());
    assert!(report
        .diagnostics
        .iter()
        .any(|d| d.severity == Severity::Warning));
}

#[test]
fn identifiers_must_be_url_safe() {
    let mut content = Content::default();
    for bad in [
        "Ownership",
        "own ership",
        "own_ership",
        "-lead",
        "trail-",
        "a//b",
        "a--b",
    ] {
        content.cheatsheets.insert(
            bad.to_string(),
            (
                String::from("c.json"),
                Cheatsheet {
                    format_version: CONTENT_FORMAT_VERSION,
                    id: bad.into(),
                    title: "x".into(),
                    summary: "x".into(),
                    topics: vec![],
                    lifecycle: Lifecycle::Draft,
                    entries: vec![],
                },
            ),
        );
    }
    let mut report = ValidationReport::default();
    check_ids(&content, &mut report);
    assert_eq!(report.error_count(), 7, "{:?}", report.diagnostics);
}

#[test]
fn a_trial_without_a_public_test_is_an_error_and_without_a_hidden_one_is_a_warning() {
    let mut content = Content::default();
    let mut trial = Trial {
        format_version: CONTENT_FORMAT_VERSION,
        slug: "t".into(),
        title: "T".into(),
        summary: "s".into(),
        difficulty: Difficulty::Easy,
        topics: vec![Topic::Ownership],
        lifecycle: Lifecycle::Verified,
        version: 1,
        statement: "statement.md".into(),
        starter: "starter.rs".into(),
        reference_solution: "solution.rs".into(),
        starter_expect: ExpectedOutcome::CompileError {
            code: "E0382".into(),
        },
        tests: vec![TestCase {
            id: "a".into(),
            visibility: Visibility::Hidden,
            stdin: String::new(),
            expected_stdout: "x\n".into(),
        }],
        limits: None,
    };
    content
        .trials
        .insert("t".into(), (String::from("trial.json"), trial.clone()));
    let mut report = ValidationReport::default();
    check_trials(".", &content, &mut report);
    assert!(report.has_errors(), "no public test must be an error");

    trial.tests[0].visibility = Visibility::Public;
    content
        .trials
        .insert("t".into(), (String::from("trial.json"), trial));
    let mut report = ValidationReport::default();
    check_trials(".", &content, &mut report);
    assert!(!report.has_errors());
    assert!(
        report
            .diagnostics
            .iter()
            .any(|d| d.message.contains("no hidden tests")),
        "no hidden test should warn"
    );
}

#[test]
fn a_zero_limit_is_rejected_as_malformed_not_treated_as_unlimited() {
    let mut content = Content::default();
    content.trials.insert(
        "t".into(),
        (
            String::from("trial.json"),
            Trial {
                format_version: CONTENT_FORMAT_VERSION,
                slug: "t".into(),
                title: "T".into(),
                summary: "s".into(),
                difficulty: Difficulty::Easy,
                topics: vec![Topic::Ownership],
                lifecycle: Lifecycle::Verified,
                version: 1,
                statement: "statement.md".into(),
                starter: "starter.rs".into(),
                reference_solution: "solution.rs".into(),
                starter_expect: ExpectedOutcome::Compiles,
                tests: vec![
                    TestCase {
                        id: "a".into(),
                        visibility: Visibility::Public,
                        stdin: String::new(),
                        expected_stdout: "x\n".into(),
                    },
                    TestCase {
                        id: "b".into(),
                        visibility: Visibility::Hidden,
                        stdin: String::new(),
                        expected_stdout: "y\n".into(),
                    },
                ],
                limits: Some(Limits {
                    fuel: 0,
                    ..Limits::default()
                }),
            },
        ),
    );
    let mut report = ValidationReport::default();
    check_trials(".", &content, &mut report);
    assert!(report.has_errors());
}

#[test]
fn a_content_map_holds_one_document_per_key() {
    let mut map: DocMap<u32> = DocMap::new();
    map.insert("b".into(), ("b.json".into(), 1));
    map.insert("a".into(), ("a.json".into(), 2));
    map.insert("b".into(), ("b2.json".into(), 3));
    assert_eq!(map.len(), 2);
    assert_eq!(map.key(0), "a");
    assert_eq!(map.key(1), "b");
    assert_eq!(map.get("b"), Some(&("b2.json".to_string(), 3)));
    assert!(map.get("c").is_none());
}
