use rustly_content::index::{build, EntryKind, INDEX_FORMAT_VERSION, MAX_SUMMARY};
use rustly_content::model::{Lesson, Lifecycle, Topic, CONTENT_FORMAT_VERSION};
use rustly_content::validate::Content;

fn content() -> Content {
    let mut content = Content::default();
    for (id, lifecycle) in [
        ("ownership/published", Lifecycle::Official),
        ("ownership/draft", Lifecycle::Draft),
    ] {
        content.lessons.insert(
            id.into(),
            (
                String::from("l.json"),
                Lesson {
                    format_version: CONTENT_FORMAT_VERSION,
                    id: id.into(),
                    title: "Title".into(),
                    summary: "x".repeat(400),
                    topics: vec![Topic::Ownership],
                    lifecycle,
                    body: "b.md".into(),
                    visualisation: None,
                    examples: vec![],
                    quizzes: vec![],
                    cheatsheets: vec![],
                    oss_examples: vec![],
                    trials: vec![],
                    references: vec![],
                },
            ),
        );
    }
    content
}

#[test]
fn draft_content_is_not_searchable() {
    let index = build(&content());
    let ids: Vec<&str> = index.entries.iter().map(|e| e.id.as_str()).collect();
    assert_eq!(ids, ["ownership/published"]);
}

#[test]
fn summaries_are_truncated_so_the_index_stays_small() {
    let index = build(&content());
    let summary = &index.entries[0].summary;
    assert!(summary.chars().count() <= MAX_SUMMARY);
    assert!(summary.ends_with('…'));
}

#[test]
fn the_index_is_byte_stable_across_rebuilds() {
    let a = build(&content());
    let b = build(&content());
    assert_eq!(
        a, b,
        "an unchanged repository must produce an identical index"
    );
}

#[test]
fn entries_carry_a_link_the_browser_can_follow() {
    let index = build(&content());
    assert_eq!(index.entries[0].href, "/learn/ownership/published");
    assert_eq!(index.entries[0].kind, EntryKind::Lesson);
}

#[test]
fn an_empty_repository_produces_a_valid_empty_index() {
    let index = build(&Content::default());
    assert_eq!(index.format_version, INDEX_FORMAT_VERSION);
    assert!(index.entries.is_empty());
}
