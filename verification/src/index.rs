//! The static search index.
//!
//! An ordinary Learn, cheatsheet, or Trial read must not require a database
//! or an API request. Search is part of that: the browser downloads this index
//! once and searches locally.
//!
//! The index is therefore optimised for size, not for features. It carries
//! what a result card needs to render and a reference back to the document. It
//! is not a copy of the content.

use vstd::prelude::*;

use crate::docmap::{key_less, lemma_lookup_at, DocMap};
use crate::model::{spec_permalink, Cheatsheet, LearningPath, Lesson, Lifecycle, OssExample, Topic, Trial};
use crate::text::{concat2, concat3, chars_of, push_char, push_chars};
use crate::validate::Content;

verus! {

/// Format version of the search index.
pub const INDEX_FORMAT_VERSION: u32 = 1;

/// Maximum characters of summary kept per entry.
pub const MAX_SUMMARY: usize = 160;

/// What kind of thing an entry points at.
#[derive(Debug, Clone, Copy, PartialEq, Eq, Structural)]
pub enum EntryKind {
    /// A learning path.
    Path,
    /// A lesson.
    Lesson,
    /// A cheatsheet.
    Cheatsheet,
    /// A Trial.
    Trial,
    /// A curated OSS example.
    Oss,
}

/// The position of a kind in the index order.
pub open spec fn kind_rank(k: EntryKind) -> int {
    match k {
        EntryKind::Path => 0,
        EntryKind::Lesson => 1,
        EntryKind::Cheatsheet => 2,
        EntryKind::Trial => 3,
        EntryKind::Oss => 4,
    }
}

/// One searchable entry.
#[derive(Debug, Clone, PartialEq)]
pub struct Entry {
    /// What it is.
    pub kind: EntryKind,
    /// Stable identifier or slug.
    pub id: String,
    /// Title shown on the result.
    pub title: String,
    /// Truncated summary.
    pub summary: String,
    /// Topic tags, for filtering.
    pub topics: Vec<Topic>,
    /// Relative site link.
    pub href: String,
}

/// An entry as plain values: kind, id, title, summary, topics, link.
pub type EntryView = (EntryKind, Seq<char>, Seq<char>, Seq<char>, Seq<Topic>, Seq<char>);

impl View for Entry {
    type V = EntryView;

    open spec fn view(&self) -> EntryView {
        (self.kind, self.id@, self.title@, self.summary@, self.topics@, self.href@)
    }
}

/// The complete index.
#[derive(Debug, Clone, PartialEq)]
pub struct SearchIndex {
    /// Format version.
    pub format_version: u32,
    /// Entries, sorted by kind then id so the output is byte-stable.
    pub entries: Vec<Entry>,
}

/// The views of a list of entries.
pub open spec fn views_of(v: Seq<Entry>) -> Seq<EntryView> {
    v.map_values(|e: Entry| e@)
}

impl SearchIndex {
    /// The entries as plain values.
    pub open spec fn entry_views(&self) -> Seq<EntryView> {
        views_of(self.entries@)
    }
}

/// A summary cut to at most [`MAX_SUMMARY`] characters: kept whole when short
/// enough, else its first 159 characters followed by an ellipsis.
pub open spec fn spec_truncate(s: Seq<char>) -> Seq<char> {
    if s.len() <= MAX_SUMMARY {
        s
    } else {
        s.take(MAX_SUMMARY - 1).push('…')
    }
}

/// Cuts `text` to at most [`MAX_SUMMARY`] characters.
pub fn truncate(text: &str) -> (r: String)
    ensures
        r@ == spec_truncate(text@),
        r@.len() <= MAX_SUMMARY,
{
    let cs = chars_of(text);
    if cs.len() <= MAX_SUMMARY {
        return String::from_str(text);
    }
    let mut out = String::new();
    push_chars(&mut out, &cs, 0, MAX_SUMMARY - 1);
    push_char(&mut out, '…');
    assert(out@ =~= spec_truncate(text@));
    out
}

/// Whether a document is published and therefore searchable. Draft content
/// is excluded: an index that lets a learner search for something they cannot
/// open is worse than not indexing it.
pub open spec fn spec_published(l: Lifecycle) -> bool {
    l != Lifecycle::Draft
}

/// Whether a document in this state is published.
pub fn published(lifecycle: Lifecycle) -> (b: bool)
    ensures
        b == spec_published(lifecycle),
{
    lifecycle != Lifecycle::Draft
}

/// The entries that the first `n` documents of `m` contribute, `entry`
/// giving each document's entries from its key and the document.
pub open spec fn block_entries<T>(
    m: DocMap<T>,
    n: nat,
    entry: spec_fn(Seq<char>, T) -> Seq<EntryView>,
) -> Seq<EntryView>
    decreases n,
{
    if n == 0 {
        Seq::empty()
    } else {
        block_entries(m, (n - 1) as nat, entry) + entry(m.key_at(n - 1), m.doc_at(n - 1))
    }
}

/// What one document contributes to the index (see `path_entries`).
pub open spec fn path_entry() -> spec_fn(Seq<char>, LearningPath) -> Seq<EntryView> {
    |id: Seq<char>, d: LearningPath|
        if spec_published(d.lifecycle) {
            seq![
                (EntryKind::Path, id, d.title@, spec_truncate(d.summary@), d.topics@, "/learn/"@
                    + id),
            ]
        } else {
            Seq::empty()
        }
}

/// Entries for the published among the first `n` learning paths.
pub open spec fn path_entries(c: Content, n: nat) -> Seq<EntryView> {
    block_entries(c.paths, n, path_entry())
}

/// What one document contributes to the index (see `lesson_entries`).
pub open spec fn lesson_entry() -> spec_fn(Seq<char>, Lesson) -> Seq<EntryView> {
    |id: Seq<char>, d: Lesson|
        if spec_published(d.lifecycle) {
            seq![
                (EntryKind::Lesson, id, d.title@, spec_truncate(d.summary@), d.topics@,
                "/learn/"@ + id),
            ]
        } else {
            Seq::empty()
        }
}

/// Entries for the published among the first `n` lessons.
pub open spec fn lesson_entries(c: Content, n: nat) -> Seq<EntryView> {
    block_entries(c.lessons, n, lesson_entry())
}

/// What one document contributes to the index (see `cheatsheet_entries`).
pub open spec fn cheatsheet_entry() -> spec_fn(Seq<char>, Cheatsheet) -> Seq<EntryView> {
    |id: Seq<char>, d: Cheatsheet|
        if spec_published(d.lifecycle) {
            seq![
                (EntryKind::Cheatsheet, id, d.title@, spec_truncate(d.summary@), d.topics@,
                "/cheatsheets/"@ + id),
            ]
        } else {
            Seq::empty()
        }
}

/// Entries for the published among the first `n` cheatsheets.
pub open spec fn cheatsheet_entries(c: Content, n: nat) -> Seq<EntryView> {
    block_entries(c.cheatsheets, n, cheatsheet_entry())
}

/// What one document contributes to the index (see `trial_entries`).
pub open spec fn trial_entry() -> spec_fn(Seq<char>, Trial) -> Seq<EntryView> {
    |id: Seq<char>, d: Trial|
        if spec_published(d.lifecycle) {
            seq![
                (EntryKind::Trial, id, d.title@, spec_truncate(d.summary@), d.topics@,
                "/trials/"@ + id),
            ]
        } else {
            Seq::empty()
        }
}

/// Entries for the published among the first `n` Trials.
pub open spec fn trial_entries(c: Content, n: nat) -> Seq<EntryView> {
    block_entries(c.trials, n, trial_entry())
}

/// What one document contributes to the index (see `oss_entries`).
pub open spec fn oss_entry() -> spec_fn(Seq<char>, OssExample) -> Seq<EntryView> {
    |id: Seq<char>, d: OssExample|
        seq![
            (EntryKind::Oss, id, d.repository@ + ": "@ + d.caption@, spec_truncate(d.caption@),
            d.topics@, spec_permalink(d)),
        ]
}

/// Entries for the first `n` OSS examples, which have no editorial state.
pub open spec fn oss_entries(c: Content, n: nat) -> Seq<EntryView> {
    block_entries(c.oss, n, oss_entry())
}

/// Every entry of the index of `c`, in index order.
pub open spec fn spec_index_entries(c: Content) -> Seq<EntryView> {
    path_entries(c, c.paths.size()) + lesson_entries(c, c.lessons.size()) + cheatsheet_entries(
        c,
        c.cheatsheets.size(),
    ) + trial_entries(c, c.trials.size()) + oss_entries(c, c.oss.size())
}

/// Entries come in kind order, then in id order, with no two alike.
pub open spec fn entries_ordered(e: Seq<EntryView>) -> bool {
    forall|i: int, j: int|
        0 <= i < j < e.len() ==> kind_rank((#[trigger] e[i]).0) < kind_rank((#[trigger] e[j]).0) || (
        kind_rank(e[i].0) == kind_rank(e[j].0) && key_less(e[i].1, e[j].1))
}

fn copy_topics(v: &Vec<Topic>) -> (r: Vec<Topic>)
    ensures
        r@ == v@,
{
    let mut r: Vec<Topic> = Vec::new();
    let n = v.len();
    let mut i: usize = 0;
    while i < n
        invariant
            n == v@.len(),
            i <= n,
            r@ == v@.take(i as int),
        decreases n - i,
    {
        r.push(v[i]);
        i = i + 1;
        assert(r@ =~= v@.take(i as int));
    }
    assert(r@ =~= v@);
    r
}

fn make_entry(
    kind: EntryKind,
    id: &String,
    title: String,
    summary: &String,
    topics: &Vec<Topic>,
    href: String,
) -> (e: Entry)
    ensures
        e@ == (kind, id@, title@, spec_truncate(summary@), topics@, href@),
{
    Entry {
        kind,
        id: id.clone(),
        title,
        summary: truncate(summary.as_str()),
        topics: copy_topics(topics),
        href,
    }
}

/// Builds the index from loaded content: every published learning path,
/// lesson, cheatsheet and Trial, and every OSS example, ordered by kind and
/// then by id.
pub fn build(content: &Content) -> (index: SearchIndex)
    ensures
        index.format_version == INDEX_FORMAT_VERSION,
        index.entry_views() == spec_index_entries(*content),
        entries_ordered(index.entry_views()),
{
    let mut entries: Vec<Entry> = Vec::new();

    let n = content.paths.len();
    let mut i: usize = 0;
    while i < n
        invariant
            n == content.paths.size(),
            i <= n,
            views_of(entries@) == path_entries(*content, i as nat),
        decreases n - i,
    {
        let entry = content.paths.entry(i);
        let id = content.paths.key(i);
        if published(entry.1.lifecycle) {
            let e = make_entry(
                EntryKind::Path,
                id,
                entry.1.title.clone(),
                &entry.1.summary,
                &entry.1.topics,
                concat2("/learn/", id.as_str()),
            );
            let ghost before = views_of(entries@);
            entries.push(e);
            assert(views_of(entries@) =~= before.push(e@));
        }
        assert(views_of(entries@) =~= path_entries(*content, (i + 1) as nat));
        i = i + 1;
    }
    let ghost a = views_of(entries@);

    let n = content.lessons.len();
    let mut i: usize = 0;
    while i < n
        invariant
            n == content.lessons.size(),
            i <= n,
            views_of(entries@) == a + lesson_entries(*content, i as nat),
        decreases n - i,
    {
        let entry = content.lessons.entry(i);
        let id = content.lessons.key(i);
        if published(entry.1.lifecycle) {
            let e = make_entry(
                EntryKind::Lesson,
                id,
                entry.1.title.clone(),
                &entry.1.summary,
                &entry.1.topics,
                concat2("/learn/", id.as_str()),
            );
            let ghost before = views_of(entries@);
            entries.push(e);
            assert(views_of(entries@) =~= before.push(e@));
        }
        assert(views_of(entries@) =~= a + lesson_entries(*content, (i + 1) as nat));
        i = i + 1;
    }
    let ghost b = views_of(entries@);

    let n = content.cheatsheets.len();
    let mut i: usize = 0;
    while i < n
        invariant
            n == content.cheatsheets.size(),
            i <= n,
            views_of(entries@) == b + cheatsheet_entries(*content, i as nat),
        decreases n - i,
    {
        let entry = content.cheatsheets.entry(i);
        let id = content.cheatsheets.key(i);
        if published(entry.1.lifecycle) {
            let e = make_entry(
                EntryKind::Cheatsheet,
                id,
                entry.1.title.clone(),
                &entry.1.summary,
                &entry.1.topics,
                concat2("/cheatsheets/", id.as_str()),
            );
            let ghost before = views_of(entries@);
            entries.push(e);
            assert(views_of(entries@) =~= before.push(e@));
        }
        assert(views_of(entries@) =~= b + cheatsheet_entries(
            *content,
            (i + 1) as nat,
        ));
        i = i + 1;
    }
    let ghost c = views_of(entries@);

    let n = content.trials.len();
    let mut i: usize = 0;
    while i < n
        invariant
            n == content.trials.size(),
            i <= n,
            views_of(entries@) == c + trial_entries(*content, i as nat),
        decreases n - i,
    {
        let entry = content.trials.entry(i);
        let id = content.trials.key(i);
        if published(entry.1.lifecycle) {
            let e = make_entry(
                EntryKind::Trial,
                id,
                entry.1.title.clone(),
                &entry.1.summary,
                &entry.1.topics,
                concat2("/trials/", id.as_str()),
            );
            let ghost before = views_of(entries@);
            entries.push(e);
            assert(views_of(entries@) =~= before.push(e@));
        }
        assert(views_of(entries@) =~= c + trial_entries(*content, (i + 1) as nat));
        i = i + 1;
    }
    let ghost d = views_of(entries@);

    let n = content.oss.len();
    let mut i: usize = 0;
    while i < n
        invariant
            n == content.oss.size(),
            i <= n,
            views_of(entries@) == d + oss_entries(*content, i as nat),
        decreases n - i,
    {
        let entry = content.oss.entry(i);
        let id = content.oss.key(i);
        let e = make_entry(
            EntryKind::Oss,
            id,
            concat3(entry.1.repository.as_str(), ": ", entry.1.caption.as_str()),
            &entry.1.caption,
            &entry.1.topics,
            entry.1.permalink(),
        );
        let ghost before = views_of(entries@);
        entries.push(e);
        assert(views_of(entries@) =~= before.push(e@));
        assert(views_of(entries@) =~= d + oss_entries(*content, (i + 1) as nat));
        i = i + 1;
    }
    let index = SearchIndex { format_version: INDEX_FORMAT_VERSION, entries };
    assert(index.entry_views() =~= spec_index_entries(*content));
    proof {
        use_type_invariant(&content.paths);
        use_type_invariant(&content.lessons);
        use_type_invariant(&content.cheatsheets);
        use_type_invariant(&content.trials);
        use_type_invariant(&content.oss);
        lemma_index_ordered(*content);
    }
    index
}

/// Each document contributes at most one entry, of kind `k`, under its key.
pub open spec fn entries_of_kind<T>(entry: spec_fn(Seq<char>, T) -> Seq<EntryView>, k: EntryKind) -> bool {
    forall|id: Seq<char>, d: T|
        #![trigger entry(id, d)]
        entry(id, d).len() <= 1 && (entry(id, d).len() == 1 ==> entry(id, d)[0].0 == k
            && entry(id, d)[0].1 == id)
}

/// Every entry of a block has kind `k`.
pub proof fn lemma_block_kind<T>(
    m: DocMap<T>,
    n: nat,
    entry: spec_fn(Seq<char>, T) -> Seq<EntryView>,
    k: EntryKind,
)
    requires
        entries_of_kind(entry, k),
    ensures
        forall|i: int|
            0 <= i < block_entries(m, n, entry).len() ==> (#[trigger] block_entries(
                m,
                n,
                entry,
            )[i]).0 == k,
    decreases n,
{
    if n > 0 {
        lemma_block_kind(m, (n - 1) as nat, entry, k);
        let prev = block_entries(m, (n - 1) as nat, entry);
        let last = entry(m.key_at(n - 1), m.doc_at(n - 1));
        let all = block_entries(m, n, entry);
        assert(all == prev + last);
        assert(last.len() <= 1);
        assert forall|i: int| 0 <= i < all.len() implies (#[trigger] all[i]).0 == k by {
            if i < prev.len() {
                assert(all[i] == prev[i]);
            } else {
                assert(all[i] == last[i - prev.len()]);
            }
        }
    }
}

/// Every entry of a block comes from a document of the map under its id.
pub proof fn lemma_block_from<T>(
    m: DocMap<T>,
    n: nat,
    entry: spec_fn(Seq<char>, T) -> Seq<EntryView>,
    k: EntryKind,
)
    requires
        n <= m.size(),
        entries_of_kind(entry, k),
    ensures
        forall|i: int|
            0 <= i < block_entries(m, n, entry).len() ==> exists|j: int|
                0 <= j < n && #[trigger] m.key_at(j) == (#[trigger] block_entries(m, n, entry)[i]).1
                    && entry(m.key_at(j), m.doc_at(j)).len() == 1,
    decreases n,
{
    if n > 0 {
        lemma_block_from(m, (n - 1) as nat, entry, k);
        let prev = block_entries(m, (n - 1) as nat, entry);
        let last = entry(m.key_at(n - 1), m.doc_at(n - 1));
        let all = block_entries(m, n, entry);
        assert(all == prev + last);
        assert(last.len() <= 1);
        assert forall|i: int| 0 <= i < all.len() implies exists|j: int|
            0 <= j < n && #[trigger] m.key_at(j) == (#[trigger] all[i]).1 && entry(
                m.key_at(j),
                m.doc_at(j),
            ).len() == 1 by {
            if i < prev.len() {
                assert(all[i] == prev[i]);
                let j = choose|j: int|
                    0 <= j < n - 1 && #[trigger] m.key_at(j) == prev[i].1 && entry(
                        m.key_at(j),
                        m.doc_at(j),
                    ).len() == 1;
                assert(m.key_at(j) == all[i].1);
            } else {
                assert(all[i] == last[0]);
                assert(m.key_at(n - 1) == all[i].1);
            }
        }
    }
}

/// Every document of the map that contributes an entry has it in the block.
pub proof fn lemma_block_covers<T>(
    m: DocMap<T>,
    n: nat,
    entry: spec_fn(Seq<char>, T) -> Seq<EntryView>,
    k: EntryKind,
)
    requires
        n <= m.size(),
        entries_of_kind(entry, k),
    ensures
        forall|j: int|
            0 <= j < n && entry(m.key_at(j), m.doc_at(j)).len() == 1 ==> exists|i: int|
                0 <= i < block_entries(m, n, entry).len() && (#[trigger] block_entries(
                    m,
                    n,
                    entry,
                )[i]).1 == #[trigger] m.key_at(j),
    decreases n,
{
    if n > 0 {
        lemma_block_covers(m, (n - 1) as nat, entry, k);
        let prev = block_entries(m, (n - 1) as nat, entry);
        let last = entry(m.key_at(n - 1), m.doc_at(n - 1));
        let all = block_entries(m, n, entry);
        assert(all == prev + last);
        assert(last.len() <= 1);
        assert forall|j: int|
            0 <= j < n && entry(m.key_at(j), m.doc_at(j)).len() == 1 implies exists|i: int|
            0 <= i < all.len() && (#[trigger] all[i]).1 == #[trigger] m.key_at(j) by {
            if j < n - 1 {
                let i = choose|i: int|
                    0 <= i < prev.len() && (#[trigger] prev[i]).1 == #[trigger] m.key_at(j);
                assert(all[i] == prev[i]);
            } else {
                assert(all[prev.len() as int] == last[0]);
            }
        }
    }
}

/// A block lists its ids in ascending order.
pub proof fn lemma_block_ordered<T>(
    m: DocMap<T>,
    n: nat,
    entry: spec_fn(Seq<char>, T) -> Seq<EntryView>,
    k: EntryKind,
)
    requires
        m.ascending(),
        n <= m.size(),
        entries_of_kind(entry, k),
    ensures
        entries_ordered(block_entries(m, n, entry)),
    decreases n,
{
    if n > 0 {
        lemma_block_ordered(m, (n - 1) as nat, entry, k);
        lemma_block_from(m, (n - 1) as nat, entry, k);
        lemma_block_kind(m, n, entry, k);
        m.lemma_ascending();
        let prev = block_entries(m, (n - 1) as nat, entry);
        let last = entry(m.key_at(n - 1), m.doc_at(n - 1));
        let all = block_entries(m, n, entry);
        assert(all == prev + last);
        assert(last.len() <= 1);
        assert forall|a: int, b: int| 0 <= a < b < all.len() implies kind_rank(
            (#[trigger] all[a]).0,
        ) < kind_rank((#[trigger] all[b]).0) || (kind_rank(all[a].0) == kind_rank(all[b].0)
            && key_less(all[a].1, all[b].1)) by {
            if b < prev.len() {
                assert(all[a] == prev[a]);
                assert(all[b] == prev[b]);
            } else {
                assert(b == prev.len());
                assert(all[a] == prev[a]);
                assert(all[b] == last[0]);
                let j = choose|j: int|
                    0 <= j < n - 1 && #[trigger] m.key_at(j) == prev[a].1 && entry(
                        m.key_at(j),
                        m.doc_at(j),
                    ).len() == 1;
                assert(key_less(m.entries()[j].0@, m.entries()[n - 1].0@));
            }
        }
    }
}

/// Two ordered runs of entries, all kinds of the first ranked before all of
/// the second, make an ordered whole.
proof fn lemma_join(a: Seq<EntryView>, b: Seq<EntryView>)
    requires
        entries_ordered(a),
        entries_ordered(b),
        forall|i: int, j: int|
            0 <= i < a.len() && 0 <= j < b.len() ==> kind_rank((#[trigger] a[i]).0) < kind_rank(
                (#[trigger] b[j]).0,
            ),
    ensures
        entries_ordered(a + b),
{
    let all = a + b;
    assert forall|i: int, j: int| 0 <= i < j < all.len() implies kind_rank((#[trigger] all[i]).0)
        < kind_rank((#[trigger] all[j]).0) || (kind_rank(all[i].0) == kind_rank(all[j].0)
        && key_less(all[i].1, all[j].1)) by {
        if j < a.len() {
            assert(all[i] == a[i]);
            assert(all[j] == a[j]);
        } else if i >= a.len() {
            assert(all[i] == b[i - a.len()]);
            assert(all[j] == b[j - a.len()]);
        } else {
            assert(all[i] == a[i]);
            assert(all[j] == b[j - a.len()]);
        }
    }
}

/// The index lists entries by kind, then by id, each once: rebuilding
/// unchanged content gives entries in the same order.
pub proof fn lemma_index_ordered(c: Content)
    requires
        c.paths.ascending(),
        c.lessons.ascending(),
        c.cheatsheets.ascending(),
        c.trials.ascending(),
        c.oss.ascending(),
    ensures
        entries_ordered(spec_index_entries(c)),
{
    let p = path_entries(c, c.paths.size());
    let l = lesson_entries(c, c.lessons.size());
    let h = cheatsheet_entries(c, c.cheatsheets.size());
    let t = trial_entries(c, c.trials.size());
    let o = oss_entries(c, c.oss.size());
    assert(entries_ordered(p) && forall|i: int| 0 <= i < p.len() ==> (#[trigger] p[i]).0 == EntryKind::Path) by {
        lemma_block_ordered(c.paths, c.paths.size(), path_entry(), EntryKind::Path);
        lemma_block_kind(c.paths, c.paths.size(), path_entry(), EntryKind::Path);
    }
    assert(entries_ordered(l) && forall|i: int| 0 <= i < l.len() ==> (#[trigger] l[i]).0 == EntryKind::Lesson) by {
        lemma_block_ordered(c.lessons, c.lessons.size(), lesson_entry(), EntryKind::Lesson);
        lemma_block_kind(c.lessons, c.lessons.size(), lesson_entry(), EntryKind::Lesson);
    }
    assert(entries_ordered(h) && forall|i: int| 0 <= i < h.len() ==> (#[trigger] h[i]).0 == EntryKind::Cheatsheet) by {
        lemma_block_ordered(c.cheatsheets, c.cheatsheets.size(), cheatsheet_entry(), EntryKind::Cheatsheet);
        lemma_block_kind(c.cheatsheets, c.cheatsheets.size(), cheatsheet_entry(), EntryKind::Cheatsheet);
    }
    assert(entries_ordered(t) && forall|i: int| 0 <= i < t.len() ==> (#[trigger] t[i]).0 == EntryKind::Trial) by {
        lemma_block_ordered(c.trials, c.trials.size(), trial_entry(), EntryKind::Trial);
        lemma_block_kind(c.trials, c.trials.size(), trial_entry(), EntryKind::Trial);
    }
    assert(entries_ordered(o) && forall|i: int| 0 <= i < o.len() ==> (#[trigger] o[i]).0 == EntryKind::Oss) by {
        lemma_block_ordered(c.oss, c.oss.size(), oss_entry(), EntryKind::Oss);
        lemma_block_kind(c.oss, c.oss.size(), oss_entry(), EntryKind::Oss);
    }
    lemma_join(p, l);
    lemma_join(p + l, h);
    lemma_join(p + l + h, t);
    lemma_join(p + l + h + t, o);
}

/// An id appears in a block exactly when the map holds a document under it
/// that contributes an entry.
pub proof fn lemma_block_lists<T>(
    m: DocMap<T>,
    entry: spec_fn(Seq<char>, T) -> Seq<EntryView>,
    k: EntryKind,
    id: Seq<char>,
)
    requires
        m.ascending(),
        entries_of_kind(entry, k),
    ensures
        (exists|i: int|
            0 <= i < block_entries(m, m.size(), entry).len() && (#[trigger] block_entries(
                m,
                m.size(),
                entry,
            )[i]).1 == id) == (m.lookup(id) matches Some(e) && entry(id, e.1).len() == 1),
{
    lemma_block_from(m, m.size(), entry, k);
    lemma_block_covers(m, m.size(), entry, k);
    m.lemma_ascending();
    let blk = block_entries(m, m.size(), entry);
    if exists|i: int| 0 <= i < blk.len() && (#[trigger] blk[i]).1 == id {
        let i = choose|i: int| 0 <= i < blk.len() && (#[trigger] blk[i]).1 == id;
        let j = choose|j: int|
            0 <= j < m.size() && #[trigger] m.key_at(j) == blk[i].1 && entry(
                m.key_at(j),
                m.doc_at(j),
            ).len() == 1;
        lemma_lookup_at(m.entries(), j);
    }
    if m.lookup(id) is Some {
        if entry(id, m.lookup(id).unwrap().1).len() == 1 {
            let j = m.position(id);
            assert(m.key_at(j) == id);
            lemma_lookup_at(m.entries(), j);
        }
    }
}

/// The entries of kind `k` in `all`, which is `pre + blk + post`, are those
/// of `blk`, when `pre` and `post` hold no entry of that kind.
proof fn lemma_kind_in_middle(pre: Seq<EntryView>, blk: Seq<EntryView>, post: Seq<EntryView>, k: EntryKind, id: Seq<char>)
    requires
        forall|i: int| 0 <= i < pre.len() ==> (#[trigger] pre[i]).0 != k,
        forall|i: int| 0 <= i < post.len() ==> (#[trigger] post[i]).0 != k,
        forall|i: int| 0 <= i < blk.len() ==> (#[trigger] blk[i]).0 == k,
    ensures
        (exists|i: int|
            0 <= i < (pre + blk + post).len() && (#[trigger] (pre + blk + post)[i]).0 == k && (pre
                + blk + post)[i].1 == id) == (exists|i: int|
            0 <= i < blk.len() && (#[trigger] blk[i]).1 == id),
{
    let all = pre + blk + post;
    if exists|i: int| 0 <= i < all.len() && (#[trigger] all[i]).0 == k && all[i].1 == id {
        let i = choose|i: int| 0 <= i < all.len() && (#[trigger] all[i]).0 == k && all[i].1 == id;
        if i < pre.len() {
            assert(all[i] == pre[i]);
        } else if i < pre.len() + blk.len() {
            assert(all[i] == blk[i - pre.len()]);
        } else {
            assert(all[i] == post[i - pre.len() - blk.len()]);
        }
    }
    if exists|i: int| 0 <= i < blk.len() && (#[trigger] blk[i]).1 == id {
        let i = choose|i: int| 0 <= i < blk.len() && (#[trigger] blk[i]).1 == id;
        assert(all[i + pre.len()] == blk[i]);
    }
}

/// Whether the index lists an entry of kind `k` with id `id`.
pub open spec fn index_lists(e: Seq<EntryView>, k: EntryKind, id: Seq<char>) -> bool {
    exists|i: int| 0 <= i < e.len() && (#[trigger] e[i]).0 == k && e[i].1 == id
}

/// Draft content is not searchable and published content is: the index lists
/// a learning path, lesson, cheatsheet or Trial exactly when the content
/// holds one under that id whose lifecycle is not draft, and lists every OSS
/// example.
pub proof fn lemma_index_lists_exactly_the_published(c: Content, id: Seq<char>)
    requires
        c.paths.ascending(),
        c.lessons.ascending(),
        c.cheatsheets.ascending(),
        c.trials.ascending(),
        c.oss.ascending(),
    ensures
        index_lists(spec_index_entries(c), EntryKind::Path, id) == (c.paths.lookup(id) matches Some(
            e,
        ) && spec_published(e.1.lifecycle)),
        index_lists(spec_index_entries(c), EntryKind::Lesson, id) == (c.lessons.lookup(id) matches Some(
            e,
        ) && spec_published(e.1.lifecycle)),
        index_lists(spec_index_entries(c), EntryKind::Cheatsheet, id) == (c.cheatsheets.lookup(
            id,
        ) matches Some(e) && spec_published(e.1.lifecycle)),
        index_lists(spec_index_entries(c), EntryKind::Trial, id) == (c.trials.lookup(id) matches Some(
            e,
        ) && spec_published(e.1.lifecycle)),
        index_lists(spec_index_entries(c), EntryKind::Oss, id) == c.oss.has_key(id),
{
    let p = path_entries(c, c.paths.size());
    let l = lesson_entries(c, c.lessons.size());
    let h = cheatsheet_entries(c, c.cheatsheets.size());
    let t = trial_entries(c, c.trials.size());
    let o = oss_entries(c, c.oss.size());
    lemma_block_kind(c.paths, c.paths.size(), path_entry(), EntryKind::Path);
    lemma_block_kind(c.lessons, c.lessons.size(), lesson_entry(), EntryKind::Lesson);
    lemma_block_kind(c.cheatsheets, c.cheatsheets.size(), cheatsheet_entry(), EntryKind::Cheatsheet);
    lemma_block_kind(c.trials, c.trials.size(), trial_entry(), EntryKind::Trial);
    lemma_block_kind(c.oss, c.oss.size(), oss_entry(), EntryKind::Oss);
    lemma_block_lists(c.paths, path_entry(), EntryKind::Path, id);
    lemma_block_lists(c.lessons, lesson_entry(), EntryKind::Lesson, id);
    lemma_block_lists(c.cheatsheets, cheatsheet_entry(), EntryKind::Cheatsheet, id);
    lemma_block_lists(c.trials, trial_entry(), EntryKind::Trial, id);
    lemma_block_lists(c.oss, oss_entry(), EntryKind::Oss, id);
    let all = spec_index_entries(c);
    assert(all == p + l + h + t + o);
    let empty = Seq::<EntryView>::empty();
    assert(all =~= empty + p + (l + h + t + o));
    lemma_kind_in_middle(empty, p, l + h + t + o, EntryKind::Path, id);
    assert(all =~= p + l + (h + t + o));
    lemma_kind_in_middle(p, l, h + t + o, EntryKind::Lesson, id);
    assert(all =~= (p + l) + h + (t + o));
    lemma_kind_in_middle(p + l, h, t + o, EntryKind::Cheatsheet, id);
    assert(all =~= (p + l + h) + t + o);
    lemma_kind_in_middle(p + l + h, t, o, EntryKind::Trial, id);
    assert(all =~= (p + l + h + t) + o + empty);
    lemma_kind_in_middle(p + l + h + t, o, empty, EntryKind::Oss, id);
    if c.oss.has_key(id) {
        assert(c.oss.lookup(id) is Some);
    }
}

/// The documents among the first `n` of `m` that `keep` holds of, in order,
/// each with its key.
pub open spec fn kept_pairs<T>(m: DocMap<T>, n: nat, keep: spec_fn(T) -> bool) -> Seq<(Seq<char>, T)>
    decreases n,
{
    if n == 0 {
        Seq::empty()
    } else {
        kept_pairs(m, (n - 1) as nat, keep) + if keep(m.doc_at(n - 1)) {
            seq![(m.key_at(n - 1), m.doc_at(n - 1))]
        } else {
            Seq::empty()
        }
    }
}

/// The entries that keyed documents contribute, in order.
pub open spec fn pair_entries<T>(
    ps: Seq<(Seq<char>, T)>,
    entry: spec_fn(Seq<char>, T) -> Seq<EntryView>,
) -> Seq<EntryView>
    decreases ps.len(),
{
    if ps.len() == 0 {
        Seq::empty()
    } else {
        pair_entries(ps.drop_last(), entry) + entry(ps.last().0, ps.last().1)
    }
}

/// Whether a learning path is published.
pub open spec fn path_published() -> spec_fn(LearningPath) -> bool {
    |d: LearningPath| spec_published(d.lifecycle)
}

/// Whether a lesson is published.
pub open spec fn lesson_published() -> spec_fn(Lesson) -> bool {
    |d: Lesson| spec_published(d.lifecycle)
}

/// Whether a cheatsheet is published.
pub open spec fn cheatsheet_published() -> spec_fn(Cheatsheet) -> bool {
    |d: Cheatsheet| spec_published(d.lifecycle)
}

/// Whether a Trial is published.
pub open spec fn trial_published() -> spec_fn(Trial) -> bool {
    |d: Trial| spec_published(d.lifecycle)
}

/// Every OSS example is listed: it has no editorial state.
pub open spec fn oss_listed() -> spec_fn(OssExample) -> bool {
    |d: OssExample| true
}

/// A block is made of the entries of the documents that `keep` holds of,
/// when the others contribute nothing.
pub proof fn lemma_block_of_kept<T>(
    m: DocMap<T>,
    n: nat,
    entry: spec_fn(Seq<char>, T) -> Seq<EntryView>,
    keep: spec_fn(T) -> bool,
)
    requires
        forall|id: Seq<char>, d: T|
            #![trigger entry(id, d)]
            !keep(d) ==> entry(id, d) == Seq::<EntryView>::empty(),
    ensures
        block_entries(m, n, entry) == pair_entries(kept_pairs(m, n, keep), entry),
    decreases n,
{
    if n > 0 {
        lemma_block_of_kept(m, (n - 1) as nat, entry, keep);
        let before = kept_pairs(m, (n - 1) as nat, keep);
        let all = kept_pairs(m, n, keep);
        let k = m.key_at(n - 1);
        let d = m.doc_at(n - 1);
        if keep(d) {
            assert(all.drop_last() =~= before);
            assert(all.last() == (k, d));
        } else {
            assert(all =~= before);
            assert(entry(k, d) == Seq::<EntryView>::empty());
            assert(block_entries(m, n, entry) =~= block_entries(m, (n - 1) as nat, entry));
        }
    }
}

/// Drafts never reach the index: two contents with the same published
/// learning paths, lessons, cheatsheets and Trials, under the same ids and in
/// the same order, and with the same OSS examples, have the same index,
/// whatever drafts either of them holds.
pub proof fn lemma_drafts_do_not_reach_index(a: Content, b: Content)
    requires
        kept_pairs(a.paths, a.paths.size(), path_published()) == kept_pairs(
            b.paths,
            b.paths.size(),
            path_published(),
        ),
        kept_pairs(a.lessons, a.lessons.size(), lesson_published()) == kept_pairs(
            b.lessons,
            b.lessons.size(),
            lesson_published(),
        ),
        kept_pairs(a.cheatsheets, a.cheatsheets.size(), cheatsheet_published()) == kept_pairs(
            b.cheatsheets,
            b.cheatsheets.size(),
            cheatsheet_published(),
        ),
        kept_pairs(a.trials, a.trials.size(), trial_published()) == kept_pairs(
            b.trials,
            b.trials.size(),
            trial_published(),
        ),
        kept_pairs(a.oss, a.oss.size(), oss_listed()) == kept_pairs(
            b.oss,
            b.oss.size(),
            oss_listed(),
        ),
    ensures
        spec_index_entries(a) == spec_index_entries(b),
{
    lemma_block_of_kept(a.paths, a.paths.size(), path_entry(), path_published());
    lemma_block_of_kept(b.paths, b.paths.size(), path_entry(), path_published());
    lemma_block_of_kept(a.lessons, a.lessons.size(), lesson_entry(), lesson_published());
    lemma_block_of_kept(b.lessons, b.lessons.size(), lesson_entry(), lesson_published());
    lemma_block_of_kept(a.cheatsheets, a.cheatsheets.size(), cheatsheet_entry(), cheatsheet_published());
    lemma_block_of_kept(b.cheatsheets, b.cheatsheets.size(), cheatsheet_entry(), cheatsheet_published());
    lemma_block_of_kept(a.trials, a.trials.size(), trial_entry(), trial_published());
    lemma_block_of_kept(b.trials, b.trials.size(), trial_entry(), trial_published());
    lemma_block_of_kept(a.oss, a.oss.size(), oss_entry(), oss_listed());
    lemma_block_of_kept(b.oss, b.oss.size(), oss_entry(), oss_listed());
}

/// The link an entry of a learning path, lesson, cheatsheet or Trial carries:
/// `/learn/`, `/cheatsheets/` or `/trials/`, then the entry's id. OSS entries
/// link outside the site.
pub open spec fn links_by_kind(e: EntryView) -> bool {
    &&& (e.0 == EntryKind::Path || e.0 == EntryKind::Lesson) ==> e.5 == "/learn/"@ + e.1
    &&& e.0 == EntryKind::Cheatsheet ==> e.5 == "/cheatsheets/"@ + e.1
    &&& e.0 == EntryKind::Trial ==> e.5 == "/trials/"@ + e.1
}

/// Every entry a document contributes links where its kind says.
pub open spec fn entry_links_by_kind<T>(entry: spec_fn(Seq<char>, T) -> Seq<EntryView>) -> bool {
    forall|id: Seq<char>, d: T, i: int|
        0 <= i < entry(id, d).len() ==> links_by_kind(#[trigger] entry(id, d)[i])
}

proof fn lemma_block_links<T>(m: DocMap<T>, n: nat, entry: spec_fn(Seq<char>, T) -> Seq<EntryView>)
    requires
        entry_links_by_kind(entry),
    ensures
        forall|i: int|
            0 <= i < block_entries(m, n, entry).len() ==> links_by_kind(
                #[trigger] block_entries(m, n, entry)[i],
            ),
    decreases n,
{
    if n > 0 {
        lemma_block_links(m, (n - 1) as nat, entry);
        let prev = block_entries(m, (n - 1) as nat, entry);
        let last = entry(m.key_at(n - 1), m.doc_at(n - 1));
        let all = block_entries(m, n, entry);
        assert forall|i: int| 0 <= i < all.len() implies links_by_kind(#[trigger] all[i]) by {
            if i < prev.len() {
                assert(all[i] == prev[i]);
            } else {
                assert(all[i] == last[i - prev.len()]);
            }
        }
    }
}

proof fn lemma_concat_links(a: Seq<EntryView>, b: Seq<EntryView>)
    requires
        forall|i: int| 0 <= i < a.len() ==> links_by_kind(#[trigger] a[i]),
        forall|i: int| 0 <= i < b.len() ==> links_by_kind(#[trigger] b[i]),
    ensures
        forall|i: int| 0 <= i < (a + b).len() ==> links_by_kind(#[trigger] (a + b)[i]),
{
    assert forall|i: int| 0 <= i < (a + b).len() implies links_by_kind(#[trigger] (a + b)[i]) by {
        if i < a.len() {
            assert((a + b)[i] == a[i]);
        } else {
            assert((a + b)[i] == b[i - a.len()]);
        }
    }
}

/// Every entry of the index links to the page of its own kind: a learning
/// path or lesson entry with id `k` links to `/learn/k`, a cheatsheet entry
/// to `/cheatsheets/k`, and a Trial entry to `/trials/k`.
pub proof fn lemma_index_links_by_kind(c: Content)
    ensures
        forall|i: int|
            0 <= i < spec_index_entries(c).len() && ((#[trigger] spec_index_entries(c)[i]).0
                == EntryKind::Path || spec_index_entries(c)[i].0 == EntryKind::Lesson)
                ==> spec_index_entries(c)[i].5 == "/learn/"@ + spec_index_entries(c)[i].1,
        forall|i: int|
            0 <= i < spec_index_entries(c).len() && (#[trigger] spec_index_entries(c)[i]).0
                == EntryKind::Cheatsheet ==> spec_index_entries(c)[i].5 == "/cheatsheets/"@
                + spec_index_entries(c)[i].1,
        forall|i: int|
            0 <= i < spec_index_entries(c).len() && (#[trigger] spec_index_entries(c)[i]).0
                == EntryKind::Trial ==> spec_index_entries(c)[i].5 == "/trials/"@
                + spec_index_entries(c)[i].1,
{
    let p = path_entries(c, c.paths.size());
    let l = lesson_entries(c, c.lessons.size());
    let h = cheatsheet_entries(c, c.cheatsheets.size());
    let t = trial_entries(c, c.trials.size());
    let o = oss_entries(c, c.oss.size());
    assert(entry_links_by_kind(path_entry()));
    assert(entry_links_by_kind(lesson_entry()));
    assert(entry_links_by_kind(cheatsheet_entry()));
    assert(entry_links_by_kind(trial_entry()));
    assert(entry_links_by_kind(oss_entry()));
    lemma_block_links(c.paths, c.paths.size(), path_entry());
    lemma_block_links(c.lessons, c.lessons.size(), lesson_entry());
    lemma_block_links(c.cheatsheets, c.cheatsheets.size(), cheatsheet_entry());
    lemma_block_links(c.trials, c.trials.size(), trial_entry());
    lemma_block_links(c.oss, c.oss.size(), oss_entry());
    lemma_concat_links(p, l);
    lemma_concat_links(p + l, h);
    lemma_concat_links(p + l + h, t);
    lemma_concat_links(p + l + h + t, o);
    let all = spec_index_entries(c);
    assert(all == p + l + h + t + o);
    assert forall|i: int| 0 <= i < all.len() implies links_by_kind(#[trigger] all[i]) by {}
}

/// The entry `e` shows `title`, a summary cut from `summary` (kept whole up to
/// 160 characters, else its first 159 followed by an ellipsis) and `topics`.
pub open spec fn shows(e: EntryView, title: Seq<char>, summary: Seq<char>, topics: Seq<Topic>) -> bool {
    &&& e.2 == title
    &&& summary.len() <= 160 ==> e.3 == summary
    &&& summary.len() > 160 ==> e.3 == summary.take(159).push('…')
    &&& e.4 == topics
}

/// The entry `e` of the index of `c` describes the document of its kind
/// stored under its id: a published one for the kinds with an editorial
/// state, with its title, summary and topics and the link of its kind.
pub open spec fn describes_document(c: Content, e: EntryView) -> bool {
    match e.0 {
        EntryKind::Path => c.paths.lookup(e.1) matches Some(d) && d.1.lifecycle != Lifecycle::Draft
            && shows(e, d.1.title@, d.1.summary@, d.1.topics@) && e.5 == "/learn/"@ + e.1,
        EntryKind::Lesson => c.lessons.lookup(e.1) matches Some(d) && d.1.lifecycle
            != Lifecycle::Draft && shows(e, d.1.title@, d.1.summary@, d.1.topics@) && e.5
            == "/learn/"@ + e.1,
        EntryKind::Cheatsheet => c.cheatsheets.lookup(e.1) matches Some(d) && d.1.lifecycle
            != Lifecycle::Draft && shows(e, d.1.title@, d.1.summary@, d.1.topics@) && e.5
            == "/cheatsheets/"@ + e.1,
        EntryKind::Trial => c.trials.lookup(e.1) matches Some(d) && d.1.lifecycle
            != Lifecycle::Draft && shows(e, d.1.title@, d.1.summary@, d.1.topics@) && e.5
            == "/trials/"@ + e.1,
        EntryKind::Oss => c.oss.lookup(e.1) matches Some(d) && shows(
            e,
            d.1.repository@ + ": "@ + d.1.caption@,
            d.1.caption@,
            d.1.topics@,
        ) && e.5 == spec_permalink(d.1),
    }
}

/// Some document among the first `n` of `m`, with its key, is one that
/// `fits` allows the entry `e` for.
pub open spec fn fits_some_document<T>(
    m: DocMap<T>,
    n: nat,
    fits: spec_fn(Seq<char>, T, EntryView) -> bool,
    e: EntryView,
) -> bool {
    exists|j: int| 0 <= j < n && #[trigger] fits(m.key_at(j), m.doc_at(j), e)
}

/// Every entry of a block is what `fits` allows for some document of the map.
proof fn lemma_block_fits<T>(
    m: DocMap<T>,
    n: nat,
    entry: spec_fn(Seq<char>, T) -> Seq<EntryView>,
    fits: spec_fn(Seq<char>, T, EntryView) -> bool,
)
    requires
        forall|id: Seq<char>, d: T|
            #![trigger entry(id, d)]
            entry(id, d).len() <= 1 && (entry(id, d).len() == 1 ==> fits(id, d, entry(id, d)[0])),
    ensures
        forall|i: int|
            0 <= i < block_entries(m, n, entry).len() ==> fits_some_document(
                m,
                n,
                fits,
                #[trigger] block_entries(m, n, entry)[i],
            ),
    decreases n,
{
    if n > 0 {
        lemma_block_fits(m, (n - 1) as nat, entry, fits);
        let prev = block_entries(m, (n - 1) as nat, entry);
        let last = entry(m.key_at(n - 1), m.doc_at(n - 1));
        let all = block_entries(m, n, entry);
        assert forall|i: int| 0 <= i < all.len() implies fits_some_document(
            m,
            n,
            fits,
            #[trigger] all[i],
        ) by {
            if i < prev.len() {
                assert(all[i] == prev[i]);
                assert(fits_some_document(m, (n - 1) as nat, fits, prev[i]));
                let j = choose|j: int|
                    0 <= j < n - 1 && #[trigger] fits(m.key_at(j), m.doc_at(j), prev[i]);
                assert(fits(m.key_at(j), m.doc_at(j), all[i]));
            } else {
                assert(all[i] == last[0]);
                assert(fits(m.key_at(n - 1), m.doc_at(n - 1), all[i]));
            }
        }
    }
}

proof fn lemma_all_concat(a: Seq<EntryView>, b: Seq<EntryView>, ok: spec_fn(EntryView) -> bool)
    requires
        forall|i: int| 0 <= i < a.len() ==> ok(#[trigger] a[i]),
        forall|i: int| 0 <= i < b.len() ==> ok(#[trigger] b[i]),
    ensures
        forall|i: int| 0 <= i < (a + b).len() ==> ok(#[trigger] (a + b)[i]),
{
    assert forall|i: int| 0 <= i < (a + b).len() implies ok(#[trigger] (a + b)[i]) by {
        if i < a.len() {
            assert((a + b)[i] == a[i]);
        } else {
            assert((a + b)[i] == b[i - a.len()]);
        }
    }
}

/// The summary an entry shows is the one `shows` describes.
proof fn lemma_truncate_shows(s: Seq<char>)
    ensures
        s.len() <= 160 ==> spec_truncate(s) == s,
        s.len() > 160 ==> spec_truncate(s) == s.take(159).push('…'),
{
}

/// Every entry of the index describes the document it points at: the content
/// holds a document of the entry's kind under the entry's id, published
/// unless it is an OSS example, and the entry carries that document's title
/// (for an OSS example, its repository and caption), its summary cut to at
/// most 160 characters, its topics, and the link of its kind.
pub proof fn lemma_index_entries_describe_their_documents(c: Content)
    requires
        c.paths.ascending(),
        c.lessons.ascending(),
        c.cheatsheets.ascending(),
        c.trials.ascending(),
        c.oss.ascending(),
    ensures
        forall|i: int|
            0 <= i < spec_index_entries(c).len() ==> describes_document(
                c,
                #[trigger] spec_index_entries(c)[i],
            ),
{
    let ok = |e: EntryView| describes_document(c, e);
    let p = path_entries(c, c.paths.size());
    let l = lesson_entries(c, c.lessons.size());
    let h = cheatsheet_entries(c, c.cheatsheets.size());
    let t = trial_entries(c, c.trials.size());
    let o = oss_entries(c, c.oss.size());

    let fp = |id: Seq<char>, d: LearningPath, e: EntryView|
        e.0 == EntryKind::Path && e.1 == id && d.lifecycle != Lifecycle::Draft && shows(
            e,
            d.title@,
            d.summary@,
            d.topics@,
        ) && e.5 == "/learn/"@ + id;
    assert forall|id: Seq<char>, d: LearningPath| #![trigger path_entry()(id, d)]
        path_entry()(id, d).len() <= 1 && (path_entry()(id, d).len() == 1 ==> fp(
            id,
            d,
            path_entry()(id, d)[0],
        )) by {
        lemma_truncate_shows(d.summary@);
    }
    lemma_block_fits(c.paths, c.paths.size(), path_entry(), fp);
    c.paths.lemma_ascending();
    assert forall|i: int| 0 <= i < p.len() implies ok(#[trigger] p[i]) by {
        let j = choose|j: int|
            0 <= j < c.paths.size() && #[trigger] fp(c.paths.key_at(j), c.paths.doc_at(j), p[i]);
        lemma_lookup_at(c.paths.entries(), j);
    }

    let fl = |id: Seq<char>, d: Lesson, e: EntryView|
        e.0 == EntryKind::Lesson && e.1 == id && d.lifecycle != Lifecycle::Draft && shows(
            e,
            d.title@,
            d.summary@,
            d.topics@,
        ) && e.5 == "/learn/"@ + id;
    assert forall|id: Seq<char>, d: Lesson| #![trigger lesson_entry()(id, d)]
        lesson_entry()(id, d).len() <= 1 && (lesson_entry()(id, d).len() == 1 ==> fl(
            id,
            d,
            lesson_entry()(id, d)[0],
        )) by {
        lemma_truncate_shows(d.summary@);
    }
    lemma_block_fits(c.lessons, c.lessons.size(), lesson_entry(), fl);
    c.lessons.lemma_ascending();
    assert forall|i: int| 0 <= i < l.len() implies ok(#[trigger] l[i]) by {
        let j = choose|j: int|
            0 <= j < c.lessons.size() && #[trigger] fl(c.lessons.key_at(j), c.lessons.doc_at(j), l[i]);
        lemma_lookup_at(c.lessons.entries(), j);
    }

    let fh = |id: Seq<char>, d: Cheatsheet, e: EntryView|
        e.0 == EntryKind::Cheatsheet && e.1 == id && d.lifecycle != Lifecycle::Draft && shows(
            e,
            d.title@,
            d.summary@,
            d.topics@,
        ) && e.5 == "/cheatsheets/"@ + id;
    assert forall|id: Seq<char>, d: Cheatsheet| #![trigger cheatsheet_entry()(id, d)]
        cheatsheet_entry()(id, d).len() <= 1 && (cheatsheet_entry()(id, d).len() == 1 ==> fh(
            id,
            d,
            cheatsheet_entry()(id, d)[0],
        )) by {
        lemma_truncate_shows(d.summary@);
    }
    lemma_block_fits(c.cheatsheets, c.cheatsheets.size(), cheatsheet_entry(), fh);
    c.cheatsheets.lemma_ascending();
    assert forall|i: int| 0 <= i < h.len() implies ok(#[trigger] h[i]) by {
        let j = choose|j: int|
            0 <= j < c.cheatsheets.size() && #[trigger] fh(
                c.cheatsheets.key_at(j),
                c.cheatsheets.doc_at(j),
                h[i],
            );
        lemma_lookup_at(c.cheatsheets.entries(), j);
    }

    let ft = |id: Seq<char>, d: Trial, e: EntryView|
        e.0 == EntryKind::Trial && e.1 == id && d.lifecycle != Lifecycle::Draft && shows(
            e,
            d.title@,
            d.summary@,
            d.topics@,
        ) && e.5 == "/trials/"@ + id;
    assert forall|id: Seq<char>, d: Trial| #![trigger trial_entry()(id, d)]
        trial_entry()(id, d).len() <= 1 && (trial_entry()(id, d).len() == 1 ==> ft(
            id,
            d,
            trial_entry()(id, d)[0],
        )) by {
        lemma_truncate_shows(d.summary@);
    }
    lemma_block_fits(c.trials, c.trials.size(), trial_entry(), ft);
    c.trials.lemma_ascending();
    assert forall|i: int| 0 <= i < t.len() implies ok(#[trigger] t[i]) by {
        let j = choose|j: int|
            0 <= j < c.trials.size() && #[trigger] ft(c.trials.key_at(j), c.trials.doc_at(j), t[i]);
        lemma_lookup_at(c.trials.entries(), j);
    }

    let fo = |id: Seq<char>, d: OssExample, e: EntryView|
        e.0 == EntryKind::Oss && e.1 == id && shows(
            e,
            d.repository@ + ": "@ + d.caption@,
            d.caption@,
            d.topics@,
        ) && e.5 == spec_permalink(d);
    assert forall|id: Seq<char>, d: OssExample| #![trigger oss_entry()(id, d)]
        oss_entry()(id, d).len() <= 1 && (oss_entry()(id, d).len() == 1 ==> fo(
            id,
            d,
            oss_entry()(id, d)[0],
        )) by {
        lemma_truncate_shows(d.caption@);
    }
    lemma_block_fits(c.oss, c.oss.size(), oss_entry(), fo);
    c.oss.lemma_ascending();
    assert forall|i: int| 0 <= i < o.len() implies ok(#[trigger] o[i]) by {
        let j = choose|j: int|
            0 <= j < c.oss.size() && #[trigger] fo(c.oss.key_at(j), c.oss.doc_at(j), o[i]);
        lemma_lookup_at(c.oss.entries(), j);
    }

    lemma_all_concat(p, l, ok);
    lemma_all_concat(p + l, h, ok);
    lemma_all_concat(p + l + h, t, ok);
    lemma_all_concat(p + l + h + t, o, ok);
    assert(spec_index_entries(c) == p + l + h + t + o);
}

/// Every entry a document contributes has a summary of at most
/// [`MAX_SUMMARY`] characters.
pub open spec fn short_summaries<T>(entry: spec_fn(Seq<char>, T) -> Seq<EntryView>) -> bool {
    forall|id: Seq<char>, d: T, i: int|
        0 <= i < entry(id, d).len() ==> (#[trigger] entry(id, d)[i]).3.len() <= MAX_SUMMARY
}

proof fn lemma_block_summaries<T>(m: DocMap<T>, n: nat, entry: spec_fn(Seq<char>, T) -> Seq<EntryView>)
    requires
        short_summaries(entry),
    ensures
        forall|i: int|
            0 <= i < block_entries(m, n, entry).len() ==> (#[trigger] block_entries(
                m,
                n,
                entry,
            )[i]).3.len() <= MAX_SUMMARY,
    decreases n,
{
    if n > 0 {
        lemma_block_summaries(m, (n - 1) as nat, entry);
        let prev = block_entries(m, (n - 1) as nat, entry);
        let last = entry(m.key_at(n - 1), m.doc_at(n - 1));
        let all = block_entries(m, n, entry);
        assert(all == prev + last);
        assert forall|i: int| 0 <= i < all.len() implies (#[trigger] all[i]).3.len()
            <= MAX_SUMMARY by {
            if i < prev.len() {
                assert(all[i] == prev[i]);
            } else {
                assert(all[i] == last[i - prev.len()]);
            }
        }
    }
}

/// The index stays small: no entry carries a summary longer than
/// [`MAX_SUMMARY`] characters.
pub proof fn lemma_index_summaries_are_short(c: Content)
    ensures
        forall|i: int|
            0 <= i < spec_index_entries(c).len() ==> (#[trigger] spec_index_entries(c)[i]).3.len()
                <= MAX_SUMMARY,
{
    let p = path_entries(c, c.paths.size());
    let l = lesson_entries(c, c.lessons.size());
    let h = cheatsheet_entries(c, c.cheatsheets.size());
    let t = trial_entries(c, c.trials.size());
    let o = oss_entries(c, c.oss.size());
    lemma_block_summaries(c.paths, c.paths.size(), path_entry());
    lemma_block_summaries(c.lessons, c.lessons.size(), lesson_entry());
    lemma_block_summaries(c.cheatsheets, c.cheatsheets.size(), cheatsheet_entry());
    lemma_block_summaries(c.trials, c.trials.size(), trial_entry());
    lemma_block_summaries(c.oss, c.oss.size(), oss_entry());
    let all = spec_index_entries(c);
    assert(all == p + l + h + t + o);
    assert forall|i: int| 0 <= i < all.len() implies (#[trigger] all[i]).3.len() <= MAX_SUMMARY by {
        let a = p.len() as int;
        let b = a + l.len();
        let d = b + h.len();
        let e = d + t.len();
        if i < a {
            assert(all[i] == p[i]);
        } else if i < b {
            assert(all[i] == l[i - a]);
        } else if i < d {
            assert(all[i] == h[i - b]);
        } else if i < e {
            assert(all[i] == t[i - d]);
        } else {
            assert(all[i] == o[i - e]);
        }
    }
}

} // verus!
