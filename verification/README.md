# rustly-content

Validation and build tooling for the Rustly content repository, with the
logic verified by Verus.

- `src/` is the verified library:
  - `model` — the content types (learning paths, lessons, quizzes,
    cheatsheets, OSS examples, Trials) and the OSS permalink;
  - `docmap` — the identifier-keyed maps that hold loaded documents in key
    order;
  - `validate` — loading the parsed documents and the referential checks
    (format versions, identifiers, references, quizzes, OSS attribution,
    Trials, files that documents name), each stating exactly which findings
    it reports;
  - `index` — the static search index, with proofs that it lists exactly the
    published documents, in kind-then-id order, with short summaries, and
    that drafts cannot change it;
  - `judge` — deciding whether a compiled example or a reference solution
    behaves as declared, and building judge packages (public-only packages
    provably hold no hidden test and do not depend on the hidden tests);
  - `text` — character classes, trimming, decimal numbers and the other
    string helpers the rest is stated with.
- `app/` is the command-line tool: walking the repository, JSON parsing and
  writing, JSON Schema generation, running `rustc` and the programs it builds.
- `tests/` exercises the library on concrete content.
