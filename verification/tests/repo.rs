use papers::author::Author;
use papers::label::{Label, LabelMap};
use papers::note::{render_note, split_note, NoteParts};
use papers::paper::{LoadedPaper, PaperMeta};
use papers::repo::{NoteSource, Repo, RepoError};
use papers::tag::{Tag, TagSet};

fn repo() -> Repo {
    Repo::load("/srv/papers".to_owned())
}

fn add_titled(repo: &Repo, title: &str, taken: bool) -> Result<PaperMeta, RepoError> {
    repo.add(None, None, title.to_owned(), vec![], TagSet::new(), LabelMap::new(), 1000, taken)
}

#[test]
fn repo_knows_its_root() {
    assert_eq!(repo().root(), "/srv/papers");
    assert_eq!(repo().locate("a.md"), "/srv/papers/a.md");
    assert_eq!(repo().locate("/elsewhere/a.md"), "/elsewhere/a.md");
}

#[test]
fn repo_add_creates_a_fresh_paper() {
    let repo = repo();
    let mut tags = TagSet::new();
    tags.insert(Tag::new("ml"));
    let mut labels = LabelMap::new();
    labels.insert(Label::from_str("year=2020").unwrap());
    let paper = repo
        .add(
            Some("/srv/papers/nested/file1.pdf"),
            Some("https://example.org/file1.pdf".to_owned()),
            "My Title".to_owned(),
            vec![Author::new("Ada"), Author::new("Alan")],
            tags.clone(),
            labels.clone(),
            1234,
            false,
        )
        .unwrap();
    assert_eq!(paper.title, "My Title");
    assert_eq!(paper.url, Some("https://example.org/file1.pdf".to_owned()));
    assert_eq!(paper.filename, Some("nested/file1.pdf".to_owned()));
    assert_eq!(paper.tags, tags);
    assert_eq!(paper.labels, labels);
    assert_eq!(paper.authors, vec![Author::new("Ada"), Author::new("Alan")]);
    assert_eq!(paper.created_at, 1234);
    assert_eq!(paper.modified_at, 1234);
    assert_eq!(paper.last_review, None);
    assert_eq!(paper.next_review, None);
}

#[test]
fn repo_scenario_add_my_title() {
    let repo = repo();
    // A paper without a file: the note goes to `My Title.md`, and no document is set.
    let first = add_titled(&repo, "My Title", false).unwrap();
    assert_eq!(repo.get_path(&first), "My Title.md");
    assert_eq!(first.filename, None);
    // The note now exists, so a second paper of that title is refused.
    assert_eq!(add_titled(&repo, "My Title", true), Err(RepoError::AlreadyExists));
    // Prohibited characters are stripped, and the extension is not doubled.
    let other = add_titled(&repo, "Other/Title:1", false).unwrap();
    assert_eq!(repo.get_path(&other), "OtherTitle1.md");
}

#[test]
fn repo_add_twice_collides_on_the_derived_path() {
    let repo = repo();
    let first = add_titled(&repo, "A/B", false).unwrap();
    let second_title = "AB";
    let probe = PaperMeta { title: second_title.to_owned(), ..Default::default() };
    // Both titles derive one path, so the note of the first is in the way of the second.
    assert_eq!(repo.get_path(&first), repo.get_path(&probe));
    assert_eq!(add_titled(&repo, second_title, true), Err(RepoError::AlreadyExists));
}

#[test]
fn repo_add_refuses_a_title_that_names_nothing() {
    let repo = repo();
    for title in ["", ":/.", "..", "?*<>|\"%\\"] {
        assert_eq!(add_titled(&repo, title, false), Err(RepoError::InvalidTitle), "for {:?}", title);
        assert_eq!(add_titled(&repo, title, true), Err(RepoError::InvalidTitle), "for {:?}", title);
        let paper = PaperMeta { title: title.to_owned(), ..Default::default() };
        assert_eq!(repo.import(paper, 5), Err(RepoError::InvalidTitle), "for {:?}", title);
    }
    // The document is looked at first, the note last.
    let outside = repo.add(
        Some("/elsewhere/a.pdf"),
        None,
        "".to_owned(),
        vec![],
        TagSet::new(),
        LabelMap::new(),
        1,
        false,
    );
    assert_eq!(outside, Err(RepoError::OutsideRoot));
    assert!(add_titled(&repo, " ", false).is_ok());
    assert!(add_titled(&repo, "a.", false).is_ok());
}

#[test]
fn repo_add_refuses_a_document_outside_the_root() {
    let repo = repo();
    let r = repo.add(
        Some("/srv/neighbour/file1.pdf"),
        None,
        "T".to_owned(),
        vec![],
        TagSet::new(),
        LabelMap::new(),
        1,
        false,
    );
    assert_eq!(r, Err(RepoError::OutsideRoot));
    // The document is looked at before the note.
    let r = repo.add(
        Some("/srv/papers2/file1.pdf"),
        None,
        "T".to_owned(),
        vec![],
        TagSet::new(),
        LabelMap::new(),
        1,
        true,
    );
    assert_eq!(r, Err(RepoError::OutsideRoot));
    assert_eq!(repo.document_path("/srv/papers/a.pdf"), Ok("a.pdf".to_owned()));
    assert_eq!(repo.document_path("/etc/passwd"), Err(RepoError::OutsideRoot));
}

#[test]
fn repo_write_stamps_the_time_of_modification() {
    let repo = repo();
    let paper = PaperMeta {
        title: "T".to_owned(),
        created_at: 10,
        modified_at: 20,
        last_review: Some(1),
        next_review: Some(2),
        ..Default::default()
    };
    let draft = repo.write_paper("T.md", paper.clone(), "some notes", 30);
    assert_eq!(draft.target, "/srv/papers/T.md");
    assert_eq!(draft.notes, "some notes");
    assert_eq!(draft.meta.modified_at, 30);
    assert!(draft.meta.modified_at >= paper.modified_at);
    assert_eq!(draft.meta, PaperMeta { modified_at: 30, ..paper });
    assert_eq!(draft.render("title: T\n"), "---\ntitle: T\n---\nsome notes");
}

#[test]
fn repo_import_keeps_the_time_of_creation() {
    let repo = repo();
    let paper = PaperMeta { title: "Old: One".to_owned(), created_at: 5, modified_at: 6, ..Default::default() };
    let draft = repo.import(paper, 100).unwrap();
    assert_eq!(draft.target, "/srv/papers/Old One.md");
    assert_eq!(draft.meta.created_at, 5);
    assert_eq!(draft.meta.modified_at, 100);
    assert_eq!(draft.notes, "");
}

#[test]
fn repo_update_points_at_the_file_name() {
    let repo = repo();
    let current = LoadedPaper {
        path: "T.md".to_owned(),
        meta: PaperMeta { title: "T".to_owned(), filename: Some("old.pdf".to_owned()), ..Default::default() },
        notes: "kept".to_owned(),
    };
    let draft = repo.update(current.clone(), Some("/srv/papers/nested/new.pdf"), 50).unwrap();
    assert_eq!(draft.target, "/srv/papers/T.md");
    assert_eq!(draft.meta.filename, Some("new.pdf".to_owned()));
    assert_eq!(draft.meta.modified_at, 50);
    assert_eq!(draft.notes, "kept");
    let draft = repo.update(current.clone(), None, 50).unwrap();
    assert_eq!(draft.meta.filename, None);
    assert_eq!(repo.update(current, Some("/tmp/new.pdf"), 50), Err(RepoError::OutsideRoot));
}

#[test]
fn repo_notes_are_files_with_md() {
    assert!(Repo::is_note("My Title.md"));
    assert!(Repo::is_note("/srv/papers/a.md"));
    assert!(!Repo::is_note("file1.pdf"));
    assert!(!Repo::is_note("md"));
    assert!(!Repo::is_note(".md"));
    assert!(!Repo::is_note("a.MD"));
    assert!(!Repo::is_note("a.md.bak"));
}

#[test]
fn note_is_framed_by_fences() {
    assert_eq!(render_note("title: T\n", "notes"), "---\ntitle: T\n---\nnotes");
    assert_eq!(render_note("", ""), "---\n---\n");
    assert_eq!(render_note("a: 1\nb: 2\n", "line 1\nline 2\n"), "---\na: 1\nb: 2\n---\nline 1\nline 2\n");
}

#[test]
fn note_splits_into_front_matter_and_notes() {
    let parts = split_note("---\ntitle: T\ntags: []\n---\nsome notes\nmore").unwrap();
    assert_eq!(parts.front_matter, "title: T\ntags: []");
    assert_eq!(parts.notes, "some notes\nmore");
    let parts = split_note("---\ntitle: T\n---\n").unwrap();
    assert_eq!(parts.notes, "");
}

#[test]
fn note_without_front_matter_is_refused() {
    assert_eq!(split_note("just some text"), None);
    assert_eq!(split_note(""), None);
    assert_eq!(split_note("---\n---\nnotes"), None);
    assert_eq!(split_note("title: T\n---\nnotes"), None);
}

#[test]
fn note_round_trips_through_the_frame() {
    for notes in ["", "one line", "two\nlines", "# Heading\n\ntext with --- inside"] {
        let text = render_note("title: T\nurl: null\n", notes);
        let parts = split_note(&text).unwrap();
        assert_eq!(parts, NoteParts { front_matter: "title: T\nurl: null".to_owned(), notes: notes.to_owned() });
    }
}

#[test]
fn repo_get_paper_takes_a_note_apart() {
    let repo = repo();
    let text = "---\ntitle: Bar\n---\nnotes";
    let source = repo.get_paper("foo.md", text).unwrap();
    assert_eq!(
        source,
        NoteSource { path: "foo.md".to_owned(), front_matter: "title: Bar".to_owned(), notes: "notes".to_owned() }
    );
    let source = repo.get_paper("/srv/papers/foo.md", text).unwrap();
    assert_eq!(source.path, "foo.md");
    let loaded = source.load(PaperMeta { title: "Bar".to_owned(), ..Default::default() });
    assert_eq!(loaded.path, "foo.md");
    assert_eq!(loaded.meta.title, "Bar");
    assert_eq!(loaded.notes, "notes");
}

#[test]
fn repo_get_paper_reports_what_is_wrong() {
    let repo = repo();
    assert_eq!(repo.get_paper("foo.md", "no front matter here"), Err(RepoError::NoFrontMatter));
    assert_eq!(repo.get_paper("/elsewhere/foo.md", "---\ntitle: Bar\n---\n"), Err(RepoError::OutsideRoot));
    assert_eq!(repo.get_paper("/elsewhere/foo.md", "nothing"), Err(RepoError::NoFrontMatter));
}

#[test]
fn repo_all_papers_skips_what_cannot_be_read() {
    let repo = repo();
    let a = LoadedPaper { path: "a.md".to_owned(), meta: PaperMeta::default(), notes: "".to_owned() };
    let b = LoadedPaper { path: "b.md".to_owned(), meta: PaperMeta::default(), notes: "".to_owned() };
    let read = vec![
        Ok(a.clone()),
        Err(RepoError::NoFrontMatter),
        Err(RepoError::MalformedFrontMatter),
        Ok(b.clone()),
        Err(RepoError::Io),
    ];
    assert_eq!(repo.all_papers(read), vec![a, b]);
    assert_eq!(repo.all_papers(vec![]), vec![]);
}

#[test]
fn repo_scan_tells_what_was_skipped() {
    let repo = repo();
    let a = LoadedPaper { path: "a.md".to_owned(), meta: PaperMeta::default(), notes: "".to_owned() };
    let b = LoadedPaper { path: "b.md".to_owned(), meta: PaperMeta::default(), notes: "".to_owned() };
    let scan = repo.scan(vec![
        ("a.md".to_owned(), Ok(a.clone())),
        ("broken.md".to_owned(), Err(RepoError::NoFrontMatter)),
        ("b.md".to_owned(), Ok(b.clone())),
        ("odd.md".to_owned(), Err(RepoError::MalformedFrontMatter)),
    ]);
    assert_eq!(scan.papers, vec![a, b]);
    assert_eq!(
        scan.skipped,
        vec![
            ("broken.md".to_owned(), RepoError::NoFrontMatter),
            ("odd.md".to_owned(), RepoError::MalformedFrontMatter),
        ]
    );
    let empty = repo.scan(vec![]);
    assert!(empty.papers.is_empty() && empty.skipped.is_empty());
}

#[test]
fn repo_source_needs_front_matter() {
    let repo = repo();
    let parts = NoteParts { front_matter: "title: T".to_owned(), notes: "n".to_owned() };
    let source = repo.source("sub/T.md", Some(parts.clone())).unwrap();
    assert_eq!(source.path, "sub/T.md");
    assert_eq!(source.front_matter, "title: T");
    assert_eq!(source.notes, "n");
    assert_eq!(repo.source("T.md", None), Err(RepoError::NoFrontMatter));
    assert_eq!(repo.source("/other/T.md", Some(parts)), Err(RepoError::OutsideRoot));
}

#[test]
fn repo_errors_have_words() {
    assert_eq!(RepoError::OutsideRoot.message(), "File does not live in the root");
    assert_eq!(RepoError::AlreadyExists.message(), "Paper entry already exists");
    assert_eq!(RepoError::InvalidTitle.message(), "Title holds nothing to name a file after");
    assert_eq!(RepoError::NoFrontMatter.message(), "No content for file! Is there any frontmatter?");
    for e in [RepoError::Io, RepoError::MalformedFrontMatter, RepoError::NotFound] {
        assert!(!e.message().is_empty());
    }
}

#[test]
fn repo_written_notes_read_back() {
    let repo = repo();
    let paper = PaperMeta { title: "Round: Trip".to_owned(), created_at: 5, ..Default::default() };
    let notes = "# Notes\n\n- first\n- second";
    let draft = repo.write_paper("Round Trip.md", paper.clone(), notes, 99);
    // The front matter, written by a YAML serialiser.
    let mut front = serde_yaml::Mapping::new();
    front.insert("title".into(), draft.meta.title.clone().into());
    front.insert("url".into(), serde_yaml::Value::Null);
    front.insert("tags".into(), serde_yaml::Value::Sequence(vec![]));
    front.insert("created_at".into(), "1970-01-01T00:00:05".into());
    front.insert("modified_at".into(), "1970-01-01T00:01:39".into());
    let yaml = serde_yaml::to_string(&front).unwrap();
    let text = draft.render(&yaml);
    assert!(text.starts_with("---\ntitle: 'Round: Trip'\n"));
    // Reading it back gives the same front matter and the same notes.
    let source = repo.get_paper(&draft.target, &text).unwrap();
    assert_eq!(source.path, "Round Trip.md");
    assert_eq!(source.notes, notes);
    let read: serde_yaml::Mapping = serde_yaml::from_str(&source.front_matter).unwrap();
    assert_eq!(read, front);
    let loaded = source.load(draft.meta.clone());
    assert_eq!(loaded.meta, PaperMeta { modified_at: 99, ..paper });
    assert!(loaded.meta.modified_at >= loaded.meta.created_at);
}

#[test]
fn repo_notes_lose_line_breaks_at_their_ends() {
    // What reads the note back drops empty lines before the notes and the
    // line break after the last line.
    let text = render_note("title: T\n", "\n\nfirst\nlast\n");
    assert_eq!(split_note(&text).unwrap().notes, "first\nlast");
}
