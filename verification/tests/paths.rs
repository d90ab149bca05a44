use papers::paper::PaperMeta;
use papers::paths::{
    extension, file_name, is_prohibited_char, join, note_path, parent, prohibited_path_chars,
    strip_prohibited, strip_root, with_extension,
};
use papers::repo::Repo;

#[test]
fn path_strips_every_prohibited_character() {
    assert_eq!(strip_prohibited("/\\?%*:|\"<>."), "");
    assert_eq!(strip_prohibited("a/b\\c?d%e*f:g|h\"i<j>k.l"), "abcdefghijkl");
    assert_eq!(strip_prohibited("plain title"), "plain title");
    assert_eq!(strip_prohibited(""), "");
    assert_eq!(strip_prohibited("Résumé: a “study”"), "Résumé a “study”");
}

#[test]
fn path_prohibited_characters_are_the_eleven() {
    let chars = prohibited_path_chars();
    assert_eq!(chars, vec!['/', '\\', '?', '%', '*', ':', '|', '"', '<', '>', '.']);
    for c in chars {
        assert!(is_prohibited_char(c));
    }
    assert!(!is_prohibited_char('a'));
    assert!(!is_prohibited_char(' '));
    assert!(!is_prohibited_char('-'));
}

#[test]
fn path_stripping_is_idempotent() {
    for title in ["Other/Title:1", "a.b.c", "..", "x", "", "What? Why* <now>"] {
        let once = strip_prohibited(title);
        assert_eq!(strip_prohibited(&once), once);
    }
}

#[test]
fn path_of_a_note_is_the_stripped_title_with_md() {
    assert_eq!(note_path("My Title"), "My Title.md");
    assert_eq!(note_path("Other/Title:1"), "OtherTitle1.md");
    assert_eq!(note_path("v1.2 notes"), "v12 notes.md");
    assert_eq!(note_path(""), ".md");
}

#[test]
fn path_depends_on_the_title_alone() {
    let repo = Repo::load("/srv/papers".to_owned());
    let a = PaperMeta { title: "Same Title".to_owned(), ..Default::default() };
    let b = PaperMeta {
        title: "Same Title".to_owned(),
        url: Some("https://example.org".to_owned()),
        filename: Some("x.pdf".to_owned()),
        created_at: 17,
        modified_at: 99,
        last_review: Some(5),
        next_review: Some(6),
        ..Default::default()
    };
    assert_eq!(repo.get_path(&a), repo.get_path(&b));
    assert_eq!(repo.get_path(&a), "Same Title.md");
}

#[test]
fn path_titles_can_collide() {
    assert_eq!(note_path("A/B"), note_path("AB"));
    assert_eq!(note_path("A.B?"), note_path("A:B"));
}

#[test]
fn path_file_name_and_parent() {
    assert_eq!(file_name("a/b/c.pdf"), "c.pdf");
    assert_eq!(file_name("c.pdf"), "c.pdf");
    assert_eq!(file_name("/abs/x"), "x");
    assert_eq!(file_name("dir/"), "");
    assert_eq!(parent("a/b/c.pdf"), Some("a/b".to_owned()));
    assert_eq!(parent("c.pdf"), None);
    assert_eq!(parent("/x"), Some("".to_owned()));
}

#[test]
fn path_extension_follows_the_last_dot_of_the_name() {
    assert_eq!(extension("a.pdf"), Some("pdf".to_owned()));
    assert_eq!(extension("a.tar.gz"), Some("gz".to_owned()));
    assert_eq!(extension("dir.d/a"), None);
    assert_eq!(extension(".hidden"), None);
    assert_eq!(extension(".hidden.md"), Some("md".to_owned()));
    assert_eq!(extension("a."), Some("".to_owned()));
    assert_eq!(extension(""), None);
    assert_eq!(extension("My Title.md"), Some("md".to_owned()));
}

#[test]
fn path_extension_agrees_with_std() {
    for p in ["a.pdf", "a.tar.gz", "dir.d/a", ".hidden", ".hidden.md", "a.", "x/y/z.txt", "noext"] {
        let std = std::path::Path::new(p).extension().map(|e| e.to_str().unwrap().to_owned());
        assert_eq!(extension(p), std, "for {:?}", p);
    }
}

#[test]
fn path_with_extension_replaces_or_adds() {
    assert_eq!(with_extension("a.pdf", "md"), "a.md");
    assert_eq!(with_extension("a", "md"), "a.md");
    assert_eq!(with_extension("a.tar.gz", "zip"), "a.tar.zip");
    assert_eq!(with_extension("dir/a.b", ""), "dir/a");
    assert_eq!(with_extension(".hidden", "md"), ".hidden.md");
    assert_eq!(with_extension("", "md"), "");
    assert_eq!(with_extension("dir.d/a", "x"), "dir.d/a.x");
}

#[test]
fn path_with_extension_agrees_with_std() {
    for (p, e) in [("a.pdf", "md"), ("a", "md"), ("a.tar.gz", "zip"), ("dir/a.b", ""), (".hidden", "md"), ("dir.d/a", "x")] {
        let std = std::path::Path::new(p).with_extension(e);
        assert_eq!(with_extension(p, e), std.to_str().unwrap(), "for {:?} {:?}", p, e);
    }
}

#[test]
fn path_join_puts_a_separator_between() {
    assert_eq!(join("/root", "a.md"), "/root/a.md");
    assert_eq!(join("/root/", "a.md"), "/root/a.md");
    assert_eq!(join("", "a.md"), "a.md");
    assert_eq!(join("/root", "/abs/a.md"), "/abs/a.md");
    assert_eq!(join("nested", "New Name"), "nested/New Name");
}

#[test]
fn path_strip_root_needs_a_whole_component() {
    assert_eq!(strip_root("/srv/papers", "/srv/papers/a.pdf"), Some("a.pdf".to_owned()));
    assert_eq!(strip_root("/srv/papers", "/srv/papers/n/a.pdf"), Some("n/a.pdf".to_owned()));
    assert_eq!(strip_root("/srv/papers", "/srv/papers2/a.pdf"), None);
    assert_eq!(strip_root("/srv/papers", "/srv/neighbour/a.pdf"), None);
    assert_eq!(strip_root("/srv/papers", "/srv/papers"), None);
    assert_eq!(strip_root("/srv/papers", "/srv/papers/"), None);
    assert_eq!(strip_root("/", "/a.pdf"), Some("a.pdf".to_owned()));
    assert_eq!(strip_root("/srv/papers/", "/srv/papers/a.pdf"), Some("a.pdf".to_owned()));
}

#[test]
fn path_stripping_agrees_with_std() {
    let prohibited: &[char] = &['/', '\\', '?', '%', '*', ':', '|', '"', '<', '>', '.'];
    for title in ["MLT: my |long<> title\" with/ spaces and * more?", "a.b", "", "é/ü", "50% off: now"] {
        assert_eq!(strip_prohibited(title), title.replace(prohibited, ""));
    }
}
