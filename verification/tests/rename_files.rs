use papers::paper::PaperMeta;
use papers::rename_files::{
    decide, document_target, new_name, note_target, plan_document, target_with, Move, RenameError,
    Strategy,
};

fn check(strategy: Strategy, paper: PaperMeta, expected: &str) {
    let renamed = strategy.rename(&paper).unwrap();
    assert_eq!(renamed, expected);
}

#[test]
fn test_with_spaces() {
    check(
        Strategy::Title,
        PaperMeta { title: "my long title with spaces".to_owned(), ..Default::default() },
        "my long title with spaces",
    );
}

#[test]
fn test_strips_unc() {
    check(
        Strategy::Title,
        PaperMeta {
            title: "MLT: my |long<> title\" with/ spaces and * more?".to_owned(),
            ..Default::default()
        },
        "MLT my long title with spaces and  more",
    );
}

fn titled(title: &str) -> PaperMeta {
    PaperMeta { title: title.to_owned(), ..Default::default() }
}

#[test]
fn rename_needs_something_left_of_the_title() {
    assert_eq!(Strategy::Title.rename(&titled("")), Err(RenameError::MissingTitle));
    assert_eq!(Strategy::Title.rename(&titled("..//??")), Err(RenameError::MissingTitle));
    assert_eq!(new_name(&vec![Strategy::Title], &titled("?")), None);
    assert_eq!(new_name(&vec![], &titled("A")), None);
    assert_eq!(new_name(&vec![Strategy::Title, Strategy::Title], &titled("A: B")), Some("A B".to_owned()));
}

#[test]
fn rename_target_keeps_directory_and_extension() {
    assert_eq!(target_with("old.pdf", "New Name", None), "New Name.pdf");
    assert_eq!(target_with("nested/old.pdf", "New Name", None), "nested/New Name.pdf");
    assert_eq!(target_with("a/b/old", "New", None), "a/b/New");
    assert_eq!(target_with("old.tar.gz", "New", None), "New.gz");
    assert_eq!(target_with(".hidden", "New", None), "New");
}

#[test]
fn rename_target_prefers_the_sniffed_extension() {
    assert_eq!(target_with("old.txt", "New", Some("pdf")), "New.pdf");
    assert_eq!(target_with("nested/old", "New", Some("png")), "nested/New.png");
}

#[test]
fn rename_sniffs_the_content() {
    let pdf = b"%PDF-1.4\n%\xe2\xe3\xcf\xd3\n1 0 obj\n";
    assert_eq!(document_target("old.txt", "New", Some(&pdf[..])), "New.pdf");
    let png = [0x89u8, 0x50, 0x4e, 0x47, 0x0d, 0x0a, 0x1a, 0x0a, 0, 0, 0, 0];
    assert_eq!(document_target("old.txt", "New", Some(&png[..])), "New.png");
    let text = b"test pdf\n";
    assert_eq!(document_target("file1.pdf", "New", Some(&text[..])), "New.pdf");
    assert_eq!(document_target("file1.txt", "New", Some(&text[..])), "New.txt");
    assert_eq!(document_target("file1.txt", "New", None), "New.txt");
}

#[test]
fn rename_plans_only_documents_that_exist() {
    let mut paper = titled("T");
    assert_eq!(plan_document(&paper, "T", true, None), None);
    paper.filename = Some("nested/old.pdf".to_owned());
    assert_eq!(plan_document(&paper, "T", false, None), None);
    assert_eq!(plan_document(&paper, "T", true, None), Some("nested/T.pdf".to_owned()));
    let png = [0x89u8, 0x50, 0x4e, 0x47, 0x0d, 0x0a, 0x1a, 0x0a, 0, 0, 0, 0];
    assert_eq!(plan_document(&paper, "T", true, Some(&png[..])), Some("nested/T.png".to_owned()));
}

#[test]
fn rename_looks_at_the_first_bytes_only() {
    let mut tar = vec![0u8; 20_000];
    tar[257..262].copy_from_slice(b"ustar");
    let mut pdf = b"%PDF-1.7\n".to_vec();
    pdf.resize(10_000, b' ');
    let zeros = vec![0u8; 9_000];
    for long in [&tar, &pdf, &zeros] {
        assert_eq!(
            document_target("old.bin", "New", Some(&long[..])),
            document_target("old.bin", "New", Some(&long[..8192]))
        );
    }
    assert_eq!(document_target("old.bin", "New", Some(&tar[..])), "New.tar");
    assert_eq!(document_target("old.bin", "New", Some(&zeros[..])), "New.bin");
}

#[test]
fn rename_of_a_nested_document_settles() {
    // The document moves within its directory; the paper then names the bare file name.
    let target = target_with("nested/old.pdf", "Title", None);
    assert_eq!(target, "nested/Title.pdf");
    assert_eq!(decide("nested/old.pdf", &target, false), Move::Go);
    let mut paper = titled("Title");
    paper.filename = Some(papers::paths::file_name(&target));
    assert_eq!(paper.filename, Some("Title.pdf".to_owned()));
    // Nothing stands at that name in the root, so the second pass plans nothing.
    assert_eq!(plan_document(&paper, "Title", false, None), None);
}

#[test]
fn rename_note_target_is_the_name_with_md() {
    assert_eq!(note_target("My Title"), "My Title.md");
}

#[test]
fn rename_decides_each_move() {
    assert_eq!(decide("a.pdf", "a.pdf", true), Move::InPlace);
    assert_eq!(decide("a.pdf", "a.pdf", false), Move::InPlace);
    assert_eq!(decide("a.pdf", "b.pdf", true), Move::Blocked);
    assert_eq!(decide("a.pdf", "b.pdf", false), Move::Go);
}

#[test]
fn rename_twice_moves_nothing_the_second_time() {
    let paper = titled("Attention: Is All/You Need");
    let name = new_name(&vec![Strategy::Title], &paper).unwrap();
    let pdf = b"%PDF-1.7\n";
    // First pass: the document and the note are moved.
    let target = document_target("download.bin", &name, Some(&pdf[..]));
    assert_eq!(target, "Attention Is AllYou Need.pdf");
    assert_eq!(decide("download.bin", &target, false), Move::Go);
    let note = note_target(&name);
    assert_eq!(decide("old note.md", &note, false), Move::Go);
    // Second pass: both stand where they should.
    let again = document_target(&target, &name, Some(&pdf[..]));
    assert_eq!(again, target);
    assert_eq!(decide(&target, &again, true), Move::InPlace);
    assert_eq!(decide(&note, &note_target(&name), true), Move::InPlace);
}
