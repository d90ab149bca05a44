use papers::author::Author;
use papers::filter::Filter;
use papers::label::{Label, LabelMap};
use papers::paper::{LoadedPaper, PaperMeta};
use papers::repo::Repo;
use papers::sort::{sort_papers, stable_order, SortBy};
use papers::tag::{Tag, TagSet};

fn paper(title: &str, file: Option<&str>, authors: &[&str], tags: &[&str], labels: &[&str]) -> LoadedPaper {
    let mut map = LabelMap::new();
    for l in labels {
        map.insert(Label::from_str(l).unwrap());
    }
    LoadedPaper {
        path: format!("{}.md", title),
        meta: PaperMeta {
            title: title.to_owned(),
            filename: file.map(|f| f.to_owned()),
            authors: authors.iter().map(|a| Author::new(a)).collect(),
            tags: TagSet::from_vec(tags.iter().map(|t| Tag::new(t)).collect()),
            labels: map,
            ..Default::default()
        },
        notes: String::new(),
    }
}

fn shelf() -> Vec<LoadedPaper> {
    vec![
        paper("Attention Is All You Need", Some("attention.pdf"), &["Vaswani", "Shazeer"], &["A", "B", "nlp"], &["year=2017"]),
        paper("Deep Residual Learning", Some("ResNet.PDF"), &["He"], &["A", "vision"], &["year=2015", "read=true"]),
        paper("On Computable Numbers", None, &["Turing"], &["B"], &[]),
        paper("Notes on attention", None, &[], &["A", "B"], &["year=2017"]),
    ]
}

fn titles(papers: &[LoadedPaper]) -> Vec<&str> {
    papers.iter().map(|p| p.meta.title.as_str()).collect()
}

fn list(file: Option<&str>, title: Option<&str>, authors: &[&str], tags: &[&str], labels: &[&str]) -> Vec<LoadedPaper> {
    Repo::load("/srv/papers".to_owned()).list(
        shelf(),
        file.map(|s| s.to_owned()),
        title.map(|s| s.to_owned()),
        authors.iter().map(|a| Author::new(a)).collect(),
        tags.iter().map(|t| Tag::new(t)).collect(),
        labels.iter().map(|l| Label::from_str(l).unwrap()).collect(),
    )
}

#[test]
fn filter_without_demands_returns_all() {
    assert_eq!(list(None, None, &[], &[], &[]), shelf());
    assert_eq!(Filter::new().apply(shelf()), shelf());
}

#[test]
fn filter_tags_select_supersets() {
    assert_eq!(
        titles(&list(None, None, &[], &["A", "B"], &[])),
        vec!["Attention Is All You Need", "Notes on attention"]
    );
    assert_eq!(
        titles(&list(None, None, &[], &["A"], &[])),
        vec!["Attention Is All You Need", "Deep Residual Learning", "Notes on attention"]
    );
    assert_eq!(titles(&list(None, None, &[], &["A", "B", "vision"], &[])), Vec::<&str>::new());
    assert_eq!(titles(&list(None, None, &[], &["B", "A", "A"], &[])), titles(&list(None, None, &[], &["A", "B"], &[])));
}

#[test]
fn filter_title_matches_in_any_case() {
    assert_eq!(
        titles(&list(None, Some("ATTENTION"), &[], &[], &[])),
        vec!["Attention Is All You Need", "Notes on attention"]
    );
    assert_eq!(titles(&list(None, Some("numbers"), &[], &[], &[])), vec!["On Computable Numbers"]);
    assert_eq!(titles(&list(None, Some("quantum"), &[], &[], &[])), Vec::<&str>::new());
    assert_eq!(list(None, Some(""), &[], &[], &[]), shelf());
}

#[test]
fn filter_file_needs_a_document() {
    assert_eq!(titles(&list(Some("resnet"), None, &[], &[], &[])), vec!["Deep Residual Learning"]);
    assert_eq!(
        titles(&list(Some(".pdf"), None, &[], &[], &[])),
        vec!["Attention Is All You Need", "Deep Residual Learning"]
    );
    assert_eq!(
        titles(&list(Some(""), None, &[], &[], &[])),
        vec!["Attention Is All You Need", "Deep Residual Learning"]
    );
}

#[test]
fn filter_authors_and_labels_must_all_be_there() {
    assert_eq!(titles(&list(None, None, &["Vaswani", "Shazeer"], &[], &[])), vec!["Attention Is All You Need"]);
    assert_eq!(titles(&list(None, None, &["Vaswani", "He"], &[], &[])), Vec::<&str>::new());
    assert_eq!(
        titles(&list(None, None, &[], &[], &["year=2017"])),
        vec!["Attention Is All You Need", "Notes on attention"]
    );
    assert_eq!(titles(&list(None, None, &[], &[], &["year=2015", "read=true"])), vec!["Deep Residual Learning"]);
    assert_eq!(titles(&list(None, None, &[], &[], &["read=false"])), Vec::<&str>::new());
}

#[test]
fn filter_demands_are_joined_by_and() {
    assert_eq!(
        titles(&list(None, Some("attention"), &[], &["nlp"], &["year=2017"])),
        vec!["Attention Is All You Need"]
    );
    assert_eq!(titles(&list(Some("pdf"), Some("attention"), &["He"], &[], &[])), Vec::<&str>::new());
    let f = Filter { title: Some("deep".to_owned()), tags: vec![Tag::new("A")], ..Filter::new() };
    assert!(f.matches(&shelf()[1].meta));
    assert!(!f.matches(&shelf()[0].meta));
    assert!(Filter::text_matches("Straße", "STRASSE") == "straße".contains(&"STRASSE".to_lowercase()));
}

#[test]
fn sort_is_stable() {
    assert_eq!(stable_order(&vec![3i64, 1, 2, 1, 3, 0]), vec![5, 1, 3, 2, 0, 4]);
    assert_eq!(stable_order(&Vec::<i64>::new()), Vec::<usize>::new());
    assert_eq!(stable_order(&vec!["b".to_owned(), "a".to_owned(), "b".to_owned(), "".to_owned()]), vec![3, 1, 0, 2]);
    assert_eq!(stable_order(&vec![2usize, 2, 2]), vec![0, 1, 2]);
}

#[test]
fn sort_papers_by_each_field() {
    let mut papers = shelf();
    papers[0].meta.created_at = 30;
    papers[1].meta.created_at = 10;
    papers[2].meta.created_at = 30;
    papers[3].meta.created_at = 20;
    papers[0].meta.modified_at = 1;
    papers[1].meta.modified_at = 4;
    papers[2].meta.modified_at = 3;
    papers[3].meta.modified_at = 2;
    let (by_title, order) = sort_papers(&papers, SortBy::Title);
    assert_eq!(
        titles(&by_title),
        vec!["Attention Is All You Need", "Deep Residual Learning", "Notes on attention", "On Computable Numbers"]
    );
    assert_eq!(order, vec![0, 1, 3, 2]);
    let (by_created, order) = sort_papers(&papers, SortBy::CreatedAt);
    assert_eq!(order, vec![1, 3, 0, 2]);
    assert_eq!(by_created[0], papers[1]);
    let (_, order) = sort_papers(&papers, SortBy::ModifiedAt);
    assert_eq!(order, vec![0, 3, 2, 1]);
    assert_eq!(SortBy::default(), SortBy::Title);
}
