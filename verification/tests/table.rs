use papers::author::Author;
use papers::cli::{
    author_texts, count_all, fuzzy_text, label_texts, labels_map, reviewable_papers, tag_texts,
    OutputStyle,
};
use papers::label::{Label, LabelMap};
use papers::paper::{LoadedPaper, PaperMeta};
use papers::table::{
    display_author_vector, display_duration, display_label_vector, display_optional_string,
    display_tag_vector, Table, TableCount, TablePaper,
};
use papers::tag::{Tag, TagSet};

fn sample() -> PaperMeta {
    let mut labels = LabelMap::new();
    labels.insert(Label::from_str("year=2017").unwrap());
    labels.insert(Label::from_str("read=true").unwrap());
    PaperMeta {
        title: "Attention".to_owned(),
        url: Some("https://example.org/a.pdf".to_owned()),
        filename: Some("a.pdf".to_owned()),
        tags: TagSet::from_vec(vec![Tag::new("nlp"), Tag::new("ml")]),
        labels,
        authors: vec![Author::new("Vaswani"), Author::new("Shazeer")],
        created_at: 1000,
        modified_at: 2000,
        last_review: None,
        next_review: None,
    }
}

#[test]
fn table_duration_uses_the_largest_whole_unit() {
    assert_eq!(display_duration(0), "0s");
    assert_eq!(display_duration(59), "59s");
    assert_eq!(display_duration(60), "1m");
    assert_eq!(display_duration(3599), "59m");
    assert_eq!(display_duration(3600), "1h");
    assert_eq!(display_duration(86_399), "23h");
    assert_eq!(display_duration(86_400), "1d");
    assert_eq!(display_duration(200 * 86_400 + 5), "200d");
    assert_eq!(display_duration(u64::MAX), "213503982334601d");
}

#[test]
fn table_lists_are_joined() {
    let p = sample();
    assert_eq!(display_author_vector(&p.authors), "Vaswani, Shazeer");
    assert_eq!(display_tag_vector(&p.tags), "ml, nlp");
    assert_eq!(display_label_vector(&p.labels), "read=true, year=2017");
    assert_eq!(display_author_vector(&vec![]), "");
    assert_eq!(display_optional_string(&Some("x".to_owned())), "x");
    assert_eq!(display_optional_string(&None), "");
}

#[test]
fn table_paper_has_an_age() {
    let p = sample();
    let row = TablePaper::from_paper(p.clone(), 1000 + 3 * 3600 + 7);
    assert_eq!(row.age, 3 * 3600 + 7);
    assert_eq!(row.title, p.title);
    assert_eq!(row.url, p.url);
    assert_eq!(row.filename, p.filename);
    assert_eq!(row.tags, p.tags);
    assert_eq!(row.labels, p.labels);
    assert_eq!(row.authors, p.authors);
    assert_eq!(row.to_row(), vec!["Attention", "Vaswani, Shazeer", "ml, nlp", "read=true, year=2017", "3h"]);
    // A paper from the future is as old as it is early.
    assert_eq!(TablePaper::from_paper(p.clone(), 400).age, 600);
    let far = PaperMeta { created_at: i64::MIN, ..p };
    assert_eq!(TablePaper::from_paper(far, i64::MAX).age, u64::MAX);
}

#[test]
fn table_has_a_row_for_each_paper() {
    let table = Table::from(vec![sample(), PaperMeta { title: "Other".to_owned(), created_at: 990, ..Default::default() }], 1000);
    assert_eq!(Table::header(), vec!["title", "authors", "tags", "labels", "age"]);
    assert_eq!(
        table.rows(),
        vec![
            vec!["Attention", "Vaswani, Shazeer", "ml, nlp", "read=true, year=2017", "0s"],
            vec!["Other", "", "", "", "10s"],
        ]
    );
}

fn pairs(rows: &[(String, String)]) -> Vec<(&str, &str)> {
    rows.iter().map(|(k, c)| (k.as_str(), c.as_str())).collect()
}

#[test]
fn table_count_counts_each_key() {
    let mut counts = TableCount::default();
    for key in ["ml", "nlp", "ml", "vision", "ml", "nlp"] {
        counts = counts.add(key.to_owned());
    }
    assert_eq!(TableCount::header(), vec!["key", "count"]);
    let (rows, order) = counts.rows();
    assert_eq!(pairs(&rows), vec![("ml", "3"), ("nlp", "2"), ("vision", "1")]);
    assert_eq!(order, vec![0, 1, 2]);
    counts.sort_by_count();
    let (rows, order) = counts.rows();
    assert_eq!(pairs(&rows), vec![("vision", "1"), ("nlp", "2"), ("ml", "3")]);
    assert_eq!(order, vec![2, 1, 0]);
}

#[test]
fn table_count_keeps_level_keys_in_order() {
    let mut counts = TableCount::new();
    for key in ["d", "b", "a", "c", "b", "d"] {
        counts = counts.add(key.to_owned());
    }
    counts.sort_by_count();
    assert_eq!(pairs(&counts.rows().0), vec![("a", "1"), ("c", "1"), ("b", "2"), ("d", "2")]);
    assert_eq!(TableCount::new().rows().0, vec![]);
}

#[test]
fn cli_counts_tags_labels_and_authors() {
    let p = sample();
    assert_eq!(tag_texts(&p), vec!["ml", "nlp"]);
    assert_eq!(label_texts(&p), vec!["read=true", "year=2017"]);
    assert_eq!(author_texts(&p), vec!["Vaswani", "Shazeer"]);
    let counts = count_all(TableCount::default(), &tag_texts(&p));
    let counts = count_all(counts, &vec!["ml".to_owned()]);
    assert_eq!(pairs(&counts.rows().0), vec![("ml", "2"), ("nlp", "1")]);
}

#[test]
fn cli_labels_are_filed_by_key() {
    let labels = vec![
        Label::from_str("b=1").unwrap(),
        Label::from_str("a=2").unwrap(),
        Label::from_str("b=3").unwrap(),
    ];
    let map = labels_map(&labels);
    assert_eq!(display_label_vector(&map), "a=2, b=3");
    assert_eq!(labels_map(&vec![]).len(), 0);
}

#[test]
fn cli_review_picks_the_papers_that_are_due() {
    let mk = |title: &str, next: Option<i64>| LoadedPaper {
        path: format!("{}.md", title),
        meta: PaperMeta { title: title.to_owned(), next_review: next, ..Default::default() },
        notes: String::new(),
    };
    let papers = vec![mk("new", None), mk("later", Some(2000)), mk("due", Some(500)), mk("now", Some(1000))];
    let due = reviewable_papers(&papers, 1000);
    assert_eq!(due, vec![papers[0].clone(), papers[2].clone()]);
    assert_eq!(reviewable_papers(&vec![], 1000), vec![]);
}

#[test]
fn cli_fuzzy_line_quotes_each_part() {
    assert_eq!(
        fuzzy_text(&sample()),
        "title:\"Attention\" authors:\"Vaswani,Shazeer\" tags:\"ml,nlp\" labels:\"read=true,year=2017\""
    );
    assert_eq!(fuzzy_text(&PaperMeta::default()), "title:\"\" authors:\"\" tags:\"\" labels:\"\"");
    assert_eq!(OutputStyle::default(), OutputStyle::Table);
}

#[test]
fn table_duration_agrees_with_formatting() {
    for secs in [0u64, 1, 59, 60, 61, 3599, 3600, 3601, 86_399, 86_400, 86_401, 1_000_000, u64::MAX] {
        let expected = if secs < 60 {
            format!("{}s", secs)
        } else if secs < 60 * 60 {
            format!("{}m", secs / 60)
        } else if secs < 60 * 60 * 24 {
            format!("{}h", secs / (60 * 60))
        } else {
            format!("{}d", secs / (60 * 60 * 24))
        };
        assert_eq!(display_duration(secs), expected);
    }
}
