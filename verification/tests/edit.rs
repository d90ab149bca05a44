use papers::author::Author;
use papers::label::Label;
use papers::paper::PaperMeta;
use papers::primitive::Primitive;
use papers::table::{display_author_vector, display_label_vector, display_tag_vector};
use papers::tag::{Tag, TagSet};
use papers::text::has_char;

fn tags(keys: &[&str]) -> Vec<Tag> {
    keys.iter().map(|k| Tag::new(k)).collect()
}

fn labels(texts: &[&str]) -> Vec<Label> {
    texts.iter().map(|t| Label::from_str(t).unwrap()).collect()
}

fn authors(names: &[&str]) -> Vec<Author> {
    names.iter().map(|n| Author::new(n)).collect()
}

#[test]
fn edit_tags_are_added_and_removed() {
    let mut p = PaperMeta { title: "T".to_owned(), created_at: 7, ..Default::default() };
    p.add_tags(&tags(&["ml", "nlp"]));
    p.add_tags(&tags(&["ml", "vision"]));
    assert_eq!(display_tag_vector(&p.tags), "ml, nlp, vision");
    p.remove_tags(&tags(&["nlp", "absent"]));
    assert_eq!(display_tag_vector(&p.tags), "ml, vision");
    p.remove_tags(&tags(&["ml", "vision"]));
    assert_eq!(p.tags, TagSet::new());
    assert_eq!(p.title, "T");
    assert_eq!(p.created_at, 7);
}

#[test]
fn edit_tag_set_removes_one_tag() {
    let mut set = TagSet::from_vec(tags(&["a", "b", "c"]));
    assert!(set.remove(&Tag::new("b")));
    assert!(!set.remove(&Tag::new("b")));
    assert_eq!(set, TagSet::from_vec(tags(&["c", "a"])));
}

#[test]
fn edit_labels_keep_what_is_there() {
    let mut p = PaperMeta::default();
    p.add_labels(&labels(&["year=2017", "read=false"]));
    p.add_labels(&labels(&["year=1999", "venue=NeurIPS", "venue=ICML"]));
    assert_eq!(display_label_vector(&p.labels), "read=false, venue=NeurIPS, year=2017");
    p.remove_labels(&tags(&["read", "absent"]));
    assert_eq!(display_label_vector(&p.labels), "venue=NeurIPS, year=2017");
    assert_eq!(p.labels.value_of("year"), Some(Primitive::Number("2017".to_owned())));
}

#[test]
fn edit_label_map_adds_and_removes() {
    let mut p = PaperMeta::default();
    assert!(p.labels.add(Label::from_str("a=1").unwrap()));
    assert!(!p.labels.add(Label::from_str("a=2").unwrap()));
    assert_eq!(display_label_vector(&p.labels), "a=1");
    assert!(p.labels.remove("a"));
    assert!(!p.labels.remove("a"));
    assert_eq!(p.labels.len(), 0);
}

#[test]
fn edit_authors_keep_their_order() {
    let mut p = PaperMeta::default();
    p.add_authors(&authors(&["Vaswani", "Shazeer"]));
    p.add_authors(&authors(&["Parmar", "Vaswani", "Parmar"]));
    assert_eq!(display_author_vector(&p.authors), "Vaswani, Shazeer, Parmar");
    p.remove_authors(&authors(&["Shazeer", "Nobody"]));
    assert_eq!(display_author_vector(&p.authors), "Vaswani, Parmar");
    p.authors.push(Author::new("Vaswani"));
    p.remove_authors(&authors(&["Vaswani"]));
    assert_eq!(display_author_vector(&p.authors), "Parmar");
}

#[test]
fn text_has_char_looks_everywhere() {
    assert!(has_char("a=b", '='));
    assert!(has_char("=", '='));
    assert!(!has_char("ab", '='));
    assert!(!has_char("", '='));
}
