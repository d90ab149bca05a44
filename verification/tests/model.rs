use papers::author::{has_author, Author};
use papers::label::{Label, LabelError, LabelMap};
use papers::paper::PaperMeta;
use papers::primitive::Primitive;
use papers::tag::{Tag, TagSet};

#[test]
fn tag_key_is_trimmed() {
    assert_eq!(Tag::new("  ml ").key(), "ml");
    assert_eq!(Tag::new("ml").key(), "ml");
    assert_eq!(Tag::parse(" ml\n").unwrap().key(), "ml");
}

#[test]
fn tag_with_whitespace_inside_is_refused() {
    assert_eq!(Tag::parse("machine learning"), None);
    assert_eq!(Tag::parse(" a\tb "), None);
    assert!(Tag::parse("").is_some());
}

#[test]
fn tag_set_keeps_tags_sorted_and_single() {
    let mut set = TagSet::new();
    assert!(set.insert(Tag::new("zeta")));
    assert!(set.insert(Tag::new("alpha")));
    assert!(set.insert(Tag::new("beta")));
    assert!(!set.insert(Tag::new("alpha")));
    assert_eq!(set.len(), 3);
    assert_eq!(set.get(0).key(), "alpha");
    assert_eq!(set.get(1).key(), "beta");
    assert_eq!(set.get(2).key(), "zeta");
    assert!(set.contains(&Tag::new("beta")));
    assert!(!set.contains(&Tag::new("gamma")));
    assert!(set.is_sorted());
    assert_eq!(set.duplicate(), set);
    assert_eq!(set.clone(), set);
}

#[test]
fn tag_set_from_vec_ignores_order_and_repeats() {
    let a = TagSet::from_vec(vec![Tag::new("b"), Tag::new("a"), Tag::new("b")]);
    let b = TagSet::from_vec(vec![Tag::new("a"), Tag::new("b")]);
    assert_eq!(a, b);
    assert_eq!(a.len(), 2);
}

#[test]
fn author_name_is_trimmed() {
    assert_eq!(Author::new("  Ada Lovelace ").name(), "Ada Lovelace");
    assert_eq!(Author::new("Ada").to_text(), "Ada");
    assert!(Author::new("Ada").same(&Author::new(" Ada ")));
    assert!(!Author::new("Ada").same(&Author::new("ada")));
    let authors = vec![Author::new("Ada"), Author::new("Alan")];
    assert!(has_author(&authors, "Alan"));
    assert!(!has_author(&authors, "Grace"));
}

#[test]
fn primitive_reads_yaml_scalars() {
    assert_eq!(Primitive::read("12"), Primitive::Number("12".to_owned()));
    assert_eq!(Primitive::read("-3"), Primitive::Number("-3".to_owned()));
    assert_eq!(Primitive::read("0.5"), Primitive::Number("0.5".to_owned()));
    assert_eq!(Primitive::read("true"), Primitive::Bool(true));
    assert_eq!(Primitive::read("false"), Primitive::Bool(false));
    assert_eq!(Primitive::read("~"), Primitive::Null);
    assert_eq!(Primitive::read("null"), Primitive::Null);
    assert_eq!(Primitive::read("hello"), Primitive::String("hello".to_owned()));
    assert_eq!(Primitive::read("hello world"), Primitive::String("hello world".to_owned()));
}

#[test]
fn primitive_falls_back_to_text() {
    assert_eq!(Primitive::read("[1, 2]"), Primitive::String("[1, 2]".to_owned()));
    assert_eq!(Primitive::read("{a: 1}"), Primitive::String("{a: 1}".to_owned()));
    assert_eq!(Primitive::read("a: b: c"), Primitive::String("a: b: c".to_owned()));
    assert_eq!(Primitive::from_str("[1, 2]"), None);
    assert_eq!(Primitive::or_text(None, "raw"), Primitive::String("raw".to_owned()));
    assert_eq!(Primitive::or_text(Some(Primitive::Bool(true)), "raw"), Primitive::Bool(true));
}

#[test]
fn primitive_is_shown_plainly() {
    assert_eq!(Primitive::Null.to_text(), "");
    assert_eq!(Primitive::Bool(true).to_text(), "true");
    assert_eq!(Primitive::Bool(false).to_text(), "false");
    assert_eq!(Primitive::Number("12".to_owned()).to_text(), "12");
    assert_eq!(Primitive::String("abc".to_owned()).to_text(), "abc");
}

#[test]
fn primitive_equality_is_by_kind_and_value() {
    assert!(Primitive::Null.same(&Primitive::Null));
    assert!(Primitive::Number("1".to_owned()).same(&Primitive::Number("1".to_owned())));
    assert!(!Primitive::Number("1".to_owned()).same(&Primitive::String("1".to_owned())));
    assert!(!Primitive::Bool(true).same(&Primitive::Bool(false)));
    assert!(Primitive::String("a".to_owned()).duplicate().same(&Primitive::String("a".to_owned())));
}

#[test]
fn label_is_read_from_key_and_value() {
    let l = Label::from_str("year=2020").unwrap();
    assert_eq!(l.key(), "year");
    assert_eq!(l.value(), &Primitive::Number("2020".to_owned()));
    let l = Label::from_str(" venue =NeurIPS").unwrap();
    assert_eq!(l.key(), "venue");
    assert_eq!(l.value(), &Primitive::String("NeurIPS".to_owned()));
    let l = Label::from_str("read=true").unwrap();
    assert_eq!(l.value(), &Primitive::Bool(true));
    let l = Label::from_str("empty=").unwrap();
    assert_eq!(l.key(), "empty");
    assert_eq!(l.value(), &Primitive::Null);
}

#[test]
fn label_errors_name_what_is_wrong() {
    assert_eq!(Label::from_str("novalue"), Err(LabelError::MissingValue));
    assert_eq!(Label::from_str(""), Err(LabelError::MissingValue));
    assert_eq!(Label::from_str("a=b=c"), Err(LabelError::TooManySeparators));
    assert_eq!(Label::from_str("=="), Err(LabelError::TooManySeparators));
    assert_eq!(Label::from_str("a b=c"), Err(LabelError::WhitespaceInKey));
    assert_eq!(
        LabelError::MissingValue.message(),
        "Missing value, should be of the form `key=value`"
    );
    assert_eq!(
        LabelError::TooManySeparators.message(),
        "Too many `=`, should be of the form `key=value`"
    );
    assert_eq!(LabelError::WhitespaceInKey.message(), "Label key contains whitespace");
}

#[test]
fn label_is_written_as_key_equals_value() {
    assert_eq!(Label::new("year", Primitive::Number("2020".to_owned())).to_text(), "year=2020");
    assert_eq!(Label::new(" k ", Primitive::Null).to_text(), "k=");
    assert_eq!(Label::from_str("a=b").unwrap().to_text(), "a=b");
    assert_eq!(Label::checked("a b", Primitive::Null), None);
    assert_eq!(Label::checked("a=b", Primitive::Null), None);
    assert_eq!(Label::checked(" ok ", Primitive::Bool(true)).unwrap().to_text(), "ok=true");
    assert_eq!(Label::split("k=v"), Ok(("k".to_owned(), "v".to_owned())));
}

#[test]
fn label_map_holds_one_value_for_each_key() {
    let mut map = LabelMap::new();
    map.insert(Label::from_str("b=1").unwrap());
    map.insert(Label::from_str("a=x").unwrap());
    map.insert(Label::from_str("b=2").unwrap());
    assert_eq!(map.len(), 2);
    assert_eq!(map.get(0).to_text(), "a=x");
    assert_eq!(map.get(1).to_text(), "b=2");
    assert_eq!(map.value_of("b"), Some(Primitive::Number("2".to_owned())));
    assert_eq!(map.value_of("c"), None);
    assert!(map.contains(&Label::from_str("b=2").unwrap()));
    assert!(!map.contains(&Label::from_str("b=1").unwrap()));
    assert!(!map.contains(&Label::from_str("c=1").unwrap()));
    assert!(map.is_sorted());
    assert_eq!(map.duplicate(), map);
}

#[test]
fn paper_default_is_blank() {
    let p = PaperMeta::default();
    assert_eq!(p.title, "");
    assert_eq!(p.url, None);
    assert_eq!(p.filename, None);
    assert_eq!(p.tags.len(), 0);
    assert_eq!(p.labels.len(), 0);
    assert!(p.authors.is_empty());
    assert_eq!(p.created_at, 0);
    assert_eq!(p.modified_at, 0);
    assert_eq!(p.last_review, None);
    assert_eq!(p.next_review, None);
    assert_eq!(p.duplicate(), p);
}
