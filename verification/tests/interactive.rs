use papers::author::Author;
use papers::config::PathOrString;
use papers::extract::{extract_authors, extract_title};
use papers::fetch::fetched_filename;
use papers::file_or_stdin::FileOrStdin;
use papers::interactive::{
    bool_prompt, default_prompt, input, input_bool, input_default, input_opt, input_prompt,
    input_vec, input_vec_default, optional_prompt, vec_prompt, InputError,
};
use papers::label::Label;
use papers::tag::Tag;
use papers::url_path::UrlOrPath;

#[test]
fn input_prompts_are_worded() {
    assert_eq!(input_prompt("Title"), "Title: ");
    assert_eq!(default_prompt("Title", "From the PDF"), "Title [From the PDF]");
    assert_eq!(optional_prompt("Path to file"), "Path to file (optional)");
    assert_eq!(vec_prompt("Authors", ","), "Authors (separated by ',')");
    assert_eq!(vec_prompt(&default_prompt("Authors", "A,B"), ","), "Authors [A,B] (separated by ',')");
    assert_eq!(bool_prompt("Fetch", true), "Fetch [Y/n]");
    assert_eq!(bool_prompt("Fetch", false), "Fetch [y/N]");
}

#[test]
fn input_reads_the_trimmed_line() {
    assert_eq!(input::<String>("  My Title \n"), Ok("My Title".to_owned()));
    assert_eq!(input::<String>("\n"), Ok("".to_owned()));
    assert_eq!(input::<Tag>(" ml \n"), Ok(Tag::new("ml")));
    assert_eq!(input::<Tag>("machine learning\n"), Err(InputError::Unreadable));
    assert_eq!(input::<Label>("year=2020\n"), Ok(Label::from_str("year=2020").unwrap()));
    assert_eq!(input::<Label>("year\n"), Err(InputError::Unreadable));
    assert_eq!(input::<Author>(" Ada \n"), Ok(Author::new("Ada")));
}

#[test]
fn input_default_stands_in_for_nothing() {
    assert_eq!(input_default::<String>("\n", "paper.pdf"), Ok("paper.pdf".to_owned()));
    assert_eq!(input_default::<String>("  \n", "paper.pdf"), Ok("paper.pdf".to_owned()));
    assert_eq!(input_default::<String>("mine.pdf\n", "paper.pdf"), Ok("mine.pdf".to_owned()));
    assert_eq!(input_default::<Tag>("a b\n", "fallback"), Ok(Tag::new("fallback")));
    assert_eq!(input_default::<Tag>("a b\n", "c d"), Err(InputError::Unreadable));
    assert_eq!(input_default::<Label>("k=v\n", "a=b"), Ok(Label::from_str("k=v").unwrap()));
}

#[test]
fn input_opt_is_none_for_an_empty_line() {
    assert_eq!(input_opt::<String>("\n"), Ok(None));
    assert_eq!(input_opt::<String>("   \n"), Ok(None));
    assert_eq!(input_opt::<String>(" x \n"), Ok(Some("x".to_owned())));
    assert_eq!(input_opt::<Label>("novalue\n"), Err(InputError::Unreadable));
}

#[test]
fn input_vec_reads_every_filled_piece() {
    assert_eq!(
        input_vec::<Author>("Ada, Alan,,Grace \n", ","),
        Ok(vec![Author::new("Ada"), Author::new("Alan"), Author::new("Grace")])
    );
    assert_eq!(input_vec::<Tag>("ml  nlp vision\n", " "), Ok(vec![Tag::new("ml"), Tag::new("nlp"), Tag::new("vision")]));
    assert_eq!(input_vec::<Tag>("\n", " "), Ok(vec![]));
    assert_eq!(input_vec::<Label>("a=1 b\n", " "), Err(InputError::Unreadable));
    assert_eq!(input_vec::<String>("a--b\n", "--"), Ok(vec!["a".to_owned(), "b".to_owned()]));
}

#[test]
fn input_vec_default_stands_in_for_an_empty_list() {
    assert_eq!(input_vec_default::<Author>("\n", ",", "Ada,Alan"), Ok(vec![Author::new("Ada"), Author::new("Alan")]));
    assert_eq!(input_vec_default::<Author>(",,\n", ",", "Ada"), Ok(vec![Author::new("Ada")]));
    assert_eq!(input_vec_default::<Author>("Grace\n", ",", "Ada,Alan"), Ok(vec![Author::new("Grace")]));
    assert_eq!(input_vec_default::<Author>("\n", ",", ""), Ok(vec![]));
    assert_eq!(input_vec_default::<Label>("\n", " ", "broken"), Err(InputError::Unreadable));
    assert_eq!(input_vec_default::<Label>("broken\n", " ", "a=b"), Err(InputError::Unreadable));
}

#[test]
fn input_bool_understands_yes_and_no() {
    for default in [true, false] {
        assert!(input_bool("y\n", default));
        assert!(input_bool(" YES \n", default));
        assert!(input_bool("Yes\n", default));
        assert!(!input_bool("n\n", default));
        assert!(!input_bool("No\n", default));
        assert!(!input_bool("NO", default));
        assert_eq!(input_bool("\n", default), default);
        assert_eq!(input_bool("maybe\n", default), default);
        assert_eq!(input_bool("yess\n", default), default);
    }
}

#[test]
fn file_or_stdin_reads_a_dash_as_stdin() {
    assert_eq!(FileOrStdin::from_str("-", false), Ok(FileOrStdin::Stdin));
    assert_eq!(FileOrStdin::from_str("-", true), Ok(FileOrStdin::Stdin));
    assert_eq!(FileOrStdin::from_str("papers.json", true), Ok(FileOrStdin::File("papers.json".to_owned())));
    assert_eq!(
        FileOrStdin::from_str("missing.pdf", false),
        Err("Path was not a file: \"missing.pdf\"".to_owned())
    );
    assert_eq!(
        FileOrStdin::from_str("odd \"name\"", false),
        Err("Path was not a file: \"odd \\\"name\\\"\"".to_owned())
    );
}

#[test]
fn url_or_path_tells_urls_from_paths() {
    assert_eq!(
        UrlOrPath::from_str("https://example.org/a.pdf"),
        Ok(UrlOrPath::Url("https://example.org/a.pdf".to_owned()))
    );
    assert_eq!(UrlOrPath::from_str("http://example.org"), Ok(UrlOrPath::Url("http://example.org/".to_owned())));
    assert_eq!(UrlOrPath::from_str("papers/a.pdf"), Ok(UrlOrPath::Path("papers/a.pdf".to_owned())));
    assert_eq!(UrlOrPath::from_str("/abs/a.pdf"), Ok(UrlOrPath::Path("/abs/a.pdf".to_owned())));
    assert_eq!(UrlOrPath::from_str(""), Ok(UrlOrPath::Path("".to_owned())));
    assert_eq!(
        UrlOrPath::from_str("ftp://example.org/a.pdf"),
        Err("failed to parse string as valid url or path ftp://example.org/a.pdf".to_owned())
    );
    assert_eq!(UrlOrPath::from_str("file:///tmp/a.pdf"), Ok(UrlOrPath::Path("/tmp/a.pdf".to_owned())));
    assert_eq!(
        UrlOrPath::from_str("file://remote.example/a.pdf"),
        Err("failed to parse string as valid url or path".to_owned())
    );
}

#[test]
fn url_or_path_classifies_what_was_parsed() {
    let url = |scheme: &str, text: &str| Some((scheme.to_owned(), text.to_owned()));
    assert_eq!(UrlOrPath::classify("raw", None, None), Ok(UrlOrPath::Path("raw".to_owned())));
    assert_eq!(UrlOrPath::classify("raw", None, Some("/x".to_owned())), Ok(UrlOrPath::Path("raw".to_owned())));
    assert_eq!(UrlOrPath::classify("raw", url("https", "https://a/"), None), Ok(UrlOrPath::Url("https://a/".to_owned())));
    assert_eq!(UrlOrPath::classify("raw", url("file", "file:///x"), Some("/x".to_owned())), Ok(UrlOrPath::Path("/x".to_owned())));
    assert_eq!(
        UrlOrPath::classify("raw", url("file", "file:///x"), None),
        Err("failed to parse string as valid url or path".to_owned())
    );
    assert_eq!(
        UrlOrPath::classify("raw", url("mailto", "mailto:a@b"), None),
        Err("failed to parse string as valid url or path mailto:a@b".to_owned())
    );
}

#[test]
fn fetch_saves_pdfs_as_pdf() {
    assert_eq!(fetched_filename("paper", Some("application/pdf")), "paper.pdf");
    assert_eq!(fetched_filename("paper.pdf", Some("application/pdf")), "paper.pdf");
    assert_eq!(fetched_filename("dir/paper.html", Some("application/pdf")), "dir/paper.pdf");
    assert_eq!(fetched_filename("paper.html", Some("text/html")), "paper.html");
    assert_eq!(fetched_filename("paper", None), "paper");
}

#[test]
fn extract_title_is_trimmed() {
    assert_eq!(extract_title(Some("  A Title \n")), Some("A Title".to_owned()));
    assert_eq!(extract_title(Some("   ")), Some("".to_owned()));
    assert_eq!(extract_title(Some("")), None);
    assert_eq!(extract_title(None), None);
}

#[test]
fn extract_authors_are_the_runs_of_name_characters() {
    let names = |found: Option<&str>| -> Vec<String> {
        extract_authors(found).iter().map(|a| a.to_text()).collect()
    };
    assert_eq!(names(Some("Grace Hopper; Alan M. Turing, Ada Lovelace")), vec!["Ada Lovelace", "Alan M. Turing", "Grace Hopper"]);
    assert_eq!(names(Some("Ada; Ada ;  ;Ada")), vec!["Ada"]);
    assert_eq!(names(Some("José Ángel & Søren K.")), vec!["José Ángel", "Søren K."]);
    assert_eq!(names(Some("Solo")), vec!["Solo"]);
    assert_eq!(names(Some(";;")), Vec::<String>::new());
    assert_eq!(names(Some("")), Vec::<String>::new());
    assert_eq!(names(None), Vec::<String>::new());
    assert_eq!(extract_authors(Some("B;A")), vec![Author::new("A"), Author::new("B")]);
}

#[test]
fn config_template_defaults_to_no_content() {
    assert_eq!(PathOrString::default(), PathOrString::Content(String::new()));
    assert!(PathOrString::File("t.md".to_owned()) != PathOrString::default());
}
