use webcortex::manifest::TemplateConfig;
use webcortex::templates::{broken_template, escapes, missing_directory, respond, truncate_words, Rendered};

fn config(autoescape: bool) -> TemplateConfig {
    TemplateConfig { dir: "templates".into(), autoescape }
}

#[test]
fn markup_is_escaped_and_other_extensions_are_not() {
    for name in ["x.html", "x.htm", "x.xml"] {
        assert!(escapes(&config(true), name));
        assert!(!escapes(&config(false), name));
    }
    for name in ["x.txt", "x.json", "html", "x.html.txt"] {
        assert!(!escapes(&config(true), name));
    }
}

#[test]
fn words_are_cut_whole() {
    assert_eq!(truncate_words("a  b\tc", 3), "a  b\tc");
    assert_eq!(truncate_words("a  b\tc", 2), "a b…");
    assert_eq!(truncate_words("a", 0), "…");
    assert_eq!(truncate_words("  ", 0), "  ");
}

#[test]
fn a_page_carries_its_declared_status() {
    let res = respond("p.html", 404, Rendered::Page("<p>é</p>".into()));
    assert_eq!(res.status, 404);
    assert_eq!(res.headers, vec![("content-type".to_string(), "text/html; charset=utf-8".to_string())]);
    assert_eq!(String::from_utf8(res.body).unwrap(), "<p>é</p>");
}

#[test]
fn what_cannot_be_rendered_is_a_server_error_without_details() {
    let missing = respond("nope.html", 200, Rendered::Missing);
    assert_eq!(missing.status, 500);
    assert!(String::from_utf8(missing.body).unwrap().contains("is unavailable"));
    let broken = respond("bad.html", 200, Rendered::Broken);
    assert_eq!(broken.status, 500);
    assert!(String::from_utf8(broken.body).unwrap().contains("failed to render"));
}

#[test]
fn boot_failures_say_which_template() {
    assert_eq!(missing_directory("a/b"), "template directory \"a/b\" does not exist");
    assert_eq!(broken_template("x.html", "line 1"), "template \"x.html\" failed to load: line 1");
}
