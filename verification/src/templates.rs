//! The rules of server-side rendering: which templates escape, and what a page that
//! cannot be rendered is answered.
//!
//! A template receives a data object and nothing else, so it can only ever be
//! presentation.

use crate::http::{PylonResponse, ResponseView, error_response, one_header};
use crate::manifest::TemplateConfig;
use crate::text::{cat2, cat3, cat4, debug_quoted, ends_with, join, joined, lemma_texts_push, quoted, split_words, texts, words};
use vstd::prelude::*;

verus! {

/// Whether a template's output is escaped. It goes by the file's extension, so that
/// an `.html` template escapes and a `.txt` or `.json` one does not.
pub open spec fn is_escaped(name: Seq<char>, autoescape: bool) -> bool {
    autoescape && (".html"@.is_suffix_of(name) || ".htm"@.is_suffix_of(name) || ".xml"@.is_suffix_of(name))
}

/// Whether a template's output is escaped.
pub fn escapes(cfg: &TemplateConfig, name: &str) -> (r: bool)
    ensures
        r == is_escaped(name@, cfg.autoescape),
{
    cfg.autoescape && (ends_with(name, ".html") || ends_with(name, ".htm") || ends_with(name, ".xml"))
}

/// The first words of a text, with a mark where some were cut.
pub open spec fn first_words(s: Seq<char>, n: nat) -> Seq<char> {
    if words(s).len() <= n {
        s
    } else {
        joined(words(s).take(n as int), " "@) + "\u{2026}"@
    }
}

/// The first words of a text, with a mark where some were cut.
pub fn truncate_words(text: &str, n: usize) -> (r: String)
    ensures
        r@ == first_words(text@, n as nat),
{
    let all = split_words(text);
    assert(texts(all@).len() == all@.len());
    if all.len() <= n {
        return text.to_owned();
    }
    let mut kept: Vec<String> = Vec::new();
    let mut i: usize = 0;
    assert(texts(kept@) =~= words(text@).take(0));
    while i < n
        invariant
            i <= n < all@.len(),
            texts(all@) == words(text@),
            texts(kept@) == words(text@).take(i as int),
        decreases n - i,
    {
        let word = all[i].clone();
        proof {
            lemma_texts_push(kept@, word);
            assert(texts(all@)[i as int] == word@);
            assert(words(text@).take(i + 1) =~= words(text@).take(i as int).push(word@));
        }
        kept.push(word);
        i = i + 1;
    }
    cat2(join(&kept, " ").as_str(), "\u{2026}")
}

/// What is said of a template directory that is not there.
pub fn missing_directory(dir: &str) -> (r: String)
    ensures
        r@ == "template directory "@ + debug_quoted(dir@) + " does not exist"@,
{
    cat3("template directory ", quoted(dir).as_str(), " does not exist")
}

/// What is said of a template that does not parse.
pub fn broken_template(name: &str, error: &str) -> (r: String)
    ensures
        r@ == "template "@ + debug_quoted(name@) + " failed to load: "@ + error@,
{
    cat4("template ", quoted(name).as_str(), " failed to load: ", error)
}

/// What rendering a template came to. What went wrong is for the log alone: it
/// carries source snippets.
pub enum Rendered {
    Page(String),
    /// There is no such template.
    Missing,
    /// The template could not be rendered.
    Broken,
}

/// The response that a template gives.
pub open spec fn page_response(name: Seq<char>, status: u16, rendered: Rendered) -> ResponseView {
    match rendered {
        Rendered::Page(html) => ResponseView {
            status,
            headers: seq![("content-type"@, "text/html; charset=utf-8"@)],
            body: vstd::utf8::encode_utf8(html@),
        },
        Rendered::Missing => error_response(500, "template "@ + debug_quoted(name) + " is unavailable"@),
        Rendered::Broken => error_response(500, "failed to render "@ + debug_quoted(name)),
    }
}

/// The response that a template gives.
pub fn respond(name: &str, status: u16, rendered: Rendered) -> (r: PylonResponse)
    ensures
        r@ == page_response(name@, status, rendered),
{
    match rendered {
        Rendered::Page(html) => {
            let body = html.as_str().as_bytes_vec();
            PylonResponse { status, headers: one_header("content-type", "text/html; charset=utf-8"), body }
        },
        Rendered::Missing => PylonResponse::error(
            500,
            cat3("template ", quoted(name).as_str(), " is unavailable").as_str(),
        ),
        Rendered::Broken => PylonResponse::error(500, cat2("failed to render ", quoted(name).as_str()).as_str()),
    }
}

/// A page that cannot be rendered is a server error, whatever status was declared,
/// and its body depends on nothing but the template's name.
pub proof fn law_render_errors_do_not_leak(name: Seq<char>, a: u16, b: u16, rendered: Rendered)
    requires
        !(rendered is Page),
    ensures
        page_response(name, a, rendered) == page_response(name, b, rendered),
        page_response(name, a, rendered).status == 500,
{
}

/// A page is answered with the status of its route and what was rendered; a template that is
/// missing or broken is a fault.
pub proof fn law_a_page_is_answered_as_it_was_rendered(name: Seq<char>, status: u16, rendered: Rendered)
    ensures
        ({
            let r = page_response(name, status, rendered);
            &&& rendered matches Rendered::Page(html) ==> r.status == status && r.body == vstd::utf8::encode_utf8(html@)
                && r.headers == seq![("content-type"@, "text/html; charset=utf-8"@)]
            &&& !(rendered is Page) ==> r.status == 500
        }),
{
}

/// Markup is escaped wherever escaping is switched on, and what is no markup is left.
pub proof fn law_markup_is_escaped(stem: Seq<char>, name: Seq<char>)
    ensures
        is_escaped(stem + ".html"@, true),
        is_escaped(stem + ".htm"@, true),
        is_escaped(stem + ".xml"@, true),
        !is_escaped(stem + ".txt"@, true),
        !is_escaped(stem + ".json"@, true),
        !is_escaped(name, false),
{
    reveal_strlit(".html");
    reveal_strlit(".htm");
    reveal_strlit(".xml");
    reveal_strlit(".txt");
    reveal_strlit(".json");
    assert(".html"@.len() == 5);
    assert(".htm"@.len() == 4);
    assert(".xml"@.len() == 4);
    assert(".txt"@.len() == 4);
    assert(".json"@.len() == 5);
    assert(".html"@[1] != ".json"@[1]);
    assert(".htm"@[1] != ".xml"@[1]);
    assert(".htm"@[1] != ".txt"@[1]);
    assert(".xml"@[1] != ".txt"@[1]);
    let a = stem + ".html"@;
    assert(a.subrange(a.len() - 5, a.len() as int) =~= ".html"@);
    let b = stem + ".htm"@;
    assert(b.subrange(b.len() - 4, b.len() as int) =~= ".htm"@);
    let c = stem + ".xml"@;
    assert(c.subrange(c.len() - 4, c.len() as int) =~= ".xml"@);
    let t = stem + ".txt"@;
    let j = stem + ".json"@;
    assert(".html"@[4] == 'l' && ".htm"@[3] == 'm' && ".xml"@[3] == 'l');
    assert(t.last() == 't' && j.last() == 'n');
    assert forall|s: Seq<char>, e: Seq<char>| e.len() > 0 && #[trigger] e.is_suffix_of(s) implies s.last() == e.last() by {
        assert(s.subrange(s.len() - e.len(), s.len() as int).last() == s.last());
    }
}

/// A text of few words stays; of a longer one the first words are kept, with a mark.
pub proof fn law_the_first_words_are_kept(s: Seq<char>, n: nat)
    ensures
        words(s).len() <= n ==> first_words(s, n) == s,
        words(s).len() > n ==> joined(words(s).take(n as int), " "@).is_prefix_of(first_words(s, n)) && first_words(s, n).len()
            == joined(words(s).take(n as int), " "@).len() + 1,
{
    reveal_strlit("\u{2026}");
    let kept = joined(words(s).take(n as int), " "@);
    if words(s).len() > n {
        assert(first_words(s, n).subrange(0, kept.len() as int) =~= kept);
    }
}

} // verus!
