use sitegen::builder::build_index_html;
use sitegen::builder::Entry;
use sitegen::links::{generate_default_index_html, generate_links, make_link};
use sitegen::templates::{create_body, create_title};
use sitegen::text::{
    classify, eq_str, html_name, path_join, replace_all, stem_of, trim_end_all, trim_start_all,
    FileKind,
};

#[test]
fn create_body_wraps_exactly() {
    assert_eq!(
        create_body("<p>x</p>"),
        "\n        <body>\n            <p>x</p>\n        </body>\n        "
    );
}

#[test]
fn create_title_wraps_exactly() {
    assert_eq!(create_title("home"), "\n        <title>home</title>\n        ");
}

#[test]
fn create_title_escapes_markup() {
    assert_eq!(
        create_title("a&b <c>"),
        "\n        <title>a&amp;b &lt;c&gt;</title>\n        "
    );
}

#[test]
fn links_for_pages_and_directories() {
    // a subdirectory link points at the directory, not at its index file
    let files = vec!["public/a.html".to_string(), "public/sub/index.html".to_string()];
    assert_eq!(
        generate_links(&files, "public"),
        "<a href=\"./a.html\">a</a><br/>\n<a href=\"./sub\">sub</a>"
    );
}

#[test]
fn link_title_strips_repeatedly() {
    // a trailing extension strips as often as it occurs
    assert_eq!(
        make_link("public/x.html.html", "public"),
        "<a href=\"./x.html.html\">x</a>"
    );
    // an index page at the root links to the root itself
    assert_eq!(make_link("public/index.html", "public"), "<a href=\".\">index</a>");
}

#[test]
fn default_index_holds_the_placeholder() {
    let mut expected = String::new();
    expected.push_str(
        "\n<!DOCTYPE html>\n<html lang=\"en\">\n    <head>\n        <meta charset=\"utf-8\">\n        <meta name=\"viewport\" content=\"width=device-width, initial-scale=1\">\n    </head>\n",
    );
    expected.push_str(&create_body("{{LINKS}}"));
    expected.push_str("\n</html>\n");
    assert_eq!(generate_default_index_html(), expected);
}

#[test]
fn replace_all_cases() {
    assert_eq!(replace_all("a{{LINKS}}b", "{{LINKS}}", "X"), "aXb");
    assert_eq!(replace_all("{{LINKS}}{{LINKS}}", "{{LINKS}}", "X"), "XX");
    assert_eq!(replace_all("no marker", "{{LINKS}}", "X"), "no marker");
    assert_eq!(replace_all("aaa", "aa", "b"), "ba");
    assert_eq!(replace_all("", "aa", "b"), "");
    assert_eq!(replace_all("abc", "", "X"), "abc");
    // the replacement is not rescanned
    assert_eq!(replace_all("ab", "ab", "ab"), "ab");
}

#[test]
fn trimming_is_repeated() {
    assert_eq!(trim_end_all("foo.html.html", ".html"), "foo");
    assert_eq!(trim_end_all("sub/index", "index"), "sub/");
    assert_eq!(trim_start_all("///a", "/"), "a");
    assert_eq!(trim_start_all("a/b", "x"), "a/b");
    assert_eq!(trim_end_all("indexindex", "index"), "");
}

#[test]
fn name_splitting() {
    assert_eq!(stem_of("a.md"), "a");
    assert_eq!(stem_of("a.b.md"), "a.b");
    assert_eq!(stem_of(".gitignore"), ".gitignore");
    assert_eq!(stem_of("plain"), "plain");
    assert_eq!(html_name("a.md"), "a.html");
    assert_eq!(html_name("plain"), "plain.html");
    assert_eq!(html_name(".gitignore"), ".gitignore.html");
    assert_eq!(html_name("a."), "a.html");
}

#[test]
fn classification_by_extension() {
    assert!(matches!(classify("style.css"), FileKind::Passthrough));
    assert!(matches!(classify("page.html"), FileKind::Ignored));
    assert!(matches!(classify("index.html"), FileKind::Ignored));
    assert!(matches!(classify("a.md"), FileKind::Content));
    assert!(matches!(classify("noext"), FileKind::Content));
    assert!(matches!(classify(".css"), FileKind::Content));
}

#[test]
fn eq_str_and_path_join() {
    assert!(eq_str("abc", "abc"));
    assert!(!eq_str("abc", "abd"));
    assert!(!eq_str("abc", "ab"));
    assert_eq!(path_join("public", "a.html"), "public/a.html");
}

#[test]
fn index_generation_reads_the_source_entry() {
    let entries = vec![Entry::File {
        name: "index.html".to_string(),
        content: "<ul>{{LINKS}}</ul>".to_string(),
    }];
    let pages = vec!["public/a.html".to_string()];
    let (index, persisted) = build_index_html(&entries, &pages, "content", "public");
    assert_eq!(index.path, "public/index.html");
    assert_eq!(index.content, "<ul><a href=\"./a.html\">a</a></ul>");
    assert!(persisted.is_none());
}
