use sitegen::builder::{build_html, BuildOutput, Entry, OutFile};
use sitegen::templates::{create_body, create_title, footer, header};

fn file(name: &str, content: &str) -> Entry {
    Entry::File { name: name.to_string(), content: content.to_string() }
}

fn dir(name: &str, entries: Vec<Entry>) -> Entry {
    Entry::Dir { name: name.to_string(), entries }
}

fn find<'a>(out: &'a BuildOutput, path: &str) -> Option<&'a OutFile> {
    out.files.iter().find(|f| f.path == path)
}

fn rendered_page(title: &str, body: &str) -> String {
    let mut s = header();
    s.push_str(&create_title(title));
    s.push_str(&create_body(body));
    s.push_str(&footer());
    s
}

fn default_index(links: &str) -> String {
    let mut s = header();
    s.push_str(&create_body(links));
    s.push_str(&footer());
    s
}

#[test]
fn example_scenario_tree() {
    // content/{a.md, b.md, sub/c.md}
    let entries = vec![
        file("a.md", "# Hello"),
        file("b.md", "plain text"),
        dir("sub", vec![file("c.md", "c body")]),
    ];
    let out = build_html(&entries, "content", "public");

    let a = find(&out, "public/a.html").expect("a.html generated");
    assert!(a.content.contains("<h1>Hello</h1>"));
    assert_eq!(a.content, rendered_page("a", "<h1>Hello</h1>\n"));

    assert!(find(&out, "public/b.html").is_some());

    let sub_index = find(&out, "public/sub/index.html").expect("sub index generated");
    assert!(sub_index.content.contains("<a href=\"./c.html\">c</a>"));

    let index = find(&out, "public/index.html").expect("index generated");
    assert!(index.content.contains("<a href=\"./a.html\">a</a>"));
    assert!(index.content.contains("<a href=\"./b.html\">b</a>"));
    assert!(index.content.contains("<a href=\"./sub\">sub</a>"));

    assert_eq!(
        out.pages,
        vec![
            "public/a.html".to_string(),
            "public/b.html".to_string(),
            "public/sub/index.html".to_string(),
        ]
    );
}

#[test]
fn deleting_a_source_removes_its_page_and_link() {
    // A rebuild is from a clean slate: without b.md, neither its page nor its
    // link exists.
    let with_b = vec![file("a.md", "# Hello"), file("b.md", "x"), dir("sub", vec![])];
    let out1 = build_html(&with_b, "content", "public");
    assert!(find(&out1, "public/b.html").is_some());
    assert!(find(&out1, "public/index.html").unwrap().content.contains("\">b</a>"));

    let without_b = vec![file("a.md", "# Hello"), dir("sub", vec![])];
    let out2 = build_html(&without_b, "content", "public");
    assert!(find(&out2, "public/b.html").is_none());
    let index = find(&out2, "public/index.html").unwrap();
    assert!(!index.content.contains("\">b</a>"));
    assert!(index.content.contains("<a href=\"./a.html\">a</a>"));
}

#[test]
fn page_count_matches_entries() {
    // N convertible files and M subdirectories give N + M pages and links.
    let entries = vec![
        file("a.md", "a"),
        file("style.css", "body {}"),
        file("old.html", "<p>old</p>"),
        dir("one", vec![]),
        dir("two", vec![file("x.md", "x")]),
        file("b.txt", "b"),
    ];
    let out = build_html(&entries, "content", "public");
    // 2 content files + 2 subdirectories
    assert_eq!(out.pages.len(), 4);
    let index = find(&out, "public/index.html").unwrap();
    assert_eq!(index.content.matches("<a href=").count(), 4);
}

#[test]
fn passthrough_stylesheet_is_byte_identical() {
    let css = "body { color: #fff; }\n/* exact bytes */";
    let entries = vec![file("style.css", css)];
    let out = build_html(&entries, "content", "public");
    let copied = find(&out, "public/style.css").expect("stylesheet copied");
    assert_eq!(copied.content, css);
}

#[test]
fn ignored_html_file_produces_no_output() {
    let entries = vec![file("a.md", "a"), file("old.html", "<p>old</p>")];
    let out = build_html(&entries, "content", "public");
    assert!(find(&out, "public/old.html").is_none());
    // and it leaves everything else as the build without it
    let without = vec![file("a.md", "a")];
    let out2 = build_html(&without, "content", "public");
    assert_eq!(out.files.len(), out2.files.len());
    for (x, y) in out.files.iter().zip(out2.files.iter()) {
        assert_eq!(x.path, y.path);
        assert_eq!(x.content, y.content);
    }
}

#[test]
fn placeholder_substitution_round_trip() {
    let custom = "<p>before</p>{{LINKS}}<p>after</p>";
    let entries = vec![file("a.md", "a"), file("index.html", custom)];
    let out = build_html(&entries, "content", "public");
    let index = find(&out, "public/index.html").unwrap();
    assert_eq!(
        index.content,
        "<p>before</p><a href=\"./a.html\">a</a><p>after</p>"
    );
    // nothing is persisted: the directory already had an index source
    assert!(out.new_sources.is_empty());
}

#[test]
fn static_custom_index_is_copied_unchanged() {
    // no placeholder occurrence: the substitution pass is a no-op
    let custom = "<p>fully static</p>";
    let entries = vec![file("a.md", "a"), file("index.html", custom)];
    let out = build_html(&entries, "content", "public");
    assert_eq!(find(&out, "public/index.html").unwrap().content, custom);
}

#[test]
fn first_build_persists_default_index() {
    let entries = vec![file("a.md", "a")];
    let out = build_html(&entries, "content", "public");
    assert_eq!(out.new_sources.len(), 1);
    let ns = &out.new_sources[0];
    assert_eq!(ns.path, "content/index.html");
    // the persisted source holds the placeholder, not this build's links
    assert_eq!(ns.content, default_index("{{LINKS}}"));
    // the output index is that source with the links substituted in
    assert_eq!(
        find(&out, "public/index.html").unwrap().content,
        default_index("<a href=\"./a.html\">a</a>")
    );
}

#[test]
fn rebuild_after_delete_updates_links() {
    // first build persists default index sources; b.md is then deleted and
    // the rebuild's link list no longer carries b
    let with_b = vec![file("a.md", "a"), file("b.md", "b"), dir("sub", vec![file("c.md", "c")])];
    let out1 = build_html(&with_b, "content", "public");
    let top_src = out1
        .new_sources
        .iter()
        .find(|f| f.path == "content/index.html")
        .expect("top default persisted");
    let sub_src = out1
        .new_sources
        .iter()
        .find(|f| f.path == "content/sub/index.html")
        .expect("sub default persisted");

    let rebuilt = vec![
        file("a.md", "a"),
        file("index.html", &top_src.content),
        dir("sub", vec![file("c.md", "c"), file("index.html", &sub_src.content)]),
    ];
    let out2 = build_html(&rebuilt, "content", "public");
    assert!(out2.new_sources.is_empty());
    assert!(find(&out2, "public/b.html").is_none());
    let index = find(&out2, "public/index.html").unwrap();
    assert!(!index.content.contains("\">b</a>"));
    assert!(index.content.contains("<a href=\"./a.html\">a</a>"));
    assert!(index.content.contains("<a href=\"./sub\">sub</a>"));
}

#[test]
fn second_build_is_idempotent_and_sticky() {
    let entries = vec![file("a.md", "# Hello"), dir("sub", vec![file("c.md", "c")])];
    let out1 = build_html(&entries, "content", "public");

    // persist the default index sources as a rebuild would see them
    let mut sub_entries = vec![file("c.md", "c")];
    let sub_src = out1
        .new_sources
        .iter()
        .find(|f| f.path == "content/sub/index.html")
        .expect("sub default persisted");
    sub_entries.push(file("index.html", &sub_src.content));
    let top_src = out1
        .new_sources
        .iter()
        .find(|f| f.path == "content/index.html")
        .expect("top default persisted");
    let entries2 = vec![
        file("a.md", "# Hello"),
        dir("sub", sub_entries),
        file("index.html", &top_src.content),
    ];

    let out2 = build_html(&entries2, "content", "public");
    // the default was not overwritten with a fresh one
    assert!(out2.new_sources.is_empty());
    // and the output is byte-identical
    assert_eq!(out1.files.len(), out2.files.len());
    for (x, y) in out1.files.iter().zip(out2.files.iter()) {
        assert_eq!(x.path, y.path);
        assert_eq!(x.content, y.content);
    }
    assert_eq!(out1.pages, out2.pages);
}

#[test]
fn markdown_conversion_reaches_the_output() {
    // the converted body differs from the source text
    let entries = vec![file("e.md", "*emphasis* and `code`")];
    let out = build_html(&entries, "content", "public");
    let page = find(&out, "public/e.html").unwrap();
    assert!(page.content.contains("<em>emphasis</em>"));
    assert!(page.content.contains("<code>code</code>"));
    assert!(!page.content.contains("*emphasis*"));
}

#[test]
fn empty_directory_still_gets_an_index() {
    let entries: Vec<Entry> = vec![];
    let out = build_html(&entries, "content", "public");
    assert_eq!(out.pages.len(), 0);
    assert_eq!(out.files.len(), 1);
    assert_eq!(out.files[0].path, "public/index.html");
    assert_eq!(out.files[0].content, default_index(""));
    assert_eq!(out.new_sources.len(), 1);
}

#[test]
fn page_title_is_escaped() {
    let entries = vec![file("a&b.md", "x")];
    let out = build_html(&entries, "content", "public");
    let page = find(&out, "public/a&b.html").expect("converted");
    assert!(page.content.contains("<title>a&amp;b</title>"));
}

#[test]
fn extensionless_file_is_content() {
    let entries = vec![file("README", "# Readme")];
    let out = build_html(&entries, "content", "public");
    let page = find(&out, "public/README.html").expect("converted");
    assert!(page.content.contains("<h1>Readme</h1>"));
    assert!(page.content.contains("<title>README</title>"));
}
