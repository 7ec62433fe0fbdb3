//! Content conversion and page rendering: markdown text becomes an HTML body
//! fragment, and a fragment plus a title becomes a complete document.
use crate::templates::{
    create_body, create_title, footer, footer_text, header, header_text, spec_create_body,
    spec_create_title,
};
use crate::text::file_stem;
use vstd::prelude::*;
use vstd::string::StringExecFns;

verus! {

/// The HTML fragment that the markdown converter produces for a given text;
/// it depends on the text alone.
pub uninterp spec fn markdown_body_of(text: Seq<char>) -> Seq<char>;

/// Relies on pulldown_cmark::Parser::new_ext and pulldown_cmark::html::push_html:
/// with every extension enabled they render any text to an HTML fragment that
/// is a function of that text alone, and never fail.
#[verifier::external_body]
pub(crate) fn markdown_to_html(text: &str) -> (r: String)
    ensures
        r@ == markdown_body_of(text@),
{
    let parser = pulldown_cmark::Parser::new_ext(text, pulldown_cmark::Options::all());
    let mut body = String::new();
    pulldown_cmark::html::push_html(&mut body, parser);
    body
}

/// A complete document: header, title element, body element, footer.
pub open spec fn spec_render_page(title: Seq<char>, body: Seq<char>) -> Seq<char> {
    header_text() + spec_create_title(title) + spec_create_body(body) + footer_text()
}

/// The document generated for a content file: its body is the converted
/// text, its title the file name without extension.
pub open spec fn spec_content_page(name: Seq<char>, content: Seq<char>) -> Seq<char> {
    spec_render_page(file_stem(name), markdown_body_of(content))
}

/// Wraps a title and a pre-rendered body fragment into a complete document.
pub fn render_page(title: &str, body: &str) -> (r: String)
    ensures
        r@ == spec_render_page(title@, body@),
{
    let mut r = header();
    r.append(create_title(title).as_str());
    r.append(create_body(body).as_str());
    r.append(footer().as_str());
    proof {
        assert(r@ =~= spec_render_page(title@, body@));
    }
    r
}

/// Converts one content file to a complete document.
pub fn convert_page(name: &str, content: &str) -> (r: String)
    ensures
        r@ == spec_content_page(name@, content@),
{
    let title = crate::text::stem_of(name);
    let body = markdown_to_html(content);
    render_page(title.as_str(), body.as_str())
}

} // verus!
