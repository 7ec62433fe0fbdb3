//! Index link generation: each generated page path becomes an anchor whose
//! href is the path relative to the output root — a subdirectory link points
//! at the directory, not at its index file — and whose text is a title
//! derived from that path.
use crate::templates::{create_body, footer, footer_text, header, header_text, spec_create_body};
use crate::text::{
    strip_prefix_all, strip_suffix_all, strip_suffix_once, trim_end_all, trim_end_once,
    trim_start_all,
};
use vstd::prelude::*;
use vstd::string::StringExecFns;

verus! {

/// The literal token a user index source marks the link-injection point
/// with.
pub open spec fn placeholder() -> Seq<char> {
    "{{LINKS}}"@
}

/// The href target for a generated page: the path relative to the output
/// root; for a subdirectory's index page, the trailing `/index.html` is
/// removed so the link points at the directory itself.
pub open spec fn link_href_rel(file: Seq<char>, dest: Seq<char>) -> Seq<char> {
    strip_suffix_once(strip_prefix_all(file, dest), "/index.html"@)
}

/// The title shown for a generated page: the path relative to the output
/// root, without leading separators, a trailing `.html` extension, or a
/// trailing `/index` component.
pub open spec fn link_title(file: Seq<char>, dest: Seq<char>) -> Seq<char> {
    strip_suffix_once(
        strip_suffix_all(strip_prefix_all(strip_prefix_all(file, dest), "/"@), ".html"@),
        "/index"@,
    )
}

/// The anchor markup for one generated page.
pub open spec fn link_entry(file: Seq<char>, dest: Seq<char>) -> Seq<char> {
    "<a href=\"."@ + link_href_rel(file, dest) + "\">"@ + link_title(file, dest) + "</a>"@
}

/// The anchors for a list of generated pages, in order, joined by line
/// breaks.
pub open spec fn links_markup(files: Seq<Seq<char>>, dest: Seq<char>) -> Seq<char>
    decreases files.len(),
{
    if files.len() == 0 {
        Seq::empty()
    } else if files.len() == 1 {
        link_entry(files[0], dest)
    } else {
        links_markup(files.drop_last(), dest) + "<br/>\n"@ + link_entry(files.last(), dest)
    }
}

/// The default index source: a complete document whose body is exactly the
/// placeholder token, so that every build substitutes its own links in.
pub open spec fn spec_default_index() -> Seq<char> {
    header_text() + spec_create_body(placeholder()) + footer_text()
}

/// The anchor markup for one generated page.
pub fn make_link(file: &str, dest: &str) -> (r: String)
    ensures
        r@ == link_entry(file@, dest@),
{
    let rel = trim_start_all(file, dest);
    let href_rel = trim_end_once(rel.as_str(), "/index.html");
    let t1 = trim_start_all(rel.as_str(), "/");
    let t2 = trim_end_all(t1.as_str(), ".html");
    let title = trim_end_once(t2.as_str(), "/index");
    let mut r = String::from_str("<a href=\".");
    r.append(href_rel.as_str());
    r.append("\">");
    r.append(title.as_str());
    r.append("</a>");
    proof {
        assert(r@ =~= link_entry(file@, dest@));
    }
    r
}

/// Joins the anchors for all generated pages with line breaks, in the order
/// the pages were generated.
pub fn generate_links(files: &Vec<String>, dest: &str) -> (r: String)
    ensures
        r@ == links_markup(files.deep_view(), dest@),
{
    let mut r = String::new();
    let mut i: usize = 0;
    proof {
        assert(files.deep_view().take(0) =~= Seq::<Seq<char>>::empty());
    }
    while i < files.len()
        invariant
            0 <= i <= files@.len(),
            files.deep_view().len() == files@.len(),
            r@ == links_markup(files.deep_view().take(i as int), dest@),
        decreases files@.len() - i,
    {
        let link = make_link(files[i].as_str(), dest);
        if i == 0 {
            r = link;
        } else {
            r.append("<br/>\n");
            r.append(link.as_str());
        }
        proof {
            let dv = files.deep_view();
            assert(dv.take(i + 1).drop_last() =~= dv.take(i as int));
            assert(dv.take(i + 1).last() == dv[i as int]);
            assert(dv[i as int] == files@[i as int]@);
        }
        i = i + 1;
    }
    proof {
        assert(files.deep_view().take(files@.len() as int) =~= files.deep_view());
    }
    r
}

/// The default index source document: a complete page whose body is exactly
/// the placeholder token.
pub fn generate_default_index_html() -> (r: String)
    ensures
        r@ == spec_default_index(),
{
    let mut html = header();
    html.append(create_body("{{LINKS}}").as_str());
    html.append(footer().as_str());
    proof {
        assert(html@ =~= spec_default_index());
    }
    html
}

} // verus!
