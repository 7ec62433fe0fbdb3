//! The fixed HTML document template: header, footer, and the body and
//! title fragments that wrap a page's content.
use vstd::prelude::*;
use vstd::string::StrSliceExecFns;
use vstd::string::StringExecFns;

verus! {

/// A character as it may stand inside an HTML text node or title.
pub open spec fn escape_char(c: char) -> Seq<char> {
    if c == '&' {
        "&amp;"@
    } else if c == '<' {
        "&lt;"@
    } else if c == '>' {
        "&gt;"@
    } else if c == '"' {
        "&quot;"@
    } else if c == '\'' {
        "&#39;"@
    } else {
        seq![c]
    }
}

/// Text with every markup-significant character replaced by its entity.
pub open spec fn escape_html(s: Seq<char>) -> Seq<char>
    decreases s.len(),
{
    if s.len() == 0 {
        Seq::empty()
    } else {
        escape_html(s.drop_last()) + escape_char(s.last())
    }
}

/// Escapes text for use inside an HTML element.
pub fn escape_html_text(s: &str) -> (r: String)
    ensures
        r@ == escape_html(s@),
{
    let len = s.unicode_len();
    let mut r = String::new();
    let mut i: usize = 0;
    proof {
        assert(escape_html(s@.take(0)) =~= Seq::<char>::empty());
    }
    while i < len
        invariant
            len == s@.len(),
            0 <= i <= len,
            r@ == escape_html(s@.take(i as int)),
        decreases len - i,
    {
        let c = s.get_char(i);
        if c == '&' {
            r.append("&amp;");
        } else if c == '<' {
            r.append("&lt;");
        } else if c == '>' {
            r.append("&gt;");
        } else if c == '"' {
            r.append("&quot;");
        } else if c == '\'' {
            r.append("&#39;");
        } else {
            let piece = s.substring_char(i, i + 1);
            r.append(piece);
            proof {
                assert(piece@ =~= seq![s@[i as int]]);
            }
        }
        proof {
            assert(s@.take(i + 1).drop_last() =~= s@.take(i as int));
            assert(s@.take(i + 1).last() == s@[i as int]);
        }
        i = i + 1;
    }
    proof {
        assert(s@.take(len as int) =~= s@);
    }
    r
}

/// The fixed text that opens every generated document.
pub open spec fn header_text() -> Seq<char> {
    "\n<!DOCTYPE html>\n<html lang=\"en\">\n    <head>\n        <meta charset=\"utf-8\">\n        <meta name=\"viewport\" content=\"width=device-width, initial-scale=1\">\n    </head>\n"@
}

/// The fixed text that closes every generated document.
pub open spec fn footer_text() -> Seq<char> {
    "\n</html>\n"@
}

pub open spec fn body_prefix() -> Seq<char> {
    "\n        <body>\n            "@
}

pub open spec fn body_suffix() -> Seq<char> {
    "\n        </body>\n        "@
}

pub open spec fn title_prefix() -> Seq<char> {
    "\n        <title>"@
}

pub open spec fn title_suffix() -> Seq<char> {
    "</title>\n        "@
}

/// A body element wrapping `body` verbatim.
pub open spec fn spec_create_body(body: Seq<char>) -> Seq<char> {
    body_prefix() + body + body_suffix()
}

/// A title element containing `title`, HTML-escaped.
pub open spec fn spec_create_title(title: Seq<char>) -> Seq<char> {
    title_prefix() + escape_html(title) + title_suffix()
}

/// The document header, as executable text.
pub fn header() -> (r: String)
    ensures
        r@ == header_text(),
{
    String::from_str("\n<!DOCTYPE html>\n<html lang=\"en\">\n    <head>\n        <meta charset=\"utf-8\">\n        <meta name=\"viewport\" content=\"width=device-width, initial-scale=1\">\n    </head>\n")
}

/// The document footer, as executable text.
pub fn footer() -> (r: String)
    ensures
        r@ == footer_text(),
{
    String::from_str("\n</html>\n")
}

/// Wraps a pre-rendered HTML fragment in a body element; the fragment is
/// trusted markup and is not escaped.
pub fn create_body(body: &str) -> (r: String)
    ensures
        r@ == spec_create_body(body@),
{
    let mut r = String::from_str("\n        <body>\n            ");
    r.append(body);
    r.append("\n        </body>\n        ");
    proof {
        assert(r@ =~= spec_create_body(body@));
    }
    r
}

/// Wraps a page title in a title element, escaping it for HTML.
pub fn create_title(title: &str) -> (r: String)
    ensures
        r@ == spec_create_title(title@),
{
    let mut r = String::from_str("\n        <title>");
    let escaped = escape_html_text(title);
    r.append(escaped.as_str());
    r.append("</title>\n        ");
    proof {
        assert(r@ =~= spec_create_title(title@));
    }
    r
}

} // verus!
