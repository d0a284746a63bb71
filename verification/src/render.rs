//! Turning Markdown into an HTML page, with `pulldown-cmark`.

use vstd::prelude::*;

verus! {

/// The HTML that `pulldown-cmark` renders from a Markdown text.
pub uninterp spec fn html_of_markdown(markdown: Seq<char>) -> Seq<char>;

/// Renders Markdown as HTML with `pulldown_cmark::html::push_html` over a
/// `pulldown_cmark::Parser` of the text. The HTML is named, not stated.
#[verifier::external_body]
pub(crate) fn markdown_to_html(markdown: &str) -> (r: String)
    ensures
        r@ == html_of_markdown(markdown@),
{
    let parser = pulldown_cmark::Parser::new(markdown);
    let mut html = String::new();
    pulldown_cmark::html::push_html(&mut html, parser);
    html
}

/// A documentation page: the title, a link back to the index at
/// `root_prefix`, and the body.
pub open spec fn page_html(title: Seq<char>, root_prefix: Seq<char>, body: Seq<char>) -> Seq<char> {
    "<!DOCTYPE html>\n<html lang=\"en\">\n<head>\n<meta charset=\"UTF-8\">\n<title>"@ + title
        + "</title>\n</head>\n<body>\n<p><a href=\""@ + root_prefix + "index.html\">Index</a></p>\n"@
        + body + "</body>\n</html>\n"@
}

/// The page for a Markdown text: its HTML, under the given title, with a
/// link back to the index at `root_prefix`.
pub fn parse_markdown(markdown: &str, title: &str, root_prefix: &str) -> (r: String)
    ensures
        r@ == page_html(title@, root_prefix@, html_of_markdown(markdown@)),
{
    let body = markdown_to_html(markdown);
    let mut page = String::from_str("<!DOCTYPE html>\n<html lang=\"en\">\n<head>\n<meta charset=\"UTF-8\">\n<title>");
    page.append(title);
    page.append("</title>\n</head>\n<body>\n<p><a href=\"");
    page.append(root_prefix);
    page.append("index.html\">Index</a></p>\n");
    page.append(body.as_str());
    page.append("</body>\n</html>\n");
    page
}

} // verus!
