//! Reports as web pages.

use vstd::prelude::*;

use crate::text::cat3;

verus! {

/// What `pulldown_cmark` writes for a Markdown text with all its extensions.
pub uninterp spec fn html_of(markdown: Seq<char>) -> Seq<char>;

/// Turns Markdown into HTML with `pulldown_cmark::html::push_html`, which
/// writes the events of `pulldown_cmark::Parser::new_ext` with all options.
/// The text that it writes depends on the Markdown alone.
#[verifier::external_body]
fn push_markdown(markdown: &str) -> (r: String)
    ensures
        r@ == html_of(markdown@),
{
    let mut out = String::new();
    let parser = pulldown_cmark::Parser::new_ext(markdown, pulldown_cmark::Options::all());
    pulldown_cmark::html::push_html(&mut out, parser);
    out
}

/// What stands before the body of a page.
pub open spec fn page_head() -> Seq<char> {
    "<!doctype html><html><head><meta charset=\"utf-8\"><meta name=\"viewport\" content=\"width=device-width,initial-scale=1\"><title>FactorLens Report</title><style>body{font-family:-apple-system,BlinkMacSystemFont,Segoe UI,Roboto,Arial,sans-serif;max-width:1024px;margin:24px auto;padding:0 16px;line-height:1.5}table{border-collapse:collapse;width:100%}th,td{border:1px solid #ddd;padding:6px 8px;text-align:left}th{background:#f5f5f5}code{background:#f3f3f3;padding:2px 4px;border-radius:4px}</style></head><body>"@
}

/// A page around a body.
pub open spec fn page_around(body: Seq<char>) -> Seq<char> {
    page_head() + body + "</body></html>"@
}

/// Puts a body into a page.
pub fn wrap_body(body: &str) -> (r: String)
    ensures
        r@ == page_around(body@),
{
    cat3(
        "<!doctype html><html><head><meta charset=\"utf-8\"><meta name=\"viewport\" content=\"width=device-width,initial-scale=1\"><title>FactorLens Report</title><style>body{font-family:-apple-system,BlinkMacSystemFont,Segoe UI,Roboto,Arial,sans-serif;max-width:1024px;margin:24px auto;padding:0 16px;line-height:1.5}table{border-collapse:collapse;width:100%}th,td{border:1px solid #ddd;padding:6px 8px;text-align:left}th{background:#f5f5f5}code{background:#f3f3f3;padding:2px 4px;border-radius:4px}</style></head><body>",
        body,
        "</body></html>",
    )
}

/// A Markdown report as a web page.
pub fn markdown_to_html(markdown: &str) -> (r: String)
    ensures
        r@ == page_around(html_of(markdown@)),
{
    let body = push_markdown(markdown);
    wrap_body(body.as_str())
}

} // verus!
